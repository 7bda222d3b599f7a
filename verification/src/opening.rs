//! Reading what is stored, and bringing older forms of it up to date.
use vstd::prelude::*;
use vstd::string::*;

use crate::bookmarks::Bookmark;
use crate::clock::now_rfc3339;
use crate::control_service::ControlAuditRecord;
use crate::database::{
    browser_ensured, browser_saved, is_default_browser, lemma_no_rows, lemma_only_row, marks_agree,
    same_connections, same_records, Database,
};
use crate::mux_layout::{copy_opt_layout, opt_layout, pruned};
use crate::mux_store::{
    id_or, migrate_layout, migrated, BrowserResource, BrowserResourceInput, MigrationPlan, MuxPane,
    MuxPaneKind, MuxSession,
};
use crate::ordered_text::{before, is_before, lemma_before_total, lemma_before_transitive};
use crate::remote_import::{all_uuids, fresh_ids, KnownHostImportEntry, PortForwardProfile};
use crate::rows::{BookmarkView, BrowserView, SessionView};
use crate::stored_transfers::TransferTask;
use crate::table::{
    ids_once, in_order, key_le, lemma_row_with, lemma_with_row, row_views, row_with, rows_of, spot,
    with_row, without_row, Row, Table,
};
use crate::text::{is_space, list_has, push_text, to_chars, trim, trim_end, trim_start, views};
use crate::text_map::TextMap;

verus! {

/// The rows as they are read, in any order.
#[derive(Debug)]
pub struct StoredRows {
    pub bookmarks: Vec<Bookmark>,
    pub credential_refs: Vec<String>,
    pub groups: Vec<String>,
    pub forwardings: Vec<PortForwardProfile>,
    pub known_hosts: Vec<KnownHostImportEntry>,
    pub settings: TextMap<String>,
    pub sessions: Vec<MuxSession>,
    pub panes: Vec<MuxPane>,
    pub browsers: Vec<BrowserResource>,
    pub audit: Vec<ControlAuditRecord>,
    pub transfers: Vec<TransferTask>,
}

/// The table of the rows that were read.
pub open spec fn filled<R: Row>(rows: Seq<R>) -> Seq<R>
    decreases rows.len(),
{
    if rows.len() == 0 {
        rows
    } else {
        with_row(filled(rows.drop_last()), rows.last())
    }
}

proof fn lemma_filled<R: Row>(rows: Seq<R>)
    ensures
        in_order(filled(rows)),
        ids_once(filled(rows)),
        forall|k: int| 0 <= k < filled(rows).len() ==> rows.contains(#[trigger] filled(rows)[k]),
    decreases rows.len(),
{
    if rows.len() > 0 {
        let head = rows.drop_last();
        lemma_filled(head);
        lemma_with_row(filled(head), rows.last());
        assert forall|k: int| 0 <= k < filled(rows).len() implies rows.contains(
            #[trigger] filled(rows)[k],
        ) by {
            let row = filled(rows)[k];
            if row == rows.last() {
                assert(rows[rows.len() - 1] == row);
            } else {
                let m = choose|m: int| 0 <= m < filled(head).len() && filled(head)[m] == row;
                assert(head.contains(filled(head)[m]));
                let n = choose|n: int| 0 <= n < head.len() && head[n] == row;
                assert(rows[n] == row);
            }
        }
    }
}

fn fill<R: Row>(rows: Vec<R>) -> (r: Table<R>)
    ensures
        r.wf(),
        r.rows@ == filled(rows@),
{
    let ghost all = rows@;
    let mut rows = rows;
    let mut r: Table<R> = Table::new();
    let ghost mut done: int = 0;
    assert(all.skip(0) =~= all);
    assert(r.rows@ =~= filled(all.take(0)));
    while rows.len() > 0
        invariant
            r.wf(),
            0 <= done <= all.len(),
            rows@ == all.skip(done),
            r.rows@ == filled(all.take(done)),
        decreases all.len() - done,
    {
        assert(all.take(done + 1).drop_last() =~= all.take(done));
        assert(all.take(done + 1).last() == all[done]);
        let row = rows.remove(0);
        assert(row == all[done]);
        r.put(row);
        proof {
            assert(rows@ =~= all.skip(done + 1));
            done = done + 1;
        }
    }
    assert(all.take(done) =~= all);
    r
}

proof fn lemma_spot_end<R: Row>(rows: Seq<R>, row: R)
    requires
        forall|k: int| 0 <= k < rows.len() ==> key_le(#[trigger] rows[k], row),
    ensures
        spot(rows, row) == rows.len(),
    decreases rows.len(),
{
    if rows.len() > 0 {
        assert(key_le(rows[0], row));
        assert forall|k: int| 0 <= k < rows.len() - 1 implies key_le(
            #[trigger] rows.skip(1)[k],
            row,
        ) by {
            assert(key_le(rows[k + 1], row));
        }
        lemma_spot_end(rows.skip(1), row);
    }
}

proof fn lemma_without_other<R: Row>(rows: Seq<R>, id: Seq<char>)
    requires
        forall|k: int| 0 <= k < rows.len() ==> (#[trigger] rows[k]).key_id() != id,
    ensures
        without_row(rows, id) == rows,
    decreases rows.len(),
{
    if rows.len() > 0 {
        assert(rows[rows.len() - 1].key_id() != id);
        lemma_without_other(rows.drop_last(), id);
        assert(rows.drop_last().push(rows.last()) =~= rows);
    }
}

/// What was stored is read back as it was: rows that stand in their order, each id once, make the
/// same table again.
pub proof fn law_stored_rows_are_read_back<R: Row>(rows: Seq<R>)
    requires
        in_order(rows),
        ids_once(rows),
    ensures
        filled(rows) == rows,
    decreases rows.len(),
{
    if rows.len() > 0 {
        let head = rows.drop_last();
        let last = rows.last();
        law_stored_rows_are_read_back(head);
        assert forall|k: int| 0 <= k < head.len() implies key_le(#[trigger] head[k], last) && head[k].key_id()
            != last.key_id() by {
            assert(rows[k] == head[k] && rows[rows.len() - 1] == last);
        }
        lemma_without_other(head, last.key_id());
        lemma_spot_end(head, last);
        assert(head.insert(head.len() as int, last) =~= rows);
    }
}

/// When a connection was used last, or changed where it was never used.
pub open spec fn used_at(row: Bookmark) -> Seq<char> {
    if row.last_connected_at@.len() == 0 {
        row.updated_at@
    } else {
        row.last_connected_at@
    }
}

/// One connection comes in front of another: favorites first, then by when they were used.
pub open spec fn is_fresher(a: Bookmark, b: Bookmark) -> bool {
    a.favorite && !b.favorite || a.favorite == b.favorite && before(used_at(b), used_at(a))
}

/// The connections with one more at its place.
pub open spec fn with_fresh(list: Seq<Bookmark>, row: Bookmark) -> Seq<Bookmark>
    decreases list.len(),
{
    if list.len() == 0 {
        seq![row]
    } else if is_fresher(row, list[0]) {
        seq![row] + list
    } else {
        seq![list[0]] + with_fresh(list.skip(1), row)
    }
}

/// The connections by when they were used, favorites first.
pub open spec fn by_use(rows: Seq<Bookmark>) -> Seq<Bookmark>
    decreases rows.len(),
{
    if rows.len() == 0 {
        rows
    } else {
        with_fresh(by_use(rows.drop_last()), rows.last())
    }
}

fn is_used_before(a: &Bookmark, b: &Bookmark) -> (r: bool)
    ensures
        r == is_fresher(*a, *b),
{
    if a.favorite && !b.favorite {
        return true;
    }
    if a.favorite != b.favorite {
        return false;
    }
    let a_used = if a.last_connected_at.as_str().is_empty() {
        a.updated_at.as_str()
    } else {
        a.last_connected_at.as_str()
    };
    let b_used = if b.last_connected_at.as_str().is_empty() {
        b.updated_at.as_str()
    } else {
        b.last_connected_at.as_str()
    };
    is_before(b_used, a_used)
}

fn insert_fresh(list: &mut Vec<Bookmark>, row: Bookmark)
    ensures
        final(list)@ == with_fresh(old(list)@, row),
{
    let ghost all = list@;
    let mut i: usize = 0;
    assert(all.skip(0) =~= all);
    assert(all.take(0) + with_fresh(all, row) =~= with_fresh(all, row));
    while i < list.len() && !is_used_before(&row, &list[i])
        invariant
            list@ == all,
            i <= all.len(),
            with_fresh(all, row) == all.take(i as int) + with_fresh(all.skip(i as int), row),
        decreases all.len() - i,
    {
        assert(all.skip(i as int)[0] == all[i as int]);
        assert(all.skip(i as int).skip(1) =~= all.skip(i + 1));
        assert(all.take(i as int) + (seq![all[i as int]] + with_fresh(all.skip(i + 1), row))
            =~= all.take(i + 1) + with_fresh(all.skip(i + 1), row));
        i = i + 1;
    }
    proof {
        if i < all.len() {
            assert(all.skip(i as int)[0] == all[i as int]);
        } else {
            assert(all.skip(i as int) =~= Seq::empty());
        }
        assert(with_fresh(all.skip(i as int), row) =~= seq![row] + all.skip(i as int));
    }
    list.insert(i, row);
    assert(list@ =~= all.take(i as int) + (seq![row] + all.skip(i as int)));
}

/// The connections of a form that had no order: each has its place by when it was used.
pub open spec fn placed_by_use(rows: Seq<Bookmark>) -> Seq<BookmarkView> {
    Seq::new(
        by_use(rows).len(),
        |i: int| BookmarkView { sort_order: i as i64, ..by_use(rows)[i]@ },
    )
}

/// Gives connections of a form that had no order their places.
pub fn order_bookmarks(rows: Vec<Bookmark>) -> (r: Vec<Bookmark>)
    requires
        rows@.len() <= i64::MAX,
    ensures
        row_views(r@) == placed_by_use(rows@),
{
    let ghost all = rows@;
    let mut rows = rows;
    let mut list: Vec<Bookmark> = Vec::new();
    let ghost mut done: int = 0;
    assert(all.skip(0) =~= all);
    assert(list@ =~= by_use(all.take(0)));
    while rows.len() > 0
        invariant
            0 <= done <= all.len(),
            rows@ == all.skip(done),
            list@ == by_use(all.take(done)),
        decreases all.len() - done,
    {
        assert(all.take(done + 1).drop_last() =~= all.take(done));
        assert(all.take(done + 1).last() == all[done]);
        let row = rows.remove(0);
        assert(row == all[done]);
        insert_fresh(&mut list, row);
        proof {
            assert(rows@ =~= all.skip(done + 1));
            done = done + 1;
        }
    }
    assert(all.take(done) =~= all);
    proof {
        lemma_by_use_len(all);
    }
    let mut r: Vec<Bookmark> = Vec::new();
    let mut i: usize = 0;
    while i < list.len()
        invariant
            list@ == by_use(all),
            list@.len() <= i64::MAX,
            i <= list@.len(),
            r@.len() == i,
            forall|k: int|
                #![trigger r@[k]]
                0 <= k < i ==> r@[k]@ == (BookmarkView { sort_order: k as i64, ..list@[k]@ }),
        decreases list@.len() - i,
    {
        let mut row = list[i].copy_row();
        row.sort_order = i as i64;
        r.push(row);
        i = i + 1;
    }
    assert(row_views(r@) =~= placed_by_use(all));
    r
}

proof fn lemma_by_use_len(rows: Seq<Bookmark>)
    ensures
        by_use(rows).len() == rows.len(),
    decreases rows.len(),
{
    if rows.len() > 0 {
        lemma_by_use_len(rows.drop_last());
        lemma_with_fresh_len(by_use(rows.drop_last()), rows.last());
    }
}

proof fn lemma_with_fresh_len(list: Seq<Bookmark>, row: Bookmark)
    ensures
        with_fresh(list, row).len() == list.len() + 1,
    decreases list.len(),
{
    if list.len() > 0 && !is_fresher(row, list[0]) {
        lemma_with_fresh_len(list.skip(1), row);
    }
}

/// The text holds spaces only.
pub open spec fn only_spaces(s: Seq<char>) -> bool {
    forall|i: int| 0 <= i < s.len() ==> #[trigger] s[i] == ' '
}

fn is_only_spaces(s: &str) -> (r: bool)
    ensures
        r == only_spaces(s@),
{
    let chars = to_chars(s);
    let mut i: usize = 0;
    while i < chars.len()
        invariant
            chars@ == s@,
            i <= chars@.len(),
            forall|k: int| 0 <= k < i ==> #[trigger] s@[k] == ' ',
        decreases chars@.len() - i,
    {
        if chars[i] != ' ' {
            assert(s@[i as int] != ' ');
            return false;
        }
        i = i + 1;
    }
    true
}

/// The browser that a pane of the former kind becomes.
pub open spec fn browser_of_pane(pane: MuxPane) -> BrowserView {
    BrowserView {
        id: pane.id@,
        mux_session_id: pane.mux_session_id@,
        name: pane.title@,
        source_pane_id: pane.target_id@,
        bookmark_id: pane.bookmark_id@,
        url: if only_spaces(pane.command@) {
            "about:blank"@
        } else {
            pane.command@
        },
        temporary_profile: false,
        sort_order: pane.sort_order,
        created_at: pane.created_at@,
        updated_at: pane.updated_at@,
    }
}

fn pane_as_browser(pane: &MuxPane) -> (r: BrowserResource)
    ensures
        r@ == browser_of_pane(*pane),
{
    BrowserResource {
        id: pane.id.clone(),
        mux_session_id: pane.mux_session_id.clone(),
        name: pane.title.clone(),
        source_pane_id: pane.target_id.clone(),
        bookmark_id: pane.bookmark_id.clone(),
        url: if is_only_spaces(pane.command.as_str()) {
            "about:blank".to_owned()
        } else {
            pane.command.clone()
        },
        temporary_profile: false,
        sort_order: pane.sort_order,
        created_at: pane.created_at.clone(),
        updated_at: pane.updated_at.clone(),
    }
}

/// The panes that show a browser.
pub open spec fn browser_panes(panes: Seq<MuxPane>) -> Seq<MuxPane>
    decreases panes.len(),
{
    if panes.len() == 0 {
        panes
    } else if panes.last().kind == MuxPaneKind::Browser {
        browser_panes(panes.drop_last()).push(panes.last())
    } else {
        browser_panes(panes.drop_last())
    }
}

/// The panes that show no browser.
pub open spec fn other_panes(panes: Seq<MuxPane>) -> Seq<MuxPane>
    decreases panes.len(),
{
    if panes.len() == 0 {
        panes
    } else if panes.last().kind == MuxPaneKind::Browser {
        other_panes(panes.drop_last())
    } else {
        other_panes(panes.drop_last()).push(panes.last())
    }
}

/// The ids of panes.
pub open spec fn pane_ids(panes: Seq<MuxPane>) -> Seq<Seq<char>> {
    panes.map_values(|pane: MuxPane| pane.id@)
}

/// The browsers with others whose ids are not taken.
pub open spec fn with_new(rows: Seq<BrowserResource>, added: Seq<BrowserResource>) -> Seq<
    BrowserResource,
>
    decreases added.len(),
{
    if added.len() == 0 {
        rows
    } else {
        let rest = with_new(rows, added.drop_last());
        if row_with(rest, added.last().id@) is None {
            with_row(rest, added.last())
        } else {
            rest
        }
    }
}

/// The browsers are those that the panes become.
pub open spec fn are_browsers_of(added: Seq<BrowserResource>, panes: Seq<MuxPane>) -> bool {
    &&& added.len() == panes.len()
    &&& forall|i: int| 0 <= i < panes.len() ==> (#[trigger] added[i])@ == browser_of_pane(panes[i])
}

/// The sessions once their browser panes left the layouts.
pub open spec fn without_browsers(sessions: Seq<MuxSession>, gone: Seq<Seq<char>>) -> Seq<
    SessionView,
> {
    sessions.map_values(
        |session: MuxSession|
            SessionView { layout: migrated(opt_layout(session.layout), gone), ..session@ },
    )
}

/// The panes that showed browsers became browsers of their sessions.
pub open spec fn browsers_moved(start: Database, after: Database) -> bool {
    let moved = browser_panes(start.panes.rows@);
    &&& exists|added: Seq<BrowserResource>|
        are_browsers_of(added, moved) && after.browsers.rows@ == #[trigger] with_new(
            start.browsers.rows@,
            added,
        )
    &&& row_views(after.sessions.rows@) == (if moved.len() > 0 {
        without_browsers(start.sessions.rows@, pane_ids(moved))
    } else {
        row_views(start.sessions.rows@)
    })
    &&& after.panes.rows@ == other_panes(start.panes.rows@)
    &&& same_connections(start, after)
    &&& same_records(start, after)
}

proof fn lemma_other_panes(rows: Seq<MuxPane>)
    ensures
        forall|k: int|
            0 <= k < other_panes(rows).len() ==> rows.contains(#[trigger] other_panes(rows)[k]),
        in_order(rows) ==> in_order(other_panes(rows)),
        ids_once(rows) ==> ids_once(other_panes(rows)),
    decreases rows.len(),
{
    if rows.len() > 0 {
        let head = rows.drop_last();
        let rest = other_panes(head);
        let whole = other_panes(rows);
        lemma_other_panes(head);
        assert forall|k: int| 0 <= k < whole.len() implies rows.contains(#[trigger] whole[k]) by {
            if k < rest.len() {
                assert(rest[k] == whole[k]);
                let m = choose|m: int| 0 <= m < head.len() && head[m] == rest[k];
                assert(rows[m] == rest[k]);
            } else {
                assert(rows[rows.len() - 1] == whole[k]);
            }
        }
        assert(in_order(rows) ==> in_order(head));
        assert(ids_once(rows) ==> ids_once(head));
        assert forall|i: int, j: int| 0 <= i < j < whole.len() implies (in_order(rows) ==> key_le(
            #[trigger] whole[i],
            #[trigger] whole[j],
        )) && (ids_once(rows) ==> whole[i].key_id() != whole[j].key_id()) by {
            assert(whole[i] == rest[i]);
            if j < rest.len() {
                assert(whole[j] == rest[j]);
            } else {
                let m = choose|m: int| 0 <= m < head.len() && head[m] == rest[i];
                assert(rows[m] == whole[i]);
                assert(rows[rows.len() - 1] == whole[j]);
            }
        }
    }
}

/// The rows with the marks of their credentials.
pub open spec fn marked_views(rows: Seq<BookmarkView>, refs: Seq<Seq<char>>) -> Seq<BookmarkView> {
    rows.map_values(
        |row: BookmarkView| BookmarkView { has_saved_credential: refs.contains(row.id), ..row },
    )
}

fn mark_rows(rows: Vec<Bookmark>, refs: &[String]) -> (r: Vec<Bookmark>)
    ensures
        row_views(r@) == marked_views(row_views(rows@), views(refs@)),
        marks_agree(r@, views(refs@)),
{
    let ghost all = row_views(rows@);
    let mut r: Vec<Bookmark> = Vec::new();
    let mut i: usize = 0;
    while i < rows.len()
        invariant
            all == row_views(rows@),
            all.len() == rows@.len(),
            i <= rows@.len(),
            r@.len() == i,
            forall|k: int|
                #![trigger r@[k]]
                0 <= k < i ==> r@[k]@ == (BookmarkView {
                    has_saved_credential: views(refs@).contains(all[k].id),
                    ..all[k]
                }),
        decreases rows@.len() - i,
    {
        assert(all[i as int] == rows@[i as int]@);
        let mut row = rows[i].copy_row();
        assert(row@.id == all[i as int].id);
        row.has_saved_credential = list_has(refs, row.id.as_str());
        r.push(row);
        i = i + 1;
    }
    proof {
        assert(row_views(r@) =~= marked_views(all, views(refs@)));
        assert forall|k: int| 0 <= k < r@.len() implies (#[trigger] r@[k]).has_saved_credential
            == views(refs@).contains(r@[k].id@) by {
            assert(r@[k]@.id == all[k].id);
            assert(r@[k]@.has_saved_credential == views(refs@).contains(all[k].id));
        }
    }
    r
}

/// The database holds the rows that were read.
pub open spec fn holds_rows(db: Database, stored: StoredRows, ordered: bool) -> bool {
    &&& exists|rows: Seq<Bookmark>|
        row_views(rows) == marked_views(
            if ordered {
                row_views(stored.bookmarks@)
            } else {
                placed_by_use(stored.bookmarks@)
            },
            views(stored.credential_refs@),
        ) && db.bookmarks.rows@ == #[trigger] filled(rows)
    &&& db.credential_refs == stored.credential_refs
    &&& db.groups == stored.groups
    &&& db.forwardings == stored.forwardings
    &&& db.known_hosts == stored.known_hosts
    &&& db.settings == stored.settings
    &&& db.sessions.rows@ == filled(stored.sessions@)
    &&& db.panes.rows@ == filled(stored.panes@)
    &&& db.browsers.rows@ == filled(stored.browsers@)
    &&& db.audit == stored.audit
    &&& db.transfers == stored.transfers
}

/// Every session has an id without outer white space.
pub open spec fn are_named(sessions: Seq<MuxSession>) -> bool {
    forall|i: int|
        0 <= i < sessions.len() ==> trim((#[trigger] sessions[i]).id@) == sessions[i].id@
            && sessions[i].id@.len() > 0
}

/// Each session of the first ones has a browser.
pub open spec fn have_browsers(sessions: Seq<MuxSession>, browsers: Seq<BrowserResource>) -> bool {
    forall|i: int|
        0 <= i < sessions.len() && trim((#[trigger] sessions[i]).id@) == sessions[i].id@
            ==> rows_of(browsers, Some(sessions[i].id@)).len() > 0
}

impl Database {
    /// Reads what is stored and brings it up to date as planned.
    pub fn open(stored: StoredRows, plan: &MigrationPlan) -> (r: Database)
        requires
            stored.settings.wf(),
            stored.bookmarks@.len() <= i64::MAX,
        ensures
            r.wf(),
            if plan.move_browser_panes {
                exists|read: Database|
                    holds_rows(read, stored, !plan.add_bookmark_order) && read.wf()
                        && #[trigger] browsers_moved(read, r)
            } else {
                holds_rows(r, stored, !plan.add_bookmark_order)
            },
    {
        let ghost given = stored;
        let bookmarks = if plan.add_bookmark_order {
            order_bookmarks(stored.bookmarks)
        } else {
            stored.bookmarks
        };
        let marked = mark_rows(bookmarks, &stored.credential_refs);
        proof {
            lemma_filled(marked@);
            assert forall|i: int| 0 <= i < filled(marked@).len() implies (
            #[trigger] filled(marked@)[i]).has_saved_credential == views(
                stored.credential_refs@,
            ).contains(filled(marked@)[i].id@) by {
                assert(marked@.contains(filled(marked@)[i]));
                let k = choose|k: int| 0 <= k < marked@.len() && marked@[k] == filled(marked@)[i];
                assert(marked@[k].has_saved_credential == views(stored.credential_refs@).contains(
                    marked@[k].id@,
                ));
            }
        }
        let mut db = Database {
            bookmarks: fill(marked),
            credential_refs: stored.credential_refs,
            groups: stored.groups,
            forwardings: stored.forwardings,
            known_hosts: stored.known_hosts,
            settings: stored.settings,
            sessions: fill(stored.sessions),
            panes: fill(stored.panes),
            browsers: fill(stored.browsers),
            audit: stored.audit,
            transfers: stored.transfers,
        };
        assert(holds_rows(db, given, !plan.add_bookmark_order));
        if plan.move_browser_panes {
            db.move_browser_panes();
        }
        db
    }

    fn move_browser_panes(&mut self)
        requires
            old(self).wf(),
        ensures
            final(self).wf(),
            browsers_moved(*old(self), *final(self)),
    {
        let ghost start = *self;
        let ghost panes = self.panes.rows@;
        let ghost mut added: Seq<BrowserResource> = Seq::empty();
        let mut gone: Vec<String> = Vec::new();
        let mut kept: Vec<MuxPane> = Vec::new();
        let ghost mut done: int = 0;
        proof {
            lemma_other_panes(panes);
            assert(panes.skip(0) =~= panes);
            assert(views(gone@) =~= pane_ids(browser_panes(panes.take(0))));
            assert(kept@ =~= other_panes(panes.take(0)));
        }
        while self.panes.rows.len() > 0
            invariant
                panes == start.panes.rows@,
                start == *old(self),
                0 <= done <= panes.len(),
                self.panes.rows@ == panes.skip(done),
                kept@ == other_panes(panes.take(done)),
                views(gone@) == pane_ids(browser_panes(panes.take(done))),
                added.len() == browser_panes(panes.take(done)).len(),
                are_browsers_of(added, browser_panes(panes.take(done))),
                self.browsers.wf(),
                self.browsers.rows@ == with_new(start.browsers.rows@, added),
                self.sessions == start.sessions,
                same_connections(start, *self),
                same_records(start, *self),
            decreases panes.len() - done,
        {
            assert(panes.take(done + 1).drop_last() =~= panes.take(done));
            assert(panes.take(done + 1).last() == panes[done]);
            let pane = self.panes.rows.remove(0);
            assert(pane == panes[done]);
            match pane.kind {
                MuxPaneKind::Browser => {
                    let ghost before_ids = views(gone@);
                    let ghost shown = browser_panes(panes.take(done));
                    let row = pane_as_browser(&pane);
                    assert(row@.id == pane.id@);
                    proof {
                        let grown = added.push(row);
                        assert(grown.drop_last() =~= added);
                        assert forall|i: int| 0 <= i < grown.len() implies (
                        #[trigger] grown[i])@ == browser_of_pane(shown.push(pane)[i]) by {
                            if i < added.len() {
                                assert(grown[i] == added[i]);
                            }
                        }
                        added = grown;
                    }
                    push_text(&mut gone, pane.id.clone());
                    assert(pane_ids(shown.push(pane)) =~= pane_ids(shown).push(pane.id@));
                    if self.browsers.get(row.id.as_str()).is_none() {
                        self.browsers.put(row);
                    }
                },
                _ => {
                    kept.push(pane);
                },
            }
            proof {
                assert(self.panes.rows@ =~= panes.skip(done + 1));
                done = done + 1;
            }
        }
        assert(panes.take(done) =~= panes);
        self.panes.rows = kept;
        assert(views(gone@).len() == gone@.len());
        assert(pane_ids(browser_panes(panes)).len() == browser_panes(panes).len());
        if gone.len() > 0 {
            self.prune_layouts(&gone);
        }
    }

    fn prune_layouts(&mut self, gone: &[String])
        requires
            old(self).wf(),
        ensures
            final(self).wf(),
            row_views(final(self).sessions.rows@) == without_browsers(
                old(self).sessions.rows@,
                views(gone@),
            ),
            final(self).panes == old(self).panes,
            final(self).browsers == old(self).browsers,
            same_connections(*old(self), *final(self)),
            same_records(*old(self), *final(self)),
    {
        let ghost rows = self.sessions.rows@;
        let mut i: usize = 0;
        while i < self.sessions.rows.len()
            invariant
                rows == old(self).sessions.rows@,
                old(self).wf(),
                self.panes == old(self).panes,
                self.browsers == old(self).browsers,
                same_connections(*old(self), *self),
                same_records(*old(self), *self),
                i <= rows.len(),
                self.sessions.rows@.len() == rows.len(),
                forall|k: int| i <= k < rows.len() ==> #[trigger] self.sessions.rows@[k] == rows[k],
                forall|k: int|
                    #![trigger self.sessions.rows@[k]]
                    0 <= k < i ==> self.sessions.rows@[k]@ == (SessionView {
                        layout: migrated(opt_layout(rows[k].layout), views(gone@)),
                        ..rows[k]@
                    }),
            decreases rows.len() - i,
        {
            let mut row = self.sessions.rows[i].copy_row();
            assert(row@.layout == rows[i as int]@.layout);
            let layout = copy_opt_layout(&row.layout);
            row.layout = migrate_layout(layout, gone);
            self.sessions.rows.set(i, row);
            i = i + 1;
        }
        proof {
            let after = self.sessions.rows@;
            assert(row_views(after) =~= without_browsers(rows, views(gone@)));
            assert forall|k: int| 0 <= k < after.len() implies {
                &&& (#[trigger] after[k]).id@ == rows[k].id@
                &&& after[k].sort_order == rows[k].sort_order
                &&& after[k].created_at@ == rows[k].created_at@
            } by {
                assert(after[k]@.id == rows[k]@.id);
                assert(after[k]@.sort_order == rows[k]@.sort_order);
                assert(after[k]@.created_at == rows[k]@.created_at);
            }
            assert forall|a: int, b: int| 0 <= a < b < after.len() implies key_le(
                #[trigger] after[a],
                #[trigger] after[b],
            ) && after[a].key_id() != after[b].key_id() by {
                assert(key_le(rows[a], rows[b]));
                assert(rows[a].key_id() != rows[b].key_id());
            }
        }
    }

    /// Gives every session that has no browser one, under the given ids. It fails only where a
    /// session has an id with outer white space.
    pub fn ensure_browsers_as(&mut self, fresh: &[String], now: &str) -> (r: Result<(), String>)
        requires
            old(self).wf(),
            fresh@.len() == old(self).sessions.rows@.len(),
        ensures
            final(self).wf(),
            browsers_ensured(*old(self), *final(self), views(fresh@), now@, r),
    {
        let ghost sessions = self.sessions.rows@;
        let ghost ids = views(fresh@);
        let mut i: usize = 0;
        proof {
            assert(are_free(ids, self.browsers.rows@) ==> forall|k: int|
                0 <= k < ids.len() ==> row_with(self.browsers.rows@, #[trigger] ids[k]) is None);
        }
        while i < self.sessions.rows.len()
            invariant
                self.wf(),
                sessions == old(self).sessions.rows@,
                ids == views(fresh@),
                fresh@.len() == sessions.len(),
                self.sessions == old(self).sessions,
                self.panes == old(self).panes,
                same_connections(*old(self), *self),
                same_records(*old(self), *self),
                i <= sessions.len(),
                ensured_so_far(
                    *old(self),
                    *self,
                    sessions.take(i as int),
                    ids.take(i as int),
                    now@,
                ),
                are_free(ids, old(self).browsers.rows@) ==> {
                    &&& have_browsers(sessions.take(i as int), self.browsers.rows@)
                    &&& forall|k: int|
                        i <= k < ids.len() ==> row_with(
                            self.browsers.rows@,
                            #[trigger] ids[k],
                        ) is None
                },
            decreases sessions.len() - i,
        {
            let id = self.sessions.rows[i].id.clone();
            let ghost start = *self;
            proof {
                lemma_row_with(sessions, id@);
                assert(sessions[i as int].id@ == id@);
                assert(ids[i as int] == fresh@[i as int]@);
            }
            let outcome = self.ensure_session_browser_resource_as(
                id.as_str(),
                fresh[i].clone(),
                now,
            );
            proof {
                lemma_ensured(start, *self, id@, ids[i as int], now@, outcome);
            }
            match outcome {
                Ok(_) => {},
                Err(message) => {
                    assert(ended_at(*old(self), start, *self, i as int, ids, now@, message@));
                    assert(was_ended(*old(self), *self, ids, now@, message@));
                    assert(sessions[i as int].id@ == id@);
                    assert(!are_named(old(self).sessions.rows@));
                    return Err(message);
                },
            }
            proof {
                assert(sessions.take(i + 1).drop_last() =~= sessions.take(i as int));
                assert(ids.take(i + 1).drop_last() =~= ids.take(i as int));
                assert(sessions.take(i + 1).last() == sessions[i as int]);
                assert(ids.take(i + 1).last() == ids[i as int]);
                assert(ensured_step(
                    start,
                    *self,
                    sessions.take(i + 1).last().id@,
                    ids.take(i + 1).last(),
                    now@,
                ));
                if are_free(ids, old(self).browsers.rows@) {
                    assert(row_with(start.browsers.rows@, ids[i as int]) is None);
                    assert forall|k: int|
                        0 <= k < i + 1 && trim((#[trigger] sessions.take(i + 1)[k]).id@)
                            == sessions.take(i + 1)[k].id@ implies rows_of(
                        self.browsers.rows@,
                        Some(sessions.take(i + 1)[k].id@),
                    ).len() > 0 by {
                        if k < i {
                            assert(sessions.take(i as int)[k] == sessions.take(i + 1)[k]);
                            assert(rows_of(
                                start.browsers.rows@,
                                Some(sessions.take(i as int)[k].id@),
                            ).len() > 0);
                        }
                    }
                    assert forall|k: int| i + 1 <= k < ids.len() implies row_with(
                        self.browsers.rows@,
                        #[trigger] ids[k],
                    ) is None by {
                        assert(ids[k] != ids[i as int]);
                        assert(row_with(start.browsers.rows@, ids[k]) is None);
                    }
                }
            }
            i = i + 1;
        }
        assert(sessions.take(i as int) =~= sessions);
        assert(ids.take(i as int) =~= ids);
        Ok(())
    }

    /// Gives every session that has no browser one.
    pub fn ensure_browsers(&mut self) -> (r: Result<(), String>)
        requires
            old(self).wf(),
        ensures
            final(self).wf(),
            exists|fresh: Seq<Seq<char>>, now: Seq<char>|
                all_uuids(fresh) && #[trigger] browsers_ensured(
                    *old(self),
                    *final(self),
                    fresh,
                    now,
                    r,
                ),
    {
        let fresh = fresh_ids(self.sessions.rows.len());
        let now = now_rfc3339();
        self.ensure_browsers_as(&fresh, now.as_str())
    }
}

/// The ids differ from each other and from those of the browsers.
pub open spec fn are_free(ids: Seq<Seq<char>>, browsers: Seq<BrowserResource>) -> bool {
    &&& ids.no_duplicates()
    &&& forall|k: int| 0 <= k < ids.len() ==> row_with(browsers, #[trigger] ids[k]) is None
}

/// The browser of a session was asked for, and there is one.
pub open spec fn ensured_step(
    before: Database,
    after: Database,
    session: Seq<char>,
    fresh_id: Seq<char>,
    now: Seq<char>,
) -> bool {
    exists|browser: BrowserResource| #[trigger]
        browser_ensured(before, after, session, fresh_id, now, Ok(browser))
}

/// The browsers of the sessions were asked for one after the other, and there was one each time.
pub open spec fn ensured_so_far(
    start: Database,
    after: Database,
    sessions: Seq<MuxSession>,
    fresh: Seq<Seq<char>>,
    now: Seq<char>,
) -> bool
    decreases sessions.len(),
{
    if sessions.len() == 0 {
        after == start
    } else {
        exists|middle: Database|
            ensured_so_far(start, middle, sessions.drop_last(), fresh.drop_last(), now)
                && #[trigger] ensured_step(
                middle,
                after,
                sessions.last().id@,
                fresh.last(),
                now,
            )
    }
}

/// The browsers of the first sessions were asked for, and the next one was refused.
pub open spec fn ended_at(
    start: Database,
    reached: Database,
    after: Database,
    place: int,
    fresh: Seq<Seq<char>>,
    now: Seq<char>,
    message: Seq<char>,
) -> bool {
    let sessions = start.sessions.rows@;
    &&& 0 <= place < sessions.len()
    &&& ensured_so_far(start, reached, sessions.take(place), fresh.take(place), now)
    &&& exists|fault: String|
        fault@ == message && #[trigger] browser_ensured(
            reached,
            after,
            sessions[place].id@,
            fresh[place],
            now,
            Err(fault),
        )
}

/// The browser of some session was refused.
pub open spec fn was_ended(
    start: Database,
    after: Database,
    fresh: Seq<Seq<char>>,
    now: Seq<char>,
    message: Seq<char>,
) -> bool {
    exists|reached: Database, place: int| #[trigger]
        ended_at(start, reached, after, place, fresh, now, message)
}

/// Sessions without a browser got one.
pub open spec fn browsers_ensured(
    start: Database,
    after: Database,
    fresh: Seq<Seq<char>>,
    now: Seq<char>,
    r: Result<(), String>,
) -> bool {
    &&& match r {
        Ok(_) => ensured_so_far(start, after, start.sessions.rows@, fresh, now),
        Err(message) => was_ended(start, after, fresh, now, message@),
    }
    &&& are_named(start.sessions.rows@) ==> r is Ok
    &&& r is Ok && are_free(fresh, start.browsers.rows@) ==> have_browsers(
        start.sessions.rows@,
        after.browsers.rows@,
    )
    &&& after.sessions == start.sessions
    &&& after.panes == start.panes
    &&& same_connections(start, after)
    &&& same_records(start, after)
}

proof fn lemma_ensured(
    start: Database,
    after: Database,
    session: Seq<char>,
    fresh_id: Seq<char>,
    now: Seq<char>,
    r: Result<BrowserResource, String>,
)
    requires
        start.wf(),
        browser_ensured(start, after, session, fresh_id, now, r),
        row_with(start.sessions.rows@, session) is Some,
    ensures
        trim(session) == session && session.len() > 0 ==> r is Ok,
        r is Ok && trim(session) == session ==> rows_of(
            after.browsers.rows@,
            Some(session),
        ).len() > 0,
        r is Ok && row_with(start.browsers.rows@, fresh_id) is None ==> forall|other: Seq<char>|
            rows_of(start.browsers.rows@, Some(other)).len() > 0 ==> #[trigger] rows_of(
                after.browsers.rows@,
                Some(other),
            ).len() > 0,
        forall|id: Seq<char>|
            id != fresh_id ==> #[trigger] row_with(after.browsers.rows@, id) == row_with(
                start.browsers.rows@,
                id,
            ),
        after.sessions == start.sessions,
        after.panes == start.panes,
        same_connections(start, after),
        same_records(start, after),
{
    let own = rows_of(start.browsers.rows@, Some(session));
    if own.len() == 0 {
        let input = choose|input: BrowserResourceInput|
            is_default_browser(input, session) && #[trigger] browser_saved(
                start,
                after,
                input,
                fresh_id,
                now,
                r,
            );
        lemma_no_rows(start.browsers.rows@, session);
        lemma_empty_trim(input.source_pane_id@);
        lemma_browser_name();
        if r is Ok {
            let rows = start.browsers.rows@;
            let stored = row_with(after.browsers.rows@, id_or(input.id, fresh_id))->0;
            lemma_with_row(rows, stored);
            if trim(session) == session {
                lemma_only_row(rows, stored);
            }
            if row_with(rows, fresh_id) is None {
                assert forall|other: Seq<char>|
                    rows_of(rows, Some(other)).len() > 0 implies #[trigger] rows_of(
                    after.browsers.rows@,
                    Some(other),
                ).len() > 0 by {
                    lemma_group_stays(rows, stored, other);
                }
            }
        } else {
            assert(after == start);
        }
    }
}

proof fn lemma_group_stays(rows: Seq<BrowserResource>, row: BrowserResource, group: Seq<char>)
    requires
        in_order(rows),
        ids_once(rows),
        row_with(rows, row.id@) is None,
        rows_of(rows, Some(group)).len() > 0,
    ensures
        rows_of(with_row(rows, row), Some(group)).len() > 0,
{
    let whole = with_row(rows, row);
    lemma_no_rows(rows, group);
    lemma_no_rows(whole, group);
    lemma_row_with(rows, row.id@);
    lemma_with_row(rows, row);
    let k = choose|k: int| 0 <= k < rows.len() && (#[trigger] rows[k]).key_group() == group;
    let id = rows[k].key_id();
    assert(id != row.key_id());
    lemma_row_with(rows, id);
    lemma_row_with(whole, id);
    let found = row_with(rows, id)->0;
    let m = choose|m: int| 0 <= m < rows.len() && rows[m] == found;
    if m < k {
        assert(rows[m].key_id() != rows[k].key_id());
    } else if k < m {
        assert(rows[k].key_id() != rows[m].key_id());
    }
    assert(row_with(whole, id) == Some(found));
    let n = choose|n: int| 0 <= n < whole.len() && whole[n] == found;
    assert(whole[n].key_group() == group);
}

proof fn lemma_empty_trim(s: Seq<char>)
    requires
        s.len() == 0,
    ensures
        trim(s).len() == 0,
{
}

proof fn lemma_browser_name()
    ensures
        trim("Browser"@).len() > 0,
{
    reveal_strlit("Browser");
    let s = "Browser"@;
    assert(s[0] == 'B' && s.last() == 'r');
    assert(!is_space('B') && !is_space('r'));
    assert(trim_start(s) == s);
    assert(trim_end(s) == s);
}

/// A pane that showed a browser becomes the browser of its session, under its own id, with its title
/// and its address; a blank address becomes an empty page.
pub proof fn law_browser_panes_become_browsers(pane: MuxPane)
    ensures
        ({
            let b = browser_of_pane(pane);
            &&& b.id == pane.id@ && b.mux_session_id == pane.mux_session_id@
            &&& b.name == pane.title@ && b.source_pane_id == pane.target_id@
            &&& b.bookmark_id == pane.bookmark_id@ && !b.temporary_profile
            &&& b.sort_order == pane.sort_order
            &&& b.created_at == pane.created_at@ && b.updated_at == pane.updated_at@
            &&& (forall|i: int| 0 <= i < pane.command@.len() ==> #[trigger] pane.command@[i] == ' ')
                ==> b.url == "about:blank"@
            &&& (exists|i: int| 0 <= i < pane.command@.len() && #[trigger] pane.command@[i] != ' ')
                ==> b.url == pane.command@
        }),
{
}

/// Moving the browsers out of the panes takes exactly those that show a browser; the others stay, in
/// their order, and none is lost.
pub proof fn law_only_browser_panes_are_moved(panes: Seq<MuxPane>, pane: MuxPane)
    ensures
        pane.kind == MuxPaneKind::Browser ==> browser_panes(panes.push(pane)) == browser_panes(
            panes,
        ).push(pane) && other_panes(panes.push(pane)) == other_panes(panes),
        pane.kind != MuxPaneKind::Browser ==> other_panes(panes.push(pane)) == other_panes(
            panes,
        ).push(pane) && browser_panes(panes.push(pane)) == browser_panes(panes),
        browser_panes(Seq::empty()).len() == 0 && other_panes(Seq::empty()).len() == 0,
{
    assert(panes.push(pane).drop_last() =~= panes);
}

/// Where browsers were moved out, every session stays as it was but for its layout, which loses their
/// panes.
pub proof fn law_moved_browsers_leave_the_layouts(
    sessions: Seq<MuxSession>,
    gone: Seq<Seq<char>>,
    i: int,
)
    requires
        0 <= i < sessions.len(),
    ensures
        without_browsers(sessions, gone).len() == sessions.len(),
        ({
            let was = sessions[i]@;
            let after = without_browsers(sessions, gone)[i];
            &&& (SessionView { layout: was.layout, ..after }) == was
            &&& opt_layout(sessions[i].layout) matches Some(v) ==> after.layout == pruned(v, gone)
            &&& sessions[i].layout is None ==> after.layout is None
        }),
{
}

/// Connections that have no order yet are put in one by how they are used: favourites first, and
/// among equals the one used last first. Each gets its place, and none is lost.
pub proof fn law_unordered_connections_come_by_use(rows: Seq<Bookmark>)
    ensures
        by_use(rows).to_multiset() == rows.to_multiset(),
        forall|i: int, j: int|
            0 <= i < j < by_use(rows).len() ==> !is_fresher(
                #[trigger] by_use(rows)[j],
                #[trigger] by_use(rows)[i],
            ),
        placed_by_use(rows).len() == by_use(rows).len(),
        rows.len() <= i64::MAX ==> forall|i: int|
            0 <= i < by_use(rows).len() ==> (#[trigger] placed_by_use(rows)[i]).sort_order == i
                && placed_by_use(rows)[i].id == by_use(rows)[i].id@,
    decreases rows.len(),
{
    broadcast use vstd::seq_lib::group_to_multiset_ensures;

    if rows.len() > 0 {
        law_unordered_connections_come_by_use(rows.drop_last());
        lemma_with_fresh(by_use(rows.drop_last()), rows.last());
        assert(rows.drop_last().push(rows.last()) =~= rows);
    }
    lemma_by_use_length(rows);
}

proof fn lemma_by_use_length(rows: Seq<Bookmark>)
    ensures
        by_use(rows).len() == rows.len(),
    decreases rows.len(),
{
    if rows.len() > 0 {
        lemma_by_use_length(rows.drop_last());
        lemma_with_fresh_length(by_use(rows.drop_last()), rows.last());
    }
}

proof fn lemma_with_fresh_length(list: Seq<Bookmark>, row: Bookmark)
    ensures
        with_fresh(list, row).len() == list.len() + 1,
    decreases list.len(),
{
    if list.len() > 0 && !is_fresher(row, list[0]) {
        lemma_with_fresh_length(list.skip(1), row);
    }
}

proof fn lemma_fresher_order(a: Bookmark, b: Bookmark, c: Bookmark)
    ensures
        is_fresher(a, b) ==> !is_fresher(b, a),
        is_fresher(a, b) && !is_fresher(c, b) ==> !is_fresher(c, a),
        !is_fresher(a, a),
{
    lemma_before_total(used_at(a), used_at(b));
    lemma_before_total(used_at(b), used_at(c));
    lemma_before_total(used_at(a), used_at(c));
    lemma_before_total(used_at(a), used_at(a));
    if before(used_at(b), used_at(a)) && before(used_at(a), used_at(c)) {
        lemma_before_transitive(used_at(b), used_at(a), used_at(c));
    }
}

proof fn lemma_with_fresh(list: Seq<Bookmark>, row: Bookmark)
    requires
        forall|i: int, j: int|
            0 <= i < j < list.len() ==> !is_fresher(#[trigger] list[j], #[trigger] list[i]),
    ensures
        with_fresh(list, row).to_multiset() == list.to_multiset().insert(row),
        forall|i: int, j: int|
            0 <= i < j < with_fresh(list, row).len() ==> !is_fresher(
                #[trigger] with_fresh(list, row)[j],
                #[trigger] with_fresh(list, row)[i],
            ),
        forall|k: int|
            0 <= k < with_fresh(list, row).len() ==> (#[trigger] with_fresh(list, row)[k]) == row
                || list.contains(with_fresh(list, row)[k]),
    decreases list.len(),
{
    broadcast use vstd::seq_lib::group_to_multiset_ensures;

    let whole = with_fresh(list, row);
    if list.len() == 0 {
        assert(whole =~= list.push(row));
    } else if is_fresher(row, list[0]) {
        assert(whole =~= list.insert(0, row));
        vstd::seq_lib::to_multiset_insert(list, 0, row);
        assert forall|i: int, j: int| 0 <= i < j < whole.len() implies !is_fresher(
            #[trigger] whole[j],
            #[trigger] whole[i],
        ) by {
            assert(whole[j] == list[j - 1]);
            if i == 0 {
                assert(whole[i] == row);
                lemma_fresher_order(row, list[0], list[j - 1]);
                lemma_fresher_order(list[0], list[0], list[0]);
                assert(j - 1 == 0 || !is_fresher(list[j - 1], list[0]));
            } else {
                assert(whole[i] == list[i - 1]);
            }
        }
        assert forall|k: int| 0 <= k < whole.len() implies (#[trigger] whole[k]) == row
            || list.contains(whole[k]) by {
            if k > 0 {
                assert(whole[k] == list[k - 1]);
            }
        }
    } else {
        let rest = list.skip(1);
        let tail = with_fresh(rest, row);
        assert forall|i: int, j: int| 0 <= i < j < rest.len() implies !is_fresher(
            #[trigger] rest[j],
            #[trigger] rest[i],
        ) by {
            assert(rest[i] == list[i + 1] && rest[j] == list[j + 1]);
        }
        lemma_with_fresh(rest, row);
        assert forall|i: int, j: int| 0 <= i < j < whole.len() implies !is_fresher(
            #[trigger] whole[j],
            #[trigger] whole[i],
        ) by {
            assert(whole[j] == tail[j - 1]);
            if i == 0 {
                assert(whole[i] == list[0]);
                if tail[j - 1] != row {
                    let m = choose|m: int| 0 <= m < rest.len() && rest[m] == tail[j - 1];
                    assert(rest[m] == list[m + 1]);
                }
            } else {
                assert(whole[i] == tail[i - 1]);
            }
        }
        assert forall|k: int| 0 <= k < whole.len() implies (#[trigger] whole[k]) == row
            || list.contains(whole[k]) by {
            if k == 0 {
                assert(whole[k] == list[0]);
            } else if whole[k] != row {
                assert(whole[k] == tail[k - 1]);
                let m = choose|m: int| 0 <= m < rest.len() && rest[m] == tail[k - 1];
                assert(list[m + 1] == rest[m]);
            }
        }
        assert(whole =~= tail.insert(0, list[0]));
        assert(list =~= rest.insert(0, list[0]));
        vstd::seq_lib::to_multiset_insert(tail, 0, list[0]);
        vstd::seq_lib::to_multiset_insert(rest, 0, list[0]);
        assert(whole.to_multiset() =~= list.to_multiset().insert(row));
    }
}

/// A favourite is fresher than any other; among equals the one that was used later is. A connection
/// that was never used counts as used when it was changed.
pub proof fn law_favourites_are_fresher(a: Bookmark, b: Bookmark)
    ensures
        a.favorite && !b.favorite ==> is_fresher(a, b) && !is_fresher(b, a),
        a.favorite == b.favorite ==> (is_fresher(a, b) <==> before(used_at(b), used_at(a))),
        a.last_connected_at@.len() > 0 ==> used_at(a) == a.last_connected_at@,
        a.last_connected_at@.len() == 0 ==> used_at(a) == a.updated_at@,
{
}

/// A browser that is stored already is not replaced by one that comes from a pane; a new one is added.
pub proof fn law_stored_browsers_are_not_replaced(
    rows: Seq<BrowserResource>,
    added: Seq<BrowserResource>,
    one: BrowserResource,
)
    ensures
        ({
            let rest = with_new(rows, added);
            &&& row_with(rest, one.id@) is Some ==> with_new(rows, added.push(one)) == rest
            &&& row_with(rest, one.id@) is None ==> with_new(rows, added.push(one)) == with_row(
                rest,
                one,
            )
        }),
        with_new(rows, Seq::empty()) == rows,
{
    assert(added.push(one).drop_last() =~= added);
}

/// A connection is marked as having a credential exactly where one is stored for it; nothing else of it
/// is changed by that.
pub proof fn law_opened_connections_are_marked(
    rows: Seq<BookmarkView>,
    refs: Seq<Seq<char>>,
    i: int,
)
    requires
        0 <= i < rows.len(),
    ensures
        marked_views(rows, refs).len() == rows.len(),
        marked_views(rows, refs)[i].has_saved_credential <==> refs.contains(rows[i].id),
        (BookmarkView {
            has_saved_credential: rows[i].has_saved_credential,
            ..marked_views(rows, refs)[i]
        }) == rows[i],
{
}

} // verus!
