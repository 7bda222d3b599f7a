//! What the application stores: connections, sessions, panes, browsers, settings and the audit.
use vstd::prelude::*;
use vstd::string::*;

use crate::bookmarks::Bookmark;
use crate::clock::now_rfc3339;
use crate::control_service::ControlAuditRecord;
use crate::ids::{is_uuid_text, new_id};
use crate::mux_layout::opt_layout;
use crate::mux_store::{
    browser_fault, browser_fault_text, check_pane, default_browser_input, has_other_browser, has_source_pane,
    id_or,
    is_saved_browser, is_saved_pane, is_saved_session, is_source_pane, pane_fault, pane_fault_text,
    save_browser_resource_with, save_mux_pane_with, save_mux_session_with, BrowserResource,
    BrowserResourceInput, MuxPane, MuxPaneInput, MuxPaneKind, MuxSession, MuxSessionInput,
};
use crate::remote_import::{KnownHostImportEntry, PortForwardProfile};
use crate::rows::{lemma_browser_row, lemma_pane_row, lemma_session_row};
use crate::stored_transfers::TransferTask;
use crate::table::{
    ids_once, in_order, law_the_next_place_is_right_behind_the_last, lemma_removed_row,
    lemma_row_with, lemma_rows_outside, lemma_with_row, next_order, row_views, row_with, rows_of, rows_outside, with_row, without_row, Row, Table,
};
use crate::text::{is_blank, is_space, trim, trimmed, views};
use crate::text_map::TextMap;

verus! {

/// Everything that is stored. `groups` and `forwardings` are settings that the rules read; the
/// other settings are kept as texts.
#[derive(Debug)]
pub struct Database {
    pub bookmarks: Table<Bookmark>,
    pub credential_refs: Vec<String>,
    pub groups: Vec<String>,
    pub forwardings: Vec<PortForwardProfile>,
    pub known_hosts: Vec<KnownHostImportEntry>,
    pub settings: TextMap<String>,
    pub sessions: Table<MuxSession>,
    pub panes: Table<MuxPane>,
    pub browsers: Table<BrowserResource>,
    pub audit: Vec<ControlAuditRecord>,
    pub transfers: Vec<TransferTask>,
}

/// The connections, their groups and credentials are the same.
pub open spec fn same_connections(a: Database, b: Database) -> bool {
    &&& a.bookmarks == b.bookmarks
    &&& a.credential_refs == b.credential_refs
    &&& a.groups == b.groups
    &&& a.forwardings == b.forwardings
}

/// The sessions with their panes and browsers are the same.
pub open spec fn same_sessions(a: Database, b: Database) -> bool {
    &&& a.sessions == b.sessions
    &&& a.panes == b.panes
    &&& a.browsers == b.browsers
}

/// The host keys, the settings, the audit and the transfers are the same.
pub open spec fn same_records(a: Database, b: Database) -> bool {
    &&& a.known_hosts == b.known_hosts
    &&& a.settings == b.settings
    &&& a.audit == b.audit
    &&& a.transfers == b.transfers
}

/// A connection is marked as having a credential where one is stored for it.
pub open spec fn marks_agree(rows: Seq<Bookmark>, refs: Seq<Seq<char>>) -> bool {
    forall|i: int|
        0 <= i < rows.len() ==> (#[trigger] rows[i]).has_saved_credential == refs.contains(
            rows[i].id@,
        )
}

/// A stored row has the id.
pub open spec fn names_row<R: Row>(rows: Seq<R>, id: Option<String>) -> bool {
    id is Some && trim(id->0@).len() > 0 && row_with(rows, id->0@) is Some
}

/// A session can be saved: it is refused, it replaces a stored one, or there is a place behind
/// the others.
pub open spec fn place_for_session(db: Database, input: MuxSessionInput) -> bool {
    ||| trim(input.name@).len() == 0
    ||| names_row(db.sessions.rows@, input.id)
    ||| next_order(db.sessions.rows@, ""@) <= i64::MAX
}

/// A pane can be saved: it is refused, it replaces a stored one, or there is a place behind the
/// others of its session.
pub open spec fn place_for_pane(db: Database, input: MuxPaneInput) -> bool {
    let session = trim(input.mux_session_id@);
    ||| pane_fault(input, row_with(db.sessions.rows@, session) is Some) is Some
    ||| names_row(db.panes.rows@, input.id)
    ||| next_order(db.panes.rows@, session) <= i64::MAX
}

/// A session was saved.
pub open spec fn session_saved(
    before: Database,
    after: Database,
    input: MuxSessionInput,
    fresh_id: Seq<char>,
    now: Seq<char>,
    r: Result<MuxSession, String>,
) -> bool {
    if trim(input.name@).len() == 0 {
        r is Err && r->Err_0@ == "Session 名称不能为空"@ && after == before
    } else {
        let stored = row_with(after.sessions.rows@, id_or(input.id, fresh_id));
        &&& r is Ok
        &&& stored is Some
        &&& is_saved_session(
            stored->0,
            input,
            before.sessions.rows@,
            fresh_id,
            next_order(before.sessions.rows@, ""@) as i64,
            now,
        )
        &&& after.sessions.rows@ == with_row(before.sessions.rows@, stored->0)
        &&& r->Ok_0@ == stored->0@
        &&& same_connections(before, after)
        &&& same_records(before, after)
        &&& after.panes == before.panes
        &&& after.browsers == before.browsers
    }
}

/// A pane was saved.
pub open spec fn pane_saved(
    before: Database,
    after: Database,
    input: MuxPaneInput,
    fresh_id: Seq<char>,
    now: Seq<char>,
    r: Result<MuxPane, String>,
) -> bool {
    let session = trim(input.mux_session_id@);
    match pane_fault(input, row_with(before.sessions.rows@, session) is Some) {
        Some(fault) => r is Err && r->Err_0@ == pane_fault_text(fault) && after == before,
        None => {
            let stored = row_with(after.panes.rows@, id_or(input.id, fresh_id));
            &&& r is Ok
            &&& stored is Some
            &&& is_saved_pane(
                stored->0,
                input,
                before.panes.rows@,
                fresh_id,
                next_order(before.panes.rows@, session) as i64,
                now,
            )
            &&& after.panes.rows@ == with_row(before.panes.rows@, stored->0)
            &&& r->Ok_0@ == stored->0@
            &&& same_connections(before, after)
            &&& same_records(before, after)
            &&& after.sessions == before.sessions
            &&& after.browsers == before.browsers
        },
    }
}

/// A browser was saved.
pub open spec fn browser_saved(
    before: Database,
    after: Database,
    input: BrowserResourceInput,
    fresh_id: Seq<char>,
    now: Seq<char>,
    r: Result<BrowserResource, String>,
) -> bool {
    let session = trim(input.mux_session_id@);
    match browser_fault(
        input,
        row_with(before.sessions.rows@, session) is Some,
        rows_of(before.panes.rows@, Some(session)),
        before.browsers.rows@,
        id_or(input.id, fresh_id),
    ) {
        Some(fault) => r is Err && r->Err_0@ == browser_fault_text(fault) && after == before,
        None => {
            let stored = row_with(after.browsers.rows@, id_or(input.id, fresh_id));
            &&& r is Ok
            &&& stored is Some
            &&& is_saved_browser(
                stored->0,
                input,
                before.browsers.rows@,
                fresh_id,
                next_order(before.browsers.rows@, session) as i64,
                now,
            )
            &&& after.browsers.rows@ == with_row(before.browsers.rows@, stored->0)
            &&& r->Ok_0@ == stored->0@
            &&& same_connections(before, after)
            &&& same_records(before, after)
            &&& after.sessions == before.sessions
            &&& after.panes == before.panes
        },
    }
}

/// The browser of a session was asked for: the first one that it has, else a new one.
pub open spec fn browser_ensured(
    before: Database,
    after: Database,
    session: Seq<char>,
    fresh_id: Seq<char>,
    now: Seq<char>,
    r: Result<BrowserResource, String>,
) -> bool {
    let own = rows_of(before.browsers.rows@, Some(session));
    if own.len() > 0 {
        after == before && r is Ok && r->Ok_0@ == own[0]@
    } else {
        exists|input: BrowserResourceInput|
            is_default_browser(input, session) && #[trigger] browser_saved(
                before,
                after,
                input,
                fresh_id,
                now,
                r,
            )
    }
}

/// The browser that a session gets where it has none.
pub open spec fn is_default_browser(input: BrowserResourceInput, session: Seq<char>) -> bool {
    &&& input.id is None
    &&& input.mux_session_id@ == session
    &&& input.name@ == "Browser"@
    &&& input.source_pane_id@.len() == 0
    &&& input.bookmark_id@.len() == 0
    &&& input.url@.len() == 0
    &&& !input.temporary_profile
}

pub proof fn lemma_all_rows<R: Row>(rows: Seq<R>)
    ensures
        rows_of(rows, None) == rows,
    decreases rows.len(),
{
    if rows.len() > 0 {
        lemma_all_rows(rows.drop_last());
        assert(rows.drop_last().push(rows.last()) =~= rows);
    }
}

proof fn lemma_source_panes(a: Seq<MuxPane>, b: Seq<MuxPane>, pane: Seq<char>, bookmark: Seq<char>)
    requires
        row_views(a) == row_views(b),
    ensures
        has_source_pane(a, pane, bookmark) == has_source_pane(b, pane, bookmark),
{
    assert(a.len() == row_views(a).len() && b.len() == row_views(b).len());
    assert forall|i: int| 0 <= i < a.len() implies #[trigger] a[i]@ == b[i]@ by {
        assert(row_views(a)[i] == a[i]@);
        assert(row_views(b)[i] == b[i]@);
    }
    if has_source_pane(a, pane, bookmark) {
        let i = choose|i: int| 0 <= i < a.len() && #[trigger] is_source_pane(a[i], pane, bookmark);
        assert(a[i]@ == b[i]@);
        assert(is_source_pane(b[i], pane, bookmark));
    }
    if has_source_pane(b, pane, bookmark) {
        let i = choose|i: int| 0 <= i < b.len() && #[trigger] is_source_pane(b[i], pane, bookmark);
        assert(a[i]@ == b[i]@);
        assert(is_source_pane(a[i], pane, bookmark));
    }
}

proof fn lemma_first_place(rows: Seq<BrowserResource>, session: Seq<char>, id: Seq<char>)
    requires
        row_with(rows, id) is None,
        !has_other_browser(rows, session, id),
    ensures
        next_order(rows, session) == 0,
{
    lemma_row_with(rows, id);
    assert forall|i: int| 0 <= i < rows.len() implies (#[trigger] rows[i]).key_group()
        != session by {
        assert(rows[i].key_id() != id);
        assert(rows[i].mux_session_id@ != session || rows[i].id@ == id);
    }
    lemma_no_order(rows, session);
}

proof fn lemma_no_order<R: Row>(rows: Seq<R>, group: Seq<char>)
    requires
        forall|i: int| 0 <= i < rows.len() ==> (#[trigger] rows[i]).key_group() != group,
    ensures
        next_order(rows, group) == 0,
    decreases rows.len(),
{
    if rows.len() > 0 {
        assert(rows[rows.len() - 1].key_group() != group);
        assert forall|i: int| 0 <= i < rows.len() - 1 implies (
        #[trigger] rows.drop_last()[i]).key_group() != group by {
            assert(rows[i].key_group() != group);
        }
        lemma_no_order(rows.drop_last(), group);
    }
}

impl Database {
    pub open spec fn wf(&self) -> bool {
        &&& self.bookmarks.wf()
        &&& self.sessions.wf()
        &&& self.panes.wf()
        &&& self.browsers.wf()
        &&& self.settings.wf()
        &&& marks_agree(self.bookmarks.rows@, views(self.credential_refs@))
    }

    /// Every pane and every browser belongs to a stored session.
    pub open spec fn is_anchored(&self) -> bool {
        &&& forall|i: int|
            0 <= i < self.panes.rows@.len() ==> row_with(
                self.sessions.rows@,
                (#[trigger] self.panes.rows@[i]).mux_session_id@,
            ) is Some
        &&& forall|i: int|
            0 <= i < self.browsers.rows@.len() ==> row_with(
                self.sessions.rows@,
                (#[trigger] self.browsers.rows@[i]).mux_session_id@,
            ) is Some
    }

    /// The sessions in their order.
    pub fn list_mux_sessions(&self) -> (r: Vec<MuxSession>)
        ensures
            row_views(r@) == row_views(self.sessions.rows@),
    {
        proof {
            lemma_all_rows(self.sessions.rows@);
        }
        self.sessions.list(None)
    }

    /// Tells whether a session can be saved.
    pub fn has_place_for_session(&self, input: &MuxSessionInput) -> (r: bool)
        ensures
            r == place_for_session(*self, *input),
    {
        if is_blank(input.name.as_str()) {
            return true;
        }
        if let Some(id) = &input.id {
            if !is_blank(id.as_str()) && self.sessions.get(id.as_str()).is_some() {
                return true;
            }
        }
        self.sessions.next_order("").is_some()
    }

    /// Tells whether a pane can be saved.
    pub fn has_place_for_pane(&self, input: &MuxPaneInput) -> (r: bool)
        ensures
            r == place_for_pane(*self, *input),
    {
        let session = trimmed(input.mux_session_id.as_str());
        let session_exists = self.sessions.get(session.as_str()).is_some();
        if check_pane(input, session_exists).is_err() {
            return true;
        }
        if let Some(id) = &input.id {
            if !is_blank(id.as_str()) && self.panes.get(id.as_str()).is_some() {
                return true;
            }
        }
        self.panes.next_order(session.as_str()).is_some()
    }

    /// Saves a session, under the given id where it has none.
    pub fn save_mux_session_as(
        &mut self,
        input: MuxSessionInput,
        fresh_id: String,
        now: &str,
    ) -> (r: Result<MuxSession, String>)
        requires
            old(self).wf(),
            place_for_session(*old(self), input) || row_with(
                old(self).sessions.rows@,
                id_or(input.id, fresh_id@),
            ) is Some,
        ensures
            final(self).wf(),
            session_saved(*old(self), *final(self), input, fresh_id@, now@, r),
    {
        let next: i64 = match self.sessions.next_order("") {
            Some(order) => order,
            None => 0,
        };
        let session = match save_mux_session_with(
            input,
            &self.sessions.rows,
            fresh_id,
            next,
            now,
        ) {
            Ok(session) => session,
            Err(message) => {
                return Err(message);
            },
        };
        proof {
            lemma_with_row(self.sessions.rows@, session);
            lemma_session_row(self.sessions.rows@, session.id@);
        }
        let copy = session.copy_row();
        self.sessions.put(session);
        Ok(copy)
    }

    /// Saves a session, under a fresh id where it has none.
    pub fn save_mux_session(&mut self, input: MuxSessionInput) -> (r: Result<MuxSession, String>)
        requires
            old(self).wf(),
            place_for_session(*old(self), input),
        ensures
            final(self).wf(),
            exists|fresh_id: Seq<char>, now: Seq<char>|
                is_uuid_text(fresh_id) && #[trigger] session_saved(
                    *old(self),
                    *final(self),
                    input,
                    fresh_id,
                    now,
                    r,
                ),
    {
        let fresh_id = new_id();
        let now = now_rfc3339();
        self.save_mux_session_as(input, fresh_id, now.as_str())
    }

    /// Removes a session with its panes and its browsers.
    pub fn delete_mux_session(&mut self, id: &str)
        requires
            old(self).wf(),
        ensures
            final(self).wf(),
            final(self).sessions.rows@ == without_row(old(self).sessions.rows@, id@),
            final(self).panes.rows@ == rows_outside(old(self).panes.rows@, id@),
            final(self).browsers.rows@ == rows_outside(old(self).browsers.rows@, id@),
            same_connections(*old(self), *final(self)),
            same_records(*old(self), *final(self)),
    {
        self.panes.remove_group(id);
        self.browsers.remove_group(id);
        self.sessions.remove(id);
    }

    /// The panes of a session, or all of them, in their order.
    pub fn list_mux_panes(&self, mux_session_id: Option<&str>) -> (r: Vec<MuxPane>)
        ensures
            row_views(r@) == row_views(
                rows_of(
                    self.panes.rows@,
                    match mux_session_id {
                        Some(id) => Some(id@),
                        None => None,
                    },
                ),
            ),
    {
        self.panes.list(mux_session_id)
    }

    /// Saves a pane, under the given id where it has none.
    pub fn save_mux_pane_as(&mut self, input: MuxPaneInput, fresh_id: String, now: &str) -> (r:
        Result<MuxPane, String>)
        requires
            old(self).wf(),
            place_for_pane(*old(self), input) || row_with(
                old(self).panes.rows@,
                id_or(input.id, fresh_id@),
            ) is Some,
        ensures
            final(self).wf(),
            pane_saved(*old(self), *final(self), input, fresh_id@, now@, r),
    {
        let session = trimmed(input.mux_session_id.as_str());
        let next: i64 = match self.panes.next_order(session.as_str()) {
            Some(order) => order,
            None => 0,
        };
        let session_exists = self.sessions.get(session.as_str()).is_some();
        let pane = match save_mux_pane_with(
            input,
            session_exists,
            &self.panes.rows,
            fresh_id,
            next,
            now,
        ) {
            Ok(pane) => pane,
            Err(message) => {
                return Err(message);
            },
        };
        proof {
            lemma_with_row(self.panes.rows@, pane);
            lemma_pane_row(self.panes.rows@, pane.id@);
        }
        let copy = pane.copy_row();
        self.panes.put(pane);
        Ok(copy)
    }

    /// Saves a pane, under a fresh id where it has none.
    pub fn save_mux_pane(&mut self, input: MuxPaneInput) -> (r: Result<MuxPane, String>)
        requires
            old(self).wf(),
            place_for_pane(*old(self), input),
        ensures
            final(self).wf(),
            exists|fresh_id: Seq<char>, now: Seq<char>|
                is_uuid_text(fresh_id) && #[trigger] pane_saved(
                    *old(self),
                    *final(self),
                    input,
                    fresh_id,
                    now,
                    r,
                ),
    {
        let fresh_id = new_id();
        let now = now_rfc3339();
        self.save_mux_pane_as(input, fresh_id, now.as_str())
    }

    /// Removes a pane.
    pub fn delete_mux_pane(&mut self, id: &str)
        requires
            old(self).wf(),
        ensures
            final(self).wf(),
            final(self).panes.rows@ == without_row(old(self).panes.rows@, id@),
            final(self).sessions == old(self).sessions,
            final(self).browsers == old(self).browsers,
            same_connections(*old(self), *final(self)),
            same_records(*old(self), *final(self)),
    {
        self.panes.remove(id);
    }

    /// The browsers of a session, or all of them, in their order.
    pub fn list_browser_resources(&self, mux_session_id: Option<&str>) -> (r: Vec<BrowserResource>)
        ensures
            row_views(r@) == row_views(
                rows_of(
                    self.browsers.rows@,
                    match mux_session_id {
                        Some(id) => Some(id@),
                        None => None,
                    },
                ),
            ),
    {
        self.browsers.list(mux_session_id)
    }

    /// Saves a browser, under the given id where it has none.
    pub fn save_browser_resource_as(
        &mut self,
        input: BrowserResourceInput,
        fresh_id: String,
        now: &str,
    ) -> (r: Result<BrowserResource, String>)
        requires
            old(self).wf(),
        ensures
            final(self).wf(),
            browser_saved(*old(self), *final(self), input, fresh_id@, now@, r),
    {
        let session = trimmed(input.mux_session_id.as_str());
        let next: i64 = match self.browsers.next_order(session.as_str()) {
            Some(order) => order,
            None => 0,
        };
        let session_exists = self.sessions.get(session.as_str()).is_some();
        let session_panes = self.panes.list(Some(session.as_str()));
        proof {
            lemma_source_panes(
                session_panes@,
                rows_of(self.panes.rows@, Some(session@)),
                trim(input.source_pane_id@),
                trim(input.bookmark_id@),
            );
        }
        let browser = match save_browser_resource_with(
            input,
            session_exists,
            &session_panes,
            &self.browsers.rows,
            fresh_id,
            next,
            now,
        ) {
            Ok(browser) => browser,
            Err(message) => {
                return Err(message);
            },
        };
        proof {
            lemma_with_row(self.browsers.rows@, browser);
            lemma_browser_row(self.browsers.rows@, browser.id@);
            if row_with(self.browsers.rows@, browser.id@) is None {
                lemma_first_place(self.browsers.rows@, session@, browser.id@);
            }
        }
        let copy = browser.copy_row();
        self.browsers.put(browser);
        Ok(copy)
    }

    /// Saves a browser, under a fresh id where it has none.
    pub fn save_browser_resource(&mut self, input: BrowserResourceInput) -> (r: Result<
        BrowserResource,
        String,
    >)
        requires
            old(self).wf(),
        ensures
            final(self).wf(),
            exists|fresh_id: Seq<char>, now: Seq<char>|
                is_uuid_text(fresh_id) && #[trigger] browser_saved(
                    *old(self),
                    *final(self),
                    input,
                    fresh_id,
                    now,
                    r,
                ),
    {
        let fresh_id = new_id();
        let now = now_rfc3339();
        self.save_browser_resource_as(input, fresh_id, now.as_str())
    }

    /// The browser of a session; it is made, under the given id, where there is none.
    pub fn ensure_session_browser_resource_as(
        &mut self,
        mux_session_id: &str,
        fresh_id: String,
        now: &str,
    ) -> (r: Result<BrowserResource, String>)
        requires
            old(self).wf(),
        ensures
            final(self).wf(),
            browser_ensured(*old(self), *final(self), mux_session_id@, fresh_id@, now@, r),
    {
        let ghost own = rows_of(self.browsers.rows@, Some(mux_session_id@));
        let list = self.browsers.list(Some(mux_session_id));
        assert(row_views(list@).len() == list@.len() && row_views(own).len() == own.len());
        if list.len() > 0 {
            let first = list[0].copy_row();
            assert(row_views(list@)[0] == row_views(own)[0]);
            return Ok(first);
        }
        let input = default_browser_input(mux_session_id);
        assert(is_default_browser(input, mux_session_id@));
        self.save_browser_resource_as(input, fresh_id, now)
    }

    /// The browser of a session; it is made where there is none.
    pub fn ensure_session_browser_resource(&mut self, mux_session_id: &str) -> (r: Result<
        BrowserResource,
        String,
    >)
        requires
            old(self).wf(),
        ensures
            final(self).wf(),
            exists|fresh_id: Seq<char>, now: Seq<char>|
                is_uuid_text(fresh_id) && #[trigger] browser_ensured(
                    *old(self),
                    *final(self),
                    mux_session_id@,
                    fresh_id,
                    now,
                    r,
                ),
    {
        let fresh_id = new_id();
        let now = now_rfc3339();
        self.ensure_session_browser_resource_as(mux_session_id, fresh_id, now.as_str())
    }

    /// Removes a browser.
    pub fn delete_browser_resource(&mut self, id: &str)
        requires
            old(self).wf(),
        ensures
            final(self).wf(),
            final(self).browsers.rows@ == without_row(old(self).browsers.rows@, id@),
            final(self).sessions == old(self).sessions,
            final(self).panes == old(self).panes,
            same_connections(*old(self), *final(self)),
            same_records(*old(self), *final(self)),
    {
        self.browsers.remove(id);
    }
}

/// What was saved is found again under its id, and the other sessions stay as they were.
pub proof fn law_saved_sessions_are_found(
    before: Database,
    after: Database,
    input: MuxSessionInput,
    fresh_id: Seq<char>,
    now: Seq<char>,
    r: Result<MuxSession, String>,
    other: Seq<char>,
)
    requires
        before.wf(),
        session_saved(before, after, input, fresh_id, now, r),
        r is Ok,
        other != r->Ok_0.id@,
    ensures
        row_with(after.sessions.rows@, r->Ok_0.id@) is Some,
        row_with(after.sessions.rows@, r->Ok_0.id@)->0@ == r->Ok_0@,
        row_with(after.sessions.rows@, other) == row_with(before.sessions.rows@, other),
{
    let stored = row_with(after.sessions.rows@, id_or(input.id, fresh_id))->0;
    lemma_with_row(before.sessions.rows@, stored);
}

/// Saving a session again keeps its place among the others and the moment it was made.
pub proof fn law_saving_again_keeps_the_place(
    before: Database,
    after: Database,
    input: MuxSessionInput,
    fresh_id: Seq<char>,
    now: Seq<char>,
    r: Result<MuxSession, String>,
)
    requires
        before.wf(),
        session_saved(before, after, input, fresh_id, now, r),
        r is Ok,
        row_with(before.sessions.rows@, id_or(input.id, fresh_id)) is Some,
    ensures
        r->Ok_0.sort_order == row_with(
            before.sessions.rows@,
            id_or(input.id, fresh_id),
        )->0.sort_order,
        r->Ok_0.created_at@ == row_with(
            before.sessions.rows@,
            id_or(input.id, fresh_id),
        )->0.created_at@,
{
    let stored = row_with(after.sessions.rows@, id_or(input.id, fresh_id))->0;
    lemma_session_row(before.sessions.rows@, stored.id@);
    assert(r->Ok_0@ == stored@);
    assert(r->Ok_0@.sort_order == stored@.sort_order);
    assert(r->Ok_0@.created_at == stored@.created_at);
}

/// What was saved is found again under its id, and the other panes stay as they were.
pub proof fn law_saved_panes_are_found(
    before: Database,
    after: Database,
    input: MuxPaneInput,
    fresh_id: Seq<char>,
    now: Seq<char>,
    r: Result<MuxPane, String>,
    other: Seq<char>,
)
    requires
        before.wf(),
        pane_saved(before, after, input, fresh_id, now, r),
        r is Ok,
        other != r->Ok_0.id@,
    ensures
        row_with(after.panes.rows@, r->Ok_0.id@) is Some,
        row_with(after.panes.rows@, r->Ok_0.id@)->0@ == r->Ok_0@,
        row_with(after.panes.rows@, other) == row_with(before.panes.rows@, other),
{
    let stored = row_with(after.panes.rows@, id_or(input.id, fresh_id))->0;
    lemma_with_row(before.panes.rows@, stored);
    assert(r->Ok_0@.id == stored@.id);
}

/// Saving panes and browsers leaves none of them without its session.
pub proof fn law_saving_keeps_sessions_complete(
    before: Database,
    after: Database,
    pane: MuxPaneInput,
    browser: BrowserResourceInput,
    fresh_id: Seq<char>,
    now: Seq<char>,
    r: Result<MuxPane, String>,
    s: Result<BrowserResource, String>,
)
    requires
        before.wf(),
        before.is_anchored(),
        pane_saved(before, after, pane, fresh_id, now, r) || browser_saved(
            before,
            after,
            browser,
            fresh_id,
            now,
            s,
        ),
    ensures
        after.is_anchored(),
{
    let sessions = before.sessions.rows@;
    if pane_saved(before, after, pane, fresh_id, now, r) && r is Ok {
        let stored = row_with(after.panes.rows@, id_or(pane.id, fresh_id))->0;
        lemma_with_row(before.panes.rows@, stored);
        assert forall|i: int| 0 <= i < after.panes.rows@.len() implies row_with(
            after.sessions.rows@,
            (#[trigger] after.panes.rows@[i]).mux_session_id@,
        ) is Some by {
            if after.panes.rows@[i] != stored {
                let k = choose|k: int|
                    0 <= k < before.panes.rows@.len() && before.panes.rows@[k]
                        == after.panes.rows@[i];
                assert(row_with(sessions, before.panes.rows@[k].mux_session_id@) is Some);
            }
        }
    } else if browser_saved(before, after, browser, fresh_id, now, s) && s is Ok {
        let stored = row_with(after.browsers.rows@, id_or(browser.id, fresh_id))->0;
        lemma_with_row(before.browsers.rows@, stored);
        assert forall|i: int| 0 <= i < after.browsers.rows@.len() implies row_with(
            after.sessions.rows@,
            (#[trigger] after.browsers.rows@[i]).mux_session_id@,
        ) is Some by {
            if after.browsers.rows@[i] != stored {
                let k = choose|k: int|
                    0 <= k < before.browsers.rows@.len() && before.browsers.rows@[k]
                        == after.browsers.rows@[i];
                assert(row_with(sessions, before.browsers.rows@[k].mux_session_id@) is Some);
            }
        }
    }
}

/// A removed session takes its panes and its browsers with it, and nothing else.
pub proof fn law_removed_sessions_leave_nothing_behind(before: Database, after: Database, id: Seq<char>)
    requires
        before.wf(),
        before.is_anchored(),
        after.sessions.rows@ == without_row(before.sessions.rows@, id),
        after.panes.rows@ == rows_outside(before.panes.rows@, id),
        after.browsers.rows@ == rows_outside(before.browsers.rows@, id),
    ensures
        row_with(after.sessions.rows@, id) is None,
        after.is_anchored(),
        forall|i: int|
            0 <= i < before.panes.rows@.len() && (#[trigger] before.panes.rows@[i]).mux_session_id@
                != id ==> after.panes.rows@.contains(before.panes.rows@[i]),
        forall|i: int|
            0 <= i < before.browsers.rows@.len() && (
            #[trigger] before.browsers.rows@[i]).mux_session_id@ != id
                ==> after.browsers.rows@.contains(before.browsers.rows@[i]),
{
    lemma_removed_row(before.sessions.rows@, id);
    lemma_rows_outside(before.panes.rows@, id);
    lemma_rows_outside(before.browsers.rows@, id);
    assert forall|i: int| 0 <= i < after.panes.rows@.len() implies row_with(
        after.sessions.rows@,
        (#[trigger] after.panes.rows@[i]).mux_session_id@,
    ) is Some by {
        let k = choose|k: int|
            0 <= k < before.panes.rows@.len() && before.panes.rows@[k] == after.panes.rows@[i];
        assert(row_with(before.sessions.rows@, before.panes.rows@[k].mux_session_id@) is Some);
    }
    assert forall|i: int| 0 <= i < after.browsers.rows@.len() implies row_with(
        after.sessions.rows@,
        (#[trigger] after.browsers.rows@[i]).mux_session_id@,
    ) is Some by {
        let k = choose|k: int|
            0 <= k < before.browsers.rows@.len() && before.browsers.rows@[k]
                == after.browsers.rows@[i];
        assert(row_with(before.sessions.rows@, before.browsers.rows@[k].mux_session_id@) is Some);
    }
}

/// Every session has one browser at most: two entries for one session are the same.
pub open spec fn one_browser_each(browsers: Seq<BrowserResource>) -> bool {
    forall|i: int, j: int|
        0 <= i < browsers.len() && 0 <= j < browsers.len() && (
        #[trigger] browsers[i]).mux_session_id@ == (#[trigger] browsers[j]).mux_session_id@
            ==> browsers[i].id@ == browsers[j].id@
}

/// The id that a browser to save names, where it names one.
pub open spec fn named_id(input: BrowserResourceInput) -> Option<Seq<char>> {
    match input.id {
        Some(id) if trim(id@).len() > 0 => Some(id@),
        _ => None,
    }
}

/// No session ever has two browsers: where each had one at most, saving a browser, or asking for
/// the one of a session, keeps it so, whatever is given.
pub proof fn law_one_browser_per_session(
    before: Database,
    after: Database,
    input: BrowserResourceInput,
    session: Seq<char>,
    fresh_id: Seq<char>,
    now: Seq<char>,
    r: Result<BrowserResource, String>,
)
    requires
        before.wf(),
        one_browser_each(before.browsers.rows@),
        browser_saved(before, after, input, fresh_id, now, r) || browser_ensured(
            before,
            after,
            session,
            fresh_id,
            now,
            r,
        ),
    ensures
        one_browser_each(after.browsers.rows@),
{
    if browser_saved(before, after, input, fresh_id, now, r) {
        lemma_saved_browsers(before, after, input, fresh_id, now, r);
    } else if rows_of(before.browsers.rows@, Some(session)).len() == 0 {
        let asked = choose|asked: BrowserResourceInput|
            is_default_browser(asked, session) && #[trigger] browser_saved(
                before,
                after,
                asked,
                fresh_id,
                now,
                r,
            );
        lemma_saved_browsers(before, after, asked, fresh_id, now, r);
    }
}

proof fn lemma_saved_browsers(
    before: Database,
    after: Database,
    input: BrowserResourceInput,
    fresh_id: Seq<char>,
    now: Seq<char>,
    r: Result<BrowserResource, String>,
)
    requires
        before.wf(),
        one_browser_each(before.browsers.rows@),
        browser_saved(before, after, input, fresh_id, now, r),
    ensures
        one_browser_each(after.browsers.rows@),
{
    let rows = before.browsers.rows@;
    let session = trim(input.mux_session_id@);
    if r is Ok {
        let stored = row_with(after.browsers.rows@, id_or(input.id, fresh_id))->0;
        let whole = after.browsers.rows@;
        lemma_with_row(rows, stored);
        assert(stored.key_id() == stored.id@);
        assert forall|i: int, j: int|
            0 <= i < whole.len() && 0 <= j < whole.len() && (#[trigger] whole[i]).mux_session_id@
                == (#[trigger] whole[j]).mux_session_id@ implies whole[i].id@ == whole[j].id@ by {
            assert(whole[i].key_id() == whole[i].id@ && whole[j].key_id() == whole[j].id@);
            if whole[i] != stored {
                let k = choose|k: int| 0 <= k < rows.len() && rows[k] == whole[i];
                if whole[j] != stored {
                    let m = choose|m: int| 0 <= m < rows.len() && rows[m] == whole[j];
                    assert(rows[k].mux_session_id@ == rows[m].mux_session_id@);
                } else {
                    assert(rows[k].mux_session_id@ == session);
                }
            } else if whole[j] != stored {
                let m = choose|m: int| 0 <= m < rows.len() && rows[m] == whole[j];
                assert(rows[m].mux_session_id@ == session);
            }
        }
    }
}

/// A browser that is complete and names a session that is there is refused exactly where another
/// browser belongs to the session, and then nothing changes. Else it is stored with trimmed name
/// and address; one that is replaced keeps its id, its place and the moment it was made; and still
/// every session has one browser at most. A browser without an id gets one that no other has.
pub proof fn law_a_second_browser_is_refused(
    before: Database,
    after: Database,
    input: BrowserResourceInput,
    fresh_id: Seq<char>,
    now: Seq<char>,
    r: Result<BrowserResource, String>,
)
    requires
        before.wf(),
        one_browser_each(before.browsers.rows@),
        trim(input.mux_session_id@).len() > 0,
        trim(input.name@).len() > 0,
        trim(input.source_pane_id@).len() == 0,
        row_with(before.sessions.rows@, trim(input.mux_session_id@)) is Some,
        named_id(input) is None ==> row_with(before.browsers.rows@, fresh_id) is None,
        browser_saved(before, after, input, fresh_id, now, r),
    ensures
        r is Err <==> exists|i: int|
            0 <= i < before.browsers.rows@.len() && (
            #[trigger] before.browsers.rows@[i]).mux_session_id@ == trim(input.mux_session_id@)
                && Some(before.browsers.rows@[i].id@) != named_id(input),
        r is Err ==> r->Err_0@ == "每个 Mux Session 只能关联一个浏览器资源"@ && after == before,
        r is Ok ==> r->Ok_0.name@ == trim(input.name@) && r->Ok_0.url@ == trim(input.url@),
        r is Ok && named_id(input) is Some ==> r->Ok_0.id@ == named_id(input)->0,
        r is Ok ==> match row_with(before.browsers.rows@, r->Ok_0.id@) {
            Some(old_one) => r->Ok_0.sort_order == old_one.sort_order && r->Ok_0.created_at@
                == old_one.created_at@,
            None => r->Ok_0.created_at@ == now,
        },
        r is Ok ==> one_browser_each(after.browsers.rows@),
{
    let rows = before.browsers.rows@;
    let session = trim(input.mux_session_id@);
    let id = id_or(input.id, fresh_id);
    lemma_row_with(rows, fresh_id);
    if exists|i: int|
        0 <= i < rows.len() && (#[trigger] rows[i]).mux_session_id@ == session && Some(rows[i].id@)
            != named_id(input) {
        let i = choose|i: int|
            0 <= i < rows.len() && (#[trigger] rows[i]).mux_session_id@ == session && Some(
                rows[i].id@,
            ) != named_id(input);
        assert(rows[i].key_id() == rows[i].id@);
        assert(rows[i].id@ != id);
        assert(has_other_browser(rows, session, id));
    }
    if r is Ok {
        let stored = row_with(after.browsers.rows@, id)->0;
        lemma_with_row(rows, stored);
        lemma_browser_row(rows, stored.id@);
        assert(stored.key_id() == stored.id@);
        assert(r->Ok_0@ == stored@);
        lemma_saved_browsers(before, after, input, fresh_id, now, r);
    }
}

/// A session has a browser after it was asked for, and asking again gives the same one.
pub proof fn law_sessions_keep_their_browser(
    before: Database,
    after: Database,
    later: Database,
    session: Seq<char>,
    fresh_id: Seq<char>,
    other_id: Seq<char>,
    now: Seq<char>,
    then_now: Seq<char>,
    r: Result<BrowserResource, String>,
    again: Result<BrowserResource, String>,
)
    requires
        before.wf(),
        trim(session) == session,
        browser_ensured(before, after, session, fresh_id, now, r),
        browser_ensured(after, later, session, other_id, then_now, again),
        r is Ok,
    ensures
        later == after,
        again is Ok,
        again->Ok_0@ == r->Ok_0@,
{
    let own = rows_of(before.browsers.rows@, Some(session));
    if own.len() == 0 {
        let input = choose|input: BrowserResourceInput|
            is_default_browser(input, session) && #[trigger] browser_saved(
                before,
                after,
                input,
                fresh_id,
                now,
                r,
            );
        let stored = row_with(after.browsers.rows@, id_or(input.id, fresh_id))->0;
        lemma_with_row(before.browsers.rows@, stored);
        lemma_only_row(before.browsers.rows@, stored);
    }
}

pub proof fn lemma_no_rows<R: Row>(rows: Seq<R>, group: Seq<char>)
    ensures
        rows_of(rows, Some(group)).len() == 0 <==> forall|i: int|
            0 <= i < rows.len() ==> (#[trigger] rows[i]).key_group() != group,
    decreases rows.len(),
{
    if rows.len() > 0 {
        let head = rows.drop_last();
        lemma_no_rows(head, group);
        if rows_of(rows, Some(group)).len() == 0 {
            assert forall|i: int| 0 <= i < rows.len() implies (#[trigger] rows[i]).key_group()
                != group by {
                if i < head.len() {
                    assert(head[i] == rows[i]);
                }
            }
        }
        if forall|i: int| 0 <= i < rows.len() ==> (#[trigger] rows[i]).key_group() != group {
            assert(rows[rows.len() - 1].key_group() != group);
            assert forall|i: int| 0 <= i < head.len() implies (#[trigger] head[i]).key_group()
                != group by {
                assert(rows[i].key_group() != group);
            }
        }
    }
}

proof fn lemma_single<R: Row>(rows: Seq<R>, at: int, group: Seq<char>)
    requires
        0 <= at < rows.len(),
        rows[at].key_group() == group,
        forall|i: int| 0 <= i < rows.len() && i != at ==> (#[trigger] rows[i]).key_group() != group,
    ensures
        rows_of(rows, Some(group)) == seq![rows[at]],
    decreases rows.len(),
{
    let head = rows.drop_last();
    if at == rows.len() - 1 {
        assert forall|i: int| 0 <= i < head.len() implies (#[trigger] head[i]).key_group()
            != group by {
            assert(rows[i].key_group() != group);
        }
        lemma_no_rows(head, group);
        assert(rows_of(rows, Some(group)) =~= seq![rows[at]]);
    } else {
        assert(rows[rows.len() - 1].key_group() != group);
        assert forall|i: int| 0 <= i < head.len() && i != at implies (
        #[trigger] head[i]).key_group() != group by {
            assert(rows[i].key_group() != group);
        }
        lemma_single(head, at, group);
    }
}

pub proof fn lemma_only_row<R: Row>(rows: Seq<R>, row: R)
    requires
        in_order(rows),
        ids_once(rows),
        rows_of(rows, Some(row.key_group())).len() == 0,
    ensures
        rows_of(with_row(rows, row), Some(row.key_group())) == seq![row],
{
    let whole = with_row(rows, row);
    lemma_with_row(rows, row);
    lemma_no_rows(rows, row.key_group());
    lemma_row_with(whole, row.key_id());
    let at = choose|k: int| 0 <= k < whole.len() && whole[k] == row;
    assert forall|i: int| 0 <= i < whole.len() && i != at implies (#[trigger] whole[i]).key_group()
        != row.key_group() by {
        if whole[i] == row {
            if i < at {
                assert(whole[i].key_id() != whole[at].key_id());
            } else {
                assert(whole[at].key_id() != whole[i].key_id());
            }
        } else {
            let k = choose|k: int| 0 <= k < rows.len() && rows[k] == whole[i];
            assert(rows[k].key_group() != row.key_group());
        }
    }
    lemma_single(whole, at, row.key_group());
}

/// The id under which something is saved: the one that it names, where that is not blank, else the
/// fresh one.
pub proof fn law_blank_ids_get_a_fresh_one(id: Option<String>, fresh_id: Seq<char>)
    ensures
        id is None ==> id_or(id, fresh_id) == fresh_id,
        id matches Some(own) ==> (trim(own@).len() == 0 ==> id_or(id, fresh_id) == fresh_id) && (
        trim(own@).len() > 0 ==> id_or(id, fresh_id) == own@),
{
}

/// A session without a name is refused and nothing changes; every other is stored as it was given,
/// without outer white space and with its layout.
pub proof fn law_sessions_are_stored_as_given(
    before: Database,
    after: Database,
    input: MuxSessionInput,
    fresh_id: Seq<char>,
    now: Seq<char>,
    r: Result<MuxSession, String>,
)
    requires
        before.wf(),
        place_for_session(before, input),
        session_saved(before, after, input, fresh_id, now, r),
    ensures
        r is Err <==> trim(input.name@).len() == 0,
        r is Err ==> after == before,
        r is Ok ==> {
            let id = id_or(input.id, fresh_id);
            let row = row_with(after.sessions.rows@, id)->0;
            &&& row.id@ == id
            &&& row.name@ == trim(input.name@)
            &&& row.root_path@ == trim(input.root_path@)
            &&& opt_layout(row.layout) == opt_layout(input.layout)
            &&& row.updated_at@ == now
            &&& after.panes == before.panes && after.browsers == before.browsers
            &&& match row_with(before.sessions.rows@, id) {
                Some(was) => row.sort_order == was.sort_order && row.created_at@
                    == was.created_at@,
                None => row.created_at@ == now && (next_order(before.sessions.rows@, ""@)
                    <= i64::MAX ==> forall|k: int|
                    0 <= k < before.sessions.rows@.len() ==> (
                    #[trigger] before.sessions.rows@[k]).sort_order < row.sort_order),
            }
        },
{
    if r is Ok {
        let rows = before.sessions.rows@;
        let id = id_or(input.id, fresh_id);
        lemma_session_row(rows, id);
        law_the_next_place_is_right_behind_the_last(rows, ""@);
        assert forall|k: int| 0 <= k < rows.len() implies (#[trigger] rows[k]).key_order()
            < next_order(rows, ""@) by {
            assert(rows[k].key_group() == ""@);
        }
    }
}

/// A pane is refused exactly where it names no session, has no title, shows a browser, is a
/// terminal without a target, or where its session is not stored; nothing changes then.
pub proof fn law_unfit_panes_are_refused(
    before: Database,
    after: Database,
    input: MuxPaneInput,
    fresh_id: Seq<char>,
    now: Seq<char>,
    r: Result<MuxPane, String>,
)
    requires
        pane_saved(before, after, input, fresh_id, now, r),
    ensures
        ({
            let session = trim(input.mux_session_id@);
            let blank = session.len() == 0 || trim(input.title@).len() == 0;
            let aimless = input.kind == MuxPaneKind::Terminal && trim(input.target_id@).len() == 0;
            let stray = forall|k: int|
                0 <= k < before.sessions.rows@.len() ==> (#[trigger] before.sessions.rows@[k]).id@
                    != session;
            &&& r is Err <==> blank || input.kind == MuxPaneKind::Browser || aimless || stray
            &&& r is Err ==> after == before
            &&& blank ==> r->Err_0@ == "Pane 必须属于一个 Session，且名称不能为空"@
            &&& !blank && input.kind == MuxPaneKind::Browser ==> r->Err_0@
                == "浏览器是会话级资源，不能保存为 Pane"@
            &&& !blank && aimless ==> r->Err_0@ == "Terminal Pane 必须指定 targetId"@
            &&& !blank && input.kind != MuxPaneKind::Browser && !aimless && stray ==> r->Err_0@
                == "Mux Session 不存在"@
        }),
{
    let rows = before.sessions.rows@;
    let session = trim(input.mux_session_id@);
    lemma_row_with(rows, session);
    assert forall|k: int| 0 <= k < rows.len() implies (#[trigger] rows[k]).key_id()
        == rows[k].id@ by {}
    match row_with(rows, session) {
        Some(row) => {
            let k = choose|k: int| 0 <= k < rows.len() && rows[k] == row;
            assert(rows[k].id@ == session);
        },
        None => {},
    }
}

/// A pane is stored as it was given, without outer white space. One that is saved again keeps its
/// place and its age; a new one comes behind the others of its session.
pub proof fn law_panes_are_stored_as_given(
    before: Database,
    after: Database,
    input: MuxPaneInput,
    fresh_id: Seq<char>,
    now: Seq<char>,
    r: Result<MuxPane, String>,
)
    requires
        before.wf(),
        pane_saved(before, after, input, fresh_id, now, r),
        r is Ok,
    ensures
        ({
            let id = id_or(input.id, fresh_id);
            let session = trim(input.mux_session_id@);
            let row = row_with(after.panes.rows@, id)->0;
            &&& row.id@ == id
            &&& row.mux_session_id@ == session
            &&& row.kind == input.kind
            &&& row.title@ == trim(input.title@)
            &&& row.target_id@ == trim(input.target_id@)
            &&& row.bookmark_id@ == trim(input.bookmark_id@)
            &&& row.cwd@ == trim(input.cwd@)
            &&& row.command@ == trim(input.command@)
            &&& row.launch_profile_id@ == trim(input.launch_profile_id@)
            &&& row.updated_at@ == now
            &&& after.sessions == before.sessions && after.browsers == before.browsers
            &&& match row_with(before.panes.rows@, id) {
                Some(was) => row.sort_order == was.sort_order && row.created_at@
                    == was.created_at@,
                None => row.created_at@ == now && (next_order(before.panes.rows@, session)
                    <= i64::MAX ==> forall|k: int|
                    0 <= k < before.panes.rows@.len() && (
                    #[trigger] before.panes.rows@[k]).mux_session_id@ == session
                        ==> before.panes.rows@[k].sort_order < row.sort_order),
            }
        }),
{
    let rows = before.panes.rows@;
    let id = id_or(input.id, fresh_id);
    let session = trim(input.mux_session_id@);
    lemma_pane_row(rows, id);
    law_the_next_place_is_right_behind_the_last(rows, session);
    assert forall|k: int|
        0 <= k < rows.len() && (#[trigger] rows[k]).mux_session_id@ == session implies rows[k].key_order()
        < next_order(rows, session) by {
        assert(rows[k].key_group() == session);
    }
    lemma_order_is_low(rows, session);
}

proof fn lemma_order_is_low(rows: Seq<MuxPane>, session: Seq<char>)
    ensures
        next_order(rows, session) >= i64::MIN,
{
    law_the_next_place_is_right_behind_the_last(rows, session);
    if exists|k: int|
        0 <= k < rows.len() && (#[trigger] rows[k]).key_group() == session && rows[k].key_order()
            + 1 == next_order(rows, session) {
        let k = choose|k: int|
            0 <= k < rows.len() && (#[trigger] rows[k]).key_group() == session
                && rows[k].key_order() + 1 == next_order(rows, session);
        assert(rows[k].key_order() == rows[k].sort_order);
    }
}

/// A browser that is to show the place of a pane is refused unless a pane of its session has that
/// id and connects to the same bookmark.
pub proof fn law_browsers_stand_by_their_pane(
    before: Database,
    after: Database,
    input: BrowserResourceInput,
    fresh_id: Seq<char>,
    now: Seq<char>,
    r: Result<BrowserResource, String>,
)
    requires
        browser_saved(before, after, input, fresh_id, now, r),
    ensures
        ({
            let session = trim(input.mux_session_id@);
            let source = trim(input.source_pane_id@);
            let bookmark = trim(input.bookmark_id@);
            let blank = session.len() == 0 || trim(input.name@).len() == 0;
            let stray = row_with(before.sessions.rows@, session) is None;
            let stands = exists|k: int|
                0 <= k < before.panes.rows@.len() && (#[trigger] before.panes.rows@[k]).id@
                    == source && before.panes.rows@[k].mux_session_id@ == session
                    && before.panes.rows@[k].bookmark_id@ == bookmark && bookmark.len() > 0;
            &&& r is Err ==> after == before
            &&& blank ==> r is Err && r->Err_0@ == "浏览器资源必须属于一个会话，且名称不能为空"@
            &&& !blank && stray ==> r is Err && r->Err_0@ == "Mux Session 不存在"@
            &&& source.len() > 0 && !stands ==> r is Err
            &&& !blank && !stray && source.len() > 0 && !stands ==> r->Err_0@
                == "浏览器资源引用的 SSH 窗格与当前会话或目标不匹配"@
            &&& !blank && !stray && (source.len() == 0 || stands) && r is Err ==> r->Err_0@
                == "每个 Mux Session 只能关联一个浏览器资源"@
        }),
{
    let session = trim(input.mux_session_id@);
    let source = trim(input.source_pane_id@);
    let bookmark = trim(input.bookmark_id@);
    lemma_panes_of(before.panes.rows@, session, source, bookmark);
}

proof fn lemma_panes_of(
    rows: Seq<MuxPane>,
    session: Seq<char>,
    source: Seq<char>,
    bookmark: Seq<char>,
)
    ensures
        has_source_pane(rows_of(rows, Some(session)), source, bookmark) <==> exists|k: int|
            0 <= k < rows.len() && (#[trigger] rows[k]).id@ == source && rows[k].mux_session_id@
                == session && rows[k].bookmark_id@ == bookmark && bookmark.len() > 0,
    decreases rows.len(),
{
    let own = rows_of(rows, Some(session));
    if rows.len() > 0 {
        let front = rows.drop_last();
        let rest = rows_of(front, Some(session));
        lemma_panes_of(front, session, source, bookmark);
        assert forall|k: int| 0 <= k < front.len() implies #[trigger] rows[k] == front[k] by {}
        let last = rows.last();
        assert(last.key_group() == last.mux_session_id@);
        assert(rows[rows.len() - 1] == last);
        if has_source_pane(own, source, bookmark) {
            let k = choose|k: int|
                0 <= k < own.len() && #[trigger] is_source_pane(own[k], source, bookmark);
            if k < rest.len() {
                assert(is_source_pane(rest[k], source, bookmark));
                let m = choose|m: int|
                    0 <= m < front.len() && (#[trigger] front[m]).id@ == source
                        && front[m].mux_session_id@ == session && front[m].bookmark_id@ == bookmark;
                assert(rows[m] == front[m]);
            } else {
                assert(own[k] == last);
            }
        }
        if exists|k: int|
            0 <= k < rows.len() && (#[trigger] rows[k]).id@ == source && rows[k].mux_session_id@
                == session && rows[k].bookmark_id@ == bookmark && bookmark.len() > 0 {
            let k = choose|k: int|
                0 <= k < rows.len() && (#[trigger] rows[k]).id@ == source && rows[k].mux_session_id@
                    == session && rows[k].bookmark_id@ == bookmark && bookmark.len() > 0;
            if k < front.len() {
                assert(front[k].id@ == source);
                let m = choose|m: int|
                    0 <= m < rest.len() && #[trigger] is_source_pane(rest[m], source, bookmark);
                assert(own[m] == rest[m]);
                assert(is_source_pane(own[m], source, bookmark));
            } else {
                assert(own[own.len() - 1] == last);
                assert(is_source_pane(own[own.len() - 1], source, bookmark));
            }
        }
    } else {
        assert(own.len() == 0);
    }
}

/// A browser is stored as it was given, without outer white space. One that is saved again keeps
/// its place and its age.
pub proof fn law_browsers_are_stored_as_given(
    before: Database,
    after: Database,
    input: BrowserResourceInput,
    fresh_id: Seq<char>,
    now: Seq<char>,
    r: Result<BrowserResource, String>,
    other: Seq<char>,
)
    requires
        before.wf(),
        browser_saved(before, after, input, fresh_id, now, r),
        r is Ok,
    ensures
        ({
            let id = id_or(input.id, fresh_id);
            let row = row_with(after.browsers.rows@, id)->0;
            &&& row.id@ == id
            &&& row.mux_session_id@ == trim(input.mux_session_id@)
            &&& row.name@ == trim(input.name@)
            &&& row.source_pane_id@ == trim(input.source_pane_id@)
            &&& row.bookmark_id@ == trim(input.bookmark_id@)
            &&& row.url@ == trim(input.url@)
            &&& row.temporary_profile == input.temporary_profile
            &&& row.updated_at@ == now
            &&& after.sessions == before.sessions && after.panes == before.panes
            &&& other != id ==> row_with(after.browsers.rows@, other) == row_with(
                before.browsers.rows@,
                other,
            )
            &&& match row_with(before.browsers.rows@, id) {
                Some(was) => row.sort_order == was.sort_order && row.created_at@
                    == was.created_at@,
                None => row.created_at@ == now,
            }
        }),
{
    let id = id_or(input.id, fresh_id);
    let row = row_with(after.browsers.rows@, id)->0;
    lemma_browser_row(before.browsers.rows@, id);
    lemma_with_row(before.browsers.rows@, row);
}

/// The browser that a session gets of its own is its first one, named `Browser`, without an
/// address and with a lasting profile.
pub proof fn law_new_sessions_get_an_empty_browser(
    before: Database,
    after: Database,
    session: Seq<char>,
    fresh_id: Seq<char>,
    now: Seq<char>,
    r: Result<BrowserResource, String>,
)
    requires
        before.wf(),
        session.len() > 0,
        trim(session) == session,
        row_with(before.sessions.rows@, session) is Some,
        row_with(before.browsers.rows@, fresh_id) is None,
        forall|k: int|
            0 <= k < before.browsers.rows@.len() ==> (
            #[trigger] before.browsers.rows@[k]).mux_session_id@ != session,
        browser_ensured(before, after, session, fresh_id, now, r),
    ensures
        r is Ok,
        r->Ok_0@.mux_session_id == session,
        r->Ok_0@.name == "Browser"@,
        r->Ok_0@.url.len() == 0,
        r->Ok_0@.source_pane_id.len() == 0,
        !r->Ok_0@.temporary_profile,
        r->Ok_0@.id == fresh_id,
{
    let rows = before.browsers.rows@;
    assert forall|k: int| 0 <= k < rows.len() implies (#[trigger] rows[k]).key_group()
        != session by {
        assert(rows[k].mux_session_id@ != session);
    }
    lemma_no_rows(rows, session);
    reveal_strlit("Browser");
    assert(!is_space('B') && !is_space('r'));
    assert(trim("Browser"@) == "Browser"@);
    let input = choose|input: BrowserResourceInput|
        is_default_browser(input, session) && #[trigger] browser_saved(
            before,
            after,
            input,
            fresh_id,
            now,
            r,
        );
    let empty = Seq::<char>::empty();
    assert(input.url@ =~= empty && input.source_pane_id@ =~= empty);
    lemma_trim_empty();
    assert(!has_other_browser(rows, session, id_or(input.id, fresh_id)));
}

proof fn lemma_trim_empty()
    ensures
        trim(Seq::<char>::empty()).len() == 0,
{
}

} // verus!
