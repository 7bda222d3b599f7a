//! The stored connections and their groups.
use vstd::prelude::*;
use vstd::string::*;

use crate::bookmarks::{
    bookmark_fault, bookmark_fault_text, bookmark_ids, check_bookmark, create_bookmark_group,
    delete_bookmark_group, drop_name, first_dependent, first_trimmed, group_names, ids_in_group,
    is_group_name, is_saved_form, law_accepted_order_is_a_permutation, law_groups_are_listed_once,
    law_jumps_hold_a_group, law_renaming_changes_one_name, list_bookmark_groups, move_target,
    names_without, prepare_bookmark_with, rename_bookmark_group, renamed, reorder_bookmark_groups,
    reorder_bookmarks, replaced_bookmark, same_members, Bookmark, BookmarkGroupDeleteResult,
    BookmarkInput,
};
use crate::clock::now_rfc3339;
use crate::database::{lemma_all_rows, marks_agree, same_records, same_sessions, Database};
use crate::ids::{is_uuid_text, new_id};
use crate::rows::{lemma_bookmark_row, BookmarkView};
use crate::table::{
    ids_once, in_order, key_le, law_the_next_place_is_right_behind_the_last, lemma_row_with,
    lemma_with_row, next_order, row_views, row_with, with_row, Row,
};
use crate::text::{copy_list, list_has, same, trim, trimmed, views};

verus! {

/// The id that an entered connection is saved under.
pub open spec fn bookmark_id(input: BookmarkInput, fresh_id: Seq<char>) -> Seq<char> {
    match input.id {
        Some(id) => id@,
        None => fresh_id,
    }
}

/// The credential of the connection goes because the way to sign in changed.
pub open spec fn forgets(before: Database, input: BookmarkInput) -> bool {
    let replaced = replaced_bookmark(input, before.bookmarks.rows@);
    replaced is Some && replaced->0.auth_type != input.auth_type
}

/// A connection can be saved: it is refused, it replaces a stored one, or there is a place behind
/// the others.
pub open spec fn place_for_bookmark(db: Database, input: BookmarkInput) -> bool {
    ||| bookmark_fault(input, db.bookmarks.rows@) is Some
    ||| replaced_bookmark(input, db.bookmarks.rows@) is Some
    ||| next_order(db.bookmarks.rows@, ""@) <= i64::MAX
}

/// A connection was saved.
pub open spec fn bookmark_saved(
    before: Database,
    after: Database,
    input: BookmarkInput,
    fresh_id: Seq<char>,
    now: Seq<char>,
    r: Result<Bookmark, String>,
) -> bool {
    let rows = before.bookmarks.rows@;
    match bookmark_fault(input, rows) {
        Some(fault) => r is Err && r->Err_0@ == bookmark_fault_text(fault) && after == before,
        None => {
            let id = bookmark_id(input, fresh_id);
            let stored = row_with(after.bookmarks.rows@, id);
            &&& r is Ok
            &&& is_saved_form(
                r->Ok_0,
                input,
                replaced_bookmark(input, rows),
                fresh_id,
                next_order(rows, ""@) as i64,
                now,
            )
            &&& views(after.credential_refs@) == (if forgets(before, input) {
                names_without(views(before.credential_refs@), id)
            } else {
                views(before.credential_refs@)
            })
            &&& stored is Some
            &&& stored->0@ == (BookmarkView {
                has_saved_credential: views(after.credential_refs@).contains(id),
                ..r->Ok_0@
            })
            &&& after.bookmarks.rows@ == with_row(rows, stored->0)
            &&& after.groups == before.groups
            &&& after.forwardings == before.forwardings
            &&& same_sessions(before, after)
            &&& same_records(before, after)
        },
    }
}

/// The groups that are shown: the stored ones, and those of the connections.
pub open spec fn shown_groups(db: Database) -> Seq<Seq<char>> {
    first_trimmed(views(db.groups@) + group_names(db.bookmarks.rows@))
}

/// The connections in a new order: each has the place at which its id stands.
pub open spec fn ordered_views(rows: Seq<Bookmark>, ids: Seq<Seq<char>>) -> Seq<BookmarkView> {
    Seq::new(
        ids.len(),
        |i: int| BookmarkView { sort_order: i as i64, ..row_with(rows, ids[i])->0@ },
    )
}

/// The connections once a group has another name.
pub open spec fn regrouped_views(
    rows: Seq<Bookmark>,
    from: Seq<char>,
    to: Seq<char>,
    now: Seq<char>,
) -> Seq<BookmarkView> {
    rows.map_values(
        |row: Bookmark|
            if row.group_name@ == from {
                BookmarkView { group_name: to, updated_at: now, ..row@ }
            } else {
                row@
            },
    )
}

/// The connections outside a group.
pub open spec fn outside_group(rows: Seq<Bookmark>, group: Seq<char>) -> Seq<Bookmark>
    decreases rows.len(),
{
    if rows.len() == 0 {
        rows
    } else if rows.last().group_name@ == group {
        outside_group(rows.drop_last(), group)
    } else {
        outside_group(rows.drop_last(), group).push(rows.last())
    }
}

/// The names without any of the others.
pub open spec fn names_outside(names: Seq<Seq<char>>, others: Seq<Seq<char>>) -> Seq<Seq<char>>
    decreases others.len(),
{
    if others.len() == 0 {
        names
    } else {
        names_without(names_outside(names, others.drop_last()), others.last())
    }
}

pub proof fn lemma_names_without(names: Seq<Seq<char>>, name: Seq<char>)
    ensures
        forall|s: Seq<char>|
            #[trigger] names_without(names, name).contains(s) <==> names.contains(s) && s != name,
    decreases names.len(),
{
    if names.len() > 0 {
        let head = names.drop_last();
        let rest = names_without(head, name);
        lemma_names_without(head, name);
        assert forall|s: Seq<char>|
            #[trigger] names_without(names, name).contains(s) <==> names.contains(s) && s
                != name by {
            if names.contains(s) && s != name {
                let k = choose|k: int| 0 <= k < names.len() && names[k] == s;
                if k < head.len() {
                    assert(head[k] == s);
                    assert(head.contains(s));
                    assert(rest.contains(s));
                    let m = choose|m: int| 0 <= m < rest.len() && rest[m] == s;
                    assert(names_without(names, name)[m] == s);
                } else {
                    assert(names_without(names, name)[rest.len() as int] == s);
                }
            }
            if names_without(names, name).contains(s) {
                let k = choose|k: int|
                    0 <= k < names_without(names, name).len() && names_without(names, name)[k] == s;
                if k < rest.len() {
                    assert(rest[k] == s);
                    assert(rest.contains(s));
                    let m = choose|m: int| 0 <= m < head.len() && head[m] == s;
                    assert(names[m] == s);
                } else {
                    assert(names[names.len() - 1] == s);
                }
            }
        }
    }
}

pub proof fn lemma_names_outside(names: Seq<Seq<char>>, others: Seq<Seq<char>>)
    ensures
        forall|s: Seq<char>|
            #[trigger] names_outside(names, others).contains(s) <==> names.contains(s)
                && !others.contains(s),
    decreases others.len(),
{
    if others.len() > 0 {
        let head = others.drop_last();
        lemma_names_outside(names, head);
        lemma_names_without(names_outside(names, head), others.last());
        assert forall|s: Seq<char>|
            #[trigger] names_outside(names, others).contains(s) <==> names.contains(s)
                && !others.contains(s) by {
            assert(others.contains(s) <==> head.contains(s) || s == others.last()) by {
                if others.contains(s) {
                    let k = choose|k: int| 0 <= k < others.len() && others[k] == s;
                    if k < head.len() {
                        assert(head[k] == s);
                    }
                }
                if head.contains(s) {
                    let k = choose|k: int| 0 <= k < head.len() && head[k] == s;
                    assert(others[k] == s);
                }
                if s == others.last() {
                    assert(others[others.len() - 1] == s);
                }
            }
            assert(names_outside(names, others) == names_without(
                names_outside(names, head),
                others.last(),
            ));
        }
    }
}

proof fn lemma_outside_group(rows: Seq<Bookmark>, group: Seq<char>)
    ensures
        forall|k: int|
            0 <= k < outside_group(rows, group).len() ==> rows.contains(
                #[trigger] outside_group(rows, group)[k],
            ) && outside_group(rows, group)[k].group_name@ != group,
        forall|k: int|
            0 <= k < rows.len() && (#[trigger] rows[k]).group_name@ != group ==> outside_group(
                rows,
                group,
            ).contains(rows[k]),
        in_order(rows) ==> in_order(outside_group(rows, group)),
        ids_once(rows) ==> ids_once(outside_group(rows, group)),
    decreases rows.len(),
{
    if rows.len() > 0 {
        let head = rows.drop_last();
        let rest = outside_group(head, group);
        let whole = outside_group(rows, group);
        lemma_outside_group(head, group);
        assert forall|k: int| 0 <= k < whole.len() implies rows.contains(#[trigger] whole[k])
            && whole[k].group_name@ != group by {
            if k < rest.len() {
                assert(rest[k] == whole[k]);
                let m = choose|m: int| 0 <= m < head.len() && head[m] == rest[k];
                assert(rows[m] == rest[k]);
            } else {
                assert(rows[rows.len() - 1] == whole[k]);
            }
        }
        assert forall|k: int|
            0 <= k < rows.len() && (#[trigger] rows[k]).group_name@ != group implies whole.contains(
            rows[k],
        ) by {
            if k < head.len() {
                assert(head[k] == rows[k]);
                let m = choose|m: int| 0 <= m < rest.len() && rest[m] == rows[k];
                assert(whole[m] == rows[k]);
            } else {
                assert(whole[rest.len() as int] == rows[k]);
            }
        }
        if in_order(rows) || ids_once(rows) {
            assert(in_order(rows) ==> in_order(head));
            assert(ids_once(rows) ==> ids_once(head));
            assert forall|i: int, j: int| 0 <= i < j < whole.len() implies (in_order(rows)
                ==> key_le(#[trigger] whole[i], #[trigger] whole[j])) && (ids_once(
                rows,
            ) ==> whole[i].key_id() != whole[j].key_id()) by {
                assert(whole[i] == rest[i]);
                if j < rest.len() {
                    assert(whole[j] == rest[j]);
                } else {
                    let m = choose|m: int| 0 <= m < head.len() && head[m] == rest[i];
                    assert(rows[m] == whole[i]);
                    assert(rows[rows.len() - 1] == whole[j]);
                }
            }
        }
    }
}

proof fn lemma_ids_in_group(rows: Seq<Bookmark>, group: Seq<char>)
    ensures
        forall|k: int|
            0 <= k < rows.len() && (#[trigger] rows[k]).group_name@ == group ==> ids_in_group(
                rows,
                group,
            ).contains(rows[k].id@),
        forall|s: Seq<char>| #[trigger]
            ids_in_group(rows, group).contains(s) ==> exists|k: int|
                0 <= k < rows.len() && (#[trigger] rows[k]).group_name@ == group && rows[k].id@
                    == s,
    decreases rows.len(),
{
    if rows.len() > 0 {
        let head = rows.drop_last();
        let rest = ids_in_group(head, group);
        let whole = ids_in_group(rows, group);
        lemma_ids_in_group(head, group);
        assert forall|k: int|
            0 <= k < rows.len() && (#[trigger] rows[k]).group_name@ == group implies whole.contains(
            rows[k].id@,
        ) by {
            if k < head.len() {
                assert(head[k] == rows[k]);
                assert(rest.contains(rows[k].id@));
                let m = choose|m: int| 0 <= m < rest.len() && rest[m] == rows[k].id@;
                assert(whole[m] == rows[k].id@);
            } else {
                assert(whole[rest.len() as int] == rows[k].id@);
            }
        }
        assert forall|s: Seq<char>| #[trigger] whole.contains(s) implies exists|k: int|
            0 <= k < rows.len() && (#[trigger] rows[k]).group_name@ == group && rows[k].id@
                == s by {
            let m = choose|m: int| 0 <= m < whole.len() && whole[m] == s;
            if m < rest.len() {
                assert(rest[m] == s);
                assert(rest.contains(s));
                let k = choose|k: int|
                    0 <= k < head.len() && (#[trigger] head[k]).group_name@ == group && head[k].id@
                        == s;
                assert(rows[k] == head[k]);
            } else {
                assert(rows[rows.len() - 1].id@ == s);
            }
        }
    }
}

impl Database {
    /// The connections in their order.
    pub fn list_bookmarks(&self) -> (r: Vec<Bookmark>)
        ensures
            row_views(r@) == row_views(self.bookmarks.rows@),
    {
        proof {
            lemma_all_rows(self.bookmarks.rows@);
        }
        self.bookmarks.list(None)
    }

    /// The connection with this id.
    pub fn get_bookmark(&self, id: &str) -> (r: Option<Bookmark>)
        ensures
            match row_with(self.bookmarks.rows@, id@) {
                Some(row) => r is Some && r->0@ == row@,
                None => r is None,
            },
    {
        match self.bookmarks.get(id) {
            Some(row) => Some(row.copy_row()),
            None => None,
        }
    }

    /// Tells whether a connection can be saved.
    pub fn has_place_for_bookmark(&self, input: &BookmarkInput) -> (r: bool)
        ensures
            r == place_for_bookmark(*self, *input),
    {
        if check_bookmark(input, &self.bookmarks.rows).is_err() {
            return true;
        }
        if let Some(id) = &input.id {
            proof {
                lemma_bookmark_row(self.bookmarks.rows@, id@);
            }
            if self.bookmarks.get(id.as_str()).is_some() {
                return true;
            }
        }
        self.bookmarks.next_order("").is_some()
    }

    /// Saves an entered connection, under the given id where it has none.
    pub fn save_bookmark_as(&mut self, input: BookmarkInput, fresh_id: String, now: &str) -> (r:
        Result<Bookmark, String>)
        requires
            old(self).wf(),
            place_for_bookmark(*old(self), input),
        ensures
            final(self).wf(),
            bookmark_saved(*old(self), *final(self), input, fresh_id@, now@, r),
    {
        let next: i64 = match self.bookmarks.next_order("") {
            Some(order) => order,
            None => 0,
        };
        let prepared = match prepare_bookmark_with(
            input,
            &self.bookmarks.rows,
            fresh_id,
            next,
            now,
        ) {
            Ok(prepared) => prepared,
            Err(message) => {
                return Err(message);
            },
        };
        let bookmark = prepared.bookmark;
        let ghost id = bookmark.id@;
        let ghost refs = views(self.credential_refs@);
        if prepared.forget_credential {
            self.credential_refs = drop_name(&self.credential_refs, bookmark.id.as_str());
        }
        let mut stored = bookmark.copy_row();
        stored.has_saved_credential = list_has(&self.credential_refs, stored.id.as_str());
        proof {
            lemma_names_without(refs, id);
            lemma_with_row(self.bookmarks.rows@, stored);
            let after = with_row(self.bookmarks.rows@, stored);
            assert forall|i: int| 0 <= i < after.len() implies (
            #[trigger] after[i]).has_saved_credential == views(self.credential_refs@).contains(
                after[i].id@,
            ) by {
                if after[i] != stored {
                    let k = choose|k: int|
                        0 <= k < self.bookmarks.rows@.len() && self.bookmarks.rows@[k] == after[i];
                    assert(self.bookmarks.rows@[k].has_saved_credential == refs.contains(
                        after[i].id@,
                    ));
                }
            }
        }
        self.bookmarks.put(stored);
        Ok(bookmark)
    }

    /// Saves an entered connection, under a fresh id where it has none.
    pub fn save_bookmark(&mut self, input: BookmarkInput) -> (r: Result<Bookmark, String>)
        requires
            old(self).wf(),
            place_for_bookmark(*old(self), input),
        ensures
            final(self).wf(),
            exists|fresh_id: Seq<char>, now: Seq<char>|
                is_uuid_text(fresh_id) && #[trigger] bookmark_saved(
                    *old(self),
                    *final(self),
                    input,
                    fresh_id,
                    now,
                    r,
                ),
    {
        let fresh_id = new_id();
        let now = now_rfc3339();
        self.save_bookmark_as(input, fresh_id, now.as_str())
    }

    /// Gives the connections a new order.
    pub fn reorder_bookmarks(&mut self, ids: &[String]) -> (r: Result<Vec<Bookmark>, String>)
        requires
            old(self).wf(),
            ids@.len() <= i64::MAX,
        ensures
            final(self).wf(),
            same_sessions(*old(self), *final(self)),
            same_records(*old(self), *final(self)),
            final(self).credential_refs == old(self).credential_refs,
            final(self).groups == old(self).groups,
            final(self).forwardings == old(self).forwardings,
            if same_members(views(ids@), bookmark_ids(old(self).bookmarks.rows@)) {
                &&& r is Ok
                &&& row_views(r->Ok_0@) == ordered_views(old(self).bookmarks.rows@, views(ids@))
                &&& row_views(final(self).bookmarks.rows@) == ordered_views(
                    old(self).bookmarks.rows@,
                    views(ids@),
                )
            } else {
                &&& r is Err
                &&& r->Err_0@ == "连接排序数据已过期，请刷新后重试"@
                &&& final(self).bookmarks == old(self).bookmarks
            },
            order_taken(*old(self), *final(self), views(ids@), r is Ok),
    {
        match reorder_bookmarks(&self.bookmarks.rows, ids) {
            Ok(()) => {},
            Err(message) => {
                return Err(message);
            },
        }
        let ghost before = self.bookmarks.rows@;
        let ghost wanted = views(ids@);
        let ghost refs = views(self.credential_refs@);
        proof {
            assert(bookmark_ids(before).no_duplicates()) by {
                assert forall|i: int, j: int|
                    0 <= i < before.len() && 0 <= j < before.len() && i != j implies bookmark_ids(
                    before,
                )[i] != bookmark_ids(before)[j] by {
                    if i < j {
                        assert(before[i].key_id() != before[j].key_id());
                    } else {
                        assert(before[j].key_id() != before[i].key_id());
                    }
                }
            }
            law_accepted_order_is_a_permutation(wanted, bookmark_ids(before));
        }
        let mut rows: Vec<Bookmark> = Vec::new();
        let mut i: usize = 0;
        while i < ids.len()
            invariant
                self.bookmarks.rows@ == before,
                before == old(self).bookmarks.rows@,
                *self == *old(self),
                wanted == views(ids@),
                refs == views(self.credential_refs@),
                ids@.len() <= i64::MAX,
                i <= ids@.len(),
                rows@.len() == i,
                same_members(wanted, bookmark_ids(before)),
                forall|k: int| 0 <= k < i ==> row_with(before, wanted[k]) is Some,
                forall|k: int|
                    #![trigger rows@[k]]
                    0 <= k < i ==> rows@[k]@ == (BookmarkView {
                        sort_order: k as i64,
                        ..row_with(before, wanted[k])->0@
                    }),
            decreases ids@.len() - i,
        {
            proof {
                assert(wanted[i as int] == ids@[i as int]@);
                assert(bookmark_ids(before).contains(wanted[i as int]));
                let m = choose|m: int|
                    0 <= m < bookmark_ids(before).len() && bookmark_ids(before)[m]
                        == wanted[i as int];
                assert(before[m].key_id() == wanted[i as int]);
                lemma_row_with(before, wanted[i as int]);
            }
            match self.bookmarks.get(ids[i].as_str()) {
                Some(row) => {
                    let mut row = row.copy_row();
                    row.sort_order = i as i64;
                    rows.push(row);
                },
                None => {},
            }
            i = i + 1;
        }
        proof {
            assert(row_views(rows@) =~= ordered_views(before, wanted));
            assert forall|a: int, b: int| 0 <= a < b < rows@.len() implies key_le(
                #[trigger] rows@[a],
                #[trigger] rows@[b],
            ) && rows@[a].key_id() != rows@[b].key_id() by {
                lemma_row_with(before, wanted[a]);
                lemma_row_with(before, wanted[b]);
                assert(rows@[a]@.sort_order == a && rows@[b]@.sort_order == b);
                assert(rows@[a]@.id == wanted[a] && rows@[b]@.id == wanted[b]);
            }
            assert forall|k: int| 0 <= k < rows@.len() implies (
            #[trigger] rows@[k]).has_saved_credential == refs.contains(rows@[k].id@) by {
                lemma_row_with(before, wanted[k]);
                let found = row_with(before, wanted[k])->0;
                let m = choose|m: int| 0 <= m < before.len() && before[m] == found;
                assert(before[m].has_saved_credential == refs.contains(before[m].id@));
                assert(rows@[k]@.has_saved_credential == found@.has_saved_credential);
                assert(rows@[k]@.id == found@.id);
            }
        }
        self.bookmarks.rows = rows;
        Ok(self.list_bookmarks())
    }

    /// The groups that are shown.
    pub fn list_bookmark_groups(&self) -> (r: Vec<String>)
        ensures
            views(r@) == shown_groups(*self),
    {
        list_bookmark_groups(&self.groups, &self.bookmarks.rows)
    }

    /// Adds a group.
    pub fn create_bookmark_group(&mut self, name: &str) -> (r: Result<Vec<String>, String>)
        requires
            old(self).wf(),
        ensures
            final(self).wf(),
            final(self).bookmarks == old(self).bookmarks,
            final(self).credential_refs == old(self).credential_refs,
            final(self).forwardings == old(self).forwardings,
            same_sessions(*old(self), *final(self)),
            same_records(*old(self), *final(self)),
            if !is_group_name(trim(name@)) {
                &&& r is Err
                &&& r->Err_0@ == "分组名称不能为空或“未分组”"@
                &&& final(self).groups == old(self).groups
            } else if shown_groups(*old(self)).contains(trim(name@)) {
                &&& r is Err
                &&& r->Err_0@ == "同名分组已存在"@
                &&& final(self).groups == old(self).groups
            } else {
                &&& r is Ok
                &&& views(r->Ok_0@) == shown_groups(*old(self)).push(trim(name@))
                &&& views(final(self).groups@) == views(r->Ok_0@)
            },
            group_added(*old(self), *final(self), name@, r is Ok),
    {
        let groups = match create_bookmark_group(self.list_bookmark_groups(), name) {
            Ok(groups) => groups,
            Err(message) => {
                return Err(message);
            },
        };
        self.groups = copy_list(&groups);
        Ok(groups)
    }

    fn regroup(&mut self, from: &str, to: &str, now: &str)
        requires
            old(self).wf(),
        ensures
            final(self).wf(),
            row_views(final(self).bookmarks.rows@) == regrouped_views(
                old(self).bookmarks.rows@,
                from@,
                to@,
                now@,
            ),
            final(self).credential_refs == old(self).credential_refs,
            final(self).groups == old(self).groups,
            final(self).forwardings == old(self).forwardings,
            same_sessions(*old(self), *final(self)),
            same_records(*old(self), *final(self)),
    {
        let ghost before = self.bookmarks.rows@;
        let ghost refs = views(self.credential_refs@);
        let mut i: usize = 0;
        while i < self.bookmarks.rows.len()
            invariant
                before == old(self).bookmarks.rows@,
                old(self).wf(),
                self.credential_refs == old(self).credential_refs,
                refs == views(self.credential_refs@),
                self.groups == old(self).groups,
                self.forwardings == old(self).forwardings,
                same_sessions(*old(self), *self),
                same_records(*old(self), *self),
                i <= before.len(),
                self.bookmarks.rows@.len() == before.len(),
                forall|k: int| i <= k < before.len() ==> #[trigger] self.bookmarks.rows@[k] == before[k],
                forall|k: int|
                    #![trigger self.bookmarks.rows@[k]]
                    0 <= k < i ==> self.bookmarks.rows@[k]@ == (if before[k].group_name@ == from@ {
                        BookmarkView { group_name: to@, updated_at: now@, ..before[k]@ }
                    } else {
                        before[k]@
                    }),
            decreases before.len() - i,
        {
            if same(self.bookmarks.rows[i].group_name.as_str(), from) {
                let mut row = self.bookmarks.rows[i].copy_row();
                row.group_name = to.to_owned();
                row.updated_at = now.to_owned();
                self.bookmarks.rows.set(i, row);
            }
            i = i + 1;
        }
        proof {
            let after = self.bookmarks.rows@;
            assert(row_views(after) =~= regrouped_views(before, from@, to@, now@));
            assert forall|k: int| 0 <= k < after.len() implies {
                &&& (#[trigger] after[k]).id@ == before[k].id@
                &&& after[k].sort_order == before[k].sort_order
                &&& after[k].created_at@ == before[k].created_at@
                &&& after[k].has_saved_credential == before[k].has_saved_credential
            } by {
                assert(after[k]@.id == before[k]@.id);
                assert(after[k]@.sort_order == before[k]@.sort_order);
                assert(after[k]@.created_at == before[k]@.created_at);
                assert(after[k]@.has_saved_credential == before[k]@.has_saved_credential);
            }
            assert forall|a: int, b: int| 0 <= a < b < after.len() implies key_le(
                #[trigger] after[a],
                #[trigger] after[b],
            ) && after[a].key_id() != after[b].key_id() by {
                assert(key_le(before[a], before[b]));
                assert(before[a].key_id() != before[b].key_id());
            }
            assert(marks_agree(after, refs));
        }
    }

    /// Renames a group, for its connections too.
    pub fn rename_bookmark_group(&mut self, old_name: &str, new_name: &str, now: &str) -> (r: Result<
        Vec<String>,
        String,
    >)
        requires
            old(self).wf(),
        ensures
            final(self).wf(),
            final(self).credential_refs == old(self).credential_refs,
            final(self).forwardings == old(self).forwardings,
            same_sessions(*old(self), *final(self)),
            same_records(*old(self), *final(self)),
            ({
                let from = trim(old_name@);
                let to = trim(new_name@);
                let shown = shown_groups(*old(self));
                if !is_group_name(to) {
                    &&& r is Err
                    &&& r->Err_0@ == "分组名称不能为空或“未分组”"@
                    &&& *final(self) == *old(self)
                } else if !shown.contains(from) {
                    &&& r is Err
                    &&& r->Err_0@ == "要重命名的分组不存在"@
                    &&& *final(self) == *old(self)
                } else if from != to && shown.contains(to) {
                    &&& r is Err
                    &&& r->Err_0@ == "同名分组已存在"@
                    &&& *final(self) == *old(self)
                } else {
                    &&& r is Ok
                    &&& views(r->Ok_0@) == renamed(shown, from, to)
                    &&& views(final(self).groups@) == views(r->Ok_0@)
                    &&& row_views(final(self).bookmarks.rows@) == regrouped_views(
                        old(self).bookmarks.rows@,
                        from,
                        to,
                        now@,
                    )
                }
            }),
            group_renamed(*old(self), *final(self), old_name@, new_name@, now@, r is Ok),
    {
        let shown = self.list_bookmark_groups();
        let groups = match rename_bookmark_group(&shown, old_name, new_name) {
            Ok(groups) => groups,
            Err(message) => {
                return Err(message);
            },
        };
        let from = trimmed(old_name);
        let to = trimmed(new_name);
        self.regroup(from.as_str(), to.as_str(), now);
        self.groups = copy_list(&groups);
        Ok(groups)
    }

    fn drop_group(&mut self, group: &str)
        requires
            old(self).wf(),
        ensures
            final(self).wf(),
            final(self).bookmarks.rows@ == outside_group(old(self).bookmarks.rows@, group@),
            views(final(self).credential_refs@) == names_outside(
                views(old(self).credential_refs@),
                ids_in_group(old(self).bookmarks.rows@, group@),
            ),
            final(self).groups == old(self).groups,
            final(self).forwardings == old(self).forwardings,
            same_sessions(*old(self), *final(self)),
            same_records(*old(self), *final(self)),
    {
        let ghost all = self.bookmarks.rows@;
        let ghost refs = views(self.credential_refs@);
        let ghost mut done: int = 0;
        let mut i: usize = 0;
        proof {
            lemma_outside_group(all, group@);
            assert(outside_group(all.take(0), group@) + all.skip(0) =~= all);
            assert(names_outside(refs, ids_in_group(all.take(0), group@)) =~= refs);
        }
        while i < self.bookmarks.rows.len()
            invariant
                all == old(self).bookmarks.rows@,
                refs == views(old(self).credential_refs@),
                self.groups == old(self).groups,
                self.forwardings == old(self).forwardings,
                same_sessions(*old(self), *self),
                same_records(*old(self), *self),
                0 <= done <= all.len(),
                i == outside_group(all.take(done), group@).len(),
                self.bookmarks.rows@ == outside_group(all.take(done), group@) + all.skip(done),
                views(self.credential_refs@) == names_outside(
                    refs,
                    ids_in_group(all.take(done), group@),
                ),
            decreases all.len() - done,
        {
            let ghost kept = outside_group(all.take(done), group@);
            let ghost gone = ids_in_group(all.take(done), group@);
            assert(self.bookmarks.rows@[i as int] == all.skip(done)[0]);
            assert(all.take(done + 1).drop_last() =~= all.take(done));
            assert(all.take(done + 1).last() == all[done]);
            if same(self.bookmarks.rows[i].group_name.as_str(), group) {
                self.credential_refs = drop_name(
                    &self.credential_refs,
                    self.bookmarks.rows[i].id.as_str(),
                );
                self.bookmarks.rows.remove(i);
                assert((kept + all.skip(done)).remove(i as int) =~= kept + all.skip(done + 1));
                assert(gone.push(all[done].id@).drop_last() =~= gone);
            } else {
                assert(kept + all.skip(done) =~= kept.push(all[done]) + all.skip(done + 1));
                i = i + 1;
            }
            proof {
                done = done + 1;
            }
        }
        proof {
            assert(done == all.len());
            assert(all.take(done) =~= all);
            let left = outside_group(all, group@);
            let gone = ids_in_group(all, group@);
            assert(left + all.skip(done) =~= left);
            lemma_names_outside(refs, gone);
            lemma_ids_in_group(all, group@);
            assert forall|k: int| 0 <= k < left.len() implies (
            #[trigger] left[k]).has_saved_credential == names_outside(refs, gone).contains(
                left[k].id@,
            ) by {
                let m = choose|m: int| 0 <= m < all.len() && all[m] == left[k];
                assert(all[m].has_saved_credential == refs.contains(all[m].id@));
                if gone.contains(left[k].id@) {
                    let n = choose|n: int|
                        0 <= n < all.len() && (#[trigger] all[n]).group_name@ == group@
                            && all[n].id@ == left[k].id@;
                    if n < m {
                        assert(all[n].key_id() != all[m].key_id());
                    } else if m < n {
                        assert(all[m].key_id() != all[n].key_id());
                    }
                }
            }
        }
    }

    /// Deletes a group with its connections and their credentials.
    pub fn delete_bookmark_group(&mut self, name: &str) -> (r: Result<
        BookmarkGroupDeleteResult,
        String,
    >)
        requires
            old(self).wf(),
        ensures
            final(self).wf(),
            final(self).forwardings == old(self).forwardings,
            same_sessions(*old(self), *final(self)),
            same_records(*old(self), *final(self)),
            ({
                let wanted = trim(name@);
                let rows = old(self).bookmarks.rows@;
                let leaving = ids_in_group(rows, wanted);
                if !shown_groups(*old(self)).contains(wanted) {
                    &&& r is Err
                    &&& r->Err_0@ == "要删除的分组不存在"@
                    &&& *final(self) == *old(self)
                } else {
                    match first_dependent(rows, leaving) {
                        Some(b) => {
                            &&& r is Err
                            &&& r->Err_0@ == "连接“"@ + b.name@
                                + "”正在使用该分组中的跳板机，请先修改该连接"@
                            &&& *final(self) == *old(self)
                        },
                        None => {
                            &&& r is Ok
                            &&& views(r->Ok_0.groups@) == names_without(
                                shown_groups(*old(self)),
                                wanted,
                            )
                            &&& views(r->Ok_0.deleted_bookmark_ids@) == leaving
                            &&& views(final(self).groups@) == views(r->Ok_0.groups@)
                            &&& final(self).bookmarks.rows@ == outside_group(rows, wanted)
                            &&& views(final(self).credential_refs@) == names_outside(
                                views(old(self).credential_refs@),
                                leaving,
                            )
                        },
                    }
                }
            }),
            group_deleted(*old(self), *final(self), name@, r is Ok),
    {
        let shown = self.list_bookmark_groups();
        let result = match delete_bookmark_group(&shown, &self.bookmarks.rows, name) {
            Ok(result) => result,
            Err(message) => {
                return Err(message);
            },
        };
        let wanted = trimmed(name);
        self.drop_group(wanted.as_str());
        self.groups = copy_list(&result.groups);
        Ok(result)
    }

    /// Gives the groups a new order.
    pub fn reorder_bookmark_groups(&mut self, groups: &[String]) -> (r: Result<Vec<String>, String>)
        requires
            old(self).wf(),
        ensures
            final(self).wf(),
            final(self).bookmarks == old(self).bookmarks,
            final(self).credential_refs == old(self).credential_refs,
            final(self).forwardings == old(self).forwardings,
            same_sessions(*old(self), *final(self)),
            same_records(*old(self), *final(self)),
            ({
                let wanted = views(groups@).map_values(|s: Seq<char>| trim(s));
                if same_members(wanted, shown_groups(*old(self))) {
                    &&& r is Ok
                    &&& views(r->Ok_0@) == wanted
                    &&& views(final(self).groups@) == wanted
                } else {
                    &&& r is Err
                    &&& r->Err_0@ == "分组排序数据已过期，请刷新后重试"@
                    &&& final(self).groups == old(self).groups
                }
            }),
    {
        let shown = self.list_bookmark_groups();
        let ordered = match reorder_bookmark_groups(&shown, groups) {
            Ok(ordered) => ordered,
            Err(message) => {
                return Err(message);
            },
        };
        self.groups = copy_list(&ordered);
        Ok(ordered)
    }

    /// Moves a connection to another group.
    pub fn move_bookmark_to_group(&mut self, id: &str, group_name: &str, now: &str) -> (r: Result<
        Vec<Bookmark>,
        String,
    >)
        requires
            old(self).wf(),
        ensures
            final(self).wf(),
            final(self).credential_refs == old(self).credential_refs,
            final(self).groups == old(self).groups,
            final(self).forwardings == old(self).forwardings,
            same_sessions(*old(self), *final(self)),
            same_records(*old(self), *final(self)),
            ({
                let rows = old(self).bookmarks.rows@;
                let found = row_with(rows, id@);
                if !shown_groups(*old(self)).contains(trim(group_name@)) {
                    &&& r is Err
                    &&& r->Err_0@ == "目标分组不存在"@
                    &&& final(self).bookmarks == old(self).bookmarks
                } else if found is None {
                    &&& r is Err
                    &&& r->Err_0@ == "要移动的连接不存在"@
                    &&& final(self).bookmarks == old(self).bookmarks
                } else {
                    let moved = row_with(final(self).bookmarks.rows@, id@);
                    &&& r is Ok
                    &&& moved is Some
                    &&& moved->0@ == (BookmarkView {
                        group_name: trim(group_name@),
                        updated_at: now@,
                        ..found->0@
                    })
                    &&& final(self).bookmarks.rows@ == with_row(rows, moved->0)
                    &&& row_views(r->Ok_0@) == row_views(final(self).bookmarks.rows@)
                }
            }),
            connection_moved(*old(self), *final(self), id@, group_name@, now@, r is Ok),
    {
        let shown = self.list_bookmark_groups();
        let group = match move_target(&shown, group_name) {
            Ok(group) => group,
            Err(message) => {
                return Err(message);
            },
        };
        let mut row = match self.bookmarks.get(id) {
            Some(row) => row.copy_row(),
            None => {
                return Err("要移动的连接不存在".to_owned());
            },
        };
        proof {
            lemma_row_with(self.bookmarks.rows@, id@);
        }
        let ghost found = row_with(self.bookmarks.rows@, id@)->0;
        assert(row@ == found@);
        row.group_name = group;
        row.updated_at = now.to_owned();
        proof {
            assert(row@.id == found@.id);
            assert(row@.has_saved_credential == found@.has_saved_credential);
        }
        self.put_marked(row);
        Ok(self.list_bookmarks())
    }

    pub(crate) fn put_marked(&mut self, row: Bookmark)
        requires
            old(self).wf(),
            row.has_saved_credential == views(old(self).credential_refs@).contains(row.id@),
        ensures
            final(self).wf(),
            final(self).bookmarks.rows@ == with_row(old(self).bookmarks.rows@, row),
            row_with(final(self).bookmarks.rows@, row.id@) == Some(row),
            final(self).credential_refs == old(self).credential_refs,
            final(self).groups == old(self).groups,
            final(self).forwardings == old(self).forwardings,
            same_sessions(*old(self), *final(self)),
            same_records(*old(self), *final(self)),
    {
        let ghost rows = self.bookmarks.rows@;
        proof {
            lemma_with_row(rows, row);
            let after = with_row(rows, row);
            assert forall|i: int| 0 <= i < after.len() implies (
            #[trigger] after[i]).has_saved_credential == views(self.credential_refs@).contains(
                after[i].id@,
            ) by {
                if after[i] != row {
                    let k = choose|k: int| 0 <= k < rows.len() && rows[k] == after[i];
                    assert(rows[k].has_saved_credential == views(self.credential_refs@).contains(
                        rows[k].id@,
                    ));
                }
            }
        }
        self.bookmarks.put(row);
    }
}

/// A connection is refused exactly where its name, its host or its user is blank, where it would
/// jump through itself, or where it would jump through a connection that is not stored; nothing
/// changes then.
pub proof fn law_incomplete_connections_are_refused(
    before: Database,
    after: Database,
    input: BookmarkInput,
    fresh_id: Seq<char>,
    now: Seq<char>,
    r: Result<Bookmark, String>,
)
    requires
        bookmark_saved(before, after, input, fresh_id, now, r),
    ensures
        ({
            let jump = trim(input.jump_bookmark_id@);
            let blank = trim(input.name@).len() == 0 || trim(input.host@).len() == 0 || trim(
                input.username@,
            ).len() == 0;
            let itself = input.id is Some && input.id->0@ == jump;
            let missing = jump.len() > 0 && forall|k: int|
                0 <= k < before.bookmarks.rows@.len() ==> (
                #[trigger] before.bookmarks.rows@[k]).id@ != jump;
            &&& r is Err <==> blank || itself || missing
            &&& r is Err ==> after == before
            &&& blank ==> r->Err_0@ == "连接名称、主机和用户名不能为空"@
            &&& !blank && itself ==> r->Err_0@ == "连接不能将自身设置为跳板机"@
            &&& !blank && !itself && missing ==> r->Err_0@ == "选择的跳板机连接不存在"@
        }),
{
    let rows = before.bookmarks.rows@;
    let jump = trim(input.jump_bookmark_id@);
    lemma_bookmark_row(rows, jump);
    lemma_row_with(rows, jump);
    assert forall|k: int| 0 <= k < rows.len() implies (#[trigger] rows[k]).key_id()
        == rows[k].id@ by {}
    match row_with(rows, jump) {
        Some(row) => {
            let k = choose|k: int| 0 <= k < rows.len() && rows[k] == row;
            assert(rows[k].id@ == jump);
        },
        None => {},
    }
}

/// A saved connection is found under its id with what was entered, without outer white space and
/// with its keepalive in bounds; every other connection stays as it was.
pub proof fn law_saved_connections_are_found(
    before: Database,
    after: Database,
    input: BookmarkInput,
    fresh_id: Seq<char>,
    now: Seq<char>,
    r: Result<Bookmark, String>,
)
    requires
        before.wf(),
        bookmark_saved(before, after, input, fresh_id, now, r),
        r is Ok,
    ensures
        ({
            let id = match input.id {
                Some(id) => id@,
                None => fresh_id,
            };
            let found = row_with(after.bookmarks.rows@, id);
            let b = found->0@;
            let interval = input.keepalive_interval_seconds;
            let count = input.keepalive_count_max;
            &&& found is Some
            &&& b.id == id
            &&& b.name == trim(input.name@)
            &&& b.host == trim(input.host@)
            &&& b.port == input.port
            &&& b.username == trim(input.username@)
            &&& b.auth_type == input.auth_type
            &&& b.private_key_path == trim(input.private_key_path@)
            &&& b.jump_bookmark_id == trim(input.jump_bookmark_id@)
            &&& b.group_name == trim(input.group_name@)
            &&& b.favorite == input.favorite
            &&& b.note == trim(input.note@)
            &&& b.keepalive_enabled == input.keepalive_enabled
            &&& 5 <= b.keepalive_interval_seconds <= 300
            &&& 5 <= interval <= 300 ==> b.keepalive_interval_seconds == interval
            &&& interval < 5 ==> b.keepalive_interval_seconds == 5
            &&& interval > 300 ==> b.keepalive_interval_seconds == 300
            &&& 1 <= b.keepalive_count_max <= 10
            &&& 1 <= count <= 10 ==> b.keepalive_count_max == count
            &&& count < 1 ==> b.keepalive_count_max == 1
            &&& count > 10 ==> b.keepalive_count_max == 10
            &&& b.updated_at == now
            &&& forall|other: Seq<char>|
                other != id ==> #[trigger] row_with(after.bookmarks.rows@, other) == row_with(
                    before.bookmarks.rows@,
                    other,
                )
        }),
{
    let id = bookmark_id(input, fresh_id);
    let stored = row_with(after.bookmarks.rows@, id)->0;
    lemma_row_with(after.bookmarks.rows@, id);
    assert(stored.key_id() == id);
    lemma_with_row(before.bookmarks.rows@, stored);
}

/// A connection that is saved again keeps its place, its age and its history; a new one comes last,
/// with no history.
pub proof fn law_edited_connections_keep_their_place(
    before: Database,
    after: Database,
    input: BookmarkInput,
    fresh_id: Seq<char>,
    now: Seq<char>,
    r: Result<Bookmark, String>,
)
    requires
        before.wf(),
        place_for_bookmark(before, input),
        bookmark_saved(before, after, input, fresh_id, now, r),
        r is Ok,
    ensures
        ({
            let found = match input.id {
                Some(id) => row_with(before.bookmarks.rows@, id@),
                None => None,
            };
            let b = row_with(after.bookmarks.rows@, bookmark_id(input, fresh_id))->0@;
            match found {
                Some(was) => {
                    &&& b.sort_order == was.sort_order
                    &&& b.created_at == was.created_at@
                    &&& b.last_connected_at == was.last_connected_at@
                },
                None => {
                    &&& b.created_at == now
                    &&& b.last_connected_at.len() == 0
                    &&& forall|k: int|
                        0 <= k < before.bookmarks.rows@.len() ==> (
                        #[trigger] before.bookmarks.rows@[k]).sort_order < b.sort_order
                },
            }
        }),
{
    let rows = before.bookmarks.rows@;
    if input.id is Some {
        lemma_bookmark_row(rows, input.id->0@);
    }
    law_the_next_place_is_right_behind_the_last(rows, ""@);
    if next_order(rows, ""@) <= i64::MAX {
        assert forall|k: int| 0 <= k < rows.len() implies (#[trigger] rows[k]).key_order()
            < next_order(rows, ""@) by {
            assert(rows[k].key_group() == ""@);
        }
        if rows.len() > 0 {
            assert(rows[0].key_group() == ""@);
        }
    }
}

/// A credential outlives every change of its connection but one: where the way to sign in changes,
/// it is forgotten. No other connection loses its credential.
pub proof fn law_a_changed_sign_in_forgets_the_credential(
    before: Database,
    after: Database,
    input: BookmarkInput,
    fresh_id: Seq<char>,
    now: Seq<char>,
    r: Result<Bookmark, String>,
    id: Seq<char>,
)
    requires
        before.wf(),
        bookmark_saved(before, after, input, fresh_id, now, r),
        r is Ok,
    ensures
        ({
            let changed = input.id matches Some(own) && own@ == id && (row_with(
                before.bookmarks.rows@,
                id,
            ) matches Some(was) && was.auth_type != input.auth_type);
            views(after.credential_refs@).contains(id) <==> views(
                before.credential_refs@,
            ).contains(id) && !changed
        }),
        row_with(after.bookmarks.rows@, bookmark_id(input, fresh_id))->0@.has_saved_credential
            == views(after.credential_refs@).contains(bookmark_id(input, fresh_id)),
{
    if input.id is Some {
        lemma_bookmark_row(before.bookmarks.rows@, input.id->0@);
        lemma_names_without(views(before.credential_refs@), input.id->0@);
    }
}

/// A new order gives each connection the place at which its id stands, and changes nothing else of
/// it.
pub proof fn law_a_new_order_changes_only_places(rows: Seq<Bookmark>, ids: Seq<Seq<char>>, i: int)
    requires
        0 <= i < ids.len() <= i64::MAX,
        row_with(rows, ids[i]) is Some,
    ensures
        ordered_views(rows, ids).len() == ids.len(),
        ({
            let was = row_with(rows, ids[i])->0@;
            let b = ordered_views(rows, ids)[i];
            &&& b.id == ids[i]
            &&& b.sort_order == i
            &&& (BookmarkView { sort_order: was.sort_order, ..b }) == was
        }),
{
    lemma_row_with(rows, ids[i]);
}

/// Where a group gets another name, its connections go along and all others stay; no connection is
/// left under the old name.
pub proof fn law_renamed_groups_keep_their_connections(
    rows: Seq<Bookmark>,
    from: Seq<char>,
    to: Seq<char>,
    now: Seq<char>,
    i: int,
)
    requires
        0 <= i < rows.len(),
    ensures
        regrouped_views(rows, from, to, now).len() == rows.len(),
        ({
            let was = rows[i]@;
            let b = regrouped_views(rows, from, to, now)[i];
            &&& was.group_name != from ==> b == was
            &&& was.group_name == from ==> b.group_name == to && b.updated_at == now
            &&& from != to ==> b.group_name != from
            &&& (BookmarkView { group_name: was.group_name, updated_at: was.updated_at, ..b })
                == was
        }),
{
}

/// Deleting a group takes exactly its connections and their credentials; what is left keeps its
/// order.
pub proof fn law_deleted_groups_take_their_connections(
    rows: Seq<Bookmark>,
    refs: Seq<Seq<char>>,
    group: Seq<char>,
    row: Bookmark,
)
    requires
        rows.contains(row),
        ids_once(rows),
    ensures
        outside_group(rows, group).contains(row) <==> row.group_name@ != group,
        ids_in_group(rows, group).contains(row.id@) <==> row.group_name@ == group,
        names_outside(refs, ids_in_group(rows, group)).contains(row.id@) <==> refs.contains(row.id@)
            && row.group_name@ != group,
        in_order(rows) ==> in_order(outside_group(rows, group)),
        outside_group(rows, group).len() + ids_in_group(rows, group).len() == rows.len(),
{
    lemma_outside_group(rows, group);
    lemma_ids_in_group(rows, group);
    lemma_names_outside(refs, ids_in_group(rows, group));
    lemma_group_sizes(rows, group);
    let i = choose|i: int| 0 <= i < rows.len() && rows[i] == row;
    if outside_group(rows, group).contains(row) {
        let k = choose|k: int|
            0 <= k < outside_group(rows, group).len() && outside_group(rows, group)[k] == row;
        assert(outside_group(rows, group)[k].group_name@ != group);
    }
    if ids_in_group(rows, group).contains(row.id@) {
        let k = choose|k: int|
            0 <= k < rows.len() && (#[trigger] rows[k]).group_name@ == group && rows[k].id@
                == row.id@;
        if k < i {
            assert(rows[k].key_id() != rows[i].key_id());
        } else if i < k {
            assert(rows[i].key_id() != rows[k].key_id());
        }
    }
}

proof fn lemma_group_sizes(rows: Seq<Bookmark>, group: Seq<char>)
    ensures
        outside_group(rows, group).len() + ids_in_group(rows, group).len() == rows.len(),
    decreases rows.len(),
{
    if rows.len() > 0 {
        lemma_group_sizes(rows.drop_last(), group);
    }
}

/// The groups that are shown are those that are stored and those of the connections, without outer
/// white space, and no others; the stored ones come first.
pub proof fn law_shown_groups_are_those_in_use(db: Database, group: Seq<char>)
    ensures
        shown_groups(db).no_duplicates(),
        shown_groups(db).contains(group) <==> (exists|k: int|
            0 <= k < db.groups@.len() && trim((#[trigger] db.groups@[k])@) == group) || (exists|k:
            int|
            0 <= k < db.bookmarks.rows@.len() && trim(
                (#[trigger] db.bookmarks.rows@[k]).group_name@,
            ) == group),
{
    let texts = views(db.groups@) + group_names(db.bookmarks.rows@);
    law_groups_are_listed_once(texts);
    lemma_trimmed_members(texts, group);
    let n = db.groups@.len() as int;
    if shown_groups(db).contains(group) {
        let k = choose|k: int| 0 <= k < texts.len() && trim(#[trigger] texts[k]) == group;
        if k < n {
            assert(db.groups@[k]@ == texts[k]);
        } else {
            assert(db.bookmarks.rows@[k - n].group_name@ == texts[k]);
        }
    }
    if exists|k: int| 0 <= k < n && trim((#[trigger] db.groups@[k])@) == group {
        let k = choose|k: int| 0 <= k < n && trim((#[trigger] db.groups@[k])@) == group;
        assert(texts[k] == db.groups@[k]@);
    }
    if exists|k: int|
        0 <= k < db.bookmarks.rows@.len() && trim((#[trigger] db.bookmarks.rows@[k]).group_name@)
            == group {
        let k = choose|k: int|
            0 <= k < db.bookmarks.rows@.len() && trim(
                (#[trigger] db.bookmarks.rows@[k]).group_name@,
            ) == group;
        assert(texts[n + k] == db.bookmarks.rows@[k].group_name@);
    }
}

proof fn lemma_trimmed_members(texts: Seq<Seq<char>>, name: Seq<char>)
    ensures
        first_trimmed(texts).contains(name) ==> exists|k: int|
            0 <= k < texts.len() && trim(#[trigger] texts[k]) == name,
    decreases texts.len(),
{
    if texts.len() > 0 && first_trimmed(texts).contains(name) {
        let front = texts.drop_last();
        let before = first_trimmed(front);
        lemma_trimmed_members(front, name);
        if before.contains(name) {
            let k = choose|k: int| 0 <= k < front.len() && trim(#[trigger] front[k]) == name;
            assert(texts[k] == front[k]);
        } else {
            let j = choose|j: int|
                0 <= j < first_trimmed(texts).len() && first_trimmed(texts)[j] == name;
            if j < before.len() {
                assert(before[j] == name);
            }
            assert(trim(texts[texts.len() - 1]) == name);
        }
    }
}

/// A group may have every name but a blank one and the one that stands for no group.
pub proof fn law_group_names(name: Seq<char>)
    ensures
        is_group_name(name) <==> name.len() > 0 && name != "未分组"@,
{
}

/// The connections were put into a new order, or left as they are.
pub open spec fn order_taken(
    before: Database,
    after: Database,
    ids: Seq<Seq<char>>,
    taken: bool,
) -> bool {
    &&& taken == same_members(ids, bookmark_ids(before.bookmarks.rows@))
    &&& taken ==> row_views(after.bookmarks.rows@) == ordered_views(before.bookmarks.rows@, ids)
    &&& !taken ==> after.bookmarks == before.bookmarks
}

/// A new order that is taken lists the connections as it names them, each at its place and otherwise
/// as it was; one that does not name exactly the connections that are there changes nothing.
pub proof fn law_a_taken_order_is_followed(
    before: Database,
    after: Database,
    ids: Seq<Seq<char>>,
    taken: bool,
    i: int,
)
    requires
        before.wf(),
        order_taken(before, after, ids, taken),
        ids.len() <= i64::MAX,
        0 <= i < ids.len(),
    ensures
        taken ==> after.bookmarks.rows@.len() == ids.len() && {
            let b = after.bookmarks.rows@[i]@;
            let was = row_with(before.bookmarks.rows@, ids[i]);
            &&& was is Some
            &&& b.id == ids[i] && b.sort_order == i
            &&& (BookmarkView { sort_order: was->0.sort_order, ..b }) == was->0@
        },
        !taken ==> after.bookmarks == before.bookmarks,
        (exists|k: int|
            0 <= k < ids.len() && !bookmark_ids(before.bookmarks.rows@).contains(#[trigger] ids[k]))
            ==> !taken,
        ids.len() != before.bookmarks.rows@.len() ==> !taken,
{
    let rows = before.bookmarks.rows@;
    if taken {
        let own = bookmark_ids(rows);
        assert(own.contains(ids[i]));
        let m = choose|m: int| 0 <= m < own.len() && own[m] == ids[i];
        assert(rows[m].key_id() == ids[i]);
        lemma_row_with(rows, ids[i]);
        law_a_new_order_changes_only_places(rows, ids, i);
        let all = row_views(after.bookmarks.rows@);
        assert(all.len() == after.bookmarks.rows@.len());
        assert(all[i] == after.bookmarks.rows@[i]@);
    }
    assert(bookmark_ids(rows).len() == rows.len());
}

/// A group was added, or nothing changed.
pub open spec fn group_added(before: Database, after: Database, name: Seq<char>, added: bool) -> bool {
    &&& added == (is_group_name(trim(name)) && !shown_groups(before).contains(trim(name)))
    &&& added ==> views(after.groups@) == shown_groups(before).push(trim(name))
    &&& !added ==> after.groups == before.groups
    &&& after.bookmarks == before.bookmarks
}

/// A group that was added is shown last, behind all that were shown; it is added exactly where its name
/// is free and may be given.
pub proof fn law_added_groups_are_shown_last(
    before: Database,
    after: Database,
    name: Seq<char>,
    added: bool,
)
    requires
        group_added(before, after, name, added),
    ensures
        added <==> trim(name).len() > 0 && trim(name) != "未分组"@ && !shown_groups(before).contains(
            trim(name),
        ),
        added ==> after.groups@.len() == shown_groups(before).len() + 1 && after.groups@.last()@
            == trim(name) && forall|i: int|
            0 <= i < shown_groups(before).len() ==> (#[trigger] after.groups@[i])@ == shown_groups(
                before,
            )[i],
        !added ==> after.groups == before.groups,
        after.bookmarks == before.bookmarks,
{
    if added {
        let all = views(after.groups@);
        assert(all.len() == after.groups@.len());
        assert(all.last() == after.groups@.last()@);
        assert forall|i: int| 0 <= i < shown_groups(before).len() implies (
        #[trigger] after.groups@[i])@ == shown_groups(before)[i] by {
            assert(all[i] == after.groups@[i]@);
        }
    }
}

/// A group got another name, or nothing changed.
pub open spec fn group_renamed(
    before: Database,
    after: Database,
    old_name: Seq<char>,
    new_name: Seq<char>,
    now: Seq<char>,
    done: bool,
) -> bool {
    let from = trim(old_name);
    let to = trim(new_name);
    let shown = shown_groups(before);
    &&& done == (is_group_name(to) && shown.contains(from) && (from == to || !shown.contains(to)))
    &&& done ==> views(after.groups@) == renamed(shown, from, to)
    &&& done ==> row_views(after.bookmarks.rows@) == regrouped_views(
        before.bookmarks.rows@,
        from,
        to,
        now,
    )
    &&& !done ==> after == before
}

/// A group is renamed exactly where it is shown and its new name is free; its connections go along,
/// the others stay, and the groups keep their places.
pub proof fn law_renamed_groups_take_their_connections_along(
    before: Database,
    after: Database,
    old_name: Seq<char>,
    new_name: Seq<char>,
    now: Seq<char>,
    done: bool,
    i: int,
    k: int,
)
    requires
        group_renamed(before, after, old_name, new_name, now, done),
        0 <= i < before.bookmarks.rows@.len(),
        0 <= k < shown_groups(before).len(),
    ensures
        done <==> trim(new_name).len() > 0 && trim(new_name) != "未分组"@ && shown_groups(
            before,
        ).contains(trim(old_name)) && (trim(old_name) == trim(new_name) || !shown_groups(
            before,
        ).contains(trim(new_name))),
        !done ==> after == before,
        done ==> {
            let was = before.bookmarks.rows@[i]@;
            let b = after.bookmarks.rows@[i]@;
            &&& after.bookmarks.rows@.len() == before.bookmarks.rows@.len()
            &&& was.group_name == trim(old_name) ==> b.group_name == trim(new_name) && b.updated_at
                == now
            &&& was.group_name != trim(old_name) ==> b == was
            &&& b.id == was.id && b.host == was.host && b.sort_order == was.sort_order
            &&& after.groups@.len() == shown_groups(before).len()
            &&& shown_groups(before)[k] != trim(old_name) ==> after.groups@[k]@ == shown_groups(
                before,
            )[k]
            &&& shown_groups(before)[k] == trim(old_name) ==> after.groups@[k]@ == trim(new_name)
        },
{
    if done {
        let from = trim(old_name);
        let to = trim(new_name);
        law_renamed_groups_keep_their_connections(before.bookmarks.rows@, from, to, now, i);
        law_renaming_changes_one_name(shown_groups(before), from, to, k);
        let all = row_views(after.bookmarks.rows@);
        assert(all.len() == after.bookmarks.rows@.len());
        assert(all[i] == after.bookmarks.rows@[i]@);
        assert(views(after.groups@).len() == after.groups@.len());
        assert(views(after.groups@)[k] == after.groups@[k]@);
    }
}

/// A group was deleted with its connections, or nothing changed.
pub open spec fn group_deleted(before: Database, after: Database, name: Seq<char>, done: bool) -> bool {
    let wanted = trim(name);
    let rows = before.bookmarks.rows@;
    let leaving = ids_in_group(rows, wanted);
    &&& done == (shown_groups(before).contains(wanted) && first_dependent(rows, leaving) is None)
    &&& done ==> views(after.groups@) == names_without(shown_groups(before), wanted)
    &&& done ==> after.bookmarks.rows@ == outside_group(rows, wanted)
    &&& done ==> views(after.credential_refs@) == names_outside(
        views(before.credential_refs@),
        leaving,
    )
    &&& !done ==> after == before
}

/// Deleting a group takes its connections and their credentials, and nothing else; it is refused while
/// a connection outside of it jumps through one of them, so no jump ever leads nowhere.
pub proof fn law_deleting_a_group_is_clean(
    before: Database,
    after: Database,
    name: Seq<char>,
    done: bool,
    row: Bookmark,
)
    requires
        before.wf(),
        group_deleted(before, after, name, done),
        before.bookmarks.rows@.contains(row),
    ensures
        !done ==> after == before,
        done ==> (after.bookmarks.rows@.contains(row) <==> row.group_name@ != trim(name)),
        done ==> (views(after.credential_refs@).contains(row.id@) <==> views(
            before.credential_refs@,
        ).contains(row.id@) && row.group_name@ != trim(name)),
        done ==> !views(after.groups@).contains(trim(name)),
        done && row.group_name@ != trim(name) ==> !ids_in_group(
            before.bookmarks.rows@,
            trim(name),
        ).contains(row.jump_bookmark_id@),
        done ==> shown_groups(before).contains(trim(name)),
{
    let rows = before.bookmarks.rows@;
    let wanted = trim(name);
    let leaving = ids_in_group(rows, wanted);
    law_deleted_groups_take_their_connections(rows, views(before.credential_refs@), wanted, row);
    law_jumps_hold_a_group(rows, leaving);
    lemma_names_without(shown_groups(before), wanted);
    let i = choose|i: int| 0 <= i < rows.len() && rows[i] == row;
    assert(rows[i].id@ == row.id@);
}

/// A connection was moved to another group, or nothing changed.
pub open spec fn connection_moved(
    before: Database,
    after: Database,
    id: Seq<char>,
    group_name: Seq<char>,
    now: Seq<char>,
    done: bool,
) -> bool {
    let rows = before.bookmarks.rows@;
    let moved = row_with(after.bookmarks.rows@, id);
    &&& done == (shown_groups(before).contains(trim(group_name)) && row_with(rows, id) is Some)
    &&& done ==> moved is Some && moved->0@ == (BookmarkView {
        group_name: trim(group_name),
        updated_at: now,
        ..row_with(rows, id)->0@
    }) && after.bookmarks.rows@ == with_row(rows, moved->0)
    &&& !done ==> after.bookmarks == before.bookmarks
}

/// A connection that is moved changes its group and nothing else of it, and no other connection; it is
/// moved exactly where it and the group are there.
pub proof fn law_moving_changes_the_group_alone(
    before: Database,
    after: Database,
    id: Seq<char>,
    group_name: Seq<char>,
    now: Seq<char>,
    done: bool,
    other: Seq<char>,
)
    requires
        before.wf(),
        connection_moved(before, after, id, group_name, now, done),
    ensures
        done <==> shown_groups(before).contains(trim(group_name)) && row_with(
            before.bookmarks.rows@,
            id,
        ) is Some,
        done ==> {
            let was = row_with(before.bookmarks.rows@, id)->0@;
            let b = row_with(after.bookmarks.rows@, id)->0@;
            &&& b.group_name == trim(group_name) && b.updated_at == now
            &&& (BookmarkView { group_name: was.group_name, updated_at: was.updated_at, ..b })
                == was
        },
        other != id ==> row_with(after.bookmarks.rows@, other) == row_with(
            before.bookmarks.rows@,
            other,
        ),
        !done ==> after.bookmarks == before.bookmarks,
{
    if done {
        let moved = row_with(after.bookmarks.rows@, id)->0;
        lemma_row_with(after.bookmarks.rows@, id);
        lemma_with_row(before.bookmarks.rows@, moved);
    }
}

} // verus!
