//! The control operations that change sessions and panes, on what is stored.
use vstd::prelude::*;
use vstd::string::*;

use crate::control_contract::{
    plain_error, ControlCaller, ControlErrorCode, ControlResult,
};
use crate::control_effects::{PaneCreateArguments, PaneUpdateArguments};
use crate::control_outcomes::{
    chosen_ratio, create_refusal, created_layout, given_or, is_created_pane, plan_pane_creation,
    session_with_created_pane, set_layout_input, target_with, update_pane_input,
    update_session_input, TargetRef,
};
use crate::control_requests::internal_error;
use crate::database::{pane_saved, same_connections, same_records, session_saved, Database};
use crate::ids::is_uuid_text;
use crate::mux_layout::{
    fault_text, inserted_after, law_inserted_pane_follows_its_anchor, layout_fault, leaves,
    normalized, opt_layout, with_pane, LayoutView, MuxSplitDirection, MuxSplitNode, SplitRatio,
};
use crate::mux_store::{
    find_session, pane_with, session_with, MuxPane, MuxPaneInput, MuxSession, MuxSessionInput,
};
use crate::rows::{lemma_pane_row, lemma_session_row};
use crate::table::{next_order, row_views, row_with, rows_of, without_row, Row};
use crate::text::{opt_view, push_text, trim, views};

verus! {

/// What a request is told of a row that was saved: the row, or why it was not.
pub open spec fn answers<T>(r: ControlResult<T>, saved: Result<T, String>) -> bool {
    match saved {
        Ok(row) => r is Ok && r->Ok_0 == row,
        Err(message) => r is Err && plain_error(
            r->Err_0,
            ControlErrorCode::Internal,
            message@,
        ),
    }
}

/// A request had a session saved.
pub open spec fn session_stored(
    before: Database,
    after: Database,
    input: MuxSessionInput,
    r: ControlResult<MuxSession>,
) -> bool {
    exists|fresh_id: Seq<char>, now: Seq<char>, saved: Result<MuxSession, String>|
        is_uuid_text(fresh_id) && #[trigger] session_saved(
            before,
            after,
            input,
            fresh_id,
            now,
            saved,
        ) && answers(r, saved)
}

/// A request had a pane saved.
pub open spec fn pane_stored(
    before: Database,
    after: Database,
    input: MuxPaneInput,
    r: ControlResult<MuxPane>,
) -> bool {
    exists|fresh_id: Seq<char>, now: Seq<char>, saved: Result<MuxPane, String>|
        is_uuid_text(fresh_id) && #[trigger] pane_saved(
            before,
            after,
            input,
            fresh_id,
            now,
            saved,
        ) && answers(r, saved)
}

/// The session with this name, path and layout.
pub open spec fn is_changed_session(
    input: MuxSessionInput,
    session: MuxSession,
    name: Seq<char>,
    root_path: Seq<char>,
    layout: Option<LayoutView>,
) -> bool {
    &&& opt_view(input.id) == Some(session.id@)
    &&& input.name@ == name
    &&& input.root_path@ == root_path
    &&& opt_layout(input.layout) == layout
}

/// The pane with what was asked for.
pub open spec fn is_changed_pane(
    input: MuxPaneInput,
    pane: MuxPane,
    arguments: PaneUpdateArguments,
) -> bool {
    &&& opt_view(input.id) == Some(pane.id@)
    &&& input.mux_session_id@ == pane.mux_session_id@
    &&& input.kind == pane.kind
    &&& input.title@ == given_or(arguments.title, pane.title@)
    &&& input.target_id@ == pane.target_id@
    &&& input.bookmark_id@ == pane.bookmark_id@
    &&& input.cwd@ == given_or(arguments.cwd, pane.cwd@)
    &&& input.command@ == given_or(arguments.command, pane.command@)
    &&& input.launch_profile_id@ == given_or(
        arguments.launch_profile_id,
        pane.launch_profile_id@,
    )
}

/// The ids of panes.
pub open spec fn pane_ids(panes: Seq<MuxPane>) -> Seq<Seq<char>> {
    panes.map_values(|pane: MuxPane| pane.id@)
}

/// A pane was made and its session got the layout with it; where the session could not be saved
/// the pane is gone again.
pub open spec fn layout_followed(
    made: Database,
    after: Database,
    session: MuxSession,
    had: Seq<Seq<char>>,
    pane: MuxPane,
    arguments: PaneCreateArguments,
    r: ControlResult<(MuxPane, MuxSession)>,
) -> bool {
    exists|input: MuxSessionInput, done: Database, saved: ControlResult<MuxSession>|
        is_changed_session(
            input,
            session,
            session.name@,
            session.root_path@,
            Some(created_layout(opt_layout(session.layout), had, pane.id@, arguments)),
        ) && #[trigger] session_stored(made, done, input, saved) && match saved {
            Ok(changed) => r is Ok && r->Ok_0 == (pane, changed) && after == done,
            Err(error) => {
                &&& r is Err
                &&& r->Err_0 == error
                &&& after.panes.rows@ == without_row(done.panes.rows@, pane.id@)
                &&& after.sessions == done.sessions
                &&& after.browsers == done.browsers
                &&& same_connections(done, after)
                &&& same_records(done, after)
            },
        }
}

/// A pane was asked for that nothing speaks against.
pub open spec fn pane_created(
    before: Database,
    after: Database,
    targets: Seq<TargetRef>,
    session_id: Seq<char>,
    arguments: PaneCreateArguments,
    r: ControlResult<(MuxPane, MuxSession)>,
) -> bool {
    let session = session_with(before.sessions.rows@, session_id)->0;
    let target = target_with(targets, arguments.target_id@)->0;
    exists|input: MuxPaneInput, made: Database, pane: ControlResult<MuxPane>|
        is_created_pane(input, session, target, session_id, arguments) && #[trigger] pane_stored(
            before,
            made,
            input,
            pane,
        ) && match pane {
            Ok(row) => layout_followed(
                made,
                after,
                session,
                pane_ids(rows_of(before.panes.rows@, Some(session_id))),
                row,
                arguments,
                r,
            ),
            Err(error) => r is Err && r->Err_0 == error && after == made,
        }
}

proof fn lemma_views_find(a: Seq<MuxPane>, b: Seq<MuxPane>, id: Seq<char>)
    requires
        row_views(a) == row_views(b),
    ensures
        pane_with(a, id) is None <==> pane_with(b, id) is None,
    decreases a.len(),
{
    assert(a.len() == row_views(a).len() && b.len() == row_views(b).len());
    if a.len() > 0 {
        assert(row_views(a)[0] == a[0]@ && row_views(b)[0] == b[0]@);
        assert(row_views(a.skip(1)) =~= row_views(a).skip(1));
        assert(row_views(b.skip(1)) =~= row_views(b).skip(1));
        lemma_views_find(a.skip(1), b.skip(1), id);
    }
}

fn ids_of(panes: &[MuxPane]) -> (r: Vec<String>)
    ensures
        views(r@) == pane_ids(panes@),
{
    let mut ids: Vec<String> = Vec::new();
    let mut i: usize = 0;
    while i < panes.len()
        invariant
            i <= panes@.len(),
            views(ids@) == pane_ids(panes@.take(i as int)),
        decreases panes@.len() - i,
    {
        assert(pane_ids(panes@.take(i + 1)) =~= pane_ids(panes@.take(i as int)).push(
            panes@[i as int].id@,
        ));
        push_text(&mut ids, panes[i].id.clone());
        i = i + 1;
    }
    assert(panes@.take(i as int) =~= panes@);
    ids
}

fn told<T>(saved: Result<T, String>) -> (r: ControlResult<T>)
    ensures
        answers(r, saved),
{
    match saved {
        Ok(row) => Ok(row),
        Err(message) => Err(internal_error(message.as_str())),
    }
}

impl Database {
    /// Gives a session another name or path.
    pub fn update_session(
        &mut self,
        session_id: &str,
        name: Option<String>,
        root_path: Option<String>,
    ) -> (r: ControlResult<MuxSession>)
        requires
            old(self).wf(),
            trim(session_id@).len() > 0 || next_order(old(self).sessions.rows@, ""@) <= i64::MAX,
        ensures
            final(self).wf(),
            match session_with(old(self).sessions.rows@, session_id@) {
                None => *final(self) == *old(self) && r is Err && plain_error(
                    r->Err_0,
                    ControlErrorCode::NotFound,
                    "Mux Session 不存在"@,
                ),
                Some(session) => exists|input: MuxSessionInput|
                    is_changed_session(
                        input,
                        session,
                        given_or(name, session.name@),
                        given_or(root_path, session.root_path@),
                        opt_layout(session.layout),
                    ) && #[trigger] session_stored(*old(self), *final(self), input, r),
            },
    {
        let ghost before = *self;
        match update_session_input(&self.sessions.rows, session_id, name, root_path) {
            Err(error) => Err(error),
            Ok(input) => {
                let ghost given = input;
                proof {
                    lemma_named_session(self.sessions.rows@, session_id@);
                }
                let saved = self.save_mux_session(input);
                let ghost kept = saved;
                let r = told(saved);
                proof {
                    let (fresh_id, now) = choose|fresh_id: Seq<char>, now: Seq<char>|
                        is_uuid_text(fresh_id) && #[trigger] session_saved(
                            before,
                            *self,
                            given,
                            fresh_id,
                            now,
                            kept,
                        );
                    assert(session_saved(before, *self, given, fresh_id, now, kept));
                    assert(session_stored(before, *self, given, r));
                }
                r
            },
        }
    }

    /// Gives a session another layout, where it fits the panes of the session.
    pub fn set_layout(&mut self, session_id: &str, layout: Option<MuxSplitNode>) -> (r:
        ControlResult<MuxSession>)
        requires
            old(self).wf(),
            trim(session_id@).len() > 0 || next_order(old(self).sessions.rows@, ""@) <= i64::MAX,
        ensures
            final(self).wf(),
            match session_with(old(self).sessions.rows@, session_id@) {
                None => *final(self) == *old(self) && r is Err && plain_error(
                    r->Err_0,
                    ControlErrorCode::NotFound,
                    "Mux Session 不存在"@,
                ),
                Some(session) => match layout_fault(
                    opt_layout(layout),
                    pane_ids(rows_of(old(self).panes.rows@, Some(session_id@))),
                ) {
                    Some(fault) => *final(self) == *old(self) && r is Err && plain_error(
                        r->Err_0,
                        ControlErrorCode::InvalidArguments,
                        fault_text(fault),
                    ),
                    None => exists|input: MuxSessionInput|
                        is_changed_session(
                            input,
                            session,
                            session.name@,
                            session.root_path@,
                            opt_layout(layout),
                        ) && #[trigger] session_stored(*old(self), *final(self), input, r),
                },
            },
    {
        let ghost before = *self;
        let panes = self.list_mux_panes(Some(session_id));
        let ids = ids_of(panes.as_slice());
        proof {
            lemma_same_ids(panes@, rows_of(self.panes.rows@, Some(session_id@)));
        }
        match set_layout_input(&self.sessions.rows, session_id, &ids, layout) {
            Err(error) => Err(error),
            Ok(input) => {
                let ghost given = input;
                proof {
                    lemma_named_session(self.sessions.rows@, session_id@);
                }
                let saved = self.save_mux_session(input);
                let ghost kept = saved;
                let r = told(saved);
                proof {
                    let (fresh_id, now) = choose|fresh_id: Seq<char>, now: Seq<char>|
                        is_uuid_text(fresh_id) && #[trigger] session_saved(
                            before,
                            *self,
                            given,
                            fresh_id,
                            now,
                            kept,
                        );
                    assert(session_saved(before, *self, given, fresh_id, now, kept));
                    assert(session_stored(before, *self, given, r));
                }
                r
            },
        }
    }

    /// Changes what was asked for of a pane.
    pub fn update_pane(&mut self, pane_id: &str, arguments: PaneUpdateArguments) -> (r:
        ControlResult<MuxPane>)
        requires
            old(self).wf(),
            match pane_with(old(self).panes.rows@, pane_id@) {
                Some(pane) => trim(pane_id@).len() > 0 || next_order(
                    old(self).panes.rows@,
                    trim(pane.mux_session_id@),
                ) <= i64::MAX,
                None => true,
            },
        ensures
            final(self).wf(),
            match pane_with(old(self).panes.rows@, pane_id@) {
                None => *final(self) == *old(self) && r is Err && plain_error(
                    r->Err_0,
                    ControlErrorCode::NotFound,
                    "Mux Pane 不存在"@,
                ),
                Some(pane) => exists|input: MuxPaneInput|
                    is_changed_pane(input, pane, arguments) && #[trigger] pane_stored(
                        *old(self),
                        *final(self),
                        input,
                        r,
                    ),
            },
    {
        let ghost before = *self;
        match update_pane_input(&self.panes.rows, pane_id, arguments) {
            Err(error) => Err(error),
            Ok(input) => {
                let ghost given = input;
                proof {
                    lemma_named_pane(self.panes.rows@, pane_id@);
                }
                let saved = self.save_mux_pane(input);
                let ghost kept = saved;
                let r = told(saved);
                proof {
                    let (fresh_id, now) = choose|fresh_id: Seq<char>, now: Seq<char>|
                        is_uuid_text(fresh_id) && #[trigger] pane_saved(
                            before,
                            *self,
                            given,
                            fresh_id,
                            now,
                            kept,
                        );
                    assert(pane_saved(before, *self, given, fresh_id, now, kept));
                    assert(pane_stored(before, *self, given, r));
                }
                r
            },
        }
    }

    /// Makes a terminal pane in a session and puts it into the layout of the session.
    pub fn create_pane(
        &mut self,
        caller: &ControlCaller,
        targets: &[TargetRef],
        session_id: &str,
        arguments: &PaneCreateArguments,
    ) -> (r: ControlResult<(MuxPane, MuxSession)>)
        requires
            old(self).wf(),
            trim(session_id@).len() > 0 || next_order(old(self).sessions.rows@, ""@) <= i64::MAX,
            create_refusal(
                *caller,
                old(self).sessions.rows@,
                targets@,
                rows_of(old(self).panes.rows@, Some(session_id@)),
                session_id@,
                *arguments,
            ) is Some || next_order(old(self).panes.rows@, trim(session_id@)) <= i64::MAX,
        ensures
            final(self).wf(),
            match create_refusal(
                *caller,
                old(self).sessions.rows@,
                targets@,
                rows_of(old(self).panes.rows@, Some(session_id@)),
                session_id@,
                *arguments,
            ) {
                Some(refusal) => *final(self) == *old(self) && r is Err && plain_error(
                    r->Err_0,
                    refusal.code,
                    refusal.message,
                ),
                None => pane_created(
                    *old(self),
                    *final(self),
                    targets@,
                    session_id@,
                    *arguments,
                    r,
                ),
            },
    {
        let ghost before = *self;
        let panes = self.list_mux_panes(Some(session_id));
        let ids = ids_of(panes.as_slice());
        proof {
            let stored = rows_of(self.panes.rows@, Some(session_id@));
            lemma_same_ids(panes@, stored);
            if arguments.anchor_pane_id is Some {
                lemma_views_find(panes@, stored, arguments.anchor_pane_id->0@);
            }
        }
        let planned = match plan_pane_creation(
            caller,
            &self.sessions.rows,
            targets,
            panes.as_slice(),
            session_id,
            arguments,
        ) {
            Ok(planned) => planned,
            Err(error) => {
                return Err(error);
            },
        };
        let session = match find_session(&self.sessions.rows, session_id) {
            Some(session) => session.copy_row(),
            None => {
                return Err(internal_error("Mux Session 不存在"));
            },
        };
        let ghost input = planned;
        let saved = self.save_mux_pane(planned);
        let ghost kept = saved;
        let ghost made = *self;
        let pane = told(saved);
        proof {
            let (fresh_id, now) = choose|fresh_id: Seq<char>, now: Seq<char>|
                is_uuid_text(fresh_id) && #[trigger] pane_saved(
                    before,
                    made,
                    input,
                    fresh_id,
                    now,
                    kept,
                );
            assert(pane_saved(before, made, input, fresh_id, now, kept));
            assert(pane_stored(before, made, input, pane));
        }
        let row = match pane {
            Ok(row) => row,
            Err(error) => {
                return Err(error);
            },
        };
        let changed = session_with_created_pane(&session, &ids, row.id.as_str(), arguments);
        let ghost change = changed;
        proof {
            lemma_named_session(self.sessions.rows@, session_id@);
        }
        let saved = self.save_mux_session(changed);
        let ghost kept = saved;
        let ghost done = *self;
        let followed = told(saved);
        proof {
            let (fresh_id, now) = choose|fresh_id: Seq<char>, now: Seq<char>|
                is_uuid_text(fresh_id) && #[trigger] session_saved(
                    made,
                    done,
                    change,
                    fresh_id,
                    now,
                    kept,
                );
            assert(session_saved(made, done, change, fresh_id, now, kept));
            assert(session_stored(made, done, change, followed));
        }
        match followed {
            Ok(session) => Ok((row, session)),
            Err(error) => {
                self.delete_mux_pane(row.id.as_str());
                Err(error)
            },
        }
    }
}

proof fn lemma_named_session(rows: Seq<MuxSession>, id: Seq<char>)
    ensures
        session_with(rows, id) == row_with(rows, id),
        session_with(rows, id) is Some ==> session_with(rows, id)->0.id@ == id,
    decreases rows.len(),
{
    lemma_session_row(rows, id);
    if rows.len() > 0 {
        lemma_named_session(rows.skip(1), id);
    }
}

proof fn lemma_named_pane(rows: Seq<MuxPane>, id: Seq<char>)
    ensures
        pane_with(rows, id) == row_with(rows, id),
        pane_with(rows, id) is Some ==> pane_with(rows, id)->0.id@ == id,
    decreases rows.len(),
{
    lemma_pane_row(rows, id);
    if rows.len() > 0 {
        lemma_named_pane(rows.skip(1), id);
    }
}

proof fn lemma_same_ids(a: Seq<MuxPane>, b: Seq<MuxPane>)
    requires
        row_views(a) == row_views(b),
    ensures
        pane_ids(a) == pane_ids(b),
{
    assert(a.len() == row_views(a).len() && b.len() == row_views(b).len());
    assert forall|i: int| 0 <= i < a.len() implies pane_ids(a)[i] == pane_ids(b)[i] by {
        assert(row_views(a)[i] == a[i]@ && row_views(b)[i] == b[i]@);
    }
    assert(pane_ids(a) =~= pane_ids(b));
}

proof fn lemma_with_pane_holds_it(
    layout: Option<LayoutView>,
    anchor: Option<Seq<char>>,
    direction: MuxSplitDirection,
    ratio: SplitRatio,
    id: Seq<char>,
)
    ensures
        leaves(with_pane(layout, anchor, direction, ratio, id)).contains(id),
{
    match layout {
        None => {
            assert(leaves(with_pane(layout, anchor, direction, ratio, id)) =~= seq![id]);
            assert(seq![id][0] == id);
        },
        Some(v) => {
            law_inserted_pane_follows_its_anchor(v, anchor, direction, ratio, id);
            match anchor {
                None => {
                    assert(leaves(v).push(id).last() == id);
                },
                Some(a) => {
                    lemma_inserted(leaves(v), a, id);
                },
            }
        },
    }
}

proof fn lemma_inserted(ids: Seq<Seq<char>>, anchor: Seq<char>, id: Seq<char>)
    ensures
        inserted_after(ids, anchor, id).contains(id),
    decreases ids.len(),
{
    let all = inserted_after(ids, anchor, id);
    if ids.len() == 0 {
        assert(all[0] == id);
    } else if ids[0] == anchor {
        assert(all[1] == id);
    } else {
        let rest = inserted_after(ids.skip(1), anchor, id);
        lemma_inserted(ids.skip(1), anchor, id);
        let k = choose|k: int| 0 <= k < rest.len() && rest[k] == id;
        assert(all[k + 1] == id);
    }
}

/// A pane that a request has made is stored, and the layout of its session, as it is stored, holds
/// it.
pub proof fn law_created_panes_stand_in_the_layout(
    before: Database,
    after: Database,
    targets: Seq<TargetRef>,
    session_id: Seq<char>,
    arguments: PaneCreateArguments,
    r: ControlResult<(MuxPane, MuxSession)>,
)
    requires
        pane_created(before, after, targets, session_id, arguments, r),
        r is Ok,
    ensures
        ({
            let stored = row_with(after.panes.rows@, r->Ok_0.0.id@);
            &&& stored is Some
            &&& stored->0@ == r->Ok_0.0@
        }),
        ({
            let stored = row_with(after.sessions.rows@, r->Ok_0.1.id@);
            &&& stored is Some
            &&& stored->0@ == r->Ok_0.1@
            &&& opt_layout(stored->0.layout) is Some
            &&& leaves(opt_layout(stored->0.layout)->0).contains(r->Ok_0.0.id@)
        }),
{
    let session = session_with(before.sessions.rows@, session_id)->0;
    let target = target_with(targets, arguments.target_id@)->0;
    let had = pane_ids(rows_of(before.panes.rows@, Some(session_id)));
    let (input, made, pane) = choose|
        input: MuxPaneInput,
        made: Database,
        pane: ControlResult<MuxPane>,
    |
        is_created_pane(input, session, target, session_id, arguments) && #[trigger] pane_stored(
            before,
            made,
            input,
            pane,
        ) && match pane {
            Ok(row) => layout_followed(made, after, session, had, row, arguments, r),
            Err(error) => r is Err && r->Err_0 == error && after == made,
        };
    let row = pane->Ok_0;
    let (change, done, saved) = choose|
        change: MuxSessionInput,
        done: Database,
        saved: ControlResult<MuxSession>,
    |
        is_changed_session(
            change,
            session,
            session.name@,
            session.root_path@,
            Some(created_layout(opt_layout(session.layout), had, row.id@, arguments)),
        ) && #[trigger] session_stored(made, done, change, saved) && match saved {
            Ok(changed) => r is Ok && r->Ok_0 == (row, changed) && after == done,
            Err(error) => {
                &&& r is Err
                &&& r->Err_0 == error
                &&& after.panes.rows@ == without_row(done.panes.rows@, row.id@)
                &&& after.sessions == done.sessions
                &&& after.browsers == done.browsers
                &&& same_connections(done, after)
                &&& same_records(done, after)
            },
        };
    lemma_with_pane_holds_it(
        normalized(opt_layout(session.layout), had),
        opt_view(arguments.anchor_pane_id),
        match arguments.split_direction {
            Some(direction) => direction,
            None => MuxSplitDirection::Horizontal,
        },
        chosen_ratio(arguments),
        row.id@,
    );
    assert(session_stored(made, done, change, saved));
    assert(after.panes == made.panes);
}

/// A session that a request changes is stored with what the request gave and keeps its place and its
/// age; the panes, the browsers and everything else stay.
pub proof fn law_requests_change_the_session_they_name(
    before: Database,
    after: Database,
    input: MuxSessionInput,
    session: MuxSession,
    name: Seq<char>,
    root_path: Seq<char>,
    layout: Option<LayoutView>,
    r: ControlResult<MuxSession>,
)
    requires
        before.wf(),
        row_with(before.sessions.rows@, session.id@) == Some(session),
        trim(session.id@).len() > 0,
        is_changed_session(input, session, name, root_path, layout),
        session_stored(before, after, input, r),
    ensures
        r is Ok <==> trim(name).len() > 0,
        r is Ok ==> {
            let row = row_with(after.sessions.rows@, session.id@)->0;
            &&& row.name@ == trim(name)
            &&& row.root_path@ == trim(root_path)
            &&& opt_layout(row.layout) == layout
            &&& row.sort_order == session.sort_order && row.created_at@ == session.created_at@
            &&& r->Ok_0@ == row@
            &&& after.panes == before.panes && after.browsers == before.browsers
        },
        r matches Err(e) ==> e.code == ControlErrorCode::Internal && after == before,
{
    let (fresh_id, now, saved) = choose|
        fresh_id: Seq<char>,
        now: Seq<char>,
        saved: Result<MuxSession, String>,
    |
        is_uuid_text(fresh_id) && #[trigger] session_saved(
            before,
            after,
            input,
            fresh_id,
            now,
            saved,
        ) && answers(r, saved);
    lemma_session_row(before.sessions.rows@, session.id@);
    assert(input.id is Some && input.id->0@ == session.id@);
}

/// A pane that a request changes is stored with what the request gave; its session, its kind, its
/// target, its place and its age stay.
pub proof fn law_requests_change_the_pane_they_name(
    before: Database,
    after: Database,
    input: MuxPaneInput,
    pane: MuxPane,
    arguments: PaneUpdateArguments,
    r: ControlResult<MuxPane>,
)
    requires
        before.wf(),
        row_with(before.panes.rows@, pane.id@) == Some(pane),
        trim(pane.id@).len() > 0,
        is_changed_pane(input, pane, arguments),
        pane_stored(before, after, input, r),
        r is Ok,
    ensures
        ({
            let row = row_with(after.panes.rows@, pane.id@)->0;
            &&& row.mux_session_id@ == trim(pane.mux_session_id@) && row.kind == pane.kind
            &&& row.target_id@ == trim(pane.target_id@)
            &&& row.sort_order == pane.sort_order && row.created_at@ == pane.created_at@
            &&& arguments.title matches Some(title) ==> row.title@ == trim(title@)
            &&& arguments.title is None ==> row.title@ == trim(pane.title@)
            &&& arguments.cwd matches Some(cwd) ==> row.cwd@ == trim(cwd@)
            &&& arguments.cwd is None ==> row.cwd@ == trim(pane.cwd@)
            &&& arguments.command matches Some(command) ==> row.command@ == trim(command@)
            &&& arguments.command is None ==> row.command@ == trim(pane.command@)
            &&& r->Ok_0@ == row@
        }),
{
    let (fresh_id, now, saved) = choose|
        fresh_id: Seq<char>,
        now: Seq<char>,
        saved: Result<MuxPane, String>,
    |
        is_uuid_text(fresh_id) && #[trigger] pane_saved(
            before,
            after,
            input,
            fresh_id,
            now,
            saved,
        ) && answers(r, saved);
    lemma_pane_row(before.panes.rows@, pane.id@);
    assert(input.id is Some && input.id->0@ == pane.id@);
}

} // verus!
