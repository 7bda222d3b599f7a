//! What happens to the stored rows when the application starts.
use vstd::prelude::*;

use crate::database::{same_connections, same_sessions, Database};
use crate::mux_store::MigrationPlan;
use crate::opening::{
    browsers_ensured, browsers_moved, holds_rows, law_stored_rows_are_read_back, StoredRows,
};
use crate::remote_import::all_uuids;
use crate::stored_records::kept_since;
use crate::stored_transfers::{
    all_resumed, law_no_transfer_survives_a_restart, same_but_transfers, task_views,
};

verus! {

/// For how many days the audit is kept.
pub const AUDIT_RETENTION_DAYS: i64 = 30;

/// The rows were read and brought up to date as planned.
pub open spec fn is_opened(stored: StoredRows, plan: MigrationPlan, db: Database) -> bool {
    if plan.move_browser_panes {
        exists|read: Database|
            holds_rows(read, stored, !plan.add_bookmark_order) && read.wf()
                && #[trigger] browsers_moved(read, db)
    } else {
        holds_rows(db, stored, !plan.add_bookmark_order)
    }
}

/// The transfers that were under way were interrupted.
pub open spec fn is_resumed(before: Database, after: Database) -> bool {
    &&& same_but_transfers(before, after)
    &&& exists|now: Seq<char>|
        task_views(after.transfers@) == #[trigger] all_resumed(task_views(before.transfers@), now)
}

/// Each session was asked for its browser.
pub open spec fn is_supplied(before: Database, after: Database, r: Result<(), String>) -> bool {
    exists|fresh: Seq<Seq<char>>, now: Seq<char>|
        all_uuids(fresh) && #[trigger] browsers_ensured(before, after, fresh, now, r)
}

/// The entries of the audit that were older than its days of retention were removed.
pub open spec fn is_pruned(before: Database, after: Database) -> bool {
    &&& exists|now: Seq<char>|
        after.audit@ == #[trigger] kept_since(before.audit@, now, AUDIT_RETENTION_DAYS)
    &&& same_connections(before, after)
    &&& same_sessions(before, after)
    &&& after.known_hosts == before.known_hosts
    &&& after.settings == before.settings
    &&& after.transfers == before.transfers
}

/// The stored rows, once the application has started: brought up to date, without transfers under
/// way, with a browser for each session and without old entries of the audit. Where a session gets
/// no browser the start fails with that reason.
pub open spec fn is_initialized(
    stored: StoredRows,
    plan: MigrationPlan,
    r: Result<Database, String>,
) -> bool {
    exists|
        opened: Database,
        resumed: Database,
        supplied: Database,
        outcome: Result<(), String>,
    |
        is_opened(stored, plan, opened) && #[trigger] is_resumed(opened, resumed)
            && #[trigger] is_supplied(resumed, supplied, outcome) && is_started(
            supplied,
            outcome,
            r,
        )
}

/// What a start ends with, by what became of the browsers.
pub open spec fn is_started(
    supplied: Database,
    outcome: Result<(), String>,
    r: Result<Database, String>,
) -> bool {
    match outcome {
        Ok(_) => r is Ok && r->Ok_0.wf() && is_pruned(supplied, r->Ok_0),
        Err(message) => r is Err && r->Err_0 == message,
    }
}

impl Database {
    /// Reads what is stored, brings it up to date and prepares it for this run.
    pub fn initialize(stored: StoredRows, plan: &MigrationPlan) -> (r: Result<Database, String>)
        requires
            stored.settings.wf(),
            stored.bookmarks@.len() <= i64::MAX,
        ensures
            is_initialized(stored, *plan, r),
    {
        let ghost given = stored;
        let mut db = Database::open(stored, plan);
        let ghost opened = db;
        db.interrupt_transfers();
        let ghost resumed = db;
        let outcome = db.ensure_browsers();
        let ghost supplied = db;
        let ghost kept = outcome;
        assert(is_resumed(opened, resumed));
        assert(is_supplied(resumed, supplied, kept));
        match outcome {
            Ok(()) => {
                db.prune_control_audit(AUDIT_RETENTION_DAYS);
                assert(is_started(supplied, kept, Ok(db)));
                Ok(db)
            },
            Err(message) => {
                assert(is_started(supplied, kept, Err(message)));
                Err(message)
            },
        }
    }
}

/// Once the application has started no transfer is under way.
pub proof fn law_no_transfer_runs_after_a_start(
    stored: StoredRows,
    plan: MigrationPlan,
    r: Result<Database, String>,
)
    requires
        is_initialized(stored, plan, r),
        r is Ok,
    ensures
        forall|i: int|
            0 <= i < r->Ok_0.transfers@.len() ==> !(#[trigger] r->Ok_0.transfers@[i]).status.active(),
{
    let (opened, resumed, supplied, outcome) = choose|
        opened: Database,
        resumed: Database,
        supplied: Database,
        outcome: Result<(), String>,
    |
        is_opened(stored, plan, opened) && #[trigger] is_resumed(opened, resumed)
            && #[trigger] is_supplied(resumed, supplied, outcome) && is_started(
            supplied,
            outcome,
            r,
        );
    let now = choose|now: Seq<char>|
        task_views(resumed.transfers@) == #[trigger] all_resumed(
            task_views(opened.transfers@),
            now,
        );
    let tasks = r->Ok_0.transfers@;
    law_no_transfer_survives_a_restart(task_views(opened.transfers@), now);
    assert(tasks == resumed.transfers@);
    assert(task_views(tasks).len() == tasks.len());
    assert(all_resumed(task_views(opened.transfers@), now).len() == task_views(
        opened.transfers@,
    ).len());
    assert forall|i: int| 0 <= i < tasks.len() implies !(#[trigger] tasks[i]).status.active() by {
        assert(task_views(tasks)[i] == tasks[i]@);
        assert(all_resumed(task_views(opened.transfers@), now)[i] == tasks[i]@);
        assert(tasks[i]@.status == tasks[i].status);
    }
}

/// What a run has stored is there when the application starts again: the sessions with their
/// layouts, the panes, the settings, the groups, the forwardings and the host keys.
pub proof fn law_a_restart_restores_the_sessions(
    before: Database,
    stored: StoredRows,
    plan: MigrationPlan,
    r: Result<Database, String>,
)
    requires
        before.wf(),
        stored.sessions@ == before.sessions.rows@,
        stored.panes@ == before.panes.rows@,
        stored.settings == before.settings,
        stored.groups == before.groups,
        stored.forwardings == before.forwardings,
        stored.known_hosts == before.known_hosts,
        !plan.move_browser_panes,
        is_initialized(stored, plan, r),
        r is Ok,
    ensures
        r->Ok_0.sessions.rows@ == before.sessions.rows@,
        r->Ok_0.panes.rows@ == before.panes.rows@,
        r->Ok_0.settings == before.settings,
        r->Ok_0.groups == before.groups,
        r->Ok_0.forwardings == before.forwardings,
        r->Ok_0.known_hosts == before.known_hosts,
{
    law_stored_rows_are_read_back(before.sessions.rows@);
    law_stored_rows_are_read_back(before.panes.rows@);
}

/// A start forgets the audit of more than thirty days ago and nothing else of it; connections, sessions
/// and settings are not touched by that.
pub proof fn law_starts_keep_a_month_of_audit(before: Database, after: Database)
    requires
        is_pruned(before, after),
    ensures
        exists|now: Seq<char>| after.audit@ == #[trigger] kept_since(before.audit@, now, 30),
        after.bookmarks == before.bookmarks && after.groups == before.groups,
        after.sessions == before.sessions && after.panes == before.panes && after.browsers
            == before.browsers,
        after.settings == before.settings && after.transfers == before.transfers
            && after.known_hosts == before.known_hosts,
{
    let now = choose|now: Seq<char>|
        after.audit@ == #[trigger] kept_since(before.audit@, now, AUDIT_RETENTION_DAYS);
    assert(after.audit@ == kept_since(before.audit@, now, 30));
}

} // verus!
