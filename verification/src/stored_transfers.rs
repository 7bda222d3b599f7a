//! The transfers that are stored.
use vstd::prelude::*;
use vstd::string::*;

use crate::clock::now_rfc3339;
use crate::control_effects::TransferDirection;
use crate::control_lists::TransferStatus;
use crate::database::{same_connections, same_sessions, Database};
use crate::ordered_text::{before, is_before, lemma_before_total, lemma_before_transitive};
use crate::text::{copy_opt, opt_view, same};

verus! {

/// How many transfers are listed at most.
pub const TRANSFER_LIMIT: usize = 500;

/// A transfer of one file. `speed` holds the bits of a double.
#[derive(Debug)]
pub struct TransferTask {
    pub id: String,
    pub session_id: String,
    pub bookmark_id: String,
    pub direction: TransferDirection,
    pub source_path: String,
    pub destination_path: String,
    pub display_name: String,
    pub status: TransferStatus,
    pub bytes_total: u64,
    pub bytes_transferred: u64,
    pub speed: u64,
    pub error: Option<String>,
    pub created_at: String,
    pub updated_at: String,
}

/// What is stored of a transfer.
pub ghost struct TransferView {
    pub id: Seq<char>,
    pub session_id: Seq<char>,
    pub bookmark_id: Seq<char>,
    pub direction: TransferDirection,
    pub source_path: Seq<char>,
    pub destination_path: Seq<char>,
    pub display_name: Seq<char>,
    pub status: TransferStatus,
    pub bytes_total: u64,
    pub bytes_transferred: u64,
    pub speed: u64,
    pub error: Option<Seq<char>>,
    pub created_at: Seq<char>,
    pub updated_at: Seq<char>,
}

impl View for TransferTask {
    type V = TransferView;

    open spec fn view(&self) -> TransferView {
        TransferView {
            id: self.id@,
            session_id: self.session_id@,
            bookmark_id: self.bookmark_id@,
            direction: self.direction,
            source_path: self.source_path@,
            destination_path: self.destination_path@,
            display_name: self.display_name@,
            status: self.status,
            bytes_total: self.bytes_total,
            bytes_transferred: self.bytes_transferred,
            speed: self.speed,
            error: opt_view(self.error),
            created_at: self.created_at@,
            updated_at: self.updated_at@,
        }
    }
}

fn copy_task(task: &TransferTask) -> (r: TransferTask)
    ensures
        r@ == task@,
{
    TransferTask {
        id: task.id.clone(),
        session_id: task.session_id.clone(),
        bookmark_id: task.bookmark_id.clone(),
        direction: task.direction,
        source_path: task.source_path.clone(),
        destination_path: task.destination_path.clone(),
        display_name: task.display_name.clone(),
        status: task.status,
        bytes_total: task.bytes_total,
        bytes_transferred: task.bytes_transferred,
        speed: task.speed,
        error: copy_opt(&task.error),
        created_at: task.created_at.clone(),
        updated_at: task.updated_at.clone(),
    }
}

/// The view of each transfer.
pub open spec fn task_views(tasks: Seq<TransferTask>) -> Seq<TransferView> {
    tasks.map_values(|task: TransferTask| task@)
}

/// No two transfers have the same id.
pub open spec fn distinct_tasks(tasks: Seq<TransferView>) -> bool {
    forall|i: int, j: int| 0 <= i < j < tasks.len() ==> tasks[i].id != tasks[j].id
}

/// The place of the first transfer with this id.
pub open spec fn task_place(tasks: Seq<TransferView>, id: Seq<char>) -> Option<int>
    decreases tasks.len(),
{
    if tasks.len() == 0 {
        None
    } else {
        match task_place(tasks.drop_last(), id) {
            Some(i) => Some(i),
            None => if tasks.last().id == id {
                Some(tasks.len() - 1)
            } else {
                None
            },
        }
    }
}

/// A stored transfer once it is saved again: what it moves, which way, its name and when it began
/// stay.
pub open spec fn saved_again(stored: TransferView, task: TransferView) -> TransferView {
    TransferView {
        direction: stored.direction,
        source_path: stored.source_path,
        display_name: stored.display_name,
        created_at: stored.created_at,
        ..task
    }
}

/// The transfers once one of them is saved.
pub open spec fn with_task(tasks: Seq<TransferView>, task: TransferView) -> Seq<TransferView> {
    match task_place(tasks, task.id) {
        Some(i) => tasks.update(i, saved_again(tasks[i], task)),
        None => tasks.push(task),
    }
}

/// The transfers, those that began last first, with one more.
pub open spec fn with_listed(list: Seq<TransferView>, task: TransferView) -> Seq<TransferView>
    decreases list.len(),
{
    if list.len() == 0 {
        seq![task]
    } else if before(list[0].created_at, task.created_at) {
        seq![task] + list
    } else {
        seq![list[0]] + with_listed(list.skip(1), task)
    }
}

/// The transfers, those that began last first.
pub open spec fn latest_first(tasks: Seq<TransferView>) -> Seq<TransferView>
    decreases tasks.len(),
{
    if tasks.len() == 0 {
        tasks
    } else {
        with_listed(latest_first(tasks.drop_last()), tasks.last())
    }
}

/// A transfer that is over and of which nothing is left to see.
pub open spec fn is_settled(status: TransferStatus) -> bool {
    status == TransferStatus::Completed || status == TransferStatus::Cancelled
}

/// The transfers that are still of interest.
pub open spec fn unsettled(tasks: Seq<TransferView>) -> Seq<TransferView>
    decreases tasks.len(),
{
    if tasks.len() == 0 {
        tasks
    } else if is_settled(tasks.last().status) {
        unsettled(tasks.drop_last())
    } else {
        unsettled(tasks.drop_last()).push(tasks.last())
    }
}

/// A transfer after the application was started anew: one that was under way was interrupted.
pub open spec fn resumed(task: TransferView, now: Seq<char>) -> TransferView {
    if task.status.active() {
        TransferView {
            status: TransferStatus::Interrupted,
            error: Some("应用上次退出时传输未完成"@),
            updated_at: now,
            ..task
        }
    } else {
        task
    }
}

/// Nothing but the transfers has changed.
pub open spec fn same_but_transfers(a: Database, b: Database) -> bool {
    &&& same_connections(a, b)
    &&& same_sessions(a, b)
    &&& a.known_hosts == b.known_hosts
    &&& a.settings == b.settings
    &&& a.audit == b.audit
}

proof fn lemma_task_place(tasks: Seq<TransferView>, id: Seq<char>)
    ensures
        match task_place(tasks, id) {
            Some(i) => 0 <= i < tasks.len() && tasks[i].id == id && forall|k: int|
                0 <= k < i ==> (#[trigger] tasks[k]).id != id,
            None => forall|k: int| 0 <= k < tasks.len() ==> (#[trigger] tasks[k]).id != id,
        },
    decreases tasks.len(),
{
    if tasks.len() > 0 {
        let rest = tasks.drop_last();
        lemma_task_place(rest, id);
        match task_place(rest, id) {
            Some(i) => {
                assert(tasks[i] == rest[i]);
                assert forall|k: int| 0 <= k < i implies (#[trigger] tasks[k]).id != id by {
                    assert(tasks[k] == rest[k]);
                }
            },
            None => {
                assert forall|k: int| 0 <= k < tasks.len() - 1 implies (#[trigger] tasks[k]).id
                    != id by {
                    assert(tasks[k] == rest[k]);
                }
            },
        }
    }
}

fn find_task(tasks: &[TransferTask], id: &str) -> (r: Option<usize>)
    ensures
        match r {
            Some(i) => task_place(task_views(tasks@), id@) == Some(i as int),
            None => task_place(task_views(tasks@), id@) is None,
        },
{
    let ghost all = task_views(tasks@);
    let mut i: usize = 0;
    while i < tasks.len()
        invariant
            i <= tasks@.len(),
            all == task_views(tasks@),
            forall|k: int| 0 <= k < i ==> (#[trigger] all[k]).id != id@,
        decreases tasks@.len() - i,
    {
        assert(all[i as int] == tasks@[i as int]@);
        if same(tasks[i].id.as_str(), id) {
            proof {
                lemma_task_place(all, id@);
                let found = task_place(all, id@);
                if found is None {
                    assert(all[i as int].id != id@);
                } else if found->0 < i {
                    assert(all[found->0].id != id@);
                }
            }
            return Some(i);
        }
        i = i + 1;
    }
    proof {
        lemma_task_place(all, id@);
        if task_place(all, id@) is Some {
            assert(all[task_place(all, id@)->0].id != id@);
        }
    }
    None
}

fn insert_task(list: &mut Vec<TransferTask>, task: TransferTask)
    ensures
        task_views(final(list)@) == with_listed(task_views(old(list)@), task@),
{
    let ghost all = task_views(list@);
    let mut i: usize = 0;
    assert(all.skip(0) =~= all);
    assert(all.take(0) + with_listed(all, task@) =~= with_listed(all, task@));
    while i < list.len() && !is_before(list[i].created_at.as_str(), task.created_at.as_str())
        invariant
            list@ == old(list)@,
            all == task_views(list@),
            i <= list@.len(),
            with_listed(all, task@) == all.take(i as int) + with_listed(all.skip(i as int), task@),
        decreases list@.len() - i,
    {
        assert(all[i as int] == list@[i as int]@);
        assert(all.skip(i as int)[0] == all[i as int]);
        assert(all.skip(i as int).skip(1) =~= all.skip(i + 1));
        assert(all.take(i as int) + (seq![all[i as int]] + with_listed(all.skip(i + 1), task@))
            =~= all.take(i + 1) + with_listed(all.skip(i + 1), task@));
        i = i + 1;
    }
    proof {
        if i < list@.len() {
            assert(all[i as int] == list@[i as int]@);
            assert(all.skip(i as int)[0] == all[i as int]);
        } else {
            assert(all.skip(i as int) =~= Seq::empty());
            assert(with_listed(all.skip(i as int), task@) =~= seq![task@] + all.skip(i as int));
        }
        assert(with_listed(all, task@) == all.take(i as int) + (seq![task@] + all.skip(i as int)));
    }
    list.insert(i, task);
    assert(task_views(list@) =~= all.take(i as int) + (seq![task@] + all.skip(i as int)));
}

impl Database {
    /// The transfers that began last.
    pub fn list_transfers(&self) -> (r: Vec<TransferTask>)
        ensures
            ({
                let all = latest_first(task_views(self.transfers@));
                task_views(r@) == (if all.len() <= TRANSFER_LIMIT {
                    all
                } else {
                    all.take(TRANSFER_LIMIT as int)
                })
            }),
    {
        let mut list: Vec<TransferTask> = Vec::new();
        let ghost all = task_views(self.transfers@);
        let mut i: usize = 0;
        assert(task_views(list@) =~= latest_first(all.take(0)));
        while i < self.transfers.len()
            invariant
                i <= self.transfers@.len(),
                all == task_views(self.transfers@),
                task_views(list@) == latest_first(all.take(i as int)),
            decreases self.transfers@.len() - i,
        {
            assert(all.take(i + 1).drop_last() =~= all.take(i as int));
            assert(all.take(i + 1).last() == self.transfers@[i as int]@);
            insert_task(&mut list, copy_task(&self.transfers[i]));
            i = i + 1;
        }
        assert(all.take(i as int) =~= all);
        let ghost whole = list@;
        assert(task_views(whole).len() == whole.len());
        if list.len() > TRANSFER_LIMIT {
            list.truncate(TRANSFER_LIMIT);
            assert(task_views(list@) =~= task_views(whole).take(TRANSFER_LIMIT as int));
        }
        list
    }

    /// Saves a transfer, in place of the one with the same id.
    pub fn save_transfer(&mut self, task: &TransferTask)
        requires
            old(self).wf(),
        ensures
            final(self).wf(),
            task_views(final(self).transfers@) == with_task(
                task_views(old(self).transfers@),
                task@,
            ),
            same_but_transfers(*old(self), *final(self)),
    {
        let ghost all = task_views(self.transfers@);
        let mut saved = copy_task(task);
        match find_task(self.transfers.as_slice(), task.id.as_str()) {
            Some(i) => {
                proof {
                    lemma_task_place(all, task@.id);
                    assert(all[i as int] == self.transfers@[i as int]@);
                }
                saved.direction = self.transfers[i].direction;
                saved.source_path = self.transfers[i].source_path.clone();
                saved.display_name = self.transfers[i].display_name.clone();
                saved.created_at = self.transfers[i].created_at.clone();
                let ghost put = saved@;
                self.transfers.set(i, saved);
                assert(task_views(self.transfers@) =~= all.update(i as int, put));
            },
            None => {
                self.transfers.push(saved);
                assert(task_views(self.transfers@) =~= all.push(task@));
            },
        }
    }

    /// Removes the transfers that were completed or cancelled.
    pub fn clear_completed(&mut self)
        requires
            old(self).wf(),
        ensures
            final(self).wf(),
            task_views(final(self).transfers@) == unsettled(task_views(old(self).transfers@)),
            same_but_transfers(*old(self), *final(self)),
    {
        let ghost all = task_views(self.transfers@);
        let mut kept: Vec<TransferTask> = Vec::new();
        let mut i: usize = 0;
        assert(task_views(kept@) =~= unsettled(all.take(0)));
        while i < self.transfers.len()
            invariant
                i <= self.transfers@.len(),
                *self == *old(self),
                all == task_views(self.transfers@),
                task_views(kept@) == unsettled(all.take(i as int)),
            decreases self.transfers@.len() - i,
        {
            assert(all.take(i + 1).drop_last() =~= all.take(i as int));
            assert(all.take(i + 1).last() == self.transfers@[i as int]@);
            let settled = match self.transfers[i].status {
                TransferStatus::Completed => true,
                TransferStatus::Cancelled => true,
                _ => false,
            };
            if !settled {
                let ghost shorter = task_views(kept@);
                let task = copy_task(&self.transfers[i]);
                let ghost added = task@;
                kept.push(task);
                assert(task_views(kept@) =~= shorter.push(added));
            }
            i = i + 1;
        }
        assert(all.take(i as int) =~= all);
        self.transfers = kept;
    }

    /// Marks the transfers that were under way when the application ended last.
    pub fn interrupt_transfers_at(&mut self, now: &str)
        requires
            old(self).wf(),
        ensures
            final(self).wf(),
            task_views(final(self).transfers@) == task_views(old(self).transfers@).map_values(
                |task: TransferView| resumed(task, now@),
            ),
            same_but_transfers(*old(self), *final(self)),
    {
        let ghost all = task_views(self.transfers@);
        let mut marked: Vec<TransferTask> = Vec::new();
        let mut i: usize = 0;
        while i < self.transfers.len()
            invariant
                i <= self.transfers@.len(),
                *self == *old(self),
                all == task_views(self.transfers@),
                marked@.len() == i,
                forall|k: int| 0 <= k < i ==> (#[trigger] marked@[k])@ == resumed(all[k], now@),
            decreases self.transfers@.len() - i,
        {
            assert(all[i as int] == self.transfers@[i as int]@);
            let mut task = copy_task(&self.transfers[i]);
            if task.status.is_active() {
                task.status = TransferStatus::Interrupted;
                task.error = Some("应用上次退出时传输未完成".to_owned());
                task.updated_at = now.to_owned();
            }
            marked.push(task);
            i = i + 1;
        }
        self.transfers = marked;
        assert(task_views(self.transfers@) =~= all.map_values(
            |task: TransferView| resumed(task, now@),
        ));
    }

    /// Marks the transfers that were under way when the application ended last, as of now.
    pub fn interrupt_transfers(&mut self)
        requires
            old(self).wf(),
        ensures
            final(self).wf(),
            exists|now: Seq<char>|
                task_views(final(self).transfers@) == #[trigger] all_resumed(
                    task_views(old(self).transfers@),
                    now,
                ),
            same_but_transfers(*old(self), *final(self)),
    {
        let now = now_rfc3339();
        self.interrupt_transfers_at(now.as_str());
        assert(task_views(self.transfers@) == all_resumed(task_views(old(self).transfers@), now@));
    }
}

/// The transfers after the application was started anew.
pub open spec fn all_resumed(tasks: Seq<TransferView>, now: Seq<char>) -> Seq<TransferView> {
    tasks.map_values(|task: TransferView| resumed(task, now))
}

/// A transfer that was saved is stored under its id, with the status it was saved with, and no
/// other transfer is touched; ids stay distinct.
pub proof fn law_saved_transfers_are_found(tasks: Seq<TransferView>, task: TransferView)
    requires
        distinct_tasks(tasks),
    ensures
        distinct_tasks(with_task(tasks, task)),
        ({
            let after = with_task(tasks, task);
            let place = task_place(after, task.id);
            &&& place is Some
            &&& after[place->0].id == task.id
            &&& after[place->0].status == task.status
            &&& after[place->0].bytes_transferred == task.bytes_transferred
            &&& forall|k: int|
                0 <= k < tasks.len() && (#[trigger] tasks[k]).id != task.id ==> after[k]
                    == tasks[k]
        }),
{
    let after = with_task(tasks, task);
    lemma_task_place(tasks, task.id);
    lemma_task_place(after, task.id);
    let put: int = match task_place(tasks, task.id) {
        Some(i) => i,
        None => tasks.len() as int,
    };
    assert(after[put].id == task.id);
    assert forall|i: int, j: int| 0 <= i < j < after.len() implies after[i].id != after[j].id by {
        if i < tasks.len() && j < tasks.len() {
            assert(tasks[i].id != tasks[j].id);
            assert(after[i].id == tasks[i].id);
            assert(after[j].id == tasks[j].id);
        } else {
            assert(after[i] == tasks[i]);
        }
    }
    let found = task_place(after, task.id)->0;
    assert(found == put) by {
        if found < put {
            assert(after[found].id != after[put].id);
        } else if put < found {
            assert(after[put].id != task.id);
        }
    }
}

/// Once the application was started anew no transfer counts as being under way.
pub proof fn law_no_transfer_survives_a_restart(tasks: Seq<TransferView>, now: Seq<char>)
    ensures
        forall|i: int|
            0 <= i < tasks.len() ==> !(#[trigger] all_resumed(tasks, now)[i]).status.active(),
{
}

/// What is cleared away was completed or cancelled, and everything else stays.
pub proof fn law_unfinished_transfers_are_kept(tasks: Seq<TransferView>, task: TransferView)
    ensures
        unsettled(tasks).contains(task) <==> tasks.contains(task) && !is_settled(task.status),
    decreases tasks.len(),
{
    if tasks.len() > 0 {
        let rest = tasks.drop_last();
        let last = tasks.last();
        law_unfinished_transfers_are_kept(rest, task);
        assert(tasks.contains(task) <==> rest.contains(task) || task == last) by {
            if tasks.contains(task) {
                let k = choose|k: int| 0 <= k < tasks.len() && tasks[k] == task;
                if k < rest.len() {
                    assert(rest[k] == task);
                }
            }
            if rest.contains(task) {
                let k = choose|k: int| 0 <= k < rest.len() && rest[k] == task;
                assert(tasks[k] == task);
            }
            if task == last {
                assert(tasks[tasks.len() - 1] == task);
            }
        }
        if !is_settled(last.status) {
            let kept = unsettled(rest);
            let all = kept.push(last);
            assert(all.contains(task) <==> kept.contains(task) || task == last) by {
                if all.contains(task) {
                    let k = choose|k: int| 0 <= k < all.len() && all[k] == task;
                    if k < kept.len() {
                        assert(kept[k] == task);
                    }
                }
                if kept.contains(task) {
                    let k = choose|k: int| 0 <= k < kept.len() && kept[k] == task;
                    assert(all[k] == task);
                }
                if task == last {
                    assert(all[kept.len() as int] == task);
                }
            }
        }
    }
}

/// A transfer that is saved again takes over how far it got; where it comes from, which way it goes,
/// what it is called and when it was made stay as they were.
pub proof fn law_transfers_keep_what_they_are(stored: TransferView, task: TransferView)
    ensures
        ({
            let after = saved_again(stored, task);
            &&& after.direction == stored.direction
            &&& after.source_path == stored.source_path
            &&& after.display_name == stored.display_name
            &&& after.created_at == stored.created_at
            &&& after.id == task.id && after.session_id == task.session_id
            &&& after.bookmark_id == task.bookmark_id
            &&& after.destination_path == task.destination_path
            &&& after.status == task.status && after.error == task.error
            &&& after.bytes_total == task.bytes_total
            &&& after.bytes_transferred == task.bytes_transferred
            &&& after.speed == task.speed && after.updated_at == task.updated_at
        }),
{
}

/// A transfer that was under way when the application ended is told as interrupted, and nothing else
/// of it changes; one that had ended stays as it was.
pub proof fn law_restarts_interrupt_transfers(task: TransferView, now: Seq<char>)
    ensures
        ({
            let after = resumed(task, now);
            let under_way = match task.status {
                TransferStatus::Queued
                | TransferStatus::Scanning
                | TransferStatus::Running
                | TransferStatus::Conflict => true,
                TransferStatus::Completed
                | TransferStatus::Failed
                | TransferStatus::Cancelled
                | TransferStatus::Interrupted => false,
            };
            &&& !under_way ==> after == task
            &&& under_way ==> after.status == TransferStatus::Interrupted && after.error is Some
                && after.updated_at == now
            &&& (TransferView {
                status: task.status,
                error: task.error,
                updated_at: task.updated_at,
                ..after
            }) == task
        }),
{
}

/// Clearing away takes what was completed or cancelled; what failed or was interrupted is still shown.
pub proof fn law_failed_transfers_are_still_shown(status: TransferStatus)
    ensures
        match status {
            TransferStatus::Completed | TransferStatus::Cancelled => is_settled(status),
            TransferStatus::Queued
            | TransferStatus::Scanning
            | TransferStatus::Running
            | TransferStatus::Conflict
            | TransferStatus::Failed
            | TransferStatus::Interrupted => !is_settled(status),
        },
{
}

/// The transfers are listed from the latest to the oldest, and all of them.
pub proof fn law_transfers_are_listed_latest_first(tasks: Seq<TransferView>)
    ensures
        latest_first(tasks).to_multiset() == tasks.to_multiset(),
        forall|i: int, j: int|
            0 <= i < j < latest_first(tasks).len() ==> !before(
                (#[trigger] latest_first(tasks)[i]).created_at,
                (#[trigger] latest_first(tasks)[j]).created_at,
            ),
    decreases tasks.len(),
{
    broadcast use vstd::seq_lib::group_to_multiset_ensures;

    if tasks.len() > 0 {
        law_transfers_are_listed_latest_first(tasks.drop_last());
        lemma_with_listed(latest_first(tasks.drop_last()), tasks.last());
        assert(tasks.drop_last().push(tasks.last()) =~= tasks);
    }
}

proof fn lemma_with_listed(list: Seq<TransferView>, task: TransferView)
    requires
        forall|i: int, j: int|
            0 <= i < j < list.len() ==> !before(
                (#[trigger] list[i]).created_at,
                (#[trigger] list[j]).created_at,
            ),
    ensures
        with_listed(list, task).to_multiset() == list.to_multiset().insert(task),
        forall|i: int, j: int|
            0 <= i < j < with_listed(list, task).len() ==> !before(
                (#[trigger] with_listed(list, task)[i]).created_at,
                (#[trigger] with_listed(list, task)[j]).created_at,
            ),
        forall|k: int|
            0 <= k < with_listed(list, task).len() ==> (#[trigger] with_listed(list, task)[k])
                == task || list.contains(with_listed(list, task)[k]),
    decreases list.len(),
{
    broadcast use vstd::seq_lib::group_to_multiset_ensures;

    let whole = with_listed(list, task);
    if list.len() == 0 {
        assert(whole =~= list.push(task));
    } else if before(list[0].created_at, task.created_at) {
        assert(whole =~= list.insert(0, task));
        vstd::seq_lib::to_multiset_insert(list, 0, task);
        assert forall|i: int, j: int| 0 <= i < j < whole.len() implies !before(
            (#[trigger] whole[i]).created_at,
            (#[trigger] whole[j]).created_at,
        ) by {
            assert(whole[j] == list[j - 1]);
            if i == 0 {
                lemma_before_total(list[0].created_at, task.created_at);
                if before(task.created_at, list[j - 1].created_at) {
                    lemma_before_transitive(
                        list[0].created_at,
                        task.created_at,
                        list[j - 1].created_at,
                    );
                    assert(j - 1 == 0 || !before(list[0].created_at, list[j - 1].created_at));
                    lemma_before_total(list[0].created_at, list[0].created_at);
                }
            } else {
                assert(whole[i] == list[i - 1]);
            }
        }
        assert forall|k: int| 0 <= k < whole.len() implies (#[trigger] whole[k]) == task
            || list.contains(whole[k]) by {
            if k > 0 {
                assert(whole[k] == list[k - 1]);
            }
        }
    } else {
        let rest = list.skip(1);
        let tail = with_listed(rest, task);
        assert forall|i: int, j: int| 0 <= i < j < rest.len() implies !before(
            (#[trigger] rest[i]).created_at,
            (#[trigger] rest[j]).created_at,
        ) by {
            assert(rest[i] == list[i + 1] && rest[j] == list[j + 1]);
        }
        lemma_with_listed(rest, task);
        assert forall|i: int, j: int| 0 <= i < j < whole.len() implies !before(
            (#[trigger] whole[i]).created_at,
            (#[trigger] whole[j]).created_at,
        ) by {
            assert(whole[j] == tail[j - 1]);
            if i == 0 {
                if tail[j - 1] != task {
                    let m = choose|m: int| 0 <= m < rest.len() && rest[m] == tail[j - 1];
                    assert(rest[m] == list[m + 1]);
                }
            } else {
                assert(whole[i] == tail[i - 1]);
            }
        }
        assert forall|k: int| 0 <= k < whole.len() implies (#[trigger] whole[k]) == task
            || list.contains(whole[k]) by {
            if k == 0 {
                assert(whole[k] == list[0]);
            } else if whole[k] != task {
                assert(whole[k] == tail[k - 1]);
                let m = choose|m: int| 0 <= m < rest.len() && rest[m] == tail[k - 1];
                assert(list[m + 1] == rest[m]);
            }
        }
        assert(whole =~= tail.insert(0, list[0]));
        assert(list =~= rest.insert(0, list[0]));
        vstd::seq_lib::to_multiset_insert(tail, 0, list[0]);
        vstd::seq_lib::to_multiset_insert(rest, 0, list[0]);
        assert(whole.to_multiset() =~= list.to_multiset().insert(task));
    }
}

/// No more than five hundred transfers are listed, and all where there are no more: the latest ones.
pub proof fn law_the_latest_transfers_are_listed(db: &Database, r: Vec<TransferTask>)
    requires
        Database::list_transfers.ensures((db,), r),
    ensures
        ({
            let all = latest_first(task_views(db.transfers@));
            &&& all.len() <= 500 ==> task_views(r@) == all
            &&& all.len() > 500 ==> task_views(r@) == all.take(500)
        }),
{
}

} // verus!
