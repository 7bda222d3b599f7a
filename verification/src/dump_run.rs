//! A dump while it is carried out, and what it counts.
use vstd::prelude::*;

use crate::database_runtime::DatabaseSqlExport;
use crate::dump_plan::{step_views, DumpPlan, DumpStep, StepView};

verus! {

/// A dump while it is carried out: its steps, how many are done, and the rows that they wrote.
#[derive(Debug)]
pub struct DumpRun {
    pub steps: Vec<DumpStep>,
    pub tables: usize,
    pub at: usize,
    pub rows: u64,
}

/// A step was carried out and wrote so many rows.
pub open spec fn step_done(before: DumpRun, after: DumpRun, written: u64) -> bool {
    &&& after.steps == before.steps
    &&& after.tables == before.tables
    &&& after.at == before.at + 1
    &&& after.rows == before.rows + written
}

impl DumpRun {
    /// No more steps are done than there are.
    pub open spec fn wf(self) -> bool {
        self.at <= self.steps@.len()
    }

    /// All steps are done.
    pub open spec fn is_done(self) -> bool {
        self.at == self.steps@.len()
    }

    /// Begins to carry out a dump.
    pub fn start(plan: DumpPlan) -> (r: Self)
        ensures
            r.wf(),
            r.steps == plan.steps,
            r.tables == plan.tables,
            r.at == 0,
            r.rows == 0,
    {
        DumpRun { steps: plan.steps, tables: plan.tables, at: 0, rows: 0 }
    }

    /// The step that is carried out next.
    pub fn step(&self) -> (r: Option<&DumpStep>)
        ensures
            r is Some == (self.at < self.steps@.len()),
            r is Some ==> *r->0 == self.steps@[self.at as int],
    {
        if self.at < self.steps.len() {
            Some(&self.steps[self.at])
        } else {
            None
        }
    }

    /// Notes that the step was carried out, with the rows that it wrote; refused where they can no
    /// longer be counted.
    pub fn done(&mut self, written: u64) -> (r: bool)
        requires
            old(self).wf(),
            old(self).at < old(self).steps@.len(),
        ensures
            final(self).wf(),
            r == (old(self).rows + written <= u64::MAX),
            r ==> step_done(*old(self), *final(self), written),
            !r ==> *final(self) == *old(self),
    {
        let total: usize = self.steps.len();
        assert(self.at < total);
        match self.rows.checked_add(written) {
            Some(rows) => {
                self.rows = rows;
                self.at = self.at + 1;
                true
            },
            None => false,
        }
    }

    /// The size of the dump, once all of it is written. `bytes` is the size of its file.
    pub fn export(&self, bytes: u64) -> (r: DatabaseSqlExport)
        requires
            self.is_done(),
        ensures
            r == export_of(*self, bytes),
    {
        DatabaseSqlExport { tables: self.tables, rows: self.rows, bytes }
    }
}

/// What is told of a dump that was carried out.
pub open spec fn export_of(run: DumpRun, bytes: u64) -> DatabaseSqlExport {
    DatabaseSqlExport { tables: run.tables, rows: run.rows, bytes }
}

/// The rows that a step writes, where `counts` tells how many each table has.
pub open spec fn step_rows(step: StepView, counts: spec_fn(Seq<char>) -> nat) -> nat {
    match step {
        StepView::Data(table) => counts(table),
        _ => 0,
    }
}

/// The rows that steps write.
pub open spec fn steps_rows(steps: Seq<StepView>, counts: spec_fn(Seq<char>) -> nat) -> nat
    decreases steps.len(),
{
    if steps.len() == 0 {
        0
    } else {
        steps_rows(steps.drop_last(), counts) + step_rows(steps.last(), counts)
    }
}

/// The run has counted the rows that its steps wrote so far.
pub open spec fn counts_rows(run: DumpRun, counts: spec_fn(Seq<char>) -> nat) -> bool {
    run.rows == steps_rows(step_views(run.steps@).take(run.at as int), counts)
}

/// A run counts the rows that its steps write: it does when it begins, and it goes on to do so with
/// every step that is noted with the rows that it wrote.
pub proof fn law_runs_count_their_rows(
    before: DumpRun,
    after: DumpRun,
    written: u64,
    counts: spec_fn(Seq<char>) -> nat,
)
    requires
        before.wf(),
        before.at < before.steps@.len(),
        step_done(before, after, written),
        written == step_rows(step_views(before.steps@)[before.at as int], counts),
    ensures
        before.at == 0 && before.rows == 0 ==> counts_rows(before, counts),
        counts_rows(before, counts) ==> counts_rows(after, counts),
{
    let steps = step_views(before.steps@);
    let now = steps.take(after.at as int);
    assert(now.drop_last() =~= steps.take(before.at as int));
    assert(now.last() == steps[before.at as int]);
    assert(steps.take(0) =~= Seq::empty());
}

pub proof fn lemma_rows_of_both(
    a: Seq<StepView>,
    b: Seq<StepView>,
    counts: spec_fn(Seq<char>) -> nat,
)
    ensures
        steps_rows(a + b, counts) == steps_rows(a, counts) + steps_rows(b, counts),
    decreases b.len(),
{
    if b.len() == 0 {
        assert(a + b =~= a);
    } else {
        lemma_rows_of_both(a, b.drop_last(), counts);
        assert((a + b).drop_last() =~= a + b.drop_last());
    }
}

/// What is told of an export is what was exported: the tables of the plan, the rows that were written
/// and the bytes of the file.
pub proof fn law_exports_tell_what_was_written(run: DumpRun, bytes: u64)
    ensures
        export_of(run, bytes).tables == run.tables,
        export_of(run, bytes).rows == run.rows,
        export_of(run, bytes).bytes == bytes,
{
}

/// A step of an export moves on by one and counts its rows.
pub proof fn law_steps_are_done_one_by_one(before: DumpRun, after: DumpRun, written: u64)
    requires
        before.wf(),
        before.at < before.steps@.len(),
        step_done(before, after, written),
    ensures
        after.wf(),
        after.at == before.at + 1,
        after.rows == before.rows + written,
        after.steps == before.steps && after.tables == before.tables,
        after.is_done() <==> before.at + 1 == before.steps@.len(),
{
}

} // verus!
