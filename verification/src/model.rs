//! Mathematical model of the cooperative runtime: ghost views of work items,
//! the observable event trace, and the semantics of one pump cycle.

use vstd::prelude::*;

verus! {

/// One observable event of the runtime's execution log.
#[derive(Clone, Copy, PartialEq, Eq, Structural, Debug)]
pub enum Event {
    /// Item `id` performed the unit of work labelled `tag`.
    Work { id: u64, tag: u64 },
    /// Item `id` reached one of its own suspension points and was parked.
    Suspended { id: u64 },
    /// Item `id` finished and was discarded.
    Completed { id: u64 },
}

/// View of a follow-up task spawned from within a running item: it performs
/// plain units of work and cannot itself suspend or spawn.
pub ghost struct ChildView {
    pub id: u64,
    pub tags: Seq<u64>,
}

/// View of one step of a work item's program.
pub ghost enum StepView {
    /// Perform the unit of work labelled `tag`.
    Work { tag: u64 },
    /// Yield control back to the executor until the next pump cycle.
    Suspend,
    /// Submit a follow-up task to the queue.
    Spawn { child: ChildView },
}

/// View of a resumable computation: a program together with the position
/// (`pc`) from which it still has to run. A freshly submitted item has
/// `pc == 0`; a parked item remembers how far it got.
pub ghost struct JobView {
    pub id: u64,
    pub steps: Seq<StepView>,
    pub pc: nat,
}

/// What driving one job to its next suspension point (or completion) does.
pub ghost struct RunOutcome {
    /// Events emitted, in order.
    pub trace: Seq<Event>,
    /// Follow-up jobs submitted to the queue, in order.
    pub spawned: Seq<JobView>,
    /// The job, parked with its progress, if it suspended; `None` if it
    /// completed.
    pub parked: Option<JobView>,
}

/// What draining a whole backlog does.
pub ghost struct DrainOutcome {
    pub trace: Seq<Event>,
    pub parked: Seq<JobView>,
}

/// The job a spawned follow-up task stands for: all plain work, from the start.
pub open spec fn child_job(c: ChildView) -> JobView {
    JobView {
        id: c.id,
        steps: c.tags.map_values(|t: u64| StepView::Work { tag: t }),
        pc: 0,
    }
}

/// Drives one job from its `pc` until it suspends or completes: the executor
/// never preempts a running item, so this consumes steps in order.
pub open spec fn run_job(j: JobView) -> RunOutcome
    decreases j.steps.len() - j.pc,
{
    if j.pc >= j.steps.len() {
        RunOutcome {
            trace: seq![Event::Completed { id: j.id }],
            spawned: Seq::empty(),
            parked: None,
        }
    } else {
        match j.steps[j.pc as int] {
            StepView::Work { tag } => {
                let rest = run_job(JobView { id: j.id, steps: j.steps, pc: j.pc + 1 });
                RunOutcome {
                    trace: seq![Event::Work { id: j.id, tag }] + rest.trace,
                    spawned: rest.spawned,
                    parked: rest.parked,
                }
            }
            StepView::Suspend => RunOutcome {
                trace: seq![Event::Suspended { id: j.id }],
                spawned: Seq::empty(),
                parked: Some(JobView { id: j.id, steps: j.steps, pc: j.pc + 1 }),
            },
            StepView::Spawn { child } => {
                let rest = run_job(JobView { id: j.id, steps: j.steps, pc: j.pc + 1 });
                RunOutcome {
                    trace: rest.trace,
                    spawned: seq![child_job(child)] + rest.spawned,
                    parked: rest.parked,
                }
            }
        }
    }
}

/// A parked job as a (zero- or one-element) sequence, in parking order.
pub open spec fn park_seq(p: Option<JobView>) -> Seq<JobView> {
    match p {
        Some(j) => seq![j],
        None => Seq::empty(),
    }
}

/// Weight of one step: how much same-cycle work it can still cause. A spawn
/// weighs strictly more than the whole job it spawns.
pub open spec fn step_weight(s: StepView) -> nat {
    match s {
        StepView::Work { .. } => 1,
        StepView::Suspend => 1,
        StepView::Spawn { child } => 2 + child.tags.len(),
    }
}

/// Total weight of the steps of a program from position `pc` on.
pub open spec fn suffix_weight(steps: Seq<StepView>, pc: nat) -> nat
    decreases steps.len() - pc,
{
    if pc >= steps.len() {
        0
    } else {
        step_weight(steps[pc as int]) + suffix_weight(steps, pc + 1)
    }
}

/// Weight of a job: always at least one, so that handling it makes progress.
pub open spec fn job_weight(j: JobView) -> nat {
    1 + suffix_weight(j.steps, j.pc)
}

/// Total weight of a backlog of jobs.
pub open spec fn backlog_weight(jobs: Seq<JobView>) -> nat
    decreases jobs.len(),
{
    if jobs.len() == 0 {
        0
    } else {
        job_weight(jobs[0]) + backlog_weight(jobs.drop_first())
    }
}

pub proof fn lemma_backlog_weight_append(a: Seq<JobView>, b: Seq<JobView>)
    ensures
        backlog_weight(a + b) == backlog_weight(a) + backlog_weight(b),
    decreases a.len(),
{
    if a.len() == 0 {
        assert(a + b =~= b);
    } else {
        assert((a + b).drop_first() =~= a.drop_first() + b);
        lemma_backlog_weight_append(a.drop_first(), b);
    }
}

/// The weight of everything a job spawns is strictly below the job's own
/// weight: same-cycle execution of follow-up work cannot go on forever.
pub proof fn lemma_spawned_weight(j: JobView)
    ensures
        backlog_weight(run_job(j).spawned) + 1 <= job_weight(j),
    decreases j.steps.len() - j.pc,
{
    if j.pc >= j.steps.len() {
    } else {
        let next = JobView { id: j.id, steps: j.steps, pc: j.pc + 1 };
        match j.steps[j.pc as int] {
            StepView::Work { .. } => {
                lemma_spawned_weight(next);
            }
            StepView::Suspend => {
            }
            StepView::Spawn { child } => {
                lemma_spawned_weight(next);
                lemma_child_job_weight(child);
                let cj = child_job(child);
                assert(seq![cj] + run_job(next).spawned =~= run_job(j).spawned);
                assert((seq![cj] + run_job(next).spawned).drop_first()
                    =~= run_job(next).spawned);
                assert(backlog_weight(run_job(j).spawned)
                    == job_weight(cj) + backlog_weight(run_job(next).spawned));
            }
        }
    }
}

/// A spawned job's weight is one more than its number of work units.
pub proof fn lemma_child_job_weight(c: ChildView)
    ensures
        job_weight(child_job(c)) == 1 + c.tags.len(),
{
    lemma_all_work_suffix_weight(child_job(c).steps, 0);
}

proof fn lemma_all_work_suffix_weight(steps: Seq<StepView>, pc: nat)
    requires
        pc <= steps.len(),
        forall|k: int| 0 <= k < steps.len() ==> steps[k] is Work,
    ensures
        suffix_weight(steps, pc) == steps.len() - pc,
    decreases steps.len() - pc,
{
    if pc < steps.len() {
        lemma_all_work_suffix_weight(steps, pc + 1);
    }
}

/// One pump cycle's drain: handle the first job of the backlog, queue what it
/// spawned at the tail, and go on until nothing is left. The trace is the
/// concatenation of each job's own segment, in the order the jobs were taken;
/// the parked output lists the jobs that suspended, in suspension order.
pub open spec fn drain(jobs: Seq<JobView>) -> DrainOutcome
    decreases backlog_weight(jobs),
        via drain_decreases
{
    if jobs.len() == 0 {
        DrainOutcome { trace: Seq::empty(), parked: Seq::empty() }
    } else {
        let r = run_job(jobs[0]);
        let rest = drain(jobs.drop_first() + r.spawned);
        DrainOutcome {
            trace: r.trace + rest.trace,
            parked: park_seq(r.parked) + rest.parked,
        }
    }
}

#[via_fn]
proof fn drain_decreases(jobs: Seq<JobView>) {
    if jobs.len() > 0 {
        lemma_spawned_weight(jobs[0]);
        lemma_backlog_weight_append(jobs.drop_first(), run_job(jobs[0]).spawned);
    }
}

} // verus!
