//! The runtime's guarantees, stated and proved over the cycle semantics:
//! completion of every submitted item, first-in-first-out ordering,
//! same-cycle execution of spawned follow-up work, and exact resumption of
//! suspended jobs.

use vstd::prelude::*;

use crate::model::{
    backlog_weight, child_job, drain, lemma_backlog_weight_append, lemma_spawned_weight,
    run_job, Event, JobView, StepView,
};

verus! {

/// How often the completion event of item `id` occurs in a trace.
pub open spec fn count_completed(t: Seq<Event>, id: u64) -> nat
    decreases t.len(),
{
    if t.len() == 0 {
        0
    } else {
        (if t[0] == (Event::Completed { id }) {
            1nat
        } else {
            0nat
        }) + count_completed(t.drop_first(), id)
    }
}

pub proof fn lemma_count_completed_append(a: Seq<Event>, b: Seq<Event>, id: u64)
    ensures
        count_completed(a + b, id) == count_completed(a, id) + count_completed(b, id),
    decreases a.len(),
{
    if a.len() == 0 {
        assert(a + b =~= b);
    } else {
        assert((a + b).drop_first() =~= a.drop_first() + b);
        lemma_count_completed_append(a.drop_first(), b, id);
    }
}

/// The job will not suspend any more: no suspension point remains ahead of
/// its position.
pub open spec fn no_suspend_from(j: JobView) -> bool {
    forall|q: int| j.pc <= q < j.steps.len() ==> !(j.steps[q] is Suspend)
}

/// The job will not spawn any more follow-up work.
pub open spec fn no_spawn_from(j: JobView) -> bool {
    forall|q: int| j.pc <= q < j.steps.len() ==> !(j.steps[q] is Spawn)
}

/// A freshly submitted item of plain work only: it neither suspends nor
/// spawns.
pub open spec fn plain_job(j: JobView) -> bool {
    j.pc == 0 && forall|q: int| 0 <= q < j.steps.len() ==> j.steps[q] is Work
}

/// Running a job with only work steps ahead completes it: nothing is
/// spawned, nothing is parked, its own completion is logged exactly once and
/// no other item's completion at all.
pub proof fn lemma_all_work_run(j: JobView)
    requires
        forall|q: int| j.pc <= q < j.steps.len() ==> j.steps[q] is Work,
    ensures
        run_job(j).spawned == Seq::<JobView>::empty(),
        run_job(j).parked is None,
        count_completed(run_job(j).trace, j.id) == 1,
        forall|id2: u64| id2 != j.id ==> count_completed(run_job(j).trace, id2) == 0,
    decreases j.steps.len() - j.pc,
{
    if j.pc >= j.steps.len() {
        let t = run_job(j).trace;
        assert(t =~= seq![Event::Completed { id: j.id }]);
        assert(t.drop_first() =~= Seq::<Event>::empty());
        assert forall|id2: u64| id2 != j.id implies count_completed(t, id2) == 0 by {
            assert(t[0] == (Event::Completed { id: j.id }));
            assert(t[0] != (Event::Completed { id: id2 }));
            assert(count_completed(t.drop_first(), id2) == 0);
        }
        assert(t[0] == (Event::Completed { id: j.id }));
        assert(count_completed(t.drop_first(), j.id) == 0);
        assert(count_completed(t, j.id) == 1);
    } else {
        let next = JobView { id: j.id, steps: j.steps, pc: j.pc + 1 };
        lemma_all_work_run(next);
        let tag = j.steps[j.pc as int]->Work_tag;
        let w = Event::Work { id: j.id, tag };
        assert(run_job(j).trace == seq![w] + run_job(next).trace);
        assert forall|id2: u64| count_completed(run_job(j).trace, id2)
            == count_completed(run_job(next).trace, id2) by {
            lemma_count_completed_append(seq![w], run_job(next).trace, id2);
            assert(seq![w].drop_first() =~= Seq::<Event>::empty());
            assert(seq![w][0] == w);
            assert(count_completed(seq![w].drop_first(), id2) == 0);
            assert(count_completed(seq![w], id2) == 0);
        }
    }
}

/// Running a job that does not end up suspended logs its completion at
/// least once.
pub proof fn lemma_run_no_park_completes(j: JobView)
    requires
        run_job(j).parked is None,
    ensures
        count_completed(run_job(j).trace, j.id) >= 1,
    decreases j.steps.len() - j.pc,
{
    if j.pc >= j.steps.len() {
        assert(run_job(j).trace.drop_first() =~= Seq::<Event>::empty());
    } else {
        let next = JobView { id: j.id, steps: j.steps, pc: j.pc + 1 };
        match j.steps[j.pc as int] {
            StepView::Work { tag } => {
                lemma_run_no_park_completes(next);
                lemma_count_completed_append(
                    seq![Event::Work { id: j.id, tag }],
                    run_job(next).trace,
                    j.id,
                );
            }
            StepView::Suspend => {
                assert(false);
            }
            StepView::Spawn { .. } => {
                lemma_run_no_park_completes(next);
            }
        }
    }
}

/// Any job of a backlog that does not suspend — however the others behave —
/// has its completion logged at least once when the backlog is drained.
pub proof fn lemma_completes_in_drain(jobs: Seq<JobView>, i: int)
    requires
        0 <= i < jobs.len(),
        run_job(jobs[i]).parked is None,
    ensures
        count_completed(drain(jobs).trace, jobs[i].id) >= 1,
    decreases backlog_weight(jobs),
{
    let r = run_job(jobs[0]);
    let rest = jobs.drop_first() + r.spawned;
    lemma_count_completed_append(r.trace, drain(rest).trace, jobs[i].id);
    if i == 0 {
        lemma_run_no_park_completes(jobs[0]);
    } else {
        assert(rest[i - 1] == jobs[i]);
        lemma_spawned_weight(jobs[0]);
        lemma_backlog_weight_append(jobs.drop_first(), r.spawned);
        lemma_completes_in_drain(rest, i - 1);
    }
}

/// Whatever a job spawns is plain work from the start.
pub proof fn lemma_spawned_plain(j: JobView, k: int)
    requires
        0 <= k < run_job(j).spawned.len(),
    ensures
        plain_job(run_job(j).spawned[k]),
    decreases j.steps.len() - j.pc,
{
    if j.pc >= j.steps.len() {
    } else {
        let next = JobView { id: j.id, steps: j.steps, pc: j.pc + 1 };
        match j.steps[j.pc as int] {
            StepView::Work { .. } => {
                lemma_spawned_plain(next, k);
            }
            StepView::Suspend => {
            }
            StepView::Spawn { child } => {
                if k == 0 {
                    assert(run_job(j).spawned[0] == child_job(child));
                } else {
                    lemma_spawned_plain(next, k - 1);
                    assert(run_job(j).spawned[k] == run_job(next).spawned[k - 1]);
                }
            }
        }
    }
}

/// Running a job with no suspension point ahead completes it — spawn steps
/// log no event of their own, so the job's completion is logged exactly once
/// and no other item's completion at all.
pub proof fn lemma_no_suspend_run(j: JobView)
    requires
        no_suspend_from(j),
    ensures
        run_job(j).parked is None,
        count_completed(run_job(j).trace, j.id) == 1,
        forall|id2: u64| id2 != j.id ==> count_completed(run_job(j).trace, id2) == 0,
    decreases j.steps.len() - j.pc,
{
    if j.pc >= j.steps.len() {
        lemma_all_work_run(j);
    } else {
        let next = JobView { id: j.id, steps: j.steps, pc: j.pc + 1 };
        match j.steps[j.pc as int] {
            StepView::Work { tag } => {
                lemma_no_suspend_run(next);
                let w = Event::Work { id: j.id, tag };
                assert(run_job(j).trace == seq![w] + run_job(next).trace);
                assert forall|id2: u64| count_completed(run_job(j).trace, id2)
                    == count_completed(run_job(next).trace, id2) by {
                    lemma_count_completed_append(seq![w], run_job(next).trace, id2);
                    assert(seq![w].drop_first() =~= Seq::<Event>::empty());
                    assert(seq![w][0] == w);
                    assert(count_completed(seq![w].drop_first(), id2) == 0);
                    assert(count_completed(seq![w], id2) == 0);
                }
            }
            StepView::Suspend => {
                assert(false);
            }
            StepView::Spawn { .. } => {
                lemma_no_suspend_run(next);
                assert(run_job(j).trace == run_job(next).trace);
            }
        }
    }
}

/// No completion of an absent identifier: a backlog of non-suspending jobs,
/// none of which carries `id` and none of which spawns a follow-up task
/// carrying `id`, never logs a completion for `id`.
pub proof fn lemma_absent_id(jobs: Seq<JobView>, id: u64)
    requires
        forall|q: int| 0 <= q < jobs.len() ==> no_suspend_from(#[trigger] jobs[q]),
        forall|q: int| 0 <= q < jobs.len() ==> jobs[q].id != id,
        forall|q: int, k: int|
            0 <= q < jobs.len() && 0 <= k < run_job(jobs[q]).spawned.len()
                ==> (#[trigger] run_job(jobs[q]).spawned[k]).id != id,
    ensures
        count_completed(drain(jobs).trace, id) == 0,
    decreases backlog_weight(jobs),
{
    if jobs.len() > 0 {
        let r = run_job(jobs[0]);
        lemma_no_suspend_run(jobs[0]);
        let d = jobs.drop_first();
        let rest = d + r.spawned;
        lemma_count_completed_append(r.trace, drain(rest).trace, id);
        assert(forall|q: int| 0 <= q < d.len() ==> rest[q] == jobs[q + 1]);
        assert(forall|q: int| d.len() <= q < rest.len()
            ==> rest[q] == r.spawned[q - d.len()]);
        assert forall|q: int| 0 <= q < rest.len() implies no_suspend_from(#[trigger] rest[q]) by {
            if q >= d.len() {
                lemma_spawned_plain(jobs[0], q - d.len());
            }
        }
        assert forall|q: int, k: int|
            0 <= q < rest.len() && 0 <= k < run_job(rest[q]).spawned.len()
            implies (#[trigger] run_job(rest[q]).spawned[k]).id != id by {
            if q >= d.len() {
                lemma_spawned_plain(jobs[0], q - d.len());
                lemma_all_work_run(rest[q]);
            }
        }
        lemma_spawned_weight(jobs[0]);
        lemma_backlog_weight_append(d, r.spawned);
        lemma_absent_id(rest, id);
    }
}

proof fn lemma_unique_completion(jobs: Seq<JobView>, i: int, id: u64)
    requires
        forall|q: int| 0 <= q < jobs.len() ==> no_suspend_from(#[trigger] jobs[q]),
        0 <= i < jobs.len(),
        jobs[i].id == id,
        forall|q: int| 0 <= q < jobs.len() && q != i ==> jobs[q].id != id,
        forall|q: int, k: int|
            0 <= q < jobs.len() && 0 <= k < run_job(jobs[q]).spawned.len()
                ==> (#[trigger] run_job(jobs[q]).spawned[k]).id != id,
    ensures
        count_completed(drain(jobs).trace, id) == 1,
    decreases backlog_weight(jobs),
{
    let r = run_job(jobs[0]);
    lemma_no_suspend_run(jobs[0]);
    let d = jobs.drop_first();
    let rest = d + r.spawned;
    assert(forall|q: int| 0 <= q < d.len() ==> rest[q] == jobs[q + 1]);
    assert(forall|q: int| d.len() <= q < rest.len()
        ==> rest[q] == r.spawned[q - d.len()]);
    assert forall|q: int| 0 <= q < rest.len() implies no_suspend_from(#[trigger] rest[q]) by {
        if q >= d.len() {
            lemma_spawned_plain(jobs[0], q - d.len());
        }
    }
    assert forall|q: int, k: int|
        0 <= q < rest.len() && 0 <= k < run_job(rest[q]).spawned.len()
        implies (#[trigger] run_job(rest[q]).spawned[k]).id != id by {
        if q < d.len() {
            assert(rest[q] == jobs[q + 1]);
        } else {
            lemma_spawned_plain(jobs[0], q - d.len());
            lemma_all_work_run(rest[q]);
        }
    }
    lemma_count_completed_append(r.trace, drain(rest).trace, id);
    if i == 0 {
        assert forall|q: int| 0 <= q < rest.len() implies rest[q].id != id by {
            if q < d.len() {
                assert(rest[q] == jobs[q + 1]);
            }
        }
        lemma_absent_id(rest, id);
    } else {
        assert(rest[i - 1] == jobs[i]);
        assert forall|q: int| 0 <= q < rest.len() && q != i - 1 implies rest[q].id != id by {
            if q < d.len() {
                assert(rest[q] == jobs[q + 1]);
            }
        }
        lemma_spawned_weight(jobs[0]);
        lemma_backlog_weight_append(d, r.spawned);
        lemma_unique_completion(rest, i - 1, id);
    }
}

/// Every submitted item reaches completion exactly once. In a backlog with
/// no suspension points, distinct identifiers, and follow-up tasks that
/// reuse no submitted identifier, one cycle logs each item's completion
/// event exactly once: no item is lost and none is executed twice.
pub proof fn law_runs_to_completion_once(jobs: Seq<JobView>, i: int)
    requires
        forall|q: int| 0 <= q < jobs.len() ==> no_suspend_from(#[trigger] jobs[q]),
        forall|a: int, b: int| 0 <= a < b < jobs.len() ==> jobs[a].id != jobs[b].id,
        forall|q: int, k: int|
            0 <= q < jobs.len() && 0 <= k < run_job(jobs[q]).spawned.len()
                ==> (#[trigger] run_job(jobs[q]).spawned[k]).id != jobs[i].id,
        0 <= i < jobs.len(),
    ensures
        count_completed(drain(jobs).trace, jobs[i].id) == 1,
{
    lemma_unique_completion(jobs, i, jobs[i].id);
}

/// The concatenation of each job's own trace segment, in backlog order.
pub open spec fn traces_concat(jobs: Seq<JobView>) -> Seq<Event>
    decreases jobs.len(),
{
    if jobs.len() == 0 {
        Seq::empty()
    } else {
        run_job(jobs[0]).trace + traces_concat(jobs.drop_first())
    }
}

proof fn lemma_no_spawn_run(j: JobView)
    requires
        no_spawn_from(j),
    ensures
        run_job(j).spawned == Seq::<JobView>::empty(),
    decreases j.steps.len() - j.pc,
{
    if j.pc < j.steps.len() {
        let next = JobView { id: j.id, steps: j.steps, pc: j.pc + 1 };
        match j.steps[j.pc as int] {
            StepView::Work { .. } => lemma_no_spawn_run(next),
            StepView::Suspend => {
            }
            StepView::Spawn { .. } => {
                assert(j.steps[j.pc as int] is Spawn);
            }
        }
    }
}

/// First-in-first-out ordering. When no job spawns same-cycle follow-up
/// work, the cycle's trace is exactly each job's own segment in submission
/// order: an item submitted earlier begins — and finishes its segment —
/// before any item submitted later begins.
pub proof fn law_fifo_order(jobs: Seq<JobView>)
    requires
        forall|q: int| 0 <= q < jobs.len() ==> no_spawn_from(#[trigger] jobs[q]),
    ensures
        drain(jobs).trace == traces_concat(jobs),
    decreases jobs.len(),
{
    if jobs.len() > 0 {
        lemma_no_spawn_run(jobs[0]);
        let rest = jobs.drop_first() + run_job(jobs[0]).spawned;
        assert(rest =~= jobs.drop_first());
        assert(forall|q: int| 0 <= q < rest.len() ==> rest[q] == jobs[q + 1]);
        law_fifo_order(rest);
    }
}

/// Same-cycle execution of spawned work: a follow-up task submitted while
/// its parent runs is driven to completion within the very cycle that ran
/// the parent — its completion event is in this cycle's trace.
pub proof fn law_spawn_same_cycle(jobs: Seq<JobView>, i: int, k: int)
    requires
        0 <= i < jobs.len(),
        0 <= k < run_job(jobs[i]).spawned.len(),
    ensures
        count_completed(drain(jobs).trace, run_job(jobs[i]).spawned[k].id) >= 1,
    decreases backlog_weight(jobs),
{
    let r = run_job(jobs[0]);
    let rest = jobs.drop_first() + r.spawned;
    if i == 0 {
        let child = r.spawned[k];
        let ci = jobs.drop_first().len() + k;
        assert(rest[ci] == child);
        lemma_spawned_plain(jobs[0], k);
        lemma_all_work_run(child);
        lemma_completes_in_drain(rest, ci);
        lemma_count_completed_append(r.trace, drain(rest).trace, child.id);
    } else {
        assert(rest[i - 1] == jobs[i]);
        lemma_spawned_weight(jobs[0]);
        lemma_backlog_weight_append(jobs.drop_first(), r.spawned);
        law_spawn_same_cycle(rest, i - 1, k);
        lemma_count_completed_append(r.trace, drain(rest).trace, run_job(jobs[i]).spawned[k].id);
    }
}

/// Suspension parks the job with its exact progress: it keeps its identity
/// and program, and resumes one step past its first remaining suspension
/// point — everything before that point has run and is never run again,
/// since a resumed job only reads the steps from its position on.
pub proof fn law_suspend_resume(j: JobView)
    requires
        run_job(j).parked is Some,
    ensures
        ({
            let p = run_job(j).parked->Some_0;
            &&& p.id == j.id
            &&& p.steps == j.steps
            &&& j.pc < p.pc <= j.steps.len()
            &&& j.steps[p.pc - 1] is Suspend
            &&& forall|q: int| j.pc <= q < p.pc - 1 ==> !(j.steps[q] is Suspend)
        }),
    decreases j.steps.len() - j.pc,
{
    let next = JobView { id: j.id, steps: j.steps, pc: j.pc + 1 };
    if j.steps[j.pc as int] is Suspend {
    } else {
        law_suspend_resume(next);
    }
}

/// The idle cycle does nothing: draining an empty backlog yields no events
/// and parks nothing, so an empty pump's only observable effects are the
/// mandatory yield checkpoint and, at most once, the lazy construction of
/// the execution context.
pub proof fn law_empty_cycle()
    ensures
        drain(Seq::<JobView>::empty()).trace == Seq::<Event>::empty(),
        drain(Seq::<JobView>::empty()).parked == Seq::<JobView>::empty(),
{
}

} // verus!
