//! Executable work items: resumable programs made of explicit steps, so that
//! suspension points and follow-up submissions are visible and testable.

use vstd::prelude::*;

use crate::model::{child_job, ChildView, JobView, StepView};

verus! {

/// A follow-up task submitted from within a running item: a list of plain
/// units of work, labelled by tags.
pub struct ChildTask {
    pub id: u64,
    pub tags: Vec<u64>,
}

impl View for ChildTask {
    type V = ChildView;

    open spec fn view(&self) -> ChildView {
        ChildView { id: self.id, tags: self.tags@ }
    }
}

/// One step of a work item's program.
pub enum Step {
    /// Perform the unit of work labelled by the tag.
    Work(u64),
    /// Yield control back to the executor until the next pump cycle.
    Suspend,
    /// Submit a follow-up task to the queue.
    Spawn(ChildTask),
}

impl View for Step {
    type V = StepView;

    open spec fn view(&self) -> StepView {
        match self {
            Step::Work(tag) => StepView::Work { tag: *tag },
            Step::Suspend => StepView::Suspend,
            Step::Spawn(c) => StepView::Spawn { child: c@ },
        }
    }
}

/// One unit of asynchronous work: an identifier and the program it runs.
/// Once submitted it is owned by the queue, then by the executor, until it
/// completes and is discarded.
pub struct WorkItem {
    pub id: u64,
    pub steps: Vec<Step>,
}

impl View for WorkItem {
    type V = JobView;

    open spec fn view(&self) -> JobView {
        JobView {
            id: self.id,
            steps: self.steps@.map_values(|s: Step| s@),
            pc: 0,
        }
    }
}

/// Builds the work item a spawned follow-up task stands for: one work step
/// per tag, starting from the beginning.
pub fn child_item(c: &ChildTask) -> (it: WorkItem)
    ensures
        it@ == child_job(c@),
{
    let mut steps: Vec<Step> = Vec::new();
    let mut k: usize = 0;
    while k < c.tags.len()
        invariant
            k <= c.tags.len(),
            steps@.map_values(|s: Step| s@)
                =~= c.tags@.take(k as int).map_values(|t: u64| StepView::Work { tag: t }),
        decreases c.tags.len() - k,
    {
        let ghost prev = steps@;
        steps.push(Step::Work(c.tags[k]));
        proof {
            let f = |s: Step| s@;
            let g = |t: u64| StepView::Work { tag: t };
            assert(steps@.map_values(f) =~= prev.map_values(f).push(g(c.tags@[k as int])));
            assert(c.tags@.take(k as int + 1).map_values(g)
                =~= c.tags@.take(k as int).map_values(g).push(g(c.tags@[k as int])));
        }
        k = k + 1;
    }
    proof {
        assert(c.tags@.take(c.tags@.len() as int) =~= c.tags@);
        assert(steps@.map_values(|s: Step| s@)
            =~= c.tags@.map_values(|t: u64| StepView::Work { tag: t }));
    }
    WorkItem { id: c.id, steps }
}

} // verus!
