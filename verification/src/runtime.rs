//! The runtime handle: a FIFO task queue, the lazily-created execution
//! context, the parked (suspended) jobs, and the pump that drains one cycle.

use vstd::prelude::*;

use crate::model::{
    drain, job_weight, park_seq, run_job, backlog_weight, lemma_backlog_weight_append,
    lemma_spawned_weight, Event, JobView,
};
use crate::task::{child_item, Step, WorkItem};
use crate::tokio_rt::{new_runtime, yield_checkpoint};

verus! {

/// The one fatal failure of this layer: the execution context could not be
/// constructed on the first pump call. Unrecoverable; pending work is kept,
/// not silently discarded.
#[derive(Clone, Copy, PartialEq, Eq, Structural, Debug)]
pub enum FatalError {
    ExecutorInit,
}

/// A job that suspended mid-execution: the executor alone remembers it,
/// together with how far it got, until a later cycle resumes it.
struct ParkedJob {
    id: u64,
    steps: Vec<Step>,
    pc: usize,
}

impl View for ParkedJob {
    type V = JobView;

    closed spec fn view(&self) -> JobView {
        JobView {
            id: self.id,
            steps: self.steps@.map_values(|s: Step| s@),
            pc: self.pc as nat,
        }
    }
}

/// Abstract state of the runtime handle.
pub ghost struct RuntimeView {
    /// The execution context, once the first pump call has built it.
    pub ctx: Option<tokio::runtime::Runtime>,
    /// Not-yet-started jobs, in submission order.
    pub queue: Seq<JobView>,
    /// Suspended jobs, in suspension order, invisible to the queue.
    pub parked: Seq<JobView>,
    /// The observable execution log.
    pub log: Seq<Event>,
    /// How many end-of-cycle yield checkpoints have run.
    pub yields: u64,
}

/// The runtime: owned by the host's main-loop object on its designated
/// thread, which alone submits work and pumps.
pub struct PumpRuntime {
    ctx: Option<tokio::runtime::Runtime>,
    queue: Vec<WorkItem>,
    parked: Vec<ParkedJob>,
    log: Vec<Event>,
    yields: u64,
}

impl View for PumpRuntime {
    type V = RuntimeView;

    closed spec fn view(&self) -> RuntimeView {
        RuntimeView {
            ctx: self.ctx,
            queue: self.queue@.map_values(|it: WorkItem| it@),
            parked: self.parked@.map_values(|p: ParkedJob| p@),
            log: self.log@,
            yields: self.yields,
        }
    }
}

impl PumpRuntime {
    /// A fresh runtime: empty queue, nothing parked, nothing logged, and no
    /// execution context yet (it is built lazily by the first pump call).
    pub fn new() -> (rt: PumpRuntime)
        ensures
            rt@.ctx is None,
            rt@.queue == Seq::<JobView>::empty(),
            rt@.parked == Seq::<JobView>::empty(),
            rt@.log == Seq::<Event>::empty(),
            rt@.yields == 0,
    {
        let rt = PumpRuntime {
            ctx: None,
            queue: Vec::new(),
            parked: Vec::new(),
            log: Vec::new(),
            yields: 0,
        };
        proof {
            assert(rt@.queue =~= Seq::<JobView>::empty());
            assert(rt@.parked =~= Seq::<JobView>::empty());
        }
        rt
    }

    /// Appends one work item to the task queue. Submission cannot fail and
    /// touches nothing but the queue, whose length grows by one.
    pub fn spawn_task(&mut self, item: WorkItem)
        ensures
            final(self)@.queue == old(self)@.queue.push(item@),
            final(self)@.parked == old(self)@.parked,
            final(self)@.log == old(self)@.log,
            final(self)@.yields == old(self)@.yields,
            final(self)@.ctx == old(self)@.ctx,
    {
        let ghost prev = self.queue@;
        let ghost iv = item@;
        self.queue.push(item);
        proof {
            assert(self.queue@.map_values(|it: WorkItem| it@)
                =~= prev.map_values(|it: WorkItem| it@).push(iv));
        }
    }

    /// Removes and returns the oldest queued item, or reports the queue
    /// empty. Removal order is first-in-first-out, held invariant.
    pub fn take_next(&mut self) -> (r: Option<WorkItem>)
        ensures
            old(self)@.queue.len() == 0 ==> r is None && final(self)@ == old(self)@,
            old(self)@.queue.len() > 0 ==> {
                &&& r is Some
                &&& r->Some_0@ == old(self)@.queue[0]
                &&& final(self)@.queue == old(self)@.queue.drop_first()
                &&& final(self)@.parked == old(self)@.parked
                &&& final(self)@.log == old(self)@.log
                &&& final(self)@.yields == old(self)@.yields
                &&& final(self)@.ctx == old(self)@.ctx
            },
    {
        if self.queue.len() == 0 {
            None
        } else {
            let ghost prev = self.queue@;
            let it = self.queue.remove(0);
            proof {
                assert(self.queue@.map_values(|w: WorkItem| w@)
                    =~= prev.map_values(|w: WorkItem| w@).drop_first());
            }
            Some(it)
        }
    }

    /// Installs the outcome of constructing the execution context. On an
    /// error the runtime reports the fatal state and keeps all pending work;
    /// an existing context is never replaced, so this asks for none.
    pub fn install_context(
        &mut self,
        built: Result<tokio::runtime::Runtime, std::io::Error>,
    ) -> (r: Result<(), FatalError>)
        requires
            old(self)@.ctx is None,
        ensures
            built is Ok ==> {
                &&& r is Ok
                &&& final(self)@.ctx == Some(built->Ok_0)
                &&& final(self)@.queue == old(self)@.queue
                &&& final(self)@.parked == old(self)@.parked
                &&& final(self)@.log == old(self)@.log
                &&& final(self)@.yields == old(self)@.yields
            },
            built is Err ==> r == Err::<(), FatalError>(FatalError::ExecutorInit)
                && final(self)@ == old(self)@,
    {
        match built {
            Ok(rt) => {
                self.ctx = Some(rt);
                Ok(())
            }
            Err(_) => Err(FatalError::ExecutorInit),
        }
    }

    /// Runs one job from `pc` to its next suspension point or to completion:
    /// work steps are logged in order, spawned follow-up tasks join the tail
    /// of the queue, and a suspension parks the job with its progress.
    fn run_job_exec(&mut self, id: u64, steps: Vec<Step>, pc: usize)
        ensures
            ({
                let out = run_job(JobView {
                    id,
                    steps: steps@.map_values(|s: Step| s@),
                    pc: pc as nat,
                });
                &&& final(self)@.log == old(self)@.log + out.trace
                &&& final(self)@.queue == old(self)@.queue + out.spawned
                &&& final(self)@.parked == old(self)@.parked + park_seq(out.parked)
                &&& final(self)@.yields == old(self)@.yields
                &&& final(self)@.ctx == old(self)@.ctx
            }),
    {
        let ghost stepsv = steps@.map_values(|s: Step| s@);
        let ghost j0 = JobView { id, steps: stepsv, pc: pc as nat };
        let ghost mut tdone: Seq<Event> = Seq::empty();
        let ghost mut sdone: Seq<JobView> = Seq::empty();
        let mut i: usize = pc;
        while i < steps.len()
            invariant
                steps@.map_values(|s: Step| s@) == stepsv,
                j0 == (JobView { id, steps: stepsv, pc: pc as nat }),
                run_job(j0).trace == tdone
                    + run_job(JobView { id, steps: stepsv, pc: i as nat }).trace,
                run_job(j0).spawned == sdone
                    + run_job(JobView { id, steps: stepsv, pc: i as nat }).spawned,
                run_job(j0).parked
                    == run_job(JobView { id, steps: stepsv, pc: i as nat }).parked,
                self@.log == old(self)@.log + tdone,
                self@.queue == old(self)@.queue + sdone,
                self@.parked == old(self)@.parked,
                self@.yields == old(self)@.yields,
                self@.ctx == old(self)@.ctx,
            decreases steps.len() - i,
        {
            let ghost ji = JobView { id, steps: stepsv, pc: i as nat };
            let ghost jn = JobView { id, steps: stepsv, pc: i as nat + 1 };
            let mut suspend = false;
            match &steps[i] {
                Step::Work(tag) => {
                    let t: u64 = *tag;
                    self.log.push(Event::Work { id, tag: t });
                    proof {
                        assert(run_job(ji).trace
                            =~= seq![Event::Work { id, tag: t }] + run_job(jn).trace);
                        tdone = tdone.push(Event::Work { id, tag: t });
                        assert(run_job(j0).trace =~= tdone + run_job(jn).trace);
                    }
                }
                Step::Suspend => {
                    self.log.push(Event::Suspended { id });
                    proof {
                        tdone = tdone.push(Event::Suspended { id });
                        assert(run_job(j0).trace =~= tdone);
                    }
                    suspend = true;
                }
                Step::Spawn(c) => {
                    let it = child_item(c);
                    let ghost itv = it@;
                    let ghost prevq = self.queue@;
                    self.queue.push(it);
                    proof {
                        assert(self.queue@.map_values(|w: WorkItem| w@)
                            =~= prevq.map_values(|w: WorkItem| w@).push(itv));
                        assert(run_job(ji).spawned =~= seq![itv] + run_job(jn).spawned);
                        sdone = sdone.push(itv);
                        assert(run_job(j0).spawned =~= sdone + run_job(jn).spawned);
                    }
                }
            }
            i = i + 1;
            if suspend {
                let ghost prevp = self.parked@;
                let pj = ParkedJob { id, steps, pc: i };
                let ghost pjv = pj@;
                self.parked.push(pj);
                proof {
                    assert(self.parked@.map_values(|p: ParkedJob| p@)
                        =~= prevp.map_values(|p: ParkedJob| p@).push(pjv));
                    let jprev = JobView { id, steps: stepsv, pc: (i - 1) as nat };
                    assert(run_job(j0).parked == run_job(jprev).parked);
                    assert(run_job(jprev).parked == Some(pjv));
                    assert(run_job(j0).spawned =~= sdone);
                    assert(old(self)@.parked + park_seq(run_job(j0).parked)
                        =~= old(self)@.parked.push(pjv));
                }
                return;
            }
        }
        self.log.push(Event::Completed { id });
        proof {
            let ji = JobView { id, steps: stepsv, pc: i as nat };
            assert(run_job(ji).trace =~= seq![Event::Completed { id }]);
            assert(run_job(j0).trace =~= tdone.push(Event::Completed { id }));
            assert(run_job(j0).spawned =~= sdone);
            assert(run_job(j0).parked is None);
            assert(old(self)@.parked + park_seq(run_job(j0).parked) =~= old(self)@.parked);
        }
    }

    /// One pump cycle. On the first call only, the execution context is
    /// constructed; if that fails the call reports the fatal state and keeps
    /// every pending item, touching nothing. Otherwise every job parked in an
    /// earlier cycle is resumed, then the queue is drained through
    /// `take_next` until it reports empty — follow-up tasks submitted by
    /// running jobs join the queue and run within this same call — and one
    /// cooperative yield checkpoint closes the cycle before control returns
    /// to the host, which alone schedules the next cycle. Re-entrant pumping
    /// is ruled out by the exclusive borrow: no running job can reach the
    /// handle that is pumping it.
    pub fn pump(&mut self) -> (r: Result<(), FatalError>)
        ensures
            ({
                let out = drain(old(self)@.parked + old(self)@.queue);
                match r {
                    Ok(_) => {
                        &&& final(self)@.queue == Seq::<JobView>::empty()
                        &&& final(self)@.parked == out.parked
                        &&& final(self)@.log == old(self)@.log + out.trace
                        &&& final(self)@.ctx is Some
                        &&& (old(self)@.ctx is Some ==> final(self)@.ctx == old(self)@.ctx)
                        &&& final(self)@.yields == (if old(self)@.yields < u64::MAX {
                            (old(self)@.yields + 1) as u64
                        } else {
                            old(self)@.yields
                        })
                    }
                    Err(e) => {
                        &&& e == FatalError::ExecutorInit
                        &&& old(self)@.ctx is None
                        &&& final(self)@ == old(self)@
                    }
                }
            }),
    {
        if self.ctx.is_none() {
            let built = new_runtime();
            match self.install_context(built) {
                Ok(_) => {}
                Err(e) => {
                    return Err(e);
                }
            }
        }
        let ghost ctx1 = self@.ctx;
        let ghost backlog0 = old(self)@.parked + old(self)@.queue;
        let ghost parked0 = self@.parked;
        let ghost mut newparks: Seq<JobView> = Seq::empty();
        let ghost mut tdone: Seq<Event> = Seq::empty();
        proof {
            assert(parked0.skip(0) + self@.queue =~= backlog0);
            assert(parked0.skip(0) + newparks =~= self@.parked);
            assert(Seq::<Event>::empty() + drain(backlog0).trace =~= drain(backlog0).trace);
            assert(Seq::<JobView>::empty() + drain(backlog0).parked =~= drain(backlog0).parked);
            assert(old(self)@.log + tdone =~= old(self)@.log);
        }
        // resume phase: every job parked in an earlier cycle runs once more
        let n = self.parked.len();
        let mut k: usize = 0;
        while k < n
            invariant
                k <= n,
                n == parked0.len(),
                ctx1 is Some,
                self@.ctx == ctx1,
                self@.yields == old(self)@.yields,
                self@.parked == parked0.skip(k as int) + newparks,
                self@.log == old(self)@.log + tdone,
                drain(backlog0).trace == tdone
                    + drain(parked0.skip(k as int) + self@.queue).trace,
                drain(backlog0).parked == newparks
                    + drain(parked0.skip(k as int) + self@.queue).parked,
            decreases n - k,
        {
            let ghost qk = self@.queue;
            let ghost remk = parked0.skip(k as int) + qk;
            let ghost prevpark = self.parked@;
            proof {
                assert(self@.parked == parked0.skip(k as int) + newparks);
                assert(self@.parked.len() > 0);
                assert(self@.parked == self.parked@.map_values(|p: ParkedJob| p@));
                assert(self.parked@.len() > 0);
            }
            let pj = self.parked.remove(0);
            proof {
                assert(prevpark.map_values(|p: ParkedJob| p@)
                    == parked0.skip(k as int) + newparks);
                assert(pj == prevpark[0]);
                assert(prevpark.len() > 0);
                assert(prevpark.map_values(|p: ParkedJob| p@)[0] == prevpark[0]@);
                assert((parked0.skip(k as int) + newparks)[0] == parked0[k as int]);
                assert(pj@ == parked0[k as int]);
                assert(self.parked@.map_values(|p: ParkedJob| p@)
                    =~= prevpark.map_values(|p: ParkedJob| p@).drop_first());
                assert(self@.parked =~= parked0.skip(k as int + 1) + newparks);
            }
            let ParkedJob { id, steps, pc } = pj;
            let ghost jv = JobView {
                id,
                steps: steps@.map_values(|s: Step| s@),
                pc: pc as nat,
            };
            proof {
                assert(jv == parked0[k as int]);
                assert(remk[0] == jv);
            }
            self.run_job_exec(id, steps, pc);
            proof {
                let out = run_job(jv);
                assert(drain(remk).trace
                    == out.trace + drain(remk.drop_first() + out.spawned).trace);
                assert(drain(remk).parked
                    == park_seq(out.parked) + drain(remk.drop_first() + out.spawned).parked);
                assert(remk.drop_first() + out.spawned
                    =~= parked0.skip(k as int + 1) + self@.queue);
                assert(self@.parked
                    =~= parked0.skip(k as int + 1) + (newparks + park_seq(out.parked)));
                tdone = tdone + out.trace;
                newparks = newparks + park_seq(out.parked);
                assert(self@.log =~= old(self)@.log + tdone);
                assert(drain(backlog0).trace =~= tdone
                    + drain(parked0.skip(k as int + 1) + self@.queue).trace);
                assert(drain(backlog0).parked =~= newparks
                    + drain(parked0.skip(k as int + 1) + self@.queue).parked);
            }
            k = k + 1;
        }
        proof {
            assert(parked0.skip(n as int) =~= Seq::<JobView>::empty());
            assert(parked0.skip(n as int) + self@.queue =~= self@.queue);
            assert(self@.parked =~= newparks);
        }
        // drain phase: take from the queue until it reports empty
        while self.queue.len() != 0
            invariant
                ctx1 is Some,
                self@.ctx == ctx1,
                self@.yields == old(self)@.yields,
                self@.parked == newparks,
                self@.log == old(self)@.log + tdone,
                drain(backlog0).trace == tdone + drain(self@.queue).trace,
                drain(backlog0).parked == newparks + drain(self@.queue).parked,
            decreases backlog_weight(self@.queue),
        {
            let ghost qk = self@.queue;
            let r = self.take_next();
            match r {
                Some(item) => {
                    let ghost jv = item@;
                    proof {
                        assert(jv == qk[0]);
                    }
                    let WorkItem { id, steps } = item;
                    proof {
                        assert(jv == (JobView {
                            id,
                            steps: steps@.map_values(|s: Step| s@),
                            pc: 0,
                        }));
                    }
                    self.run_job_exec(id, steps, 0);
                    proof {
                        let out = run_job(jv);
                        assert(drain(qk).trace
                            == out.trace + drain(qk.drop_first() + out.spawned).trace);
                        assert(drain(qk).parked
                            == park_seq(out.parked)
                                + drain(qk.drop_first() + out.spawned).parked);
                        assert(qk.drop_first() + out.spawned =~= self@.queue);
                        assert(self@.parked =~= newparks + park_seq(out.parked));
                        tdone = tdone + out.trace;
                        newparks = newparks + park_seq(out.parked);
                        assert(self@.log =~= old(self)@.log + tdone);
                        assert(drain(backlog0).trace =~= tdone + drain(self@.queue).trace);
                        assert(drain(backlog0).parked
                            =~= newparks + drain(self@.queue).parked);
                        lemma_spawned_weight(jv);
                        lemma_backlog_weight_append(qk.drop_first(), out.spawned);
                        assert(backlog_weight(qk)
                            == job_weight(qk[0]) + backlog_weight(qk.drop_first()));
                        assert(backlog_weight(self@.queue) < backlog_weight(qk));
                    }
                }
                None => {
                    proof {
                        assert(false);
                    }
                }
            }
        }
        proof {
            assert(self@.queue =~= Seq::<JobView>::empty());
            assert(drain(backlog0).trace =~= tdone);
            assert(drain(backlog0).parked =~= newparks);
        }
        // the cycle's well-defined end: one deliberate cooperative yield
        if self.yields < u64::MAX {
            self.yields = self.yields + 1;
        }
        match &self.ctx {
            Some(rt) => yield_checkpoint(rt),
            None => {}
        }
        Ok(())
    }

    /// How many items wait in the queue.
    pub fn queue_len(&self) -> (n: usize)
        ensures
            n == self@.queue.len(),
    {
        self.queue.len()
    }

    /// How many suspended jobs the executor holds for later cycles.
    pub fn parked_len(&self) -> (n: usize)
        ensures
            n == self@.parked.len(),
    {
        self.parked.len()
    }

    /// The observable execution log, oldest event first.
    pub fn log(&self) -> (l: &Vec<Event>)
        ensures
            l@ == self@.log,
    {
        &self.log
    }

    /// How many end-of-cycle yield checkpoints have run.
    pub fn yield_count(&self) -> (n: u64)
        ensures
            n == self@.yields,
    {
        self.yields
    }

    /// Whether the execution context has been constructed yet.
    pub fn is_initialized(&self) -> (b: bool)
        ensures
            b == (self@.ctx is Some),
    {
        self.ctx.is_some()
    }
}

} // verus!
