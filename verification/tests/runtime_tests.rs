use pump_runtime::model::Event;
use pump_runtime::runtime::{FatalError, PumpRuntime};
use pump_runtime::task::{ChildTask, Step, WorkItem};

fn work_item(id: u64, tags: &[u64]) -> WorkItem {
    let mut steps = Vec::new();
    for &t in tags {
        steps.push(Step::Work(t));
    }
    WorkItem { id, steps }
}

#[test]
fn every_item_completes_exactly_once() {
    let mut rt = PumpRuntime::new();
    rt.spawn_task(work_item(1, &[10]));
    rt.spawn_task(work_item(2, &[20, 21]));
    rt.spawn_task(work_item(3, &[]));
    rt.spawn_task(WorkItem {
        id: 4,
        steps: vec![Step::Spawn(ChildTask { id: 5, tags: vec![50] })],
    });
    assert_eq!(rt.queue_len(), 4);
    rt.pump().expect("pump");
    assert_eq!(rt.queue_len(), 0);
    for id in [1u64, 2, 3, 4, 5] {
        let n = rt
            .log()
            .iter()
            .filter(|e| **e == Event::Completed { id })
            .count();
        assert_eq!(n, 1, "item {} must complete exactly once", id);
    }
}

#[test]
fn fifo_order_within_one_pump() {
    let mut rt = PumpRuntime::new();
    rt.spawn_task(work_item(1, &[10]));
    rt.spawn_task(work_item(2, &[20]));
    rt.pump().expect("pump");
    assert_eq!(
        rt.log(),
        &vec![
            Event::Work { id: 1, tag: 10 },
            Event::Completed { id: 1 },
            Event::Work { id: 2, tag: 20 },
            Event::Completed { id: 2 },
        ]
    );
}

#[test]
fn take_next_is_first_in_first_out() {
    let mut rt = PumpRuntime::new();
    rt.spawn_task(work_item(7, &[]));
    rt.spawn_task(work_item(8, &[]));
    assert_eq!(rt.take_next().map(|it| it.id), Some(7));
    assert_eq!(rt.take_next().map(|it| it.id), Some(8));
    assert!(rt.take_next().is_none());
}

#[test]
fn empty_pumps_initialize_once_and_only_yield() {
    let mut rt = PumpRuntime::new();
    assert!(!rt.is_initialized());
    assert_eq!(rt.yield_count(), 0);
    rt.pump().expect("first pump");
    assert!(rt.is_initialized());
    assert_eq!(rt.yield_count(), 1);
    assert!(rt.log().is_empty());
    rt.pump().expect("second pump");
    assert!(rt.is_initialized());
    assert_eq!(rt.yield_count(), 2);
    assert!(rt.log().is_empty());
    assert_eq!(rt.queue_len(), 0);
    assert_eq!(rt.parked_len(), 0);
}

#[test]
fn spawned_child_completes_in_same_pump() {
    let mut rt = PumpRuntime::new();
    let item = WorkItem {
        id: 1,
        steps: vec![
            Step::Work(10),
            Step::Spawn(ChildTask { id: 9, tags: vec![90, 91] }),
            Step::Work(11),
        ],
    };
    rt.spawn_task(item);
    rt.pump().expect("pump");
    // the parent runs uninterrupted to completion, then the child it
    // submitted runs within the same call
    assert_eq!(
        rt.log(),
        &vec![
            Event::Work { id: 1, tag: 10 },
            Event::Work { id: 1, tag: 11 },
            Event::Completed { id: 1 },
            Event::Work { id: 9, tag: 90 },
            Event::Work { id: 9, tag: 91 },
            Event::Completed { id: 9 },
        ]
    );
}

#[test]
fn suspended_item_resumes_next_pump_without_rerunning() {
    let mut rt = PumpRuntime::new();
    let item = WorkItem {
        id: 4,
        steps: vec![Step::Work(40), Step::Suspend, Step::Work(41)],
    };
    rt.spawn_task(item);
    rt.pump().expect("pump one");
    // suspended: parked inside the executor, not back on the queue
    assert_eq!(rt.queue_len(), 0);
    assert_eq!(rt.parked_len(), 1);
    assert_eq!(
        rt.log(),
        &vec![Event::Work { id: 4, tag: 40 }, Event::Suspended { id: 4 }]
    );
    rt.pump().expect("pump two");
    assert_eq!(rt.parked_len(), 0);
    // the second cycle picks up after the suspension point: the work before
    // it does not run again
    assert_eq!(
        rt.log(),
        &vec![
            Event::Work { id: 4, tag: 40 },
            Event::Suspended { id: 4 },
            Event::Work { id: 4, tag: 41 },
            Event::Completed { id: 4 },
        ]
    );
}

#[test]
fn suspended_item_runs_before_new_submissions() {
    let mut rt = PumpRuntime::new();
    rt.spawn_task(WorkItem {
        id: 1,
        steps: vec![Step::Suspend, Step::Work(11)],
    });
    rt.pump().expect("pump one");
    rt.spawn_task(work_item(2, &[20]));
    rt.pump().expect("pump two");
    assert_eq!(
        rt.log(),
        &vec![
            Event::Suspended { id: 1 },
            Event::Work { id: 1, tag: 11 },
            Event::Completed { id: 1 },
            Event::Work { id: 2, tag: 20 },
            Event::Completed { id: 2 },
        ]
    );
}

#[test]
fn failed_context_construction_keeps_pending_work() {
    let mut rt = PumpRuntime::new();
    rt.spawn_task(work_item(1, &[10]));
    let refused = Err(std::io::Error::new(
        std::io::ErrorKind::Other,
        "no execution context",
    ));
    let r = rt.install_context(refused);
    assert_eq!(r, Err(FatalError::ExecutorInit));
    // the fatal state is reported and nothing is silently discarded
    assert!(!rt.is_initialized());
    assert_eq!(rt.queue_len(), 1);
    assert!(rt.log().is_empty());
}

#[test]
fn successful_context_construction_is_kept() {
    let mut rt = PumpRuntime::new();
    let built = tokio::runtime::Runtime::new();
    assert!(built.is_ok());
    let r = rt.install_context(built);
    assert_eq!(r, Ok(()));
    assert!(rt.is_initialized());
    // a later pump keeps the installed context instead of building a new one
    rt.pump().expect("pump");
    assert!(rt.is_initialized());
    assert_eq!(rt.yield_count(), 1);
}

#[test]
fn child_item_builds_the_spawned_program() {
    let c = ChildTask { id: 5, tags: vec![1, 2, 3] };
    let it = pump_runtime::task::child_item(&c);
    assert_eq!(it.id, 5);
    assert_eq!(it.steps.len(), 3);
    assert!(matches!(it.steps[0], Step::Work(1)));
    assert!(matches!(it.steps[2], Step::Work(3)));
}
