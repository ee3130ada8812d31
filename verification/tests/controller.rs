use fusion::config::convert::ConvertTask;
use fusion::converter::controller::dispatch_order;
use fusion::pool::{pool_size, PoolKind, Worker, WorkerEvent, WorkerNext};

fn task(source: &str, size: u64) -> ConvertTask {
    ConvertTask { source: source.into(), destination: "d".into(), source_size: size, script: "s".into() }
}

#[test]
fn smaller_sources_are_dispatched_first() {
    let tasks = vec![task("a", 30), task("b", 10), task("c", 20), task("d", 10), task("e", 0)];
    let order = dispatch_order(&tasks);
    let names: Vec<&str> = order.iter().map(|t| t.source.as_str()).collect();
    // "b" and "d" have the same size and keep their order.
    assert_eq!(names, vec!["e", "b", "d", "c", "a"]);
    let sizes: Vec<u64> = order.iter().map(|t| t.source_size).collect();
    assert_eq!(sizes, vec![0, 10, 10, 20, 30]);
}

#[test]
fn no_task_no_dispatch() {
    assert!(dispatch_order(&vec![]).is_empty());
}

#[test]
fn a_pool_has_a_worker_per_task_up_to_the_limit() {
    assert_eq!(pool_size(3, 5), 3);
    assert_eq!(pool_size(5, 5), 5);
    assert_eq!(pool_size(9, 5), 5);
    assert_eq!(pool_size(0, 5), 0);
}

#[test]
fn a_worker_logs_pulses_and_leaves() {
    let mut worker = Worker::new(2, PoolKind::PdfCombine);
    let action = worker.step(WorkerEvent::Launched);
    assert_eq!(action.log.as_deref(), Some("[INFO] PDF combine worker 2 launch\n"));
    assert!(!action.pulse);
    assert_eq!(action.next, WorkerNext::Receive);

    let action = worker.step(WorkerEvent::Received("final".into()));
    assert_eq!(action.log.as_deref(), Some("[INFO] final pdf combine start\n"));
    assert_eq!(action.next, WorkerNext::Execute);

    let action = worker.step(WorkerEvent::Succeeded);
    assert_eq!(action.log.as_deref(), Some("[INFO] final pdf combine successfully\n"));
    assert!(action.pulse);
    assert_eq!(action.next, WorkerNext::Receive);

    worker.step(WorkerEvent::Received("other".into()));
    let action = worker.step(WorkerEvent::Failed("no pages".into()));
    assert_eq!(
        action.log.as_deref(),
        Some("[ERROR] other pdf combine failed, because: no pages\n")
    );
    assert!(!action.pulse);
    assert_eq!(action.next, WorkerNext::Receive);

    let action = worker.step(WorkerEvent::Closed);
    assert_eq!(action.log.as_deref(), Some("[INFO] PDF combine worker 2 exit\n"));
    assert_eq!(action.next, WorkerNext::Exit);
    assert!(worker.has_exited());
}

#[test]
fn the_pools_have_their_own_words() {
    let mut worker = Worker::new(10, PoolKind::Convert);
    assert_eq!(
        worker.step(WorkerEvent::Launched).log.as_deref(),
        Some("[INFO] Convert worker 10 launch\n")
    );
    assert_eq!(
        worker.step(WorkerEvent::Received("t-14".into())).log.as_deref(),
        Some("[INFO] t-14 convert start\n")
    );
    assert_eq!(
        worker.step(WorkerEvent::Succeeded).log.as_deref(),
        Some("[INFO] t-14 convert complete\n")
    );
    assert_eq!(
        worker.step(WorkerEvent::Cancelled).log.as_deref(),
        Some("[INFO] Convert worker 10 exit\n")
    );
    let mut worker = Worker::new(0, PoolKind::RtfCombine);
    assert_eq!(
        worker.step(WorkerEvent::Launched).log.as_deref(),
        Some("[INFO] RTF combine worker 0 launch\n")
    );
    worker.step(WorkerEvent::Received("all".into()));
    assert_eq!(
        worker.step(WorkerEvent::Succeeded).log.as_deref(),
        Some("[INFO] all rtf combine complete\n")
    );
}

#[test]
fn an_event_out_of_turn_changes_nothing() {
    let mut worker = Worker::new(1, PoolKind::Convert);
    let action = worker.step(WorkerEvent::Succeeded);
    assert_eq!(action.log, None);
    assert!(!action.pulse);
    assert_eq!(action.next, WorkerNext::Nothing);
    worker.step(WorkerEvent::Launched);
    worker.step(WorkerEvent::Received("x".into()));
    // A worker at work is not taken away from its task.
    assert_eq!(worker.step(WorkerEvent::Closed).next, WorkerNext::Nothing);
    assert!(!worker.has_exited());
}
