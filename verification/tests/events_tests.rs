use rustfin::events::{
    job_worker_step, next_heartbeat, EventBus, EventCursor, Polled, ServerEvent, WorkerAction,
    WorkerEvent,
};
use rustfin::types::JobStatus;

#[test]
fn worker_transitions() {
    // queued work starts by writing running at progress zero
    match job_worker_step(JobStatus::Queued, &WorkerEvent::Started, 0) {
        WorkerAction::WriteStatus { status, progress_milli, error } => {
            assert_eq!(status, JobStatus::Running);
            assert_eq!(progress_milli, 0);
            assert!(error.is_none());
        },
        other => panic!("unexpected action {other:?}"),
    }
    // success completes at full progress
    match job_worker_step(JobStatus::Running, &WorkerEvent::WorkSucceeded, 1) {
        WorkerAction::WriteStatus { status, progress_milli, error } => {
            assert_eq!(status, JobStatus::Completed);
            assert_eq!(progress_milli, 1000);
            assert!(error.is_none());
        },
        other => panic!("unexpected action {other:?}"),
    }
    // failure records the message at progress zero
    match job_worker_step(
        JobStatus::Running,
        &WorkerEvent::WorkFailed("disk gone".to_string()),
        1,
    ) {
        WorkerAction::WriteStatus { status, progress_milli, error } => {
            assert_eq!(status, JobStatus::Failed);
            assert_eq!(progress_milli, 0);
            assert_eq!(error.as_deref(), Some("disk gone"));
        },
        other => panic!("unexpected action {other:?}"),
    }
}

#[test]
fn worker_write_retries_are_bounded() {
    // a failed write inside the budget waits and retries
    for attempt in 0..5u32 {
        match job_worker_step(JobStatus::Running, &WorkerEvent::StatusWriteFailed, attempt) {
            WorkerAction::RetryAfterMs(ms) => assert_eq!(ms, 120),
            other => panic!("unexpected action {other:?}"),
        }
    }
    // the budget is five attempts
    assert!(matches!(
        job_worker_step(JobStatus::Running, &WorkerEvent::StatusWriteFailed, 5),
        WorkerAction::GiveUp
    ));
    // a terminal phase has nothing left to do
    assert!(matches!(
        job_worker_step(JobStatus::Completed, &WorkerEvent::Started, 0),
        WorkerAction::GiveUp
    ));
}

#[test]
fn event_bus_delivers_in_order() {
    let mut bus = EventBus::new(4);
    let mut cursor = EventCursor { next_seq: 0 };
    assert!(matches!(bus.poll(&mut cursor), Polled::Empty));

    assert!(bus.publish(ServerEvent::Heartbeat { seq: 0 }));
    assert!(bus.publish(ServerEvent::JobUpdate {
        job_id: "j1".to_string(),
        status: JobStatus::Running,
        progress_milli: 0,
    }));
    match bus.poll(&mut cursor) {
        Polled::Event(ServerEvent::Heartbeat { seq }) => assert_eq!(seq, 0),
        other => panic!("unexpected poll {other:?}"),
    }
    match bus.poll(&mut cursor) {
        Polled::Event(ServerEvent::JobUpdate { job_id, status, progress_milli }) => {
            assert_eq!(job_id, "j1");
            assert_eq!(status, JobStatus::Running);
            assert_eq!(progress_milli, 0);
        },
        other => panic!("unexpected poll {other:?}"),
    }
    assert!(matches!(bus.poll(&mut cursor), Polled::Empty));
}

#[test]
fn lagged_readers_learn_the_loss() {
    // capacity two: publishing four events loses the first two
    let mut bus = EventBus::new(2);
    let mut cursor = EventCursor { next_seq: 0 };
    for seq in 0..4u64 {
        assert!(bus.publish(ServerEvent::Heartbeat { seq }));
    }
    match bus.poll(&mut cursor) {
        Polled::Lagged(missed) => assert_eq!(missed, 2),
        other => panic!("unexpected poll {other:?}"),
    }
    match bus.poll(&mut cursor) {
        Polled::Event(ServerEvent::Heartbeat { seq }) => assert_eq!(seq, 2),
        other => panic!("unexpected poll {other:?}"),
    }
    match bus.poll(&mut cursor) {
        Polled::Event(ServerEvent::Heartbeat { seq }) => assert_eq!(seq, 3),
        other => panic!("unexpected poll {other:?}"),
    }
    assert!(matches!(bus.poll(&mut cursor), Polled::Empty));
}

#[test]
fn heartbeat_sequence_grows() {
    let (ev, next) = next_heartbeat(7);
    assert!(matches!(ev, ServerEvent::Heartbeat { seq: 7 }));
    assert_eq!(next, 8);
    let (ev2, next2) = next_heartbeat(next);
    assert!(matches!(ev2, ServerEvent::Heartbeat { seq: 8 }));
    assert_eq!(next2, 9);
}
