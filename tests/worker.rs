use zhur_core::worker::{Worker, WorkerAction, WorkerEvent};

#[test]
fn tickets_follow_arrival_order() {
    let mut w = Worker::new();
    for k in 0..5u64 {
        assert_eq!(w.step(WorkerEvent::Dequeued), WorkerAction::Run { ticket: k });
        assert_eq!(w.step(WorkerEvent::Answered { delivered: true }), WorkerAction::Dequeue);
    }
    assert_eq!(w.received, 5);
    assert_eq!(w.answered, 5);
    assert_eq!(w.abandoned, 0);
}

#[test]
fn one_invocation_in_hand_at_a_time() {
    let mut w = Worker::new();
    assert_eq!(w.step(WorkerEvent::Dequeued), WorkerAction::Run { ticket: 0 });
    assert_eq!(w.step(WorkerEvent::Dequeued), WorkerAction::Ignore);
    assert_eq!(w.step(WorkerEvent::QueueClosed), WorkerAction::Ignore);
    assert_eq!(w.received, 1);
    assert_eq!(w.step(WorkerEvent::Answered { delivered: true }), WorkerAction::Dequeue);
    assert_eq!(w.step(WorkerEvent::Answered { delivered: true }), WorkerAction::Ignore);
    assert_eq!(w.answered, 1);
}

#[test]
fn abandoned_result_does_not_stop_the_worker() {
    let mut w = Worker::new();
    w.step(WorkerEvent::Dequeued);
    assert_eq!(w.step(WorkerEvent::Answered { delivered: false }), WorkerAction::Dequeue);
    assert_eq!(w.abandoned, 1);
    assert_eq!(w.step(WorkerEvent::Dequeued), WorkerAction::Run { ticket: 1 });
}

#[test]
fn closed_queue_ends_the_loop() {
    let mut w = Worker::new();
    assert_eq!(w.step(WorkerEvent::QueueClosed), WorkerAction::Exit);
    assert!(w.stopped);
    assert_eq!(w.step(WorkerEvent::Dequeued), WorkerAction::Exit);
    assert_eq!(w.received, 0);
}
