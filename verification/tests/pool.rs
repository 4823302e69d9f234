use hello_tcp::channel::Channel;
use hello_tcp::channel::ControlMessage;
use hello_tcp::pool::PoolError;
use hello_tcp::pool::ThreadPool;
use hello_tcp::pool::WorkerState;

fn built(size: usize) -> ThreadPool {
    match ThreadPool::new(size) {
        Ok(p) => p,
        Err(_) => panic!("a pool of size {} must construct", size),
    }
}

fn tag_occurrences(p: &ThreadPool, tag: u64) -> usize {
    let mut n = 0;
    for i in 0..p.executed_count() {
        if p.executed_tag(i) == tag {
            n += 1;
        }
    }
    n
}

#[test]
fn pool_of_each_size_spawns_that_many_waiting_workers() {
    for size in 1..6 {
        let p = built(size);
        assert_eq!(p.worker_count(), size);
        for w in 0..size {
            assert_eq!(p.worker_state(w), WorkerState::Waiting);
        }
        assert_eq!(p.sent_count(), 0);
        assert_eq!(p.delivered_count(), 0);
        assert_eq!(p.executed_count(), 0);
    }
}

#[test]
fn zero_size_is_rejected_before_any_worker_exists() {
    let r = ThreadPool::new(0);
    assert!(matches!(r, Err(PoolError::ZeroSize)));
}

#[test]
fn submission_never_waits_on_the_workers() {
    let mut p = built(1);
    for tag in 0..1000 {
        p.execute(tag);
    }
    assert_eq!(p.sent_count(), 1000);
    assert_eq!(p.delivered_count(), 0);
    assert!(p.has_pending());
}

#[test]
fn shutdown_sends_one_signal_per_worker() {
    let mut p = built(3);
    p.execute(1);
    p.execute(2);
    p.shutdown();
    assert_eq!(p.sent_count(), 5);

    let mut shutdowns_seen = 0;
    assert_eq!(p.dispatch(0), ControlMessage::Work(1));
    assert_eq!(p.dispatch(1), ControlMessage::Work(2));
    p.complete(0);
    p.complete(1);
    for w in 0..3 {
        match p.dispatch(w) {
            ControlMessage::Shutdown => shutdowns_seen += 1,
            ControlMessage::Work(_) => panic!("only shutdown messages remain"),
        }
    }
    assert_eq!(shutdowns_seen, 3);
    for w in 0..3 {
        assert_eq!(p.worker_state(w), WorkerState::Terminated);
    }
    assert!(!p.has_pending());
}

#[test]
fn five_jobs_on_two_workers_each_run_exactly_once() {
    let mut p = built(2);
    for tag in 1..6 {
        p.execute(tag);
    }
    p.shutdown();
    assert_eq!(p.sent_count(), 7);

    assert_eq!(p.dispatch(0), ControlMessage::Work(1));
    assert_eq!(p.dispatch(1), ControlMessage::Work(2));
    p.complete(0);
    assert_eq!(p.dispatch(0), ControlMessage::Work(3));
    p.complete(1);
    assert_eq!(p.dispatch(1), ControlMessage::Work(4));
    p.complete(0);
    assert_eq!(p.dispatch(0), ControlMessage::Work(5));
    p.complete(1);
    assert_eq!(p.dispatch(1), ControlMessage::Shutdown);
    p.complete(0);
    assert_eq!(p.dispatch(0), ControlMessage::Shutdown);

    assert!(!p.has_pending());
    assert_eq!(p.executed_count(), 5);
    for tag in 1..6 {
        assert_eq!(tag_occurrences(&p, tag), 1);
    }
    assert_eq!(p.worker_state(0), WorkerState::Terminated);
    assert_eq!(p.worker_state(1), WorkerState::Terminated);
}

#[test]
fn single_worker_finishes_job_in_hand_before_its_shutdown() {
    let mut p = built(1);
    p.execute(10);
    p.execute(11);
    p.shutdown();

    // The lone worker holds job 10 while job 11 and the shutdown message
    // wait behind it: consumption is strictly sequential per worker.
    assert_eq!(p.dispatch(0), ControlMessage::Work(10));
    assert_eq!(p.worker_state(0), WorkerState::Executing(10));
    assert!(p.has_pending());
    p.complete(0);
    assert_eq!(p.dispatch(0), ControlMessage::Work(11));
    p.complete(0);
    assert_eq!(p.dispatch(0), ControlMessage::Shutdown);
    assert_eq!(p.worker_state(0), WorkerState::Terminated);

    assert_eq!(p.executed_count(), 2);
    assert_eq!(p.executed_tag(0), 10);
    assert_eq!(p.executed_tag(1), 11);
}

#[test]
fn idle_pool_tears_down_without_pending_work() {
    let mut p = built(4);
    p.shutdown();
    assert_eq!(p.sent_count(), 4);
    for w in 0..4 {
        assert_eq!(p.dispatch(w), ControlMessage::Shutdown);
    }
    assert!(!p.has_pending());
    assert_eq!(p.executed_count(), 0);
    for w in 0..4 {
        assert_eq!(p.worker_state(w), WorkerState::Terminated);
    }
}

#[test]
fn channel_delivers_in_strict_send_order() {
    let mut c = Channel::new();
    assert!(!c.has_pending());
    c.send(ControlMessage::Work(5));
    c.send(ControlMessage::Shutdown);
    c.send(ControlMessage::Work(6));
    assert_eq!(c.sent_count(), 3);
    assert_eq!(c.receive(), ControlMessage::Work(5));
    assert_eq!(c.receive(), ControlMessage::Shutdown);
    assert_eq!(c.receive(), ControlMessage::Work(6));
    assert_eq!(c.delivered_count(), 3);
    assert!(!c.has_pending());
}
