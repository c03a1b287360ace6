use eddie_crawler::scheduler::Action;
use eddie_crawler::scheduler::Event;
use eddie_crawler::scheduler::Phase;
use eddie_crawler::scheduler::Scheduler;
use eddie_crawler::scheduler::CHANNEL_CAPACITY;
use eddie_crawler::scheduler::MAX_RECEIVE_FAILURES;

#[test]
fn limits_of_the_loop() {
    assert_eq!(CHANNEL_CAPACITY, 50000);
    assert_eq!(MAX_RECEIVE_FAILURES, 5);
}

#[test]
fn a_new_scheduler_waits_for_the_first_batch() {
    let mut scheduler = Scheduler::new();
    assert_eq!(scheduler.phase, Phase::Running);
    assert_eq!(scheduler.queued, 1);
    assert_eq!(scheduler.step(Event::Polled { terminated: false }), Action::Receive);
    assert_eq!(scheduler.step(Event::Received { size: 1 }), Action::Fetch);
    assert_eq!(scheduler.queued, 0);
    assert_eq!(scheduler.step(Event::Fetched), Action::Spawn);
    assert_eq!(scheduler.running, 1);
    assert_eq!(scheduler.step(Event::Polled { terminated: false }), Action::Receive);
}

#[test]
fn an_empty_batch_is_passed_over() {
    let mut scheduler = Scheduler::new();
    scheduler.queued = 2;
    assert_eq!(scheduler.step(Event::Received { size: 0 }), Action::Continue);
    assert_eq!(scheduler.phase, Phase::Running);
    assert_eq!(scheduler.queued, 1);
    assert_eq!(scheduler.step(Event::Polled { terminated: false }), Action::Receive);
}

#[test]
fn five_failed_receives_in_a_row_end_the_crawl() {
    let mut scheduler = Scheduler::new();
    for _ in 0..4 {
        assert_eq!(scheduler.step(Event::ReceiveFailed), Action::Continue);
    }
    assert_eq!(scheduler.step(Event::ReceiveFailed), Action::Fail);
    assert_eq!(scheduler.phase, Phase::Done);
    assert!(scheduler.aborted);
    assert_eq!(scheduler.step(Event::Polled { terminated: false }), Action::Fail);
}

#[test]
fn a_receive_that_works_starts_the_count_anew() {
    let mut scheduler = Scheduler::new();
    scheduler.queued = 3;
    for _ in 0..4 {
        assert_eq!(scheduler.step(Event::ReceiveFailed), Action::Continue);
    }
    assert_eq!(scheduler.step(Event::Received { size: 0 }), Action::Continue);
    assert_eq!(scheduler.failed_receives, 0);
    for _ in 0..4 {
        assert_eq!(scheduler.step(Event::ReceiveFailed), Action::Continue);
    }
    assert_eq!(scheduler.step(Event::WorkerDone { sent: 0 }), Action::Continue);
    for _ in 0..4 {
        assert_eq!(scheduler.step(Event::ReceiveFailed), Action::Continue);
    }
    assert_eq!(scheduler.step(Event::ReceiveFailed), Action::Fail);
}

#[test]
fn a_failed_fetch_drops_the_batch() {
    let mut scheduler = Scheduler::new();
    assert_eq!(scheduler.step(Event::Received { size: 3 }), Action::Fetch);
    assert_eq!(scheduler.step(Event::FetchFailed), Action::Continue);
    assert_eq!(scheduler.running, 0);
    assert_eq!(scheduler.step(Event::Polled { terminated: false }), Action::Exhaust);
    assert_eq!(scheduler.phase, Phase::Draining);
}

#[test]
fn termination_starts_the_draining() {
    let mut scheduler = Scheduler::new();
    assert_eq!(scheduler.step(Event::Polled { terminated: true }), Action::Join);
    assert_eq!(scheduler.phase, Phase::Draining);
    assert_eq!(scheduler.step(Event::Received { size: 4 }), Action::Join);
    assert_eq!(scheduler.step(Event::Joined), Action::Reconstruct);
    assert_eq!(scheduler.phase, Phase::Done);
    assert!(!scheduler.aborted);
    assert_eq!(scheduler.step(Event::JoinFailed), Action::Reconstruct);
}

#[test]
fn a_failed_join_gives_the_crawl_up() {
    let mut scheduler = Scheduler::new();
    scheduler.step(Event::Polled { terminated: true });
    assert_eq!(scheduler.step(Event::JoinFailed), Action::Fail);
    assert_eq!(scheduler.phase, Phase::Done);
    assert!(scheduler.aborted);
    assert_eq!(scheduler.step(Event::Joined), Action::Fail);
}

#[test]
fn work_is_counted_until_none_is_left() {
    let mut scheduler = Scheduler::new();
    scheduler.step(Event::Received { size: 1 });
    scheduler.step(Event::Fetched);
    assert_eq!(scheduler.step(Event::WorkerDone { sent: 2 }), Action::Continue);
    assert_eq!((scheduler.queued, scheduler.running), (2, 0));
    assert_eq!(scheduler.step(Event::Polled { terminated: false }), Action::Receive);
    scheduler.step(Event::Received { size: 0 });
    assert_eq!(scheduler.step(Event::Polled { terminated: false }), Action::Receive);
    scheduler.step(Event::Received { size: 7 });
    assert_eq!(scheduler.step(Event::Fetched), Action::Spawn);
    assert_eq!(scheduler.step(Event::Polled { terminated: false }), Action::Receive);
    assert_eq!(scheduler.step(Event::WorkerDone { sent: 0 }), Action::Continue);
    assert_eq!(scheduler.step(Event::Polled { terminated: false }), Action::Exhaust);
}

#[test]
fn a_count_that_would_overflow_ends_the_crawl() {
    let mut scheduler = Scheduler::new();
    scheduler.queued = usize::MAX - 1;
    assert_eq!(scheduler.step(Event::WorkerDone { sent: 1 }), Action::Continue);
    assert_eq!(scheduler.queued, usize::MAX);
    assert_eq!(scheduler.step(Event::WorkerDone { sent: 1 }), Action::Fail);
    assert!(scheduler.aborted);
    let mut other = Scheduler::new();
    other.running = usize::MAX;
    assert_eq!(other.step(Event::Fetched), Action::Fail);
}
