//! The decisions of the one loop that owns the fetch call.
//!
//! The loop itself waits, fetches, and starts workers; none of that is done
//! here. After each thing that happens to it, the loop hands the event to
//! `Scheduler::step` and does what the returned action says.

use vstd::prelude::*;

verus! {

/// How many batches the channel to the loop holds before a worker that
/// sends one has to wait.
pub const CHANNEL_CAPACITY: usize = 50000;

/// How many failed receives in a row end the crawl.
pub const MAX_RECEIVE_FAILURES: u8 = 5;

/// Where the loop stands.
#[derive(Clone, Copy, Debug, PartialEq, Eq)]
pub enum Phase {
    /// Batches are received and fetched.
    Running,
    /// No more fetches are made; the helpers are waited for.
    Draining,
    /// The crawl is over.
    Done,
}

/// Something that happened to the loop.
#[derive(Clone, Copy, Debug, PartialEq, Eq)]
pub enum Event {
    /// The loop is at its head and has read the termination flag.
    Polled { terminated: bool },
    /// A batch of `size` titles has arrived.
    Received { size: usize },
    /// A worker has reported that it is done and that it puts `sent`
    /// batches on the channel. The report travels ahead of the batches.
    WorkerDone { sent: usize },
    /// Receiving has failed.
    ReceiveFailed,
    /// The fetch for the batch in hand has brought an answer.
    Fetched,
    /// The fetch for the batch in hand has failed.
    FetchFailed,
    /// The progress reporter and every worker have been joined.
    Joined,
    /// Joining one of them has failed.
    JoinFailed,
}

/// What the loop is to do next.
#[derive(Clone, Copy, Debug, PartialEq, Eq)]
pub enum Action {
    /// Wait for the next message.
    Receive,
    /// Make the one fetch for the batch in hand.
    Fetch,
    /// Hand the answer and the batch's parent to a new worker.
    Spawn,
    /// Nothing to do for this event: go back to the head of the loop.
    Continue,
    /// Stop fetching and join the progress reporter and the workers.
    Join,
    /// Nothing is queued and no worker runs, and the goal was not found:
    /// mark the crawl as over, then join as for `Join`.
    Exhaust,
    /// Read the path off the crawl's state.
    Reconstruct,
    /// Give up: the crawl has no path to show.
    Fail,
}

/// The state of the loop between two events.
#[derive(Clone, Copy, Debug, PartialEq, Eq)]
pub struct Scheduler {
    /// Where the loop stands.
    pub phase: Phase,
    /// Receives that have failed since the last one that worked.
    pub failed_receives: u8,
    /// Batches that were announced and have not arrived yet.
    pub queued: usize,
    /// Workers that were started and have not reported back.
    pub running: usize,
    /// Whether the crawl was given up.
    pub aborted: bool,
}

impl Scheduler {
    /// The state in which the crawl was given up.
    pub open spec fn failed(self) -> Scheduler {
        Scheduler { phase: Phase::Done, aborted: true, ..self }
    }

    /// The state after `event`, and the action that answers it.
    ///
    /// While running: a set termination flag starts the draining; so does
    /// an empty channel with no worker left, which is how a crawl ends that
    /// cannot reach its goal. A batch that arrives is fetched unless it is
    /// empty. Five failed receives in a row end the crawl; a receive that
    /// works starts the count anew. A failed fetch drops its batch. A
    /// counter that would overflow ends the crawl.
    ///
    /// While draining: the crawl is done once everything is joined, and
    /// given up if a join fails. Once done, nothing changes any more.
    pub open spec fn next(self, event: Event) -> (Scheduler, Action) {
        match self.phase {
            Phase::Running => match event {
                Event::Polled { terminated } => if terminated {
                    (Scheduler { phase: Phase::Draining, ..self }, Action::Join)
                } else if self.queued == 0 && self.running == 0 {
                    (Scheduler { phase: Phase::Draining, ..self }, Action::Exhaust)
                } else {
                    (self, Action::Receive)
                },
                Event::Received { size } => {
                    let queued = if self.queued > 0 {
                        (self.queued - 1) as usize
                    } else {
                        0
                    };
                    (
                        Scheduler { failed_receives: 0, queued, ..self },
                        if size == 0 {
                            Action::Continue
                        } else {
                            Action::Fetch
                        },
                    )
                },
                Event::WorkerDone { sent } => {
                    let running = if self.running > 0 {
                        (self.running - 1) as usize
                    } else {
                        0
                    };
                    if self.queued + sent > usize::MAX {
                        (self.failed(), Action::Fail)
                    } else {
                        (
                            Scheduler {
                                failed_receives: 0,
                                queued: (self.queued + sent) as usize,
                                running,
                                ..self
                            },
                            Action::Continue,
                        )
                    }
                },
                Event::ReceiveFailed => if self.failed_receives + 1 >= MAX_RECEIVE_FAILURES {
                    (self.failed(), Action::Fail)
                } else {
                    (
                        Scheduler { failed_receives: (self.failed_receives + 1) as u8, ..self },
                        Action::Continue,
                    )
                },
                Event::Fetched => if self.running + 1 > usize::MAX {
                    (self.failed(), Action::Fail)
                } else {
                    (Scheduler { running: (self.running + 1) as usize, ..self }, Action::Spawn)
                },
                Event::FetchFailed => (self, Action::Continue),
                Event::Joined => (self, Action::Continue),
                Event::JoinFailed => (self, Action::Continue),
            },
            Phase::Draining => match event {
                Event::Joined => (Scheduler { phase: Phase::Done, ..self }, Action::Reconstruct),
                Event::JoinFailed => (self.failed(), Action::Fail),
                _ => (self, Action::Join),
            },
            Phase::Done => (
                self,
                if self.aborted {
                    Action::Fail
                } else {
                    Action::Reconstruct
                },
            ),
        }
    }

    /// The state of a loop that has put the first batch on the channel and
    /// has started nothing else.
    pub fn new() -> (scheduler: Scheduler)
        ensures
            scheduler == (Scheduler {
                phase: Phase::Running,
                failed_receives: 0,
                queued: 1,
                running: 0,
                aborted: false,
            }),
    {
        Scheduler { phase: Phase::Running, failed_receives: 0, queued: 1, running: 0, aborted: false }
    }

    fn fail(&mut self) -> (action: Action)
        ensures
            *final(self) == old(self).failed(),
            action == Action::Fail,
    {
        self.phase = Phase::Done;
        self.aborted = true;
        Action::Fail
    }

    /// Takes `event` in and says what to do.
    pub fn step(&mut self, event: Event) -> (action: Action)
        ensures
            (*final(self), action) == old(self).next(event),
    {
        match self.phase {
            Phase::Running => match event {
                Event::Polled { terminated } => {
                    if terminated {
                        self.phase = Phase::Draining;
                        Action::Join
                    } else if self.queued == 0 && self.running == 0 {
                        self.phase = Phase::Draining;
                        Action::Exhaust
                    } else {
                        Action::Receive
                    }
                },
                Event::Received { size } => {
                    self.failed_receives = 0;
                    if self.queued > 0 {
                        self.queued = self.queued - 1;
                    }
                    if size == 0 {
                        Action::Continue
                    } else {
                        Action::Fetch
                    }
                },
                Event::WorkerDone { sent } => {
                    if sent > usize::MAX - self.queued {
                        self.fail()
                    } else {
                        self.failed_receives = 0;
                        self.queued = self.queued + sent;
                        if self.running > 0 {
                            self.running = self.running - 1;
                        }
                        Action::Continue
                    }
                },
                Event::ReceiveFailed => {
                    if self.failed_receives >= MAX_RECEIVE_FAILURES - 1 {
                        self.fail()
                    } else {
                        self.failed_receives = self.failed_receives + 1;
                        Action::Continue
                    }
                },
                Event::Fetched => {
                    if self.running == usize::MAX {
                        self.fail()
                    } else {
                        self.running = self.running + 1;
                        Action::Spawn
                    }
                },
                Event::FetchFailed => Action::Continue,
                Event::Joined => Action::Continue,
                Event::JoinFailed => Action::Continue,
            },
            Phase::Draining => match event {
                Event::Joined => {
                    self.phase = Phase::Done;
                    Action::Reconstruct
                },
                Event::JoinFailed => self.fail(),
                _ => Action::Join,
            },
            Phase::Done => {
                if self.aborted {
                    Action::Fail
                } else {
                    Action::Reconstruct
                }
            },
        }
    }
}

/// How far a phase is from the start.
pub open spec fn rank(phase: Phase) -> int {
    match phase {
        Phase::Running => 0,
        Phase::Draining => 1,
        Phase::Done => 2,
    }
}

/// The loop never goes back: no event takes it to an earlier phase, and
/// once it is done no event changes it. A crawl that was given up stays
/// given up.
pub proof fn lemma_never_back(state: Scheduler, event: Event)
    ensures
        rank(state.phase) <= rank(state.next(event).0.phase),
        state.phase == Phase::Done ==> state.next(event).0 == state,
        state.aborted ==> state.next(event).0.aborted,
        state.next(event).1 == Action::Fail ==> state.next(event).0.aborted,
        state.next(event).1 == Action::Reconstruct ==> state.next(event).0.phase == Phase::Done,
{
}

/// The state after `count` failed receives in a row.
pub open spec fn after_failures(state: Scheduler, count: nat) -> Scheduler
    decreases count,
{
    if count == 0 {
        state
    } else {
        after_failures(state, (count - 1) as nat).next(Event::ReceiveFailed).0
    }
}

/// After a receive that worked, four failed receives in a row leave the
/// loop running, and the fifth ends the crawl.
pub proof fn lemma_five_failures(state: Scheduler, size: usize)
    requires
        state.phase == Phase::Running,
    ensures
        ({
            let fresh = state.next(Event::Received { size }).0;
            &&& after_failures(fresh, 4).phase == Phase::Running
            &&& after_failures(fresh, 4).next(Event::ReceiveFailed).1 == Action::Fail
            &&& forall|count: nat|
                count < 4 ==> (#[trigger] after_failures(fresh, count)).next(Event::ReceiveFailed).1
                    == Action::Continue
        }),
{
    let fresh = state.next(Event::Received { size }).0;
    reveal_with_fuel(after_failures, 6);
    assert(after_failures(fresh, 0).failed_receives == 0);
    assert(after_failures(fresh, 1).failed_receives == 1);
    assert(after_failures(fresh, 2).failed_receives == 2);
    assert(after_failures(fresh, 3).failed_receives == 3);
    assert(after_failures(fresh, 4).failed_receives == 4);
}

} // verus!
