//! Sporadic server: a task that may run at its configured priority for at
//! most `budget` out of every `period`, and the controller that demotes it
//! when the budget runs out and replenishes it at release events.
//!
//! The controller is a state machine. It never sleeps and never talks to the
//! scheduler: every operation takes the current time as an argument and hands
//! back the priority change, if any, that the caller must carry out.

use std::collections::VecDeque;
use vstd::prelude::*;

verus! {

/// Priority at which the server runs once its budget is exhausted.
pub const LOW_PRIORITY: u32 = 1;

/// Priority under which no controller runs.
pub const CONTROLLER_FLOOR: u32 = 89;

/// By how much a controller outranks its server, at least.
pub const CONTROLLER_MARGIN: u32 = 15;

/// The priority of the controller of a server of priority `priority`: above
/// the server by the margin, and not under the floor.
pub open spec fn spec_controller_priority(priority: u32) -> int {
    if priority + CONTROLLER_MARGIN >= CONTROLLER_FLOOR {
        priority + CONTROLLER_MARGIN
    } else {
        CONTROLLER_FLOOR as int
    }
}

/// The priority of the controller of a server of priority `priority`.
pub fn controller_priority(priority: u32) -> (controller: u32)
    requires
        priority + CONTROLLER_MARGIN <= u32::MAX,
    ensures
        controller == spec_controller_priority(priority),
        controller > priority,
{
    let raised: u32 = priority + CONTROLLER_MARGIN;
    if raised >= CONTROLLER_FLOOR {
        raised
    } else {
        CONTROLLER_FLOOR
    }
}

/// A priority level to be applied to a thread by the caller.
#[derive(Clone, Copy, Debug, PartialEq, Eq, Structural)]
pub struct PriorityChange {
    /// Platform identifier of the thread.
    pub thread: u32,
    /// Real-time priority to give it.
    pub priority: u32,
}

/// Descriptor of a server task.
#[derive(Clone, Copy, Debug, PartialEq, Eq, Structural)]
pub struct SporadicServer {
    /// Platform identifier of the server thread; 0 names the calling thread.
    pub id: u32,
    /// Budget in nanoseconds.
    pub budget: u64,
    /// Period in nanoseconds.
    pub period: u64,
    /// Priority of the server while it has budget.
    pub priority: u32,
}

impl SporadicServer {
    /// A server for the calling thread.
    pub fn new(budget: u64, period: u64, priority: u32) -> (server: SporadicServer)
        ensures
            server == (SporadicServer { id: 0, budget, period, priority }),
    {
        SporadicServer { id: 0, budget, period, priority }
    }

    /// Binds the descriptor to the thread `id`.
    pub fn set_id(&mut self, id: u32)
        ensures
            *final(self) == (SporadicServer { id, ..*old(self) }),
    {
        self.id = id;
    }

    /// The change that demotes the server.
    pub fn lower_priority(&self) -> (change: PriorityChange)
        ensures
            change == self.demotion(),
    {
        PriorityChange { thread: self.id, priority: LOW_PRIORITY }
    }

    /// The change that restores the server's configured priority.
    pub fn rise_priority(&self) -> (change: PriorityChange)
        ensures
            change == self.promotion(),
    {
        PriorityChange { thread: self.id, priority: self.priority }
    }

    pub open spec fn demotion(&self) -> PriorityChange {
        PriorityChange { thread: self.id, priority: LOW_PRIORITY }
    }

    pub open spec fn promotion(&self) -> PriorityChange {
        PriorityChange { thread: self.id, priority: self.priority }
    }
}

/// Kind of a controller event.
#[derive(Clone, Copy, Debug, PartialEq, Eq, Structural)]
pub enum EventType {
    BudgetExhausted,
    ReleaseEvent,
}

/// A timed event of the controller.
#[derive(Clone, Copy, Debug, PartialEq, Eq, Structural)]
pub struct Event {
    /// Kind of event.
    pub event_type: EventType,
    /// Instant at which the event is due.
    pub event_time: u64,
    /// Budget carried by the event: the amount replenished by a release.
    pub budget: u64,
}

/// Mathematical state of a controller.
pub struct ControllerState {
    /// Pending release events, first the one queued as due first.
    pub releases: Seq<Event>,
    /// Pending budget-exhausted events, first the one queued as due first.
    pub exhaustions: Seq<Event>,
    /// The registered server.
    pub server: Option<SporadicServer>,
    /// Budget with which the current job of the server started.
    pub start_budget: u64,
    /// Release time of the current job.
    pub release_time: u64,
    /// Whether the server is past its activation and running a job.
    pub is_executing: bool,
    /// Whether the budget has run out since the last replenishment.
    pub has_expired: bool,
    /// Priority most recently handed out for the server, if any.
    pub commanded: Option<u32>,
}

/// One operation on a controller, with its arguments.
pub enum ControllerStep {
    /// `register`
    Register { server: SporadicServer },
    /// `get_next_event`
    Poll,
    /// `prepare_activation`
    Prepare { now: u64 },
    /// `complete_activation`
    Complete { now: u64, remaining: u64 },
    /// `timing_event_handler`
    Release { event: Event, now: u64 },
    /// `budget_expired_handler`
    Exhausted { now: u64 },
}

pub open spec fn min_u64(a: u64, b: u64) -> u64 {
    if a <= b {
        a
    } else {
        b
    }
}

/// Whether the events of `queue` stand in the order in which they are due.
pub open spec fn ordered(queue: Seq<Event>) -> bool {
    forall|i: int, j: int|
        0 <= i < j < queue.len() ==> (#[trigger] queue[i]).event_time <= (
        #[trigger] queue[j]).event_time
}

/// Whether `p` is the place at which an event due at `due` enters `queue`:
/// before the first event that is due later, or behind all of them.
pub open spec fn is_due_slot(queue: Seq<Event>, due: u64, p: int) -> bool {
    &&& 0 <= p <= queue.len()
    &&& forall|j: int| 0 <= j < p ==> (#[trigger] queue[j]).event_time <= due
    &&& p < queue.len() ==> queue[p].event_time > due
}

/// The place at which an event due at `due` enters `queue`.
pub open spec fn due_slot(queue: Seq<Event>, due: u64) -> int {
    choose|p: int| is_due_slot(queue, due, p)
}

/// `queue` with `event` at the place at which it is due.
pub open spec fn queued(queue: Seq<Event>, event: Event) -> Seq<Event> {
    queue.insert(due_slot(queue, event.event_time), event)
}

impl ControllerState {
    /// Time charged to the current job at `now`.
    pub open spec fn budget_consumed(self, now: u64) -> u64 {
        if now >= self.release_time {
            (now - self.release_time) as u64
        } else {
            0
        }
    }

    /// Budget left to the current job at `now`.
    pub open spec fn budget_remaining(self, now: u64) -> u64 {
        if self.start_budget >= self.budget_consumed(now) {
            (self.start_budget - self.budget_consumed(now)) as u64
        } else {
            0
        }
    }

    /// The event that is due first: the head of either queue, and on equal
    /// due times the budget-exhausted one.
    pub open spec fn next_event(self) -> Option<Event> {
        if self.releases.len() == 0 && self.exhaustions.len() == 0 {
            None
        } else if self.exhaustions.len() == 0 {
            Some(self.releases[0])
        } else if self.releases.len() == 0 {
            Some(self.exhaustions[0])
        } else if self.releases[0].event_time >= self.exhaustions[0].event_time {
            Some(self.exhaustions[0])
        } else {
            Some(self.releases[0])
        }
    }

    /// The state once the event that is due first has been taken out.
    pub open spec fn after_poll(self) -> ControllerState {
        if self.releases.len() == 0 && self.exhaustions.len() == 0 {
            self
        } else if self.exhaustions.len() == 0 || (self.releases.len() > 0
            && self.releases[0].event_time < self.exhaustions[0].event_time) {
            ControllerState { releases: self.releases.subrange(1, self.releases.len() as int), ..self }
        } else {
            ControllerState {
                exhaustions: self.exhaustions.subrange(1, self.exhaustions.len() as int),
                ..self
            }
        }
    }

    /// The budget-exhausted event queued when the server asks for its next
    /// activation at `now`.
    pub open spec fn activation_exhaustion(self, now: u64) -> Event {
        Event {
            event_type: EventType::BudgetExhausted,
            event_time: (self.release_time + self.budget_remaining(now)) as u64,
            budget: 0,
        }
    }

    /// The release event queued when the server asks for its next activation
    /// at `now`, and when its budget runs out at `now`: due one period after
    /// the release, carrying what was consumed, capped at the server's budget.
    pub open spec fn replenishment(self, now: u64) -> Event {
        Event {
            event_type: EventType::ReleaseEvent,
            event_time: (self.release_time + self.server.unwrap().period) as u64,
            budget: min_u64(self.budget_consumed(now), self.server.unwrap().budget),
        }
    }

    /// The pending exhaustions once the one due first has been put off by
    /// `delta`.
    pub open spec fn exhaustions_put_off(self, delta: u64) -> Seq<Event> {
        if self.exhaustions.len() > 0 {
            self.exhaustions.update(
                0,
                Event {
                    event_time: (self.exhaustions[0].event_time + delta) as u64,
                    ..self.exhaustions[0]
                },
            )
        } else {
            self.exhaustions
        }
    }

    /// Whether `step` may be taken: the server it needs is registered, a
    /// server to register has a priority above `LOW_PRIORITY`, and every
    /// instant and budget that the step computes fits.
    pub open spec fn enabled(self, step: ControllerStep) -> bool {
        match step {
            ControllerStep::Register { server } => server.priority > LOW_PRIORITY,
            ControllerStep::Poll => true,
            ControllerStep::Prepare { now } => {
                &&& self.server is Some
                &&& self.release_time + self.budget_remaining(now) <= u64::MAX
                &&& self.release_time + self.server.unwrap().period <= u64::MAX
            },
            ControllerStep::Complete { .. } => self.server is Some,
            ControllerStep::Release { event, now } => {
                &&& self.server is Some
                &&& self.is_executing && self.has_expired ==> now + event.budget <= u64::MAX
                &&& !(self.is_executing && self.has_expired) ==> {
                    &&& self.start_budget + event.budget <= u64::MAX
                    &&& self.exhaustions.len() > 0 ==> self.exhaustions[0].event_time
                        + event.budget <= u64::MAX
                }
            },
            ControllerStep::Exhausted { .. } => {
                &&& self.server is Some
                &&& self.release_time + self.server.unwrap().period <= u64::MAX
            },
        }
    }

    /// The state after `step`.
    pub open spec fn next(self, step: ControllerStep) -> ControllerState {
        match step {
            ControllerStep::Register { server } => ControllerState {
                server: Some(server),
                start_budget: server.budget,
                ..self
            },
            ControllerStep::Poll => self.after_poll(),
            ControllerStep::Prepare { now } => ControllerState {
                exhaustions: queued(self.exhaustions, self.activation_exhaustion(now)),
                releases: queued(self.releases, self.replenishment(now)),
                is_executing: false,
                ..self
            },
            ControllerStep::Complete { now, remaining } => if self.has_expired {
                ControllerState { is_executing: true, ..self }
            } else {
                ControllerState {
                    release_time: now,
                    start_budget: remaining,
                    commanded: Some(self.server.unwrap().priority),
                    is_executing: true,
                    ..self
                }
            },
            ControllerStep::Release { event, now } => if self.has_expired && self.is_executing {
                ControllerState {
                    release_time: now,
                    start_budget: event.budget,
                    has_expired: false,
                    commanded: Some(self.server.unwrap().priority),
                    exhaustions: seq![
                        Event {
                            event_type: EventType::BudgetExhausted,
                            event_time: (now + event.budget) as u64,
                            budget: 0,
                        },
                    ],
                    ..self
                }
            } else {
                ControllerState {
                    start_budget: (self.start_budget + event.budget) as u64,
                    exhaustions: self.exhaustions_put_off(event.budget),
                    ..self
                }
            },
            ControllerStep::Exhausted { now } => ControllerState {
                has_expired: true,
                releases: queued(self.releases, self.replenishment(now)),
                commanded: Some(LOW_PRIORITY),
                start_budget: 0,
                ..self
            },
        }
    }

    /// The priority change that `step` hands to the caller.
    pub open spec fn command(self, step: ControllerStep) -> Option<PriorityChange> {
        match step {
            ControllerStep::Complete { .. } => if self.has_expired {
                None
            } else {
                Some(self.server.unwrap().promotion())
            },
            ControllerStep::Release { .. } => if self.has_expired && self.is_executing {
                Some(self.server.unwrap().promotion())
            } else {
                None
            },
            ControllerStep::Exhausted { .. } => Some(self.server.unwrap().demotion()),
            _ => None,
        }
    }

    /// The state after the steps of `steps`, taken in order.
    pub open spec fn run(self, steps: Seq<ControllerStep>) -> ControllerState
        decreases steps.len(),
    {
        if steps.len() == 0 {
            self
        } else {
            self.run(steps.drop_last()).next(steps.last())
        }
    }

    /// Whether each of `steps` may be taken in its turn.
    pub open spec fn admits_run(self, steps: Seq<ControllerStep>) -> bool
        decreases steps.len(),
    {
        steps.len() > 0 ==> self.admits_run(steps.drop_last()) && self.run(
            steps.drop_last(),
        ).enabled(steps.last())
    }

    /// The controller is in order: the pending releases stand as they are
    /// due, an exhausted budget goes with a demoted server, and the server's
    /// priority is above `LOW_PRIORITY`.
    pub open spec fn wf(self) -> bool {
        &&& ordered(self.releases)
        &&& self.has_expired ==> self.commanded == Some(LOW_PRIORITY)
        &&& self.server is Some ==> self.server.unwrap().priority > LOW_PRIORITY
    }

    /// Every pending release event carries at most the server's budget.
    pub open spec fn releases_bounded(self) -> bool {
        forall|i: int|
            0 <= i < self.releases.len() ==> self.server is Some && (
            #[trigger] self.releases[i]).budget <= self.server.unwrap().budget
    }
}

/// Controller of one sporadic server.
pub struct SporadicServerController {
    r_event_queue: VecDeque<Event>,
    be_event_queue: VecDeque<Event>,
    server: Option<SporadicServer>,
    start_budget: u64,
    release_time: u64,
    is_executing: bool,
    has_expired: bool,
    commanded: Option<u32>,
}

impl View for SporadicServerController {
    type V = ControllerState;

    closed spec fn view(&self) -> ControllerState {
        ControllerState {
            releases: self.r_event_queue@,
            exhaustions: self.be_event_queue@,
            server: self.server,
            start_budget: self.start_budget,
            release_time: self.release_time,
            is_executing: self.is_executing,
            has_expired: self.has_expired,
            commanded: self.commanded,
        }
    }
}

/// Puts `event` into `queue` at the place at which it is due.
fn enqueue(queue: &mut VecDeque<Event>, event: Event)
    ensures
        final(queue)@ == queued(old(queue)@, event),
{
    let mut place: usize = 0;
    while place < queue.len() && queue[place].event_time <= event.event_time
        invariant
            *queue == *old(queue),
            place <= queue@.len(),
            forall|j: int| 0 <= j < place ==> (#[trigger] queue@[j]).event_time <= event.event_time,
        decreases queue@.len() - place,
    {
        place += 1;
    }
    proof {
        lemma_due_slot_unique(queue@, event.event_time, place as int);
    }
    queue.insert(place, event);
}

impl SporadicServerController {
    /// A controller with no server and no pending event, whose clock starts
    /// at `now`.
    pub fn new(now: u64) -> (controller: SporadicServerController)
        ensures
            controller@ == (ControllerState {
                releases: Seq::empty(),
                exhaustions: Seq::empty(),
                server: None,
                start_budget: 0,
                release_time: now,
                is_executing: false,
                has_expired: false,
                commanded: None,
            }),
            controller@.wf(),
    {
        SporadicServerController {
            r_event_queue: VecDeque::new(),
            be_event_queue: VecDeque::new(),
            server: None,
            start_budget: 0,
            release_time: now,
            is_executing: false,
            has_expired: false,
            commanded: None,
        }
    }

    /// Registers `server` and grants it its full budget. The server's
    /// priority is above `LOW_PRIORITY`, so that a demotion takes it strictly
    /// below its own.
    pub fn register(&mut self, server: &SporadicServer)
        requires
            old(self)@.enabled(ControllerStep::Register { server: *server }),
        ensures
            final(self)@ == old(self)@.next(ControllerStep::Register { server: *server }),
            old(self)@.wf() ==> final(self)@.wf(),
    {
        self.server = Some(*server);
        self.start_budget = server.budget;
    }

    /// Takes the event that is due first out of the queues.
    pub fn get_next_event(&mut self) -> (event: Option<Event>)
        ensures
            event == old(self)@.next_event(),
            final(self)@ == old(self)@.next(ControllerStep::Poll),
            old(self)@.wf() ==> final(self)@.wf(),
    {
        proof {
            if self@.wf() {
                lemma_order_kept(self@, ControllerStep::Poll);
            }
        }
        let releases: usize = self.r_event_queue.len();
        let exhaustions: usize = self.be_event_queue.len();
        if releases == 0 && exhaustions == 0 {
            None
        } else if exhaustions == 0 {
            self.r_event_queue.pop_front()
        } else if releases == 0 {
            self.be_event_queue.pop_front()
        } else if self.r_event_queue[0].event_time >= self.be_event_queue[0].event_time {
            self.be_event_queue.pop_front()
        } else {
            self.r_event_queue.pop_front()
        }
    }

    /// Time charged to the current job at `now`.
    pub fn budget_consumed(&self, now: u64) -> (consumed: u64)
        ensures
            consumed == self@.budget_consumed(now),
    {
        now.saturating_sub(self.release_time)
    }

    /// Budget left to the current job at `now`.
    pub fn budget_remaining(&self, now: u64) -> (remaining: u64)
        ensures
            remaining == self@.budget_remaining(now),
    {
        self.start_budget.saturating_sub(now.saturating_sub(self.release_time))
    }

    /// Whether `step` may be taken now.
    pub fn accepts(&self, step: &ControllerStep) -> (ok: bool)
        ensures
            ok == self@.enabled(*step),
    {
        match step {
            ControllerStep::Register { server } => server.priority > LOW_PRIORITY,
            ControllerStep::Poll => true,
            ControllerStep::Prepare { now } => match self.server {
                None => false,
                Some(server) => {
                    let remaining: u64 = self.budget_remaining(*now);
                    self.release_time.checked_add(remaining).is_some()
                        && self.release_time.checked_add(server.period).is_some()
                },
            },
            ControllerStep::Complete { .. } => self.server.is_some(),
            ControllerStep::Release { event, now } => {
                if self.server.is_none() {
                    false
                } else if self.is_executing && self.has_expired {
                    now.checked_add(event.budget).is_some()
                } else {
                    self.start_budget.checked_add(event.budget).is_some() && (
                    self.be_event_queue.len() == 0 || self.be_event_queue[0].event_time.checked_add(
                        event.budget,
                    ).is_some())
                }
            },
            ControllerStep::Exhausted { .. } => match self.server {
                None => false,
                Some(server) => self.release_time.checked_add(server.period).is_some(),
            },
        }
    }

    /// The release event that gives back what the job has consumed at `now`.
    fn replenishment(&self, now: u64) -> (event: Event)
        requires
            self@.server is Some,
            self@.release_time + self@.server.unwrap().period <= u64::MAX,
        ensures
            event == self@.replenishment(now),
    {
        let server: SporadicServer = self.server.unwrap();
        let consumed: u64 = self.budget_consumed(now);
        Event {
            event_type: EventType::ReleaseEvent,
            event_time: self.release_time + server.period,
            budget: if consumed <= server.budget {
                consumed
            } else {
                server.budget
            },
        }
    }

    /// First half of the server's wait for its next activation, before it
    /// blocks on pending work: queues the exhaustion of what is left of the
    /// budget and the release that gives back what was consumed, each where it
    /// is due, and marks the server as not executing. Returns the budget left.
    pub fn prepare_activation(&mut self, now: u64) -> (remaining: u64)
        requires
            old(self)@.enabled(ControllerStep::Prepare { now }),
        ensures
            remaining == old(self)@.budget_remaining(now),
            final(self)@ == old(self)@.next(ControllerStep::Prepare { now }),
            old(self)@.replenishment(now).budget <= old(self)@.server.unwrap().budget,
            old(self)@.wf() ==> final(self)@.wf(),
    {
        proof {
            if self@.wf() {
                lemma_order_kept(self@, ControllerStep::Prepare { now });
            }
        }
        let remaining: u64 = self.budget_remaining(now);
        let release: Event = self.replenishment(now);
        enqueue(
            &mut self.be_event_queue,
            Event {
                event_type: EventType::BudgetExhausted,
                event_time: self.release_time + remaining,
                budget: 0,
            },
        );
        enqueue(&mut self.r_event_queue, release);
        self.is_executing = false;
        remaining
    }

    /// Second half of the wait, once work is pending: unless the budget has
    /// expired, the job is released at `now` with `remaining` as its budget
    /// and the server is promoted. The server executes from here on.
    pub fn complete_activation(&mut self, now: u64, remaining: u64) -> (change: Option<
        PriorityChange,
    >)
        requires
            old(self)@.enabled(ControllerStep::Complete { now, remaining }),
        ensures
            final(self)@ == old(self)@.next(ControllerStep::Complete { now, remaining }),
            change == old(self)@.command(ControllerStep::Complete { now, remaining }),
            old(self)@.wf() ==> final(self)@.wf(),
    {
        let server: SporadicServer = self.server.unwrap();
        let mut change: Option<PriorityChange> = None;
        if !self.has_expired {
            self.release_time = now;
            self.start_budget = remaining;
            self.commanded = Some(server.priority);
            change = Some(server.rise_priority());
        }
        self.is_executing = true;
        change
    }

    /// Handles the release event `event` at `now`. If the budget has expired
    /// and the server is executing, the server is promoted and a new job
    /// starts with the carried budget, its exhaustion being the only one
    /// pending. Otherwise the carried budget is added to the job's budget and
    /// the pending exhaustion that stands first, if there is one, is put off
    /// by as much where it stands.
    pub fn timing_event_handler(&mut self, event: Event, now: u64) -> (change: Option<
        PriorityChange,
    >)
        requires
            old(self)@.enabled(ControllerStep::Release { event, now }),
        ensures
            final(self)@ == old(self)@.next(ControllerStep::Release { event, now }),
            change == old(self)@.command(ControllerStep::Release { event, now }),
            old(self)@.wf() ==> final(self)@.wf(),
    {
        let server: SporadicServer = self.server.unwrap();
        if self.has_expired && self.is_executing {
            self.release_time = now;
            self.start_budget = event.budget;
            self.has_expired = false;
            self.commanded = Some(server.priority);
            self.be_event_queue.clear();
            self.be_event_queue.push_back(
                Event {
                    event_type: EventType::BudgetExhausted,
                    event_time: now + event.budget,
                    budget: 0,
                },
            );
            Some(server.rise_priority())
        } else {
            self.start_budget = self.start_budget + event.budget;
            if self.be_event_queue.len() > 0 {
                let head: Event = self.be_event_queue.pop_front().unwrap();
                self.be_event_queue.push_front(
                    Event {
                        event_type: head.event_type,
                        event_time: head.event_time + event.budget,
                        budget: head.budget,
                    },
                );
                assert(self.be_event_queue@ =~= old(self)@.exhaustions_put_off(event.budget));
            }
            None
        }
    }

    /// Handles the exhaustion of the budget at `now`: the server is demoted,
    /// its budget is zero, and a release is queued one period after the job's
    /// release, carrying what the job has consumed, capped at the server's
    /// budget.
    pub fn budget_expired_handler(&mut self, now: u64) -> (change: PriorityChange)
        requires
            old(self)@.enabled(ControllerStep::Exhausted { now }),
        ensures
            final(self)@ == old(self)@.next(ControllerStep::Exhausted { now }),
            Some(change) == old(self)@.command(ControllerStep::Exhausted { now }),
            old(self)@.replenishment(now).budget <= old(self)@.server.unwrap().budget,
            old(self)@.wf() ==> final(self)@.wf(),
    {
        proof {
            if self@.wf() {
                lemma_order_kept(self@, ControllerStep::Exhausted { now });
            }
        }
        let server: SporadicServer = self.server.unwrap();
        let release: Event = self.replenishment(now);
        self.has_expired = true;
        enqueue(&mut self.r_event_queue, release);
        self.commanded = Some(LOW_PRIORITY);
        self.start_budget = 0;
        server.lower_priority()
    }

    /// Carries out the event `event` taken from the queues: a release goes to
    /// `timing_event_handler`, an exhaustion to `budget_expired_handler`.
    pub fn dispatch(&mut self, event: Event, now: u64) -> (change: Option<PriorityChange>)
        requires
            old(self)@.enabled(step_of(event, now)),
        ensures
            final(self)@ == old(self)@.next(step_of(event, now)),
            change == old(self)@.command(step_of(event, now)),
            old(self)@.wf() ==> final(self)@.wf(),
    {
        match event.event_type {
            EventType::ReleaseEvent => self.timing_event_handler(event, now),
            EventType::BudgetExhausted => Some(self.budget_expired_handler(now)),
        }
    }
}

/// The step by which the controller answers `event` at `now`.
pub open spec fn step_of(event: Event, now: u64) -> ControllerStep {
    match event.event_type {
        EventType::ReleaseEvent => ControllerStep::Release { event, now },
        EventType::BudgetExhausted => ControllerStep::Exhausted { now },
    }
}

pub proof fn lemma_due_slot_unique(queue: Seq<Event>, due: u64, p: int)
    requires
        is_due_slot(queue, due, p),
    ensures
        due_slot(queue, due) == p,
{
    let c = due_slot(queue, due);
    assert(is_due_slot(queue, due, c));
    if c < p {
        assert(queue[c].event_time <= due);
    }
    if p < c {
        assert(queue[p].event_time <= due);
    }
}

/// There is a place at which an event enters a queue.
pub proof fn lemma_due_slot_exists(queue: Seq<Event>, due: u64)
    ensures
        is_due_slot(queue, due, due_slot(queue, due)),
{
    lemma_due_slot_from(queue, due, 0);
}

proof fn lemma_due_slot_from(queue: Seq<Event>, due: u64, p: int)
    requires
        0 <= p <= queue.len(),
        forall|j: int| 0 <= j < p ==> (#[trigger] queue[j]).event_time <= due,
    ensures
        exists|q: int| is_due_slot(queue, due, q),
    decreases queue.len() - p,
{
    if p < queue.len() && queue[p].event_time <= due {
        lemma_due_slot_from(queue, due, p + 1);
    } else {
        assert(is_due_slot(queue, due, p));
    }
}

/// An event that enters an ordered queue leaves it ordered, and every event
/// of the queue is still in it.
pub proof fn lemma_queued_ordered(queue: Seq<Event>, event: Event)
    requires
        ordered(queue),
    ensures
        ordered(queued(queue, event)),
        queued(queue, event).len() == queue.len() + 1,
{
    lemma_due_slot_exists(queue, event.event_time);
    let p = due_slot(queue, event.event_time);
    let after = queued(queue, event);
    assert forall|i: int, j: int| 0 <= i < j < after.len() implies (#[trigger] after[i]).event_time
        <= (#[trigger] after[j]).event_time by {
        let oi = if i < p {
            i
        } else {
            i - 1
        };
        let oj = if j < p {
            j
        } else {
            j - 1
        };
        if i != p && j != p {
            assert(after[i] == queue[oi] && after[j] == queue[oj]);
        } else if i == p {
            assert(after[j] == queue[oj]);
            assert(queue[p].event_time <= queue[oj].event_time || oj == p);
        } else {
            assert(after[i] == queue[oi]);
        }
    }
}

/// No step that may be taken brings the controller out of order.
pub proof fn lemma_order_kept(state: ControllerState, step: ControllerStep)
    requires
        state.wf(),
        state.enabled(step),
    ensures
        state.next(step).wf(),
{
    match step {
        ControllerStep::Poll => {
            let after = state.next(step);
            assert forall|i: int, j: int| 0 <= i < j < after.releases.len() implies (
            #[trigger] after.releases[i]).event_time <= (#[trigger] after.releases[j]).event_time by {
                if after.releases.len() < state.releases.len() {
                    assert(after.releases[i] == state.releases[i + 1]);
                    assert(after.releases[j] == state.releases[j + 1]);
                }
            }
        },
        ControllerStep::Prepare { now } => {
            lemma_queued_ordered(state.releases, state.replenishment(now));
        },
        ControllerStep::Exhausted { now } => {
            lemma_queued_ordered(state.releases, state.replenishment(now));
        },
        _ => {},
    }
}

/// The pending exhaustions stay in the order in which they are due under
/// every step but the release that puts the first of several off.
pub proof fn lemma_exhaustions_ordered(state: ControllerState, step: ControllerStep)
    requires
        ordered(state.exhaustions),
        step is Release && !(state.has_expired && state.is_executing)
            ==> state.exhaustions.len() <= 1,
    ensures
        ordered(state.next(step).exhaustions),
{
    match step {
        ControllerStep::Poll => {
            let after = state.next(step);
            assert forall|i: int, j: int| 0 <= i < j < after.exhaustions.len() implies (
            #[trigger] after.exhaustions[i]).event_time <= (
            #[trigger] after.exhaustions[j]).event_time by {
                if after.exhaustions.len() < state.exhaustions.len() {
                    assert(after.exhaustions[i] == state.exhaustions[i + 1]);
                    assert(after.exhaustions[j] == state.exhaustions[j + 1]);
                }
            }
        },
        ControllerStep::Prepare { now } => {
            lemma_queued_ordered(state.exhaustions, state.activation_exhaustion(now));
        },
        _ => {},
    }
}

/// Where the events of both queues stand as they are due, the event that is
/// taken out next is due no later than any pending event.
pub proof fn lemma_next_event_earliest(state: ControllerState)
    requires
        ordered(state.releases),
        ordered(state.exhaustions),
    ensures
        state.releases.len() + state.exhaustions.len() > 0 ==> state.next_event() is Some,
        forall|i: int|
            0 <= i < state.releases.len() ==> state.next_event().unwrap().event_time <= (
            #[trigger] state.releases[i]).event_time,
        forall|i: int|
            0 <= i < state.exhaustions.len() ==> state.next_event().unwrap().event_time <= (
            #[trigger] state.exhaustions[i]).event_time,
{
    assert forall|i: int| 0 <= i < state.releases.len() implies state.next_event().unwrap().event_time
        <= (#[trigger] state.releases[i]).event_time by {
        if i > 0 {
            assert(state.releases[0].event_time <= state.releases[i].event_time);
        }
    }
    assert forall|i: int|
        0 <= i < state.exhaustions.len() implies state.next_event().unwrap().event_time <= (
    #[trigger] state.exhaustions[i]).event_time by {
        if i > 0 {
            assert(state.exhaustions[0].event_time <= state.exhaustions[i].event_time);
        }
    }
}

/// Whether none of `steps` handles a release event.
pub open spec fn no_release_in(steps: Seq<ControllerStep>) -> bool {
    forall|i: int| 0 <= i < steps.len() ==> !(#[trigger] steps[i] is Release)
}

/// The exhaustion of the budget demotes the server strictly below its
/// configured priority and leaves it without budget; the release that it
/// queues carries what the job has consumed, capped at the server's budget.
pub proof fn lemma_exhaustion_demotes(state: ControllerState, now: u64)
    requires
        state.wf(),
        state.server is Some,
    ensures
        ({
            let after = state.next(ControllerStep::Exhausted { now });
            &&& after.has_expired
            &&& after.start_budget == 0
            &&& after.commanded == Some(LOW_PRIORITY)
            &&& LOW_PRIORITY < after.server.unwrap().priority
            &&& state.command(ControllerStep::Exhausted { now }) == Some(
                PriorityChange { thread: state.server.unwrap().id, priority: LOW_PRIORITY },
            )
            &&& after.exhaustions == state.exhaustions
            &&& after.release_time == state.release_time
            &&& after.releases == queued(state.releases, state.replenishment(now))
            &&& state.replenishment(now).budget == min_u64(
                state.budget_consumed(now),
                state.server.unwrap().budget,
            )
            &&& state.replenishment(now).budget <= state.server.unwrap().budget
        }),
{
}

/// After a budget-exhausted event the server stays demoted, strictly below
/// its configured priority, whatever the controller does, until it handles a
/// release event.
pub proof fn lemma_demoted_until_release(
    before: ControllerState,
    now: u64,
    steps: Seq<ControllerStep>,
)
    requires
        before.wf(),
        before.server is Some,
        no_release_in(steps),
        before.next(ControllerStep::Exhausted { now }).admits_run(steps),
    ensures
        before.next(ControllerStep::Exhausted { now }).run(steps).has_expired,
        before.next(ControllerStep::Exhausted { now }).run(steps).commanded == Some(LOW_PRIORITY),
        before.next(ControllerStep::Exhausted { now }).run(steps).server is Some,
        LOW_PRIORITY < before.next(ControllerStep::Exhausted { now }).run(
            steps,
        ).server.unwrap().priority,
    decreases steps.len(),
{
    if steps.len() > 0 {
        assert(no_release_in(steps.drop_last())) by {
            assert forall|i: int| 0 <= i < steps.drop_last().len() implies !(
            #[trigger] steps.drop_last()[i] is Release) by {
                assert(steps.drop_last()[i] == steps[i]);
            }
        }
        lemma_demoted_until_release(before, now, steps.drop_last());
        assert(steps.last() == steps[steps.len() - 1]);
    }
}

/// The carried budget of a release event never exceeds the server's budget:
/// a step that queues a release event caps what it carries, and no step
/// changes the events already queued. A registration keeps the bound when it
/// does not lower the budget under pending releases.
pub proof fn lemma_release_budget_bounded(state: ControllerState, step: ControllerStep)
    requires
        state.releases_bounded(),
        state.enabled(step),
        step matches ControllerStep::Register { server } ==> state.releases.len() == 0 || (
        state.server is Some && server.budget >= state.server.unwrap().budget),
    ensures
        state.next(step).releases_bounded(),
{
    let after = state.next(step);
    assert forall|i: int| 0 <= i < after.releases.len() implies after.server is Some && (
    #[trigger] after.releases[i]).budget <= after.server.unwrap().budget by {
        match step {
            ControllerStep::Poll => {
                if after.releases.len() < state.releases.len() {
                    assert(after.releases[i] == state.releases[i + 1]);
                }
            },
            ControllerStep::Prepare { now } => {
                lemma_due_slot_exists(state.releases, state.replenishment(now).event_time);
                let p = due_slot(state.releases, state.replenishment(now).event_time);
                if i < p {
                    assert(after.releases[i] == state.releases[i]);
                } else if i > p {
                    assert(after.releases[i] == state.releases[i - 1]);
                }
            },
            ControllerStep::Exhausted { now } => {
                lemma_due_slot_exists(state.releases, state.replenishment(now).event_time);
                let p = due_slot(state.releases, state.replenishment(now).event_time);
                if i < p {
                    assert(after.releases[i] == state.releases[i]);
                } else if i > p {
                    assert(after.releases[i] == state.releases[i - 1]);
                }
            },
            _ => {
                assert(after.releases[i] == state.releases[i]);
            },
        }
    }
}

/// A release handled after the budget has expired, under an executing
/// server, promotes the server and starts a job at `now` with the carried
/// budget; its exhaustion is the only one pending, due that long after the
/// release; the pending releases are as they were.
pub proof fn lemma_release_promotes(state: ControllerState, event: Event, now: u64)
    requires
        state.server is Some,
        state.has_expired,
        state.is_executing,
    ensures
        ({
            let after = state.next(ControllerStep::Release { event, now });
            &&& state.command(ControllerStep::Release { event, now }) == Some(
                PriorityChange {
                    thread: state.server.unwrap().id,
                    priority: state.server.unwrap().priority,
                },
            )
            &&& !after.has_expired
            &&& after.release_time == now
            &&& after.start_budget == event.budget
            &&& after.exhaustions.len() == 1
            &&& now + event.budget <= u64::MAX ==> after.exhaustions[0].event_time
                == after.release_time + after.start_budget
            &&& after.releases == state.releases
        }),
{
}

/// A release handled while the budget has not expired adds the carried
/// budget to the job's and puts the exhaustion that stands first off by as
/// much, where it stands; nothing else changes and no priority is handed out.
pub proof fn lemma_release_extends(state: ControllerState, event: Event, now: u64)
    requires
        !state.has_expired,
        state.exhaustions.len() > 0,
        state.enabled(ControllerStep::Release { event, now }),
    ensures
        ({
            let after = state.next(ControllerStep::Release { event, now });
            &&& state.command(ControllerStep::Release { event, now }) is None
            &&& after.start_budget == state.start_budget + event.budget
            &&& after.exhaustions.len() == state.exhaustions.len()
            &&& after.exhaustions[0].event_time == state.exhaustions[0].event_time + event.budget
            &&& after.exhaustions[0].budget == state.exhaustions[0].budget
            &&& after.exhaustions.skip(1) == state.exhaustions.skip(1)
            &&& !after.has_expired
            &&& after.release_time == state.release_time
            &&& after.releases == state.releases
        }),
{
    let after = state.next(ControllerStep::Release { event, now });
    assert(after.exhaustions.skip(1) =~= state.exhaustions.skip(1));
}

} // verus!
