//! A record of the timed events of a sporadic server.

use vstd::prelude::*;

verus! {

/// Kind of a recorded event.
#[derive(Clone, Copy, Debug, PartialEq, Eq, Structural)]
pub enum EventType {
    BudgetExhausted,
    ReleaseEvent,
    RequestCompleted,
}

impl EventType {
    /// The two letters under which the kind is written to a log.
    pub open spec fn spec_label(self) -> Seq<char> {
        match self {
            EventType::BudgetExhausted => "BE"@,
            EventType::ReleaseEvent => "RE"@,
            EventType::RequestCompleted => "RC"@,
        }
    }

    /// The two letters under which the kind is written to a log.
    pub fn label(&self) -> (text: &'static str)
        ensures
            text@ == self.spec_label(),
    {
        match self {
            EventType::BudgetExhausted => "BE",
            EventType::ReleaseEvent => "RE",
            EventType::RequestCompleted => "RC",
        }
    }
}

/// Events in the order in which they were recorded, each with the instant,
/// in nanoseconds, at which it happened.
pub struct EventLogger {
    events: Vec<(EventType, u64)>,
    recorded_events: u32,
}

impl View for EventLogger {
    type V = Seq<(EventType, u64)>;

    closed spec fn view(&self) -> Seq<(EventType, u64)> {
        self.events@
    }
}

impl EventLogger {
    /// The count agrees with the record.
    pub closed spec fn wf(&self) -> bool {
        self.recorded_events == self.events@.len()
    }

    /// An empty record.
    pub fn new() -> (logger: EventLogger)
        ensures
            logger.wf(),
            logger@ == Seq::<(EventType, u64)>::empty(),
    {
        EventLogger { events: Vec::with_capacity(1_000), recorded_events: 0 }
    }

    /// Number of events recorded so far.
    pub fn recorded(&self) -> (count: u32)
        requires
            self.wf(),
        ensures
            count == self@.len(),
    {
        self.recorded_events
    }

    /// Appends an event to the record.
    pub fn add_event(&mut self, event_type: EventType, start_time: u64)
        requires
            old(self).wf(),
            old(self)@.len() < u32::MAX,
        ensures
            final(self).wf(),
            final(self)@ == old(self)@.push((event_type, start_time)),
    {
        self.events.push((event_type, start_time));
        self.recorded_events += 1;
    }

    /// Hands out the record, oldest event first, and leaves it empty.
    pub fn take_events(&mut self) -> (events: Vec<(EventType, u64)>)
        requires
            old(self).wf(),
        ensures
            final(self).wf(),
            events@ == old(self)@,
            final(self)@ == Seq::<(EventType, u64)>::empty(),
    {
        let mut events: Vec<(EventType, u64)> = Vec::new();
        std::mem::swap(&mut self.events, &mut events);
        self.recorded_events = 0;
        events
    }
}

} // verus!
