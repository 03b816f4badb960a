//! Where events go.
use vstd::prelude::*;

use crate::report::event::{Event, EventView};

verus! {

/// Receiver of structured events.
pub trait EventSink {
    /// The events received so far, in order.
    spec fn emitted(&self) -> Seq<EventView>;

    /// Emit one event.
    fn emit(&mut self, event: Event)
        ensures
            final(self).emitted() == old(self).emitted().push(event@),
    ;
}

/// Keeps the events it receives, in order.
#[derive(Debug)]
pub struct EventLog {
    events: Vec<Event>,
}

impl EventLog {
    pub closed spec fn kept(&self) -> Seq<Event> {
        self.events@
    }

    /// A log without events.
    pub fn new() -> (log: EventLog)
        ensures
            log.kept() == Seq::<Event>::empty(),
            log.emitted() == Seq::<EventView>::empty(),
    {
        let log = EventLog { events: Vec::new() };
        assert(log.emitted() =~= Seq::<EventView>::empty());
        log
    }

    /// Take the events out of the log, which is empty afterwards.
    pub fn drain(&mut self) -> (events: Vec<Event>)
        ensures
            events@ == old(self).kept(),
            events@.map_values(|e: Event| e@) == old(self).emitted(),
            final(self).emitted() == Seq::<EventView>::empty(),
    {
        let mut events: Vec<Event> = Vec::new();
        std::mem::swap(&mut events, &mut self.events);
        assert(self.emitted() =~= Seq::<EventView>::empty());
        events
    }
}

impl EventSink for EventLog {
    closed spec fn emitted(&self) -> Seq<EventView> {
        self.events@.map_values(|e: Event| e@)
    }

    fn emit(&mut self, event: Event) {
        let ghost before = self.events@;
        self.events.push(event);
        assert(self.emitted() =~= before.map_values(|e: Event| e@).push(event@));
    }
}

} // verus!
