use vstd::prelude::*;

verus! {

/// The amounts emitted during the current tick, oldest first.
pub struct EventLog {
    events: Vec<u64>,
}

impl View for EventLog {
    type V = Seq<u64>;

    closed spec fn view(&self) -> Seq<u64> {
        self.events@
    }
}

impl EventLog {
    pub fn new() -> (r: EventLog)
        ensures
            r@ == Seq::<u64>::empty(),
    {
        EventLog { events: Vec::new() }
    }

    /// Appends an accumulation event.
    pub fn emit(&mut self, amount: u64)
        ensures
            final(self)@ == old(self)@.push(amount),
    {
        self.events.push(amount);
    }

    /// Removes and returns every queued event in the order of emission.
    pub fn drain(&mut self) -> (r: Vec<u64>)
        ensures
            r@ == old(self)@,
            final(self)@ == Seq::<u64>::empty(),
    {
        let mut out: Vec<u64> = Vec::new();
        std::mem::swap(&mut out, &mut self.events);
        out
    }

    pub fn pending(&self) -> (r: &Vec<u64>)
        ensures
            r@ == self@,
    {
        &self.events
    }
}

} // verus!
