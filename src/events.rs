//! Events held back during a state transition and replayed, in order, once
//! it is over.
use vstd::prelude::*;

verus! {

/// First-in first-out buffer of held back events.
pub struct EventQueue<T> {
    events: Vec<T>,
}

impl<T> View for EventQueue<T> {
    type V = Seq<T>;

    closed spec fn view(&self) -> Seq<T> {
        self.events@
    }
}

impl<T> EventQueue<T> {
    pub fn new() -> (r: Self)
        ensures
            r@ == Seq::<T>::empty(),
    {
        EventQueue { events: Vec::new() }
    }

    /// Holds back `events`, after those held back before.
    pub fn enqueue_events(&mut self, events: Vec<T>)
        ensures
            final(self)@ == old(self)@ + events@,
    {
        let mut events = events;
        self.events.append(&mut events);
    }

    /// Hands out all held back events, oldest first, and empties the queue.
    pub fn resend_events(&mut self) -> (r: Vec<T>)
        ensures
            r@ == old(self)@,
            final(self)@ == Seq::<T>::empty(),
    {
        let mut r: Vec<T> = Vec::new();
        core::mem::swap(&mut r, &mut self.events);
        r
    }
}

} // verus!
