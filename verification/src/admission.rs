//! The admission gate, which bounds how many requests are in flight at
//! once.
//!
//! An admission gate is a counter and an optional limit. Whoever shares it
//! between workers guards it with a lock, so that each call below is one
//! atomic step.

use vstd::prelude::*;

verus! {

/// The admission gate: the limit it was made with and the number of
/// requests that hold admission right now. Without a limit it admits
/// everyone and counts nothing.
#[derive(Debug)]
pub struct Admission {
    limit: Option<u32>,
    in_flight: u32,
}

impl Admission {
    /// The limit that this gate was made with.
    pub closed spec fn limit(&self) -> Option<u32> {
        self.limit
    }

    /// The number of requests that hold admission.
    pub closed spec fn in_flight(&self) -> nat {
        self.in_flight as nat
    }

    /// The count never exceeds the limit, and stays at zero without one.
    pub open spec fn wf(&self) -> bool {
        match self.limit() {
            Some(limit) => self.in_flight() <= limit,
            None => self.in_flight() == 0,
        }
    }

    /// One more request may be admitted.
    pub open spec fn has_room(&self) -> bool {
        match self.limit() {
            Some(limit) => self.in_flight() < limit,
            None => true,
        }
    }

    /// The count after a request has asked for admission: one more if
    /// there is a limit and room under it, else the same.
    pub open spec fn in_flight_after_acquire(&self) -> nat {
        if self.limit() is Some && self.has_room() {
            self.in_flight() + 1
        } else {
            self.in_flight()
        }
    }

    /// The count after a request has given its admission back: one less
    /// if there is a limit, else the same.
    pub open spec fn in_flight_after_release(&self) -> int {
        if self.limit() is Some {
            self.in_flight() - 1
        } else {
            self.in_flight() as int
        }
    }

    /// A gate through which nothing has passed yet.
    pub fn new(limit: Option<u32>) -> (gate: Admission)
        ensures
            gate.wf(),
            gate.limit() == limit,
            gate.in_flight() == 0,
    {
        Admission { limit, in_flight: 0 }
    }

    /// The number of requests that hold admission.
    pub fn count(&self) -> (count: u32)
        ensures
            count == self.in_flight(),
    {
        self.in_flight
    }

    /// Asks for admission, without waiting. Where there is room the
    /// request is admitted and counted in the same step; where there is
    /// none, nothing changes and the caller is to ask again later.
    pub fn try_acquire(&mut self) -> (admitted: bool)
        requires
            old(self).wf(),
        ensures
            final(self).wf(),
            final(self).limit() == old(self).limit(),
            admitted == old(self).has_room(),
            final(self).in_flight() == old(self).in_flight_after_acquire(),
    {
        match self.limit {
            Some(limit) => {
                if self.in_flight < limit {
                    self.in_flight = self.in_flight + 1;
                    true
                } else {
                    false
                }
            },
            None => true,
        }
    }

    /// Gives back the admission of a request that was admitted before.
    pub fn release(&mut self)
        requires
            old(self).wf(),
            old(self).limit() is Some ==> old(self).in_flight() > 0,
        ensures
            final(self).wf(),
            final(self).limit() == old(self).limit(),
            final(self).in_flight() == old(self).in_flight_after_release(),
    {
        if self.limit.is_some() {
            self.in_flight = self.in_flight - 1;
        }
    }
}

} // verus!
