//! Progress counters: one per transfer and one for the whole batch.
//!
//! A counter holds a position and a length (0 when the length is unknown).
//! Its position never decreases, and never passes a known length.

use vstd::prelude::*;

verus! {

pub struct ProgressCounter {
    position: u64,
    length: u64,
}

/// The highest position a counter of this length may reach.
pub open spec fn cap_of(length: u64) -> u64 {
    if length > 0 { length } else { u64::MAX }
}

/// `position + delta`, held at `cap`.
pub open spec fn advanced(position: u64, delta: u64, cap: u64) -> u64 {
    if position + delta >= cap { cap } else { (position + delta) as u64 }
}

impl ProgressCounter {
    /// The counter's invariant: the position does not pass a known length.
    pub open spec fn wf(&self) -> bool {
        self.len() > 0 ==> self.pos() <= self.len()
    }

    pub closed spec fn pos(&self) -> u64 {
        self.position
    }

    pub closed spec fn len(&self) -> u64 {
        self.length
    }

    /// A counter at position 0; `length` 0 means unknown.
    pub fn new(length: u64) -> (r: Self)
        ensures
            r.wf(),
            r.pos() == 0,
            r.len() == length,
    {
        ProgressCounter { position: 0, length }
    }

    pub fn position(&self) -> (r: u64)
        ensures
            r == self.pos(),
    {
        self.position
    }

    pub fn length(&self) -> (r: u64)
        ensures
            r == self.len(),
    {
        self.length
    }

    /// Adds `delta` bytes; the position stops at a known length.
    pub fn add(&mut self, delta: u64)
        requires
            old(self).wf(),
        ensures
            final(self).wf(),
            final(self).len() == old(self).len(),
            final(self).pos() == advanced(old(self).pos(), delta, cap_of(old(self).len())),
            final(self).pos() >= old(self).pos(),
    {
        let cap: u64 = if self.length > 0 { self.length } else { u64::MAX };
        if delta >= cap - self.position {
            self.position = cap;
        } else {
            self.position = self.position + delta;
        }
    }

    /// Moves the position up to `target` (held at a known length); a target
    /// below the position leaves it unchanged.
    pub fn advance_to(&mut self, target: u64)
        requires
            old(self).wf(),
        ensures
            final(self).wf(),
            final(self).len() == old(self).len(),
            final(self).pos() == if target <= old(self).pos() {
                old(self).pos()
            } else if old(self).len() > 0 && target > old(self).len() {
                old(self).len()
            } else {
                target
            },
            final(self).pos() >= old(self).pos(),
    {
        if target > self.position {
            if self.length > 0 && target > self.length {
                self.position = self.length;
            } else {
                self.position = target;
            }
        }
    }
}

/// The overall counter only moves forward, and never passes a known length,
/// whatever sequence of additions it receives.
pub proof fn lemma_additions_keep_counter_sound(c: ProgressCounter, deltas: Seq<u64>)
    requires
        c.wf(),
    ensures
        c.len() > 0 ==> added_all(c.pos(), deltas, cap_of(c.len())) <= c.len(),
        added_all(c.pos(), deltas, cap_of(c.len())) >= c.pos(),
    decreases deltas.len(),
{
    if deltas.len() > 0 {
        let next = advanced(c.pos(), deltas[0], cap_of(c.len()));
        let c2 = ProgressCounter { position: next, length: c.len() };
        lemma_additions_keep_counter_sound(c2, deltas.drop_first());
    }
}

/// The position reached from `position` after adding each of `deltas` in turn.
pub open spec fn added_all(position: u64, deltas: Seq<u64>, cap: u64) -> u64
    decreases deltas.len(),
{
    if deltas.len() == 0 {
        position
    } else {
        added_all(advanced(position, deltas[0], cap), deltas.drop_first(), cap)
    }
}

} // verus!
