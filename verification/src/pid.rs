//! Process identifiers and the counter that hands them out.
use vstd::prelude::*;

verus! {

/// A process identifier.
#[derive(Clone, Copy, PartialEq, Eq, Structural, PartialOrd, Ord, Debug)]
pub struct ProcessId(pub u16);

/// The source of fresh identifiers: the next one to hand out, and whether
/// the counter has gone past 65535 (after which identifiers may repeat).
pub struct PidCounter {
    pub next: u16,
    pub wrapped: Ghost<bool>,
}

impl PidCounter {
    /// Identifiers start at 1.
    pub fn new() -> (c: PidCounter)
        ensures
            c.next == 1,
            !c.wrapped@,
    {
        PidCounter { next: 1, wrapped: Ghost(false) }
    }
}

impl ProcessId {
    /// Takes the next identifier from `counter`, which moves on by one
    /// (wrapping around after 65535).
    pub fn new(counter: &mut PidCounter) -> (pid: ProcessId)
        ensures
            pid.0 == old(counter).next,
            final(counter).next == (old(counter).next + 1) % 65536,
            final(counter).wrapped@ == (old(counter).wrapped@ || old(counter).next == 65535),
    {
        let id = counter.next;
        counter.next = id.wrapping_add(1);
        proof {
            counter.wrapped = Ghost(counter.wrapped@ || id == 65535);
        }
        ProcessId(id)
    }

    /// The number of the identifier.
    pub fn value(&self) -> (r: u16)
        ensures
            r == self.0,
    {
        self.0
    }
}

} // verus!
