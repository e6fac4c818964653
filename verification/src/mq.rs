//! The shared buffer of the producer-consumer program: five slots filled
//! and emptied at the top.
use vstd::prelude::*;

verus! {

/// The number of slots.
pub const QUEUE_LEN: usize = 5;

/// The shared buffer: `head` slots are filled.
pub struct SharedQueue {
    items: [u8; 5],
    head: usize,
}

impl View for SharedQueue {
    type V = Seq<u8>;

    /// The filled slots, bottom first.
    closed spec fn view(&self) -> Seq<u8> {
        self.items@.take(self.head as int)
    }
}

impl SharedQueue {
    pub closed spec fn wf(&self) -> bool {
        self.head <= QUEUE_LEN
    }

    /// An empty buffer.
    pub fn new() -> (q: SharedQueue)
        ensures
            q.wf(),
            q@ == Seq::<u8>::empty(),
    {
        let q = SharedQueue { items: [0u8; 5], head: 0 };
        assert(q@ =~= Seq::<u8>::empty());
        q
    }

    /// The number of filled slots.
    pub fn head(&self) -> (n: usize)
        requires
            self.wf(),
        ensures
            n == self@.len(),
    {
        self.head
    }

    /// A producer puts `v` on top; the buffer must not be full.
    pub fn push(&mut self, v: u8)
        requires
            old(self).wf(),
            old(self)@.len() < QUEUE_LEN,
        ensures
            final(self).wf(),
            final(self)@ == old(self)@.push(v),
    {
        let h = self.head;
        self.items[h] = v;
        self.head = h + 1;
        assert(self@ =~= old(self)@.push(v));
    }

    /// A consumer takes the top value; the buffer must not be empty.
    pub fn pop(&mut self) -> (v: u8)
        requires
            old(self).wf(),
            old(self)@.len() > 0,
        ensures
            final(self).wf(),
            v == old(self)@.last(),
            final(self)@ == old(self)@.drop_last(),
    {
        self.head = self.head - 1;
        let v = self.items[self.head];
        assert(self@ =~= old(self)@.drop_last());
        v
    }
}

/// A value put on top is the next one taken, and taking it leaves the
/// buffer as it was.
pub proof fn law_pop_returns_last_push(s: Seq<u8>, v: u8)
    ensures
        s.push(v).last() == v,
        s.push(v).drop_last() == s,
{
    assert(s.push(v).drop_last() =~= s);
}

} // verus!
