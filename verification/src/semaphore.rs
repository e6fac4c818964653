//! Counting semaphores with a FIFO queue of blocked processes, and the set of
//! semaphores that a group of processes shares, keyed by number.
use vstd::prelude::*;
use std::collections::{BTreeMap, VecDeque};
use crate::pid::ProcessId;

verus! {

broadcast use {vstd::std_specs::btree::group_btree_axioms, vstd::laws_cmp::group_laws_cmp};

/// What a semaphore operation asks the scheduler to do.
#[derive(PartialEq, Eq, Structural, Clone, Copy, Debug)]
pub enum SemaphoreResult {
    Success,
    NotExist,
    Block(ProcessId),
    WakeUp(ProcessId),
}

/// A counting semaphore.
pub struct Semaphore {
    pub count: usize,
    pub wait_queue: VecDeque<ProcessId>,
}

/// The value of a semaphore: its count and the processes blocked on it, oldest first.
pub struct SemView {
    pub count: nat,
    pub waiting: Seq<ProcessId>,
}

impl View for Semaphore {
    type V = SemView;

    open spec fn view(&self) -> SemView {
        SemView { count: self.count as nat, waiting: self.wait_queue@ }
    }
}

/// `wait` by `pid` on a semaphore of value `s`: the new value and the answer.
pub open spec fn wait_spec(s: SemView, pid: ProcessId) -> (SemView, SemaphoreResult) {
    if s.count == 0 {
        (SemView { count: 0, waiting: s.waiting.push(pid) }, SemaphoreResult::Block(pid))
    } else {
        (SemView { count: (s.count - 1) as nat, waiting: s.waiting }, SemaphoreResult::Success)
    }
}

/// `signal` on a semaphore of value `s`: the oldest waiter wakes, else the count grows.
pub open spec fn signal_spec(s: SemView) -> (SemView, SemaphoreResult) {
    if s.waiting.len() > 0 {
        (SemView { count: s.count, waiting: s.waiting.drop_first() }, SemaphoreResult::WakeUp(
            s.waiting[0],
        ))
    } else {
        (SemView { count: s.count + 1, waiting: s.waiting }, SemaphoreResult::Success)
    }
}

/// A semaphore never both counts up and holds waiters.
pub open spec fn sem_inv(s: SemView) -> bool {
    s.count == 0 || s.waiting.len() == 0
}

impl Semaphore {
    pub fn new(value: usize) -> (s: Semaphore)
        ensures
            s@ == (SemView { count: value as nat, waiting: Seq::empty() }),
    {
        Semaphore { count: value, wait_queue: VecDeque::new() }
    }

    /// Takes one unit, or blocks `pid` when there is none.
    pub fn wait(&mut self, pid: ProcessId) -> (r: SemaphoreResult)
        ensures
            (final(self)@, r) == wait_spec(old(self)@, pid),
    {
        if self.count == 0 {
            self.wait_queue.push_back(pid);
            SemaphoreResult::Block(pid)
        } else {
            self.count = self.count - 1;
            SemaphoreResult::Success
        }
    }

    /// Wakes the oldest blocked process, or gives one unit back.
    pub fn signal(&mut self) -> (r: SemaphoreResult)
        requires
            old(self).count < usize::MAX,
        ensures
            (final(self)@, r) == signal_spec(old(self)@),
    {
        match self.wait_queue.pop_front() {
            Some(pid) => {
                assert(self.wait_queue@ =~= old(self).wait_queue@.drop_first());
                SemaphoreResult::WakeUp(pid)
            },
            None => {
                self.count = self.count + 1;
                SemaphoreResult::Success
            },
        }
    }
}

/// The semaphores of a group of processes, by key.
pub struct SemaphoreSet {
    pub sems: BTreeMap<u32, Semaphore>,
}

impl View for SemaphoreSet {
    type V = Map<u32, SemView>;

    open spec fn view(&self) -> Map<u32, SemView> {
        self.sems@.map_values(|s: Semaphore| s@)
    }
}

impl SemaphoreSet {
    pub fn new() -> (s: SemaphoreSet)
        ensures
            s@ == Map::<u32, SemView>::empty(),
    {
        let s = SemaphoreSet { sems: BTreeMap::new() };
        assert(s@ =~= Map::<u32, SemView>::empty());
        s
    }

    /// Creates (or replaces) semaphore `key` with value `value`; true when the
    /// key was new.
    pub fn insert(&mut self, key: u32, value: usize) -> (r: bool)
        ensures
            r == !old(self)@.contains_key(key),
            final(self)@ == old(self)@.insert(key, SemView { count: value as nat, waiting: Seq::empty() }),
    {
        let old_v = self.sems.insert(key, Semaphore::new(value));
        assert(self@ =~= old(self)@.insert(key, SemView { count: value as nat, waiting: Seq::empty() }));
        old_v.is_none()
    }

    /// Deletes semaphore `key`; true when it existed.
    pub fn remove(&mut self, key: u32) -> (r: bool)
        ensures
            r == old(self)@.contains_key(key),
            final(self)@ == old(self)@.remove(key),
    {
        let old_v = self.sems.remove(&key);
        assert(self@ =~= old(self)@.remove(key));
        old_v.is_some()
    }

    /// `wait` by `pid` on semaphore `key`; `NotExist` when there is none.
    pub fn wait(&mut self, key: u32, pid: ProcessId) -> (r: SemaphoreResult)
        ensures
            old(self)@.contains_key(key) ==> {
                let (s2, res) = wait_spec(old(self)@[key], pid);
                &&& r == res
                &&& final(self)@ == old(self)@.insert(key, s2)
            },
            !old(self)@.contains_key(key) ==> r == SemaphoreResult::NotExist && final(self)@ == old(
                self,
            )@,
    {
        match self.sems.remove(&key) {
            Some(mut sem) => {
                let r = sem.wait(pid);
                self.sems.insert(key, sem);
                assert(self@ =~= old(self)@.insert(key, wait_spec(old(self)@[key], pid).0));
                r
            },
            None => {
                assert(self@ =~= old(self)@);
                SemaphoreResult::NotExist
            },
        }
    }

    /// `signal` on semaphore `key`; `NotExist` when there is none.
    pub fn signal(&mut self, key: u32) -> (r: SemaphoreResult)
        requires
            old(self)@.contains_key(key) ==> old(self)@[key].count < usize::MAX,
        ensures
            old(self)@.contains_key(key) ==> {
                let (s2, res) = signal_spec(old(self)@[key]);
                &&& r == res
                &&& final(self)@ == old(self)@.insert(key, s2)
            },
            !old(self)@.contains_key(key) ==> r == SemaphoreResult::NotExist && final(self)@ == old(
                self,
            )@,
    {
        match self.sems.remove(&key) {
            Some(mut sem) => {
                let r = sem.signal();
                self.sems.insert(key, sem);
                assert(self@ =~= old(self)@.insert(key, signal_spec(old(self)@[key]).0));
                r
            },
            None => {
                assert(self@ =~= old(self)@);
                SemaphoreResult::NotExist
            },
        }
    }
}

/// `wait` and `signal` keep the semaphore invariant: a semaphore never has
/// both a positive count and waiting processes.
pub proof fn law_semaphore_invariant(s: SemView, pid: ProcessId)
    requires
        sem_inv(s),
    ensures
        sem_inv(wait_spec(s, pid).0),
        sem_inv(signal_spec(s).0),
{
}

/// A `signal` after a `wait` that did not block undoes it.
pub proof fn law_wait_then_signal_restores(s: SemView, pid: ProcessId)
    requires
        sem_inv(s),
        s.count > 0,
    ensures
        signal_spec(wait_spec(s, pid).0).0 == s,
{
    let w = wait_spec(s, pid).0;
    assert(w.waiting.len() == 0);
    assert(signal_spec(w).0 == SemView { count: s.count, waiting: s.waiting });
}

/// Waiters wake in the order in which they blocked: after `k` processes block
/// on a semaphore with no units, `k` signals wake them oldest first.
pub proof fn law_waiters_wake_in_order(s: SemView, pid: ProcessId)
    requires
        s.count == 0,
    ensures
        wait_spec(s, pid).1 == SemaphoreResult::Block(pid),
        s.waiting.len() > 0 ==> signal_spec(wait_spec(s, pid).0).1 == SemaphoreResult::WakeUp(
            s.waiting[0],
        ),
        s.waiting.len() == 0 ==> signal_spec(wait_spec(s, pid).0).1 == SemaphoreResult::WakeUp(
            pid,
        ),
{
}

} // verus!
