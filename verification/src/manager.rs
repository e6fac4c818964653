//! The process manager: the table of processes, the ready queue, the
//! current process, and the decisions of scheduling, killing, forking,
//! spawning and semaphore operations.
use vstd::prelude::*;
use std::collections::{BTreeMap, VecDeque};
use crate::pid::{PidCounter, ProcessId};
use crate::process::{
    child_base_ok, inner_live_ok, is_canonical, page_of, range_of, range_ok, user_range,
    virt_truncate, PageTableRef, Process, ProcessContext, ProcessData, ProgramStatus, Released,
    StackRange, STACK_DEF_PAGE, STACK_INIT_TOP, STACK_MAX, STACK_MAX_PAGES, STACK_MAX_SIZE,
};
use crate::semaphore::{signal_spec, wait_spec, SemView, SemaphoreResult, SemaphoreSet};

verus! {

broadcast use {vstd::std_specs::btree::group_btree_axioms, vstd::laws_cmp::group_laws_cmp};

/// The process table and the scheduler's state.
pub struct ProcessManager {
    pub processes: BTreeMap<u16, Process>,
    pub ready_queue: VecDeque<ProcessId>,
    pub app_list: Vec<String>,
    /// The process running on the processor.
    pub current: ProcessId,
    pub pids: PidCounter,
    /// The semaphore sets that process families share.
    pub sem_sets: Vec<SemaphoreSet>,
}

/// A process that is not dead still has its data, stack and page table, a
/// stack in the user half, and a semaphore set that exists.
pub open spec fn live_ok(p: Process, n_sets: nat) -> bool {
    p.inner.status != ProgramStatus::Dead ==> {
        &&& inner_live_ok(p.inner)
        &&& user_range(p.inner.proc_data.unwrap().stack_segment.unwrap())
        &&& p.inner.proc_data.unwrap().semaphores < n_sets
    }
}

/// One line of the process list.
#[derive(Clone, Debug)]
pub struct ProcessRow {
    pub pid: u16,
    pub ppid: u16,
    pub name: String,
    pub ticks: usize,
    pub status: ProgramStatus,
}

pub open spec fn row_view(r: ProcessRow) -> (u16, u16, Seq<char>, usize, ProgramStatus) {
    (r.pid, r.ppid, r.name@, r.ticks, r.status)
}

/// The line of the process list for `p`.
pub open spec fn row_of(p: Process) -> (u16, u16, Seq<char>, usize, ProgramStatus) {
    (
        p.pid.0,
        match p.inner.parent {
            Some(q) => q.0,
            None => 0,
        },
        p.inner.name@,
        p.inner.ticks_passed,
        p.inner.status,
    )
}

/// The lines for the processes with identifiers below `k` that are not
/// dead, in increasing order of identifier.
pub open spec fn rows_below(m: Map<u16, Process>, k: int) -> Seq<(u16, u16, Seq<char>, usize, ProgramStatus)>
    decreases k,
{
    if k <= 0 {
        Seq::empty()
    } else {
        let prev = rows_below(m, k - 1);
        let key = (k - 1) as u16;
        if m.contains_key(key) && m[key].inner.status != ProgramStatus::Dead {
            prev.push(row_of(m[key]))
        } else {
            prev
        }
    }
}

/// The position of the first identifier in `q` that names a ready process
/// of `m`, or the length of `q` when there is none.
pub open spec fn first_ready(q: Seq<ProcessId>, m: Map<u16, Process>) -> nat
    decreases q.len(),
{
    if q.len() == 0 {
        0
    } else if m.contains_key(q[0].0) && m[q[0].0].inner.status == ProgramStatus::Ready {
        0
    } else {
        1 + first_ready(q.drop_first(), m)
    }
}

pub proof fn lemma_first_ready(q: Seq<ProcessId>, m: Map<u16, Process>)
    ensures
        first_ready(q, m) <= q.len(),
        first_ready(q, m) < q.len() ==> m.contains_key(q[first_ready(q, m) as int].0)
            && m[q[first_ready(q, m) as int].0].inner.status == ProgramStatus::Ready,
    decreases q.len(),
{
    if q.len() > 0 {
        lemma_first_ready(q.drop_first(), m);
    }
}

/// Whether `pid` names a ready process of `m`.
pub open spec fn is_ready_in(m: Map<u16, Process>, pid: ProcessId) -> bool {
    m.contains_key(pid.0) && m[pid.0].inner.status == ProgramStatus::Ready
}

/// Round robin: the process picked from the queue is ready, and every
/// identifier before it names no ready process; so a process put at the
/// back of the queue runs again only after every ready process queued
/// before it.
pub proof fn law_round_robin(q: Seq<ProcessId>, m: Map<u16, Process>)
    ensures
        first_ready(q, m) <= q.len(),
        first_ready(q, m) < q.len() ==> is_ready_in(m, q[first_ready(q, m) as int]),
        forall|j: int| 0 <= j < first_ready(q, m) ==> !is_ready_in(m, #[trigger] q[j]),
    decreases q.len(),
{
    if q.len() > 0 {
        law_round_robin(q.drop_first(), m);
        let r = q.drop_first();
        assert forall|j: int| 0 <= j < first_ready(q, m) implies !is_ready_in(m, #[trigger] q[j]) by {
            if j > 0 {
                assert(q[j] == r[j - 1]);
            }
        }
    }
}

/// What a `signal` on semaphore `key` of the running process does: the
/// semaphore steps as `signal_spec` says; the call returns 0 when it gave a
/// unit back and 1 when there is no such semaphore; a woken process is
/// ready and queued.
pub open spec fn signal_effect(
    m0: ProcessManager,
    m1: ProcessManager,
    key: u32,
    c0: ProcessContext,
    c1: ProcessContext,
) -> bool {
    let found = m0.cur_sems().contains_key(key);
    let res = if found {
        signal_spec(m0.cur_sems()[key]).1
    } else {
        SemaphoreResult::NotExist
    };
    &&& found ==> m1.cur_sems().contains_key(key) && m1.cur_sems()[key] == signal_spec(m0.cur_sems()[key]).0
    &&& m1.current == m0.current
    &&& match res {
        SemaphoreResult::Success => c1 == (ProcessContext { rax: 0, ..c0 }),
        SemaphoreResult::NotExist => c1 == (ProcessContext { rax: 1, ..c0 }),
        SemaphoreResult::WakeUp(pid) => c1 == c0 && (m0.processes@.contains_key(pid.0)
            ==> m1.ready_queue@ == m0.ready_queue@.push(pid) && m1.processes@[pid.0].inner.status
            == ProgramStatus::Ready),
        SemaphoreResult::Block(pid) => c1 == c0,
    }
}

/// What a `wait` on semaphore `key` by the running process does: the
/// semaphore steps as `wait_spec` says (a missing one changes nothing); the
/// call returns 0 when it took a unit and 1 when there is no such
/// semaphore, and the process keeps running; when it has to wait, its
/// registers are saved, it is blocked, and the first ready process of the
/// queue runs with its registers loaded (the caller itself when none is
/// ready).
pub open spec fn wait_effect(
    m0: ProcessManager,
    m1: ProcessManager,
    key: u32,
    c0: ProcessContext,
    c1: ProcessContext,
) -> bool {
    let p = m0.current;
    let set = m0.cur().inner.proc_data.unwrap().semaphores;
    let found = m0.cur_sems().contains_key(key);
    let res = if found {
        wait_spec(m0.cur_sems()[key], p).1
    } else {
        SemaphoreResult::NotExist
    };
    let q = m0.ready_queue@;
    let others = m0.processes@.remove(p.0);
    let i = first_ready(q, others);
    let running = m0.cur().inner.status == ProgramStatus::Running || m0.cur().inner.status
        == ProgramStatus::Ready;
    &&& found ==> m1.sem_sets@[set as int]@ == m0.cur_sems().insert(key, wait_spec(m0.cur_sems()[key], p).0)
    &&& !found ==> m1.sem_sets@[set as int]@ == m0.cur_sems()
    &&& match res {
        SemaphoreResult::Success => c1 == (ProcessContext { rax: 0, ..c0 }) && m1.current == p,
        SemaphoreResult::NotExist => c1 == (ProcessContext { rax: 1, ..c0 }) && m1.current == p,
        SemaphoreResult::Block(pid) => {
            &&& pid == p
            &&& m1.processes@[p.0].inner.status == ProgramStatus::Blocked
            &&& running ==> m1.processes@[p.0].inner.context == c0
            &&& i < q.len() ==> m1.current == q[i as int] && c1 == others[q[i as int].0].inner.context
            &&& i >= q.len() ==> m1.current == p && c1 == c0
        },
        SemaphoreResult::WakeUp(_) => true,
    }
}

/// `first_ready` depends only on which identifiers name ready processes.
pub proof fn lemma_first_ready_same(q: Seq<ProcessId>, m1: Map<u16, Process>, m2: Map<u16, Process>)
    requires
        forall|p: ProcessId| is_ready_in(m1, p) <==> is_ready_in(m2, p),
    ensures
        first_ready(q, m1) == first_ready(q, m2),
    decreases q.len(),
{
    if q.len() > 0 {
        assert(is_ready_in(m1, q[0]) <==> is_ready_in(m2, q[0]));
        lemma_first_ready_same(q.drop_first(), m1, m2);
    }
}

impl ProcessManager {
    /// Until the identifier counter wraps, every identifier in the table is
    /// below the next one it hands out, so that one is fresh.
    pub open spec fn pids_fresh(self) -> bool {
        self.pids.wrapped@ || forall|k: u16| #[trigger] self.processes@.contains_key(k) ==> k < self.pids.next
    }

    pub open spec fn wf(self) -> bool {
        &&& self.pids_fresh()
        &&& forall|k: u16| #[trigger] self.processes@.contains_key(k) ==> self.processes@[k].pid.0 == k
        &&& self.processes@.contains_key(self.current.0)
        &&& forall|k: u16| #[trigger] self.processes@.contains_key(k) ==> live_ok(
            self.processes@[k],
            self.sem_sets@.len(),
        )
    }

    /// The current process.
    pub open spec fn cur(self) -> Process {
        self.processes@[self.current.0]
    }

    /// The semaphore set of the current process.
    pub open spec fn cur_sems(self) -> Map<u32, SemView> {
        self.sem_sets@[self.cur().inner.proc_data.unwrap().semaphores as int]@
    }

    /// The manager with `init` as its only and current process.
    pub fn new(init: Process, app_list: Vec<String>, sem_sets: Vec<SemaphoreSet>, pids: PidCounter) -> (m: Self)
        requires
            live_ok(init, sem_sets@.len()),
        ensures
            m.wf(),
            m.processes@ == Map::<u16, Process>::empty().insert(init.pid.0, init),
            m.ready_queue@ == Seq::<ProcessId>::empty(),
            m.current == init.pid,
            m.app_list == app_list,
            m.pids.next == pids.next,
            m.pids.wrapped@ == (pids.wrapped@ || init.pid.0 >= pids.next),
            m.sem_sets == sem_sets,
    {
        let ghost w: bool = pids.wrapped@ || init.pid.0 >= pids.next;
        let wrapped: Ghost<bool> = Ghost(w);
        let pids = PidCounter { next: pids.next, wrapped };
        let mut processes = BTreeMap::new();
        let pid = init.pid;
        processes.insert(pid.0, init);
        ProcessManager { processes, ready_queue: VecDeque::new(), app_list, current: pid, pids, sem_sets }
    }

    pub fn app_list(&self) -> (r: &Vec<String>)
        ensures
            r == &self.app_list,
    {
        &self.app_list
    }

    /// The exit code of process `pid`, cut to 32 bits, if it has ended.
    pub fn get_exit_code(&self, pid: &ProcessId) -> (r: Option<i32>)
        ensures
            r == (if self.processes@.contains_key(pid.0) {
                match self.processes@[pid.0].inner.exit_code {
                    Some(c) => Some(c as i32),
                    None => None,
                }
            } else {
                None
            }),
    {
        match self.processes.get(&pid.0) {
            Some(p) => match p.inner.exit_code {
                Some(code) => Some(code as i32),
                None => None,
            },
            None => None,
        }
    }

    /// Queues `pid` to run.
    pub fn push_ready(&mut self, pid: ProcessId)
        ensures
            final(self).ready_queue@ == old(self).ready_queue@.push(pid),
            final(self).processes@ == old(self).processes@,
            final(self).current == old(self).current,
            final(self).pids == old(self).pids,
            final(self).sem_sets == old(self).sem_sets,
            final(self).app_list == old(self).app_list,
    {
        self.ready_queue.push_back(pid);
    }

    fn add_proc(&mut self, pid: ProcessId, proc: Process)
        requires
            proc.pid == pid,
        ensures
            final(self).processes@ == old(self).processes@.insert(pid.0, proc),
            final(self).ready_queue == old(self).ready_queue,
            final(self).current == old(self).current,
            final(self).pids == old(self).pids,
            final(self).sem_sets == old(self).sem_sets,
            final(self).app_list == old(self).app_list,
    {
        self.processes.insert(pid.0, proc);
    }

    pub fn get_proc(&self, pid: &ProcessId) -> (r: Option<&Process>)
        ensures
            match r {
                Some(p) => self.processes@.contains_key(pid.0) && *p == self.processes@[pid.0],
                None => !self.processes@.contains_key(pid.0),
            },
    {
        self.processes.get(&pid.0)
    }

    /// The current process.
    pub fn current(&self) -> (r: &Process)
        requires
            self.wf(),
        ensures
            *r == self.cur(),
    {
        self.processes.get(&self.current.0).unwrap()
    }

    /// Charges a tick to the current process and saves its registers from
    /// `context` (see `ProcessInner::save`).
    pub fn save_current(&mut self, context: &ProcessContext)
        requires
            old(self).wf(),
            old(self).cur().inner.ticks_passed < usize::MAX,
        ensures
            final(self).wf(),
            ({
                let o = old(self).cur().inner;
                let n = final(self).cur().inner;
                let saves = o.status == ProgramStatus::Running || o.status == ProgramStatus::Ready;
                &&& n.ticks_passed == o.ticks_passed + 1
                &&& saves ==> n.context == *context && n.status == ProgramStatus::Ready
                &&& !saves ==> n.context == o.context && n.status == o.status
                &&& n.name == o.name && n.parent == o.parent && n.children == o.children
                &&& n.exit_code == o.exit_code && n.page_table == o.page_table && n.proc_data
                    == o.proc_data
            }),
            final(self).processes@.dom() == old(self).processes@.dom(),
            forall|k: u16| k != old(self).current.0 ==> #[trigger] final(self).processes@.get(k)
                == old(self).processes@.get(k),
            final(self).cur().pid == old(self).cur().pid,
            final(self).processes@ == old(self).processes@.insert(
                old(self).current.0,
                Process { pid: old(self).cur().pid, inner: saved(old(self).cur().inner, *context) },
            ),
            final(self).ready_queue == old(self).ready_queue,
            final(self).current == old(self).current,
            final(self).pids == old(self).pids,
            final(self).sem_sets == old(self).sem_sets,
            final(self).app_list == old(self).app_list,
    {
        let k = self.current.0;
        let mut p = match self.processes.remove(&k) {
            Some(p) => p,
            None => {
                assert(false);
                return ;
            },
        };
        p.inner.tick();
        p.inner.save(context);
        self.processes.insert(k, p);
        assert(self.processes@ =~= old(self).processes@.insert(k, p));
    }

    /// Takes identifiers off the front of the ready queue until one names a
    /// ready process; that process runs next: its registers go into
    /// `context`, it is marked running and becomes current. When the queue
    /// runs out, nothing else changes. Returns the identifier of the process
    /// now current.
    pub fn switch_next(&mut self, context: &mut ProcessContext) -> (r: ProcessId)
        requires
            old(self).wf(),
        ensures
            final(self).wf(),
            ({
                let q = old(self).ready_queue@;
                let m = old(self).processes@;
                let i = first_ready(q, m);
                if i < q.len() {
                    let pid = q[i as int];
                    &&& r == pid
                    &&& final(self).current == pid
                    &&& final(self).ready_queue@ == q.skip(i + 1 as int)
                    &&& *final(context) == m[pid.0].inner.context
                    &&& final(self).processes@ == m.insert(
                        pid.0,
                        Process {
                            pid: m[pid.0].pid,
                            inner: with_status(m[pid.0].inner, ProgramStatus::Running),
                        },
                    )
                } else {
                    &&& r == old(self).current
                    &&& final(self).current == old(self).current
                    &&& final(self).ready_queue@ == Seq::<ProcessId>::empty()
                    &&& *final(context) == *old(context)
                    &&& final(self).processes@ == m
                }
            }),
            final(self).pids == old(self).pids,
            final(self).sem_sets == old(self).sem_sets,
            final(self).app_list == old(self).app_list,
    {
        let ghost q0 = self.ready_queue@;
        let ghost m = self.processes@;
        loop
            invariant
                self.wf(),
                self.processes@ == m,
                self.current == old(self).current,
                *context == *old(context),
                self.pids == old(self).pids,
                self.sem_sets == old(self).sem_sets,
                self.app_list == old(self).app_list,
                q0 == old(self).ready_queue@,
                m == old(self).processes@,
                ({
                    let d = (q0.len() - self.ready_queue@.len()) as int;
                    &&& 0 <= d <= q0.len()
                    &&& self.ready_queue@ == q0.skip(d)
                    &&& first_ready(q0, m) == d + first_ready(self.ready_queue@, m)
                }),
            decreases self.ready_queue@.len(),
        {
            let ghost qb = self.ready_queue@;
            match self.ready_queue.pop_front() {
                Some(pid) => {
                    let ghost d = (q0.len() - qb.len()) as int;
                    proof {
                        assert(self.ready_queue@ =~= qb.drop_first());
                        assert(q0.skip(d + 1) =~= qb.drop_first());
                        assert(qb[0] == pid);
                    }
                    let ready = match self.processes.get(&pid.0) {
                        Some(p) => p.inner.status == ProgramStatus::Ready,
                        None => false,
                    };
                    if ready {
                        let mut p = match self.processes.remove(&pid.0) {
                            Some(p) => p,
                            None => {
                                assert(false);
                                return pid;
                            },
                        };
                        assert(live_ok(p, self.sem_sets@.len()));
                        let _pt = p.inner.restore(context);
                        self.processes.insert(pid.0, p);
                        self.current = pid;
                        proof {
                            assert(first_ready(qb, m) == 0);
                            assert(self.processes@ =~= m.insert(
                                pid.0,
                                Process {
                                    pid: m[pid.0].pid,
                                    inner: with_status(m[pid.0].inner, ProgramStatus::Running),
                                },
                            ));
                            lemma_first_ready(q0, m);
                            assert(q0[d] == pid);
                        }
                        return pid;
                    }
                },
                None => {
                    proof {
                        lemma_first_ready(q0, m);
                    }
                    return self.current;
                },
            }
        }
    }

    /// Kills process `pid` with exit code `ret` unless it is missing or
    /// already dead; returns what it leaves to free.
    pub fn kill(&mut self, pid: ProcessId, ret: isize) -> (rel: Option<Released>)
        requires
            old(self).wf(),
        ensures
            final(self).wf(),
            ({
                let m = old(self).processes@;
                if m.contains_key(pid.0) && m[pid.0].inner.status != ProgramStatus::Dead {
                    let o = m[pid.0].inner;
                    let n = final(self).processes@[pid.0].inner;
                    &&& final(self).processes@.dom() == m.dom()
                    &&& forall|k: u16| k != pid.0 ==> #[trigger] final(self).processes@.get(k) == m.get(k)
                    &&& final(self).processes@[pid.0].pid == pid
                    &&& n.exit_code == Some(ret)
                    &&& n.status == ProgramStatus::Dead
                    &&& n.proc_data is None
                    &&& n.page_table is None
                    &&& n.name == o.name && n.parent == o.parent && n.children == o.children
                    &&& n.ticks_passed == o.ticks_passed && n.context == o.context
                    &&& rel == Some(
                        Released {
                            page_table: o.page_table.unwrap(),
                            stack: o.proc_data.unwrap().stack_segment.unwrap(),
                        },
                    )
                } else {
                    &&& rel is None
                    &&& final(self).processes@ == m
                }
            }),
            final(self).ready_queue == old(self).ready_queue,
            final(self).current == old(self).current,
            final(self).pids == old(self).pids,
            final(self).sem_sets == old(self).sem_sets,
            final(self).app_list == old(self).app_list,
    {
        let live = match self.processes.get(&pid.0) {
            Some(p) => p.inner.status != ProgramStatus::Dead,
            None => false,
        };
        if !live {
            return None;
        }
        let mut p = match self.processes.remove(&pid.0) {
            Some(p) => p,
            None => {
                assert(false);
                return None;
            },
        };
        let rel = p.kill(ret);
        self.processes.insert(pid.0, p);
        assert(self.processes@.dom() =~= old(self).processes@.dom());
        Some(rel)
    }

    /// Kills the current process (see `kill`).
    pub fn kill_current(&mut self, ret: isize) -> (rel: Option<Released>)
        requires
            old(self).wf(),
        ensures
            final(self).wf(),
            final(self).current == old(self).current,
            final(self).cur().inner.status == ProgramStatus::Dead,
            old(self).cur().inner.status != ProgramStatus::Dead ==> final(self).cur().inner.exit_code
                == Some(ret) && rel is Some,
            old(self).cur().inner.status == ProgramStatus::Dead ==> final(self).processes@ == old(
                self,
            ).processes@ && rel is None,
            final(self).processes@.dom() == old(self).processes@.dom(),
            forall|k: u16| k != old(self).current.0 ==> #[trigger] final(self).processes@.get(k)
                == old(self).processes@.get(k),
            final(self).ready_queue == old(self).ready_queue,
    {
        let pid = self.current;
        self.kill(pid, ret)
    }

    /// Kills the current process (see `kill`).
    pub fn kill_self(&mut self, ret: isize) -> (rel: Option<Released>)
        requires
            old(self).wf(),
        ensures
            final(self).wf(),
            final(self).current == old(self).current,
            final(self).cur().inner.status == ProgramStatus::Dead,
            old(self).cur().inner.status != ProgramStatus::Dead ==> final(self).cur().inner.exit_code
                == Some(ret) && rel is Some,
            final(self).processes@.dom() == old(self).processes@.dom(),
            forall|k: u16| k != old(self).current.0 ==> #[trigger] final(self).processes@.get(k)
                == old(self).processes@.get(k),
            final(self).ready_queue == old(self).ready_queue,
    {
        self.kill_current(ret)
    }

    /// Marks `pid` ready and queues it, if it exists.
    pub fn wake_up(&mut self, pid: ProcessId)
        requires
            old(self).wf(),
            old(self).processes@.contains_key(pid.0) ==> old(self).processes@[pid.0].inner.status
                != ProgramStatus::Dead,
        ensures
            final(self).wf(),
            old(self).processes@.contains_key(pid.0) ==> {
                &&& final(self).processes@ == old(self).processes@.insert(
                    pid.0,
                    Process {
                        pid: old(self).processes@[pid.0].pid,
                        inner: with_status(old(self).processes@[pid.0].inner, ProgramStatus::Ready),
                    },
                )
                &&& final(self).ready_queue@ == old(self).ready_queue@.push(pid)
            },
            !old(self).processes@.contains_key(pid.0) ==> final(self).processes@ == old(
                self,
            ).processes@ && final(self).ready_queue@ == old(self).ready_queue@,
            final(self).current == old(self).current,
            final(self).pids == old(self).pids,
            final(self).sem_sets == old(self).sem_sets,
            final(self).app_list == old(self).app_list,
    {
        match self.processes.remove(&pid.0) {
            Some(mut p) => {
                assert(live_ok(p, self.sem_sets@.len()));
                p.inner.pause();
                self.processes.insert(pid.0, p);
                assert(self.processes@ =~= old(self).processes@.insert(
                    pid.0,
                    Process {
                        pid: old(self).processes@[pid.0].pid,
                        inner: with_status(old(self).processes@[pid.0].inner, ProgramStatus::Ready),
                    },
                ));
                self.push_ready(pid);
            },
            None => {
                assert(self.processes@ =~= old(self).processes@);
            },
        }
    }

    /// Marks `pid` blocked, if it exists.
    pub fn block(&mut self, pid: ProcessId)
        requires
            old(self).wf(),
            old(self).processes@.contains_key(pid.0) ==> old(self).processes@[pid.0].inner.status
                != ProgramStatus::Dead,
        ensures
            final(self).wf(),
            old(self).processes@.contains_key(pid.0) ==> final(self).processes@ == old(
                self,
            ).processes@.insert(
                pid.0,
                Process {
                    pid: old(self).processes@[pid.0].pid,
                    inner: with_status(old(self).processes@[pid.0].inner, ProgramStatus::Blocked),
                },
            ),
            !old(self).processes@.contains_key(pid.0) ==> final(self).processes@ == old(
                self,
            ).processes@,
            final(self).ready_queue == old(self).ready_queue,
            final(self).current == old(self).current,
            final(self).pids == old(self).pids,
            final(self).sem_sets == old(self).sem_sets,
            final(self).app_list == old(self).app_list,
    {
        match self.processes.remove(&pid.0) {
            Some(mut p) => {
                assert(live_ok(p, self.sem_sets@.len()));
                p.inner.block();
                self.processes.insert(pid.0, p);
                assert(self.processes@ =~= old(self).processes@.insert(
                    pid.0,
                    Process {
                        pid: old(self).processes@[pid.0].pid,
                        inner: with_status(old(self).processes@[pid.0].inner, ProgramStatus::Blocked),
                    },
                ));
            },
            None => {
                assert(self.processes@ =~= old(self).processes@);
            },
        }
    }

    /// A page fault at `addr` is served when it is no protection violation
    /// and lies in the region the current stack may grow into: the stack then
    /// reaches down to the page of `addr`. Returns the address and the number
    /// of pages to map, or `None` when the fault is not served.
    pub fn handle_page_fault(&mut self, addr: u64, protection_violation: bool) -> (r: Option<(u64, u64)>)
        requires
            old(self).wf(),
            old(self).cur().inner.status != ProgramStatus::Dead,
            is_canonical(addr),
            old(self).fault_served(addr, protection_violation) ==> page_of(addr) <= old(
                self,
            ).cur().inner.proc_data.unwrap().stack_segment.unwrap().start,
        ensures
            final(self).wf(),
            ({
                let d = old(self).cur().inner.proc_data.unwrap();
                let s = d.stack_segment.unwrap();
                if old(self).fault_served(addr, protection_violation) {
                    &&& r == Some((addr, ((s.start - page_of(addr)) / 4096) as u64))
                    &&& final(self).cur().inner.proc_data == Some(
                        ProcessData { stack_segment: Some(StackRange { start: page_of(addr), end: s.end }), ..d },
                    )
                    &&& final(self).processes@.dom() == old(self).processes@.dom()
                    &&& forall|k: u16| k != old(self).current.0 ==> #[trigger] final(self).processes@.get(k)
                        == old(self).processes@.get(k)
                } else {
                    &&& r is None
                    &&& final(self).processes@ == old(self).processes@
                }
            }),
            final(self).ready_queue == old(self).ready_queue,
            final(self).current == old(self).current,
            final(self).pids == old(self).pids,
            final(self).sem_sets == old(self).sem_sets,
            final(self).app_list == old(self).app_list,
    {
        if protection_violation {
            return None;
        }
        let k = self.current.0;
        let on_max = match self.processes.get(&k) {
            Some(p) => match p.inner.proc_data {
                Some(d) => d.is_on_max_stack(addr),
                None => false,
            },
            None => false,
        };
        if !on_max {
            return None;
        }
        let mut p = self.processes.remove(&k).unwrap();
        assert(live_ok(p, self.sem_sets@.len()));
        let map = p.inner.inc_stack_space(addr);
        self.processes.insert(k, p);
        assert(self.processes@.dom() =~= old(self).processes@.dom());
        Some(map)
    }

    /// A process that a semaphore wakes is not dead, if it exists.
    pub open spec fn waiter_alive(self, pid: ProcessId) -> bool {
        self.processes@.contains_key(pid.0) ==> self.processes@[pid.0].inner.status != ProgramStatus::Dead
    }

    /// Whether a fault at `addr` is one that grows the current stack.
    pub open spec fn fault_served(self, addr: u64, protection_violation: bool) -> bool {
        !protection_violation && match self.cur().inner.proc_data.unwrap().max_stack_segment {
            Some(ms) => ms.spec_contains(addr),
            None => false,
        }
    }

    /// The stack of the current process.
    pub open spec fn cur_stack(self) -> StackRange {
        self.cur().inner.proc_data.unwrap().stack_segment.unwrap()
    }

    /// Forks the current process (see `Process::fork`); the child, placed
    /// at `child_stack_base` with page table `child_page_table`, joins the
    /// table and the end of the ready queue.
    pub fn fork(&mut self, child_page_table: PageTableRef, child_stack_base: u64) -> (child: ProcessId)
        requires
            old(self).wf(),
            old(self).cur().inner.status != ProgramStatus::Dead,
            child_base_ok(old(self).cur_stack(), child_stack_base),
            user_range(crate::process::child_stack(old(self).cur_stack(), child_stack_base)),
        ensures
            final(self).wf(),
            child.0 == old(self).pids.next,
            final(self).pids.next == (old(self).pids.next + 1) % 65536,
            final(self).pids.wrapped@ == (old(self).pids.wrapped@ || old(self).pids.next == 65535),
            !old(self).pids.wrapped@ ==> !old(self).processes@.contains_key(child.0),
            final(self).ready_queue@ == old(self).ready_queue@.push(child),
            final(self).processes@.contains_key(child.0),
            final(self).processes@[child.0].inner.parent == Some(old(self).current),
            final(self).processes@[child.0].inner.context.rax == 0,
            final(self).processes@[child.0].inner.status == ProgramStatus::Ready,
            final(self).processes@[child.0].inner.page_table == Some(child_page_table),
            child.0 != old(self).current.0 ==> {
                &&& final(self).cur().inner.context.rax == child.0 as usize
                &&& final(self).cur().inner.children@ == old(self).cur().inner.children@.push(child)
                &&& final(self).cur().inner.status == ProgramStatus::Ready
            },
            final(self).processes@.dom() == old(self).processes@.dom().insert(child.0),
            forall|k: u16| k != old(self).current.0 && k != child.0 ==> #[trigger] final(self).processes@.get(k)
                == old(self).processes@.get(k),
            final(self).current == old(self).current,
            final(self).sem_sets == old(self).sem_sets,
            final(self).app_list == old(self).app_list,
    {
        let k = self.current.0;
        let mut parent = self.processes.remove(&k).unwrap();
        assert(live_ok(parent, self.sem_sets@.len()));
        let child = parent.fork(&mut self.pids, child_page_table, child_stack_base);
        let child_pid = child.pid;
        self.processes.insert(k, parent);
        self.add_proc(child_pid, child);
        self.push_ready(child_pid);
        assert(self.processes@.dom() =~= old(self).processes@.dom().insert(child_pid.0));
        child_pid
    }

    /// Starts a program: a new process named `name` (lower-cased) with page
    /// table `page_table`, a one-page stack at the top of the stack region
    /// that may grow over the whole region, execution at `entry`, ready and
    /// queued. Without `proc_data` the process gets a semaphore set of its own.
    pub fn spawn(
        &mut self,
        name: &String,
        parent: Option<ProcessId>,
        page_table: PageTableRef,
        entry: u64,
        proc_data: Option<ProcessData>,
    ) -> (pid: ProcessId)
        requires
            old(self).wf(),
            proc_data matches Some(d) ==> d.semaphores < old(self).sem_sets@.len(),
        ensures
            final(self).wf(),
            pid.0 == old(self).pids.next,
            final(self).pids.next == (old(self).pids.next + 1) % 65536,
            final(self).pids.wrapped@ == (old(self).pids.wrapped@ || old(self).pids.next == 65535),
            !old(self).pids.wrapped@ ==> !old(self).processes@.contains_key(pid.0),
            final(self).ready_queue@ == old(self).ready_queue@.push(pid),
            final(self).processes@.contains_key(pid.0),
            ({
                let p = final(self).processes@[pid.0].inner;
                let d = p.proc_data.unwrap();
                &&& p.name@ == name@.map_values(|c: char| crate::process::ascii_lower(c))
                &&& p.parent == parent
                &&& p.status == ProgramStatus::Ready
                &&& p.exit_code is None
                &&& p.ticks_passed == 0
                &&& p.page_table == Some(page_table)
                &&& p.context.instruction_pointer == virt_truncate(entry)
                &&& p.context.stack_pointer == STACK_INIT_TOP
                &&& d.stack_segment == Some(StackRange { start: (STACK_MAX - 4096) as u64, end: STACK_MAX })
                &&& d.max_stack_segment == Some(StackRange { start: (STACK_MAX - STACK_MAX_SIZE) as u64, end: STACK_MAX })
                &&& proc_data matches Some(pd) ==> d.semaphores == pd.semaphores
                &&& proc_data is None ==> d.semaphores == old(self).sem_sets@.len()
                    && final(self).sem_sets@.len() == old(self).sem_sets@.len() + 1
                    && final(self).sem_sets@[d.semaphores as int]@ == Map::<u32, SemView>::empty()
            }),
            proc_data is Some ==> final(self).sem_sets == old(self).sem_sets,
            forall|i: int| 0 <= i < old(self).sem_sets@.len() ==> #[trigger] final(self).sem_sets@[i]
                == old(self).sem_sets@[i],
            forall|k: u16| k != pid.0 ==> #[trigger] final(self).processes@.get(k) == old(
                self,
            ).processes@.get(k),
            final(self).current.0 != pid.0 ==> final(self).current == old(self).current,
            final(self).app_list == old(self).app_list,
    {
        let fresh = self.sem_sets.len();
        if proc_data.is_none() {
            self.sem_sets.push(SemaphoreSet::new());
        }
        let mut p = Process::new(name, parent, page_table, proc_data, fresh, &mut self.pids);
        let mut d = p.inner.proc_data.unwrap();
        proof {
            lemma_spawn_ranges();
        }
        d.set_stack(STACK_INIT_TOP, STACK_DEF_PAGE);
        d.set_max_stack(STACK_MAX - STACK_MAX_SIZE, STACK_MAX_PAGES);
        p.inner.proc_data = Some(d);
        let e = crate::process::virt_truncate_exec(entry);
        p.inner.set_stack_frame(e, STACK_INIT_TOP);
        p.inner.pause();
        let pid = p.pid;
        self.add_proc(pid, p);
        self.push_ready(pid);
        proof {
            if self.current.0 == pid.0 {
                assert(self.processes@.contains_key(self.current.0));
            }
        }
        pid
    }

    /// The list of processes that are not dead, by increasing identifier.
    pub fn process_rows(&self) -> (rows: Vec<ProcessRow>)
        ensures
            rows@.map_values(|r: ProcessRow| row_view(r)) == rows_below(self.processes@, 65536),
    {
        let mut rows: Vec<ProcessRow> = Vec::new();
        let mut k: u32 = 0;
        while k < 65536
            invariant
                k <= 65536,
                rows@.map_values(|r: ProcessRow| row_view(r)) == rows_below(self.processes@, k as int),
            decreases 65536 - k,
        {
            let key = k as u16;
            let ghost before = rows@.map_values(|r: ProcessRow| row_view(r));
            match self.processes.get(&key) {
                Some(p) => {
                    if p.inner.status != ProgramStatus::Dead {
                        let ppid = match p.inner.parent {
                            Some(q) => q.0,
                            None => 0,
                        };
                        let row = ProcessRow {
                            pid: p.pid.0,
                            ppid,
                            name: p.inner.name.clone(),
                            ticks: p.inner.ticks_passed,
                            status: p.inner.status,
                        };
                        rows.push(row);
                        assert(rows@.map_values(|r: ProcessRow| row_view(r)) =~= before.push(row_view(row)));
                    }
                },
                None => {},
            }
            k = k + 1;
        }
        rows
    }

    /// The semaphore set of the current process.
    fn cur_set(&self) -> (i: usize)
        requires
            self.wf(),
            self.cur().inner.status != ProgramStatus::Dead,
        ensures
            i == self.cur().inner.proc_data.unwrap().semaphores,
            i < self.sem_sets@.len(),
    {
        let p = self.processes.get(&self.current.0).unwrap();
        assert(live_ok(*p, self.sem_sets@.len()));
        p.inner.proc_data.unwrap().semaphores
    }

    /// Creates semaphore `key` with value `value` in the current process's
    /// set; 1 when the key was new, else 0 (the semaphore is replaced).
    pub fn new_sem(&mut self, key: u32, value: usize) -> (r: usize)
        requires
            old(self).wf(),
            old(self).cur().inner.status != ProgramStatus::Dead,
        ensures
            final(self).wf(),
            r == (if old(self).cur_sems().contains_key(key) { 0usize } else { 1usize }),
            final(self).cur_sems() == old(self).cur_sems().insert(key, SemView { count: value as nat, waiting: Seq::empty() }),
            final(self).processes == old(self).processes,
            final(self).ready_queue == old(self).ready_queue,
            final(self).current == old(self).current,
            final(self).pids == old(self).pids,
            final(self).app_list == old(self).app_list,
            final(self).sem_sets@.len() == old(self).sem_sets@.len(),
    {
        let i = self.cur_set();
        let mut set = self.sem_sets.remove(i);
        let r = set.insert(key, value);
        self.sem_sets.insert(i, set);
        if r {
            1
        } else {
            0
        }
    }

    /// Deletes semaphore `key` of the current process's set; 1 when it existed, else 0.
    pub fn remove_sem(&mut self, key: u32) -> (r: usize)
        requires
            old(self).wf(),
            old(self).cur().inner.status != ProgramStatus::Dead,
        ensures
            final(self).wf(),
            r == (if old(self).cur_sems().contains_key(key) { 1usize } else { 0usize }),
            final(self).cur_sems() == old(self).cur_sems().remove(key),
            final(self).processes == old(self).processes,
            final(self).ready_queue == old(self).ready_queue,
            final(self).current == old(self).current,
            final(self).pids == old(self).pids,
            final(self).app_list == old(self).app_list,
            final(self).sem_sets@.len() == old(self).sem_sets@.len(),
    {
        let i = self.cur_set();
        let mut set = self.sem_sets.remove(i);
        let r = set.remove(key);
        self.sem_sets.insert(i, set);
        if r {
            1
        } else {
            0
        }
    }

    /// `signal` on semaphore `key` of the current process's set: the call
    /// returns 0 when a unit is given back, 1 when there is no such
    /// semaphore; a woken process is made ready and queued.
    pub fn sem_signal(&mut self, key: u32, context: &mut ProcessContext)
        requires
            old(self).wf(),
            old(self).cur().inner.status != ProgramStatus::Dead,
            old(self).cur_sems().contains_key(key) ==> old(self).cur_sems()[key].count < usize::MAX,
            old(self).cur_sems().contains_key(key) && old(self).cur_sems()[key].waiting.len() > 0
                ==> old(self).waiter_alive(old(self).cur_sems()[key].waiting[0]),
        ensures
            final(self).wf(),
            signal_effect(*old(self), *final(self), key, *old(context), *final(context)),
    {
        let i = self.cur_set();
        let mut set = self.sem_sets.remove(i);
        let res = set.signal(key);
        self.sem_sets.insert(i, set);
        assert(self.processes@ == old(self).processes@);
        match res {
            SemaphoreResult::Success => context.set_rax(0),
            SemaphoreResult::NotExist => context.set_rax(1),
            SemaphoreResult::WakeUp(pid) => self.wake_up(pid),
            SemaphoreResult::Block(pid) => self.block(pid),
        }
    }

    /// `wait` by the current process on semaphore `key` of its set: the
    /// call returns 0 when a unit is taken, 1 when there is no such
    /// semaphore; when none is left the process saves `context`, blocks, and
    /// the next ready process is switched to.
    pub fn sem_wait(&mut self, key: u32, context: &mut ProcessContext)
        requires
            old(self).wf(),
            old(self).cur().inner.status != ProgramStatus::Dead,
            old(self).cur().inner.ticks_passed < usize::MAX,
        ensures
            final(self).wf(),
            wait_effect(*old(self), *final(self), key, *old(context), *final(context)),
    {
        let i = self.cur_set();
        let pid = self.current;
        let mut set = self.sem_sets.remove(i);
        assert(set@ == old(self).cur_sems());
        let res = set.wait(key, pid);
        let ghost new_set = set@;
        self.sem_sets.insert(i, set);
        assert(self.sem_sets@[i as int]@ == new_set);
        assert(self.processes@ == old(self).processes@);
        assert(res == (if old(self).cur_sems().contains_key(key) {
            wait_spec(old(self).cur_sems()[key], old(self).current).1
        } else {
            SemaphoreResult::NotExist
        }));
        match res {
            SemaphoreResult::Success => context.set_rax(0),
            SemaphoreResult::NotExist => context.set_rax(1),
            SemaphoreResult::WakeUp(p) => self.wake_up(p),
            SemaphoreResult::Block(p) => {
                let ghost others = old(self).processes@.remove(pid.0);
                self.save_current(context);
                self.block(p);
                proof {
                    let m = self.processes@;
                    assert forall|x: ProcessId| is_ready_in(m, x) <==> is_ready_in(others, x) by {
                        if x.0 != pid.0 {
                            assert(m.get(x.0) == old(self).processes@.get(x.0));
                        }
                    }
                    lemma_first_ready_same(self.ready_queue@, m, others);
                    lemma_first_ready(self.ready_queue@, self.processes@);
                    let q = self.ready_queue@;
                    let k = first_ready(q, m);
                    if k < q.len() {
                        assert(q[k as int].0 != pid.0);
                        assert(m.get(q[k as int].0) == old(self).processes@.get(q[k as int].0));
                    }
                }
                let _next = self.switch_next(context);
            },
        }
    }
}

/// The stack ranges that a spawned process starts with.
proof fn lemma_spawn_ranges()
    ensures
        range_ok(STACK_INIT_TOP, STACK_DEF_PAGE),
        range_of(STACK_INIT_TOP, STACK_DEF_PAGE) == (StackRange { start: (STACK_MAX - 4096) as u64, end: STACK_MAX }),
        is_canonical(STACK_INIT_TOP),
        is_canonical((STACK_MAX - STACK_MAX_SIZE) as u64),
        range_ok((STACK_MAX - STACK_MAX_SIZE) as u64, STACK_MAX_PAGES),
        range_of((STACK_MAX - STACK_MAX_SIZE) as u64, STACK_MAX_PAGES) == (StackRange {
            start: (STACK_MAX - STACK_MAX_SIZE) as u64,
            end: STACK_MAX,
        }),
{
    let a: u64 = 0x3FFF_FFFF_FFF8;
    let b: u64 = 0x4000_0000_0000;
    let c: u64 = 0x3FFF_0000_0000;
    assert(0x3FFF_FFFF_FFF8u64 >> 47u64 == 0u64) by (bit_vector);
    assert(0x4000_0000_0000u64 >> 47u64 == 0u64) by (bit_vector);
    assert(0x3FFF_0000_0000u64 >> 47u64 == 0u64) by (bit_vector);
    assert(page_of(a) == 0x3FFF_FFFF_F000u64);
    assert(page_of(c) == c);
    assert(page_of(b) == b);
}

/// A process's state after the timer charges it a tick and saves the
/// registers `ctx` into it: a running or ready process keeps `ctx` and is
/// ready; any other keeps its registers and status.
pub open spec fn saved(o: crate::process::ProcessInner, ctx: ProcessContext) -> crate::process::ProcessInner {
    let saves = o.status == ProgramStatus::Running || o.status == ProgramStatus::Ready;
    crate::process::ProcessInner {
        ticks_passed: (o.ticks_passed + 1) as usize,
        context: if saves {
            ctx
        } else {
            o.context
        },
        status: if saves {
            ProgramStatus::Ready
        } else {
            o.status
        },
        ..o
    }
}

/// `i` with its status replaced by `s`.
pub open spec fn with_status(i: crate::process::ProcessInner, s: ProgramStatus) -> crate::process::ProcessInner {
    crate::process::ProcessInner { status: s, ..i }
}

} // verus!
