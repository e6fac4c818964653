//! The kernel's system-call services and timer switch, as decisions over the
//! process manager and the saved registers of the calling process.
use vstd::prelude::*;
use crate::manager::{first_ready, is_ready_in, law_round_robin, lemma_first_ready, lemma_first_ready_same, saved, signal_effect, wait_effect, ProcessManager, ProcessRow, row_view, rows_below};
use crate::pid::{PidCounter, ProcessId};
use crate::process::{child_base_ok, child_stack, user_range, PageTableRef, Process, ProcessContext, ProgramStatus, Released};
use crate::semaphore::{SemaphoreResult, SemaphoreSet};

verus! {

/// The arguments of a system call.
#[derive(Clone, Copy, Debug)]
pub struct SyscallArgs {
    pub syscall: usize,
    pub arg0: usize,
    pub arg1: usize,
    pub arg2: usize,
}

/// Starts process management with `init` running as the current process.
pub fn init(first: Process, app_list: Vec<String>, sem_sets: Vec<SemaphoreSet>, pids: PidCounter) -> (m: ProcessManager)
    requires
        first.inner.status != ProgramStatus::Dead,
        crate::manager::live_ok(first, sem_sets@.len()),
    ensures
        m.wf(),
        m.current == first.pid,
        m.cur().inner.status == ProgramStatus::Running,
        m.processes@.dom() == Set::<u16>::empty().insert(first.pid.0),
        m.ready_queue@ == Seq::<ProcessId>::empty(),
{
    let mut first = first;
    first.inner.resume();
    ProcessManager::new(first, app_list, sem_sets, pids)
}

/// The identifier of the calling process.
pub fn get_pid(manager: &ProcessManager) -> (r: u16)
    requires
        manager.wf(),
    ensures
        r == manager.current.0,
{
    manager.current().pid().0
}

/// The process list (see `ProcessManager::process_rows`).
pub fn list_process(manager: &ProcessManager) -> (rows: Vec<ProcessRow>)
    ensures
        rows@.map_values(|r: ProcessRow| row_view(r)) == rows_below(manager.processes@, 65536),
{
    manager.process_rows()
}

/// The names of the programs that can be started.
pub fn service_list_app(manager: &ProcessManager) -> (r: Vec<String>)
    ensures
        r@ == manager.app_list@,
{
    manager.app_list().clone()
}

/// Ends the calling process with the exit code in the first argument and
/// switches to the next ready process.
pub fn exit_process(manager: &mut ProcessManager, args: &SyscallArgs, context: &mut ProcessContext) -> (rel: Option<Released>)
    requires
        old(manager).wf(),
    ensures
        final(manager).wf(),
        old(manager).cur().inner.status != ProgramStatus::Dead ==> rel is Some
            && final(manager).processes@[old(manager).current.0].inner.exit_code == Some(args.arg0 as isize)
            && final(manager).processes@[old(manager).current.0].inner.status == ProgramStatus::Dead,
        ({
            let q = old(manager).ready_queue@;
            let others = old(manager).processes@.remove(old(manager).current.0);
            let i = first_ready(q, others);
            &&& i < q.len() ==> final(manager).current == q[i as int] && final(manager).ready_queue@
                == q.skip(i + 1 as int) && *final(context) == others[q[i as int].0].inner.context
            &&& i >= q.len() ==> final(manager).current == old(manager).current
                && final(manager).ready_queue@ == Seq::<ProcessId>::empty() && *final(context) == *old(
                context,
            )
        }),
{
    let ghost others = old(manager).processes@.remove(old(manager).current.0);
    let rel = manager.kill_self(args.arg0 as isize);
    proof {
        let m = manager.processes@;
        let cur = manager.current;
        assert forall|p: ProcessId| is_ready_in(m, p) <==> is_ready_in(others, p) by {
            if p.0 != cur.0 {
                assert(m.get(p.0) == old(manager).processes@.get(p.0));
            }
        }
        lemma_first_ready_same(manager.ready_queue@, m, others);
        lemma_first_ready(manager.ready_queue@, manager.processes@);
        let q = manager.ready_queue@;
        let i = first_ready(q, m);
        if i < q.len() {
            assert(q[i as int].0 != cur.0);
            assert(m.get(q[i as int].0) == old(manager).processes@.get(q[i as int].0));
        }
    }
    let _next = manager.switch_next(context);
    rel
}

/// What waiting for process `k` answers: the exit code it ended with, cut
/// to 32 bits and widened to a register, or nothing while it has not ended
/// (or does not exist).
pub open spec fn wait_outcome(m: Map<u16, Process>, k: u16) -> Option<usize> {
    if m.contains_key(k) {
        match m[k].inner.exit_code {
            Some(c) => Some((c as i32) as usize),
            None => None,
        }
    } else {
        None
    }
}

/// Waiting for process `pid` (the first argument): when it has ended, the
/// call returns its exit code and `true` is answered; else nothing changes
/// and `false` is answered.
pub fn wait_service_pid(manager: &ProcessManager, args: &SyscallArgs, context: &mut ProcessContext) -> (done: bool)
    requires
        args.arg0 <= u16::MAX,
    ensures
        (match wait_outcome(manager.processes@, args.arg0 as u16) {
            Some(v) => done && *final(context) == (ProcessContext { rax: v, ..*old(context) }),
            None => !done && *final(context) == *old(context),
        }),
{
    let pid = ProcessId(args.arg0 as u16);
    match manager.get_exit_code(&pid) {
        Some(code) => {
            context.set_rax(code as usize);
            true
        },
        None => false,
    }
}

/// The process table after the timer charges the current process a tick
/// and saves the registers `ctx` into it.
pub open spec fn after_tick(m: ProcessManager, ctx: ProcessContext) -> Map<u16, Process> {
    m.processes@.insert(m.current.0, Process { pid: m.cur().pid, inner: saved(m.cur().inner, ctx) })
}

/// The timer tick: the current process saves its registers and goes to the
/// back of the ready queue, and the next ready process is switched to.
pub fn switch(manager: &mut ProcessManager, context: &mut ProcessContext) -> (next: ProcessId)
    requires
        old(manager).wf(),
        old(manager).cur().inner.ticks_passed < usize::MAX,
    ensures
        final(manager).wf(),
        final(manager).current == next,
        final(manager).processes@.contains_key(next.0),
        old(manager).cur().inner.status == ProgramStatus::Running || old(manager).cur().inner.status
            == ProgramStatus::Ready ==> final(manager).processes@[next.0].inner.status == ProgramStatus::Running,
        ({
            let q = old(manager).ready_queue@.push(old(manager).current);
            let m = after_tick(*old(manager), *old(context));
            let i = first_ready(q, m);
            &&& i < q.len() ==> next == q[i as int] && *final(context) == m[next.0].inner.context
                && final(manager).ready_queue@ == q.skip(i + 1 as int)
            &&& i >= q.len() ==> next == old(manager).current && *final(context) == *old(context)
        }),
{
    manager.save_current(context);
    let cur = manager.current;
    manager.push_ready(cur);
    proof {
        lemma_first_ready(manager.ready_queue@, manager.processes@);
        let q = manager.ready_queue@;
        if manager.cur().inner.status == ProgramStatus::Ready {
            lemma_first_ready_found(q, manager.processes@, (q.len() - 1) as int);
        }
    }
    manager.switch_next(context)
}

proof fn lemma_first_ready_found(q: Seq<ProcessId>, m: Map<u16, crate::process::Process>, j: int)
    requires
        0 <= j < q.len(),
        m.contains_key(q[j].0),
        m[q[j].0].inner.status == ProgramStatus::Ready,
    ensures
        first_ready(q, m) < q.len(),
    decreases q.len(),
{
    if j > 0 && !(m.contains_key(q[0].0) && m[q[0].0].inner.status == ProgramStatus::Ready) {
        assert(q.drop_first()[j - 1] == q[j]);
        lemma_first_ready_found(q.drop_first(), m, j - 1);
    }
}

/// Forks the calling process: it saves its registers, the child (placed at
/// `child_stack_base` with page table `child_page_table`) and then the
/// parent join the ready queue, and the next ready process is switched to.
pub fn sys_fork(
    manager: &mut ProcessManager,
    context: &mut ProcessContext,
    child_page_table: PageTableRef,
    child_stack_base: u64,
) -> (child: ProcessId)
    requires
        old(manager).wf(),
        old(manager).cur().inner.status != ProgramStatus::Dead,
        old(manager).cur().inner.ticks_passed < usize::MAX,
        child_base_ok(old(manager).cur_stack(), child_stack_base),
        user_range(child_stack(old(manager).cur_stack(), child_stack_base)),
    ensures
        final(manager).wf(),
        child.0 == old(manager).pids.next,
        final(manager).processes@.contains_key(child.0),
        final(manager).processes@[child.0].inner.parent == Some(old(manager).current),
        child.0 != old(manager).current.0 ==> final(manager).processes@[old(
            manager,
        ).current.0].inner.context.rax == child.0 as usize,
        final(manager).processes@[child.0].inner.context.rax == 0,
        child.0 != old(manager).current.0 ==> final(manager).processes@[old(
            manager,
        ).current.0].inner.children@ == old(manager).cur().inner.children@.push(child),
        final(manager).current == child || final(manager).ready_queue@.contains(child),
        final(manager).ready_queue@.contains(old(manager).current),
        !old(manager).pids.wrapped@ ==> {
            &&& !old(manager).processes@.contains_key(child.0)
            &&& child.0 != 0
            &&& final(manager).processes@[old(manager).current.0].inner.context.rax == child.0 as usize
            &&& final(manager).processes@[old(manager).current.0].inner.children@ == old(
                manager,
            ).cur().inner.children@.push(child)
        },
        final(manager).processes@[final(manager).current.0].inner.status == ProgramStatus::Running,
        *final(context) == final(manager).processes@[final(manager).current.0].inner.context,
{
    manager.save_current(context);
    let child = manager.fork(child_page_table, child_stack_base);
    let cur = manager.current;
    manager.push_ready(cur);
    let ghost q = manager.ready_queue@;
    let ghost m = manager.processes@;
    let ghost j: int = q.len() - 2;
    proof {
        lemma_first_ready(manager.ready_queue@, manager.processes@);
        law_round_robin(q, m);
        assert(q[j] == child);
        assert(is_ready_in(m, q[j]));
    }
    let _next = manager.switch_next(context);
    proof {
        let i = first_ready(q, m);
        assert(i <= j);
        if i < j {
            assert(manager.ready_queue@[j - i - 1] == child);
        }
        assert(manager.ready_queue@[j - i] == cur);
        if !old(manager).pids.wrapped@ {
            assert(old(manager).processes@.contains_key(old(manager).current.0));
        }
    }
    child
}

/// Whether signalling semaphore `key` of the running process is well defined:
/// its count has room to grow and its first waiter, if any, is still alive.
pub open spec fn signal_ok(m: ProcessManager, key: u32) -> bool {
    let s = m.cur_sems();
    &&& s.contains_key(key) ==> s[key].count < usize::MAX
    &&& s.contains_key(key) && s[key].waiting.len() > 0 ==> m.waiter_alive(s[key].waiting[0])
}

/// The semaphore system call: operation 0 creates semaphore `arg1` with
/// value `arg2`, 1 deletes it, 2 signals it, 3 waits on it; the call returns
/// `usize::MAX` for any other operation.
pub fn sys_sem(manager: &mut ProcessManager, args: &SyscallArgs, context: &mut ProcessContext)
    requires
        old(manager).wf(),
        old(manager).cur().inner.status != ProgramStatus::Dead,
        old(manager).cur().inner.ticks_passed < usize::MAX,
        args.arg0 == 2 ==> signal_ok(*old(manager), args.arg1 as u32),
    ensures
        final(manager).wf(),
        args.arg0 == 0 ==> final(manager).cur_sems() == old(manager).cur_sems().insert(
            args.arg1 as u32,
            crate::semaphore::SemView { count: args.arg2 as nat, waiting: Seq::empty() },
        ) && final(context).rax == (if old(manager).cur_sems().contains_key(args.arg1 as u32) {
            0usize
        } else {
            1usize
        }),
        args.arg0 == 1 ==> final(manager).cur_sems() == old(manager).cur_sems().remove(
            args.arg1 as u32,
        ) && final(context).rax == (if old(manager).cur_sems().contains_key(args.arg1 as u32) {
            1usize
        } else {
            0usize
        }),
        args.arg0 == 2 ==> signal_effect(*old(manager), *final(manager), args.arg1 as u32, *old(context), *final(context)),
        args.arg0 == 3 ==> wait_effect(*old(manager), *final(manager), args.arg1 as u32, *old(context), *final(context)),
        args.arg0 > 3 ==> final(context).rax == usize::MAX && final(context).stack_pointer
            == old(context).stack_pointer && final(context).instruction_pointer == old(
            context,
        ).instruction_pointer && final(manager).processes == old(manager).processes
            && final(manager).sem_sets == old(manager).sem_sets && final(manager).ready_queue == old(
            manager,
        ).ready_queue && final(manager).current == old(manager).current,
{
    if args.arg0 == 0 {
        let r = manager.new_sem(args.arg1 as u32, args.arg2);
        context.set_rax(r);
    } else if args.arg0 == 1 {
        let r = manager.remove_sem(args.arg1 as u32);
        context.set_rax(r);
    } else if args.arg0 == 2 {
        manager.sem_signal(args.arg1 as u32, context);
    } else if args.arg0 == 3 {
        manager.sem_wait(args.arg1 as u32, context);
    } else {
        context.set_rax(usize::MAX);
    }
}

/// The exit code a process ends with is what waiting for it gives back:
/// once `exit_process` has left exit code `code` on process `k`, waiting for
/// `k` answers `code` in the return register.
pub proof fn law_wait_returns_exit_code(m: Map<u16, Process>, k: u16, code: isize)
    requires
        m.contains_key(k),
        m[k].inner.exit_code == Some(code),
    ensures
        wait_outcome(m, k) == Some((code as i32) as usize),
{
}

/// What `spawn` returns to the caller: the new identifier, or 0 on failure.
pub fn spawn_result(r: Option<ProcessId>) -> (v: usize)
    ensures
        v == (match r {
            Some(pid) => pid.0 as usize,
            None => 0usize,
        }),
{
    match r {
        Some(pid) => pid.0 as usize,
        None => 0,
    }
}

/// The index of the program called `name` in the program list, if any.
pub fn find_app(app_list: &Vec<String>, name: &str) -> (r: Option<usize>)
    ensures
        (match r {
            Some(i) => i < app_list@.len() && app_list@[i as int]@ == name@ && forall|j: int|
                0 <= j < i ==> app_list@[j]@ != name@,
            None => forall|j: int| 0 <= j < app_list@.len() ==> app_list@[j]@ != name@,
        }),
{
    let target = name.to_owned();
    let mut i: usize = 0;
    while i < app_list.len()
        invariant
            i <= app_list@.len(),
            target@ == name@,
            forall|j: int| 0 <= j < i ==> app_list@[j]@ != name@,
        decreases app_list@.len() - i,
    {
        if app_list[i] == target {
            return Some(i);
        }
        i = i + 1;
    }
    None
}

} // verus!
