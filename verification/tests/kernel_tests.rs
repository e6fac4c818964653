use ysos::manager::ProcessManager;
use ysos::pid::{PidCounter, ProcessId};
use ysos::process::{
    PageTableRef, Process, ProcessContext, ProcessData, ProgramStatus, StackRange, STACK_DEF_PAGE,
    STACK_INIT_TOP, STACK_MAX, STACK_MAX_PAGES, STACK_MAX_SIZE,
};
use ysos::proclist::process_list_text;
use ysos::semaphore::{Semaphore, SemaphoreResult, SemaphoreSet};
use ysos::service::{
    exit_process, find_app, get_pid, init, list_process, service_list_app, spawn_result, switch,
    sys_fork, sys_sem, wait_service_pid, SyscallArgs,
};
use ysos::user::{io_result, pid_result};

fn kernel() -> ProcessManager {
    let mut counter = PidCounter::new();
    let mut d = ProcessData::new(0);
    d.set_stack(STACK_INIT_TOP, STACK_DEF_PAGE);
    d.set_max_stack(STACK_MAX - STACK_MAX_SIZE, STACK_MAX_PAGES);
    let p = Process::new(&"Kernel".to_string(), None, PageTableRef(0x1000), Some(d), 0, &mut counter);
    init(p, vec!["shell".to_string(), "hello".to_string()], vec![SemaphoreSet::new()], counter)
}

fn args(arg0: usize, arg1: usize, arg2: usize) -> SyscallArgs {
    SyscallArgs { syscall: 0, arg0, arg1, arg2 }
}

fn ctx() -> ProcessContext {
    ProcessContext { rax: 0, stack_pointer: 0x1000, instruction_pointer: 0x2000 }
}

#[test]
fn init_runs_the_first_process() {
    let m = kernel();
    assert_eq!(get_pid(&m), 1);
    let p = m.current();
    assert_eq!(p.inner.name, "kernel");
    assert_eq!(p.inner.status, ProgramStatus::Running);
    assert!(m.ready_queue.is_empty());
    assert_eq!(service_list_app(&m), vec!["shell".to_string(), "hello".to_string()]);
}

#[test]
fn spawn_queues_a_ready_process_with_a_fresh_stack() {
    let mut m = kernel();
    let pid = m.spawn(&"Hello".to_string(), Some(ProcessId(1)), PageTableRef(0x2000), 0x40_1000, None);
    assert_eq!(pid, ProcessId(2));
    assert_eq!(m.ready_queue.iter().copied().collect::<Vec<_>>(), vec![ProcessId(2)]);
    let p = m.get_proc(&pid).unwrap();
    assert_eq!(p.inner.name, "hello");
    assert_eq!(p.inner.status, ProgramStatus::Ready);
    assert_eq!(p.inner.context.stack_pointer, STACK_INIT_TOP);
    assert_eq!(p.inner.context.instruction_pointer, 0x40_1000);
    let d = p.inner.proc_data.unwrap();
    assert_eq!(d.stack_segment, Some(StackRange { start: STACK_MAX - 4096, end: STACK_MAX }));
    assert_eq!(d.semaphores, 1);
    assert_eq!(m.sem_sets.len(), 2);
}

#[test]
fn process_list_shows_live_processes() {
    let mut m = kernel();
    m.spawn(&"Hello".to_string(), Some(ProcessId(1)), PageTableRef(0x2000), 0x40_1000, None);
    let rows = list_process(&m);
    assert_eq!(rows.len(), 2);
    assert_eq!(rows[1].pid, 2);
    assert_eq!(rows[1].ppid, 1);
    assert_eq!(
        process_list_text(&m),
        "  PID | PPID | Process Name |  Ticks  | Status\n #  1 | #  0 | kernel       |       0 | Running\n #  2 | #  1 | hello        |       0 | Ready\n"
    );
}

#[test]
fn timer_switches_round_robin() {
    let mut m = kernel();
    m.spawn(&"a".to_string(), Some(ProcessId(1)), PageTableRef(0x2000), 0x40_1000, None);
    let mut c = ctx();
    let next = switch(&mut m, &mut c);
    assert_eq!(next, ProcessId(2));
    assert_eq!(c.stack_pointer, STACK_INIT_TOP);
    assert_eq!(c.instruction_pointer, 0x40_1000);
    let k = m.get_proc(&ProcessId(1)).unwrap();
    assert_eq!(k.inner.status, ProgramStatus::Ready);
    assert_eq!(k.inner.ticks_passed, 1);
    assert_eq!(k.inner.context, ctx());
    let back = switch(&mut m, &mut c);
    assert_eq!(back, ProcessId(1));
    assert_eq!(c, ctx());
}

#[test]
fn exit_then_wait_gives_the_exit_code() {
    let mut m = kernel();
    m.spawn(&"child".to_string(), Some(ProcessId(1)), PageTableRef(0x2000), 0x40_1000, None);
    let mut c = ctx();
    switch(&mut m, &mut c);
    assert_eq!(get_pid(&m), 2);
    let rel = exit_process(&mut m, &args(7, 0, 0), &mut c).unwrap();
    assert_eq!(rel.page_table, PageTableRef(0x2000));
    assert_eq!(get_pid(&m), 1);
    assert_eq!(m.get_exit_code(&ProcessId(2)), Some(7));
    let mut w = ProcessContext { rax: 99, ..ctx() };
    assert!(wait_service_pid(&m, &args(2, 0, 0), &mut w));
    assert_eq!(w.rax, 7);
    let mut w2 = ProcessContext { rax: 99, ..ctx() };
    assert!(!wait_service_pid(&m, &args(1, 0, 0), &mut w2));
    assert_eq!(w2.rax, 99);
    assert_eq!(list_process(&m).len(), 1);
}

#[test]
fn fork_returns_zero_to_the_child_and_its_pid_to_the_parent() {
    let mut m = kernel();
    let mut c = ctx();
    let base = m.current().inner.first_child_stack_base();
    let child = sys_fork(&mut m, &mut c, PageTableRef(0x3000), base);
    assert_eq!(child, ProcessId(2));
    let ch = m.get_proc(&child).unwrap();
    assert_eq!(ch.inner.context.rax, 0);
    assert_eq!(ch.inner.parent, Some(ProcessId(1)));
    let parent = m.get_proc(&ProcessId(1)).unwrap();
    assert_eq!(parent.inner.context.rax, 2);
    assert_eq!(parent.inner.children, vec![ProcessId(2)]);
    // the child runs next and the parent waits in the ready queue
    assert_eq!(get_pid(&m), 2);
    assert!(m.ready_queue.contains(&ProcessId(1)));
    // the child shares the parent's semaphore set
    assert_eq!(ch.inner.proc_data.unwrap().semaphores, 0);
}

#[test]
fn semaphore_system_call() {
    let mut m = kernel();
    let mut c = ctx();
    sys_sem(&mut m, &args(0, 5, 1), &mut c);
    assert_eq!(c.rax, 1);
    sys_sem(&mut m, &args(0, 5, 1), &mut c);
    assert_eq!(c.rax, 0);
    sys_sem(&mut m, &args(3, 5, 0), &mut c);
    assert_eq!(c.rax, 0);
    sys_sem(&mut m, &args(2, 5, 0), &mut c);
    assert_eq!(c.rax, 0);
    sys_sem(&mut m, &args(2, 9, 0), &mut c);
    assert_eq!(c.rax, 1);
    sys_sem(&mut m, &args(1, 5, 0), &mut c);
    assert_eq!(c.rax, 1);
    sys_sem(&mut m, &args(1, 5, 0), &mut c);
    assert_eq!(c.rax, 0);
    sys_sem(&mut m, &args(8, 5, 0), &mut c);
    assert_eq!(c.rax, usize::MAX);
}

#[test]
fn waiting_on_an_empty_semaphore_blocks_and_signal_wakes() {
    let mut m = kernel();
    m.spawn(&"b".to_string(), Some(ProcessId(1)), PageTableRef(0x2000), 0x40_1000, Some(ProcessData {
        stack_segment: None,
        max_stack_segment: None,
        semaphores: 0,
    }));
    let mut c = ctx();
    sys_sem(&mut m, &args(0, 3, 0), &mut c);
    sys_sem(&mut m, &args(3, 3, 0), &mut c);
    assert_eq!(m.get_proc(&ProcessId(1)).unwrap().inner.status, ProgramStatus::Blocked);
    assert_eq!(get_pid(&m), 2);
    sys_sem(&mut m, &args(2, 3, 0), &mut c);
    assert_eq!(m.get_proc(&ProcessId(1)).unwrap().inner.status, ProgramStatus::Ready);
    assert_eq!(m.ready_queue.iter().copied().collect::<Vec<_>>(), vec![ProcessId(1)]);
}

#[test]
fn semaphore_counts_and_queues_in_order() {
    let mut s = Semaphore::new(1);
    assert_eq!(s.wait(ProcessId(4)), SemaphoreResult::Success);
    assert_eq!(s.wait(ProcessId(5)), SemaphoreResult::Block(ProcessId(5)));
    assert_eq!(s.wait(ProcessId(6)), SemaphoreResult::Block(ProcessId(6)));
    assert_eq!(s.signal(), SemaphoreResult::WakeUp(ProcessId(5)));
    assert_eq!(s.signal(), SemaphoreResult::WakeUp(ProcessId(6)));
    assert_eq!(s.signal(), SemaphoreResult::Success);
    assert_eq!(s.count, 1);
    let mut set = SemaphoreSet::new();
    assert_eq!(set.wait(1, ProcessId(2)), SemaphoreResult::NotExist);
    assert!(set.insert(1, 0));
    assert!(!set.insert(1, 0));
    assert!(set.remove(1));
    assert!(!set.remove(1));
}

#[test]
fn stack_grows_on_a_fault_below_it() {
    let mut m = kernel();
    let addr = STACK_MAX - 3 * 4096 + 16;
    assert_eq!(m.handle_page_fault(addr, false), Some((addr, 2)));
    let d = m.current().inner.proc_data.unwrap();
    assert_eq!(d.stack_segment, Some(StackRange { start: STACK_MAX - 3 * 4096, end: STACK_MAX }));
    assert_eq!(m.handle_page_fault(addr, true), None);
    assert_eq!(m.handle_page_fault(0x1000, false), None);
}

#[test]
fn spawn_results_and_program_lookup() {
    assert_eq!(spawn_result(Some(ProcessId(3))), 3);
    assert_eq!(spawn_result(None), 0);
    let apps = vec!["shell".to_string(), "hello".to_string()];
    assert_eq!(find_app(&apps, "hello"), Some(1));
    assert_eq!(find_app(&apps, "nope"), None);
}

#[test]
fn raw_system_call_results() {
    assert_eq!(io_result(5), Some(5));
    assert_eq!(io_result(usize::MAX), None);
    assert_eq!(io_result(isize::MAX as usize), Some(isize::MAX as usize));
    assert_eq!(pid_result(0x1_0002), 2);
}

#[test]
fn stack_membership_and_child_stacks() {
    let mut d = ProcessData::new(0);
    d.set_stack(STACK_INIT_TOP, STACK_DEF_PAGE);
    d.set_max_stack(STACK_MAX - STACK_MAX_SIZE, STACK_MAX_PAGES);
    assert!(d.is_on_stack(STACK_MAX - 1));
    assert!(!d.is_on_stack(STACK_MAX - 4097));
    assert!(d.is_on_max_stack(STACK_MAX - 4097));
    assert!(!d.is_on_max_stack(STACK_MAX));
    assert_eq!(ysos::process::next_child_stack_base(STACK_MAX - STACK_MAX_SIZE), STACK_MAX - 2 * STACK_MAX_SIZE);
    let m = kernel();
    assert!(!m.current().inner.is_ready());
}
