//! A process: its name, family, status, exit code, saved registers, page
//! table, and stack segments.
use vstd::prelude::*;
use crate::pid::{PidCounter, ProcessId};

verus! {

pub const PAGE_SIZE: u64 = 4096;

/// The top of the user stack region.
pub const STACK_MAX: u64 = 0x4000_0000_0000;

/// The pages one process stack may grow to.
pub const STACK_MAX_PAGES: u64 = 0x100000;

/// The bytes one process stack may grow to.
pub const STACK_MAX_SIZE: u64 = 0x1_0000_0000;

/// The pages of a fresh stack.
pub const STACK_DEF_PAGE: u64 = 1;

/// The initial stack pointer of a fresh process.
pub const STACK_INIT_TOP: u64 = STACK_MAX - 8;

/// The start of the page that holds `a`.
pub open spec fn page_of(a: u64) -> u64 {
    (a - a % 4096) as u64
}

/// A virtual address whose bits 48 to 63 copy bit 47.
pub open spec fn is_canonical(a: u64) -> bool {
    a >> 47u64 == 0 || a >> 47u64 == 0x1ffff
}

/// A value from which a virtual address can be made: canonical, or with only
/// bit 47 set above bit 46, which is then copied upward.
pub open spec fn virt_ok(a: u64) -> bool {
    is_canonical(a) || a >> 47u64 == 1
}

/// The virtual address made from `a`.
pub open spec fn virt(a: u64) -> u64 {
    if a >> 47u64 == 1 {
        a | 0xFFFF_0000_0000_0000
    } else {
        a
    }
}

fn virt_exec(a: u64) -> (r: u64)
    ensures
        r == virt(a),
{
    if a >> 47u64 == 1 {
        a | 0xFFFF_0000_0000_0000
    } else {
        a
    }
}

fn page_of_exec(a: u64) -> (r: u64)
    ensures
        r == page_of(a),
{
    a - a % 4096
}

/// A range of pages `[start, end)`, given by their start addresses.
#[derive(Clone, Copy, PartialEq, Eq, Structural, Debug)]
pub struct StackRange {
    pub start: u64,
    pub end: u64,
}

/// The pages from the page of `start` on, `size` pages long.
pub open spec fn range_of(start: u64, size: u64) -> StackRange {
    StackRange {
        start: page_of(start),
        end: page_of(virt((page_of(start) + size * 4096) as u64)),
    }
}

/// `range_of(start, size)` can be formed without leaving the address space.
pub open spec fn range_ok(start: u64, size: u64) -> bool {
    page_of(start) + size * 4096 <= u64::MAX && virt_ok((page_of(start) + size * 4096) as u64)
}

fn range_of_exec(start: u64, size: u64) -> (r: StackRange)
    requires
        range_ok(start, size),
    ensures
        r == range_of(start, size),
{
    let s = page_of_exec(start);
    let e = virt_exec(s + size * 4096);
    StackRange { start: s, end: page_of_exec(e) }
}

impl StackRange {
    /// The number of pages in the range.
    pub open spec fn spec_count(self) -> int {
        if self.end > self.start {
            (self.end - self.start) / 4096
        } else {
            0
        }
    }

    pub fn count(&self) -> (r: u64)
        ensures
            r == self.spec_count(),
    {
        if self.end > self.start {
            (self.end - self.start) / 4096
        } else {
            0
        }
    }

    pub open spec fn spec_contains(self, addr: u64) -> bool {
        self.start <= addr < self.end
    }
}

/// Per-process data: the stack in use, the region it may grow into, and the
/// semaphore set that the process shares with its family.
#[derive(Clone, Copy, PartialEq, Eq, Structural, Debug)]
pub struct ProcessData {
    pub stack_segment: Option<StackRange>,
    pub max_stack_segment: Option<StackRange>,
    /// Which shared semaphore set the process uses.
    pub semaphores: usize,
}

impl ProcessData {
    /// Fresh data with no stack that uses semaphore set `semaphores`.
    pub fn new(semaphores: usize) -> (d: ProcessData)
        ensures
            d.stack_segment is None,
            d.max_stack_segment is None,
            d.semaphores == semaphores,
    {
        ProcessData { stack_segment: None, max_stack_segment: None, semaphores }
    }

    /// The stack is the `size` pages from the page of `start`.
    pub fn set_stack(&mut self, start: u64, size: u64)
        requires
            is_canonical(start),
            range_ok(start, size),
        ensures
            *final(self) == (ProcessData { stack_segment: Some(range_of(start, size)), ..*old(self) }),
    {
        self.stack_segment = Some(range_of_exec(start, size));
    }

    /// The stack may grow within the `size` pages from the page of `start`.
    pub fn set_max_stack(&mut self, start: u64, size: u64)
        requires
            is_canonical(start),
            range_ok(start, size),
        ensures
            *final(self) == (ProcessData {
                max_stack_segment: Some(range_of(start, size)),
                ..*old(self)
            }),
    {
        self.max_stack_segment = Some(range_of_exec(start, size));
    }

    pub fn is_on_stack(&self, addr: u64) -> (r: bool)
        ensures
            r == (self.stack_segment matches Some(s) && s.spec_contains(addr)),
    {
        match self.stack_segment {
            Some(range) => range.start <= addr && addr < range.end,
            None => false,
        }
    }

    pub fn is_on_max_stack(&self, addr: u64) -> (r: bool)
        ensures
            r == (self.max_stack_segment matches Some(s) && s.spec_contains(addr)),
    {
        match self.max_stack_segment {
            Some(range) => range.start <= addr && addr < range.end,
            None => false,
        }
    }
}

/// The saved registers of a process that the kernel reads or changes.
#[derive(Clone, Copy, PartialEq, Eq, Structural, Debug)]
pub struct ProcessContext {
    pub rax: usize,
    pub stack_pointer: u64,
    pub instruction_pointer: u64,
}

impl ProcessContext {
    pub fn new() -> (c: ProcessContext)
        ensures
            c == (ProcessContext { rax: 0, stack_pointer: 0, instruction_pointer: 0 }),
    {
        ProcessContext { rax: 0, stack_pointer: 0, instruction_pointer: 0 }
    }

    /// The value a system call returns.
    pub fn set_rax(&mut self, value: usize)
        ensures
            *final(self) == (ProcessContext { rax: value, ..*old(self) }),
    {
        self.rax = value;
    }

    /// Copies the registers of `other` in.
    pub fn save(&mut self, other: &ProcessContext)
        ensures
            *final(self) == *other,
    {
        *self = *other;
    }

    /// Copies the registers out into `other`.
    pub fn restore(&self, other: &mut ProcessContext)
        ensures
            *final(other) == *self,
    {
        *other = *self;
    }

    /// Starts execution at `entry` with the stack at `stack_top`.
    pub fn init_stack_frame(&mut self, entry: u64, stack_top: u64)
        ensures
            *final(self) == (ProcessContext {
                instruction_pointer: entry,
                stack_pointer: stack_top,
                ..*old(self)
            }),
    {
        self.instruction_pointer = entry;
        self.stack_pointer = stack_top;
    }

    /// Moves the stack pointer by `offset`, modulo 2^64.
    pub fn set_stack_offset(&mut self, offset: u64)
        ensures
            *final(self) == (ProcessContext {
                stack_pointer: ((old(self).stack_pointer + offset) % 0x1_0000_0000_0000_0000) as u64,
                ..*old(self)
            }),
    {
        self.stack_pointer = self.stack_pointer.wrapping_add(offset);
    }
}

/// The life-cycle state of a process.
#[derive(Clone, Copy, PartialEq, Eq, Structural, Debug)]
pub enum ProgramStatus {
    Running,
    Ready,
    Blocked,
    Dead,
}

/// The page table of a process, by the frame of its top-level table.
#[derive(Clone, Copy, PartialEq, Eq, Structural, Debug)]
pub struct PageTableRef(pub u64);

/// What a killed process leaves for the memory manager to free: its stack
/// pages in its page table.
#[derive(Clone, Copy, PartialEq, Eq, Structural, Debug)]
pub struct Released {
    pub page_table: PageTableRef,
    pub stack: StackRange,
}

/// The state of a process.
pub struct ProcessInner {
    pub name: String,
    pub parent: Option<ProcessId>,
    pub children: Vec<ProcessId>,
    pub ticks_passed: usize,
    pub status: ProgramStatus,
    pub exit_code: Option<isize>,
    pub context: ProcessContext,
    pub page_table: Option<PageTableRef>,
    pub proc_data: Option<ProcessData>,
}

/// A process still holds what it runs with: its data, its stack and its page table.
pub open spec fn inner_live_ok(i: ProcessInner) -> bool {
    &&& i.proc_data matches Some(d) && d.stack_segment is Some
    &&& i.page_table is Some
}

pub open spec fn ascii_lower(c: char) -> char {
    if 'A' <= c <= 'Z' {
        ((c as u32) + 32) as char
    } else {
        c
    }
}

/// The name with ASCII capitals made small.
pub fn to_ascii_lowercase(name: &String) -> (r: String)
    ensures
        r@ == name@.map_values(|c: char| ascii_lower(c)),
{
    let s = name.as_str();
    let n = s.unicode_len();
    let mut r = String::new();
    let mut i: usize = 0;
    while i < n
        invariant
            i <= n,
            n == name@.len(),
            s@ == name@,
            r@ == name@.take(i as int).map_values(|c: char| ascii_lower(c)),
        decreases n - i,
    {
        let c = s.get_char(i);
        let l = if 'A' <= c && c <= 'Z' {
            ((c as u8) + 32) as char
        } else {
            c
        };
        proof {
            if 'A' <= c <= 'Z' {
                assert(l == ascii_lower(c)) by {
                    assert((c as u8) as u32 == c as u32);
                }
            }
        }
        crate::path::push_char(&mut r, l);
        assert(name@.take(i + 1) =~= name@.take(i as int).push(c));
        assert(r@ =~= name@.take(i + 1).map_values(|c: char| ascii_lower(c)));
        i = i + 1;
    }
    assert(name@.take(n as int) =~= name@);
    r
}

impl ProcessInner {
    pub fn name(&self) -> (r: &String)
        ensures
            r == &self.name,
    {
        &self.name
    }

    /// One more timer tick spent running.
    pub fn tick(&mut self)
        requires
            old(self).ticks_passed < usize::MAX,
        ensures
            final(self).ticks_passed == old(self).ticks_passed + 1,
            final(self).name == old(self).name,
            final(self).parent == old(self).parent,
            final(self).children == old(self).children,
            final(self).status == old(self).status,
            final(self).exit_code == old(self).exit_code,
            final(self).context == old(self).context,
            final(self).page_table == old(self).page_table,
            final(self).proc_data == old(self).proc_data,
    {
        self.ticks_passed = self.ticks_passed + 1;
    }

    pub fn status(&self) -> (r: ProgramStatus)
        ensures
            r == self.status,
    {
        self.status
    }

    /// Marks the process ready to run.
    pub fn pause(&mut self)
        ensures
            final(self).status == ProgramStatus::Ready,
            final(self).same_but_status(*old(self)),
    {
        self.status = ProgramStatus::Ready;
    }

    /// Marks the process running.
    pub fn resume(&mut self)
        ensures
            final(self).status == ProgramStatus::Running,
            final(self).same_but_status(*old(self)),
    {
        self.status = ProgramStatus::Running;
    }

    /// Marks the process blocked.
    pub fn block(&mut self)
        ensures
            final(self).status == ProgramStatus::Blocked,
            final(self).same_but_status(*old(self)),
    {
        self.status = ProgramStatus::Blocked;
    }

    /// All fields but the status agree.
    pub open spec fn same_but_status(self, other: ProcessInner) -> bool {
        &&& self.name == other.name
        &&& self.parent == other.parent
        &&& self.children == other.children
        &&& self.ticks_passed == other.ticks_passed
        &&& self.exit_code == other.exit_code
        &&& self.context == other.context
        &&& self.page_table == other.page_table
        &&& self.proc_data == other.proc_data
    }

    pub fn exit_code(&self) -> (r: Option<isize>)
        ensures
            r == self.exit_code,
    {
        self.exit_code
    }

    pub fn is_ready(&self) -> (r: bool)
        ensures
            r == (self.status == ProgramStatus::Ready),
    {
        self.status == ProgramStatus::Ready
    }

    pub fn parent(&self) -> (r: Option<ProcessId>)
        ensures
            r == self.parent,
    {
        self.parent
    }

    /// Saves the registers of a running or ready process and marks it
    /// ready; a blocked or dead process is left as it is.
    pub fn save(&mut self, context: &ProcessContext)
        ensures
            (old(self).status == ProgramStatus::Running || old(self).status == ProgramStatus::Ready)
                ==> final(self).context == *context && final(self).status == ProgramStatus::Ready,
            !(old(self).status == ProgramStatus::Running || old(self).status == ProgramStatus::Ready)
                ==> final(self).context == old(self).context && final(self).status == old(
                self,
            ).status,
            final(self).name == old(self).name,
            final(self).parent == old(self).parent,
            final(self).children == old(self).children,
            final(self).ticks_passed == old(self).ticks_passed,
            final(self).exit_code == old(self).exit_code,
            final(self).page_table == old(self).page_table,
            final(self).proc_data == old(self).proc_data,
    {
        if self.status != ProgramStatus::Running && self.status != ProgramStatus::Ready {
            return ;
        }
        self.context.save(context);
        self.pause();
    }

    /// Loads the process's registers into `context` and marks it running;
    /// returns the page table to switch to.
    pub fn restore(&mut self, context: &mut ProcessContext) -> (pt: PageTableRef)
        requires
            old(self).page_table is Some,
        ensures
            *final(context) == old(self).context,
            Some(pt) == old(self).page_table,
            final(self).status == ProgramStatus::Running,
            final(self).same_but_status(*old(self)),
    {
        self.context.restore(context);
        let pt = match self.page_table {
            Some(p) => p,
            None => {
                assert(false);
                PageTableRef(0)
            },
        };
        self.resume();
        pt
    }

    /// Ends the process with exit code `ret`: it is dead, and its data and
    /// page table are released; returns the stack pages to unmap.
    pub fn kill(&mut self, ret: isize) -> (rel: Released)
        requires
            inner_live_ok(*old(self)),
        ensures
            final(self).exit_code == Some(ret),
            final(self).status == ProgramStatus::Dead,
            final(self).proc_data is None,
            final(self).page_table is None,
            Some(rel.page_table) == old(self).page_table,
            Some(rel.stack) == old(self).proc_data.unwrap().stack_segment,
            final(self).name == old(self).name,
            final(self).parent == old(self).parent,
            final(self).children == old(self).children,
            final(self).ticks_passed == old(self).ticks_passed,
            final(self).context == old(self).context,
    {
        self.exit_code = Some(ret);
        self.status = ProgramStatus::Dead;
        let rel = match (self.page_table, self.proc_data) {
            (Some(pt), Some(d)) => match d.stack_segment {
                Some(stack) => Released { page_table: pt, stack },
                None => {
                    assert(false);
                    Released { page_table: pt, stack: StackRange { start: 0, end: 0 } }
                },
            },
            _ => {
                assert(false);
                Released { page_table: PageTableRef(0), stack: StackRange { start: 0, end: 0 } }
            },
        };
        self.proc_data = None;
        self.page_table = None;
        rel
    }

    /// Execution starts at `entry` with the stack pointer at `stack_top`.
    pub fn set_stack_frame(&mut self, entry: u64, stack_top: u64)
        ensures
            final(self).context == (ProcessContext {
                instruction_pointer: entry,
                stack_pointer: stack_top,
                ..old(self).context
            }),
            final(self).status == old(self).status,
            final(self).name == old(self).name,
            final(self).parent == old(self).parent,
            final(self).children == old(self).children,
            final(self).ticks_passed == old(self).ticks_passed,
            final(self).exit_code == old(self).exit_code,
            final(self).page_table == old(self).page_table,
            final(self).proc_data == old(self).proc_data,
    {
        self.context.init_stack_frame(entry, stack_top);
    }

    /// Grows the stack down to the page of `addr`: the stack now runs from
    /// that page to its old end. Returns the address and the number of pages
    /// to map below the old stack.
    pub fn inc_stack_space(&mut self, addr: u64) -> (map: (u64, u64))
        requires
            old(self).proc_data matches Some(d) && d.stack_segment matches Some(s) && page_of(addr)
                <= s.start && user_range(s),
            is_canonical(addr),
        ensures
            ({
                let s = old(self).proc_data.unwrap().stack_segment.unwrap();
                &&& map == (addr, ((s.start - page_of(addr)) / 4096) as u64)
                &&& final(self).proc_data == Some(
                    ProcessData {
                        stack_segment: Some(range_of(addr, ((s.end - page_of(addr)) / 4096) as u64)),
                        ..old(self).proc_data.unwrap()
                    },
                )
                &&& range_of(addr, ((s.end - page_of(addr)) / 4096) as u64) == (StackRange {
                    start: page_of(addr),
                    end: s.end,
                })
            }),
            final(self).status == old(self).status,
            final(self).name == old(self).name,
            final(self).parent == old(self).parent,
            final(self).children == old(self).children,
            final(self).ticks_passed == old(self).ticks_passed,
            final(self).exit_code == old(self).exit_code,
            final(self).context == old(self).context,
            final(self).page_table == old(self).page_table,
    {
        let mut d = match self.proc_data {
            Some(d) => d,
            None => {
                assert(false);
                ProcessData::new(0)
            },
        };
        let old_range = match d.stack_segment {
            Some(r) => r,
            None => {
                assert(false);
                StackRange { start: 0, end: 0 }
            },
        };
        let cur_start_page = page_of_exec(addr);
        let stack_size = (old_range.start - cur_start_page) / 4096;
        let pages = (old_range.end - cur_start_page) / 4096;
        proof {
            lemma_range_back(addr, old_range);
        }
        d.set_stack(addr, pages);
        self.proc_data = Some(d);
        (addr, stack_size)
    }
}


/// The canonical address made from `a` by copying bit 47 into bits 48 to 63.
pub open spec fn virt_truncate(a: u64) -> u64 {
    if (a >> 47u64) & 1 == 1 {
        a | 0xFFFF_0000_0000_0000
    } else {
        a & 0x0000_FFFF_FFFF_FFFF
    }
}

pub(crate) fn virt_truncate_exec(a: u64) -> (r: u64)
    ensures
        r == virt_truncate(a),
{
    if (a >> 47u64) & 1 == 1 {
        a | 0xFFFF_0000_0000_0000
    } else {
        a & 0x0000_FFFF_FFFF_FFFF
    }
}

/// The stack of a child placed at `base`, as long as the parent's stack `s`.
pub open spec fn child_stack(s: StackRange, base: u64) -> StackRange {
    StackRange {
        start: page_of(virt_truncate(base)),
        end: page_of(virt_truncate((base + s.spec_count() * 4096) as u64)),
    }
}

/// A child stack can be placed at `base` below the parent's stack `s`.
pub open spec fn child_base_ok(s: StackRange, base: u64) -> bool {
    let top = base + s.spec_count() * 4096;
    &&& top <= u64::MAX
    &&& top >= STACK_MAX_SIZE
    &&& is_canonical((top - STACK_MAX_SIZE) as u64)
    &&& range_ok((top - STACK_MAX_SIZE) as u64, STACK_MAX_PAGES)
}

impl ProcessInner {
    /// The state of a child forked from this process: same name, registers
    /// and data, a stack at `child_stack_base` as long as this one with the
    /// stack pointer moved along, a zero return value, and ready to run.
    pub fn fork(&self, parent: ProcessId, child_page_table: PageTableRef, child_stack_base: u64) -> (c: ProcessInner)
        requires
            self.proc_data matches Some(d) && d.stack_segment matches Some(s) && child_base_ok(
                s,
                child_stack_base,
            ),
        ensures
            ({
                let d = self.proc_data.unwrap();
                let s = d.stack_segment.unwrap();
                let top = (child_stack_base + s.spec_count() * 4096) as u64;
                &&& c.name == self.name
                &&& c.parent == Some(parent)
                &&& c.children@ == Seq::<ProcessId>::empty()
                &&& c.ticks_passed == 0
                &&& c.status == ProgramStatus::Ready
                &&& c.exit_code is None
                &&& c.context == (ProcessContext {
                    rax: 0,
                    stack_pointer: ((self.context.stack_pointer + (child_stack_base - s.start)
                        % 0x1_0000_0000_0000_0000) % 0x1_0000_0000_0000_0000) as u64,
                    ..self.context
                })
                &&& c.page_table == Some(child_page_table)
                &&& c.proc_data == Some(
                    ProcessData {
                        stack_segment: Some(child_stack(s, child_stack_base)),
                        max_stack_segment: Some(
                            range_of((top - STACK_MAX_SIZE) as u64, STACK_MAX_PAGES),
                        ),
                        ..d
                    },
                )
            }),
    {
        let d = match self.proc_data {
            Some(d) => d,
            None => {
                assert(false);
                ProcessData::new(0)
            },
        };
        let stack_info = match d.stack_segment {
            Some(r) => r,
            None => {
                assert(false);
                StackRange { start: 0, end: 0 }
            },
        };
        let parent_stack_base = stack_info.start;
        let mut child_context = self.context;
        child_context.set_stack_offset(child_stack_base.wrapping_sub(parent_stack_base));
        let mut child_proc_data = d;
        let child_stack_top = child_stack_base + stack_info.count() * 4096;
        let child_range = StackRange {
            start: page_of_exec(virt_truncate_exec(child_stack_base)),
            end: page_of_exec(virt_truncate_exec(child_stack_top)),
        };
        child_proc_data.stack_segment = Some(child_range);
        child_proc_data.set_max_stack(child_stack_top - STACK_MAX_SIZE, STACK_MAX_PAGES);
        child_context.set_rax(0);
        ProcessInner {
            name: self.name.clone(),
            parent: Some(parent),
            children: Vec::new(),
            ticks_passed: 0,
            status: ProgramStatus::Ready,
            exit_code: None,
            context: child_context,
            page_table: Some(child_page_table),
            proc_data: Some(child_proc_data),
        }
    }

    /// Where a forked child's stack is first tried: below this stack, one
    /// stack slot per child so far plus one.
    pub fn first_child_stack_base(&self) -> (r: u64)
        requires
            self.proc_data matches Some(d) && d.stack_segment matches Some(s) && (
            self.children@.len() + 1) * STACK_MAX_SIZE <= s.start,
        ensures
            r == self.proc_data.unwrap().stack_segment.unwrap().start - (self.children@.len() + 1)
                * STACK_MAX_SIZE,
    {
        let s = match self.proc_data {
            Some(d) => match d.stack_segment {
                Some(s) => s,
                None => {
                    assert(false);
                    StackRange { start: 0, end: 0 }
                },
            },
            None => {
                assert(false);
                StackRange { start: 0, end: 0 }
            },
        };
        let n = self.children.len() as u64;
        assert((n + 1) * STACK_MAX_SIZE <= s.start);
        s.start - (n + 1) * STACK_MAX_SIZE
    }
}

/// Where a child's stack is tried next when `base` could not be mapped.
pub fn next_child_stack_base(base: u64) -> (r: u64)
    requires
        base >= STACK_MAX_SIZE,
    ensures
        r == base - STACK_MAX_SIZE,
{
    base - STACK_MAX_SIZE
}

/// A process: its identifier and its state.
pub struct Process {
    pub pid: ProcessId,
    pub inner: ProcessInner,
}

impl Process {
    pub fn pid(&self) -> (r: ProcessId)
        ensures
            r == self.pid,
    {
        self.pid
    }

    /// A new process with a fresh identifier: its name made lower case, ready
    /// to run, with no children, ticks or exit code, the given page table, and
    /// the given data (or fresh data that uses semaphore set `fresh_semaphores`).
    pub fn new(
        name: &String,
        parent: Option<ProcessId>,
        page_table: PageTableRef,
        proc_data: Option<ProcessData>,
        fresh_semaphores: usize,
        counter: &mut PidCounter,
    ) -> (p: Process)
        ensures
            p.pid.0 == old(counter).next,
            final(counter).next == (old(counter).next + 1) % 65536,
            final(counter).wrapped@ == (old(counter).wrapped@ || old(counter).next == 65535),
            p.inner.name@ == name@.map_values(|c: char| ascii_lower(c)),
            p.inner.parent == parent,
            p.inner.children@ == Seq::<ProcessId>::empty(),
            p.inner.ticks_passed == 0,
            p.inner.status == ProgramStatus::Ready,
            p.inner.exit_code is None,
            p.inner.context == (ProcessContext { rax: 0, stack_pointer: 0, instruction_pointer: 0 }),
            p.inner.page_table == Some(page_table),
            p.inner.proc_data == Some(
                match proc_data {
                    Some(d) => d,
                    None => ProcessData {
                        stack_segment: None,
                        max_stack_segment: None,
                        semaphores: fresh_semaphores,
                    },
                },
            ),
    {
        let name = to_ascii_lowercase(name);
        let pid = ProcessId::new(counter);
        let data = match proc_data {
            Some(d) => d,
            None => ProcessData::new(fresh_semaphores),
        };
        let inner = ProcessInner {
            name,
            parent,
            status: ProgramStatus::Ready,
            context: ProcessContext::new(),
            ticks_passed: 0,
            exit_code: None,
            children: Vec::new(),
            page_table: Some(page_table),
            proc_data: Some(data),
        };
        Process { pid, inner }
    }

    /// Kills the process with exit code `ret` (see `ProcessInner::kill`).
    pub fn kill(&mut self, ret: isize) -> (rel: Released)
        requires
            inner_live_ok(old(self).inner),
        ensures
            final(self).pid == old(self).pid,
            final(self).inner.exit_code == Some(ret),
            final(self).inner.status == ProgramStatus::Dead,
            final(self).inner.proc_data is None,
            final(self).inner.page_table is None,
            Some(rel.page_table) == old(self).inner.page_table,
            Some(rel.stack) == old(self).inner.proc_data.unwrap().stack_segment,
            final(self).inner.name == old(self).inner.name,
            final(self).inner.parent == old(self).inner.parent,
            final(self).inner.children == old(self).inner.children,
            final(self).inner.ticks_passed == old(self).inner.ticks_passed,
            final(self).inner.context == old(self).inner.context,
    {
        self.inner.kill(ret)
    }

    /// Forks the process: the child (see `ProcessInner::fork`) gets a fresh
    /// identifier and joins this process's children; this process returns
    /// the child's identifier from the call and is ready to run again.
    pub fn fork(&mut self, counter: &mut PidCounter, child_page_table: PageTableRef, child_stack_base: u64) -> (child: Process)
        requires
            old(self).inner.proc_data matches Some(d) && d.stack_segment matches Some(s)
                && child_base_ok(s, child_stack_base),
        ensures
            child.pid.0 == old(counter).next,
            final(counter).next == (old(counter).next + 1) % 65536,
            final(counter).wrapped@ == (old(counter).wrapped@ || old(counter).next == 65535),
            child.inner.parent == Some(old(self).pid),
            child.inner.status == ProgramStatus::Ready,
            child.inner.context.rax == 0,
            child.inner.page_table == Some(child_page_table),
            child.inner.name == old(self).inner.name,
            child.inner.proc_data is Some,
            child.inner.proc_data.unwrap().semaphores == old(self).inner.proc_data.unwrap().semaphores,
            child.inner.proc_data.unwrap().stack_segment == Some(
                child_stack(old(self).inner.proc_data.unwrap().stack_segment.unwrap(), child_stack_base),
            ),
            final(self).pid == old(self).pid,
            final(self).inner.children@ == old(self).inner.children@.push(child.pid),
            final(self).inner.context == (ProcessContext { rax: child.pid.0 as usize, ..old(self).inner.context }),
            final(self).inner.status == ProgramStatus::Ready,
            final(self).inner.name == old(self).inner.name,
            final(self).inner.parent == old(self).inner.parent,
            final(self).inner.ticks_passed == old(self).inner.ticks_passed,
            final(self).inner.exit_code == old(self).inner.exit_code,
            final(self).inner.page_table == old(self).inner.page_table,
            final(self).inner.proc_data == old(self).inner.proc_data,
    {
        let child_inner = self.inner.fork(self.pid, child_page_table, child_stack_base);
        let child_pid = ProcessId::new(counter);
        self.inner.children.push(child_pid);
        self.inner.context.set_rax(child_pid.0 as usize);
        self.inner.pause();
        Process { pid: child_pid, inner: child_inner }
    }
}

/// A page range of the lower half of the address space, below `STACK_MAX`.
pub open spec fn user_range(s: StackRange) -> bool {
    &&& s.start % 4096 == 0
    &&& s.end % 4096 == 0
    &&& s.start <= s.end <= STACK_MAX
}

proof fn lemma_range_back(addr: u64, s: StackRange)
    requires
        page_of(addr) <= s.start,
        user_range(s),
    ensures
        range_ok(addr, ((s.end - page_of(addr)) / 4096) as u64),
        range_of(addr, ((s.end - page_of(addr)) / 4096) as u64) == (StackRange {
            start: page_of(addr),
            end: s.end,
        }),
{
    let p = page_of(addr);
    let n = ((s.end - p) / 4096) as u64;
    assert(p % 4096 == 0);
    assert((s.end - p) % 4096 == 0);
    assert(p + n * 4096 == s.end);
    let e = s.end;
    assert(e >> 47u64 == 0) by (bit_vector)
        requires
            e <= 0x4000_0000_0000u64,
    ;
    assert(virt(e) == e);
    assert(page_of(e) == e);
}

} // verus!
