//! The process table as the `ps` system call prints it.
use vstd::prelude::*;
use vstd::string::StringExecFns;
use crate::logger::{decimal, push_decimal};
use crate::manager::{row_view, rows_below, ProcessManager, ProcessRow};
use crate::path::push_char;
use crate::process::ProgramStatus;
use crate::pid::ProcessId;

verus! {

/// `n` spaces.
pub open spec fn spaces(n: int) -> Seq<char> {
    Seq::new(if n > 0 { n as nat } else { 0 }, |i: int| ' ')
}

/// `s` padded with spaces on the left to `w` characters.
pub open spec fn pad_left(s: Seq<char>, w: int) -> Seq<char> {
    spaces(w - s.len()) + s
}

/// `s` padded with spaces on the right to `w` characters.
pub open spec fn pad_right(s: Seq<char>, w: int) -> Seq<char> {
    s + spaces(w - s.len())
}

/// The name under which a status is shown.
pub open spec fn status_name(s: ProgramStatus) -> Seq<char> {
    match s {
        ProgramStatus::Running => "Running"@,
        ProgramStatus::Ready => "Ready"@,
        ProgramStatus::Blocked => "Blocked"@,
        ProgramStatus::Dead => "Dead"@,
    }
}

/// The heading of the process list.
pub open spec fn list_header() -> Seq<char> {
    "  PID | PPID | Process Name |  Ticks  | Status\n"@
}

/// The line of one process: identifiers right-aligned in three places, the
/// name left-aligned in twelve, the ticks right-aligned in seven, then the
/// status.
pub open spec fn row_text(r: (u16, u16, Seq<char>, usize, ProgramStatus)) -> Seq<char> {
    " #"@ + pad_left(decimal(r.0 as nat), 3) + " | #"@ + pad_left(decimal(r.1 as nat), 3)
        + " | "@ + pad_right(r.2, 12) + " | "@ + pad_left(decimal(r.3 as nat), 7) + " | "@
        + status_name(r.4) + "\n"@
}

/// The lines of rows `rows`, one after another.
pub open spec fn rows_text(rows: Seq<(u16, u16, Seq<char>, usize, ProgramStatus)>) -> Seq<char>
    decreases rows.len(),
{
    if rows.len() == 0 {
        Seq::empty()
    } else {
        rows_text(rows.drop_last()) + row_text(rows.last())
    }
}

fn push_spaces(s: &mut String, n: usize)
    ensures
        final(s)@ == old(s)@ + spaces(n as int),
{
    let mut i: usize = 0;
    assert(old(s)@ + spaces(0) =~= old(s)@);
    while i < n
        invariant
            i <= n,
            s@ == old(s)@ + spaces(i as int),
        decreases n - i,
    {
        push_char(s, ' ');
        i = i + 1;
        assert(s@ =~= old(s)@ + spaces(i as int));
    }
}

fn push_padded_number(s: &mut String, n: u64, w: usize)
    ensures
        final(s)@ == old(s)@ + pad_left(decimal(n as nat), w as int),
{
    let mut digits = String::new();
    push_decimal(&mut digits, n);
    assert(digits@ =~= decimal(n as nat));
    let len = digits.as_str().unicode_len();
    if len < w {
        push_spaces(s, w - len);
    } else {
        assert(spaces(w - len) =~= Seq::<char>::empty());
    }
    s.append(digits.as_str());
    assert(s@ =~= old(s)@ + pad_left(decimal(n as nat), w as int));
}

fn push_padded_name(s: &mut String, name: &String, w: usize)
    ensures
        final(s)@ == old(s)@ + pad_right(name@, w as int),
{
    s.append(name.as_str());
    let len = name.as_str().unicode_len();
    if len < w {
        push_spaces(s, w - len);
    } else {
        assert(spaces(w - len) =~= Seq::<char>::empty());
    }
    assert(s@ =~= old(s)@ + pad_right(name@, w as int));
}

fn status_str(st: ProgramStatus) -> (s: &'static str)
    ensures
        s@ == status_name(st),
{
    match st {
        ProgramStatus::Running => "Running",
        ProgramStatus::Ready => "Ready",
        ProgramStatus::Blocked => "Blocked",
        ProgramStatus::Dead => "Dead",
    }
}

/// Appends the line of one process (see `row_text`).
pub fn push_row(s: &mut String, r: &ProcessRow)
    ensures
        final(s)@ == old(s)@ + row_text(row_view(*r)),
{
    s.append(" #");
    push_padded_number(s, r.pid as u64, 3);
    s.append(" | #");
    push_padded_number(s, r.ppid as u64, 3);
    s.append(" | ");
    push_padded_name(s, &r.name, 12);
    s.append(" | ");
    push_padded_number(s, r.ticks as u64, 7);
    s.append(" | ");
    s.append(status_str(r.status));
    s.append("\n");
    assert(s@ =~= old(s)@ + row_text(row_view(*r)));
}

/// The process table: the heading, then the line of every process that is
/// not dead, by increasing identifier.
pub fn process_list_text(manager: &ProcessManager) -> (text: String)
    ensures
        text@ == list_header() + rows_text(rows_below(manager.processes@, 65536)),
{
    let rows = manager.process_rows();
    let ghost rv = rows@.map_values(|r: ProcessRow| row_view(r));
    let mut out = String::from_str("  PID | PPID | Process Name |  Ticks  | Status\n");
    let mut i: usize = 0;
    assert(rv.take(0) =~= Seq::<(u16, u16, Seq<char>, usize, ProgramStatus)>::empty());
    assert(out@ =~= list_header() + rows_text(rv.take(0)));
    while i < rows.len()
        invariant
            i <= rows@.len(),
            rv == rows@.map_values(|r: ProcessRow| row_view(r)),
            out@ == list_header() + rows_text(rv.take(i as int)),
        decreases rows@.len() - i,
    {
        push_row(&mut out, &rows[i]);
        proof {
            let t = rv.take(i + 1);
            assert(t.drop_last() =~= rv.take(i as int));
            assert(t.last() == row_view(rows@[i as int]));
            assert(out@ =~= list_header() + rows_text(t));
        }
        i = i + 1;
    }
    assert(rv.take(rows@.len() as int) =~= rv);
    out
}

/// The identifiers of `q`, in decimal, separated by `, `.
pub open spec fn pids_text(q: Seq<ProcessId>) -> Seq<char>
    decreases q.len(),
{
    if q.len() == 0 {
        Seq::empty()
    } else if q.len() == 1 {
        decimal(q[0].0 as nat)
    } else {
        pids_text(q.drop_last()) + ", "@ + decimal(q.last().0 as nat)
    }
}

/// The line of the process list that shows the ready queue, front first.
pub open spec fn queue_text(q: Seq<ProcessId>) -> Seq<char> {
    "Queue  : ["@ + pids_text(q) + "]\n"@
}

/// The ready-queue line that follows the process table and the memory
/// lines (see `queue_text`).
pub fn queue_line(manager: &ProcessManager) -> (text: String)
    ensures
        text@ == queue_text(manager.ready_queue@),
{
    let q = &manager.ready_queue;
    let mut ids = String::new();
    let mut i: usize = 0;
    assert(q@.take(0) =~= Seq::<ProcessId>::empty());
    while i < q.len()
        invariant
            i <= q@.len(),
            ids@ == pids_text(q@.take(i as int)),
        decreases q@.len() - i,
    {
        let ghost before = ids@;
        if i > 0 {
            ids.append(", ");
        }
        push_decimal(&mut ids, q[i].0 as u64);
        proof {
            let t = q@.take(i + 1);
            assert(t.drop_last() =~= q@.take(i as int));
            assert(t.last() == q@[i as int]);
            if i == 0 {
                assert(ids@ =~= pids_text(t));
            } else {
                assert(ids@ =~= pids_text(t));
            }
        }
        i = i + 1;
    }
    assert(q@.take(q@.len() as int) =~= q@);
    let mut out = String::from_str("Queue  : [");
    out.append(ids.as_str());
    out.append("]\n");
    out
}

/// The status column names each status by its own word, so no two
/// statuses are shown alike: a blocked process is shown as blocked, never as
/// ready or running.
pub proof fn law_status_names(s1: ProgramStatus, s2: ProgramStatus)
    ensures
        status_name(ProgramStatus::Running) == "Running"@,
        status_name(ProgramStatus::Ready) == "Ready"@,
        status_name(ProgramStatus::Blocked) == "Blocked"@,
        status_name(ProgramStatus::Dead) == "Dead"@,
        s1 != s2 ==> status_name(s1) != status_name(s2),
{
    reveal_strlit("Running");
    reveal_strlit("Ready");
    reveal_strlit("Blocked");
    reveal_strlit("Dead");
    if s1 != s2 {
        let a = status_name(s1);
        let b = status_name(s2);
        if a.len() == b.len() {
            assert(a[0] != b[0] || a[1] != b[1]);
        }
    }
}

/// Every row of the process list ends with its process's status word and a
/// line end.
pub proof fn law_row_ends_with_status(r: (u16, u16, Seq<char>, usize, ProgramStatus))
    ensures
        ({
            let t = row_text(r);
            let tail = status_name(r.4) + "\n"@;
            t.len() >= tail.len() && t.skip(t.len() - tail.len()) == tail
        }),
{
    let t = row_text(r);
    let tail = status_name(r.4) + "\n"@;
    assert(t.skip(t.len() - tail.len()) =~= tail);
}

} // verus!
