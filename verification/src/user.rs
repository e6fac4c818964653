//! The user library's reading of raw system-call results.
use vstd::prelude::*;

verus! {

/// A read or write answers the number of bytes moved, or a negative number
/// (read as a signed word) when it failed.
pub fn io_result(raw: usize) -> (r: Option<usize>)
    ensures
        raw <= isize::MAX ==> r == Some(raw),
        raw > isize::MAX ==> r is None,
{
    // A word above the largest signed one is negative when read as signed.
    if raw > isize::MAX as usize {
        None
    } else {
        Some(raw)
    }
}

/// A process identifier answered by a system call: the low 16 bits.
pub fn pid_result(raw: usize) -> (pid: u16)
    ensures
        pid == raw % 0x10000,
{
    let p = raw as u16;
    assert(p == raw % 0x10000) by (bit_vector)
        requires
            p == raw as u16,
    ;
    p
}

} // verus!
