//! The kernel log's line format: a coloured level banner, where the record
//! comes from, and its message.
use vstd::prelude::*;
use vstd::string::StringExecFns;
use crate::path::push_char;

verus! {

/// The level of a log record, most severe first.
#[derive(Clone, Copy, Debug, PartialEq, Eq, Structural)]
pub enum LogLevel {
    Error,
    Warn,
    Info,
    Debug,
    Trace,
}

/// The most detailed level that is logged: `Trace`, so that records of
/// every level show.
pub fn max_level() -> (l: LogLevel)
    ensures
        l == LogLevel::Trace,
{
    LogLevel::Trace
}

/// What a line starts with for each level: the coloured banner, then the
/// colour of the text, then `from `.
pub open spec fn banner(level: LogLevel) -> Seq<char> {
    match level {
        LogLevel::Error => "\x1b[31;1;4m[X] Error\x1b[0m  - \x1b[31mfrom "@,
        LogLevel::Warn => "\x1b[33;1;4m[!] Warning\x1b[0m- \x1b[33mfrom "@,
        LogLevel::Info => "\x1b[34;1;4m[+] Info\x1b[0m   - \x1b[34mfrom "@,
        LogLevel::Debug => "\x1b[36;1;4m[#] Debug\x1b[0m  - \x1b[36mfrom "@,
        LogLevel::Trace => "\x1b[32;1;4m[%] Trace\x1b[0m  - \x1b[32mfrom "@,
    }
}

fn banner_str(level: LogLevel) -> (s: &'static str)
    ensures
        s@ == banner(level),
{
    match level {
        LogLevel::Error => "\x1b[31;1;4m[X] Error\x1b[0m  - \x1b[31mfrom ",
        LogLevel::Warn => "\x1b[33;1;4m[!] Warning\x1b[0m- \x1b[33mfrom ",
        LogLevel::Info => "\x1b[34;1;4m[+] Info\x1b[0m   - \x1b[34mfrom ",
        LogLevel::Debug => "\x1b[36;1;4m[#] Debug\x1b[0m  - \x1b[36mfrom ",
        LogLevel::Trace => "\x1b[32;1;4m[%] Trace\x1b[0m  - \x1b[32mfrom ",
    }
}

/// The character of a decimal digit.
pub open spec fn digit_char(d: nat) -> char {
    (48 + d) as char
}

/// The decimal writing of `n`, without leading zeros.
pub open spec fn decimal(n: nat) -> Seq<char>
    decreases n,
{
    if n < 10 {
        seq![digit_char(n)]
    } else {
        decimal(n / 10).push(digit_char(n % 10))
    }
}

/// Appends the decimal writing of `n` to `s`.
pub fn push_decimal(s: &mut String, n: u64)
    ensures
        final(s)@ == old(s)@ + decimal(n as nat),
    decreases n,
{
    if n >= 10 {
        push_decimal(s, n / 10);
    }
    let d: u8 = (n % 10) as u8;
    let c: char = (48u8 + d) as char;
    push_char(s, c);
    proof {
        if n >= 10 {
            assert(decimal(n as nat) == decimal((n / 10) as nat).push(digit_char((n % 10) as nat)));
        }
    }
}

/// The text of a log record: the banner of its level, the file and line it
/// comes from, the message, and the colour reset.
pub open spec fn record_text(level: LogLevel, file: Seq<char>, line: u32, msg: Seq<char>) -> Seq<char> {
    banner(level) + file + ", at line "@ + decimal(line as nat) + ", "@ + msg + "\x1b[0m"@
}

/// Formats a log record (see `record_text`).
pub fn format_record(level: LogLevel, file: &str, line: u32, msg: &str) -> (r: String)
    ensures
        r@ == record_text(level, file@, line, msg@),
{
    let mut s = String::from_str(banner_str(level));
    s.append(file);
    s.append(", at line ");
    push_decimal(&mut s, line as u64);
    s.append(", ");
    s.append(msg);
    s.append("\x1b[0m");
    s
}

} // verus!
