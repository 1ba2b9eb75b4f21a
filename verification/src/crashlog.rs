//! The texts of the crash report: the log file's name and body, and the
//! message box shown before the process goes away. Installing the panic
//! hook, writing the file and showing the box are the caller's.

use vstd::prelude::*;
use crate::text::{
    chars_of, decimal, fmt_u64, index_of, lemma_index_of, push_chars, push_str, string_from_chars,
    sub_chars,
};

verus! {

/// The name of the directory, under the temporary directory, that holds
/// the crash logs.
pub const CRASH_DIR_NAME: &'static str = "codex-runway-windows";

/// The decimal rendering of a signed integer.
pub open spec fn signed_decimal(n: int) -> Seq<char> {
    if n < 0 { "-"@ + decimal((-n) as nat) } else { decimal(n as nat) }
}

/// The decimal characters of `n` (integer `Display`).
pub fn fmt_i64(n: i64) -> (r: Vec<char>)
    ensures
        r@ == signed_decimal(n as int),
{
    proof {
        reveal_strlit("-");
    }
    if n < 0 {
        let m: u64 = if n == i64::MIN { 0x8000_0000_0000_0000u64 } else { (-n) as u64 };
        let mut v = chars_of("-");
        let d = fmt_u64(m);
        push_chars(&mut v, &d);
        v
    } else {
        fmt_u64(n as u64)
    }
}

/// `panic-<unix seconds>.log`.
pub open spec fn spec_crash_log_name(unix: i64) -> Seq<char> {
    "panic-"@ + signed_decimal(unix as int) + ".log"@
}

/// The file name of a crash log written at Unix time `unix`.
pub fn crash_log_name(unix: i64) -> (r: String)
    ensures
        r@ == spec_crash_log_name(unix),
{
    let mut v = chars_of("panic-");
    let d = fmt_i64(unix);
    push_chars(&mut v, &d);
    push_str(&mut v, ".log");
    string_from_chars(&v)
}

/// `file:line:column` of a panic.
pub open spec fn spec_panic_location(file: Seq<char>, line: u32, column: u32) -> Seq<char> {
    file + ":"@ + decimal(line as nat) + ":"@ + decimal(column as nat)
}

/// Where a panic happened, as the report prints it.
pub fn panic_location(file: &str, line: u32, column: u32) -> (r: String)
    ensures
        r@ == spec_panic_location(file@, line, column),
{
    let mut v = chars_of(file);
    push_str(&mut v, ":");
    let l = fmt_u64(line as u64);
    push_chars(&mut v, &l);
    push_str(&mut v, ":");
    let c = fmt_u64(column as u64);
    push_chars(&mut v, &c);
    string_from_chars(&v)
}

/// The body of a crash log.
pub open spec fn spec_crash_report(msg: Seq<char>, location: Seq<char>, unix: i64, backtrace: Seq<char>) -> Seq<char> {
    "Codex Runway crashed.\n\nPanic message: "@ + msg + "\nAt: "@ + location
        + "\nTime (UTC unix): "@ + signed_decimal(unix as int) + "\n\nBacktrace:\n"@ + backtrace
        + "\n"@
}

/// The body of a crash log: the panic message, where it happened, the Unix
/// time and the backtrace.
pub fn crash_report(msg: &str, location: &str, unix: i64, backtrace: &str) -> (r: String)
    ensures
        r@ == spec_crash_report(msg@, location@, unix, backtrace@),
{
    let mut v = chars_of("Codex Runway crashed.\n\nPanic message: ");
    push_str(&mut v, msg);
    push_str(&mut v, "\nAt: ");
    push_str(&mut v, location);
    push_str(&mut v, "\nTime (UTC unix): ");
    let t = fmt_i64(unix);
    push_chars(&mut v, &t);
    push_str(&mut v, "\n\nBacktrace:\n");
    push_str(&mut v, backtrace);
    push_str(&mut v, "\n");
    string_from_chars(&v)
}

/// The first line of a text, as `str::lines` yields it: up to the first
/// line feed, without a carriage return before it; empty for an empty text.
pub open spec fn first_line(s: Seq<char>) -> Seq<char> {
    let i = index_of(s, '\n');
    let l = if i < 0 { s } else { s.take(i) };
    if l.len() > 0 && l.last() == '\r' { l.drop_last() } else { l }
}

/// The text of the message box shown on a crash.
pub open spec fn spec_crash_popup(dir: Seq<char>, body: Seq<char>) -> Seq<char> {
    "Codex Runway hit an unexpected error and is about to close.\n\nA crash log was written to:\n"@
        + dir + "\n\nFirst line of the message:\n"@ + first_line(body) + "\n"@
}

/// The text of the message box: where the log went and the first line of
/// the report.
pub fn crash_popup(dir: &str, body: &str) -> (r: String)
    ensures
        r@ == spec_crash_popup(dir@, body@),
{
    let b = chars_of(body);
    let mut j: usize = 0;
    while j < b.len() && b[j] != '\n'
        invariant
            j <= b.len(),
            forall|k: int| 0 <= k < j ==> b@[k] != '\n',
        decreases b.len() - j,
    {
        j = j + 1;
    }
    proof {
        lemma_index_of(b@, '\n', j as int);
    }
    let mut line = sub_chars(&b, 0, j);
    assert(line@ =~= (if index_of(b@, '\n') < 0 { b@ } else { b@.take(index_of(b@, '\n')) }));
    if line.len() > 0 && line[line.len() - 1] == '\r' {
        let ghost before = line@;
        line.pop();
        assert(line@ =~= before.drop_last());
    }
    let mut v = chars_of("Codex Runway hit an unexpected error and is about to close.\n\nA crash log was written to:\n");
    push_str(&mut v, dir);
    push_str(&mut v, "\n\nFirst line of the message:\n");
    push_chars(&mut v, &line);
    push_str(&mut v, "\n");
    string_from_chars(&v)
}

} // verus!
