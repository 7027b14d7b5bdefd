//! The text of the log: numbers as text, the messages the core emits, and the
//! line that carries a message together with the time it was written at.

use vstd::prelude::*;

verus! {

/// The character that stands for one digit in base ten or sixteen.
pub open spec fn digit_char(d: nat) -> char {
    if d == 0 {
        '0'
    } else if d == 1 {
        '1'
    } else if d == 2 {
        '2'
    } else if d == 3 {
        '3'
    } else if d == 4 {
        '4'
    } else if d == 5 {
        '5'
    } else if d == 6 {
        '6'
    } else if d == 7 {
        '7'
    } else if d == 8 {
        '8'
    } else if d == 9 {
        '9'
    } else if d == 10 {
        'a'
    } else if d == 11 {
        'b'
    } else if d == 12 {
        'c'
    } else if d == 13 {
        'd'
    } else if d == 14 {
        'e'
    } else {
        'f'
    }
}

/// `n` written in the given base, most significant digit first, without
/// leading zeros; zero is written as a single `0`.
pub open spec fn number_text(n: nat, base: nat) -> Seq<char>
    recommends
        2 <= base <= 16,
    decreases n,
{
    if n < base || base < 2 {
        seq![digit_char(n)]
    } else {
        proof {
            lemma_quotient_is_smaller(n, base);
        }
        number_text(n / base, base).push(digit_char(n % base))
    }
}

/// Dividing by two or more makes a number that is not below the divisor
/// smaller, and leaves a remainder below the divisor.
pub proof fn lemma_quotient_is_smaller(n: nat, base: nat)
    requires
        2 <= base <= n,
    ensures
        n / base < n,
        n % base < base,
{
    assert(n / base < n && n % base < base) by (nonlinear_arith)
        requires
            2 <= base <= n,
    ;
}

/// `n` in decimal.
pub open spec fn decimal_text(n: nat) -> Seq<char> {
    number_text(n, 10)
}

/// `n` in lower-case hexadecimal, without a prefix.
pub open spec fn hex_text(n: nat) -> Seq<char> {
    number_text(n, 16)
}

/// A handle as the log writes it: the word `HANDLE`, and between
/// parentheses the value that the handle has in its process, in hexadecimal
/// with the prefix `0x`.
pub open spec fn handle_text(handle: nat) -> Seq<char> {
    "HANDLE(0x"@ + hex_text(handle) + ")"@
}

/// The message for a lock handle that was closed in a target process.
pub open spec fn closed_text(handle: nat, pid: nat) -> Seq<char> {
    "Closed "@ + handle_text(handle) + " for StarCraft.exe (PID: "@ + decimal_text(pid) + ")"@
}

/// The message for a lock handle that was taken from a target process, and
/// so is gone from it, while the own handle that it became could not be
/// closed.
pub open spec fn unclosed_text(handle: nat, pid: nat) -> Seq<char> {
    "Failed to close "@ + handle_text(handle) + " taken from StarCraft.exe (PID: "@
        + decimal_text(pid) + ")"@
}

/// The message for a tracked process that can no longer be opened.
pub open spec fn invalid_pid_text(pid: nat) -> Seq<char> {
    "Invalid PID: "@ + decimal_text(pid)
}

/// The message for a tracked process that was terminated on request.
pub open spec fn terminated_text(pid: nat) -> Seq<char> {
    "Successfully terminated process wid PID "@ + decimal_text(pid)
}

/// A log line: the time between square brackets, a space, the message.
pub open spec fn line_text(stamp: Seq<char>, message: Seq<char>) -> Seq<char> {
    "["@ + stamp + "] "@ + message
}

/// One of the ten digits.
pub open spec fn is_digit(c: char) -> bool {
    48 <= c as u32 <= 57
}

/// A time of day as the log writes it: two digits each for the hour, the
/// minute and the second, with a colon between them, then a full stop and
/// three digits for the milliseconds.
pub open spec fn is_stamp(stamp: Seq<char>) -> bool {
    &&& stamp.len() == 12
    &&& stamp[2] == ':'
    &&& stamp[5] == ':'
    &&& stamp[8] == '.'
    &&& forall|i: int|
        0 <= i < 12 && i != 2 && i != 5 && i != 8 ==> is_digit(#[trigger] stamp[i])
}

/// `line` is `message` with a time of day in front of it.
pub open spec fn is_line_of(line: Seq<char>, message: Seq<char>) -> bool {
    exists|stamp: Seq<char>| is_stamp(stamp) && line == line_text(stamp, message)
}

/// The one-character text of a digit below sixteen.
fn digit_str(d: u64) -> (text: &'static str)
    requires
        d < 16,
    ensures
        text@ == seq![digit_char(d as nat)],
{
    proof {
        reveal_strlit("0");
        reveal_strlit("1");
        reveal_strlit("2");
        reveal_strlit("3");
        reveal_strlit("4");
        reveal_strlit("5");
        reveal_strlit("6");
        reveal_strlit("7");
        reveal_strlit("8");
        reveal_strlit("9");
        reveal_strlit("a");
        reveal_strlit("b");
        reveal_strlit("c");
        reveal_strlit("d");
        reveal_strlit("e");
        reveal_strlit("f");
    }
    let text = if d == 0 {
        "0"
    } else if d == 1 {
        "1"
    } else if d == 2 {
        "2"
    } else if d == 3 {
        "3"
    } else if d == 4 {
        "4"
    } else if d == 5 {
        "5"
    } else if d == 6 {
        "6"
    } else if d == 7 {
        "7"
    } else if d == 8 {
        "8"
    } else if d == 9 {
        "9"
    } else if d == 10 {
        "a"
    } else if d == 11 {
        "b"
    } else if d == 12 {
        "c"
    } else if d == 13 {
        "d"
    } else if d == 14 {
        "e"
    } else {
        "f"
    };
    assert(text@ =~= seq![digit_char(d as nat)]);
    text
}

/// Appends `n`, written in `base`, to `out`.
fn push_number(out: &mut String, n: u64, base: u64)
    requires
        2 <= base <= 16,
    ensures
        final(out)@ == old(out)@ + number_text(n as nat, base as nat),
    decreases n,
{
    if n >= base {
        proof {
            lemma_quotient_is_smaller(n as nat, base as nat);
        }
        push_number(out, n / base, base);
        out.append(digit_str(n % base));
        assert(out@ =~= old(out)@ + number_text(n as nat, base as nat));
    } else {
        out.append(digit_str(n));
        assert(out@ =~= old(out)@ + number_text(n as nat, base as nat));
    }
}

/// Appends a handle as the log writes it.
fn push_handle(out: &mut String, handle: u64)
    ensures
        final(out)@ == old(out)@ + handle_text(handle as nat),
{
    out.append("HANDLE(0x");
    push_number(out, handle, 16);
    out.append(")");
    assert(out@ =~= old(out)@ + handle_text(handle as nat));
}

/// `n` in decimal.
pub fn decimal(n: u32) -> (text: String)
    ensures
        text@ == decimal_text(n as nat),
{
    let mut text = String::new();
    push_number(&mut text, n as u64, 10);
    assert(text@ =~= decimal_text(n as nat));
    text
}

/// `n` in lower-case hexadecimal, without a prefix.
pub fn hex(n: u64) -> (text: String)
    ensures
        text@ == hex_text(n as nat),
{
    let mut text = String::new();
    push_number(&mut text, n, 16);
    assert(text@ =~= hex_text(n as nat));
    text
}

/// The message for the lock handle `handle` closed in process `pid`.
pub fn closed_message(handle: u64, pid: u32) -> (text: String)
    ensures
        text@ == closed_text(handle as nat, pid as nat),
{
    let mut text = String::from_str("Closed ");
    push_handle(&mut text, handle);
    text.append(" for StarCraft.exe (PID: ");
    push_number(&mut text, pid as u64, 10);
    text.append(")");
    assert(text@ =~= closed_text(handle as nat, pid as nat));
    text
}

/// The message for the lock handle `handle` that was taken from process
/// `pid` but could not be closed afterwards.
pub fn unclosed_message(handle: u64, pid: u32) -> (text: String)
    ensures
        text@ == unclosed_text(handle as nat, pid as nat),
{
    let mut text = String::from_str("Failed to close ");
    push_handle(&mut text, handle);
    text.append(" taken from StarCraft.exe (PID: ");
    push_number(&mut text, pid as u64, 10);
    text.append(")");
    assert(text@ =~= unclosed_text(handle as nat, pid as nat));
    text
}

/// The message for the tracked process `pid` that can no longer be opened.
pub fn invalid_pid_message(pid: u32) -> (text: String)
    ensures
        text@ == invalid_pid_text(pid as nat),
{
    let mut text = String::from_str("Invalid PID: ");
    push_number(&mut text, pid as u64, 10);
    text
}

/// The message for the tracked process `pid` that was terminated.
pub fn terminated_message(pid: u32) -> (text: String)
    ensures
        text@ == terminated_text(pid as nat),
{
    let mut text = String::from_str("Successfully terminated process wid PID ");
    push_number(&mut text, pid as u64, 10);
    text
}

/// The log line that carries `message`, written at `stamp`.
pub fn log_line(stamp: &str, message: &str) -> (line: String)
    ensures
        line@ == line_text(stamp@, message@),
{
    let mut line = String::from_str("[");
    line.append(stamp);
    line.append("] ");
    line.append(message);
    assert(line@ =~= line_text(stamp@, message@));
    line
}

/// The local time of day, or the local date. Calls `chrono::Local::now` and
/// formats what it returns with `DateTime::format` and the pattern given.
/// Which time or date the text gives depends on the clock and the time
/// zone, and nothing is claimed of that. What is claimed is the shape that
/// `chrono` gives the text whatever the time: for the pattern of the time
/// of day, two digits each for hour, minute and second between colons, a
/// full stop and three digits; for the pattern of the date, a year of four
/// characters or more, a hyphen, two digits, a hyphen and two digits, which
/// is ten characters at the least. The two patterns admitted are the ones
/// this library uses, both of which `chrono` accepts; with another pattern
/// the formatting could fail. `chrono` reads the clock and the time zone of
/// the system and gives up where the clock stands before the year 1970 or
/// the system has no local time to offer.
#[verifier::external_body]
fn local_time_text(pattern: &str) -> (text: String)
    requires
        pattern@ == "%H:%M:%S%.3f"@ || pattern@ == "%Y-%m-%d"@,
    ensures
        pattern@ == "%H:%M:%S%.3f"@ ==> is_stamp(text@),
        pattern@ == "%Y-%m-%d"@ ==> text@.len() >= 10,
{
    chrono::Local::now().format(pattern).to_string()
}

/// `name` is a date of ten characters or more with the extension `.txt`.
pub open spec fn is_log_file_name(name: Seq<char>) -> bool {
    exists|date: Seq<char>| date.len() >= 10 && name == date + ".txt"@
}

/// The name of the file that holds the log of the current day: the local date
/// as year, month and day, and the extension `.txt`.
pub fn log_file_name() -> (name: String)
    ensures
        is_log_file_name(name@),
{
    let mut name = local_time_text("%Y-%m-%d");
    let ghost date = name@;
    name.append(".txt");
    assert(date.len() >= 10 && name@ == date + ".txt"@);
    name
}

/// Text that can be written to the log.
pub trait StringExt {
    /// The log line for this message, stamped with the current local time as
    /// hours, minutes, seconds and milliseconds.
    fn as_log(&self) -> String;
}

impl StringExt for str {
    fn as_log(&self) -> (line: String)
        ensures
            is_line_of(line@, self@),
    {
        let stamp = local_time_text("%H:%M:%S%.3f");
        let line = log_line(stamp.as_str(), self);
        assert(is_stamp(stamp@) && line@ == line_text(stamp@, self@));
        line
    }
}

} // verus!
