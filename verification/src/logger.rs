//! The lines of the log, and when the log is put aside.

use crate::numerals::{show_two, two_digits};
use vstd::prelude::*;

verus! {

/// A log longer than this is put aside at the next start.
pub const LOG_LIMIT: u64 = 524288;

/// Is a log of that many bytes put aside?
pub fn is_oversized(bytes: u64) -> (r: bool)
    ensures
        r == (bytes > LOG_LIMIT),
{
    bytes > LOG_LIMIT
}

/// A moment, as the log writes it.
#[derive(Clone, Copy, Debug, PartialEq, Eq, Structural)]
pub struct Moment {
    pub month: u16,
    pub day: u16,
    pub hour: u16,
    pub minute: u16,
    pub second: u16,
}

/// A line of the log: "MM-DD hh:mm:ss", two spaces, the message and a line
/// feed.
pub open spec fn line_of(t: Moment, msg: Seq<char>) -> Seq<char> {
    two_digits(t.month as nat) + "-"@ + two_digits(t.day as nat) + " "@ + two_digits(t.hour as nat)
        + ":"@ + two_digits(t.minute as nat) + ":"@ + two_digits(t.second as nat) + "  "@ + msg
        + "\n"@
}

/// A line of the log.
pub fn log_line(t: &Moment, msg: &str) -> (r: String)
    ensures
        r@ == line_of(*t, msg@),
{
    let mut r = show_two(t.month as u64);
    r.append("-");
    let day = show_two(t.day as u64);
    r.append(day.as_str());
    r.append(" ");
    let hour = show_two(t.hour as u64);
    r.append(hour.as_str());
    r.append(":");
    let minute = show_two(t.minute as u64);
    r.append(minute.as_str());
    r.append(":");
    let second = show_two(t.second as u64);
    r.append(second.as_str());
    r.append("  ");
    r.append(msg);
    r.append("\n");
    r
}

} // verus!
