//! Formatting of a calendar-time record into the fixed `yymmddhhmmss`
//! text that goes into an outgoing alarm SMS.

use vstd::prelude::*;
use crate::custom_strings::string_from_chars;
use crate::gsm_time_converter::GsmTime;

verus! {

/// The two ASCII digits of a value below one hundred, tens digit first.
pub open spec fn spec_two_digits(v: u8) -> Seq<char> {
    seq![((48 + v / 10) as u8) as char, ((48 + v % 10) as u8) as char]
}

/// The twelve characters `yymmddhhmmss` of a calendar-time record whose
/// fields are all below one hundred.
pub open spec fn spec_format_gsm_time(t: GsmTime) -> Seq<char> {
    spec_two_digits(t.year) + spec_two_digits(t.month) + spec_two_digits(t.day) + spec_two_digits(
        t.hour,
    ) + spec_two_digits(t.minute) + spec_two_digits(t.second)
}

/// Fixed buffer holding a formatted `yymmddhhmmss` timestamp.
pub struct TimeBuffer {
    text: String,
}

impl TimeBuffer {
    /// The characters held so far.
    pub closed spec fn chars(self) -> Seq<char> {
        self.text@
    }

    pub fn new() -> (r: Self)
        ensures
            r.chars() == Seq::<char>::empty(),
    {
        TimeBuffer { text: String::new() }
    }

    pub fn as_str(&self) -> (r: &str)
        ensures
            r@ == self.chars(),
    {
        self.text.as_str()
    }
}

/// Append the two-digit decimal form of `v` to the character vector.
fn push_two_digits(out: &mut Vec<char>, v: u8)
    requires
        v <= 99,
    ensures
        final(out)@ == old(out)@ + spec_two_digits(v),
{
    out.push((48 + v / 10) as char);
    out.push((48 + v % 10) as char);
    proof {
        assert(out@ =~= old(out)@ + spec_two_digits(v));
    }
}

/// Format a calendar-time record as `yymmddhhmmss`.  Every field must be
/// below one hundred, as the RTC and the timestamp parser deliver them.
pub fn format_gsm_time(time: &GsmTime) -> (r: TimeBuffer)
    requires
        time.year <= 99,
        time.month <= 99,
        time.day <= 99,
        time.hour <= 99,
        time.minute <= 99,
        time.second <= 99,
    ensures
        r.chars() =~= spec_format_gsm_time(*time),
{
    let mut chars: Vec<char> = Vec::new();
    push_two_digits(&mut chars, time.year);
    push_two_digits(&mut chars, time.month);
    push_two_digits(&mut chars, time.day);
    push_two_digits(&mut chars, time.hour);
    push_two_digits(&mut chars, time.minute);
    push_two_digits(&mut chars, time.second);
    let text = string_from_chars(&chars);
    TimeBuffer { text }
}

} // verus!
