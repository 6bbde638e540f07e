//! Rendering a duration in seconds as a human-readable string, as the miner
//! logs deadlines: `<years> years <days> days <hours>:<minutes>:<seconds>`,
//! with minutes and seconds zero-padded to two digits.

use crate::decimal::{dec_chars, push_decimal};
use crate::strings::push_char;
use vstd::arithmetic::div_mod::lemma_div_denominator;
use vstd::prelude::*;
use vstd::string::StringExecFns;

verus! {

/// A numeral zero-padded to at least two digits.
pub open spec fn pad2(n: int) -> Seq<char> {
    if n <= 9 {
        seq!['0'] + dec_chars(n)
    } else {
        dec_chars(n)
    }
}

/// The rendered form of a duration of `seconds`: whole years of 365 days,
/// remaining days, and the remaining time of day.
pub open spec fn spec_long_time(seconds: u64) -> Seq<char> {
    let year = seconds as int / 31536000;
    let day = (seconds as int / 86400) % 365;
    let hour = (seconds as int / 3600) % 24;
    let min = (seconds as int / 60) % 60;
    let sec = seconds as int % 60;
    dec_chars(year) + " years "@ + dec_chars(day) + " days "@ + dec_chars(hour) + ":"@ + pad2(min)
        + ":"@ + pad2(sec)
}

/// Appends a numeral zero-padded to at least two digits.
fn push_pad2(s: &mut String, n: u64)
    requires
        n <= 99,
    ensures
        final(s)@ == old(s)@ + pad2(n as int),
{
    if n <= 9 {
        push_char(s, '0');
    }
    push_decimal(s, n);
    proof {
        if n <= 9 {
            assert(old(s)@ + pad2(n as int) =~= old(s)@.push('0') + dec_chars(n as int));
        }
    }
}

/// Renders a duration of `seconds` for the log, breaking it into years of
/// 365 days, days, hours, minutes and seconds.
pub fn from_seconds(seconds: u64) -> (r: String)
    ensures
        r@ == spec_long_time(seconds),
{
    let mut secs = seconds;
    let mut min: u64 = 0;
    let mut hour: u64 = 0;
    let mut day: u64 = 0;
    let mut year: u64 = 0;

    if secs > 59 {
        min = secs / 60;
        secs = secs % 60;
    }
    if min > 59 {
        hour = min / 60;
        min = min % 60;
    }
    if hour > 23 {
        day = hour / 24;
        hour = hour % 24;
    }
    if day > 364 {
        year = day / 365;
        day = day % 365;
    }
    proof {
        let s = seconds as int;
        lemma_div_denominator(s, 60, 60);
        lemma_div_denominator(s, 3600, 24);
        lemma_div_denominator(s, 86400, 365);
        assert(year == s / 31536000);
        assert(day == (s / 86400) % 365);
        assert(hour == (s / 3600) % 24);
        assert(min == (s / 60) % 60);
        assert(secs == s % 60);
    }
    let mut out = String::new();
    push_decimal(&mut out, year);
    push_str(&mut out, " years ");
    push_decimal(&mut out, day);
    push_str(&mut out, " days ");
    push_decimal(&mut out, hour);
    push_str(&mut out, ":");
    push_pad2(&mut out, min);
    push_str(&mut out, ":");
    push_pad2(&mut out, secs);
    proof {
        assert(out@ =~= spec_long_time(seconds));
    }
    out
}

/// Appends a string slice.
fn push_str(s: &mut String, t: &str)
    ensures
        final(s)@ == old(s)@ + t@,
{
    s.append(t)
}

} // verus!
