//! Rendering of durations and timestamps as `minutes:seconds` text.

use vstd::prelude::*;

use crate::text::string_from_chars;

verus! {

/// The decimal digit character for `d` in 0..10.
pub open spec fn dec_digit_spec(d: int) -> char {
    if d == 0 {
        '0'
    } else if d == 1 {
        '1'
    } else if d == 2 {
        '2'
    } else if d == 3 {
        '3'
    } else if d == 4 {
        '4'
    } else if d == 5 {
        '5'
    } else if d == 6 {
        '6'
    } else if d == 7 {
        '7'
    } else if d == 8 {
        '8'
    } else {
        '9'
    }
}

/// The decimal representation of a non-negative number.
pub open spec fn dec_str_spec(n: int) -> Seq<char>
    decreases n,
{
    if n < 10 {
        seq![dec_digit_spec(n)]
    } else {
        dec_str_spec(n / 10) + seq![dec_digit_spec(n % 10)]
    }
}

/// The decimal representation padded to two digits.
pub open spec fn dec2_spec(n: int) -> Seq<char> {
    if n < 10 {
        seq![dec_digit_spec(0)] + dec_str_spec(n)
    } else {
        dec_str_spec(n)
    }
}

fn dec_digit(d: u64) -> (r: char)
    requires
        d < 10,
    ensures
        r == dec_digit_spec(d as int),
{
    if d == 0 {
        '0'
    } else if d == 1 {
        '1'
    } else if d == 2 {
        '2'
    } else if d == 3 {
        '3'
    } else if d == 4 {
        '4'
    } else if d == 5 {
        '5'
    } else if d == 6 {
        '6'
    } else if d == 7 {
        '7'
    } else if d == 8 {
        '8'
    } else {
        '9'
    }
}

/// Appends the decimal representation of `n`.
fn push_dec(out: &mut Vec<char>, n: u64)
    ensures
        final(out)@ == old(out)@ + dec_str_spec(n as int),
    decreases n,
{
    if n < 10 {
        out.push(dec_digit(n));
        assert(final(out)@ =~= old(out)@ + dec_str_spec(n as int));
    } else {
        push_dec(out, n / 10);
        out.push(dec_digit(n % 10));
        assert(final(out)@ =~= old(out)@ + (dec_str_spec(n as int / 10) + seq![
            dec_digit_spec(n as int % 10),
        ]));
    }
}

/// A duration rendered as `minutes:seconds`, seconds padded to two digits.
pub open spec fn format_duration_spec(ms: int) -> Seq<char> {
    let total_seconds = ms / 1000;
    dec_str_spec(total_seconds / 60) + seq![':'] + dec2_spec(total_seconds % 60)
}

/// A timestamp rendered as `minutes:seconds`, both padded to two digits.
pub open spec fn format_timestamp_spec(ms: int) -> Seq<char> {
    let total_seconds = ms / 1000;
    dec2_spec(total_seconds / 60) + seq![':'] + dec2_spec(total_seconds % 60)
}

/// Renders a duration in milliseconds as `m:ss`.
pub fn format_duration(ms: i64) -> (r: String)
    requires
        ms >= 0,
    ensures
        r@ == format_duration_spec(ms as int),
{
    let total_seconds: u64 = (ms as u64) / 1000;
    let minutes: u64 = total_seconds / 60;
    let seconds: u64 = total_seconds % 60;
    let mut out: Vec<char> = Vec::new();
    push_dec(&mut out, minutes);
    out.push(':');
    if seconds < 10 {
        out.push('0');
    }
    push_dec(&mut out, seconds);
    proof {
        assert(total_seconds as int == ms as int / 1000);
        assert(minutes as int == total_seconds as int / 60);
        assert(seconds as int == total_seconds as int % 60);
        assert(out@ =~= format_duration_spec(ms as int));
    }
    string_from_chars(&out)
}

/// Renders a timestamp in milliseconds as `mm:ss`.
pub fn format_timestamp(ms: i64) -> (r: String)
    requires
        ms >= 0,
    ensures
        r@ == format_timestamp_spec(ms as int),
{
    let total_seconds: u64 = (ms as u64) / 1000;
    let minutes: u64 = total_seconds / 60;
    let seconds: u64 = total_seconds % 60;
    let mut out: Vec<char> = Vec::new();
    if minutes < 10 {
        out.push('0');
    }
    push_dec(&mut out, minutes);
    out.push(':');
    if seconds < 10 {
        out.push('0');
    }
    push_dec(&mut out, seconds);
    proof {
        assert(total_seconds as int == ms as int / 1000);
        assert(minutes as int == total_seconds as int / 60);
        assert(seconds as int == total_seconds as int % 60);
        assert(out@ =~= format_timestamp_spec(ms as int));
    }
    string_from_chars(&out)
}

} // verus!
