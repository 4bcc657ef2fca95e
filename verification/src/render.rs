//! Formatting of durations, distances, paces and whole-number
//! quantities. Fractional quantities are carried as signed integers in
//! thousandths of their unit (milli-units).
use vstd::prelude::*;
use vstd::string::*;
use crate::digits::{dec_rep, push_dec, push_two_digits, two_digits};

verus! {

/// "M:SS": minutes unbounded, seconds zero-padded to two digits.
pub open spec fn spec_mmss(n: nat) -> Seq<char> {
    dec_rep(n / 60) + seq![':'] + two_digits(n % 60)
}

/// Magnitude of a milli-unit value.
pub open spec fn abs_milli(v: int) -> nat {
    if v < 0 {
        (-v) as nat
    } else {
        v as nat
    }
}

pub open spec fn sign_prefix(v: int) -> Seq<char> {
    if v < 0 {
        seq!['-']
    } else {
        Seq::empty()
    }
}

/// Kilometers with two decimal places and a "km" suffix, from
/// milli-kilometers; the second decimal is rounded half away from zero.
pub open spec fn km_repr(v: int) -> Seq<char> {
    let c = (abs_milli(v) + 5) / 10;
    sign_prefix(v) + dec_rep(c / 100) + seq!['.'] + two_digits(c % 100) + seq![' ', 'k', 'm']
}

/// A whole number rounded (half away from zero) from milli-units.
pub open spec fn whole_repr(v: int) -> Seq<char> {
    sign_prefix(v) + dec_rep((abs_milli(v) + 500) / 1000)
}

/// Meters with no decimals and an "m" suffix, from milli-meters.
pub open spec fn meters_repr(v: int) -> Seq<char> {
    whole_repr(v) + seq![' ', 'm']
}

/// "M:SS/km" pace for a positive speed in milli-meters per second:
/// 1000 meters at `v / 1000` meters per second, truncated to whole
/// seconds.
pub open spec fn pace_repr(v: int) -> Seq<char>
    recommends
        v > 0,
{
    spec_mmss((1_000_000int / v) as nat) + seq!['/', 'k', 'm']
}

/// Renders a duration in seconds as "M:SS".
pub fn mmss(sec: u32) -> (r: String)
    ensures
        r@ == spec_mmss(sec as nat),
{
    let mut out = String::new();
    push_dec(&mut out, (sec / 60) as u128);
    out.append(":");
    push_two_digits(&mut out, (sec % 60) as u64);
    proof {
        reveal_strlit(":");
    }
    assert(out@ =~= spec_mmss(sec as nat));
    out
}

/// Magnitude of a milli-unit value, as an unsigned number.
pub fn milli_abs(v: i64) -> (r: u64)
    ensures
        r == abs_milli(v as int),
{
    if v >= 0 {
        v as u64
    } else {
        let wide: i128 = -(v as i128);
        wide as u64
    }
}

/// Renders milli-kilometers as kilometers with two decimals and a
/// "km" suffix.
pub fn format_km(v: i64) -> (r: String)
    ensures
        r@ == km_repr(v as int),
{
    let mut out = String::new();
    if v < 0 {
        out.append("-");
    }
    let m = milli_abs(v);
    let c = (m + 5) / 10;
    push_dec(&mut out, (c / 100) as u128);
    out.append(".");
    push_two_digits(&mut out, c % 100);
    out.append(" km");
    proof {
        reveal_strlit("-");
        reveal_strlit(".");
        reveal_strlit(" km");
    }
    assert(out@ =~= km_repr(v as int));
    out
}

/// Renders milli-units as a rounded whole number.
pub fn format_whole(v: i64) -> (r: String)
    ensures
        r@ == whole_repr(v as int),
{
    let mut out = String::new();
    if v < 0 {
        out.append("-");
    }
    let m = milli_abs(v);
    push_dec(&mut out, ((m + 500) / 1000) as u128);
    proof {
        reveal_strlit("-");
    }
    assert(out@ =~= whole_repr(v as int));
    out
}

/// Renders milli-meters as whole meters with an "m" suffix.
pub fn format_meters(v: i64) -> (r: String)
    ensures
        r@ == meters_repr(v as int),
{
    let mut out = format_whole(v);
    out.append(" m");
    proof {
        reveal_strlit(" m");
    }
    assert(out@ =~= meters_repr(v as int));
    out
}

/// Pace over one kilometer for a speed in milli-meters per second.
/// A speed of zero (or below) has no pace: the cell stays blank.
pub fn km_pace(speed: i64) -> (r: Option<String>)
    ensures
        match r {
            Some(p) => speed > 0 && p@ == pace_repr(speed as int),
            None => speed <= 0,
        },
{
    if speed <= 0 {
        return None;
    }
    let secs: i64 = 1_000_000 / speed;
    assert(0 <= secs <= 1_000_000);
    let mut out = mmss(secs as u32);
    out.append("/km");
    proof {
        reveal_strlit("/km");
    }
    assert(out@ =~= pace_repr(speed as int));
    Some(out)
}

} // verus!
