//! Rendering a UTC timestamp in the machine's local time zone, for
//! the presentation layer: "YYYY-MM-DD HH:MM".
use vstd::prelude::*;
use vstd::string::*;
use chrono::Datelike;
use chrono::Timelike;
use crate::dates::{four_digits, DateTime};
use crate::digits::{push_digit, push_two_digits, two_digits};

verus! {

/// A wall-clock reading in the local time zone, to the minute.
#[derive(Clone, Copy, Debug)]
pub struct LocalStamp {
    pub year: i64,
    pub month: u8,
    pub day: u8,
    pub hour: u8,
    pub minute: u8,
}

impl LocalStamp {
    pub open spec fn valid(self) -> bool {
        &&& 1 <= self.month <= 12
        &&& 1 <= self.day <= 31
        &&& self.hour <= 23
        &&& self.minute <= 59
    }
}

/// Relies on chrono: `NaiveDate::from_ymd_opt` and `and_hms_opt`
/// accept every well-formed calendar date and time, `and_utc` makes
/// the UTC instant, `DateTime::<Local>::from` converts it to the
/// process's time zone, and the `Datelike` / `Timelike` accessors
/// return fields in their documented ranges (month 1-12, day 1-31,
/// hour 0-23, minute 0-59). What comes back depends on the machine's
/// zone database, so only those ranges are promised.
#[verifier::external_body]
fn utc_to_local(dt: &DateTime) -> (r: LocalStamp)
    requires
        dt.wf(),
    ensures
        r.valid(),
{
    let utc = chrono::NaiveDate::from_ymd_opt(dt.year as i32, dt.month as u32, dt.day as u32)
        .unwrap()
        .and_hms_opt(dt.hour as u32, dt.minute as u32, dt.second as u32)
        .unwrap()
        .and_utc();
    let loc: chrono::DateTime<chrono::Local> = chrono::DateTime::from(utc);
    LocalStamp {
        year: loc.year() as i64,
        month: loc.month() as u8,
        day: loc.day() as u8,
        hour: loc.hour() as u8,
        minute: loc.minute() as u8,
    }
}

/// Years outside the four-digit range render clamped to it.
pub open spec fn clamp_year(y: int) -> int {
    if y < 0 {
        0
    } else if y > 9999 {
        9999
    } else {
        y
    }
}

/// "YYYY-MM-DD HH:MM".
pub open spec fn local_repr(st: LocalStamp) -> Seq<char> {
    four_digits(clamp_year(st.year as int)) + seq!['-'] + two_digits(st.month as nat) + seq!['-']
        + two_digits(st.day as nat) + seq![' '] + two_digits(st.hour as nat) + seq![':']
        + two_digits(st.minute as nat)
}

/// Renders a local wall-clock reading as "YYYY-MM-DD HH:MM".
pub fn format_local(st: &LocalStamp) -> (r: String)
    ensures
        r@ == local_repr(*st),
{
    let y: u16 = if st.year < 0 {
        0
    } else if st.year > 9999 {
        9999
    } else {
        st.year as u16
    };
    let mut out = String::new();
    push_digit(&mut out, ((y / 1000) % 10) as u64);
    push_digit(&mut out, ((y / 100) % 10) as u64);
    push_digit(&mut out, ((y / 10) % 10) as u64);
    push_digit(&mut out, (y % 10) as u64);
    out.append("-");
    push_two_digits(&mut out, st.month as u64);
    out.append("-");
    push_two_digits(&mut out, st.day as u64);
    out.append(" ");
    push_two_digits(&mut out, st.hour as u64);
    out.append(":");
    push_two_digits(&mut out, st.minute as u64);
    proof {
        reveal_strlit("-");
        reveal_strlit(" ");
        reveal_strlit(":");
    }
    assert(out@ =~= local_repr(*st));
    out
}

/// The presentation form of a record's timestamp: converted to the
/// local time zone and rendered "YYYY-MM-DD HH:MM". The zone offset
/// comes from the machine, so only the shape of the result is pinned:
/// it renders some in-range local reading.
pub fn local_date_cell(dt: &DateTime) -> (r: String)
    requires
        dt.wf(),
    ensures
        exists|st: LocalStamp| st.valid() && r@ == local_repr(st),
{
    let st = utc_to_local(dt);
    let r = format_local(&st);
    proof {
        assert(st.valid() && r@ == local_repr(st));
    }
    r
}

} // verus!
