//! The export's timestamp format: `<abbreviated month> <day>, <year>,
//! <hour>:<minute>:<second> <AM/PM>`, with day and hour unpadded, and
//! the wall-clock digits read as UTC.
use vstd::prelude::*;
use vstd::string::*;
use crate::digits::{
    dec_rep, digit_char, digit_val, is_digit, lemma_dec_rep_props, push_dec, push_digit,
    push_two_digits, two_digits,
};
use crate::numbers::is_digit_char;
use crate::text::{str_chars, str_eq};

verus! {

/// A calendar timestamp, read as UTC.
#[derive(Clone, Copy, Debug, PartialEq, Eq, Structural)]
pub struct DateTime {
    pub year: u16,
    pub month: u8,
    pub day: u8,
    pub hour: u8,
    pub minute: u8,
    pub second: u8,
}

pub open spec fn is_leap_year(y: int) -> bool {
    (y % 4 == 0 && y % 100 != 0) || y % 400 == 0
}

pub open spec fn days_in_month(y: int, m: int) -> int {
    if m == 2 {
        if is_leap_year(y) {
            29
        } else {
            28
        }
    } else if m == 4 || m == 6 || m == 9 || m == 11 {
        30
    } else {
        31
    }
}

impl DateTime {
    /// A real proleptic-Gregorian calendar date with a four-digit
    /// year, and a time of day.
    pub open spec fn wf(self) -> bool {
        &&& self.year <= 9999
        &&& 1 <= self.month <= 12
        &&& 1 <= self.day <= days_in_month(self.year as int, self.month as int)
        &&& self.hour <= 23
        &&& self.minute <= 59
        &&& self.second <= 59
    }
}

pub fn days_in_month_x(y: u16, m: u8) -> (r: u8)
    requires
        1 <= m <= 12,
    ensures
        r as int == days_in_month(y as int, m as int),
{
    if m == 2 {
        if (y % 4 == 0 && y % 100 != 0) || y % 400 == 0 {
            29
        } else {
            28
        }
    } else if m == 4 || m == 6 || m == 9 || m == 11 {
        30
    } else {
        31
    }
}

/// Whether the fields make a real calendar date and time of day.
pub fn check_datetime(dt: &DateTime) -> (r: bool)
    ensures
        r == dt.wf(),
{
    if !(1 <= dt.month && dt.month <= 12) {
        return false;
    }
    let dim = days_in_month_x(dt.year, dt.month);
    dt.year <= 9999 && 1 <= dt.day && dt.day <= dim && dt.hour <= 23 && dt.minute <= 59
        && dt.second <= 59
}

pub open spec fn month_name(m: int) -> Seq<char> {
    if m == 1 {
        seq!['J', 'a', 'n']
    } else if m == 2 {
        seq!['F', 'e', 'b']
    } else if m == 3 {
        seq!['M', 'a', 'r']
    } else if m == 4 {
        seq!['A', 'p', 'r']
    } else if m == 5 {
        seq!['M', 'a', 'y']
    } else if m == 6 {
        seq!['J', 'u', 'n']
    } else if m == 7 {
        seq!['J', 'u', 'l']
    } else if m == 8 {
        seq!['A', 'u', 'g']
    } else if m == 9 {
        seq!['S', 'e', 'p']
    } else if m == 10 {
        seq!['O', 'c', 't']
    } else if m == 11 {
        seq!['N', 'o', 'v']
    } else {
        seq!['D', 'e', 'c']
    }
}

/// The month whose abbreviation is `c0 c1 c2`, or 0 when there is
/// none.
pub open spec fn month_of_chars(c0: char, c1: char, c2: char) -> int {
    if c0 == 'J' && c1 == 'a' && c2 == 'n' {
        1
    } else if c0 == 'F' && c1 == 'e' && c2 == 'b' {
        2
    } else if c0 == 'M' && c1 == 'a' && c2 == 'r' {
        3
    } else if c0 == 'A' && c1 == 'p' && c2 == 'r' {
        4
    } else if c0 == 'M' && c1 == 'a' && c2 == 'y' {
        5
    } else if c0 == 'J' && c1 == 'u' && c2 == 'n' {
        6
    } else if c0 == 'J' && c1 == 'u' && c2 == 'l' {
        7
    } else if c0 == 'A' && c1 == 'u' && c2 == 'g' {
        8
    } else if c0 == 'S' && c1 == 'e' && c2 == 'p' {
        9
    } else if c0 == 'O' && c1 == 'c' && c2 == 't' {
        10
    } else if c0 == 'N' && c1 == 'o' && c2 == 'v' {
        11
    } else if c0 == 'D' && c1 == 'e' && c2 == 'c' {
        12
    } else {
        0
    }
}

pub proof fn lemma_month_of_name(m: int)
    requires
        1 <= m <= 12,
    ensures
        month_of_chars(month_name(m)[0], month_name(m)[1], month_name(m)[2]) == m,
{
}

pub fn month_code(c0: char, c1: char, c2: char) -> (r: u8)
    ensures
        r as int == month_of_chars(c0, c1, c2),
{
    if c0 == 'J' && c1 == 'a' && c2 == 'n' {
        1
    } else if c0 == 'F' && c1 == 'e' && c2 == 'b' {
        2
    } else if c0 == 'M' && c1 == 'a' && c2 == 'r' {
        3
    } else if c0 == 'A' && c1 == 'p' && c2 == 'r' {
        4
    } else if c0 == 'M' && c1 == 'a' && c2 == 'y' {
        5
    } else if c0 == 'J' && c1 == 'u' && c2 == 'n' {
        6
    } else if c0 == 'J' && c1 == 'u' && c2 == 'l' {
        7
    } else if c0 == 'A' && c1 == 'u' && c2 == 'g' {
        8
    } else if c0 == 'S' && c1 == 'e' && c2 == 'p' {
        9
    } else if c0 == 'O' && c1 == 'c' && c2 == 't' {
        10
    } else if c0 == 'N' && c1 == 'o' && c2 == 'v' {
        11
    } else if c0 == 'D' && c1 == 'e' && c2 == 'c' {
        12
    } else {
        0
    }
}

/// The hour on the 12-hour dial for an hour of the day.
pub open spec fn hour12_of(h: int) -> int {
    if h == 0 {
        12
    } else if h > 12 {
        h - 12
    } else {
        h
    }
}

pub open spec fn four_digits(y: int) -> Seq<char> {
    seq![
        digit_char((y / 1000) % 10),
        digit_char((y / 100) % 10),
        digit_char((y / 10) % 10),
        digit_char(y % 10),
    ]
}

/// The one rendering of a timestamp in the export's format.
pub open spec fn date_repr(dt: DateTime) -> Seq<char> {
    month_name(dt.month as int) + seq![' '] + dec_rep(dt.day as nat) + seq![',', ' ']
        + four_digits(dt.year as int) + seq![',', ' '] + dec_rep(
        hour12_of(dt.hour as int) as nat,
    ) + seq![':'] + two_digits(dt.minute as nat) + seq![':'] + two_digits(dt.second as nat)
        + seq![' '] + (if dt.hour < 12 {
        seq!['A', 'M']
    } else {
        seq!['P', 'M']
    })
}

fn push_month(out: &mut String, m: u8)
    requires
        1 <= m <= 12,
    ensures
        final(out)@ == old(out)@ + month_name(m as int),
{
    proof {
        reveal_strlit("Jan");
        reveal_strlit("Feb");
        reveal_strlit("Mar");
        reveal_strlit("Apr");
        reveal_strlit("May");
        reveal_strlit("Jun");
        reveal_strlit("Jul");
        reveal_strlit("Aug");
        reveal_strlit("Sep");
        reveal_strlit("Oct");
        reveal_strlit("Nov");
        reveal_strlit("Dec");
    }
    match m {
        1 => out.append("Jan"),
        2 => out.append("Feb"),
        3 => out.append("Mar"),
        4 => out.append("Apr"),
        5 => out.append("May"),
        6 => out.append("Jun"),
        7 => out.append("Jul"),
        8 => out.append("Aug"),
        9 => out.append("Sep"),
        10 => out.append("Oct"),
        11 => out.append("Nov"),
        _ => out.append("Dec"),
    }
    assert(final(out)@ =~= old(out)@ + month_name(m as int));
}

fn push_four_digits(out: &mut String, y: u16)
    ensures
        final(out)@ == old(out)@ + four_digits(y as int),
{
    push_digit(out, ((y / 1000) % 10) as u64);
    push_digit(out, ((y / 100) % 10) as u64);
    push_digit(out, ((y / 10) % 10) as u64);
    push_digit(out, (y % 10) as u64);
    assert(final(out)@ =~= old(out)@ + four_digits(y as int));
}

/// Renders a timestamp in the export's format.
pub fn render_date(dt: &DateTime) -> (r: String)
    requires
        dt.wf(),
    ensures
        r@ == date_repr(*dt),
{
    let mut out = String::new();
    push_month(&mut out, dt.month);
    out.append(" ");
    push_dec(&mut out, dt.day as u128);
    out.append(", ");
    push_four_digits(&mut out, dt.year);
    out.append(", ");
    let h12: u8 = if dt.hour == 0 {
        12
    } else if dt.hour > 12 {
        dt.hour - 12
    } else {
        dt.hour
    };
    push_dec(&mut out, h12 as u128);
    out.append(":");
    push_two_digits(&mut out, dt.minute as u64);
    out.append(":");
    push_two_digits(&mut out, dt.second as u64);
    if dt.hour < 12 {
        out.append(" AM");
    } else {
        out.append(" PM");
    }
    proof {
        reveal_strlit(" ");
        reveal_strlit(", ");
        reveal_strlit(":");
        reveal_strlit(" AM");
        reveal_strlit(" PM");
    }
    assert(out@ =~= date_repr(*dt));
    out
}

/// How the rendering of a well-formed timestamp is laid out: its
/// length, where each separator stands, and how its digit regions
/// relate to the fields.
#[verifier::rlimit(100)]
#[verifier::spinoff_prover]
proof fn lemma_repr_facts_head(dt: DateTime)
    requires
        dt.wf(),
    ensures
        ({
            let s = date_repr(dt);
            let d = dt.day as int;
            let h12 = hour12_of(dt.hour as int);
            let dl: int = if d < 10 {
                1
            } else {
                2
            };
            let hl: int = if h12 < 10 {
                1
            } else {
                2
            };
            &&& s.len() == 21 + dl + hl
            &&& month_of_chars(s[0], s[1], s[2]) == dt.month as int
            &&& s[3] == ' '
            &&& is_digit(s[4])
            &&& (dl == 2 ==> is_digit(s[5]))
            &&& (if dl == 1 {
                digit_val(s[4]) == d
            } else {
                10 * digit_val(s[4]) + digit_val(s[5]) == d
            })
            &&& s[4 + dl] == ','
            &&& s[5 + dl] == ' '
        }),
{
    let s = date_repr(dt);
    let m = dt.month as int;
    let d = dt.day as nat;
    let h12 = hour12_of(dt.hour as int) as nat;
    let dl: int = if d < 10 {
        1
    } else {
        2
    };
    lemma_dec_rep_props(d);
    lemma_dec_rep_props(h12);
    assert(month_name(m).len() == 3);
    assert(h12 <= 12);
    if d < 10 {
        assert(dec_rep(d) == seq![digit_char(d as int)]);
    } else {
        assert(dec_rep(d) == seq![digit_char(d as int / 10), digit_char(d as int % 10)]);
    }
    let s1 = month_name(m) + seq![' '];
    let s2 = s1 + dec_rep(d);
    let s3 = s2 + seq![',', ' '];
    let s4 = s3 + four_digits(dt.year as int);
    let s5 = s4 + seq![',', ' '];
    let s6 = s5 + dec_rep(h12);
    let s7 = s6 + seq![':'];
    let s8 = s7 + two_digits(dt.minute as nat);
    let s9 = s8 + seq![':'];
    let s10 = s9 + two_digits(dt.second as nat);
    let s11 = s10 + seq![' '];
    let ap: Seq<char> = if dt.hour < 12 {
        seq!['A', 'M']
    } else {
        seq!['P', 'M']
    };
    let s12 = s11 + ap;
    assert(s == s12);
    assert(s2.len() == 4 + dl);
    assert(s4.len() == 10 + dl);
    assert(forall|x: int| 0 <= x <= 9 ==> #[trigger] digit_val(digit_char(x)) == x);
    assert(forall|x: int| 0 <= x <= 9 ==> is_digit(#[trigger] digit_char(x)));
    assert(s.len() == 21 + dl + (if h12 < 10 { 1int } else { 2 }));
    assert(s[0] == month_name(m)[0] && s[1] == month_name(m)[1] && s[2] == month_name(m)[2]);
    assert(month_of_chars(s[0], s[1], s[2]) == m) by {
        lemma_month_of_name(m);
    }
    assert(s[3] == ' ');
    assert(s[4] == dec_rep(d)[0]);
    assert(dl == 2 ==> s[5] == dec_rep(d)[1]);
    assert(s[4 + dl] == ',' && s[5 + dl] == ' ');
}

#[verifier::rlimit(100)]
#[verifier::spinoff_prover]
proof fn lemma_repr_facts_year(dt: DateTime)
    requires
        dt.wf(),
    ensures
        ({
            let s = date_repr(dt);
            let d = dt.day as int;
            let dl: int = if d < 10 {
                1
            } else {
                2
            };
            &&& is_digit(s[6 + dl]) && is_digit(s[7 + dl]) && is_digit(s[8 + dl]) && is_digit(
                s[9 + dl],
            )
            &&& 1000 * digit_val(s[6 + dl]) + 100 * digit_val(s[7 + dl]) + 10 * digit_val(
                s[8 + dl],
            ) + digit_val(s[9 + dl]) == dt.year as int
            &&& s[10 + dl] == ','
            &&& s[11 + dl] == ' '
        }),
{
    let s = date_repr(dt);
    let m = dt.month as int;
    let d = dt.day as nat;
    let h12 = hour12_of(dt.hour as int) as nat;
    let dl: int = if d < 10 {
        1
    } else {
        2
    };
    lemma_dec_rep_props(d);
    lemma_dec_rep_props(h12);
    assert(month_name(m).len() == 3);
    assert(h12 <= 12);
    if d < 10 {
        assert(dec_rep(d) == seq![digit_char(d as int)]);
    } else {
        assert(dec_rep(d) == seq![digit_char(d as int / 10), digit_char(d as int % 10)]);
    }
    let s1 = month_name(m) + seq![' '];
    let s2 = s1 + dec_rep(d);
    let s3 = s2 + seq![',', ' '];
    let s4 = s3 + four_digits(dt.year as int);
    let s5 = s4 + seq![',', ' '];
    let s6 = s5 + dec_rep(h12);
    let s7 = s6 + seq![':'];
    let s8 = s7 + two_digits(dt.minute as nat);
    let s9 = s8 + seq![':'];
    let s10 = s9 + two_digits(dt.second as nat);
    let s11 = s10 + seq![' '];
    let ap: Seq<char> = if dt.hour < 12 {
        seq!['A', 'M']
    } else {
        seq!['P', 'M']
    };
    let s12 = s11 + ap;
    assert(s == s12);
    assert(s2.len() == 4 + dl);
    assert(s4.len() == 10 + dl);
    assert(forall|x: int| 0 <= x <= 9 ==> #[trigger] digit_val(digit_char(x)) == x);
    assert(forall|x: int| 0 <= x <= 9 ==> is_digit(#[trigger] digit_char(x)));
    assert(dt.year as int == 1000 * ((dt.year as int / 1000) % 10) + 100 * ((dt.year as int / 100)
        % 10) + 10 * ((dt.year as int / 10) % 10) + (dt.year as int % 10)) by {
        assert(dt.year as int / 1000 <= 9);
    }
    assert(s[6 + dl] == four_digits(dt.year as int)[0]);
    assert(s[7 + dl] == four_digits(dt.year as int)[1]);
    assert(s[8 + dl] == four_digits(dt.year as int)[2]);
    assert(s[9 + dl] == four_digits(dt.year as int)[3]);
    assert(s[10 + dl] == ',' && s[11 + dl] == ' ');
}

#[verifier::rlimit(100)]
#[verifier::spinoff_prover]
proof fn lemma_repr_facts_back(dt: DateTime)
    requires
        dt.wf(),
    ensures
        ({
            let s = date_repr(dt);
            let d = dt.day as int;
            let h12 = hour12_of(dt.hour as int);
            let dl: int = if d < 10 {
                1
            } else {
                2
            };
            let hl: int = if h12 < 10 {
                1
            } else {
                2
            };
            &&& is_digit(s[12 + dl])
            &&& (hl == 2 ==> is_digit(s[13 + dl]))
            &&& (if hl == 1 {
                digit_val(s[12 + dl]) == h12
            } else {
                10 * digit_val(s[12 + dl]) + digit_val(s[13 + dl]) == h12
            })
            &&& s[12 + dl + hl] == ':'
            &&& is_digit(s[13 + dl + hl]) && is_digit(s[14 + dl + hl])
            &&& 10 * digit_val(s[13 + dl + hl]) + digit_val(s[14 + dl + hl]) == dt.minute as int
            &&& s[15 + dl + hl] == ':'
            &&& is_digit(s[16 + dl + hl]) && is_digit(s[17 + dl + hl])
            &&& 10 * digit_val(s[16 + dl + hl]) + digit_val(s[17 + dl + hl]) == dt.second as int
            &&& s[18 + dl + hl] == ' '
            &&& s[19 + dl + hl] == (if dt.hour < 12 {
                'A'
            } else {
                'P'
            })
            &&& s[20 + dl + hl] == 'M'
        }),
{
    let s = date_repr(dt);
    let m = dt.month as int;
    let d = dt.day as nat;
    let h12 = hour12_of(dt.hour as int) as nat;
    let dl: int = if d < 10 {
        1
    } else {
        2
    };
    let hl: int = if h12 < 10 {
        1
    } else {
        2
    };
    lemma_dec_rep_props(d);
    lemma_dec_rep_props(h12);
    assert(month_name(m).len() == 3);
    assert(h12 <= 12);
    if h12 < 10 {
        assert(dec_rep(h12) == seq![digit_char(h12 as int)]);
    } else {
        assert(dec_rep(h12) == seq![digit_char(h12 as int / 10), digit_char(h12 as int % 10)]);
    }
    assert(forall|x: int| 0 <= x <= 9 ==> #[trigger] digit_val(digit_char(x)) == x);
    assert(forall|x: int| 0 <= x <= 9 ==> is_digit(#[trigger] digit_char(x)));
    let s1 = month_name(m) + seq![' '];
    let s2 = s1 + dec_rep(d);
    let s3 = s2 + seq![',', ' '];
    let s4 = s3 + four_digits(dt.year as int);
    let s5 = s4 + seq![',', ' '];
    let s6 = s5 + dec_rep(h12);
    let s7 = s6 + seq![':'];
    let s8 = s7 + two_digits(dt.minute as nat);
    let s9 = s8 + seq![':'];
    let s10 = s9 + two_digits(dt.second as nat);
    let s11 = s10 + seq![' '];
    let ap: Seq<char> = if dt.hour < 12 {
        seq!['A', 'M']
    } else {
        seq!['P', 'M']
    };
    let s12 = s11 + ap;
    assert(s == s12);
    assert(s2.len() == 4 + dl);
    assert(s4.len() == 10 + dl);
    assert(s6.len() == 12 + dl + hl);
    assert(s8.len() == 15 + dl + hl);
    assert(s10.len() == 18 + dl + hl);
    assert(s[12 + dl] == dec_rep(h12)[0]);
    assert(hl == 2 ==> s[13 + dl] == dec_rep(h12)[1]);
    assert(s[12 + dl + hl] == ':');
    assert(s[13 + dl + hl] == two_digits(dt.minute as nat)[0]);
    assert(s[14 + dl + hl] == two_digits(dt.minute as nat)[1]);
    assert(s[15 + dl + hl] == ':');
    assert(s[16 + dl + hl] == two_digits(dt.second as nat)[0]);
    assert(s[17 + dl + hl] == two_digits(dt.second as nat)[1]);
    assert(s[18 + dl + hl] == ' ');
    assert(s[19 + dl + hl] == ap[0]);
    assert(s[20 + dl + hl] == ap[1]);
}

pub proof fn lemma_repr_facts(dt: DateTime)
    requires
        dt.wf(),
    ensures
        ({
            let s = date_repr(dt);
            let d = dt.day as int;
            let h12 = hour12_of(dt.hour as int);
            let dl: int = if d < 10 {
                1
            } else {
                2
            };
            let hl: int = if h12 < 10 {
                1
            } else {
                2
            };
            &&& s.len() == 21 + dl + hl
            &&& month_of_chars(s[0], s[1], s[2]) == dt.month as int
            &&& s[3] == ' '
            &&& is_digit(s[4])
            &&& (dl == 2 ==> is_digit(s[5]))
            &&& (if dl == 1 {
                digit_val(s[4]) == d
            } else {
                10 * digit_val(s[4]) + digit_val(s[5]) == d
            })
            &&& s[4 + dl] == ','
            &&& s[5 + dl] == ' '
            &&& is_digit(s[6 + dl]) && is_digit(s[7 + dl]) && is_digit(s[8 + dl]) && is_digit(
                s[9 + dl],
            )
            &&& 1000 * digit_val(s[6 + dl]) + 100 * digit_val(s[7 + dl]) + 10 * digit_val(
                s[8 + dl],
            ) + digit_val(s[9 + dl]) == dt.year as int
            &&& s[10 + dl] == ','
            &&& s[11 + dl] == ' '
            &&& is_digit(s[12 + dl])
            &&& (hl == 2 ==> is_digit(s[13 + dl]))
            &&& (if hl == 1 {
                digit_val(s[12 + dl]) == h12
            } else {
                10 * digit_val(s[12 + dl]) + digit_val(s[13 + dl]) == h12
            })
            &&& s[12 + dl + hl] == ':'
            &&& is_digit(s[13 + dl + hl]) && is_digit(s[14 + dl + hl])
            &&& 10 * digit_val(s[13 + dl + hl]) + digit_val(s[14 + dl + hl]) == dt.minute as int
            &&& s[15 + dl + hl] == ':'
            &&& is_digit(s[16 + dl + hl]) && is_digit(s[17 + dl + hl])
            &&& 10 * digit_val(s[16 + dl + hl]) + digit_val(s[17 + dl + hl]) == dt.second as int
            &&& s[18 + dl + hl] == ' '
            &&& s[19 + dl + hl] == (if dt.hour < 12 {
                'A'
            } else {
                'P'
            })
            &&& s[20 + dl + hl] == 'M'
        }),
{
    lemma_repr_facts_head(dt);
    lemma_repr_facts_year(dt);
    lemma_repr_facts_back(dt);
}

/// Two well-formed timestamps with the same rendering are the same
/// timestamp.
pub proof fn lemma_date_repr_injective(a: DateTime, b: DateTime)
    requires
        a.wf(),
        b.wf(),
        date_repr(a) == date_repr(b),
    ensures
        a == b,
{
    lemma_repr_facts(a);
    lemma_repr_facts(b);
    let s = date_repr(a);
    let da = a.day as int;
    let db = b.day as int;
    let ha = hour12_of(a.hour as int);
    let hb = hour12_of(b.hour as int);
    assert((da < 10) == (db < 10)) by {
        if da < 10 && db >= 10 {
            assert(s[5] == ',');
            assert(is_digit(s[5]));
        }
        if db < 10 && da >= 10 {
            assert(s[5] == ',');
            assert(is_digit(s[5]));
        }
    }
    let dl: int = if da < 10 {
        1
    } else {
        2
    };
    assert((ha < 10) == (hb < 10)) by {
        if ha < 10 && hb >= 10 {
            assert(s[12 + dl + 1] == ':');
            assert(is_digit(s[13 + dl]));
        }
        if hb < 10 && ha >= 10 {
            assert(s[12 + dl + 1] == ':');
            assert(is_digit(s[13 + dl]));
        }
    }
    assert(a.month == b.month);
    assert(a.day == b.day);
    assert(a.year == b.year);
    assert(ha == hb);
    assert((a.hour < 12) == (b.hour < 12));
    assert(a.hour == b.hour);
    assert(a.minute == b.minute);
    assert(a.second == b.second);
}

fn digit_value(c: char) -> (r: u8)
    requires
        is_digit(c),
    ensures
        r as int == digit_val(c),
        r <= 9,
{
    (c as u32 - '0' as u32) as u8
}

/// Parses a timestamp in the export's format. Succeeds exactly on the
/// rendering of a well-formed timestamp, and returns that timestamp.
#[verifier::rlimit(100)]
pub fn parse_date(s: &str) -> (r: Option<DateTime>)
    ensures
        match r {
            Some(dt) => dt.wf() && s@ == date_repr(dt),
            None => forall|dt: DateTime| dt.wf() ==> s@ != date_repr(dt),
        },
{
    let cs = str_chars(s);
    let n = cs.len();
    if n < 23 || n > 25 {
        proof {
            assert forall|dt: DateTime| dt.wf() implies s@ != date_repr(dt) by {
                if s@ == date_repr(dt) {
                    lemma_repr_facts(dt);
                }
            }
        }
        return None;
    }
    let m = month_code(cs[0], cs[1], cs[2]);
    if m == 0 {
        proof {
            assert forall|dt: DateTime| dt.wf() implies s@ != date_repr(dt) by {
                if s@ == date_repr(dt) {
                    lemma_repr_facts(dt);
                }
            }
        }
        return None;
    }
    if cs[3] != ' ' {
        proof {
            assert forall|dt: DateTime| dt.wf() implies s@ != date_repr(dt) by {
                if s@ == date_repr(dt) {
                    lemma_repr_facts(dt);
                }
            }
        }
        return None;
    }
    if !is_digit_char(cs[4]) {
        proof {
            assert forall|dt: DateTime| dt.wf() implies s@ != date_repr(dt) by {
                if s@ == date_repr(dt) {
                    lemma_repr_facts(dt);
                }
            }
        }
        return None;
    }
    let mut day: u8 = digit_value(cs[4]);
    let mut i: usize = 5;
    if is_digit_char(cs[5]) {
        day = 10 * day + digit_value(cs[5]);
        i = 6;
    }
    if cs[i] != ',' || cs[i + 1] != ' ' {
        proof {
            assert forall|dt: DateTime| dt.wf() implies s@ != date_repr(dt) by {
                if s@ == date_repr(dt) {
                    lemma_repr_facts(dt);
                }
            }
        }
        return None;
    }
    if !is_digit_char(cs[i + 2]) || !is_digit_char(cs[i + 3]) || !is_digit_char(cs[i + 4])
        || !is_digit_char(cs[i + 5]) {
        proof {
            assert forall|dt: DateTime| dt.wf() implies s@ != date_repr(dt) by {
                if s@ == date_repr(dt) {
                    lemma_repr_facts(dt);
                }
            }
        }
        return None;
    }
    let year: u16 = 1000 * (digit_value(cs[i + 2]) as u16) + 100 * (digit_value(cs[i + 3]) as u16)
        + 10 * (digit_value(cs[i + 4]) as u16) + (digit_value(cs[i + 5]) as u16);
    let i2: usize = i + 6;
    if cs[i2] != ',' || cs[i2 + 1] != ' ' {
        proof {
            assert forall|dt: DateTime| dt.wf() implies s@ != date_repr(dt) by {
                if s@ == date_repr(dt) {
                    lemma_repr_facts(dt);
                }
            }
        }
        return None;
    }
    if !is_digit_char(cs[i2 + 2]) {
        proof {
            assert forall|dt: DateTime| dt.wf() implies s@ != date_repr(dt) by {
                if s@ == date_repr(dt) {
                    lemma_repr_facts(dt);
                }
            }
        }
        return None;
    }
    let mut h12: u8 = digit_value(cs[i2 + 2]);
    let mut j: usize = i2 + 3;
    if j < n && is_digit_char(cs[j]) {
        h12 = 10 * h12 + digit_value(cs[j]);
        j = j + 1;
    }
    if n - j != 9 {
        proof {
            assert forall|dt: DateTime| dt.wf() implies s@ != date_repr(dt) by {
                if s@ == date_repr(dt) {
                    lemma_repr_facts(dt);
                }
            }
        }
        return None;
    }
    if cs[j] != ':' || !is_digit_char(cs[j + 1]) || !is_digit_char(cs[j + 2]) {
        proof {
            assert forall|dt: DateTime| dt.wf() implies s@ != date_repr(dt) by {
                if s@ == date_repr(dt) {
                    lemma_repr_facts(dt);
                }
            }
        }
        return None;
    }
    let minute: u8 = 10 * digit_value(cs[j + 1]) + digit_value(cs[j + 2]);
    if cs[j + 3] != ':' || !is_digit_char(cs[j + 4]) || !is_digit_char(cs[j + 5]) {
        proof {
            assert forall|dt: DateTime| dt.wf() implies s@ != date_repr(dt) by {
                if s@ == date_repr(dt) {
                    lemma_repr_facts(dt);
                }
            }
        }
        return None;
    }
    let second: u8 = 10 * digit_value(cs[j + 4]) + digit_value(cs[j + 5]);
    if cs[j + 6] != ' ' {
        proof {
            assert forall|dt: DateTime| dt.wf() implies s@ != date_repr(dt) by {
                if s@ == date_repr(dt) {
                    lemma_repr_facts(dt);
                }
            }
        }
        return None;
    }
    let pm: bool = if cs[j + 7] == 'A' {
        false
    } else if cs[j + 7] == 'P' {
        true
    } else {
        proof {
            assert forall|dt: DateTime| dt.wf() implies s@ != date_repr(dt) by {
                if s@ == date_repr(dt) {
                    lemma_repr_facts(dt);
                }
            }
        }
        return None;
    };
    if cs[j + 8] != 'M' {
        proof {
            assert forall|dt: DateTime| dt.wf() implies s@ != date_repr(dt) by {
                if s@ == date_repr(dt) {
                    lemma_repr_facts(dt);
                }
            }
        }
        return None;
    }
    let hour: u8 = if pm {
        if h12 == 12 {
            12
        } else {
            h12 + 12
        }
    } else {
        if h12 == 12 {
            0
        } else {
            h12
        }
    };
    let dt = DateTime { year, month: m, day, hour, minute, second };
    if !check_datetime(&dt) {
        proof {
            assert forall|dtx: DateTime| dtx.wf() implies s@ != date_repr(dtx) by {
                if s@ == date_repr(dtx) {
                    lemma_repr_facts(dtx);
                    assert(dt == dtx);
                }
            }
        }
        return None;
    }
    let rendered = render_date(&dt);
    if str_eq(s, rendered.as_str()) {
        Some(dt)
    } else {
        proof {
            assert forall|dtx: DateTime| dtx.wf() implies s@ != date_repr(dtx) by {
                if s@ == date_repr(dtx) {
                    lemma_repr_facts(dtx);
                    assert(dt == dtx);
                }
            }
        }
        None
    }
}

} // verus!
