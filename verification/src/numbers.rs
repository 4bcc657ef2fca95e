//! Verified parsers for the numeric cell formats of the export:
//! unsigned integers, and decimal fractions carried as milli-units.
use vstd::prelude::*;
use crate::digits::{dec_rep, digit_char, digit_val, is_digit, lemma_digit_char_of_val};
use crate::text::str_chars;

verus! {

pub open spec fn all_digits(s: Seq<char>) -> bool {
    forall|i: int| 0 <= i < s.len() ==> is_digit(#[trigger] s[i])
}

/// The value of a digit string.
pub open spec fn digits_val(s: Seq<char>) -> nat
    decreases s.len(),
{
    if s.len() == 0 {
        0
    } else {
        digits_val(s.drop_last()) * 10 + (digit_val(s.last()) as nat)
    }
}

/// A non-empty run of digits.
pub open spec fn is_int_string(s: Seq<char>) -> bool {
    s.len() >= 1 && all_digits(s)
}

/// A digit string with a nonzero leading digit has a nonzero value.
pub proof fn lemma_digits_val_pos(s: Seq<char>)
    requires
        is_int_string(s),
        s[0] != '0',
    ensures
        digits_val(s) >= 1,
    decreases s.len(),
{
    if s.len() == 1 {
        assert(is_digit(s[0]));
        assert(s[0] as u32 != '0' as u32) by {
            if s[0] as u32 == '0' as u32 {
                vstd::utf8::char_u32_cast(s[0], s[0] as u32);
                vstd::utf8::char_u32_cast('0', '0' as u32);
            }
        }
        assert(digit_val(s[0]) >= 1);
    } else {
        let t = s.drop_last();
        assert(forall|i: int| 0 <= i < t.len() ==> t[i] == s[i]);
        lemma_digits_val_pos(t);
        assert(digits_val(s) == digits_val(t) * 10 + (digit_val(s.last()) as nat));
    }
}

/// A canonical digit string (no leading zero, unless it is "0") is
/// recovered exactly by rendering its value.
pub proof fn lemma_canonical_digits(s: Seq<char>)
    requires
        is_int_string(s),
        s.len() == 1 || s[0] != '0',
    ensures
        dec_rep(digits_val(s)) == s,
    decreases s.len(),
{
    if s.len() == 1 {
        assert(is_digit(s[0]));
        assert(s.drop_last() =~= Seq::<char>::empty());
        assert(digits_val(Seq::<char>::empty()) == 0);
        assert(s.last() == s[0]);
        assert(digits_val(s) == digit_val(s[0]) as nat);
        lemma_digit_char_of_val(s[0]);
        assert(dec_rep(digits_val(s)) =~= s);
    } else {
        let t = s.drop_last();
        assert(forall|i: int| 0 <= i < t.len() ==> t[i] == s[i]);
        lemma_canonical_digits(t);
        lemma_digits_val_pos(t);
        let n = digits_val(s);
        assert(n == digits_val(t) * 10 + (digit_val(s.last()) as nat));
        assert(digit_val(s.last()) <= 9);
        assert(n >= 10);
        assert(n / 10 == digits_val(t) && n % 10 == digit_val(s.last()) as nat) by (nonlinear_arith)
            requires
                n == digits_val(t) * 10 + (digit_val(s.last()) as nat),
                0 <= digit_val(s.last()) <= 9,
        ;
        lemma_digit_char_of_val(s.last());
        assert(dec_rep(n) == dec_rep(n / 10) + seq![digit_char((n % 10) as int)]);
        assert(dec_rep(n) =~= s);
    }
}

/// Scans the digit run of `cs` that starts at `start`, ending at the
/// first non-digit or at the end. Reports the run's value, or `None`
/// when it exceeds `u128::MAX`.
pub fn scan_digits(cs: &Vec<char>, start: usize) -> (r: (Option<u128>, usize))
    requires
        start <= cs@.len(),
    ensures
        ({
            let (v, end) = r;
            &&& start <= end <= cs@.len()
            &&& all_digits(cs@.subrange(start as int, end as int))
            &&& (end < cs@.len() ==> !is_digit(cs@[end as int]))
            &&& match v {
                Some(x) => x == digits_val(cs@.subrange(start as int, end as int)),
                None => digits_val(cs@.subrange(start as int, end as int)) > u128::MAX,
            }
        }),
{
    let n = cs.len();
    let mut i: usize = start;
    let mut acc: u128 = 0;
    let mut over = false;
    while i < n && is_digit_char(cs[i])
        invariant
            start <= i <= n,
            n == cs@.len(),
            all_digits(cs@.subrange(start as int, i as int)),
            !over ==> acc == digits_val(cs@.subrange(start as int, i as int)),
            over ==> digits_val(cs@.subrange(start as int, i as int)) > u128::MAX,
        decreases n - i,
    {
        let c: char = cs[i];
        let d: u128 = (c as u32 - '0' as u32) as u128;
        proof {
            let pre = cs@.subrange(start as int, i as int);
            let post = cs@.subrange(start as int, i + 1 as int);
            assert(post.drop_last() =~= pre);
            assert(post.last() == cs@[i as int]);
            assert(digits_val(post) == digits_val(pre) * 10 + (digit_val(cs@[i as int]) as nat));
        }
        if !over {
            if acc > (u128::MAX - d) / 10 {
                over = true;
                proof {
                    assert(acc * 10 + d > u128::MAX) by (nonlinear_arith)
                        requires
                            acc > (u128::MAX - d) / 10,
                            d <= 9,
                    ;
                }
            } else {
                proof {
                    assert(acc * 10 + d <= u128::MAX) by (nonlinear_arith)
                        requires
                            acc <= (u128::MAX - d) / 10,
                            d <= 9,
                    ;
                }
                acc = acc * 10 + d;
            }
        } else {
            proof {
                let pre = cs@.subrange(start as int, i as int);
                assert(digits_val(pre) * 10 >= digits_val(pre));
            }
        }
        i = i + 1;
    }
    (if over { None } else { Some(acc) }, i)
}

/// Whether `c` is a decimal digit.
pub fn is_digit_char(c: char) -> (r: bool)
    ensures
        r == is_digit(c),
{
    ('0' as u32) <= (c as u32) && (c as u32) <= ('9' as u32)
}

/// Parses a cell holding an unsigned integer: a non-empty run of
/// digits whose value fits in a `u128`. Leading zeros are accepted.
pub fn parse_u128(s: &str) -> (r: Option<u128>)
    ensures
        match r {
            Some(v) => is_int_string(s@) && v == digits_val(s@) && digits_val(s@) <= u128::MAX,
            None => !is_int_string(s@) || digits_val(s@) > u128::MAX,
        },
{
    let cs = str_chars(s);
    let n = cs.len();
    if n == 0 {
        return None;
    }
    let (v, end) = scan_digits(&cs, 0);
    if end != n {
        assert(!is_digit(s@[end as int]));
        return None;
    }
    assert(cs@.subrange(0, n as int) =~= s@);
    v
}

/// Parses a cell holding an unsigned integer that fits in a `u32`.
pub fn parse_u32(s: &str) -> (r: Option<u32>)
    ensures
        match r {
            Some(v) => is_int_string(s@) && v == digits_val(s@) && digits_val(s@) <= u32::MAX,
            None => !is_int_string(s@) || digits_val(s@) > u32::MAX,
        },
{
    match parse_u128(s) {
        Some(v) => {
            if v <= 0xffff_ffff {
                Some(v as u32)
            } else {
                None
            }
        },
        None => None,
    }
}

/// Position of the first '.' in `b`, or -1 when there is none.
pub open spec fn first_dot(b: Seq<char>) -> int
    decreases b.len(),
{
    if b.len() == 0 {
        -1
    } else if b[0] == '.' {
        0
    } else {
        let r = first_dot(b.drop_first());
        if r < 0 {
            -1
        } else {
            r + 1
        }
    }
}

pub proof fn lemma_first_dot(b: Seq<char>)
    ensures
        first_dot(b) == -1 <==> (forall|j: int| 0 <= j < b.len() ==> b[j] != '.'),
        first_dot(b) >= 0 ==> first_dot(b) < b.len() && b[first_dot(b)] == '.' && (forall|j: int|
            0 <= j < first_dot(b) ==> b[j] != '.'),
    decreases b.len(),
{
    if b.len() > 0 && b[0] != '.' {
        lemma_first_dot(b.drop_first());
        assert(forall|j: int| 1 <= j < b.len() ==> b[j] == b.drop_first()[j - 1]);
    }
}

/// Milli-units contributed by a fraction-digit string: the first three
/// digits, zero-extended.
pub open spec fn frac_milli(f: Seq<char>) -> nat {
    let d0: nat = if f.len() > 0 {
        digit_val(f[0]) as nat
    } else {
        0
    };
    let d1: nat = if f.len() > 1 {
        digit_val(f[1]) as nat
    } else {
        0
    };
    let d2: nat = if f.len() > 2 {
        digit_val(f[2]) as nat
    } else {
        0
    };
    d0 * 100 + d1 * 10 + d2
}

/// An unsigned decimal body: digits, or digits '.' digits, with at
/// least one digit on each side of the dot.
pub open spec fn dec_body_ok(b: Seq<char>) -> bool {
    let i = first_dot(b);
    if i < 0 {
        is_int_string(b)
    } else {
        1 <= i && i + 1 < b.len() && all_digits(b.subrange(0, i)) && all_digits(
            b.subrange(i + 1, b.len() as int),
        )
    }
}

/// Magnitude of a decimal body, in milli-units; fraction digits past
/// the third are dropped.
pub open spec fn dec_body_milli(b: Seq<char>) -> nat {
    let i = first_dot(b);
    if i < 0 {
        digits_val(b) * 1000
    } else {
        digits_val(b.subrange(0, i)) * 1000 + frac_milli(b.subrange(i + 1, b.len() as int))
    }
}

/// A decimal cell: an optional minus sign, then a decimal body.
pub open spec fn decimal_ok(s: Seq<char>) -> bool {
    if s.len() >= 1 && s[0] == '-' {
        dec_body_ok(s.drop_first())
    } else {
        dec_body_ok(s)
    }
}

/// The signed milli-unit value of a decimal cell.
pub open spec fn decimal_milli(s: Seq<char>) -> int {
    if s.len() >= 1 && s[0] == '-' {
        -(dec_body_milli(s.drop_first()) as int)
    } else {
        dec_body_milli(s) as int
    }
}

/// Parses a decimal cell into signed milli-units. Yields `None` when
/// the cell is not a decimal number or its magnitude exceeds what an
/// `i64` carries.
#[verifier::rlimit(100)]
pub fn parse_milli(s: &str) -> (r: Option<i64>)
    ensures
        match r {
            Some(v) => decimal_ok(s@) && v == decimal_milli(s@) && abs_of(decimal_milli(s@))
                <= i64::MAX,
            None => !decimal_ok(s@) || abs_of(decimal_milli(s@)) > i64::MAX,
        },
{
    let cs = str_chars(s);
    let n = cs.len();
    let neg = n > 0 && cs[0] == '-';
    let start: usize = if neg {
        1
    } else {
        0
    };
    let ghost b = s@.subrange(start as int, n as int);
    proof {
        if neg {
            assert(b =~= s@.drop_first());
        } else {
            assert(b =~= s@);
        }
    }
    let (iv, mid) = scan_digits(&cs, start);
    proof {
        lemma_first_dot(b);
    }
    if mid == start {
        // no integer digits: not a decimal body
        proof {
            if b.len() > 0 {
                assert(b[0] == cs@[start as int]);
                let fd0 = first_dot(b);
                if fd0 > 0 && dec_body_ok(b) {
                    assert(b.subrange(0, fd0)[0] == b[0]);
                    assert(is_digit(b[0]));
                }
            }
        }
        return None;
    }
    assert(b.subrange(0, mid - start) =~= cs@.subrange(start as int, mid as int));
    assert(all_digits(b.subrange(0, mid - start)));
    if mid == n {
        // digits only: first_dot(b) must be -1
        proof {
            assert(forall|j: int| 0 <= j < b.len() ==> b[j] == cs@[start + j]);
            assert(forall|j: int| 0 <= j < b.len() ==> is_digit(b[j]));
            assert(forall|j: int| 0 <= j < b.len() ==> b[j] != '.');
            assert(b =~= b.subrange(0, mid - start));
        }
        match iv {
            None => {
                proof {
                    lemma_milli_overflow(digits_val(b), 0);
                }
                return None;
            },
            Some(x) => {
                return finish_milli(x, 0, neg, Ghost(s@));
            },
        }
    }
    // a non-digit stands at mid
    let c = cs[mid];
    if c != '.' {
        proof {
            let fd0 = first_dot(b);
            if fd0 >= 0 {
                if fd0 < mid - start {
                    assert(b.subrange(0, mid - start)[fd0] == b[fd0]);
                    assert(is_digit(b[fd0]));
                    assert(false);
                } else if fd0 == mid - start {
                    assert(b[fd0] == cs@[mid as int]);
                    assert(false);
                } else {
                    if dec_body_ok(b) {
                        assert(b.subrange(0, fd0)[mid - start] == cs@[mid as int]);
                        assert(is_digit(b.subrange(0, fd0)[mid - start]));
                        assert(false);
                    }
                }
            } else {
                if dec_body_ok(b) {
                    assert(b[mid - start] == cs@[mid as int]);
                    assert(is_digit(b[mid - start]));
                    assert(false);
                }
            }
        }
        return None;
    }
    // first_dot(b) == mid - start
    proof {
        let fd0 = first_dot(b);
        assert(b[mid - start] == '.');
        if fd0 < 0 {
            assert(b[mid - start] != '.');
            assert(false);
        }
        if fd0 < mid - start {
            assert(b.subrange(0, mid - start)[fd0] == b[fd0]);
            assert(is_digit(b[fd0]));
            assert(false);
        }
        if fd0 > mid - start {
            assert(false);
        }
    }
    let ghost fd = (mid - start) as int;
    let (fv, fend) = scan_digits(&cs, mid + 1);
    let ghost frac = b.subrange(fd + 1, b.len() as int);
    if fend != n {
        // a non-digit inside the fraction part
        proof {
            assert(cs@[fend as int] == frac[fend - mid - 1]);
            assert(!is_digit(frac[fend - mid - 1]));
        }
        return None;
    }
    if fend == mid + 1 {
        // empty fraction part
        proof {
            assert(frac.len() == 0);
        }
        return None;
    }
    proof {
        assert(frac =~= cs@.subrange(mid + 1 as int, n as int));
        assert(b.subrange(0, fd) =~= cs@.subrange(start as int, mid as int));
    }
    // read up to three fraction digits
    let f0: u128 = digit_at(&cs, mid + 1);
    let f1: u128 = if n - mid > 2 {
        digit_at(&cs, mid + 2)
    } else {
        0
    };
    let f2: u128 = if n - mid > 3 {
        digit_at(&cs, mid + 3)
    } else {
        0
    };
    let fm: u128 = f0 * 100 + f1 * 10 + f2;
    proof {
        assert(frac[0] == cs@[mid + 1 as int]);
        if frac.len() > 1 {
            assert(frac[1] == cs@[mid + 2 as int]);
        }
        if frac.len() > 2 {
            assert(frac[2] == cs@[mid + 3 as int]);
        }
        assert(fm == frac_milli(frac));
    }
    match iv {
        None => {
            proof {
                lemma_milli_overflow(digits_val(b.subrange(0, fd)), frac_milli(frac));
            }
            None
        },
        Some(x) => finish_milli(x, fm, neg, Ghost(s@)),
    }
}

/// Magnitude of an integer.
pub open spec fn abs_of(v: int) -> nat {
    if v < 0 {
        (-v) as nat
    } else {
        v as nat
    }
}

proof fn lemma_milli_overflow(ip: nat, f: nat)
    requires
        ip > u128::MAX,
    ensures
        ip * 1000 + f > i64::MAX,
{
    assert(ip * 1000 >= ip) by (nonlinear_arith)
        requires
            ip >= 0,
    ;
}

/// The digit at `i`, as a number.
fn digit_at(cs: &Vec<char>, i: usize) -> (r: u128)
    requires
        i < cs@.len(),
        is_digit(cs@[i as int]),
    ensures
        r == digit_val(cs@[i as int]),
        r <= 9,
{
    let c = cs[i];
    (c as u32 - '0' as u32) as u128
}

/// Combines integer and fraction milli parts, applies the sign, and
/// checks the `i64` bound.
fn finish_milli(ip: u128, fm: u128, neg: bool, Ghost(s): Ghost<Seq<char>>) -> (r: Option<i64>)
    requires
        fm <= 999,
        decimal_ok(s),
        abs_of(decimal_milli(s)) == ip * 1000 + fm,
        (s.len() >= 1 && s[0] == '-') == neg,
    ensures
        match r {
            Some(v) => decimal_ok(s) && v == decimal_milli(s) && abs_of(decimal_milli(s))
                <= i64::MAX,
            None => !decimal_ok(s) || abs_of(decimal_milli(s)) > i64::MAX,
        },
{
    if ip > ((u128::MAX - 999) / 1000) {
        proof {
            assert(ip * 1000 + fm > i64::MAX) by (nonlinear_arith)
                requires
                    ip > ((u128::MAX - 999) / 1000),
                    fm >= 0,
            ;
        }
        return None;
    }
    let mag: u128 = ip * 1000 + fm;
    if mag > i64::MAX as u128 {
        return None;
    }
    if neg {
        let v: i64 = -(mag as i64);
        assert(v == decimal_milli(s));
        Some(v)
    } else {
        let v: i64 = mag as i64;
        assert(v == decimal_milli(s));
        Some(v)
    }
}

} // verus!
