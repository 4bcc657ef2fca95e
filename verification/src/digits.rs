//! Decimal renderings of unsigned numbers, as specs and as verified
//! executable builders that append onto a `String`.
use vstd::prelude::*;
use vstd::string::*;

verus! {

/// The character for one decimal digit.
pub open spec fn digit_char(d: int) -> char {
    if d == 0 {
        '0'
    } else if d == 1 {
        '1'
    } else if d == 2 {
        '2'
    } else if d == 3 {
        '3'
    } else if d == 4 {
        '4'
    } else if d == 5 {
        '5'
    } else if d == 6 {
        '6'
    } else if d == 7 {
        '7'
    } else if d == 8 {
        '8'
    } else {
        '9'
    }
}

pub open spec fn is_digit(c: char) -> bool {
    '0' as u32 <= c as u32 && c as u32 <= '9' as u32
}

/// The numeric value of a digit character.
pub open spec fn digit_val(c: char) -> int {
    c as u32 - '0' as u32
}

/// The usual decimal rendering of `n`: no sign, no leading zeros
/// (except that 0 is rendered "0").
pub open spec fn dec_rep(n: nat) -> Seq<char>
    decreases n,
{
    if n < 10 {
        seq![digit_char(n as int)]
    } else {
        dec_rep(n / 10) + seq![digit_char((n % 10) as int)]
    }
}

/// Exactly two digits, zero-padded; the rendering of minutes and
/// seconds fields.
pub open spec fn two_digits(n: nat) -> Seq<char> {
    seq![digit_char(((n / 10) % 10) as int), digit_char((n % 10) as int)]
}

pub proof fn lemma_dec_rep_props(n: nat)
    ensures
        dec_rep(n).len() >= 1,
        forall|i: int| 0 <= i < dec_rep(n).len() ==> is_digit(#[trigger] dec_rep(n)[i]),
        dec_rep(n)[0] == '0' <==> n == 0,
        n < 10 <==> dec_rep(n).len() == 1,
        10 <= n < 100 ==> dec_rep(n) == seq![digit_char(n as int / 10), digit_char(n as int % 10)],
    decreases n,
{
    if n >= 10 {
        lemma_dec_rep_props(n / 10);
        assert(dec_rep(n) == dec_rep(n / 10) + seq![digit_char((n % 10) as int)]);
        if 10 <= n < 100 {
            assert(dec_rep(n / 10) == seq![digit_char((n / 10) as int)]);
            assert(dec_rep(n) =~= seq![digit_char(n as int / 10), digit_char(n as int % 10)]);
        }
    }
}

pub proof fn lemma_digit_char_injective(x: int, y: int)
    requires
        0 <= x < 10,
        0 <= y < 10,
        digit_char(x) == digit_char(y),
    ensures
        x == y,
{
    assert(digit_char(x) as u32 == digit_char(y) as u32);
}

pub proof fn lemma_dec_rep_injective(a: nat, b: nat)
    requires
        dec_rep(a) == dec_rep(b),
    ensures
        a == b,
    decreases a,
{
    lemma_dec_rep_props(a);
    lemma_dec_rep_props(b);
    if a < 10 && b < 10 {
        assert(dec_rep(a)[0] == dec_rep(b)[0]);
    } else if a >= 10 && b >= 10 {
        assert(dec_rep(a) == dec_rep(a / 10) + seq![digit_char((a % 10) as int)]);
        assert(dec_rep(b) == dec_rep(b / 10) + seq![digit_char((b % 10) as int)]);
        assert(dec_rep(a).last() == digit_char((a % 10) as int));
        assert(dec_rep(b).last() == digit_char((b % 10) as int));
        lemma_digit_char_injective((a % 10) as int, (b % 10) as int);
        assert(a % 10 == b % 10);
        assert(dec_rep(a).drop_last() =~= dec_rep(a / 10));
        assert(dec_rep(b).drop_last() =~= dec_rep(b / 10));
        lemma_dec_rep_injective(a / 10, b / 10);
    }
}

/// Appends the character for digit `d` onto `out`.
pub fn push_digit(out: &mut String, d: u64)
    requires
        d < 10,
    ensures
        final(out)@ == old(out)@ + seq![digit_char(d as int)],
{
    proof {
        reveal_strlit("0");
        reveal_strlit("1");
        reveal_strlit("2");
        reveal_strlit("3");
        reveal_strlit("4");
        reveal_strlit("5");
        reveal_strlit("6");
        reveal_strlit("7");
        reveal_strlit("8");
        reveal_strlit("9");
    }
    match d {
        0 => out.append("0"),
        1 => out.append("1"),
        2 => out.append("2"),
        3 => out.append("3"),
        4 => out.append("4"),
        5 => out.append("5"),
        6 => out.append("6"),
        7 => out.append("7"),
        8 => out.append("8"),
        _ => out.append("9"),
    }
    assert(out@ =~= old(out)@ + seq![digit_char(d as int)]);
}

/// A digit character is recovered from its value.
pub proof fn lemma_digit_char_of_val(c: char)
    requires
        is_digit(c),
    ensures
        digit_char(digit_val(c)) == c,
{
    assert(digit_char(digit_val(c)) as u32 == c as u32);
}

/// Appends the decimal rendering of `n` onto `out`.
pub fn push_dec(out: &mut String, n: u128)
    ensures
        final(out)@ == old(out)@ + dec_rep(n as nat),
    decreases n,
{
    if n < 10 {
        push_digit(out, n as u64);
    } else {
        push_dec(out, n / 10);
        push_digit(out, (n % 10) as u64);
        assert(out@ =~= old(out)@ + dec_rep(n as nat));
    }
}

/// Renders `n` in decimal.
pub fn format_u128(n: u128) -> (r: String)
    ensures
        r@ == dec_rep(n as nat),
{
    let mut out = String::new();
    push_dec(&mut out, n);
    assert(out@ =~= dec_rep(n as nat));
    out
}

/// Appends the two-digit zero-padded rendering of `n` onto `out`.
pub fn push_two_digits(out: &mut String, n: u64)
    ensures
        final(out)@ == old(out)@ + two_digits(n as nat),
{
    push_digit(out, (n / 10) % 10);
    push_digit(out, n % 10);
    assert(out@ =~= old(out)@ + two_digits(n as nat));
}

} // verus!
