//! Decimal and hexadecimal rendering of integers.

use vstd::prelude::*;

use crate::text::push_char;

verus! {

/// The decimal digit for `d < 10`.
pub open spec fn digit_char(d: nat) -> char {
    (48 + d) as char
}

/// The lowercase hexadecimal digit for `d < 16`.
pub open spec fn hex_lower(d: nat) -> char {
    if d < 10 {
        (48 + d) as char
    } else {
        (87 + d) as char
    }
}

/// The uppercase hexadecimal digit for `d < 16`.
pub open spec fn hex_upper(d: nat) -> char {
    if d < 10 {
        (48 + d) as char
    } else {
        (55 + d) as char
    }
}

/// The decimal rendering of `n`, without leading zeros.
pub open spec fn decimal(n: nat) -> Seq<char>
    decreases n,
{
    if n < 10 {
        seq![digit_char(n)]
    } else {
        decimal(n / 10).push(digit_char(n % 10))
    }
}

/// The decimal rendering of a signed integer: a `-` before the magnitude of
/// a negative one.
pub open spec fn decimal_signed(n: int) -> Seq<char> {
    if n < 0 {
        seq!['-'] + decimal((-n) as nat)
    } else {
        decimal(n as nat)
    }
}

fn digit(d: u8) -> (c: char)
    requires
        d < 10,
    ensures
        c == digit_char(d as nat),
{
    (d + 48) as char
}

/// The hexadecimal digit of `d`, lowercase or uppercase.
pub fn hex_digit(d: u8, upper: bool) -> (c: char)
    requires
        d < 16,
    ensures
        c == if upper {
            hex_upper(d as nat)
        } else {
            hex_lower(d as nat)
        },
{
    if d < 10 {
        (d + 48) as char
    } else if upper {
        (d + 55) as char
    } else {
        (d + 87) as char
    }
}

/// Appends the decimal rendering of `n`.
pub fn push_decimal(out: &mut String, n: u128)
    ensures
        final(out)@ == old(out)@ + decimal(n as nat),
    decreases n,
{
    if n >= 10 {
        push_decimal(out, n / 10);
    }
    push_char(out, digit((n % 10) as u8));
    assert(final(out)@ =~= old(out)@ + decimal(n as nat)) by {
        if n >= 10 {
            assert(decimal(n as nat) == decimal((n / 10) as nat).push(digit_char((n % 10) as nat)));
        }
    }
}

/// Appends the decimal rendering of a signed `n`.
pub fn push_decimal_signed(out: &mut String, n: i64)
    ensures
        final(out)@ == old(out)@ + decimal_signed(n as int),
{
    if n < 0 {
        push_char(out, '-');
        let m: i128 = -(n as i128);
        push_decimal(out, m as u128);
        assert(final(out)@ =~= old(out)@ + decimal_signed(n as int));
    } else {
        push_decimal(out, n as u128);
    }
}

/// Decimal renderings hold only the digits `0` to `9`, at least one.
pub proof fn lemma_decimal_digits(n: nat)
    ensures
        decimal(n).len() >= 1,
        n >= 10 ==> decimal(n).len() >= 2,
        forall|i: int| 0 <= i < decimal(n).len() ==> '0' <= #[trigger] decimal(n)[i] <= '9',
    decreases n,
{
    if n >= 10 {
        lemma_decimal_digits(n / 10);
        let prev = decimal(n / 10);
        assert forall|i: int| 0 <= i < decimal(n).len() implies '0' <= #[trigger] decimal(n)[i]
            <= '9' by {
            if i < prev.len() {
                assert(decimal(n)[i] == prev[i]);
            }
        }
    }
}

/// Different numbers have different decimal renderings.
pub proof fn lemma_decimal_injective(a: nat, b: nat)
    requires
        decimal(a) == decimal(b),
    ensures
        a == b,
    decreases a,
{
    lemma_decimal_digits(a);
    lemma_decimal_digits(b);
    if a < 10 && b < 10 {
        assert(digit_char(a) == decimal(a)[0]);
        assert(digit_char(b) == decimal(b)[0]);
        assert((48 + a) as char == (48 + b) as char);
        assert(((48 + a) as char) as int == 48 + a);
        assert(((48 + b) as char) as int == 48 + b);
    } else if a >= 10 && b >= 10 {
        let pa = decimal(a / 10);
        let pb = decimal(b / 10);
        assert(decimal(a).drop_last() =~= pa);
        assert(decimal(b).drop_last() =~= pb);
        lemma_decimal_injective(a / 10, b / 10);
        assert(decimal(a).last() == digit_char(a % 10));
        assert(decimal(b).last() == digit_char(b % 10));
        assert(digit_char(a % 10) == digit_char(b % 10));
        assert(((48 + a % 10) as char) as int == 48 + a % 10);
        assert(((48 + b % 10) as char) as int == 48 + b % 10);
    }
}

} // verus!
