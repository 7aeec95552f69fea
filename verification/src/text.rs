//! Decimal rendering of integers, for the messages of the error types.
use vstd::prelude::*;

use crate::rev::{hex_digit, hex_digits};

verus! {

/// The decimal digits of a natural number, most significant first.
pub open spec fn decimal_nat(n: nat) -> Seq<char>
    decreases n,
{
    if n < 10 {
        seq![hex_digits()[n as int]]
    } else {
        decimal_nat(n / 10) + seq![hex_digits()[(n % 10) as int]]
    }
}

/// An integer in decimal, with a leading `-` when it is negative.
pub open spec fn decimal(n: int) -> Seq<char> {
    if n < 0 {
        seq!['-'] + decimal_nat((-n) as nat)
    } else {
        decimal_nat(n as nat)
    }
}

/// Appends the decimal digits of `m` to `out`.
fn push_decimal_u64(out: &mut String, m: u64)
    ensures
        final(out)@ == old(out)@ + decimal_nat(m as nat),
    decreases m,
{
    if m < 10 {
        out.append(hex_digit(m as u8));
    } else {
        push_decimal_u64(out, m / 10);
        out.append(hex_digit((m % 10) as u8));
    }
}

/// Appends `n` in decimal to `out`.
pub fn push_decimal(out: &mut String, n: i64)
    ensures
        final(out)@ == old(out)@ + decimal(n as int),
{
    if n < 0 {
        out.append("-");
        proof {
            reveal_strlit("-");
        }
        let magnitude: u64 = ((-(n + 1)) as u64) + 1;
        push_decimal_u64(out, magnitude);
    } else {
        push_decimal_u64(out, n as u64);
    }
}

/// The number that a string of decimal digits denotes, most significant
/// first.
pub open spec fn digits_value(s: Seq<char>) -> int
    decreases s.len(),
{
    if s.len() == 0 {
        0
    } else {
        10 * digits_value(s.drop_last()) + (s.last() as u32 - '0' as u32)
    }
}

/// The first ten hex digits are the decimal digits, in order.
proof fn lemma_digit_value(k: int)
    requires
        0 <= k < 10,
    ensures
        '0' <= hex_digits()[k] <= '9',
        hex_digits()[k] as u32 - '0' as u32 == k,
{
    let h = hex_digits();
    assert(h[0] == '0' && h[1] == '1' && h[2] == '2' && h[3] == '3' && h[4] == '4');
    assert(h[5] == '5' && h[6] == '6' && h[7] == '7' && h[8] == '8' && h[9] == '9');
}

/// Reading the digits of `decimal_nat(n)` back gives `n`: they are all
/// decimal digits, there is at least one, and the first is `0` only when
/// `n` is zero and it is the only one.
pub proof fn law_decimal_reads_back(n: nat)
    ensures
        decimal_nat(n).len() >= 1,
        forall|i: int| 0 <= i < decimal_nat(n).len() ==> '0' <= #[trigger] decimal_nat(n)[i] <= '9',
        decimal_nat(n)[0] == '0' ==> n == 0 && decimal_nat(n).len() == 1,
        digits_value(decimal_nat(n)) == n,
    decreases n,
{
    let d = decimal_nat(n);
    if n < 10 {
        lemma_digit_value(n as int);
        assert(d.drop_last() =~= Seq::<char>::empty());
        assert(digits_value(d.drop_last()) == 0);
        assert(d.last() == hex_digits()[n as int]);
    } else {
        lemma_digit_value((n % 10) as int);
        law_decimal_reads_back(n / 10);
        let p = decimal_nat(n / 10);
        assert(d.drop_last() =~= p);
        assert(d.last() == hex_digits()[(n % 10) as int]);
        assert(digits_value(d) == 10 * digits_value(p) + (n % 10));
        assert(d[0] == p[0]);
        assert(p[0] == '0' ==> n / 10 == 0);
    }
}

} // verus!
