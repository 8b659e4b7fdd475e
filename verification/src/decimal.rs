//! Numbers written out in decimal, as the numbering of a renamed file shows
//! them.

use vstd::prelude::*;

verus! {

/// The digit `0` as a byte.
pub const ZERO: u8 = 0x30;

/// `byte` is one of the digits `0` to `9`.
pub open spec fn is_digit(byte: u8) -> bool {
    0x30 <= byte <= 0x39
}

/// `n` in decimal, without leading zeros.
pub open spec fn decimal(n: nat) -> Seq<u8>
    decreases n,
{
    if n < 10 {
        seq![(0x30 + n) as u8]
    } else {
        decimal(n / 10).push((0x30 + n % 10) as u8)
    }
}

/// A number in decimal is one or more digits and nothing else.
pub proof fn lemma_decimal_is_digits(n: nat)
    ensures
        decimal(n).len() >= 1,
        forall|i: int| 0 <= i < decimal(n).len() ==> is_digit(#[trigger] decimal(n)[i]),
    decreases n,
{
    if n >= 10 {
        lemma_decimal_is_digits(n / 10);
    }
}

/// A number of two or more digits does not start with `0`.
proof fn lemma_decimal_leading(n: nat)
    ensures
        n >= 10 ==> decimal(n).len() >= 2 && decimal(n)[0] != 0x30,
        n < 10 ==> decimal(n).len() == 1,
    decreases n,
{
    if n >= 10 {
        lemma_decimal_leading(n / 10);
        lemma_decimal_is_digits(n / 10);
    }
}

/// Two numbers that read the same in decimal are the same number.
pub proof fn lemma_decimal_injective(a: nat, b: nat)
    requires
        decimal(a) == decimal(b),
    ensures
        a == b,
    decreases a,
{
    lemma_decimal_leading(a);
    lemma_decimal_leading(b);
    if a >= 10 {
        assert(b >= 10);
        let da = decimal(a / 10);
        let db = decimal(b / 10);
        assert(decimal(a).drop_last() =~= da);
        assert(decimal(b).drop_last() =~= db);
        assert(decimal(a).last() == (0x30 + a % 10) as u8);
        assert(decimal(b).last() == (0x30 + b % 10) as u8);
        lemma_decimal_injective(a / 10, b / 10);
        assert(a / 10 == b / 10);
        assert(a % 10 == b % 10);
    } else {
        assert(b < 10);
        assert(decimal(a)[0] == (0x30 + a) as u8);
        assert(decimal(b)[0] == (0x30 + b) as u8);
    }
}

/// Writes `n` in decimal.
pub fn decimal_digits(n: u64) -> (digits: Vec<u8>)
    ensures
        digits@ == decimal(n as nat),
{
    let mut low_first: Vec<u8> = Vec::new();
    let mut rest: u64 = n;
    while rest >= 10
        invariant
            decimal(n as nat) == decimal(rest as nat) + low_first@.reverse(),
        decreases rest,
    {
        let digit: u8 = ZERO + (rest % 10) as u8;
        proof {
            assert(low_first@.push(digit).reverse() =~= seq![digit] + low_first@.reverse());
            assert(decimal(rest as nat) + low_first@.reverse() =~= decimal((rest / 10) as nat) + (
            seq![digit] + low_first@.reverse()));
        }
        low_first.push(digit);
        rest = rest / 10;
    }
    let leading: u8 = ZERO + rest as u8;
    proof {
        assert(low_first@.push(leading).reverse() =~= seq![leading] + low_first@.reverse());
    }
    low_first.push(leading);
    let mut digits: Vec<u8> = Vec::new();
    let mut i: usize = low_first.len();
    while i > 0
        invariant
            i <= low_first.len(),
            digits@ == low_first@.reverse().take(low_first.len() - i),
        decreases i,
    {
        i = i - 1;
        digits.push(low_first[i]);
        assert(digits@ =~= low_first@.reverse().take(low_first.len() - i));
    }
    assert(digits@ =~= low_first@.reverse());
    digits
}

} // verus!
