//! Fixed-width big-endian integers, as the wire format writes its two
//! length fields.

use vstd::prelude::*;

verus! {

/// Width in bytes of one length field on the wire.
pub const FIELD_WIDTH: usize = 8;

/// `256` to the power `width`.
pub open spec fn radix_pow(width: nat) -> nat
    decreases width,
{
    if width == 0 {
        1
    } else {
        256 * radix_pow((width - 1) as nat)
    }
}

/// The `width` low-order base-256 digits of `n`, most significant first.
pub open spec fn be_digits(n: nat, width: nat) -> Seq<u8>
    decreases width,
{
    if width == 0 {
        Seq::empty()
    } else {
        be_digits(n / 256, (width - 1) as nat).push((n % 256) as u8)
    }
}

/// The number that a sequence of base-256 digits denotes, most significant
/// first.
pub open spec fn be_value(digits: Seq<u8>) -> nat
    decreases digits.len(),
{
    if digits.len() == 0 {
        0
    } else {
        be_value(digits.drop_last()) * 256 + digits.last() as nat
    }
}

/// The eight bytes that stand for `n` on the wire.
pub open spec fn u64_be(n: u64) -> Seq<u8> {
    be_digits(n as nat, 8)
}

pub proof fn lemma_be_digits_len(n: nat, width: nat)
    ensures
        be_digits(n, width).len() == width,
    decreases width,
{
    if width > 0 {
        lemma_be_digits_len(n / 256, (width - 1) as nat);
    }
}

pub proof fn lemma_be_value_bound(digits: Seq<u8>)
    ensures
        be_value(digits) < radix_pow(digits.len()),
    decreases digits.len(),
{
    if digits.len() > 0 {
        lemma_be_value_bound(digits.drop_last());
    }
}

/// Decoding undoes encoding for every number that fits the width.
pub proof fn lemma_value_of_digits(n: nat, width: nat)
    requires
        n < radix_pow(width),
    ensures
        be_value(be_digits(n, width)) == n,
    decreases width,
{
    if width > 0 {
        let high = be_digits(n / 256, (width - 1) as nat);
        lemma_value_of_digits(n / 256, (width - 1) as nat);
        assert(be_digits(n, width).drop_last() =~= high);
    }
}

/// Encoding undoes decoding: a digit sequence is the only one of its length
/// with its value.
pub proof fn lemma_digits_of_value(digits: Seq<u8>)
    ensures
        be_digits(be_value(digits), digits.len()) == digits,
    decreases digits.len(),
{
    if digits.len() > 0 {
        lemma_digits_of_value(digits.drop_last());
        let v = be_value(digits);
        assert(v / 256 == be_value(digits.drop_last()));
        assert(v % 256 == digits.last() as nat);
        assert(be_digits(v, digits.len()) =~= digits);
    }
}

pub proof fn lemma_radix_pow_8()
    ensures
        radix_pow(8) == 0x1_0000_0000_0000_0000,
{
    reveal_with_fuel(radix_pow, 9);
}

/// Every `u64` survives the trip through its eight wire bytes.
pub proof fn lemma_u64_round_trip(n: u64)
    ensures
        u64_be(n).len() == 8,
        be_value(u64_be(n)) == n,
{
    lemma_radix_pow_8();
    lemma_be_digits_len(n as nat, 8);
    lemma_value_of_digits(n as nat, 8);
}

/// Eight bytes always denote a number that fits a `u64`, and encoding that
/// number gives the same eight bytes back.
pub proof fn lemma_bytes_round_trip(digits: Seq<u8>)
    requires
        digits.len() == 8,
    ensures
        be_value(digits) <= u64::MAX,
        u64_be(be_value(digits) as u64) == digits,
{
    lemma_radix_pow_8();
    lemma_be_value_bound(digits);
    lemma_digits_of_value(digits);
}

/// Appends the eight big-endian bytes of `n` to `out`.
pub fn put_u64_be(out: &mut Vec<u8>, n: u64)
    ensures
        final(out)@ == old(out)@ + u64_be(n),
{
    let mut digits: [u8; 8] = [0u8; 8];
    let mut rest: u64 = n;
    let mut i: usize = 8;
    while i > 0
        invariant
            i <= 8,
            u64_be(n) == be_digits(rest as nat, i as nat) + digits@.subrange(i as int, 8),
        decreases i,
    {
        let low: u8 = (rest % 256) as u8;
        proof {
            let before = be_digits(rest as nat, i as nat);
            assert(before == be_digits((rest / 256) as nat, (i - 1) as nat).push(low));
            assert(digits@.update(i - 1, low).subrange(i - 1, 8) =~= seq![low] + digits@.subrange(
                i as int,
                8,
            ));
            assert(before + digits@.subrange(i as int, 8) =~= be_digits(
                (rest / 256) as nat,
                (i - 1) as nat,
            ) + (seq![low] + digits@.subrange(i as int, 8)));
        }
        i = i - 1;
        digits[i] = low;
        rest = rest / 256;
    }
    assert(u64_be(n) =~= digits@);
    let mut k: usize = 0;
    while k < 8
        invariant
            k <= 8,
            out@ == old(out)@ + digits@.subrange(0, k as int),
        decreases 8 - k,
    {
        out.push(digits[k]);
        assert(digits@.subrange(0, k + 1) =~= digits@.subrange(0, k as int).push(digits@[k as int]));
        k = k + 1;
    }
    assert(digits@.subrange(0, 8) =~= digits@);
}

/// Reads the eight big-endian bytes that start at `at`.
pub fn get_u64_be(bytes: &[u8], at: usize) -> (n: u64)
    requires
        at + 8 <= bytes.len(),
    ensures
        n == be_value(bytes@.subrange(at as int, at + 8)),
{
    let ghost field = bytes@.subrange(at as int, at + 8);
    let mut n: u64 = 0;
    let mut i: usize = 0;
    while i < 8
        invariant
            i <= 8,
            at + 8 <= bytes.len(),
            field == bytes@.subrange(at as int, at + 8),
            n == be_value(field.subrange(0, i as int)),
        decreases 8 - i,
    {
        proof {
            let next = field.subrange(0, i + 1);
            assert(next.drop_last() =~= field.subrange(0, i as int));
            assert(next.last() == bytes@[at + i]);
            lemma_be_value_bound(next);
            lemma_radix_pow_le(i as nat + 1, 8);
            lemma_radix_pow_8();
        }
        n = n * 256 + bytes[at + i] as u64;
        i = i + 1;
    }
    assert(field.subrange(0, 8) =~= field);
    n
}

pub proof fn lemma_radix_pow_le(a: nat, b: nat)
    requires
        a <= b,
    ensures
        radix_pow(a) <= radix_pow(b),
    decreases b,
{
    if a < b {
        lemma_radix_pow_le(a, (b - 1) as nat);
    }
}

} // verus!
