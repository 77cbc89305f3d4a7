//! Numbers as little-endian bytes.
use vstd::prelude::*;

verus! {

/// The lowest `n` bytes of `x`, lowest first.
pub open spec fn le_bytes(x: nat, n: nat) -> Seq<u8>
    decreases n,
{
    if n == 0 {
        Seq::empty()
    } else {
        seq![(x % 256) as u8] + le_bytes(x / 256, (n - 1) as nat)
    }
}

/// The number whose bytes are `s`, lowest first.
pub open spec fn le_value(s: Seq<u8>) -> nat
    decreases s.len(),
{
    if s.len() == 0 {
        0
    } else {
        s[0] as nat + 256 * le_value(s.drop_first())
    }
}

/// One more than the largest number of `n` bytes.
pub open spec fn byte_range(n: nat) -> nat
    decreases n,
{
    if n == 0 {
        1
    } else {
        256 * byte_range((n - 1) as nat)
    }
}

/// A number comes back from its bytes.
pub proof fn law_le_value_of_le_bytes(x: nat, n: nat)
    requires
        x < byte_range(n),
    ensures
        le_bytes(x, n).len() == n,
        le_value(le_bytes(x, n)) == x,
    decreases n,
{
    if n > 0 {
        law_le_value_of_le_bytes(x / 256, (n - 1) as nat);
        assert(le_bytes(x, n).drop_first() =~= le_bytes(x / 256, (n - 1) as nat));
    }
}

/// There are `n` bytes.
pub proof fn lemma_le_bytes_len(x: nat, n: nat)
    ensures
        le_bytes(x, n).len() == n,
    decreases n,
{
    if n > 0 {
        lemma_le_bytes_len(x / 256, (n - 1) as nat);
    }
}

/// A number of `n` bytes is below the range of `n` bytes.
pub proof fn lemma_le_value_range(s: Seq<u8>)
    ensures
        le_value(s) < byte_range(s.len()),
    decreases s.len(),
{
    if s.len() > 0 {
        lemma_le_value_range(s.drop_first());
    }
}

/// The ranges of the machine integers.
pub proof fn lemma_byte_ranges()
    ensures
        byte_range(1) == 0x100,
        byte_range(2) == 0x1_0000,
        byte_range(4) == 0x1_0000_0000,
        byte_range(8) == 0x1_0000_0000_0000_0000,
{
    reveal_with_fuel(byte_range, 9);
}

/// Appends the lowest `n` bytes of `x`.
pub fn push_le(buffer: &mut Vec<u8>, x: u64, n: usize)
    ensures
        final(buffer)@ == old(buffer)@ + le_bytes(x as nat, n as nat),
{
    let ghost before = buffer@;
    let mut rest: u64 = x;
    let mut left: usize = n;
    proof {
        assert(before + le_bytes(x as nat, n as nat) =~= buffer@ + le_bytes(rest as nat, left as nat));
    }
    while left > 0
        invariant
            before + le_bytes(x as nat, n as nat) == buffer@ + le_bytes(rest as nat, left as nat),
        decreases left,
    {
        let ghost now = buffer@;
        let byte: u8 = (rest % 256) as u8;
        buffer.push(byte);
        proof {
            assert(now + le_bytes(rest as nat, left as nat) =~= buffer@ + le_bytes(
                (rest / 256) as nat,
                (left - 1) as nat,
            ));
        }
        rest = rest / 256;
        left = left - 1;
    }
    assert(buffer@ + le_bytes(rest as nat, 0) =~= buffer@);
}

/// The number whose bytes are `bytes`, lowest first.
pub fn read_le(bytes: &[u8]) -> (r: u64)
    requires
        bytes@.len() <= 8,
    ensures
        r == le_value(bytes@),
{
    let mut value: u64 = 0;
    let mut i: usize = bytes.len();
    while i > 0
        invariant
            i <= bytes@.len() <= 8,
            value == le_value(bytes@.skip(i as int)),
        decreases i,
    {
        i = i - 1;
        proof {
            assert(bytes@.skip(i as int).drop_first() =~= bytes@.skip(i + 1));
            assert(bytes@.skip(i as int).len() <= 8);
            lemma_le_value_range(bytes@.skip(i as int));
            lemma_byte_range_grows(bytes@.skip(i as int).len(), 8);
            lemma_byte_ranges();
        }
        value = value * 256 + bytes[i] as u64;
    }
    assert(bytes@.skip(0) =~= bytes@);
    value
}

/// Copies bytes.
pub fn copy_bytes(bytes: &Vec<u8>) -> (r: Vec<u8>)
    ensures
        r@ == bytes@,
{
    let mut copy: Vec<u8> = Vec::with_capacity(bytes.len());
    copy.extend_from_slice(bytes.as_slice());
    assert(copy@ =~= bytes@);
    copy
}

/// More bytes reach farther.
proof fn lemma_byte_range_grows(a: nat, b: nat)
    requires
        a <= b,
    ensures
        0 < byte_range(a) <= byte_range(b),
    decreases b,
{
    if a == b {
        if b > 0 {
            lemma_byte_range_grows((a - 1) as nat, (b - 1) as nat);
        }
    } else {
        lemma_byte_range_grows(a, (b - 1) as nat);
    }
}

/// The range of `n` bytes is a power of 256.
pub proof fn law_byte_range_is_a_power(n: nat)
    ensures
        byte_range(n) == vstd::arithmetic::power::pow(256, n),
    decreases n,
{
    reveal(vstd::arithmetic::power::pow);
    if n > 0 {
        law_byte_range_is_a_power((n - 1) as nat);
    }
}

/// Byte `i` of a number is its digit of weight 256 to the `i`.
pub proof fn law_le_bytes_are_digits(x: nat, n: nat, i: nat)
    requires
        i < n,
    ensures
        le_bytes(x, n).len() == n,
        le_bytes(x, n)[i as int] as int == x as int / vstd::arithmetic::power::pow(256, i) % 256,
    decreases n,
{
    lemma_le_bytes_len(x, n);
    reveal(vstd::arithmetic::power::pow);
    if i > 0 {
        let j = (i - 1) as nat;
        law_le_bytes_are_digits(x / 256, (n - 1) as nat, j);
        lemma_le_bytes_len(x / 256, (n - 1) as nat);
        vstd::arithmetic::power::lemma_pow_positive(256, j);
        vstd::arithmetic::div_mod::lemma_div_denominator(
            x as int,
            256,
            vstd::arithmetic::power::pow(256, j),
        );
        assert(le_bytes(x, n)[i as int] == le_bytes(x / 256, (n - 1) as nat)[j as int]);
    }
}

/// The number of some bytes is below the power of 256 of their count, and its digit of weight 256
/// to the `i` is byte `i`.
pub proof fn law_le_value_has_the_digits(s: Seq<u8>, i: nat)
    requires
        i < s.len(),
    ensures
        le_value(s) < vstd::arithmetic::power::pow(256, s.len()),
        le_value(s) as int / vstd::arithmetic::power::pow(256, i) % 256 == s[i as int] as int,
    decreases s.len(),
{
    lemma_le_value_range(s);
    law_byte_range_is_a_power(s.len());
    reveal(vstd::arithmetic::power::pow);
    let rest = s.drop_first();
    let v = le_value(s) as int;
    assert(v / 256 == le_value(rest) && v % 256 == s[0]);
    if i > 0 {
        let j = (i - 1) as nat;
        law_le_value_has_the_digits(rest, j);
        vstd::arithmetic::power::lemma_pow_positive(256, j);
        vstd::arithmetic::div_mod::lemma_div_denominator(
            v,
            256,
            vstd::arithmetic::power::pow(256, j),
        );
        assert(rest[j as int] == s[i as int]);
    }
}

/// Bytes come back from the number that they stand for.
pub proof fn law_le_bytes_of_le_value(s: Seq<u8>)
    ensures
        le_bytes(le_value(s), s.len()) == s,
    decreases s.len(),
{
    lemma_le_bytes_len(le_value(s), s.len());
    if s.len() > 0 {
        let rest = s.drop_first();
        law_le_bytes_of_le_value(rest);
        assert(le_value(s) % 256 == s[0] && le_value(s) / 256 == le_value(rest));
    }
    assert(le_bytes(le_value(s), s.len()) =~= s);
}

/// A number has as many bytes as are asked for, and bytes stand for a number below the power of 256
/// of their count; in particular no bytes stand for zero.
pub proof fn law_counts_of_bytes(x: nat, n: nat, s: Seq<u8>)
    ensures
        le_bytes(x, n).len() == n,
        le_value(s) < vstd::arithmetic::power::pow(256, s.len()),
        s.len() == 0 ==> le_value(s) == 0,
{
    lemma_le_bytes_len(x, n);
    lemma_le_value_range(s);
    law_byte_range_is_a_power(s.len());
}

} // verus!
