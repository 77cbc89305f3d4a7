//! Region identifiers.
use vstd::prelude::*;

verus! {

/// A UUID, held as the number that its sixteen bytes stand for, highest byte first.
#[derive(Debug, Clone, Copy, PartialEq, Eq, Structural, PartialOrd, Hash)]
pub struct Uuid {
    pub value: u128,
}

/// Region identifier (a version 4 UUID).
pub type RegionId = Uuid;

/// The lowest `n` bytes of `x`, highest first.
pub open spec fn be_bytes(x: nat, n: nat) -> Seq<u8>
    decreases n,
{
    if n == 0 {
        Seq::empty()
    } else {
        be_bytes(x / 256, (n - 1) as nat).push((x % 256) as u8)
    }
}

/// The number whose bytes are `s`, highest first.
pub open spec fn be_value(s: Seq<u8>) -> nat
    decreases s.len(),
{
    if s.len() == 0 {
        0
    } else {
        be_value(s.drop_last()) * 256 + s.last() as nat
    }
}

/// A number comes back from its bytes.
pub proof fn law_be_value_of_be_bytes(x: nat, n: nat)
    requires
        x < crate::bytes::byte_range(n),
    ensures
        be_bytes(x, n).len() == n,
        be_value(be_bytes(x, n)) == x,
    decreases n,
{
    if n > 0 {
        law_be_value_of_be_bytes(x / 256, (n - 1) as nat);
        assert(be_bytes(x, n).drop_last() =~= be_bytes(x / 256, (n - 1) as nat));
    }
}

/// Calls `uuid::Uuid::from_slice`, and takes the number of the UUID. The contract claims that
/// there is one exactly for sixteen bytes, which are its bytes with the highest first.
#[verifier::external_body]
fn number_from_slice(bytes: &[u8]) -> (r: Option<u128>)
    ensures
        r is Some <==> bytes@.len() == 16,
        r matches Some(value) ==> value == be_value(bytes@),
{
    uuid::Uuid::from_slice(bytes).ok().map(|id| id.as_u128())
}

/// Calls `uuid::Uuid::into_bytes` on the UUID of a number. The contract claims that its sixteen
/// bytes are those of the number, highest first.
#[verifier::external_body]
fn number_into_bytes(value: u128) -> (r: Vec<u8>)
    ensures
        r@ == be_bytes(value as nat, 16),
{
    uuid::Uuid::from_u128(value).into_bytes().to_vec()
}

impl Uuid {
    /// The bytes of the identifier.
    pub open spec fn spec_bytes(&self) -> Seq<u8> {
        be_bytes(self.value as nat, 16)
    }

    /// The identifier of sixteen bytes.
    pub fn from_slice(bytes: &[u8]) -> (r: Option<Uuid>)
        ensures
            match r {
                Some(id) => bytes@.len() == 16 && id.value == be_value(bytes@),
                None => bytes@.len() != 16,
            },
    {
        match number_from_slice(bytes) {
            Some(value) => Some(Uuid { value }),
            None => None,
        }
    }

    /// The bytes of the identifier.
    pub fn to_bytes(&self) -> (r: Vec<u8>)
        ensures
            r@ == self.spec_bytes(),
    {
        number_into_bytes(self.value)
    }

    /// An identifier comes back from its bytes.
    pub proof fn law_bytes_round_trip(self)
        ensures
            self.spec_bytes().len() == 16,
            be_value(self.spec_bytes()) == self.value,
    {
        reveal_with_fuel(crate::bytes::byte_range, 17);
        law_be_value_of_be_bytes(self.value as nat, 16);
    }
}

/// Byte `i` of `n` bytes, highest first, is the digit of weight 256 to the `n - 1 - i`.
pub proof fn law_be_bytes_are_digits(x: nat, n: nat, i: nat)
    requires
        i < n,
    ensures
        be_bytes(x, n).len() == n,
        be_bytes(x, n)[i as int] as int == x as int / vstd::arithmetic::power::pow(
            256,
            (n - 1 - i) as nat,
        ) % 256,
    decreases n,
{
    lemma_be_bytes_len(x, n);
    reveal(vstd::arithmetic::power::pow);
    if i < n - 1 {
        let j = (n - 2 - i) as nat;
        law_be_bytes_are_digits(x / 256, (n - 1) as nat, i);
        lemma_be_bytes_len(x / 256, (n - 1) as nat);
        vstd::arithmetic::power::lemma_pow_positive(256, j);
        vstd::arithmetic::div_mod::lemma_div_denominator(
            x as int,
            256,
            vstd::arithmetic::power::pow(256, j),
        );
    } else {
        lemma_be_bytes_len(x / 256, (n - 1) as nat);
    }
}

/// There are `n` bytes.
proof fn lemma_be_bytes_len(x: nat, n: nat)
    ensures
        be_bytes(x, n).len() == n,
    decreases n,
{
    if n > 0 {
        lemma_be_bytes_len(x / 256, (n - 1) as nat);
    }
}

/// The number of some bytes, highest first, is below the power of 256 of their count, and its digit
/// of weight 256 to the `i` is the byte `i` places before the last.
pub proof fn law_be_value_has_the_digits(s: Seq<u8>, i: nat)
    requires
        i < s.len(),
    ensures
        be_value(s) < vstd::arithmetic::power::pow(256, s.len()),
        be_value(s) as int / vstd::arithmetic::power::pow(256, i) % 256 == s[s.len() - 1 - i] as int,
    decreases s.len(),
{
    lemma_be_value_range(s);
    reveal(vstd::arithmetic::power::pow);
    let rest = s.drop_last();
    let v = be_value(s) as int;
    assert(v / 256 == be_value(rest) && v % 256 == s.last());
    if i > 0 {
        let j = (i - 1) as nat;
        law_be_value_has_the_digits(rest, j);
        vstd::arithmetic::power::lemma_pow_positive(256, j);
        vstd::arithmetic::div_mod::lemma_div_denominator(
            v,
            256,
            vstd::arithmetic::power::pow(256, j),
        );
    }
}

/// The number of some bytes is below the power of 256 of their count.
proof fn lemma_be_value_range(s: Seq<u8>)
    ensures
        be_value(s) < vstd::arithmetic::power::pow(256, s.len()),
    decreases s.len(),
{
    reveal(vstd::arithmetic::power::pow);
    if s.len() > 0 {
        lemma_be_value_range(s.drop_last());
    }
}

/// The bytes of an identifier are the sixteen digits of its number to the base 256, highest first.
pub proof fn law_bytes_of_an_identifier(id: Uuid, i: nat)
    requires
        i < 16,
    ensures
        id.spec_bytes().len() == 16,
        id.spec_bytes()[i as int] as int == id.value as int / vstd::arithmetic::power::pow(
            256,
            (15 - i) as nat,
        ) % 256,
{
    law_be_bytes_are_digits(id.value as nat, 16, i);
}

/// A number has as many bytes as are asked for, and bytes stand for a number below the power of 256
/// of their count; in particular no bytes stand for zero.
pub proof fn law_counts_of_be_bytes(x: nat, n: nat, s: Seq<u8>)
    ensures
        be_bytes(x, n).len() == n,
        be_value(s) < vstd::arithmetic::power::pow(256, s.len()),
        s.len() == 0 ==> be_value(s) == 0,
{
    lemma_be_bytes_len(x, n);
    lemma_be_value_range(s);
}

} // verus!
