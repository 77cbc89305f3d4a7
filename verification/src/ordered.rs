//! Distances as integers that keep the total order of 32-bit floats.
use vstd::prelude::*;

verus! {

/// A 32-bit float distance, held as the integer whose order is the float's total order.
///
/// Non-negative floats keep their bit pattern; a negative float with magnitude bits `m` is
/// held as `-1 - m`, so `-0.0` is `-1` and `0.0` is `0`.
#[derive(Debug, Clone, Copy, PartialEq, Eq, Structural, Hash)]
pub struct OrderedFloat {
    pub key: i32,
}

/// The place of a float's bit pattern in the total order of floats.
pub open spec fn order_key(bits: u32) -> int {
    if bits < 0x8000_0000 {
        bits as int
    } else {
        0x7fff_ffff - bits
    }
}

impl OrderedFloat {
    /// The distance whose float has the given bit pattern.
    pub fn from_bits(bits: u32) -> (r: Self)
        ensures
            r.key == order_key(bits),
    {
        if bits < 0x8000_0000 {
            OrderedFloat { key: bits as i32 }
        } else {
            OrderedFloat { key: -1 - ((bits - 0x8000_0000) as i32) }
        }
    }

    /// The bit pattern of the float that this distance stands for.
    pub fn to_bits(&self) -> (bits: u32)
        ensures
            order_key(bits) == self.key,
    {
        if self.key >= 0 {
            self.key as u32
        } else {
            0x8000_0000 + ((-1 - self.key) as u32)
        }
    }
}

/// The place of positive infinity in the total order.
pub const INFINITY_KEY: i32 = 0x7f80_0000;

/// The place of negative infinity in the total order.
pub const NEG_INFINITY_KEY: i32 = -0x7f80_0001;

/// The float is not a number: it lies beyond the infinities.
pub open spec fn is_nan(x: OrderedFloat) -> bool {
    x.key > INFINITY_KEY || x.key < NEG_INFINITY_KEY
}

/// The float is one of the two zeros.
pub open spec fn is_zero(x: OrderedFloat) -> bool {
    x.key == 0 || x.key == -1
}

/// `a > b` as floats: false where one is not a number, and false between the two zeros.
pub open spec fn float_gt(a: OrderedFloat, b: OrderedFloat) -> bool {
    !is_nan(a) && !is_nan(b) && a.key > b.key && !(is_zero(a) && is_zero(b))
}

/// `a == b` as floats: false where one is not a number, and true between the two zeros.
pub open spec fn float_eq(a: OrderedFloat, b: OrderedFloat) -> bool {
    !is_nan(a) && !is_nan(b) && (a.key == b.key || (is_zero(a) && is_zero(b)))
}

impl OrderedFloat {
    /// Compares as floats compare, not by the total order.
    pub fn float_eq(&self, other: &OrderedFloat) -> (r: bool)
        ensures
            r == float_eq(*self, *other),
    {
        let both_zero = (self.key == 0 || self.key == -1) && (other.key == 0 || other.key == -1);
        !self.is_nan() && !other.is_nan() && (self.key == other.key || both_zero)
    }

    pub fn is_nan(&self) -> (r: bool)
        ensures
            r == is_nan(*self),
    {
        self.key > INFINITY_KEY || self.key < NEG_INFINITY_KEY
    }

    /// Compares as floats compare, not by the total order.
    pub fn float_gt(&self, other: &OrderedFloat) -> (r: bool)
        ensures
            r == float_gt(*self, *other),
    {
        let both_zero = (self.key == 0 || self.key == -1) && (other.key == 0 || other.key == -1);
        !self.is_nan() && !other.is_nan() && self.key > other.key && !both_zero
    }
}

/// A bit pattern and its place in the total order determine each other.
pub proof fn law_order_key_injective(a: u32, b: u32)
    requires
        order_key(a) == order_key(b),
    ensures
        a == b,
{
}

/// The total order of floats: by sign, then by magnitude, which a negative sign turns round. The
/// sign is the highest bit and the magnitude the rest.
pub proof fn law_total_order(a: u32, b: u32)
    ensures
        order_key(a) < order_key(b) <==> if a < 0x8000_0000 {
            b < 0x8000_0000 && a < b
        } else {
            b < 0x8000_0000 || a > b
        },
        i32::MIN <= order_key(a) <= i32::MAX,
{
}

/// A float is not a number exactly where its magnitude lies beyond the exponent of all ones, and it
/// is a zero exactly where its magnitude is nothing.
pub proof fn law_special_floats(x: OrderedFloat, bits: u32)
    requires
        x.key == order_key(bits),
    ensures
        is_nan(x) <==> bits as int % 0x8000_0000 > 0x7f80_0000,
        is_zero(x) <==> bits as int % 0x8000_0000 == 0,
{
}

/// Floats that are numbers compare as signed magnitudes do, and one that is none compares as
/// neither larger nor equal.
pub proof fn law_floats_compare_as_numbers(x: OrderedFloat, y: OrderedFloat, a: u32, b: u32)
    requires
        x.key == order_key(a),
        y.key == order_key(b),
    ensures
        ({
            let left = if a < 0x8000_0000 {
                a as int
            } else {
                0x8000_0000 - a as int
            };
            let right = if b < 0x8000_0000 {
                b as int
            } else {
                0x8000_0000 - b as int
            };
            let numbers = -0x7f80_0000 <= left <= 0x7f80_0000 && -0x7f80_0000 <= right
                <= 0x7f80_0000;
            &&& float_gt(x, y) <==> numbers && left > right
            &&& float_eq(x, y) <==> numbers && left == right
        }),
{
}

} // verus!
