//! Quantizers.
use vstd::prelude::*;

use crate::vector::flat::index::{FlatBinQuantizer, FlatQuantizer};

verus! {

/// The kind of a quantizer.
#[derive(Debug, Clone, Copy, PartialEq, Eq, Structural)]
pub enum QuantizationType {
    Flat,
    Product,
    Scalar,
    Rabit,
}

/// A quantizer. The quantizers that are no flat ones are told apart by their kind alone.
#[derive(Debug, Clone, Copy, PartialEq, Eq, Structural)]
pub enum Quantizer {
    Flat(FlatQuantizer),
    FlatBin(FlatBinQuantizer),
    Product,
    Scalar,
    Rabit,
}

} // verus!
