//! Kinds of indexes.
use vstd::prelude::*;

verus! {

/// The kind of an index.
#[derive(Debug, Clone, Copy, PartialEq, Eq, Structural)]
pub enum IndexType {
    Bitmap,
    MemWal,
    Vector,
}

} // verus!
