//! Well-known transform types for region bucket transforms.
use vstd::prelude::*;

verus! {

/// Identity transform: uses the value as it is.
pub const IDENTITY: &'static str = "identity";

/// Bucket transform: hashes the value into buckets.
pub const BUCKET: &'static str = "bucket";

/// Multi-bucket transform: as bucket, over several source columns.
pub const MULTI_BUCKET: &'static str = "multi_bucket";

} // verus!
