//! Queries for nearest vectors.
use vstd::prelude::*;

use crate::ordered::OrderedFloat;
use crate::vector::bq::storage::DataType;
use crate::vector::distance::DistanceType;

verus! {

/// A vector to search for, as the bytes of its values.
#[derive(Debug, Clone)]
pub struct QueryVector {
    pub value_type: DataType,
    pub values: Vec<u8>,
}

/// Query parameters for the vector indices.
#[derive(Debug, Clone)]
pub struct Query {
    /// The column to be searched.
    pub column: String,
    /// The vector to be searched.
    pub key: QueryVector,
    /// Top k results to return.
    pub k: usize,
    /// The lower bound (inclusive) of the distance to be searched.
    pub lower_bound: Option<OrderedFloat>,
    /// The upper bound (exclusive) of the distance to be searched.
    pub upper_bound: Option<OrderedFloat>,
    /// The minimum number of probes to load and search. More partitions are only loaded where
    /// `k` results were not found, or where recall needs them.
    pub minimum_nprobes: usize,
    /// The maximum number of probes to load and search. Where it is not set, all partitions are
    /// searched, if needed, for `k` results.
    pub maximum_nprobes: Option<usize>,
    /// The number of candidates to reserve while searching, for HNSW related index types.
    pub ef: Option<usize>,
    /// If present, apply a refine step.
    pub refine_factor: Option<u32>,
    /// Distance metric type. Where there is none, the index's metric is used (if available) or
    /// the default for the data type.
    pub metric_type: Option<DistanceType>,
    /// Whether to use an index if available.
    pub use_index: bool,
    /// The distance between the query and the centroid, for IVF indexes with Rabit quantization.
    pub dist_q_c: OrderedFloat,
}

} // verus!
