//! Vector indexes.
use vstd::prelude::*;

pub mod bq;
pub mod distance;
pub mod flat;
pub mod ivf_state;
pub mod quantizer;
pub mod query;

pub use ivf_state::{deserialize_vector_index_data, IvfIndexState, IvfIndexStateHeader};
pub use query::Query;

verus! {

pub const DIST_COL: &'static str = "_distance";

pub const DISTANCE_TYPE_KEY: &'static str = "distance_type";

pub const INDEX_UUID_COLUMN: &'static str = "__index_uuid";

pub const PART_ID_COLUMN: &'static str = "__ivf_part_id";

pub const DIST_Q_C_COLUMN: &'static str = "__dist_q_c";

/// The distance from a vector to its centroid.
pub const CENTROID_DIST_COLUMN: &'static str = "__centroid_dist";

pub const PQ_CODE_COLUMN: &'static str = "__pq_code";

pub const SQ_CODE_COLUMN: &'static str = "__sq_code";

pub const LOSS_METADATA_KEY: &'static str = "_loss";

} // verus!
