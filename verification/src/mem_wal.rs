//! The MemWAL index: regions, their generations, and how rows are routed to them.
pub mod batch;
pub mod generation;
pub mod index;
pub mod pb;
pub mod region;
pub mod transforms;
pub mod uuid;

pub use batch::{append_array_value, find_column_by_field_id, Column, ColumnData, RecordBatch};
pub use generation::{FlushedGeneration, IndexCatchupProgress, MergedGeneration, RegionManifest};
pub use index::{MemWalIndex, MemWalIndexDetails, MemWalStatistics, MEM_WAL_INDEX_NAME};
pub use region::{BucketResult, RegionField, RegionSpec};
pub use uuid::{RegionId, Uuid};
