//! The messages that the state of the log is stored in.
use vstd::prelude::*;

use crate::string_map::StringMap;

verus! {

/// A UUID as its bytes.
#[derive(Debug, Clone)]
pub struct Uuid {
    pub uuid: Vec<u8>,
}

#[derive(Debug, Clone)]
pub struct FlushedGeneration {
    pub generation: u64,
    pub path: String,
}

#[derive(Debug, Clone)]
pub struct MergedGeneration {
    pub region_id: Option<Uuid>,
    pub generation: u64,
}

#[derive(Debug, Clone)]
pub struct IndexCatchupProgress {
    pub index_name: String,
    pub caught_up_generations: Vec<MergedGeneration>,
}

#[derive(Debug, Clone)]
pub struct RegionManifest {
    pub region_id: Option<Uuid>,
    pub version: u64,
    pub region_spec_id: u32,
    pub writer_epoch: u64,
    pub replay_after_wal_entry_position: u64,
    pub wal_entry_position_last_seen: u64,
    pub current_generation: u64,
    pub flushed_generations: Vec<FlushedGeneration>,
}

#[derive(Debug, Clone)]
pub struct RegionField {
    pub field_id: String,
    pub source_ids: Vec<i32>,
    pub transform: Option<String>,
    pub expression: Option<String>,
    pub result_type: String,
    pub parameters: StringMap,
}

#[derive(Debug, Clone)]
pub struct RegionSpec {
    pub spec_id: u32,
    pub fields: Vec<RegionField>,
}

#[derive(Debug, Clone)]
pub struct MemWalIndexDetails {
    pub snapshot_ts_millis: i64,
    pub num_regions: u32,
    pub inline_snapshots: Option<Vec<u8>>,
    pub region_specs: Vec<RegionSpec>,
    pub maintained_indexes: Vec<String>,
    pub merged_generations: Vec<MergedGeneration>,
    pub index_catchup: Vec<IndexCatchupProgress>,
}

/// What a merged generation message says.
pub struct MergedGenerationView {
    pub region_id: Option<Seq<u8>>,
    pub generation: u64,
}

impl View for MergedGeneration {
    type V = MergedGenerationView;

    open spec fn view(&self) -> MergedGenerationView {
        MergedGenerationView {
            region_id: match self.region_id {
                Some(id) => Some(id.uuid@),
                None => None,
            },
            generation: self.generation,
        }
    }
}

/// What a catch-up progress message says.
#[verifier::ext_equal]
pub struct IndexCatchupProgressView {
    pub index_name: Seq<char>,
    pub caught_up_generations: Seq<MergedGenerationView>,
}

impl View for IndexCatchupProgress {
    type V = IndexCatchupProgressView;

    open spec fn view(&self) -> IndexCatchupProgressView {
        IndexCatchupProgressView {
            index_name: self.index_name@,
            caught_up_generations: self.caught_up_generations@.map_values(
                |g: MergedGeneration| g@,
            ),
        }
    }
}

/// What a flushed generation says.
pub struct FlushedGenerationView {
    pub generation: u64,
    pub path: Seq<char>,
}

impl View for FlushedGeneration {
    type V = FlushedGenerationView;

    open spec fn view(&self) -> FlushedGenerationView {
        FlushedGenerationView { generation: self.generation, path: self.path@ }
    }
}

/// What a region manifest message says.
#[verifier::ext_equal]
pub struct RegionManifestView {
    pub region_id: Option<Seq<u8>>,
    pub version: u64,
    pub region_spec_id: u32,
    pub writer_epoch: u64,
    pub replay_after_wal_entry_position: u64,
    pub wal_entry_position_last_seen: u64,
    pub current_generation: u64,
    pub flushed_generations: Seq<FlushedGenerationView>,
}

impl View for RegionManifest {
    type V = RegionManifestView;

    open spec fn view(&self) -> RegionManifestView {
        RegionManifestView {
            region_id: match self.region_id {
                Some(id) => Some(id.uuid@),
                None => None,
            },
            version: self.version,
            region_spec_id: self.region_spec_id,
            writer_epoch: self.writer_epoch,
            replay_after_wal_entry_position: self.replay_after_wal_entry_position,
            wal_entry_position_last_seen: self.wal_entry_position_last_seen,
            current_generation: self.current_generation,
            flushed_generations: self.flushed_generations@.map_values(|g: FlushedGeneration| g@),
        }
    }
}

/// The text that may be there.
pub open spec fn optional_text(text: Option<String>) -> Option<Seq<char>> {
    match text {
        Some(t) => Some(t@),
        None => None,
    }
}

/// What a region field says.
#[verifier::ext_equal]
pub struct RegionFieldView {
    pub field_id: Seq<char>,
    pub source_ids: Seq<i32>,
    pub transform: Option<Seq<char>>,
    pub expression: Option<Seq<char>>,
    pub result_type: Seq<char>,
    pub parameters: Map<Seq<char>, Seq<char>>,
}

impl View for RegionField {
    type V = RegionFieldView;

    open spec fn view(&self) -> RegionFieldView {
        RegionFieldView {
            field_id: self.field_id@,
            source_ids: self.source_ids@,
            transform: optional_text(self.transform),
            expression: optional_text(self.expression),
            result_type: self.result_type@,
            parameters: self.parameters@,
        }
    }
}

/// What a region spec says.
#[verifier::ext_equal]
pub struct RegionSpecView {
    pub spec_id: u32,
    pub fields: Seq<RegionFieldView>,
}

impl View for RegionSpec {
    type V = RegionSpecView;

    open spec fn view(&self) -> RegionSpecView {
        RegionSpecView {
            spec_id: self.spec_id,
            fields: self.fields@.map_values(|f: RegionField| f@),
        }
    }
}

/// What an index details message says.
#[verifier::ext_equal]
pub struct MemWalIndexDetailsView {
    pub snapshot_ts_millis: i64,
    pub num_regions: u32,
    pub inline_snapshots: Option<Seq<u8>>,
    pub region_specs: Seq<RegionSpecView>,
    pub maintained_indexes: Seq<Seq<char>>,
    pub merged_generations: Seq<MergedGenerationView>,
    pub index_catchup: Seq<IndexCatchupProgressView>,
}

/// The bytes that may be there.
pub open spec fn optional_bytes(bytes: Option<Vec<u8>>) -> Option<Seq<u8>> {
    match bytes {
        Some(b) => Some(b@),
        None => None,
    }
}

impl View for MemWalIndexDetails {
    type V = MemWalIndexDetailsView;

    open spec fn view(&self) -> MemWalIndexDetailsView {
        MemWalIndexDetailsView {
            snapshot_ts_millis: self.snapshot_ts_millis,
            num_regions: self.num_regions,
            inline_snapshots: optional_bytes(self.inline_snapshots),
            region_specs: self.region_specs@.map_values(|s: RegionSpec| s@),
            maintained_indexes: self.maintained_indexes@.map_values(|s: String| s@),
            merged_generations: self.merged_generations@.map_values(|g: MergedGeneration| g@),
            index_catchup: self.index_catchup@.map_values(|p: IndexCatchupProgress| p@),
        }
    }
}

} // verus!
