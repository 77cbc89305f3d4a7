//! The MemWAL index: configuration and state of the log.
use roaring::RoaringBitmap;
use vstd::prelude::*;

use crate::bytes::copy_bytes;
use crate::error::Error;
use crate::fragments::empty_bitmap;
use crate::index_type::IndexType;
use crate::mem_wal::generation::{
    find_generation, read_generations, write_generations, IndexCatchupProgress, MergedGeneration,
};
use crate::mem_wal::pb;
use crate::mem_wal::region::RegionSpec;
use crate::mem_wal::uuid::Uuid;
use crate::text::{copy_names, same_text};

verus! {

pub const MEM_WAL_INDEX_NAME: &'static str = "__lance_mem_wal";

/// Details of the MemWAL index.
#[derive(Debug, Clone, PartialEq, Eq)]
pub struct MemWalIndexDetails {
    pub snapshot_ts_millis: i64,
    pub num_regions: u32,
    pub inline_snapshots: Option<Vec<u8>>,
    pub region_specs: Vec<RegionSpec>,
    pub maintained_indexes: Vec<String>,
    pub merged_generations: Vec<MergedGeneration>,
    pub index_catchup: Vec<IndexCatchupProgress>,
}

/// What the details say.
#[verifier::ext_equal]
pub struct MemWalIndexDetailsView {
    pub snapshot_ts_millis: i64,
    pub num_regions: u32,
    pub inline_snapshots: Option<Seq<u8>>,
    pub region_specs: Seq<crate::mem_wal::pb::RegionSpecView>,
    pub maintained_indexes: Seq<Seq<char>>,
    pub merged_generations: Seq<MergedGeneration>,
    pub index_catchup: Seq<crate::mem_wal::generation::IndexCatchupProgressView>,
}

impl View for MemWalIndexDetails {
    type V = MemWalIndexDetailsView;

    open spec fn view(&self) -> MemWalIndexDetailsView {
        MemWalIndexDetailsView {
            snapshot_ts_millis: self.snapshot_ts_millis,
            num_regions: self.num_regions,
            inline_snapshots: crate::mem_wal::pb::optional_bytes(self.inline_snapshots),
            region_specs: self.region_specs@.map_values(|s: RegionSpec| s@),
            maintained_indexes: self.maintained_indexes@.map_values(|s: String| s@),
            merged_generations: self.merged_generations@,
            index_catchup: self.index_catchup@.map_values(|p: IndexCatchupProgress| p@),
        }
    }
}

impl Default for MemWalIndexDetails {
    fn default() -> (r: Self)
        ensures
            r@ == (MemWalIndexDetailsView {
                snapshot_ts_millis: 0,
                num_regions: 0,
                inline_snapshots: None,
                region_specs: Seq::empty(),
                maintained_indexes: Seq::empty(),
                merged_generations: Seq::empty(),
                index_catchup: Seq::empty(),
            }),
    {
        let r = MemWalIndexDetails {
            snapshot_ts_millis: 0,
            num_regions: 0,
            inline_snapshots: None,
            region_specs: Vec::new(),
            maintained_indexes: Vec::new(),
            merged_generations: Vec::new(),
            index_catchup: Vec::new(),
        };
        proof {
            assert(r@.region_specs =~= Seq::empty());
            assert(r@.maintained_indexes =~= Seq::empty());
            assert(r@.merged_generations =~= Seq::empty());
            assert(r@.index_catchup =~= Seq::empty());
        }
        r
    }
}

/// The messages of catch-up progresses.
pub open spec fn catchup_to_pb(
    progresses: Seq<crate::mem_wal::generation::IndexCatchupProgressView>,
) -> Seq<crate::mem_wal::pb::IndexCatchupProgressView> {
    progresses.map_values(
        |p: crate::mem_wal::generation::IndexCatchupProgressView| p.to_pb(),
    )
}

/// The catch-up progresses that messages stand for, or the first failure.
pub open spec fn catchup_from_pb(
    messages: Seq<crate::mem_wal::pb::IndexCatchupProgressView>,
) -> Result<Seq<crate::mem_wal::generation::IndexCatchupProgressView>, Error>
    decreases messages.len(),
{
    if messages.len() == 0 {
        Ok(Seq::empty())
    } else {
        match catchup_from_pb(messages.drop_last()) {
            Err(e) => Err(e),
            Ok(progresses) => match crate::mem_wal::generation::IndexCatchupProgressView::from_pb(
                messages.last(),
            ) {
                Err(e) => Err(e),
                Ok(p) => Ok(progresses.push(p)),
            },
        }
    }
}

/// A failure among the first messages is a failure of all of them.
proof fn lemma_first_bad_progress(
    messages: Seq<crate::mem_wal::pb::IndexCatchupProgressView>,
    n: nat,
    e: Error,
)
    requires
        n <= messages.len(),
        catchup_from_pb(messages.take(n as int)) == Err::<
            Seq<crate::mem_wal::generation::IndexCatchupProgressView>,
            Error,
        >(e),
    ensures
        catchup_from_pb(messages) == Err::<
            Seq<crate::mem_wal::generation::IndexCatchupProgressView>,
            Error,
        >(e),
    decreases messages.len(),
{
    if n == messages.len() {
        assert(messages.take(n as int) =~= messages);
    } else {
        assert(messages.drop_last().take(n as int) =~= messages.take(n as int));
        lemma_first_bad_progress(messages.drop_last(), n, e);
    }
}

/// Catch-up progresses come back from their messages.
pub proof fn law_catchup_round_trip(
    progresses: Seq<crate::mem_wal::generation::IndexCatchupProgressView>,
)
    ensures
        catchup_from_pb(catchup_to_pb(progresses)) == Ok::<
            Seq<crate::mem_wal::generation::IndexCatchupProgressView>,
            Error,
        >(progresses),
    decreases progresses.len(),
{
    if progresses.len() > 0 {
        law_catchup_round_trip(progresses.drop_last());
        progresses.last().law_pb_round_trip();
        assert(catchup_to_pb(progresses).drop_last() =~= catchup_to_pb(progresses.drop_last()));
        assert(progresses.drop_last().push(progresses.last()) =~= progresses);
    } else {
        assert(progresses =~= Seq::empty());
    }
}

impl MemWalIndexDetailsView {
    /// The message for these details.
    pub open spec fn to_pb(self) -> crate::mem_wal::pb::MemWalIndexDetailsView {
        crate::mem_wal::pb::MemWalIndexDetailsView {
            snapshot_ts_millis: self.snapshot_ts_millis,
            num_regions: self.num_regions,
            inline_snapshots: self.inline_snapshots,
            region_specs: self.region_specs,
            maintained_indexes: self.maintained_indexes,
            merged_generations: crate::mem_wal::generation::generations_to_pb(
                self.merged_generations,
            ),
            index_catchup: catchup_to_pb(self.index_catchup),
        }
    }

    /// The details that a message stands for. Merged generations are read before catch-up
    /// progresses.
    pub open spec fn from_pb(details: crate::mem_wal::pb::MemWalIndexDetailsView) -> Result<
        Self,
        Error,
    > {
        match crate::mem_wal::generation::generations_from_pb(details.merged_generations) {
            Err(e) => Err(e),
            Ok(merged_generations) => match catchup_from_pb(details.index_catchup) {
                Err(e) => Err(e),
                Ok(index_catchup) => Ok(
                    MemWalIndexDetailsView {
                        snapshot_ts_millis: details.snapshot_ts_millis,
                        num_regions: details.num_regions,
                        inline_snapshots: details.inline_snapshots,
                        region_specs: details.region_specs,
                        maintained_indexes: details.maintained_indexes,
                        merged_generations,
                        index_catchup,
                    },
                ),
            },
        }
    }

    /// Details come back from their message.
    pub proof fn law_pb_round_trip(self)
        ensures
            MemWalIndexDetailsView::from_pb(self.to_pb()) == Ok::<MemWalIndexDetailsView, Error>(
                self,
            ),
    {
        crate::mem_wal::generation::law_generations_round_trip(self.merged_generations);
        law_catchup_round_trip(self.index_catchup);
    }
}

/// Writes the messages of region specs.
fn write_specs(specs: &Vec<RegionSpec>) -> (r: Vec<pb::RegionSpec>)
    ensures
        r@.map_values(|s: pb::RegionSpec| s@) == specs@.map_values(|s: RegionSpec| s@),
{
    let mut messages: Vec<pb::RegionSpec> = Vec::with_capacity(specs.len());
    let mut i: usize = 0;
    while i < specs.len()
        invariant
            i <= specs@.len(),
            messages@.len() == i,
            forall|j: int| 0 <= j < i ==> (#[trigger] messages@[j])@ == specs@[j]@,
        decreases specs@.len() - i,
    {
        messages.push(pb::RegionSpec::from(&specs[i]));
        i = i + 1;
    }
    assert(messages@.map_values(|s: pb::RegionSpec| s@) =~= specs@.map_values(|s: RegionSpec| s@));
    messages
}

/// Reads region specs from their messages.
fn read_specs(messages: Vec<pb::RegionSpec>) -> (r: Vec<RegionSpec>)
    ensures
        r@.map_values(|s: RegionSpec| s@) == messages@.map_values(|s: pb::RegionSpec| s@),
{
    let ghost given = messages@;
    let mut specs: Vec<RegionSpec> = Vec::with_capacity(messages.len());
    for s in it: messages
        invariant
            it.seq() == given,
            specs@.len() == it.index(),
            forall|j: int| 0 <= j < it.index() ==> (#[trigger] specs@[j])@ == given[j]@,
    {
        specs.push(RegionSpec::from(s));
    }
    assert(specs@.map_values(|s: RegionSpec| s@) =~= given.map_values(|s: pb::RegionSpec| s@));
    specs
}

/// Copies the bytes that may be there.
fn copy_snapshots(bytes: &Option<Vec<u8>>) -> (r: Option<Vec<u8>>)
    ensures
        crate::mem_wal::pb::optional_bytes(r) == crate::mem_wal::pb::optional_bytes(*bytes),
{
    match bytes {
        Some(b) => Some(copy_bytes(b)),
        None => None,
    }
}

/// Writes the messages of catch-up progresses.
fn write_catchup(progresses: &Vec<IndexCatchupProgress>) -> (r: Vec<pb::IndexCatchupProgress>)
    ensures
        r@.map_values(|p: pb::IndexCatchupProgress| p@) == catchup_to_pb(
            progresses@.map_values(|p: IndexCatchupProgress| p@),
        ),
{
    let mut messages: Vec<pb::IndexCatchupProgress> = Vec::with_capacity(progresses.len());
    let mut i: usize = 0;
    while i < progresses.len()
        invariant
            i <= progresses@.len(),
            messages@.len() == i,
            forall|j: int| 0 <= j < i ==> (#[trigger] messages@[j])@ == progresses@[j]@.to_pb(),
        decreases progresses@.len() - i,
    {
        messages.push(pb::IndexCatchupProgress::from(&progresses[i]));
        i = i + 1;
    }
    assert(messages@.map_values(|p: pb::IndexCatchupProgress| p@) =~= catchup_to_pb(
        progresses@.map_values(|p: IndexCatchupProgress| p@),
    ));
    messages
}

/// Reads catch-up progresses from their messages.
fn read_catchup(messages: Vec<pb::IndexCatchupProgress>) -> (r: Result<
    Vec<IndexCatchupProgress>,
    Error,
>)
    ensures
        match r {
            Ok(progresses) => catchup_from_pb(
                messages@.map_values(|p: pb::IndexCatchupProgress| p@),
            ) == Ok::<Seq<crate::mem_wal::generation::IndexCatchupProgressView>, Error>(
                progresses@.map_values(|p: IndexCatchupProgress| p@),
            ),
            Err(e) => catchup_from_pb(messages@.map_values(|p: pb::IndexCatchupProgress| p@))
                == Err::<Seq<crate::mem_wal::generation::IndexCatchupProgressView>, Error>(e),
        },
{
    let ghost given = messages@;
    let ghost all = messages@.map_values(|p: pb::IndexCatchupProgress| p@);
    let mut progresses: Vec<IndexCatchupProgress> = Vec::with_capacity(messages.len());
    proof {
        assert(all.take(0) =~= Seq::empty());
        assert(progresses@.map_values(|p: IndexCatchupProgress| p@) =~= Seq::empty());
    }
    for icp in it: messages
        invariant
            it.seq() == given,
            all == given.map_values(|p: pb::IndexCatchupProgress| p@),
            catchup_from_pb(all.take(it.index() as int)) == Ok::<
                Seq<crate::mem_wal::generation::IndexCatchupProgressView>,
                Error,
            >(progresses@.map_values(|p: IndexCatchupProgress| p@)),
    {
        let ghost n = it.index() as int;
        let ghost before = progresses@;
        proof {
            assert(all.take(n + 1).drop_last() =~= all.take(n));
            assert(all.take(n + 1).last() == icp@);
        }
        match IndexCatchupProgress::try_from(icp) {
            Ok(p) => {
                progresses.push(p);
                assert(progresses@.map_values(|p: IndexCatchupProgress| p@) =~= before.map_values(
                    |p: IndexCatchupProgress| p@,
                ).push(p@));
            },
            Err(e) => {
                proof {
                    lemma_first_bad_progress(all, (n + 1) as nat, e);
                }
                return Err(e);
            },
        }
    }
    assert(all.take(all.len() as int) =~= all);
    Ok(progresses)
}

impl From<&MemWalIndexDetails> for pb::MemWalIndexDetails {
    fn from(details: &MemWalIndexDetails) -> (r: Self)
        ensures
            r@ == details@.to_pb(),
    {
        pb::MemWalIndexDetails {
            snapshot_ts_millis: details.snapshot_ts_millis,
            num_regions: details.num_regions,
            inline_snapshots: copy_snapshots(&details.inline_snapshots),
            region_specs: write_specs(&details.region_specs),
            maintained_indexes: copy_names(&details.maintained_indexes),
            merged_generations: write_generations(&details.merged_generations),
            index_catchup: write_catchup(&details.index_catchup),
        }
    }
}

impl vstd::std_specs::convert::FromSpecImpl<&MemWalIndexDetails> for pb::MemWalIndexDetails {
    open spec fn obeys_from_spec() -> bool {
        false
    }

    open spec fn from_spec(details: &MemWalIndexDetails) -> Self {
        arbitrary()
    }
}

impl TryFrom<pb::MemWalIndexDetails> for MemWalIndexDetails {
    type Error = Error;

    fn try_from(details: pb::MemWalIndexDetails) -> (r: Result<Self, Error>)
        ensures
            match r {
                Ok(d) => MemWalIndexDetailsView::from_pb(details@) == Ok::<
                    MemWalIndexDetailsView,
                    Error,
                >(d@),
                Err(e) => MemWalIndexDetailsView::from_pb(details@) == Err::<
                    MemWalIndexDetailsView,
                    Error,
                >(e),
            },
    {
        let merged_generations = match read_generations(details.merged_generations) {
            Ok(g) => g,
            Err(e) => {
                return Err(e);
            },
        };
        let index_catchup = match read_catchup(details.index_catchup) {
            Ok(p) => p,
            Err(e) => {
                return Err(e);
            },
        };
        Ok(
            MemWalIndexDetails {
                snapshot_ts_millis: details.snapshot_ts_millis,
                num_regions: details.num_regions,
                inline_snapshots: details.inline_snapshots,
                region_specs: read_specs(details.region_specs),
                maintained_indexes: details.maintained_indexes,
                merged_generations,
                index_catchup,
            },
        )
    }
}

impl vstd::std_specs::convert::TryFromSpecImpl<pb::MemWalIndexDetails> for MemWalIndexDetails {
    open spec fn obeys_try_from_spec() -> bool {
        false
    }

    open spec fn try_from_spec(details: pb::MemWalIndexDetails) -> Result<Self, Error> {
        arbitrary()
    }
}

/// The MemWAL index gives access to MemWAL configuration and state.
#[derive(Debug, Clone, PartialEq, Eq)]
pub struct MemWalIndex {
    pub details: MemWalIndexDetails,
}

/// Numbers that describe a MemWAL index.
#[derive(Debug, Clone, Copy, PartialEq, Eq, Structural)]
pub struct MemWalStatistics {
    pub num_regions: u32,
    pub num_merged_generations: usize,
    pub num_region_specs: usize,
    pub num_maintained_indexes: usize,
    pub num_index_catchup_entries: usize,
}

/// The caught up generation of a region, by the first entry of an index from `from` on.
pub open spec fn caught_up_generation(
    catchup: Seq<IndexCatchupProgress>,
    index_name: Seq<char>,
    region_id: Uuid,
    from: nat,
) -> Option<u64>
    decreases catchup.len() - from,
{
    if from >= catchup.len() {
        None
    } else if catchup[from as int].index_name@ == index_name {
        crate::mem_wal::generation::generation_for(
            catchup[from as int].caught_up_generations@,
            region_id,
            0,
        )
    } else {
        caught_up_generation(catchup, index_name, region_id, from + 1)
    }
}

impl MemWalIndex {
    pub fn new(details: MemWalIndexDetails) -> (r: Self)
        ensures
            r.details == details,
    {
        MemWalIndex { details }
    }

    /// The merged generation of a region.
    pub fn merged_generation_for_region(&self, region_id: &Uuid) -> (r: Option<u64>)
        ensures
            r == crate::mem_wal::generation::generation_for(
                self.details.merged_generations@,
                *region_id,
                0,
            ),
    {
        find_generation(&self.details.merged_generations, region_id)
    }

    /// The caught up generation of an index for a region, or none if the index is not tracked
    /// (assumed fully caught up).
    pub fn index_caught_up_generation(&self, index_name: &str, region_id: &Uuid) -> (r: Option<u64>)
        ensures
            r == caught_up_generation(self.details.index_catchup@, index_name@, *region_id, 0),
    {
        let n: usize = self.details.index_catchup.len();
        let mut i: usize = 0;
        while i < n
            invariant
                i <= n,
                n == self.details.index_catchup@.len(),
                caught_up_generation(self.details.index_catchup@, index_name@, *region_id, 0)
                    == caught_up_generation(
                    self.details.index_catchup@,
                    index_name@,
                    *region_id,
                    i as nat,
                ),
            decreases n - i,
        {
            let icp: &IndexCatchupProgress = &self.details.index_catchup[i];
            if same_text(&icp.index_name, index_name) {
                return icp.caught_up_generation_for_region(region_id);
            }
            i = i + 1;
        }
        None
    }

    /// Whether an index covers all merged data of a region.
    pub open spec fn caught_up(&self, index_name: Seq<char>, region_id: Uuid) -> bool {
        let merged = match crate::mem_wal::generation::generation_for(
            self.details.merged_generations@,
            region_id,
            0,
        ) {
            Some(g) => g,
            None => 0,
        };
        caught_up_generation(self.details.index_catchup@, index_name, region_id, 0) matches Some(g)
            ==> g >= merged
    }

    /// Whether an index is fully caught up for a region: it covers all merged data of the region.
    pub fn is_index_caught_up(&self, index_name: &str, region_id: &Uuid) -> (r: bool)
        ensures
            r == self.caught_up(index_name@, *region_id),
    {
        let merged_gen: u64 = match self.merged_generation_for_region(region_id) {
            Some(g) => g,
            None => 0,
        };
        match self.index_caught_up_generation(index_name, region_id) {
            Some(generation) => generation >= merged_gen,
            None => true,
        }
    }

    /// Numbers that describe the index.
    pub fn statistics(&self) -> (r: MemWalStatistics)
        ensures
            r.num_regions == self.details.num_regions,
            r.num_merged_generations == self.details.merged_generations@.len(),
            r.num_region_specs == self.details.region_specs@.len(),
            r.num_maintained_indexes == self.details.maintained_indexes@.len(),
            r.num_index_catchup_entries == self.details.index_catchup@.len(),
    {
        MemWalStatistics {
            num_regions: self.details.num_regions,
            num_merged_generations: self.details.merged_generations.len(),
            num_region_specs: self.details.region_specs.len(),
            num_maintained_indexes: self.details.maintained_indexes.len(),
            num_index_catchup_entries: self.details.index_catchup.len(),
        }
    }

    pub fn index_type(&self) -> (r: IndexType)
        ensures
            r == IndexType::MemWal,
    {
        IndexType::MemWal
    }

    /// The index covers no fragments.
    pub fn calculate_included_frags(&self) -> (r: RoaringBitmap)
        ensures
            crate::fragments::members(r) == Set::<u32>::empty(),
    {
        empty_bitmap()
    }

    /// An index that is not tracked, or that has no entry for a region, counts as caught up there.
    pub proof fn law_untracked_is_caught_up(self, index_name: Seq<char>, region_id: Uuid)
        requires
            (forall|i: int|
                0 <= i < self.details.index_catchup@.len() ==> (
                #[trigger] self.details.index_catchup@[i]).index_name@ != index_name) || (forall|
                i: int,
                j: int,
            |
                0 <= i < self.details.index_catchup@.len() && 0 <= j
                    < self.details.index_catchup@[i].caught_up_generations@.len() ==> (
                #[trigger] self.details.index_catchup@[i].caught_up_generations@[j]).region_id
                    != region_id),
        ensures
            self.caught_up(index_name, region_id),
    {
        self.lemma_untracked(index_name, region_id, 0);
    }

    proof fn lemma_untracked(self, index_name: Seq<char>, region_id: Uuid, from: nat)
        requires
            (forall|i: int|
                0 <= i < self.details.index_catchup@.len() ==> (
                #[trigger] self.details.index_catchup@[i]).index_name@ != index_name) || (forall|
                i: int,
                j: int,
            |
                0 <= i < self.details.index_catchup@.len() && 0 <= j
                    < self.details.index_catchup@[i].caught_up_generations@.len() ==> (
                #[trigger] self.details.index_catchup@[i].caught_up_generations@[j]).region_id
                    != region_id),
        ensures
            caught_up_generation(self.details.index_catchup@, index_name, region_id, from) is None,
        decreases self.details.index_catchup@.len() - from,
    {
        if from < self.details.index_catchup@.len() {
            if self.details.index_catchup@[from as int].index_name@ == index_name {
                lemma_no_generation(
                    self.details.index_catchup@[from as int].caught_up_generations@,
                    region_id,
                    0,
                );
            } else {
                self.lemma_untracked(index_name, region_id, from + 1);
            }
        }
    }
}

/// A region without an entry has no generation.
proof fn lemma_no_generation(generations: Seq<MergedGeneration>, region_id: Uuid, from: nat)
    requires
        forall|j: int|
            0 <= j < generations.len() ==> (#[trigger] generations[j]).region_id != region_id,
    ensures
        crate::mem_wal::generation::generation_for(generations, region_id, from) is None,
    decreases generations.len() - from,
{
    if from < generations.len() {
        lemma_no_generation(generations, region_id, from + 1);
    }
}

/// The caught up generation of an index for a region is that of the region's first entry within the
/// index's first entry.
pub proof fn law_first_progress_decides(
    catchup: Seq<IndexCatchupProgress>,
    index_name: Seq<char>,
    region_id: Uuid,
    i: int,
    j: int,
)
    requires
        0 <= i < catchup.len(),
        catchup[i].index_name@ == index_name,
        forall|k: int| 0 <= k < i ==> (#[trigger] catchup[k]).index_name@ != index_name,
        0 <= j < catchup[i].caught_up_generations@.len(),
        catchup[i].caught_up_generations@[j].region_id == region_id,
        forall|k: int|
            0 <= k < j ==> (#[trigger] catchup[i].caught_up_generations@[k]).region_id != region_id,
    ensures
        caught_up_generation(catchup, index_name, region_id, 0) == Some(
            catchup[i].caught_up_generations@[j].generation,
        ),
{
    lemma_first_progress(catchup, index_name, region_id, i, 0);
    crate::mem_wal::generation::law_first_entry_decides(
        catchup[i].caught_up_generations@,
        region_id,
        j,
    );
}

/// Entries before the first of an index do not count.
proof fn lemma_first_progress(
    catchup: Seq<IndexCatchupProgress>,
    index_name: Seq<char>,
    region_id: Uuid,
    i: int,
    from: nat,
)
    requires
        from <= i < catchup.len(),
        catchup[i].index_name@ == index_name,
        forall|k: int| 0 <= k < i ==> (#[trigger] catchup[k]).index_name@ != index_name,
    ensures
        caught_up_generation(catchup, index_name, region_id, from)
            == crate::mem_wal::generation::generation_for(
            catchup[i].caught_up_generations@,
            region_id,
            0,
        ),
    decreases i - from,
{
    if from < i {
        lemma_first_progress(catchup, index_name, region_id, i, from + 1);
    }
}

impl MemWalIndex {
    /// An index whose first entry holds a generation for a region that was merged is caught up
    /// there exactly where that generation is not behind the merged one.
    pub proof fn law_caught_up_is_not_behind(
        self,
        index_name: Seq<char>,
        region_id: Uuid,
        i: int,
        j: int,
        m: int,
    )
        requires
            0 <= i < self.details.index_catchup@.len(),
            self.details.index_catchup@[i].index_name@ == index_name,
            forall|k: int|
                0 <= k < i ==> (#[trigger] self.details.index_catchup@[k]).index_name@ != index_name,
            0 <= j < self.details.index_catchup@[i].caught_up_generations@.len(),
            self.details.index_catchup@[i].caught_up_generations@[j].region_id == region_id,
            forall|k: int|
                0 <= k < j ==> (
                #[trigger] self.details.index_catchup@[i].caught_up_generations@[k]).region_id
                    != region_id,
            0 <= m < self.details.merged_generations@.len(),
            self.details.merged_generations@[m].region_id == region_id,
            forall|k: int|
                0 <= k < m ==> (#[trigger] self.details.merged_generations@[k]).region_id
                    != region_id,
        ensures
            self.caught_up(index_name, region_id) <==> self.details.merged_generations@[m].generation
                <= self.details.index_catchup@[i].caught_up_generations@[j].generation,
    {
        law_first_progress_decides(self.details.index_catchup@, index_name, region_id, i, j);
        crate::mem_wal::generation::law_first_entry_decides(
            self.details.merged_generations@,
            region_id,
            m,
        );
    }

    /// An index is caught up with a region of which nothing was merged.
    pub proof fn law_nothing_merged_is_caught_up(self, index_name: Seq<char>, region_id: Uuid)
        requires
            forall|k: int|
                0 <= k < self.details.merged_generations@.len() ==> (
                #[trigger] self.details.merged_generations@[k]).region_id != region_id,
        ensures
            self.caught_up(index_name, region_id),
    {
        lemma_no_generation(self.details.merged_generations@, region_id, 0);
    }

    /// An index that is caught up stays so when its own generation for the region rises and the
    /// merged generation does not; one that is behind stays behind when its own falls and the
    /// merged one does not.
    pub proof fn law_catching_up_is_monotone(
        self,
        later: Self,
        index_name: Seq<char>,
        region_id: Uuid,
        i: int,
        j: int,
        m: int,
    )
        requires
            0 <= i < self.details.index_catchup@.len(),
            self.details.index_catchup@[i].index_name@ == index_name,
            forall|k: int|
                0 <= k < i ==> (#[trigger] self.details.index_catchup@[k]).index_name@ != index_name,
            0 <= j < self.details.index_catchup@[i].caught_up_generations@.len(),
            self.details.index_catchup@[i].caught_up_generations@[j].region_id == region_id,
            forall|k: int|
                0 <= k < j ==> (
                #[trigger] self.details.index_catchup@[i].caught_up_generations@[k]).region_id
                    != region_id,
            0 <= m < self.details.merged_generations@.len(),
            self.details.merged_generations@[m].region_id == region_id,
            forall|k: int|
                0 <= k < m ==> (#[trigger] self.details.merged_generations@[k]).region_id
                    != region_id,
            i < later.details.index_catchup@.len(),
            later.details.index_catchup@[i].index_name@ == index_name,
            forall|k: int|
                0 <= k < i ==> (#[trigger] later.details.index_catchup@[k]).index_name@
                    != index_name,
            j < later.details.index_catchup@[i].caught_up_generations@.len(),
            later.details.index_catchup@[i].caught_up_generations@[j].region_id == region_id,
            forall|k: int|
                0 <= k < j ==> (
                #[trigger] later.details.index_catchup@[i].caught_up_generations@[k]).region_id
                    != region_id,
            m < later.details.merged_generations@.len(),
            later.details.merged_generations@[m].region_id == region_id,
            forall|k: int|
                0 <= k < m ==> (#[trigger] later.details.merged_generations@[k]).region_id
                    != region_id,
            self.details.index_catchup@[i].caught_up_generations@[j].generation
                <= later.details.index_catchup@[i].caught_up_generations@[j].generation,
            later.details.merged_generations@[m].generation
                <= self.details.merged_generations@[m].generation,
        ensures
            self.caught_up(index_name, region_id) ==> later.caught_up(index_name, region_id),
    {
        self.law_caught_up_is_not_behind(index_name, region_id, i, j, m);
        later.law_caught_up_is_not_behind(index_name, region_id, i, j, m);
    }
}

/// Messages of catch-up progresses are read one for one; the first that cannot be read is the
/// failure.
pub proof fn law_progresses_are_read_one_for_one(
    messages: Seq<crate::mem_wal::pb::IndexCatchupProgressView>,
)
    ensures
        match catchup_from_pb(messages) {
            Ok(progresses) => progresses.len() == messages.len() && forall|i: int|
                0 <= i < messages.len()
                    ==> crate::mem_wal::generation::IndexCatchupProgressView::from_pb(
                    #[trigger] messages[i],
                ) == Ok::<crate::mem_wal::generation::IndexCatchupProgressView, Error>(
                    progresses[i],
                ),
            Err(e) => exists|n: int|
                0 <= n < messages.len()
                    && crate::mem_wal::generation::IndexCatchupProgressView::from_pb(
                    #[trigger] messages[n],
                ) == Err::<crate::mem_wal::generation::IndexCatchupProgressView, Error>(e)
                    && forall|i: int|
                    0 <= i < n ==> crate::mem_wal::generation::IndexCatchupProgressView::from_pb(
                        #[trigger] messages[i],
                    ) is Ok,
        },
    decreases messages.len(),
{
    if messages.len() > 0 {
        let before = messages.drop_last();
        law_progresses_are_read_one_for_one(before);
        match catchup_from_pb(before) {
            Ok(progresses) => {
                assert forall|i: int|
                    0 <= i < before.len() implies crate::mem_wal::generation::IndexCatchupProgressView::from_pb(
                #[trigger] messages[i]) is Ok by {
                    assert(before[i] == messages[i]);
                }
                if catchup_from_pb(messages) is Ok {
                    assert forall|i: int|
                        0 <= i < messages.len() implies crate::mem_wal::generation::IndexCatchupProgressView::from_pb(
                    #[trigger] messages[i]) == Ok::<
                        crate::mem_wal::generation::IndexCatchupProgressView,
                        Error,
                    >(catchup_from_pb(messages)->Ok_0[i]) by {
                        if i < before.len() {
                            assert(before[i] == messages[i]);
                        }
                    }
                } else {
                    assert(messages[messages.len() - 1] == messages.last());
                }
            },
            Err(e) => {
                let n = choose|n: int|
                    0 <= n < before.len()
                        && crate::mem_wal::generation::IndexCatchupProgressView::from_pb(
                        #[trigger] before[n],
                    ) == Err::<crate::mem_wal::generation::IndexCatchupProgressView, Error>(e)
                        && forall|i: int|
                        0 <= i < n ==> crate::mem_wal::generation::IndexCatchupProgressView::from_pb(
                            #[trigger] before[i],
                        ) is Ok;
                assert(messages[n] == before[n]);
                assert forall|i: int|
                    0 <= i < n implies crate::mem_wal::generation::IndexCatchupProgressView::from_pb(
                #[trigger] messages[i]) is Ok by {
                    assert(before[i] == messages[i]);
                }
            },
        }
    }
}

/// A message that says what index details do holds their fields, each under its own name and in the
/// same order.
pub proof fn law_written_details(details: MemWalIndexDetails, message: pb::MemWalIndexDetails)
    requires
        message@ == details@.to_pb(),
    ensures
        message.snapshot_ts_millis == details.snapshot_ts_millis,
        message.num_regions == details.num_regions,
        message.inline_snapshots is Some <==> details.inline_snapshots is Some,
        message.inline_snapshots is Some ==> message.inline_snapshots->0@
            == details.inline_snapshots->0@,
        message.region_specs@.len() == details.region_specs@.len(),
        forall|i: int|
            0 <= i < details.region_specs@.len() ==> (#[trigger] message.region_specs@[i])@
                == details.region_specs@[i]@,
        message.maintained_indexes@.len() == details.maintained_indexes@.len(),
        forall|i: int|
            0 <= i < details.maintained_indexes@.len() ==> (
            #[trigger] message.maintained_indexes@[i])@ == details.maintained_indexes@[i]@,
        message.merged_generations@.len() == details.merged_generations@.len(),
        forall|i: int|
            0 <= i < details.merged_generations@.len() ==> (
            #[trigger] message.merged_generations@[i])@ == details.merged_generations@[i].to_pb(),
        message.index_catchup@.len() == details.index_catchup@.len(),
        forall|i: int|
            0 <= i < details.index_catchup@.len() ==> (#[trigger] message.index_catchup@[i])@
                == details.index_catchup@[i]@.to_pb(),
{
    let m = message@;
    let d = details@;
    assert(m.region_specs.len() == d.region_specs.len());
    assert(m.maintained_indexes.len() == d.maintained_indexes.len());
    assert(m.merged_generations.len() == d.merged_generations.len());
    assert(m.index_catchup.len() == d.index_catchup.len());
    assert forall|i: int| 0 <= i < details.region_specs@.len() implies (
    #[trigger] message.region_specs@[i])@ == details.region_specs@[i]@ by {
        assert(m.region_specs[i] == d.region_specs[i]);
    }
    assert forall|i: int| 0 <= i < details.maintained_indexes@.len() implies (
    #[trigger] message.maintained_indexes@[i])@ == details.maintained_indexes@[i]@ by {
        assert(m.maintained_indexes[i] == d.maintained_indexes[i]);
    }
    assert forall|i: int| 0 <= i < details.merged_generations@.len() implies (
    #[trigger] message.merged_generations@[i])@ == details.merged_generations@[i].to_pb() by {
        assert(m.merged_generations[i] == d.merged_generations[i].to_pb());
    }
    assert forall|i: int| 0 <= i < details.index_catchup@.len() implies (
    #[trigger] message.index_catchup@[i])@ == details.index_catchup@[i]@.to_pb() by {
        assert(m.index_catchup[i] == d.index_catchup[i].to_pb());
    }
}

/// Index details that a message stands for have the message's fields, each under its own name and
/// in the same order, with each generation and progress as it is read alone.
pub proof fn law_read_details(message: pb::MemWalIndexDetails, details: MemWalIndexDetails)
    requires
        MemWalIndexDetailsView::from_pb(message@) == Ok::<MemWalIndexDetailsView, Error>(details@),
    ensures
        message.snapshot_ts_millis == details.snapshot_ts_millis,
        message.num_regions == details.num_regions,
        message.inline_snapshots is Some <==> details.inline_snapshots is Some,
        message.inline_snapshots is Some ==> message.inline_snapshots->0@
            == details.inline_snapshots->0@,
        message.region_specs@.len() == details.region_specs@.len(),
        forall|i: int|
            0 <= i < details.region_specs@.len() ==> (#[trigger] message.region_specs@[i])@
                == details.region_specs@[i]@,
        message.maintained_indexes@.len() == details.maintained_indexes@.len(),
        forall|i: int|
            0 <= i < details.maintained_indexes@.len() ==> (
            #[trigger] message.maintained_indexes@[i])@ == details.maintained_indexes@[i]@,
        message.merged_generations@.len() == details.merged_generations@.len(),
        forall|i: int|
            0 <= i < details.merged_generations@.len() ==> MergedGeneration::from_pb(
                (#[trigger] message.merged_generations@[i])@,
            ) == Ok::<MergedGeneration, Error>(details.merged_generations@[i]),
        message.index_catchup@.len() == details.index_catchup@.len(),
        forall|i: int|
            0 <= i < details.index_catchup@.len()
                ==> crate::mem_wal::generation::IndexCatchupProgressView::from_pb(
                (#[trigger] message.index_catchup@[i])@,
            ) == Ok::<crate::mem_wal::generation::IndexCatchupProgressView, Error>(
                details.index_catchup@[i]@,
            ),
{
    let m = message@;
    let d = details@;
    crate::mem_wal::generation::law_generations_are_read_one_for_one(m.merged_generations);
    law_progresses_are_read_one_for_one(m.index_catchup);
    assert(m.region_specs.len() == d.region_specs.len());
    assert(m.maintained_indexes.len() == d.maintained_indexes.len());
    assert(m.index_catchup.len() == d.index_catchup.len());
    assert forall|i: int| 0 <= i < details.region_specs@.len() implies (
    #[trigger] message.region_specs@[i])@ == details.region_specs@[i]@ by {
        assert(m.region_specs[i] == d.region_specs[i]);
    }
    assert forall|i: int| 0 <= i < details.maintained_indexes@.len() implies (
    #[trigger] message.maintained_indexes@[i])@ == details.maintained_indexes@[i]@ by {
        assert(m.maintained_indexes[i] == d.maintained_indexes[i]);
    }
    assert forall|i: int| 0 <= i < details.merged_generations@.len() implies MergedGeneration::from_pb(
        (#[trigger] message.merged_generations@[i])@,
    ) == Ok::<MergedGeneration, Error>(details.merged_generations@[i]) by {
        assert(m.merged_generations[i] == message.merged_generations@[i]@);
    }
    assert forall|i: int| 0 <= i < details.index_catchup@.len() implies crate::mem_wal::generation::IndexCatchupProgressView::from_pb(
        (#[trigger] message.index_catchup@[i])@,
    ) == Ok::<crate::mem_wal::generation::IndexCatchupProgressView, Error>(
        details.index_catchup@[i]@,
    ) by {
        assert(m.index_catchup[i] == message.index_catchup@[i]@);
        assert(d.index_catchup[i] == details.index_catchup@[i]@);
    }
}

/// Index details can be read exactly where each of their generations and progresses can.
pub proof fn law_readable_details(message: pb::MemWalIndexDetails)
    ensures
        MemWalIndexDetailsView::from_pb(message@) is Ok <==> (forall|i: int|
            0 <= i < message.merged_generations@.len() ==> MergedGeneration::from_pb(
                (#[trigger] message.merged_generations@[i])@,
            ) is Ok) && (forall|i: int|
            0 <= i < message.index_catchup@.len()
                ==> crate::mem_wal::generation::IndexCatchupProgressView::from_pb(
                (#[trigger] message.index_catchup@[i])@,
            ) is Ok),
{
    let m = message@;
    crate::mem_wal::generation::law_generations_are_read_one_for_one(m.merged_generations);
    law_progresses_are_read_one_for_one(m.index_catchup);
    assert forall|i: int| 0 <= i < m.merged_generations.len() implies #[trigger] m.merged_generations[i]
        == message.merged_generations@[i]@ by {}
    assert forall|i: int| 0 <= i < m.index_catchup.len() implies #[trigger] m.index_catchup[i]
        == message.index_catchup@[i]@ by {}
    if MemWalIndexDetailsView::from_pb(m) is Ok {
        assert forall|i: int| 0 <= i < message.merged_generations@.len() implies MergedGeneration::from_pb(
            (#[trigger] message.merged_generations@[i])@,
        ) is Ok by {
            assert(m.merged_generations[i] == message.merged_generations@[i]@);
        }
        assert forall|i: int|
            0 <= i < message.index_catchup@.len() implies crate::mem_wal::generation::IndexCatchupProgressView::from_pb(
        (#[trigger] message.index_catchup@[i])@) is Ok by {
            assert(m.index_catchup[i] == message.index_catchup@[i]@);
        }
    }
}

} // verus!
