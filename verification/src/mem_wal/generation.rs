//! Generations of a region: flushed, merged, and covered by an index.
use vstd::prelude::*;

use crate::error::{Error, RegionIdOwner};
use crate::mem_wal::pb;
use crate::mem_wal::uuid::Uuid;

verus! {

/// A flushed MemTable generation and its storage location.
#[derive(Debug, Clone, PartialEq, Eq)]
pub struct FlushedGeneration {
    pub generation: u64,
    pub path: String,
}

impl View for FlushedGeneration {
    type V = crate::mem_wal::pb::FlushedGenerationView;

    open spec fn view(&self) -> crate::mem_wal::pb::FlushedGenerationView {
        crate::mem_wal::pb::FlushedGenerationView { generation: self.generation, path: self.path@ }
    }
}

impl From<&FlushedGeneration> for pb::FlushedGeneration {
    fn from(fg: &FlushedGeneration) -> (r: Self) {
        pb::FlushedGeneration { generation: fg.generation, path: fg.path.clone() }
    }
}

impl vstd::std_specs::convert::FromSpecImpl<&FlushedGeneration> for pb::FlushedGeneration {
    open spec fn obeys_from_spec() -> bool {
        true
    }

    open spec fn from_spec(fg: &FlushedGeneration) -> Self {
        pb::FlushedGeneration { generation: fg.generation, path: fg.path }
    }
}

impl From<pb::FlushedGeneration> for FlushedGeneration {
    fn from(fg: pb::FlushedGeneration) -> (r: Self) {
        FlushedGeneration { generation: fg.generation, path: fg.path }
    }
}

impl vstd::std_specs::convert::FromSpecImpl<pb::FlushedGeneration> for FlushedGeneration {
    open spec fn obeys_from_spec() -> bool {
        true
    }

    open spec fn from_spec(fg: pb::FlushedGeneration) -> Self {
        FlushedGeneration { generation: fg.generation, path: fg.path }
    }
}

/// A flushed generation comes back from its message.
pub proof fn law_flushed_round_trip(fg: FlushedGeneration)
    ensures
        <FlushedGeneration as vstd::std_specs::convert::FromSpec<pb::FlushedGeneration>>::from_spec(
            <pb::FlushedGeneration as vstd::std_specs::convert::FromSpec<
                &FlushedGeneration,
            >>::from_spec(&fg),
        ) == fg,
{
}

/// A region's merged generation.
#[derive(Debug, Clone, Copy, PartialEq, Eq, Structural, PartialOrd, Hash)]
pub struct MergedGeneration {
    pub region_id: Uuid,
    pub generation: u64,
}

impl MergedGeneration {
    pub fn new(region_id: Uuid, generation: u64) -> (r: Self)
        ensures
            r.region_id == region_id,
            r.generation == generation,
    {
        MergedGeneration { region_id, generation }
    }

    /// The message for this generation.
    pub open spec fn to_pb(self) -> crate::mem_wal::pb::MergedGenerationView {
        crate::mem_wal::pb::MergedGenerationView {
            region_id: Some(self.region_id.spec_bytes()),
            generation: self.generation,
        }
    }

    /// The generation that a message stands for.
    pub open spec fn from_pb(mg: crate::mem_wal::pb::MergedGenerationView) -> Result<Self, Error> {
        match region_id_of(mg.region_id, RegionIdOwner::MergedGeneration) {
            Err(e) => Err(e),
            Ok(region_id) => Ok(MergedGeneration { region_id, generation: mg.generation }),
        }
    }

    /// A merged generation comes back from its message.
    pub proof fn law_pb_round_trip(self)
        ensures
            MergedGeneration::from_pb(self.to_pb()) == Ok::<MergedGeneration, Error>(self),
    {
        self.region_id.law_bytes_round_trip();
    }
}

/// The region id of a message.
pub open spec fn region_id_of(bytes: Option<Seq<u8>>, owner: RegionIdOwner) -> Result<Uuid, Error> {
    match bytes {
        None => Err(Error::MissingRegionId(owner)),
        Some(b) => if b.len() == 16 {
            Ok(Uuid { value: crate::mem_wal::uuid::be_value(b) as u128 })
        } else {
            Err(Error::MalformedUuid)
        },
    }
}

/// Reads the region id of a message.
fn read_region_id(id: &Option<pb::Uuid>, owner: RegionIdOwner) -> (r: Result<Uuid, Error>)
    ensures
        r == region_id_of(
            match *id {
                Some(u) => Some(u.uuid@),
                None => None,
            },
            owner,
        ),
{
    match id {
        None => Err(Error::MissingRegionId(owner)),
        Some(u) => match Uuid::from_slice(u.uuid.as_slice()) {
            Some(region_id) => Ok(region_id),
            None => Err(Error::MalformedUuid),
        },
    }
}

impl From<&MergedGeneration> for pb::MergedGeneration {
    fn from(mg: &MergedGeneration) -> (r: Self)
        ensures
            r@ == mg.to_pb(),
    {
        pb::MergedGeneration {
            region_id: Some(pb::Uuid { uuid: mg.region_id.to_bytes() }),
            generation: mg.generation,
        }
    }
}

impl vstd::std_specs::convert::FromSpecImpl<&MergedGeneration> for pb::MergedGeneration {
    open spec fn obeys_from_spec() -> bool {
        false
    }

    open spec fn from_spec(mg: &MergedGeneration) -> Self {
        arbitrary()
    }
}

impl TryFrom<pb::MergedGeneration> for MergedGeneration {
    type Error = Error;

    fn try_from(mg: pb::MergedGeneration) -> (r: Result<Self, Error>) {
        match read_region_id(&mg.region_id, RegionIdOwner::MergedGeneration) {
            Err(e) => Err(e),
            Ok(region_id) => Ok(MergedGeneration { region_id, generation: mg.generation }),
        }
    }
}

impl vstd::std_specs::convert::TryFromSpecImpl<pb::MergedGeneration> for MergedGeneration {
    open spec fn obeys_try_from_spec() -> bool {
        true
    }

    open spec fn try_from_spec(mg: pb::MergedGeneration) -> Result<Self, Error> {
        MergedGeneration::from_pb(mg@)
    }
}

/// The messages of generations.
pub open spec fn generations_to_pb(generations: Seq<MergedGeneration>) -> Seq<
    crate::mem_wal::pb::MergedGenerationView,
> {
    generations.map_values(|g: MergedGeneration| g.to_pb())
}

/// The generations that messages stand for, or the first failure.
pub open spec fn generations_from_pb(
    messages: Seq<crate::mem_wal::pb::MergedGenerationView>,
) -> Result<Seq<MergedGeneration>, Error>
    decreases messages.len(),
{
    if messages.len() == 0 {
        Ok(Seq::empty())
    } else {
        match generations_from_pb(messages.drop_last()) {
            Err(e) => Err(e),
            Ok(generations) => match MergedGeneration::from_pb(messages.last()) {
                Err(e) => Err(e),
                Ok(g) => Ok(generations.push(g)),
            },
        }
    }
}

/// A failure among the first messages is a failure of all of them.
proof fn lemma_first_bad_generation(
    messages: Seq<crate::mem_wal::pb::MergedGenerationView>,
    n: nat,
    e: Error,
)
    requires
        n <= messages.len(),
        generations_from_pb(messages.take(n as int)) == Err::<Seq<MergedGeneration>, Error>(e),
    ensures
        generations_from_pb(messages) == Err::<Seq<MergedGeneration>, Error>(e),
    decreases messages.len(),
{
    if n == messages.len() {
        assert(messages.take(n as int) =~= messages);
    } else {
        assert(messages.drop_last().take(n as int) =~= messages.take(n as int));
        lemma_first_bad_generation(messages.drop_last(), n, e);
    }
}

/// Merged generations come back from their messages.
pub proof fn law_generations_round_trip(generations: Seq<MergedGeneration>)
    ensures
        generations_from_pb(generations_to_pb(generations)) == Ok::<Seq<MergedGeneration>, Error>(
            generations,
        ),
    decreases generations.len(),
{
    if generations.len() > 0 {
        law_generations_round_trip(generations.drop_last());
        generations.last().law_pb_round_trip();
        assert(generations_to_pb(generations).drop_last() =~= generations_to_pb(
            generations.drop_last(),
        ));
        assert(generations.drop_last().push(generations.last()) =~= generations);
    } else {
        assert(generations =~= Seq::empty());
    }
}

/// Writes the messages of generations.
pub fn write_generations(generations: &Vec<MergedGeneration>) -> (r: Vec<pb::MergedGeneration>)
    ensures
        r@.map_values(|g: pb::MergedGeneration| g@) == generations_to_pb(generations@),
{
    let mut messages: Vec<pb::MergedGeneration> = Vec::with_capacity(generations.len());
    let mut i: usize = 0;
    while i < generations.len()
        invariant
            i <= generations@.len(),
            messages@.len() == i,
            forall|j: int| 0 <= j < i ==> (#[trigger] messages@[j])@ == generations@[j].to_pb(),
        decreases generations@.len() - i,
    {
        messages.push(pb::MergedGeneration::from(&generations[i]));
        i = i + 1;
    }
    assert(messages@.map_values(|g: pb::MergedGeneration| g@) =~= generations_to_pb(generations@));
    messages
}

/// Reads generations from their messages.
pub fn read_generations(messages: Vec<pb::MergedGeneration>) -> (r: Result<
    Vec<MergedGeneration>,
    Error,
>)
    ensures
        match r {
            Ok(generations) => generations_from_pb(
                messages@.map_values(|g: pb::MergedGeneration| g@),
            ) == Ok::<Seq<MergedGeneration>, Error>(generations@),
            Err(e) => generations_from_pb(messages@.map_values(|g: pb::MergedGeneration| g@))
                == Err::<Seq<MergedGeneration>, Error>(e),
        },
{
    let ghost all = messages@.map_values(|g: pb::MergedGeneration| g@);
    let ghost given = messages@;
    let mut generations: Vec<MergedGeneration> = Vec::with_capacity(messages.len());
    proof {
        assert(all.take(0) =~= Seq::empty());
    }
    for mg in it: messages
        invariant
            it.seq() == given,
            all == given.map_values(|g: pb::MergedGeneration| g@),
            generations_from_pb(all.take(it.index() as int)) == Ok::<Seq<MergedGeneration>, Error>(
                generations@,
            ),
    {
        let ghost n = it.index() as int;
        proof {
            assert(all.take(n + 1).drop_last() =~= all.take(n));
            assert(all.take(n + 1).last() == mg@);
        }
        match MergedGeneration::try_from(mg) {
            Ok(g) => {
                generations.push(g);
            },
            Err(e) => {
                proof {
                    lemma_first_bad_generation(all, (n + 1) as nat, e);
                }
                return Err(e);
            },
        }
    }
    assert(all.take(all.len() as int) =~= all);
    Ok(generations)
}

/// The generation of the first entry, from `from` on, of a region.
pub open spec fn generation_for(
    generations: Seq<MergedGeneration>,
    region_id: Uuid,
    from: nat,
) -> Option<u64>
    decreases generations.len() - from,
{
    if from >= generations.len() {
        None
    } else if generations[from as int].region_id == region_id {
        Some(generations[from as int].generation)
    } else {
        generation_for(generations, region_id, from + 1)
    }
}

/// The generation of the first entry of a region.
pub fn find_generation(generations: &Vec<MergedGeneration>, region_id: &Uuid) -> (r: Option<u64>)
    ensures
        r == generation_for(generations@, *region_id, 0),
{
    let mut i: usize = 0;
    while i < generations.len()
        invariant
            i <= generations@.len(),
            generation_for(generations@, *region_id, 0) == generation_for(
                generations@,
                *region_id,
                i as nat,
            ),
        decreases generations@.len() - i,
    {
        if generations[i].region_id == *region_id {
            return Some(generations[i].generation);
        }
        i = i + 1;
    }
    None
}

/// Tracks which merged generation a base table index has been rebuilt to cover.
///
/// Used to determine whether to read from flushed MemTable indexes or the base table.
#[derive(Debug, Clone, PartialEq, Eq)]
pub struct IndexCatchupProgress {
    pub index_name: String,
    pub caught_up_generations: Vec<MergedGeneration>,
}

/// What a catch-up progress says.
#[verifier::ext_equal]
pub struct IndexCatchupProgressView {
    pub index_name: Seq<char>,
    pub caught_up_generations: Seq<MergedGeneration>,
}

impl View for IndexCatchupProgress {
    type V = IndexCatchupProgressView;

    open spec fn view(&self) -> IndexCatchupProgressView {
        IndexCatchupProgressView {
            index_name: self.index_name@,
            caught_up_generations: self.caught_up_generations@,
        }
    }
}

impl Default for IndexCatchupProgress {
    fn default() -> (r: Self)
        ensures
            r.index_name@ == Seq::<char>::empty(),
            r.caught_up_generations@ == Seq::<MergedGeneration>::empty(),
    {
        IndexCatchupProgress { index_name: String::new(), caught_up_generations: Vec::new() }
    }
}

impl IndexCatchupProgress {
    pub fn new(index_name: String, caught_up_generations: Vec<MergedGeneration>) -> (r: Self)
        ensures
            r.index_name == index_name,
            r.caught_up_generations == caught_up_generations,
    {
        IndexCatchupProgress { index_name, caught_up_generations }
    }

    /// The caught up generation of a region, or none if the region is not present (assumed fully
    /// caught up).
    pub fn caught_up_generation_for_region(&self, region_id: &Uuid) -> (r: Option<u64>)
        ensures
            r == generation_for(self.caught_up_generations@, *region_id, 0),
    {
        find_generation(&self.caught_up_generations, region_id)
    }
}

impl IndexCatchupProgressView {
    /// The message for this progress.
    pub open spec fn to_pb(self) -> crate::mem_wal::pb::IndexCatchupProgressView {
        crate::mem_wal::pb::IndexCatchupProgressView {
            index_name: self.index_name,
            caught_up_generations: generations_to_pb(self.caught_up_generations),
        }
    }

    /// The progress that a message stands for.
    pub open spec fn from_pb(icp: crate::mem_wal::pb::IndexCatchupProgressView) -> Result<
        Self,
        Error,
    > {
        match generations_from_pb(icp.caught_up_generations) {
            Err(e) => Err(e),
            Ok(caught_up_generations) => Ok(
                IndexCatchupProgressView { index_name: icp.index_name, caught_up_generations },
            ),
        }
    }

    /// A progress comes back from its message.
    pub proof fn law_pb_round_trip(self)
        ensures
            IndexCatchupProgressView::from_pb(self.to_pb()) == Ok::<
                IndexCatchupProgressView,
                Error,
            >(self),
    {
        law_generations_round_trip(self.caught_up_generations);
    }
}

impl From<&IndexCatchupProgress> for pb::IndexCatchupProgress {
    fn from(icp: &IndexCatchupProgress) -> (r: Self)
        ensures
            r@ == icp@.to_pb(),
    {
        pb::IndexCatchupProgress {
            index_name: icp.index_name.clone(),
            caught_up_generations: write_generations(&icp.caught_up_generations),
        }
    }
}

impl vstd::std_specs::convert::FromSpecImpl<&IndexCatchupProgress> for pb::IndexCatchupProgress {
    open spec fn obeys_from_spec() -> bool {
        false
    }

    open spec fn from_spec(icp: &IndexCatchupProgress) -> Self {
        arbitrary()
    }
}

impl TryFrom<pb::IndexCatchupProgress> for IndexCatchupProgress {
    type Error = Error;

    fn try_from(icp: pb::IndexCatchupProgress) -> (r: Result<Self, Error>)
        ensures
            match r {
                Ok(progress) => IndexCatchupProgressView::from_pb(icp@) == Ok::<
                    IndexCatchupProgressView,
                    Error,
                >(progress@),
                Err(e) => IndexCatchupProgressView::from_pb(icp@) == Err::<
                    IndexCatchupProgressView,
                    Error,
                >(e),
            },
    {
        match read_generations(icp.caught_up_generations) {
            Err(e) => Err(e),
            Ok(caught_up_generations) => Ok(
                IndexCatchupProgress { index_name: icp.index_name, caught_up_generations },
            ),
        }
    }
}

impl vstd::std_specs::convert::TryFromSpecImpl<pb::IndexCatchupProgress> for IndexCatchupProgress {
    open spec fn obeys_try_from_spec() -> bool {
        false
    }

    open spec fn try_from_spec(icp: pb::IndexCatchupProgress) -> Result<Self, Error> {
        arbitrary()
    }
}

/// Region manifest containing epoch-based fencing and WAL state.
///
/// Each region has exactly one active writer at any time.
#[derive(Debug, Clone, PartialEq, Eq)]
pub struct RegionManifest {
    pub region_id: Uuid,
    pub version: u64,
    pub region_spec_id: u32,
    pub writer_epoch: u64,
    /// The most recent WAL entry position (0-based) flushed to a MemTable. Recovery replays from
    /// the position after it.
    pub replay_after_wal_entry_position: u64,
    /// The most recent WAL entry position (0-based) when the manifest was updated.
    pub wal_entry_position_last_seen: u64,
    pub current_generation: u64,
    pub flushed_generations: Vec<FlushedGeneration>,
}

/// What a region manifest says.
#[verifier::ext_equal]
pub struct RegionManifestView {
    pub region_id: Uuid,
    pub version: u64,
    pub region_spec_id: u32,
    pub writer_epoch: u64,
    pub replay_after_wal_entry_position: u64,
    pub wal_entry_position_last_seen: u64,
    pub current_generation: u64,
    pub flushed_generations: Seq<crate::mem_wal::pb::FlushedGenerationView>,
}

impl View for RegionManifest {
    type V = RegionManifestView;

    open spec fn view(&self) -> RegionManifestView {
        RegionManifestView {
            region_id: self.region_id,
            version: self.version,
            region_spec_id: self.region_spec_id,
            writer_epoch: self.writer_epoch,
            replay_after_wal_entry_position: self.replay_after_wal_entry_position,
            wal_entry_position_last_seen: self.wal_entry_position_last_seen,
            current_generation: self.current_generation,
            flushed_generations: self.flushed_generations@.map_values(|g: FlushedGeneration| g@),
        }
    }
}

impl RegionManifestView {
    /// The message for this manifest.
    pub open spec fn to_pb(self) -> crate::mem_wal::pb::RegionManifestView {
        crate::mem_wal::pb::RegionManifestView {
            region_id: Some(self.region_id.spec_bytes()),
            version: self.version,
            region_spec_id: self.region_spec_id,
            writer_epoch: self.writer_epoch,
            replay_after_wal_entry_position: self.replay_after_wal_entry_position,
            wal_entry_position_last_seen: self.wal_entry_position_last_seen,
            current_generation: self.current_generation,
            flushed_generations: self.flushed_generations,
        }
    }

    /// The manifest that a message stands for.
    pub open spec fn from_pb(rm: crate::mem_wal::pb::RegionManifestView) -> Result<Self, Error> {
        match region_id_of(rm.region_id, RegionIdOwner::RegionManifest) {
            Err(e) => Err(e),
            Ok(region_id) => Ok(
                RegionManifestView {
                    region_id,
                    version: rm.version,
                    region_spec_id: rm.region_spec_id,
                    writer_epoch: rm.writer_epoch,
                    replay_after_wal_entry_position: rm.replay_after_wal_entry_position,
                    wal_entry_position_last_seen: rm.wal_entry_position_last_seen,
                    current_generation: rm.current_generation,
                    flushed_generations: rm.flushed_generations,
                },
            ),
        }
    }

    /// A manifest comes back from its message.
    pub proof fn law_pb_round_trip(self)
        ensures
            RegionManifestView::from_pb(self.to_pb()) == Ok::<RegionManifestView, Error>(self),
    {
        self.region_id.law_bytes_round_trip();
    }
}

impl From<&RegionManifest> for pb::RegionManifest {
    fn from(rm: &RegionManifest) -> (r: Self)
        ensures
            r@ == rm@.to_pb(),
    {
        let mut flushed_generations: Vec<pb::FlushedGeneration> = Vec::with_capacity(
            rm.flushed_generations.len(),
        );
        let mut i: usize = 0;
        while i < rm.flushed_generations.len()
            invariant
                i <= rm.flushed_generations@.len(),
                flushed_generations@.len() == i,
                forall|j: int|
                    0 <= j < i ==> (#[trigger] flushed_generations@[j])@
                        == rm.flushed_generations@[j]@,
            decreases rm.flushed_generations@.len() - i,
        {
            flushed_generations.push(pb::FlushedGeneration::from(&rm.flushed_generations[i]));
            i = i + 1;
        }
        assert(flushed_generations@.map_values(|g: pb::FlushedGeneration| g@)
            =~= rm@.flushed_generations);
        pb::RegionManifest {
            region_id: Some(pb::Uuid { uuid: rm.region_id.to_bytes() }),
            version: rm.version,
            region_spec_id: rm.region_spec_id,
            writer_epoch: rm.writer_epoch,
            replay_after_wal_entry_position: rm.replay_after_wal_entry_position,
            wal_entry_position_last_seen: rm.wal_entry_position_last_seen,
            current_generation: rm.current_generation,
            flushed_generations,
        }
    }
}

impl vstd::std_specs::convert::FromSpecImpl<&RegionManifest> for pb::RegionManifest {
    open spec fn obeys_from_spec() -> bool {
        false
    }

    open spec fn from_spec(rm: &RegionManifest) -> Self {
        arbitrary()
    }
}

impl TryFrom<pb::RegionManifest> for RegionManifest {
    type Error = Error;

    fn try_from(rm: pb::RegionManifest) -> (r: Result<Self, Error>)
        ensures
            match r {
                Ok(manifest) => RegionManifestView::from_pb(rm@) == Ok::<RegionManifestView, Error>(
                    manifest@,
                ),
                Err(e) => RegionManifestView::from_pb(rm@) == Err::<RegionManifestView, Error>(e),
            },
    {
        let region_id = match read_region_id(&rm.region_id, RegionIdOwner::RegionManifest) {
            Err(e) => {
                return Err(e);
            },
            Ok(region_id) => region_id,
        };
        let ghost given = rm.flushed_generations@;
        let mut flushed_generations: Vec<FlushedGeneration> = Vec::with_capacity(
            rm.flushed_generations.len(),
        );
        for fg in it: rm.flushed_generations
            invariant
                it.seq() == given,
                flushed_generations@.len() == it.index(),
                forall|j: int|
                    0 <= j < it.index() ==> (#[trigger] flushed_generations@[j])@ == given[j]@,
        {
            flushed_generations.push(FlushedGeneration::from(fg));
        }
        assert(flushed_generations@.map_values(|g: FlushedGeneration| g@)
            =~= rm@.flushed_generations);
        Ok(
            RegionManifest {
                region_id,
                version: rm.version,
                region_spec_id: rm.region_spec_id,
                writer_epoch: rm.writer_epoch,
                replay_after_wal_entry_position: rm.replay_after_wal_entry_position,
                wal_entry_position_last_seen: rm.wal_entry_position_last_seen,
                current_generation: rm.current_generation,
                flushed_generations,
            },
        )
    }
}

impl vstd::std_specs::convert::TryFromSpecImpl<pb::RegionManifest> for RegionManifest {
    open spec fn obeys_try_from_spec() -> bool {
        false
    }

    open spec fn try_from_spec(rm: pb::RegionManifest) -> Result<Self, Error> {
        arbitrary()
    }
}

/// A region's generation is that of its first entry.
pub proof fn law_first_entry_decides(generations: Seq<MergedGeneration>, region_id: Uuid, i: int)
    requires
        0 <= i < generations.len(),
        generations[i].region_id == region_id,
        forall|j: int| 0 <= j < i ==> (#[trigger] generations[j]).region_id != region_id,
    ensures
        generation_for(generations, region_id, 0) == Some(generations[i].generation),
{
    lemma_first_entry(generations, region_id, i, 0);
}

proof fn lemma_first_entry(
    generations: Seq<MergedGeneration>,
    region_id: Uuid,
    i: int,
    from: nat,
)
    requires
        from <= i < generations.len(),
        generations[i].region_id == region_id,
        forall|j: int| 0 <= j < i ==> (#[trigger] generations[j]).region_id != region_id,
    ensures
        generation_for(generations, region_id, from) == Some(generations[i].generation),
    decreases i - from,
{
    if from < i {
        lemma_first_entry(generations, region_id, i, from + 1);
    }
}

/// A region without an entry has no generation.
pub proof fn law_no_entry_no_generation(
    generations: Seq<MergedGeneration>,
    region_id: Uuid,
    from: nat,
)
    requires
        forall|j: int|
            0 <= j < generations.len() ==> (#[trigger] generations[j]).region_id != region_id,
    ensures
        generation_for(generations, region_id, from) is None,
    decreases generations.len() - from,
{
    if from < generations.len() {
        law_no_entry_no_generation(generations, region_id, from + 1);
    }
}

/// The region id of a message: none where it has no bytes, malformed unless there are sixteen, and
/// else the identifier whose digits to the base 256, highest first, are those bytes.
pub proof fn law_region_ids(bytes: Seq<u8>, owner: RegionIdOwner, i: nat)
    requires
        i < bytes.len(),
    ensures
        region_id_of(None, owner) == Err::<Uuid, Error>(Error::MissingRegionId(owner)),
        match region_id_of(Some(bytes), owner) {
            Ok(id) => bytes.len() == 16 && id.value as int / vstd::arithmetic::power::pow(
                256,
                (15 - i) as nat,
            ) % 256 == bytes[i as int],
            Err(e) => bytes.len() != 16 && e == Error::MalformedUuid,
        },
{
    if bytes.len() == 16 {
        crate::mem_wal::uuid::law_be_value_has_the_digits(bytes, (15 - i) as nat);
        assert(vstd::arithmetic::power::pow(256, 16) == 0x1_0000_0000_0000_0000_0000_0000_0000_0000int)
            by {
            reveal_with_fuel(vstd::arithmetic::power::pow, 17);
        }
    }
}

/// The message of a merged generation holds the bytes of its region's id and its generation.
pub proof fn law_message_of_a_generation(mg: MergedGeneration, i: nat)
    requires
        i < 16,
    ensures
        mg.to_pb().generation == mg.generation,
        mg.to_pb().region_id matches Some(b) && b.len() == 16 && b[i as int]
            == mg.region_id.value as int / vstd::arithmetic::power::pow(256, (15 - i) as nat) % 256,
{
    crate::mem_wal::uuid::law_bytes_of_an_identifier(mg.region_id, i);
}

/// Messages of generations are read one for one; the first that cannot be read is the failure.
pub proof fn law_generations_are_read_one_for_one(
    messages: Seq<crate::mem_wal::pb::MergedGenerationView>,
)
    ensures
        match generations_from_pb(messages) {
            Ok(generations) => generations.len() == messages.len() && forall|i: int|
                0 <= i < messages.len() ==> region_id_of(
                    (#[trigger] messages[i]).region_id,
                    RegionIdOwner::MergedGeneration,
                ) == Ok::<Uuid, Error>(generations[i].region_id) && generations[i].generation
                    == messages[i].generation,
            Err(e) => exists|n: int|
                0 <= n < messages.len() && region_id_of(
                    (#[trigger] messages[n]).region_id,
                    RegionIdOwner::MergedGeneration,
                ) == Err::<Uuid, Error>(e) && forall|i: int|
                    0 <= i < n ==> region_id_of(
                        (#[trigger] messages[i]).region_id,
                        RegionIdOwner::MergedGeneration,
                    ) is Ok,
        },
    decreases messages.len(),
{
    if messages.len() > 0 {
        let before = messages.drop_last();
        law_generations_are_read_one_for_one(before);
        assert(forall|i: int| 0 <= i < before.len() ==> #[trigger] before[i] == messages[i]);
        match generations_from_pb(before) {
            Ok(generations) => {
                assert forall|i: int| 0 <= i < before.len() implies region_id_of(
                    (#[trigger] messages[i]).region_id,
                    RegionIdOwner::MergedGeneration,
                ) is Ok by {
                    assert(before[i] == messages[i]);
                }
                if generations_from_pb(messages) is Ok {
                    assert forall|i: int| 0 <= i < messages.len() implies region_id_of(
                        (#[trigger] messages[i]).region_id,
                        RegionIdOwner::MergedGeneration,
                    ) == Ok::<Uuid, Error>(
                        generations_from_pb(messages)->Ok_0[i].region_id,
                    ) && generations_from_pb(messages)->Ok_0[i].generation == messages[i].generation by {
                        if i < before.len() {
                            assert(before[i] == messages[i]);
                        }
                    }
                } else {
                    assert(messages[messages.len() - 1] == messages.last());
                }
            },
            Err(e) => {
                let n = choose|n: int|
                    0 <= n < before.len() && region_id_of(
                        (#[trigger] before[n]).region_id,
                        RegionIdOwner::MergedGeneration,
                    ) == Err::<Uuid, Error>(e) && forall|i: int|
                        0 <= i < n ==> region_id_of(
                            (#[trigger] before[i]).region_id,
                            RegionIdOwner::MergedGeneration,
                        ) is Ok;
                assert(messages[n] == before[n]);
                assert forall|i: int| 0 <= i < n implies region_id_of(
                    (#[trigger] messages[i]).region_id,
                    RegionIdOwner::MergedGeneration,
                ) is Ok by {
                    assert(before[i] == messages[i]);
                }
            },
        }
    }
}

/// A flushed generation and its message have the same generation and path, whichever is made from
/// the other.
pub proof fn law_flushed_fields(fg: FlushedGeneration, message: pb::FlushedGeneration)
    ensures
        ({
            let written = <pb::FlushedGeneration as vstd::std_specs::convert::FromSpec<
                &FlushedGeneration,
            >>::from_spec(&fg);
            let read = <FlushedGeneration as vstd::std_specs::convert::FromSpec<
                pb::FlushedGeneration,
            >>::from_spec(message);
            &&& <pb::FlushedGeneration as vstd::std_specs::convert::FromSpec<
                &FlushedGeneration,
            >>::obeys_from_spec()
            &&& <FlushedGeneration as vstd::std_specs::convert::FromSpec<
                pb::FlushedGeneration,
            >>::obeys_from_spec()
            &&& written.generation == fg.generation && written.path@ == fg.path@
            &&& read.generation == message.generation && read.path@ == message.path@
        }),
{
}

/// A message that says what a merged generation does holds its generation and the sixteen bytes of
/// its region's id.
pub proof fn law_written_generation(mg: MergedGeneration, message: pb::MergedGeneration, i: nat)
    requires
        message@ == mg.to_pb(),
        i < 16,
    ensures
        message.generation == mg.generation,
        message.region_id matches Some(id) && id.uuid@.len() == 16 && id.uuid@[i as int]
            == mg.region_id.value as int / vstd::arithmetic::power::pow(256, (15 - i) as nat) % 256,
{
    law_message_of_a_generation(mg, i);
}

/// What is read from the message of a merged generation: a failure where it has no region id or one
/// not of sixteen bytes, and else its generation and the region whose id has those bytes.
pub proof fn law_read_generation(message: pb::MergedGeneration, i: nat)
    requires
        i < 16,
    ensures
        <MergedGeneration as vstd::std_specs::convert::TryFromSpec<
            pb::MergedGeneration,
        >>::obeys_try_from_spec(),
        match <MergedGeneration as vstd::std_specs::convert::TryFromSpec<
            pb::MergedGeneration,
        >>::try_from_spec(message) {
            Ok(mg) => mg.generation == message.generation && message.region_id is Some
                && message.region_id->0.uuid@.len() == 16 && message.region_id->0.uuid@[i as int]
                == mg.region_id.value as int / vstd::arithmetic::power::pow(256, (15 - i) as nat)
                % 256,
            Err(e) => if message.region_id is None {
                e == Error::MissingRegionId(RegionIdOwner::MergedGeneration)
            } else {
                message.region_id->0.uuid@.len() != 16 && e == Error::MalformedUuid
            },
        },
{
    if message.region_id is Some && message.region_id->0.uuid@.len() == 16 {
        law_region_ids(message.region_id->0.uuid@, RegionIdOwner::MergedGeneration, i);
    }
}

/// A message that says what a catch-up progress does holds its name and a message for each of its
/// generations, in order.
pub proof fn law_written_progress(icp: IndexCatchupProgress, message: pb::IndexCatchupProgress)
    requires
        message@ == icp@.to_pb(),
    ensures
        message.index_name@ == icp.index_name@,
        message.caught_up_generations@.len() == icp.caught_up_generations@.len(),
        forall|i: int|
            0 <= i < icp.caught_up_generations@.len() ==> (
            #[trigger] message.caught_up_generations@[i])@
                == icp.caught_up_generations@[i].to_pb(),
{
    let written = message@.caught_up_generations;
    assert(written.len() == icp.caught_up_generations@.len());
    assert forall|i: int| 0 <= i < icp.caught_up_generations@.len() implies (
    #[trigger] message.caught_up_generations@[i])@ == icp.caught_up_generations@[i].to_pb() by {
        assert(written[i] == icp.caught_up_generations@[i].to_pb());
    }
}

/// A catch-up progress that a message stands for has its name and its generations, each as it is
/// read alone.
pub proof fn law_read_progress(message: pb::IndexCatchupProgress, icp: IndexCatchupProgress)
    requires
        IndexCatchupProgressView::from_pb(message@) == Ok::<IndexCatchupProgressView, Error>(icp@),
    ensures
        icp.index_name@ == message.index_name@,
        icp.caught_up_generations@.len() == message.caught_up_generations@.len(),
        forall|i: int|
            0 <= i < icp.caught_up_generations@.len() ==> MergedGeneration::from_pb(
                (#[trigger] message.caught_up_generations@[i])@,
            ) == Ok::<MergedGeneration, Error>(icp.caught_up_generations@[i]),
{
    let messages = message@.caught_up_generations;
    law_generations_are_read_one_for_one(messages);
    assert forall|i: int| 0 <= i < icp.caught_up_generations@.len() implies MergedGeneration::from_pb(
        (#[trigger] message.caught_up_generations@[i])@,
    ) == Ok::<MergedGeneration, Error>(icp.caught_up_generations@[i]) by {
        assert(messages[i] == message.caught_up_generations@[i]@);
    }
}

/// Reading a catch-up progress fails as reading the first of its generations that cannot be read
/// does.
pub proof fn law_unreadable_progress(message: pb::IndexCatchupProgress, n: int)
    requires
        0 <= n < message.caught_up_generations@.len(),
        MergedGeneration::from_pb(message.caught_up_generations@[n]@) is Err,
        forall|i: int|
            0 <= i < n ==> MergedGeneration::from_pb(
                (#[trigger] message.caught_up_generations@[i])@,
            ) is Ok,
    ensures
        IndexCatchupProgressView::from_pb(message@) == Err::<IndexCatchupProgressView, Error>(
            MergedGeneration::from_pb(message.caught_up_generations@[n]@)->Err_0,
        ),
{
    let messages = message@.caught_up_generations;
    law_generations_are_read_one_for_one(messages);
    assert forall|i: int| 0 <= i < messages.len() implies #[trigger] messages[i]
        == message.caught_up_generations@[i]@ by {}
    match generations_from_pb(messages) {
        Ok(_) => {
            assert(messages[n] == message.caught_up_generations@[n]@);
        },
        Err(e) => {
            let k = choose|k: int|
                0 <= k < messages.len() && region_id_of(
                    (#[trigger] messages[k]).region_id,
                    RegionIdOwner::MergedGeneration,
                ) == Err::<Uuid, Error>(e) && forall|i: int|
                    0 <= i < k ==> region_id_of(
                        (#[trigger] messages[i]).region_id,
                        RegionIdOwner::MergedGeneration,
                    ) is Ok;
            assert(messages[k] == message.caught_up_generations@[k]@);
            assert(messages[n] == message.caught_up_generations@[n]@);
            assert(k == n);
        },
    }
}

/// A message that says what a region manifest does holds its fields, each under its own name.
pub proof fn law_written_manifest(rm: RegionManifest, message: pb::RegionManifest, i: nat)
    requires
        message@ == rm@.to_pb(),
        i < 16,
    ensures
        message.region_id matches Some(id) && id.uuid@.len() == 16 && id.uuid@[i as int]
            == rm.region_id.value as int / vstd::arithmetic::power::pow(256, (15 - i) as nat) % 256,
        message.version == rm.version,
        message.region_spec_id == rm.region_spec_id,
        message.writer_epoch == rm.writer_epoch,
        message.replay_after_wal_entry_position == rm.replay_after_wal_entry_position,
        message.wal_entry_position_last_seen == rm.wal_entry_position_last_seen,
        message.current_generation == rm.current_generation,
        message.flushed_generations@.len() == rm.flushed_generations@.len(),
        forall|k: int|
            0 <= k < rm.flushed_generations@.len() ==> (
            #[trigger] message.flushed_generations@[k]).generation
                == rm.flushed_generations@[k].generation && message.flushed_generations@[k].path@
                == rm.flushed_generations@[k].path@,
{
    crate::mem_wal::uuid::law_bytes_of_an_identifier(rm.region_id, i);
    assert(message@.flushed_generations.len() == rm@.flushed_generations.len());
    assert forall|k: int| 0 <= k < rm.flushed_generations@.len() implies (
    #[trigger] message.flushed_generations@[k]).generation == rm.flushed_generations@[k].generation
        && message.flushed_generations@[k].path@ == rm.flushed_generations@[k].path@ by {
        assert(message@.flushed_generations[k] == rm@.flushed_generations[k]);
    }
}

/// A region manifest that a message stands for has the message's fields, each under its own name.
pub proof fn law_read_manifest(message: pb::RegionManifest, rm: RegionManifest, i: nat)
    requires
        RegionManifestView::from_pb(message@) == Ok::<RegionManifestView, Error>(rm@),
        i < 16,
    ensures
        message.region_id matches Some(id) && id.uuid@.len() == 16 && id.uuid@[i as int]
            == rm.region_id.value as int / vstd::arithmetic::power::pow(256, (15 - i) as nat) % 256,
        message.version == rm.version,
        message.region_spec_id == rm.region_spec_id,
        message.writer_epoch == rm.writer_epoch,
        message.replay_after_wal_entry_position == rm.replay_after_wal_entry_position,
        message.wal_entry_position_last_seen == rm.wal_entry_position_last_seen,
        message.current_generation == rm.current_generation,
        message.flushed_generations@.len() == rm.flushed_generations@.len(),
        forall|k: int|
            0 <= k < rm.flushed_generations@.len() ==> (
            #[trigger] message.flushed_generations@[k]).generation
                == rm.flushed_generations@[k].generation && message.flushed_generations@[k].path@
                == rm.flushed_generations@[k].path@,
{
    law_region_ids(message.region_id->0.uuid@, RegionIdOwner::RegionManifest, i);
    assert(message@.flushed_generations.len() == rm@.flushed_generations.len());
    assert forall|k: int| 0 <= k < rm.flushed_generations@.len() implies (
    #[trigger] message.flushed_generations@[k]).generation == rm.flushed_generations@[k].generation
        && message.flushed_generations@[k].path@ == rm.flushed_generations@[k].path@ by {
        assert(message@.flushed_generations[k] == rm@.flushed_generations[k]);
    }
}

/// Reading a region manifest fails exactly where it has no region id or one not of sixteen bytes.
pub proof fn law_unreadable_manifest(message: pb::RegionManifest)
    ensures
        RegionManifestView::from_pb(message@) is Ok <==> message.region_id is Some
            && message.region_id->0.uuid@.len() == 16,
        message.region_id is None ==> RegionManifestView::from_pb(message@) == Err::<
            RegionManifestView,
            Error,
        >(Error::MissingRegionId(RegionIdOwner::RegionManifest)),
        message.region_id is Some && message.region_id->0.uuid@.len() != 16
            ==> RegionManifestView::from_pb(message@) == Err::<RegionManifestView, Error>(
            Error::MalformedUuid,
        ),
{
}

} // verus!
