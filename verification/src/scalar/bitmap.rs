//! Physical segments of bitmap indexes.
use roaring::RoaringBitmap;
use vstd::prelude::*;

use crate::bytes::copy_bytes;
use crate::error::Error;
use crate::fragments::{collect_fragments, copy_bitmap, fragment_ids};
use crate::index_type::IndexType;
use crate::mem_wal::uuid::Uuid;
use crate::text::ends_with;

verus! {

/// What the type of the details of a bitmap index ends with.
pub const BITMAP_DETAILS_SUFFIX: &'static str = "BitmapIndexDetails";

/// A message of any type.
#[derive(Debug)]
pub struct Any {
    pub type_url: String,
    pub value: Vec<u8>,
}

/// What a message of any type says.
#[verifier::ext_equal]
pub struct AnyView {
    pub type_url: Seq<char>,
    pub value: Seq<u8>,
}

impl View for Any {
    type V = AnyView;

    open spec fn view(&self) -> AnyView {
        AnyView { type_url: self.type_url@, value: self.value@ }
    }
}

impl Any {
    fn copy(&self) -> (r: Self)
        ensures
            r@ == self@,
    {
        Any { type_url: self.type_url.clone(), value: copy_bytes(&self.value) }
    }
}

/// A file of an index.
#[derive(Debug)]
pub struct IndexFile {
    pub path: String,
    pub size_bytes: u64,
}

/// What is recorded of an index segment.
#[derive(Debug)]
pub struct IndexMetadata {
    pub uuid: Uuid,
    pub name: String,
    pub dataset_version: u64,
    /// The fragments that the segment covers.
    pub fragment_bitmap: Option<RoaringBitmap>,
    pub index_details: Option<Any>,
    pub index_version: i32,
    pub files: Option<Vec<IndexFile>>,
}

/// What the record of an index segment says.
#[verifier::ext_equal]
pub struct IndexMetadataView {
    pub uuid: Uuid,
    pub name: Seq<char>,
    pub dataset_version: u64,
    pub fragment_bitmap: Option<Set<u32>>,
    pub index_details: Option<AnyView>,
    pub index_version: i32,
    pub files: Option<Seq<(Seq<char>, u64)>>,
}

/// What the record of a file says.
pub open spec fn file_view(file: IndexFile) -> (Seq<char>, u64) {
    (file.path@, file.size_bytes)
}

impl View for IndexMetadata {
    type V = IndexMetadataView;

    open spec fn view(&self) -> IndexMetadataView {
        IndexMetadataView {
            uuid: self.uuid,
            name: self.name@,
            dataset_version: self.dataset_version,
            fragment_bitmap: match self.fragment_bitmap {
                Some(bitmap) => Some(crate::fragments::members(bitmap)),
                None => None,
            },
            index_details: match self.index_details {
                Some(details) => Some(details@),
                None => None,
            },
            index_version: self.index_version,
            files: match self.files {
                Some(files) => Some(files@.map_values(|f: IndexFile| file_view(f))),
                None => None,
            },
        }
    }
}

/// Copies the records of files.
fn copy_files(files: &Vec<IndexFile>) -> (r: Vec<IndexFile>)
    ensures
        r@.map_values(|f: IndexFile| file_view(f)) == files@.map_values(
            |f: IndexFile| file_view(f),
        ),
{
    let mut copy: Vec<IndexFile> = Vec::with_capacity(files.len());
    let mut i: usize = 0;
    while i < files.len()
        invariant
            i <= files@.len(),
            copy@.len() == i,
            forall|j: int| 0 <= j < i ==> file_view(#[trigger] copy@[j]) == file_view(files@[j]),
        decreases files@.len() - i,
    {
        copy.push(IndexFile { path: files[i].path.clone(), size_bytes: files[i].size_bytes });
        i = i + 1;
    }
    assert(copy@.map_values(|f: IndexFile| file_view(f)) =~= files@.map_values(
        |f: IndexFile| file_view(f),
    ));
    copy
}

impl IndexMetadata {
    fn copy(&self) -> (r: Self)
        ensures
            r@ == self@,
    {
        let fragment_bitmap = match &self.fragment_bitmap {
            Some(bitmap) => Some(copy_bitmap(bitmap)),
            None => None,
        };
        let index_details = match &self.index_details {
            Some(details) => Some(details.copy()),
            None => None,
        };
        let files = match &self.files {
            Some(files) => Some(copy_files(files)),
            None => None,
        };
        IndexMetadata {
            uuid: self.uuid,
            name: self.name.clone(),
            dataset_version: self.dataset_version,
            fragment_bitmap,
            index_details,
            index_version: self.index_version,
            files,
        }
    }
}

/// A physical segment that is ready to be committed.
#[derive(Debug)]
pub struct IndexSegment {
    uuid: Uuid,
    fragment_bitmap: RoaringBitmap,
    index_details: Any,
    index_version: i32,
}

/// What a segment says.
#[verifier::ext_equal]
pub struct IndexSegmentView {
    pub uuid: Uuid,
    pub fragments: Set<u32>,
    pub index_details: AnyView,
    pub index_version: i32,
}

impl View for IndexSegment {
    type V = IndexSegmentView;

    closed spec fn view(&self) -> IndexSegmentView {
        IndexSegmentView {
            uuid: self.uuid,
            fragments: crate::fragments::members(self.fragment_bitmap),
            index_details: self.index_details@,
            index_version: self.index_version,
        }
    }
}

impl IndexSegment {
    /// A segment that covers the fragments of a list.
    pub fn new(uuid: Uuid, fragments: &Vec<u32>, index_details: Any, index_version: i32) -> (r: Self)
        ensures
            r@ == (IndexSegmentView {
                uuid,
                fragments: fragments@.to_set(),
                index_details: index_details@,
                index_version,
            }),
    {
        IndexSegment {
            uuid,
            fragment_bitmap: collect_fragments(fragments),
            index_details,
            index_version,
        }
    }

    pub fn uuid(&self) -> (r: Uuid)
        ensures
            r == self@.uuid,
    {
        self.uuid
    }

    /// The fragments that the segment covers, in ascending order.
    pub fn fragments(&self) -> (r: Vec<u32>)
        ensures
            r@.to_set() == self@.fragments,
            forall|i: int, j: int| 0 <= i < j < r@.len() ==> r@[i] < r@[j],
    {
        fragment_ids(&self.fragment_bitmap)
    }

    pub fn index_details(&self) -> (r: &Any)
        ensures
            r@ == self@.index_details,
    {
        &self.index_details
    }

    pub fn index_version(&self) -> (r: i32)
        ensures
            r == self@.index_version,
    {
        self.index_version
    }

    fn copy(&self) -> (r: Self)
        ensures
            r@ == self@,
    {
        IndexSegment {
            uuid: self.uuid,
            fragment_bitmap: copy_bitmap(&self.fragment_bitmap),
            index_details: self.index_details.copy(),
            index_version: self.index_version,
        }
    }
}

/// How a physical segment is to be built.
#[derive(Debug)]
pub struct IndexSegmentPlan {
    segment: IndexSegment,
    segments: Vec<IndexMetadata>,
    estimated_bytes: u64,
    requested_index_type: Option<IndexType>,
}

/// What a plan says.
#[verifier::ext_equal]
pub struct IndexSegmentPlanView {
    pub segment: IndexSegmentView,
    pub segments: Seq<IndexMetadataView>,
    pub estimated_bytes: u64,
    pub requested_index_type: Option<IndexType>,
}

impl View for IndexSegmentPlan {
    type V = IndexSegmentPlanView;

    closed spec fn view(&self) -> IndexSegmentPlanView {
        IndexSegmentPlanView {
            segment: self.segment@,
            segments: self.segments@.map_values(|s: IndexMetadata| s@),
            estimated_bytes: self.estimated_bytes,
            requested_index_type: self.requested_index_type,
        }
    }
}

impl IndexSegmentPlan {
    pub fn new(
        segment: IndexSegment,
        segments: Vec<IndexMetadata>,
        estimated_bytes: u64,
        requested_index_type: Option<IndexType>,
    ) -> (r: Self)
        ensures
            r@ == (IndexSegmentPlanView {
                segment: segment@,
                segments: segments@.map_values(|s: IndexMetadata| s@),
                estimated_bytes,
                requested_index_type,
            }),
    {
        IndexSegmentPlan { segment, segments, estimated_bytes, requested_index_type }
    }

    pub fn segment(&self) -> (r: &IndexSegment)
        ensures
            r@ == self@.segment,
    {
        &self.segment
    }

    /// The segments that the planned one is built from.
    pub fn segments(&self) -> (r: &Vec<IndexMetadata>)
        ensures
            r@.map_values(|s: IndexMetadata| s@) == self@.segments,
    {
        &self.segments
    }

    pub fn estimated_bytes(&self) -> (r: u64)
        ensures
            r == self@.estimated_bytes,
    {
        self.estimated_bytes
    }

    pub fn requested_index_type(&self) -> (r: Option<IndexType>)
        ensures
            r == self@.requested_index_type,
    {
        self.requested_index_type
    }
}

/// The sizes of the first `n` files, added up.
pub open spec fn size_of_files(files: Seq<(Seq<char>, u64)>, n: nat) -> nat
    decreases n,
{
    if n == 0 {
        0
    } else {
        size_of_files(files, (n - 1) as nat) + files[n - 1].1 as nat
    }
}

/// The bytes that a segment takes: those of its files, if they are recorded.
pub open spec fn segment_bytes(segment: IndexMetadataView) -> nat {
    match segment.files {
        Some(files) => size_of_files(files, files.len()),
        None => 0,
    }
}

/// What is wrong with a source segment, if something is.
pub open spec fn segment_fault(segment: IndexMetadataView) -> Option<Error> {
    if segment.fragment_bitmap is None {
        Some(Error::MissingFragmentCoverage(segment.uuid))
    } else {
        match segment.index_details {
            None => Some(Error::MissingIndexDetails(segment.uuid)),
            Some(details) => if crate::text::has_suffix(details.type_url, BITMAP_DETAILS_SUFFIX@) {
                None
            } else {
                Some(Error::NotBitmapSegment(segment.uuid))
            },
        }
    }
}

/// The plan that keeps a source segment as it is.
pub open spec fn plan_of(segment: IndexMetadataView) -> IndexSegmentPlanView {
    IndexSegmentPlanView {
        segment: IndexSegmentView {
            uuid: segment.uuid,
            fragments: segment.fragment_bitmap->0,
            index_details: segment.index_details->0,
            index_version: segment.index_version,
        },
        segments: seq![segment],
        estimated_bytes: segment_bytes(segment) as u64,
        requested_index_type: Some(IndexType::Bitmap),
    }
}

/// The plans of the first `n` source segments, or the first fault.
pub open spec fn plans_of(segments: Seq<IndexMetadataView>, n: nat) -> Result<
    Seq<IndexSegmentPlanView>,
    Error,
>
    decreases n,
{
    if n == 0 {
        Ok(Seq::empty())
    } else {
        match plans_of(segments, (n - 1) as nat) {
            Err(e) => Err(e),
            Ok(plans) => match segment_fault(segments[n - 1]) {
                Some(e) => Err(e),
                None => Ok(plans.push(plan_of(segments[n - 1]))),
            },
        }
    }
}

/// The sizes of the files that are added up fit in 64 bits.
pub open spec fn sizes_fit(segments: Seq<IndexMetadataView>) -> bool {
    forall|i: nat|
        i < segments.len() && #[trigger] plans_of(segments, i) is Ok && segment_fault(
            segments[i as int],
        ) is None ==> segment_bytes(segments[i as int]) <= u64::MAX
}

/// What planning gives.
pub open spec fn planned(
    segments: Seq<IndexMetadataView>,
    target_segment_bytes: Option<u64>,
) -> Result<Seq<IndexSegmentPlanView>, Error> {
    if target_segment_bytes == Some(0u64) {
        Err(Error::ZeroTargetSegmentBytes)
    } else if target_segment_bytes is Some && segments.len() > 1 {
        Err(Error::MergeNotSupported)
    } else {
        plans_of(segments, segments.len())
    }
}

/// More files take no less.
proof fn lemma_sizes_grow(files: Seq<(Seq<char>, u64)>, a: nat, b: nat)
    requires
        a <= b,
    ensures
        size_of_files(files, a) <= size_of_files(files, b),
    decreases b,
{
    if a < b {
        lemma_sizes_grow(files, a, (b - 1) as nat);
    }
}

/// Adds up the sizes of files.
fn add_sizes(files: &Vec<IndexFile>) -> (r: u64)
    requires
        size_of_files(files@.map_values(|f: IndexFile| file_view(f)), files@.len()) <= u64::MAX,
    ensures
        r == size_of_files(files@.map_values(|f: IndexFile| file_view(f)), files@.len()),
{
    let ghost views = files@.map_values(|f: IndexFile| file_view(f));
    let mut total: u64 = 0;
    let mut i: usize = 0;
    while i < files.len()
        invariant
            i <= files@.len(),
            views == files@.map_values(|f: IndexFile| file_view(f)),
            size_of_files(views, files@.len()) <= u64::MAX,
            total == size_of_files(views, i as nat),
        decreases files@.len() - i,
    {
        proof {
            lemma_sizes_grow(views, (i + 1) as nat, files@.len());
            assert(views[i as int].1 == files@[i as int].size_bytes);
        }
        total = total + files[i].size_bytes;
        i = i + 1;
    }
    total
}

/// Plans the segment that keeps a source segment as it is.
fn plan_segment(segment: &IndexMetadata) -> (r: Result<IndexSegmentPlan, Error>)
    requires
        segment_fault(segment@) is None ==> segment_bytes(segment@) <= u64::MAX,
    ensures
        match segment_fault(segment@) {
            Some(e) => r == Err::<IndexSegmentPlan, Error>(e),
            None => r matches Ok(plan) && plan@ == plan_of(segment@),
        },
{
    let fragment_bitmap = match &segment.fragment_bitmap {
        Some(bitmap) => bitmap,
        None => {
            return Err(Error::MissingFragmentCoverage(segment.uuid));
        },
    };
    let index_details = match &segment.index_details {
        Some(details) => details,
        None => {
            return Err(Error::MissingIndexDetails(segment.uuid));
        },
    };
    if !ends_with(index_details.type_url.as_str(), BITMAP_DETAILS_SUFFIX) {
        return Err(Error::NotBitmapSegment(segment.uuid));
    }
    let fragments = fragment_ids(fragment_bitmap);
    let built_segment = IndexSegment::new(
        segment.uuid,
        &fragments,
        index_details.copy(),
        segment.index_version,
    );
    let estimated_bytes: u64 = match &segment.files {
        Some(files) => add_sizes(files),
        None => 0,
    };
    let mut sources: Vec<IndexMetadata> = Vec::new();
    sources.push(segment.copy());
    assert(sources@.map_values(|s: IndexMetadata| s@) =~= seq![segment@]);
    Ok(IndexSegmentPlan::new(built_segment, sources, estimated_bytes, Some(IndexType::Bitmap)))
}

/// A fault among the first segments is the fault of all of them.
proof fn lemma_first_fault(segments: Seq<IndexMetadataView>, a: nat, b: nat, e: Error)
    requires
        a <= b,
        plans_of(segments, a) == Err::<Seq<IndexSegmentPlanView>, Error>(e),
    ensures
        plans_of(segments, b) == Err::<Seq<IndexSegmentPlanView>, Error>(e),
    decreases b,
{
    if a < b {
        lemma_first_fault(segments, a, (b - 1) as nat, e);
    }
}

/// Plans physical segments for staged bitmap index outputs.
///
/// Each staged bitmap is already a complete physical segment, so there is one output segment for
/// each staged source segment.
pub fn plan_segments(segments: &[IndexMetadata], target_segment_bytes: Option<u64>) -> (r: Result<
    Vec<IndexSegmentPlan>,
    Error,
>)
    requires
        target_segment_bytes is None || (target_segment_bytes != Some(0u64) && segments@.len() <= 1)
            ==> sizes_fit(segments@.map_values(|s: IndexMetadata| s@)),
    ensures
        match r {
            Ok(plans) => planned(
                segments@.map_values(|s: IndexMetadata| s@),
                target_segment_bytes,
            ) == Ok::<Seq<IndexSegmentPlanView>, Error>(
                plans@.map_values(|p: IndexSegmentPlan| p@),
            ),
            Err(e) => planned(segments@.map_values(|s: IndexMetadata| s@), target_segment_bytes)
                == Err::<Seq<IndexSegmentPlanView>, Error>(e),
        },
{
    let ghost views = segments@.map_values(|s: IndexMetadata| s@);
    let n: usize = segments.len();
    if let Some(bytes) = target_segment_bytes {
        if bytes == 0 {
            return Err(Error::ZeroTargetSegmentBytes);
        }
        if n > 1 {
            return Err(Error::MergeNotSupported);
        }
    }
    let mut plans: Vec<IndexSegmentPlan> = Vec::with_capacity(n);
    assert(plans@.map_values(|p: IndexSegmentPlan| p@) =~= Seq::empty());
    let mut i: usize = 0;
    while i < n
        invariant
            i <= n,
            n == segments@.len(),
            views == segments@.map_values(|s: IndexMetadata| s@),
            sizes_fit(views),
            planned(views, target_segment_bytes) == plans_of(views, n as nat),
            plans_of(views, i as nat) == Ok::<Seq<IndexSegmentPlanView>, Error>(
                plans@.map_values(|p: IndexSegmentPlan| p@),
            ),
        decreases n - i,
    {
        let ghost before = plans@;
        assert(views[i as int] == segments@[i as int]@);
        assert(plans_of(views, i as nat) is Ok);
        match plan_segment(&segments[i]) {
            Ok(plan) => {
                plans.push(plan);
                assert(plans@.map_values(|p: IndexSegmentPlan| p@) =~= before.map_values(
                    |p: IndexSegmentPlan| p@,
                ).push(plan@));
            },
            Err(e) => {
                proof {
                    lemma_first_fault(views, (i + 1) as nat, n as nat, e);
                }
                return Err(e);
            },
        }
        i = i + 1;
    }
    Ok(plans)
}

/// What building a planned segment gives.
pub open spec fn built(plan: IndexSegmentPlanView) -> Result<IndexSegmentView, Error> {
    if plan.segments.len() != 1 {
        Err(Error::MergeNotSupported)
    } else if plan.segments[0].uuid != plan.segment.uuid {
        Err(Error::SegmentUuidMismatch)
    } else {
        Ok(plan.segment)
    }
}

/// Finalizes one staged bitmap into a physical segment that is ready to be committed.
pub fn build_segment(segment_plan: &IndexSegmentPlan) -> (r: Result<IndexSegment, Error>)
    ensures
        match r {
            Ok(segment) => built(segment_plan@) == Ok::<IndexSegmentView, Error>(segment@),
            Err(e) => built(segment_plan@) == Err::<IndexSegmentView, Error>(e),
        },
{
    let built_segment = segment_plan.segment().copy();
    let source_segments = segment_plan.segments();
    if source_segments.len() != 1 {
        return Err(Error::MergeNotSupported);
    }
    assert(segment_plan@.segments[0] == source_segments@[0]@);
    if source_segments[0].uuid != built_segment.uuid() {
        return Err(Error::SegmentUuidMismatch);
    }
    Ok(built_segment)
}

/// Planning keeps one segment for each source segment, in order, and every planned segment can be
/// built: it covers the same fragments under the same id.
pub proof fn law_plans_keep_segments(
    segments: Seq<IndexMetadataView>,
    target_segment_bytes: Option<u64>,
)
    requires
        planned(segments, target_segment_bytes) is Ok,
    ensures
        planned(segments, target_segment_bytes)->Ok_0.len() == segments.len(),
        forall|i: int|
            0 <= i < segments.len() ==> {
                let plan = #[trigger] planned(segments, target_segment_bytes)->Ok_0[i];
                &&& plan == plan_of(segments[i])
                &&& built(plan) == Ok::<IndexSegmentView, Error>(plan.segment)
                &&& plan.segment.uuid == segments[i].uuid
                &&& Some(plan.segment.fragments) == segments[i].fragment_bitmap
            },
{
    lemma_plans(segments, segments.len());
}

/// The plans are those of the segments.
proof fn lemma_plans(segments: Seq<IndexMetadataView>, n: nat)
    requires
        n <= segments.len(),
        plans_of(segments, n) is Ok,
    ensures
        plans_of(segments, n)->Ok_0.len() == n,
        forall|i: int|
            0 <= i < n ==> #[trigger] plans_of(segments, n)->Ok_0[i] == plan_of(segments[i])
                && segment_fault(segments[i]) is None,
    decreases n,
{
    if n > 0 {
        lemma_plans(segments, (n - 1) as nat);
    }
}

/// What the record of an index segment says is what it holds.
pub proof fn law_view_of_a_record(segment: IndexMetadata)
    ensures
        segment@.uuid == segment.uuid,
        segment@.name == segment.name@,
        segment@.dataset_version == segment.dataset_version,
        segment@.index_version == segment.index_version,
        segment@.fragment_bitmap is Some <==> segment.fragment_bitmap is Some,
        segment.fragment_bitmap is Some ==> segment@.fragment_bitmap->0
            == crate::fragments::members(segment.fragment_bitmap->0),
        segment@.index_details is Some <==> segment.index_details is Some,
        segment.index_details is Some ==> segment@.index_details->0.type_url
            == segment.index_details->0.type_url@ && segment@.index_details->0.value
            == segment.index_details->0.value@,
        segment@.files is Some <==> segment.files is Some,
        segment.files is Some ==> segment@.files->0.len() == segment.files->0@.len() && forall|
            i: int,
        |
            0 <= i < segment.files->0@.len() ==> #[trigger] segment@.files->0[i] == (
                segment.files->0@[i].path@,
                segment.files->0@[i].size_bytes,
            ),
{
}

/// A segment takes the bytes of all its files together, and none where they are not recorded.
pub proof fn law_bytes_of_a_segment(segment: IndexMetadataView)
    ensures
        segment_bytes(segment) == match segment.files {
            Some(files) => files.fold_left(
                0int,
                |sum: int, file: (Seq<char>, u64)| sum + file.1,
            ),
            None => 0,
        },
{
    if let Some(files) = segment.files {
        lemma_sizes_fold(files, files.len());
        assert(files.take(files.len() as int) =~= files);
    }
}

/// The sizes of the first files, added up from the first on.
proof fn lemma_sizes_fold(files: Seq<(Seq<char>, u64)>, n: nat)
    requires
        n <= files.len(),
    ensures
        size_of_files(files, n) == files.take(n as int).fold_left(
            0int,
            |sum: int, file: (Seq<char>, u64)| sum + file.1,
        ),
    decreases n,
{
    if n > 0 {
        lemma_sizes_fold(files, (n - 1) as nat);
        assert(files.take(n as int).drop_last() =~= files.take(n - 1));
    }
}

/// A source segment is refused, in this order, where it does not say which fragments it covers,
/// where it has no details, and where its details are not those of a bitmap index.
pub proof fn law_refused_segments(segment: IndexMetadataView)
    ensures
        segment.fragment_bitmap is None ==> segment_fault(segment) == Some(
            Error::MissingFragmentCoverage(segment.uuid),
        ),
        segment.fragment_bitmap is Some && segment.index_details is None ==> segment_fault(segment)
            == Some(Error::MissingIndexDetails(segment.uuid)),
        segment.fragment_bitmap is Some && segment.index_details is Some ==> segment_fault(segment)
            == if exists|head: Seq<char>|
            segment.index_details->0.type_url == #[trigger] (head + "BitmapIndexDetails"@) {
            None
        } else {
            Some(Error::NotBitmapSegment(segment.uuid))
        },
{
    if segment.index_details is Some {
        crate::text::law_suffixes(segment.index_details->0.type_url, "BitmapIndexDetails"@);
    }
}

/// The plan of a source segment keeps its id, its fragments, its details and its version, is built
/// from it alone, estimates the bytes of its files, and asks for a bitmap index.
pub proof fn law_plan_of_a_segment(segment: IndexMetadataView)
    requires
        segment_fault(segment) is None,
        segment_bytes(segment) <= u64::MAX,
    ensures
        plan_of(segment).segment.uuid == segment.uuid,
        Some(plan_of(segment).segment.fragments) == segment.fragment_bitmap,
        Some(plan_of(segment).segment.index_details) == segment.index_details,
        plan_of(segment).segment.index_version == segment.index_version,
        plan_of(segment).segments == seq![segment],
        plan_of(segment).estimated_bytes == segment_bytes(segment),
        plan_of(segment).requested_index_type == Some(IndexType::Bitmap),
{
}

/// What planning gives. A target of no bytes is refused, and so is any target for several segments,
/// which would have to be merged. Else there is one plan for each segment, or the fault of the first
/// that has one.
pub proof fn law_planning(segments: Seq<IndexMetadataView>, target_segment_bytes: Option<u64>)
    ensures
        target_segment_bytes == Some(0u64) ==> planned(segments, target_segment_bytes) == Err::<
            Seq<IndexSegmentPlanView>,
            Error,
        >(Error::ZeroTargetSegmentBytes),
        target_segment_bytes is Some && target_segment_bytes != Some(0u64) && segments.len() > 1
            ==> planned(segments, target_segment_bytes) == Err::<Seq<IndexSegmentPlanView>, Error>(
            Error::MergeNotSupported,
        ),
        target_segment_bytes is None || target_segment_bytes != Some(0u64) && segments.len() <= 1
            ==> match planned(segments, target_segment_bytes) {
            Ok(plans) => plans.len() == segments.len() && forall|i: int|
                0 <= i < segments.len() ==> #[trigger] plans[i] == plan_of(segments[i])
                    && segment_fault(segments[i]) is None,
            Err(e) => exists|k: int|
                0 <= k < segments.len() && segment_fault(#[trigger] segments[k]) == Some(e)
                    && forall|i: int|
                    0 <= i < k ==> segment_fault(#[trigger] segments[i]) is None,
        },
{
    if plans_of(segments, segments.len()) is Ok {
        lemma_plans(segments, segments.len());
    } else {
        lemma_first_refused(segments, segments.len());
    }
}

/// Where planning fails, the failure is the fault of the first segment that has one.
proof fn lemma_first_refused(segments: Seq<IndexMetadataView>, n: nat)
    requires
        n <= segments.len(),
        plans_of(segments, n) is Err,
    ensures
        exists|k: int|
            0 <= k < n && segment_fault(#[trigger] segments[k]) == Some(
                plans_of(segments, n)->Err_0,
            ) && forall|i: int| 0 <= i < k ==> segment_fault(#[trigger] segments[i]) is None,
    decreases n,
{
    let m = (n - 1) as nat;
    if plans_of(segments, m) is Err {
        lemma_first_refused(segments, m);
    } else {
        lemma_plans(segments, m);
        assert forall|i: int| 0 <= i < n - 1 implies segment_fault(#[trigger] segments[i]) is None by {
            assert(plans_of(segments, m)->Ok_0[i] == plan_of(segments[i]));
        }
        assert(segment_fault(segments[n - 1]) is Some);
    }
}

/// A plan is built exactly where it has one source segment under its own id, and what is built is the
/// planned segment.
pub proof fn law_building(plan: IndexSegmentPlanView)
    ensures
        plan.segments.len() != 1 ==> built(plan) == Err::<IndexSegmentView, Error>(
            Error::MergeNotSupported,
        ),
        plan.segments.len() == 1 && plan.segments[0].uuid != plan.segment.uuid ==> built(plan)
            == Err::<IndexSegmentView, Error>(Error::SegmentUuidMismatch),
        plan.segments.len() == 1 && plan.segments[0].uuid == plan.segment.uuid ==> built(plan)
            == Ok::<IndexSegmentView, Error>(plan.segment),
{
}

} // verus!
