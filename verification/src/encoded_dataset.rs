//! Datasets of vectors that are encoded already, read partition by partition.
use std::collections::HashMap;

use vstd::prelude::*;

use crate::error::Error;
use crate::string_map::StringMap;
use crate::text::{render, same_text};
use crate::vector::{PART_ID_COLUMN, PQ_CODE_COLUMN};

verus! {

pub const PRECOMPUTED_ENCODED_PARTITION_SIZES_METADATA_KEY: &'static str =
    "lance:index_build:precomputed_encoded_partition_sizes";

pub const PRECOMPUTED_ENCODED_PARTITION_FRAGMENT_IDS_METADATA_KEY: &'static str =
    "lance:index_build:precomputed_encoded_partition_fragment_ids";

pub const PRECOMPUTED_ENCODED_TOTAL_LOSS_METADATA_KEY: &'static str =
    "lance:index_build:precomputed_encoded_total_loss";

/// The row id column of a dataset.
pub const ROW_ID: &'static str = "_rowid";

/// The row id column where a dataset was written without row ids of its own.
pub const PRECOMPUTED_ROW_ID_COLUMN: &'static str = "row_id";

/// What `serde_json` reads from a text as a list of sizes that are `size_bits` bits wide: the sizes,
/// or what it says is wrong.
pub uninterp spec fn json_sizes(text: Seq<char>, size_bits: u32) -> Result<Seq<usize>, Seq<char>>;

/// Calls `serde_json::from_str` for a list of sizes, and takes the text of its error. The contract
/// claims that the result depends on the text and on the width of a size alone.
#[verifier::external_body]
fn parse_sizes(text: &str) -> (r: Result<Vec<usize>, String>)
    ensures
        match r {
            Ok(sizes) => json_sizes(text@, usize::BITS) == Ok::<Seq<usize>, Seq<char>>(sizes@),
            Err(error) => json_sizes(text@, usize::BITS) == Err::<Seq<usize>, Seq<char>>(error@),
        },
{
    serde_json::from_str::<Vec<usize>>(text).map_err(|error| error.to_string())
}

/// What `serde_json` reads from a text as a list of lists of numbers: the lists, or what it says is
/// wrong.
pub uninterp spec fn json_number_lists(text: Seq<char>) -> Result<Seq<Seq<u64>>, Seq<char>>;

/// Calls `serde_json::from_str` for a list of lists of numbers, and takes the text of its error.
/// The contract claims that the result depends on the text alone.
#[verifier::external_body]
fn parse_number_lists(text: &str) -> (r: Result<Vec<Vec<u64>>, String>)
    ensures
        match r {
            Ok(lists) => json_number_lists(text@) == Ok::<Seq<Seq<u64>>, Seq<char>>(
                lists@.map_values(|list: Vec<u64>| list@),
            ),
            Err(error) => json_number_lists(text@) == Err::<Seq<Seq<u64>>, Seq<char>>(error@),
        },
{
    serde_json::from_str::<Vec<Vec<u64>>>(text).map_err(|error| error.to_string())
}

/// What has to be known of a dataset to read it: its columns, its metadata and the ids of its
/// fragments.
#[derive(Debug)]
pub struct DatasetDescription {
    pub columns: Vec<String>,
    pub metadata: StringMap,
    pub fragment_ids: Vec<u64>,
}

/// The dataset has a column of that name.
pub open spec fn has_column(columns: Seq<String>, name: Seq<char>) -> bool {
    exists|i: int| 0 <= i < columns.len() && (#[trigger] columns[i])@ == name
}

impl DatasetDescription {
    /// Whether the dataset has a column of that name.
    pub fn contains_column(&self, name: &str) -> (r: bool)
        ensures
            r == has_column(self.columns@, name@),
    {
        let mut i: usize = 0;
        while i < self.columns.len()
            invariant
                i <= self.columns@.len(),
                forall|j: int| 0 <= j < i ==> (#[trigger] self.columns@[j])@ != name@,
            decreases self.columns@.len() - i,
        {
            if same_text(&self.columns[i], name) {
                return true;
            }
            i = i + 1;
        }
        false
    }
}

/// The place of the last fragment with that id among the first `n`.
pub open spec fn last_fragment(fragment_ids: Seq<u64>, id: u64, n: nat) -> Option<nat>
    decreases n,
{
    if n == 0 {
        None
    } else if fragment_ids[n - 1] == id {
        Some((n - 1) as nat)
    } else {
        last_fragment(fragment_ids, id, (n - 1) as nat)
    }
}

/// The places of the fragments of the first `n` ids, or the first id that is not known.
pub open spec fn resolved_ids(fragment_ids: Seq<u64>, ids: Seq<u64>, n: nat) -> Result<
    Seq<usize>,
    Error,
>
    decreases n,
{
    if n == 0 {
        Ok(Seq::empty())
    } else {
        match resolved_ids(fragment_ids, ids, (n - 1) as nat) {
            Err(e) => Err(e),
            Ok(places) => match last_fragment(fragment_ids, ids[n - 1], fragment_ids.len()) {
                None => Err(Error::UnknownFragment(ids[n - 1])),
                Some(place) => Ok(places.push(place as usize)),
            },
        }
    }
}

/// The places of the fragments of the first `n` partitions, or the first id that is not known.
pub open spec fn resolved_partitions(
    fragment_ids: Seq<u64>,
    partitions: Seq<Seq<u64>>,
    n: nat,
) -> Result<Seq<Seq<usize>>, Error>
    decreases n,
{
    if n == 0 {
        Ok(Seq::empty())
    } else {
        match resolved_partitions(fragment_ids, partitions, (n - 1) as nat) {
            Err(e) => Err(e),
            Ok(resolved) => match resolved_ids(
                fragment_ids,
                partitions[n - 1],
                partitions[n - 1].len(),
            ) {
                Err(e) => Err(e),
                Ok(places) => Ok(resolved.push(places)),
            },
        }
    }
}

/// An unknown id among the first ones makes all of them fail.
proof fn lemma_unknown_id(fragment_ids: Seq<u64>, ids: Seq<u64>, a: nat, b: nat, e: Error)
    requires
        a <= b,
        resolved_ids(fragment_ids, ids, a) == Err::<Seq<usize>, Error>(e),
    ensures
        resolved_ids(fragment_ids, ids, b) == Err::<Seq<usize>, Error>(e),
    decreases b,
{
    if a < b {
        lemma_unknown_id(fragment_ids, ids, a, (b - 1) as nat, e);
    }
}

/// An unknown id in the first partitions makes all of them fail.
proof fn lemma_unknown_partition(
    fragment_ids: Seq<u64>,
    partitions: Seq<Seq<u64>>,
    a: nat,
    b: nat,
    e: Error,
)
    requires
        a <= b,
        resolved_partitions(fragment_ids, partitions, a) == Err::<Seq<Seq<usize>>, Error>(e),
    ensures
        resolved_partitions(fragment_ids, partitions, b) == Err::<Seq<Seq<usize>>, Error>(e),
    decreases b,
{
    if a < b {
        lemma_unknown_partition(fragment_ids, partitions, a, (b - 1) as nat, e);
    }
}

/// The place of every id among the first `n`.
pub open spec fn places_by_id(by_id: Map<u64, usize>, fragment_ids: Seq<u64>, n: nat) -> bool {
    forall|id: u64|
        match #[trigger] last_fragment(fragment_ids, id, n) {
            Some(place) => by_id.contains_key(id) && by_id[id] == place,
            None => !by_id.contains_key(id),
        }
}

/// Finds the fragments of a partition.
fn resolve_ids(
    by_id: &HashMap<u64, usize>,
    ids: &Vec<u64>,
    Ghost(fragment_ids): Ghost<Seq<u64>>,
) -> (r: Result<Vec<usize>, Error>)
    requires
        places_by_id(by_id@, fragment_ids, fragment_ids.len()),
    ensures
        match r {
            Ok(places) => resolved_ids(fragment_ids, ids@, ids@.len()) == Ok::<Seq<usize>, Error>(
                places@,
            ),
            Err(e) => resolved_ids(fragment_ids, ids@, ids@.len()) == Err::<Seq<usize>, Error>(e),
        },
{
    broadcast use vstd::std_specs::hash::group_hash_axioms;

    let n: usize = ids.len();
    let mut places: Vec<usize> = Vec::with_capacity(n);
    let mut i: usize = 0;
    while i < n
        invariant
            i <= n,
            n == ids@.len(),
            places_by_id(by_id@, fragment_ids, fragment_ids.len()),
            resolved_ids(fragment_ids, ids@, i as nat) == Ok::<Seq<usize>, Error>(places@),
        decreases n - i,
    {
        let id: u64 = ids[i];
        let ghost place = last_fragment(fragment_ids, id, fragment_ids.len());
        match by_id.get(&id) {
            Some(found) => {
                assert(place is Some && place->0 == *found);
                places.push(*found);
            },
            None => {
                proof {
                    assert(place is None);
                    lemma_unknown_id(
                        fragment_ids,
                        ids@,
                        (i + 1) as nat,
                        n as nat,
                        Error::UnknownFragment(id),
                    );
                }
                return Err(Error::UnknownFragment(id));
            },
        }
        i = i + 1;
    }
    Ok(places)
}

/// Finds the fragments of all partitions, as their places in the dataset.
///
/// Where several fragments have the same id, the last one counts.
pub fn resolve_partition_fragments(
    dataset: &DatasetDescription,
    partition_fragment_ids: &Vec<Vec<u64>>,
) -> (r: Result<Vec<Vec<usize>>, Error>)
    ensures
        match r {
            Ok(resolved) => resolved_partitions(
                dataset.fragment_ids@,
                partition_fragment_ids@.map_values(|ids: Vec<u64>| ids@),
                partition_fragment_ids@.len(),
            ) == Ok::<Seq<Seq<usize>>, Error>(resolved@.map_values(|places: Vec<usize>| places@)),
            Err(e) => resolved_partitions(
                dataset.fragment_ids@,
                partition_fragment_ids@.map_values(|ids: Vec<u64>| ids@),
                partition_fragment_ids@.len(),
            ) == Err::<Seq<Seq<usize>>, Error>(e),
        },
        r matches Ok(resolved) ==> resolved@.len() == partition_fragment_ids@.len() && (forall|
            p: int,
        |
            0 <= p < resolved@.len() ==> (#[trigger] resolved@[p])@.len()
                == partition_fragment_ids@[p]@.len()) && (forall|p: int, i: int|
            0 <= p < resolved@.len() && 0 <= i < partition_fragment_ids@[p]@.len() ==> (
            #[trigger] resolved@[p]@[i]) < dataset.fragment_ids@.len()
                && dataset.fragment_ids@[resolved@[p]@[i] as int]
                == partition_fragment_ids@[p]@[i]),
{
    broadcast use vstd::std_specs::hash::group_hash_axioms;

    let ghost fragment_ids = dataset.fragment_ids@;
    let ghost partitions = partition_fragment_ids@.map_values(|ids: Vec<u64>| ids@);
    let mut by_id: HashMap<u64, usize> = HashMap::new();
    let count: usize = dataset.fragment_ids.len();
    let mut f: usize = 0;
    while f < count
        invariant
            f <= count,
            count == dataset.fragment_ids@.len(),
            fragment_ids == dataset.fragment_ids@,
            places_by_id(by_id@, fragment_ids, f as nat),
        decreases count - f,
    {
        let id: u64 = dataset.fragment_ids[f];
        let ghost before = by_id@;
        let _ = by_id.insert(id, f);
        proof {
            assert forall|other: u64|
                match #[trigger] last_fragment(fragment_ids, other, (f + 1) as nat) {
                    Some(place) => by_id@.contains_key(other) && by_id@[other] == place,
                    None => !by_id@.contains_key(other),
                } by {
                assert(match last_fragment(fragment_ids, other, f as nat) {
                    Some(place) => before.contains_key(other) && before[other] == place,
                    None => !before.contains_key(other),
                });
            }
        }
        f = f + 1;
    }
    let n: usize = partition_fragment_ids.len();
    let mut resolved: Vec<Vec<usize>> = Vec::with_capacity(n);
    assert(resolved@.map_values(|places: Vec<usize>| places@) =~= Seq::empty());
    let mut i: usize = 0;
    while i < n
        invariant
            i <= n,
            n == partition_fragment_ids@.len(),
            fragment_ids == dataset.fragment_ids@,
            places_by_id(by_id@, fragment_ids, fragment_ids.len()),
            partitions == partition_fragment_ids@.map_values(|ids: Vec<u64>| ids@),
            resolved_partitions(fragment_ids, partitions, i as nat) == Ok::<Seq<Seq<usize>>, Error>(
                resolved@.map_values(|places: Vec<usize>| places@),
            ),
        decreases n - i,
    {
        let ghost before = resolved@;
        assert(partitions[i as int] == partition_fragment_ids@[i as int]@);
        match resolve_ids(&by_id, &partition_fragment_ids[i], Ghost(fragment_ids)) {
            Ok(places) => {
                resolved.push(places);
                assert(resolved@.map_values(|places: Vec<usize>| places@) =~= before.map_values(
                    |places: Vec<usize>| places@,
                ).push(places@));
            },
            Err(e) => {
                proof {
                    lemma_unknown_partition(
                        fragment_ids,
                        partitions,
                        (i + 1) as nat,
                        n as nat,
                        e,
                    );
                }
                return Err(e);
            },
        }
        i = i + 1;
    }
    proof {
        let views = resolved@.map_values(|places: Vec<usize>| places@);
        law_fragments_of_the_partitions(fragment_ids, partitions, n as nat);
        assert forall|p: int| 0 <= p < resolved@.len() implies (#[trigger] resolved@[p])@.len()
            == partition_fragment_ids@[p]@.len() by {
            assert(views[p] == resolved@[p]@);
            assert(partitions[p] == partition_fragment_ids@[p]@);
        }
        assert forall|p: int, i: int|
            0 <= p < resolved@.len() && 0 <= i < partition_fragment_ids@[p]@.len() implies (
        #[trigger] resolved@[p]@[i]) < fragment_ids.len()
            && fragment_ids[resolved@[p]@[i] as int] == partition_fragment_ids@[p]@[i] by {
            assert(views[p] == resolved@[p]@);
            assert(partitions[p] == partition_fragment_ids@[p]@);
            assert(views[p][i] < fragment_ids.len());
        }
    }
    Ok(resolved)
}

/// Reads a dataset of encoded vectors partition by partition.
#[derive(Debug)]
pub struct EncodedDatasetShuffleReader {
    /// The column that holds row ids.
    pub row_id_column: String,
    pub partition_sizes: Vec<usize>,
    /// The fragments of each partition, as their places in the dataset.
    pub partition_fragments: Option<Vec<Vec<usize>>>,
    /// The total loss, as the bit pattern of a 64-bit float.
    pub total_loss: Option<u64>,
}

/// What a reader says.
#[verifier::ext_equal]
pub struct ReaderView {
    pub row_id_column: Seq<char>,
    pub partition_sizes: Seq<usize>,
    pub partition_fragments: Option<Seq<Seq<usize>>>,
    pub total_loss: Option<u64>,
}

impl View for EncodedDatasetShuffleReader {
    type V = ReaderView;

    open spec fn view(&self) -> ReaderView {
        ReaderView {
            row_id_column: self.row_id_column@,
            partition_sizes: self.partition_sizes@,
            partition_fragments: match self.partition_fragments {
                Some(partitions) => Some(partitions@.map_values(|places: Vec<usize>| places@)),
                None => None,
            },
            total_loss: self.total_loss,
        }
    }
}

/// An error on reading a metadata entry, with the entry and what is wrong with it.
pub open spec fn is_parse_error(e: Error, key: Seq<char>, value: Seq<char>, error: Seq<char>) -> bool {
    e matches Error::MetadataParse { key: k, value: v, error: message } && k@ == key && v@ == value
        && message@ == error
}

/// The sizes of the partitions are read from the metadata.
pub open spec fn sizes_read(
    metadata: Map<Seq<char>, Seq<char>>,
    r: Result<Seq<usize>, Error>,
) -> bool {
    let key = PRECOMPUTED_ENCODED_PARTITION_SIZES_METADATA_KEY@;
    if !metadata.contains_key(key) {
        r matches Err(e) && e matches Error::MissingMetadata(k) && k@ == key
    } else {
        match json_sizes(metadata[key], usize::BITS) {
            Err(error) => r matches Err(e) && is_parse_error(e, key, metadata[key], error),
            Ok(sizes) => r == Ok::<Seq<usize>, Error>(sizes),
        }
    }
}

/// The sizes of a result.
pub open spec fn sizes_view(r: Result<Vec<usize>, Error>) -> Result<Seq<usize>, Error> {
    match r {
        Ok(sizes) => Ok(sizes@),
        Err(e) => Err(e),
    }
}

/// The fragments of a result.
pub open spec fn fragments_view(r: Result<Option<Vec<Vec<usize>>>, Error>) -> Result<
    Option<Seq<Seq<usize>>>,
    Error,
> {
    match r {
        Ok(Some(partitions)) => Ok(Some(partitions@.map_values(|places: Vec<usize>| places@))),
        Ok(None) => Ok(None),
        Err(e) => Err(e),
    }
}

/// The sizes of the partitions, from what was read of their metadata entry.
pub fn sizes_from_parsed(text: &String, parsed: Result<Vec<usize>, String>) -> (r: Result<
    Vec<usize>,
    Error,
>)
    ensures
        match parsed {
            Err(error) => r matches Err(e) && is_parse_error(
                e,
                PRECOMPUTED_ENCODED_PARTITION_SIZES_METADATA_KEY@,
                text@,
                error@,
            ),
            Ok(sizes) => r == Ok::<Vec<usize>, Error>(sizes),
        },
{
    match parsed {
        Err(error) => Err(
            Error::MetadataParse {
                key: PRECOMPUTED_ENCODED_PARTITION_SIZES_METADATA_KEY,
                value: text.clone(),
                error,
            },
        ),
        Ok(sizes) => Ok(sizes),
    }
}

/// Reads the sizes of the partitions.
pub fn read_sizes(metadata: &StringMap) -> (r: Result<Vec<usize>, Error>)
    ensures
        sizes_read(metadata@, sizes_view(r)),
{
    match metadata.get(PRECOMPUTED_ENCODED_PARTITION_SIZES_METADATA_KEY) {
        None => Err(Error::MissingMetadata(PRECOMPUTED_ENCODED_PARTITION_SIZES_METADATA_KEY)),
        Some(text) => sizes_from_parsed(text, parse_sizes(text.as_str())),
    }
}

/// The fragments of the partitions are read from the metadata, if they are there.
pub open spec fn fragments_read(
    metadata: Map<Seq<char>, Seq<char>>,
    fragment_ids: Seq<u64>,
    r: Result<Option<Seq<Seq<usize>>>, Error>,
) -> bool {
    let key = PRECOMPUTED_ENCODED_PARTITION_FRAGMENT_IDS_METADATA_KEY@;
    if !metadata.contains_key(key) {
        r == Ok::<Option<Seq<Seq<usize>>>, Error>(None)
    } else {
        match json_number_lists(metadata[key]) {
            Err(error) => r matches Err(e) && is_parse_error(e, key, metadata[key], error),
            Ok(partitions) => match resolved_partitions(
                fragment_ids,
                partitions,
                partitions.len(),
            ) {
                Err(e) => r == Err::<Option<Seq<Seq<usize>>>, Error>(e),
                Ok(resolved) => r == Ok::<Option<Seq<Seq<usize>>>, Error>(Some(resolved)),
            },
        }
    }
}

/// The fragments of the partitions, from what was read of their metadata entry.
pub fn fragments_from_parsed(
    dataset: &DatasetDescription,
    text: &String,
    parsed: Result<Vec<Vec<u64>>, String>,
) -> (r: Result<Vec<Vec<usize>>, Error>)
    ensures
        match parsed {
            Err(error) => r matches Err(e) && is_parse_error(
                e,
                PRECOMPUTED_ENCODED_PARTITION_FRAGMENT_IDS_METADATA_KEY@,
                text@,
                error@,
            ),
            Ok(lists) => match resolved_partitions(
                dataset.fragment_ids@,
                lists@.map_values(|ids: Vec<u64>| ids@),
                lists@.len(),
            ) {
                Err(e) => r == Err::<Vec<Vec<usize>>, Error>(e),
                Ok(resolved) => r matches Ok(partitions) && partitions@.map_values(
                    |places: Vec<usize>| places@,
                ) == resolved,
            },
        },
{
    match parsed {
        Err(error) => Err(
            Error::MetadataParse {
                key: PRECOMPUTED_ENCODED_PARTITION_FRAGMENT_IDS_METADATA_KEY,
                value: text.clone(),
                error,
            },
        ),
        Ok(lists) => resolve_partition_fragments(dataset, &lists),
    }
}

/// Reads the fragments of the partitions, if they are there.
pub fn read_fragments(dataset: &DatasetDescription) -> (r: Result<Option<Vec<Vec<usize>>>, Error>)
    ensures
        fragments_read(dataset.metadata@, dataset.fragment_ids@, fragments_view(r)),
{
    match dataset.metadata.get(PRECOMPUTED_ENCODED_PARTITION_FRAGMENT_IDS_METADATA_KEY) {
        None => Ok(None),
        Some(text) => match fragments_from_parsed(
            dataset,
            text,
            parse_number_lists(text.as_str()),
        ) {
            Ok(partitions) => Ok(Some(partitions)),
            Err(e) => Err(e),
        },
    }
}

/// The row id column of a dataset, if it has one.
pub open spec fn row_id_column(columns: Seq<String>) -> Option<Seq<char>> {
    if has_column(columns, ROW_ID@) {
        Some(ROW_ID@)
    } else if has_column(columns, PRECOMPUTED_ROW_ID_COLUMN@) {
        Some(PRECOMPUTED_ROW_ID_COLUMN@)
    } else {
        None
    }
}

/// What opening a dataset can give. `parse_loss` reads the total loss.
pub open spec fn opened<L: Fn(&str) -> Result<u64, String>>(
    dataset: DatasetDescription,
    parse_loss: L,
    r: Result<ReaderView, Error>,
) -> bool {
    let metadata = dataset.metadata@;
    match row_id_column(dataset.columns@) {
        None => r == Err::<ReaderView, Error>(Error::MissingRowIdColumn),
        Some(row_id) => if !has_column(dataset.columns@, PART_ID_COLUMN@) {
            r matches Err(e) && e matches Error::MissingColumn(c) && c@ == PART_ID_COLUMN@
        } else if !has_column(dataset.columns@, PQ_CODE_COLUMN@) {
            r matches Err(e) && e matches Error::MissingColumn(c) && c@ == PQ_CODE_COLUMN@
        } else {
            exists|sizes: Result<Seq<usize>, Error>|
                #[trigger] sizes_read(metadata, sizes) && match sizes {
                    Err(e) => r == Err::<ReaderView, Error>(e),
                    Ok(sizes) => exists|fragments: Result<Option<Seq<Seq<usize>>>, Error>|
                        #[trigger] fragments_read(metadata, dataset.fragment_ids@, fragments)
                            && match fragments {
                            Err(e) => r == Err::<ReaderView, Error>(e),
                            Ok(fragments) => if fragments matches Some(f) && f.len()
                                != sizes.len() {
                                r == Err::<ReaderView, Error>(
                                    Error::PartitionCountMismatch {
                                        fragments: fragments->0.len() as usize,
                                        sizes: sizes.len() as usize,
                                    },
                                )
                            } else {
                                loss_read(
                                    metadata,
                                    parse_loss,
                                    ReaderView {
                                        row_id_column: row_id,
                                        partition_sizes: sizes,
                                        partition_fragments: fragments,
                                        total_loss: None,
                                    },
                                    r,
                                )
                            },
                        },
                }
        },
    }
}

/// What opening a dataset gives once all but the total loss was read.
pub open spec fn loss_read<L: Fn(&str) -> Result<u64, String>>(
    metadata: Map<Seq<char>, Seq<char>>,
    parse_loss: L,
    reader: ReaderView,
    r: Result<ReaderView, Error>,
) -> bool {
    let key = PRECOMPUTED_ENCODED_TOTAL_LOSS_METADATA_KEY@;
    if !metadata.contains_key(key) {
        r == Ok::<ReaderView, Error>(reader)
    } else {
        exists|text: &str, loss: Result<u64, String>|
            text@ == metadata[key] && #[trigger] call_ensures(parse_loss, (text,), loss)
                && match loss {
                Err(error) => r matches Err(e) && is_parse_error(e, key, metadata[key], error@),
                Ok(bits) => r == Ok::<ReaderView, Error>(
                    ReaderView { total_loss: Some(bits), ..reader },
                ),
            }
    }
}

/// What a result says.
pub open spec fn reader_view(r: Result<EncodedDatasetShuffleReader, Error>) -> Result<
    ReaderView,
    Error,
> {
    match r {
        Ok(reader) => Ok(reader@),
        Err(e) => Err(e),
    }
}

/// How the rows of a partition are read.
#[derive(Debug)]
pub struct PartitionScan {
    /// The columns to read, in order.
    pub projection: Vec<String>,
    /// The fragments to read, as their places in the dataset; all where there are none given.
    pub fragments: Option<Vec<usize>>,
    /// The condition on rows.
    pub filter: String,
    /// The metadata names no fragments for this partition, though it is not empty.
    pub fragments_missing: bool,
}

impl EncodedDatasetShuffleReader {
    /// Opens a dataset of encoded vectors.
    pub fn try_new<L: Fn(&str) -> Result<u64, String>>(
        dataset: &DatasetDescription,
        parse_loss: &L,
    ) -> (r: Result<Self, Error>)
        requires
            forall|text: &str| call_requires(parse_loss, (text,)),
        ensures
            opened(*dataset, *parse_loss, reader_view(r)),
    {
        let row_id_column: String = if dataset.contains_column(ROW_ID) {
            ROW_ID.to_owned()
        } else if dataset.contains_column(PRECOMPUTED_ROW_ID_COLUMN) {
            PRECOMPUTED_ROW_ID_COLUMN.to_owned()
        } else {
            return Err(Error::MissingRowIdColumn);
        };
        if !dataset.contains_column(PART_ID_COLUMN) {
            return Err(Error::MissingColumn(PART_ID_COLUMN));
        }
        if !dataset.contains_column(PQ_CODE_COLUMN) {
            return Err(Error::MissingColumn(PQ_CODE_COLUMN));
        }
        let sizes = read_sizes(&dataset.metadata);
        let ghost read = sizes_view(sizes);
        assert(sizes_read(dataset.metadata@, read));
        let partition_sizes = match sizes {
            Ok(sizes) => sizes,
            Err(e) => {
                return Err(e);
            },
        };
        let fragments = read_fragments(dataset);
        let ghost found = fragments_view(fragments);
        assert(fragments_read(dataset.metadata@, dataset.fragment_ids@, found));
        let partition_fragments = match fragments {
            Ok(fragments) => fragments,
            Err(e) => {
                return Err(e);
            },
        };
        if let Some(partitions) = &partition_fragments {
            if partitions.len() != partition_sizes.len() {
                return Err(
                    Error::PartitionCountMismatch {
                        fragments: partitions.len(),
                        sizes: partition_sizes.len(),
                    },
                );
            }
        }
        let ghost reader = ReaderView {
            row_id_column: row_id_column@,
            partition_sizes: partition_sizes@,
            partition_fragments: found->Ok_0,
            total_loss: None,
        };
        let total_loss: Option<u64> = match dataset.metadata.get(
            PRECOMPUTED_ENCODED_TOTAL_LOSS_METADATA_KEY,
        ) {
            None => None,
            Some(text) => {
                let loss = parse_loss(text.as_str());
                match loss {
                    Ok(bits) => Some(bits),
                    Err(error) => {
                        let e = Error::MetadataParse {
                            key: PRECOMPUTED_ENCODED_TOTAL_LOSS_METADATA_KEY,
                            value: text.clone(),
                            error,
                        };
                        assert(loss_read(
                            dataset.metadata@,
                            *parse_loss,
                            reader,
                            Err::<ReaderView, Error>(e),
                        ));
                        return Err(e);
                    },
                }
            },
        };
        let opened = EncodedDatasetShuffleReader {
            row_id_column,
            partition_sizes,
            partition_fragments,
            total_loss,
        };
        assert(loss_read(
            dataset.metadata@,
            *parse_loss,
            reader,
            Ok::<ReaderView, Error>(opened@),
        ));
        Ok(opened)
    }

    /// The fragments of a partition are known wherever its size is.
    pub open spec fn wf(&self) -> bool {
        self@.partition_fragments matches Some(f) ==> f.len() == self@.partition_sizes.len()
    }

    /// The condition on the rows of a partition.
    pub open spec fn filter_text(partition_id: nat) -> Seq<char> {
        PART_ID_COLUMN@ + " = "@ + crate::text::rendered(partition_id)
    }

    /// Decides how a partition is read; none where there is no such partition, or it is empty.
    ///
    /// A partition for which no fragments are named is read by scanning the whole dataset.
    pub fn read_partition(&self, partition_id: usize) -> (r: Option<PartitionScan>)
        requires
            self.wf(),
        ensures
            r is None <==> partition_id >= self@.partition_sizes.len()
                || self@.partition_sizes[partition_id as int] == 0,
            r matches Some(scan) ==> {
                &&& scan.projection@.len() == 3
                &&& scan.projection@[0]@ == self@.row_id_column
                &&& scan.projection@[1]@ == PART_ID_COLUMN@
                &&& scan.projection@[2]@ == PQ_CODE_COLUMN@
                &&& scan.filter@ == Self::filter_text(partition_id as nat)
                &&& match self@.partition_fragments {
                    None => scan.fragments is None && !scan.fragments_missing,
                    Some(partitions) => if partitions[partition_id as int].len() == 0 {
                        scan.fragments is None && scan.fragments_missing
                    } else {
                        scan.fragments matches Some(f) && f@ == partitions[partition_id as int]
                            && !scan.fragments_missing
                    },
                }
            },
    {
        if partition_id >= self.partition_sizes.len() {
            return None;
        }
        if self.partition_sizes[partition_id] == 0 {
            return None;
        }
        let mut projection: Vec<String> = Vec::with_capacity(3);
        projection.push(self.row_id_column.clone());
        projection.push(PART_ID_COLUMN.to_owned());
        projection.push(PQ_CODE_COLUMN.to_owned());
        let mut fragments: Option<Vec<usize>> = None;
        let mut fragments_missing: bool = false;
        if let Some(partitions) = &self.partition_fragments {
            assert(self@.partition_fragments->0[partition_id as int]
                == partitions@[partition_id as int]@);
            let places: &Vec<usize> = &partitions[partition_id];
            if places.len() == 0 {
                fragments_missing = true;
            } else {
                let mut copy: Vec<usize> = Vec::with_capacity(places.len());
                copy.extend_from_slice(places.as_slice());
                assert(copy@ =~= places@);
                fragments = Some(copy);
            }
        }
        let mut filter = PART_ID_COLUMN.to_owned();
        filter.append(" = ");
        filter.append(render(partition_id as u64).as_str());
        Some(PartitionScan { projection, fragments, filter, fragments_missing })
    }

    /// The number of rows of a partition; 0 where there is no such partition.
    pub fn partition_size(&self, partition_id: usize) -> (r: usize)
        ensures
            r == if partition_id < self@.partition_sizes.len() {
                self@.partition_sizes[partition_id as int]
            } else {
                0
            },
    {
        if partition_id < self.partition_sizes.len() {
            self.partition_sizes[partition_id]
        } else {
            0
        }
    }

    pub fn total_loss(&self) -> (r: Option<u64>)
        ensures
            r == self@.total_loss,
    {
        self.total_loss
    }
}

/// A reader that was opened knows the fragments of a partition wherever it knows its size, and has
/// one of the two row id columns.
pub proof fn law_opened_reader<L: Fn(&str) -> Result<u64, String>>(
    dataset: DatasetDescription,
    parse_loss: L,
    reader: EncodedDatasetShuffleReader,
)
    requires
        opened(dataset, parse_loss, Ok::<ReaderView, Error>(reader@)),
    ensures
        reader.wf(),
        reader@.row_id_column == ROW_ID@ || reader@.row_id_column == PRECOMPUTED_ROW_ID_COLUMN@,
        has_column(dataset.columns@, reader@.row_id_column),
{
}

/// A field of a schema; `T` is the type of its values.
#[derive(Debug)]
pub struct SchemaField<T> {
    pub name: String,
    pub data_type: T,
    pub nullable: bool,
    pub metadata: StringMap,
}

/// The first field of that name.
pub open spec fn field_named<T>(fields: Seq<SchemaField<T>>, name: Seq<char>, from: nat) -> Option<
    nat,
>
    decreases fields.len() - from,
{
    if from >= fields.len() {
        None
    } else if fields[from as int].name@ == name {
        Some(from)
    } else {
        field_named(fields, name, from + 1)
    }
}

/// Finds the first field of that name.
pub fn column_with_name<T>(fields: &Vec<SchemaField<T>>, name: &str) -> (r: Option<usize>)
    ensures
        match r {
            Some(i) => field_named(fields@, name@, 0) == Some(i as nat) && i < fields@.len(),
            None => field_named(fields@, name@, 0) is None,
        },
{
    let mut i: usize = 0;
    while i < fields.len()
        invariant
            i <= fields@.len(),
            field_named(fields@, name@, 0) == field_named(fields@, name@, i as nat),
        decreases fields@.len() - i,
    {
        if same_text(&fields[i].name, name) {
            return Some(i);
        }
        i = i + 1;
    }
    None
}

/// The fields with the one at `row_id_idx` as the row id: under its new name, with its type, and
/// without its metadata.
pub open spec fn renamed<T>(
    before: Seq<SchemaField<T>>,
    after: Seq<SchemaField<T>>,
    row_id_idx: int,
) -> bool {
    &&& after.len() == before.len()
    &&& forall|i: int|
        0 <= i < before.len() ==> if i == row_id_idx {
            (#[trigger] after[i]).name@ == ROW_ID@ && after[i].data_type == before[i].data_type
                && after[i].nullable == before[i].nullable && after[i].metadata@
                == Map::<Seq<char>, Seq<char>>::empty()
        } else {
            after[i] == before[i]
        }
}

/// Renames a field to the row id.
pub fn rename_row_id<T>(fields: Vec<SchemaField<T>>, row_id_idx: usize) -> (r: Vec<SchemaField<T>>)
    ensures
        renamed(fields@, r@, row_id_idx as int),
{
    let ghost given = fields@;
    let mut new_fields: Vec<SchemaField<T>> = Vec::with_capacity(fields.len());
    let mut i: usize = 0;
    let n: usize = fields.len();
    for field in it: fields
        invariant
            it.seq() == given,
            n == given.len(),
            i == it.index(),
            new_fields@.len() == it.index(),
            forall|j: int|
                0 <= j < it.index() ==> if j == row_id_idx {
                    (#[trigger] new_fields@[j]).name@ == ROW_ID@ && new_fields@[j].data_type
                        == given[j].data_type && new_fields@[j].nullable == given[j].nullable
                        && new_fields@[j].metadata@ == Map::<Seq<char>, Seq<char>>::empty()
                } else {
                    new_fields@[j] == given[j]
                },
    {
        if i == row_id_idx {
            new_fields.push(
                SchemaField {
                    name: ROW_ID.to_owned(),
                    data_type: field.data_type,
                    nullable: field.nullable,
                    metadata: StringMap::new(),
                },
            );
        } else {
            new_fields.push(field);
        }
        i = i + 1;
    }
    new_fields
}

/// The schema of the rows that are handed out: the row id column carries its usual name.
pub fn output_schema<T>(fields: Vec<SchemaField<T>>) -> (r: Vec<SchemaField<T>>)
    ensures
        match field_named(fields@, PRECOMPUTED_ROW_ID_COLUMN@, 0) {
            Some(i) => renamed(fields@, r@, i as int),
            None => r@ == fields@,
        },
{
    match column_with_name(&fields, PRECOMPUTED_ROW_ID_COLUMN) {
        Some(i) => rename_row_id(fields, i),
        None => fields,
    }
}

/// Where one field carries the name of a precomputed row id column, it is handed out as the row id,
/// and no field carries that name any more.
pub proof fn law_row_id_is_renamed<T>(
    before: Seq<SchemaField<T>>,
    after: Seq<SchemaField<T>>,
    row_id_idx: int,
)
    requires
        0 <= row_id_idx < before.len(),
        before[row_id_idx].name@ == PRECOMPUTED_ROW_ID_COLUMN@,
        forall|i: int|
            0 <= i < before.len() && i != row_id_idx ==> (#[trigger] before[i]).name@
                != PRECOMPUTED_ROW_ID_COLUMN@,
        renamed(before, after, row_id_idx),
    ensures
        after[row_id_idx].name@ == ROW_ID@,
        field_named(after, PRECOMPUTED_ROW_ID_COLUMN@, 0) is None,
{
    reveal_strlit("_rowid");
    reveal_strlit("row_id");
    assert(ROW_ID@[0] != PRECOMPUTED_ROW_ID_COLUMN@[0]);
    assert forall|i: int| 0 <= i < after.len() implies (#[trigger] after[i]).name@
        != PRECOMPUTED_ROW_ID_COLUMN@ by {
        if i != row_id_idx {
            assert(before[i].name@ != PRECOMPUTED_ROW_ID_COLUMN@);
        }
    }
    lemma_no_field(after, PRECOMPUTED_ROW_ID_COLUMN@, 0);
}

/// A name that no field carries is not found.
proof fn lemma_no_field<T>(fields: Seq<SchemaField<T>>, name: Seq<char>, from: nat)
    requires
        forall|i: int| 0 <= i < fields.len() ==> (#[trigger] fields[i]).name@ != name,
    ensures
        field_named(fields, name, from) is None,
    decreases fields.len() - from,
{
    if from < fields.len() {
        lemma_no_field(fields, name, from + 1);
    }
}

/// The place of a fragment id is that of the last fragment with it; an id that no fragment has is not
/// known.
pub proof fn law_place_of_a_fragment(fragment_ids: Seq<u64>, id: u64, n: nat)
    requires
        n <= fragment_ids.len(),
    ensures
        match last_fragment(fragment_ids, id, n) {
            Some(place) => place < n && fragment_ids[place as int] == id && forall|i: int|
                place < i < n ==> #[trigger] fragment_ids[i] != id,
            None => forall|i: int| 0 <= i < n ==> #[trigger] fragment_ids[i] != id,
        },
    decreases n,
{
    if n > 0 && fragment_ids[n - 1] != id {
        law_place_of_a_fragment(fragment_ids, id, (n - 1) as nat);
    }
}

/// The fragments of a partition are as many as its ids, one for each and in order: each place holds a
/// fragment with that id, and the last one with it. Where ids are not known, the first of them is the
/// failure.
pub proof fn law_fragments_of_a_partition(fragment_ids: Seq<u64>, ids: Seq<u64>, n: nat)
    requires
        n <= ids.len(),
        fragment_ids.len() <= usize::MAX,
    ensures
        match resolved_ids(fragment_ids, ids, n) {
            Ok(places) => places.len() == n && forall|i: int|
                0 <= i < n ==> (#[trigger] places[i]) < fragment_ids.len()
                    && fragment_ids[places[i] as int] == ids[i] && forall|j: int|
                    places[i] < j < fragment_ids.len() ==> #[trigger] fragment_ids[j] != ids[i],
            Err(e) => exists|k: int|
                0 <= k < n && e == Error::UnknownFragment(#[trigger] ids[k])
                    && !fragment_ids.contains(ids[k]) && forall|i: int|
                    0 <= i < k ==> fragment_ids.contains(#[trigger] ids[i]),
        },
    decreases n,
{
    if n > 0 {
        let m = (n - 1) as nat;
        law_fragments_of_a_partition(fragment_ids, ids, m);
        law_place_of_a_fragment(fragment_ids, ids[n - 1], fragment_ids.len());
        if let Ok(places) = resolved_ids(fragment_ids, ids, m) {
            if last_fragment(fragment_ids, ids[n - 1], fragment_ids.len()) is None {
                assert(!fragment_ids.contains(ids[n - 1]));
                assert forall|i: int| 0 <= i < n - 1 implies fragment_ids.contains(
                    #[trigger] ids[i],
                ) by {
                    assert(fragment_ids[places[i] as int] == ids[i]);
                }
            }
        }
    }
}

/// The partitions are as many as they were given, in order, and each has the fragments of its own
/// ids; where ids are not known, the first partition with such an id is the failure.
pub proof fn law_fragments_of_the_partitions(
    fragment_ids: Seq<u64>,
    partitions: Seq<Seq<u64>>,
    n: nat,
)
    requires
        n <= partitions.len(),
        fragment_ids.len() <= usize::MAX,
    ensures
        match resolved_partitions(fragment_ids, partitions, n) {
            Ok(resolved) => resolved.len() == n && (forall|p: int|
                0 <= p < n ==> (#[trigger] resolved[p]).len() == partitions[p].len()) && (forall|
                p: int,
                i: int,
            |
                0 <= p < n && 0 <= i < partitions[p].len() ==> (#[trigger] resolved[p][i])
                    < fragment_ids.len() && fragment_ids[resolved[p][i] as int] == partitions[p][i]),
            Err(e) => exists|p: int, k: int|
                0 <= p < n && 0 <= k < partitions[p].len() && e == Error::UnknownFragment(
                    #[trigger] partitions[p][k],
                ) && !fragment_ids.contains(partitions[p][k]),
        },
    decreases n,
{
    if n > 0 {
        let m = (n - 1) as nat;
        law_fragments_of_the_partitions(fragment_ids, partitions, m);
        let ids = partitions[n - 1];
        law_fragments_of_a_partition(fragment_ids, ids, ids.len());
        if resolved_partitions(fragment_ids, partitions, m) is Ok {
            match resolved_ids(fragment_ids, ids, ids.len()) {
                Ok(places) => {
                    let before = resolved_partitions(fragment_ids, partitions, m)->Ok_0;
                    let resolved = before.push(places);
                    assert forall|p: int, i: int|
                        0 <= p < n && 0 <= i < partitions[p].len() implies (
                    #[trigger] resolved[p][i]) < fragment_ids.len()
                        && fragment_ids[resolved[p][i] as int] == partitions[p][i] by {
                        if p < m {
                            assert(resolved[p] == before[p]);
                            assert(before[p][i] < fragment_ids.len());
                        } else {
                            assert(resolved[p] == places);
                            assert(places[i] < fragment_ids.len());
                        }
                    }
                },
                Err(e) => {
                    let k = choose|k: int|
                        0 <= k < ids.len() && e == Error::UnknownFragment(#[trigger] ids[k])
                            && !fragment_ids.contains(ids[k]) && forall|i: int|
                            0 <= i < k ==> fragment_ids.contains(#[trigger] ids[i]);
                    assert(partitions[n - 1][k] == ids[k]);
                },
            }
        }
    }
}

/// The partitions are found exactly where every id of theirs is that of a fragment.
pub proof fn law_known_ids_are_found(fragment_ids: Seq<u64>, partitions: Seq<Seq<u64>>)
    requires
        fragment_ids.len() <= usize::MAX,
    ensures
        resolved_partitions(fragment_ids, partitions, partitions.len()) is Ok <==> forall|
            p: int,
            i: int,
        |
            0 <= p < partitions.len() && 0 <= i < partitions[p].len() ==> fragment_ids.contains(
                #[trigger] partitions[p][i],
            ),
{
    let n = partitions.len();
    law_fragments_of_the_partitions(fragment_ids, partitions, n);
    if let Ok(resolved) = resolved_partitions(fragment_ids, partitions, n) {
        assert forall|p: int, i: int|
            0 <= p < n && 0 <= i < partitions[p].len() implies fragment_ids.contains(
            #[trigger] partitions[p][i],
        ) by {
            assert(resolved[p][i] < fragment_ids.len());
            assert(fragment_ids[resolved[p][i] as int] == partitions[p][i]);
        }
    }
}

/// What a reader says is what it holds.
pub proof fn law_view_of_a_reader(reader: EncodedDatasetShuffleReader)
    ensures
        reader@.row_id_column == reader.row_id_column@,
        reader@.partition_sizes == reader.partition_sizes@,
        reader@.total_loss == reader.total_loss,
        reader@.partition_fragments is Some <==> reader.partition_fragments is Some,
        reader@.partition_fragments matches Some(f) ==> f.len()
            == reader.partition_fragments->0@.len() && forall|p: int|
            0 <= p < f.len() ==> #[trigger] f[p] == reader.partition_fragments->0@[p]@,
{
}

/// What an opened reader holds of the dataset: the sizes that its metadata lists, and where its
/// metadata lists fragments, as many partitions as sizes, each with a fragment for every listed id.
pub proof fn law_opened_reader_follows_the_metadata<L: Fn(&str) -> Result<u64, String>>(
    dataset: DatasetDescription,
    parse_loss: L,
    reader: EncodedDatasetShuffleReader,
)
    requires
        opened(dataset, parse_loss, Ok::<ReaderView, Error>(reader@)),
    ensures
        ({
            let sizes_key = "lance:index_build:precomputed_encoded_partition_sizes"@;
            let fragments_key = "lance:index_build:precomputed_encoded_partition_fragment_ids"@;
            let loss_key = "lance:index_build:precomputed_encoded_total_loss"@;
            let metadata = dataset.metadata@;
            &&& metadata.contains_key(sizes_key)
            &&& json_sizes(metadata[sizes_key], usize::BITS) == Ok::<Seq<usize>, Seq<char>>(
                reader.partition_sizes@,
            )
            &&& reader.partition_fragments is Some <==> metadata.contains_key(fragments_key)
            &&& reader.total_loss is Some <==> metadata.contains_key(loss_key)
            &&& metadata.contains_key(fragments_key) ==> json_number_lists(
                metadata[fragments_key],
            ) is Ok && reader.partition_fragments->0@.len() == reader.partition_sizes@.len() && ({
                let lists = json_number_lists(metadata[fragments_key])->Ok_0;
                &&& reader.partition_fragments->0@.len() == lists.len()
                &&& forall|p: int|
                    0 <= p < lists.len() ==> (#[trigger] reader.partition_fragments->0@[p])@.len()
                        == lists[p].len()
                &&& forall|p: int, i: int|
                    0 <= p < lists.len() && 0 <= i < lists[p].len() ==> (
                    #[trigger] reader.partition_fragments->0@[p]@[i]) < dataset.fragment_ids@.len()
                        && dataset.fragment_ids@[reader.partition_fragments->0@[p]@[i] as int]
                        == lists[p][i]
            })
        }),
{
    let metadata = dataset.metadata@;
    let fragments_key = PRECOMPUTED_ENCODED_PARTITION_FRAGMENT_IDS_METADATA_KEY@;
    law_view_of_a_reader(reader);
    assert(dataset.fragment_ids@.len() <= usize::MAX) by {
        assert(dataset.fragment_ids.len() == dataset.fragment_ids@.len());
    }
    if metadata.contains_key(fragments_key) {
        let lists = json_number_lists(metadata[fragments_key])->Ok_0;
        law_fragments_of_the_partitions(dataset.fragment_ids@, lists, lists.len());
        let f = reader@.partition_fragments->0;
        let held = reader.partition_fragments->0@;
        assert(resolved_partitions(dataset.fragment_ids@, lists, lists.len()) == Ok::<
            Seq<Seq<usize>>,
            Error,
        >(f));
        assert forall|p: int| 0 <= p < lists.len() implies (#[trigger] held[p])@.len()
            == lists[p].len() by {
            assert(f[p] == held[p]@);
        }
        assert forall|p: int, i: int| 0 <= p < lists.len() && 0 <= i < lists[p].len() implies (
        #[trigger] held[p]@[i]) < dataset.fragment_ids@.len()
            && dataset.fragment_ids@[held[p]@[i] as int] == lists[p][i] by {
            assert(f[p] == held[p]@);
            assert(f[p][i] < dataset.fragment_ids@.len());
        }
    }
}

/// A dataset with the usual row id column is read by it, and one with only the precomputed row id
/// column by that; it has to have the partition and code columns too.
pub proof fn law_columns_of_an_opened_dataset<L: Fn(&str) -> Result<u64, String>>(
    dataset: DatasetDescription,
    parse_loss: L,
    r: Result<ReaderView, Error>,
)
    requires
        opened(dataset, parse_loss, r),
    ensures
        ({
            let names = dataset.columns@.map_values(|c: String| c@);
            &&& r matches Ok(reader) ==> reader.row_id_column == if names.contains("_rowid"@) {
                "_rowid"@
            } else {
                "row_id"@
            } && names.contains(reader.row_id_column) && names.contains("__ivf_part_id"@)
                && names.contains("__pq_code"@)
            &&& !names.contains("_rowid"@) && !names.contains("row_id"@) ==> r == Err::<
                ReaderView,
                Error,
            >(Error::MissingRowIdColumn)
            &&& (names.contains("_rowid"@) || names.contains("row_id"@)) && !names.contains(
                "__ivf_part_id"@,
            ) ==> (r matches Err(Error::MissingColumn(c)) && c@ == "__ivf_part_id"@)
            &&& (names.contains("_rowid"@) || names.contains("row_id"@)) && names.contains(
                "__ivf_part_id"@,
            ) && !names.contains("__pq_code"@) ==> (r matches Err(Error::MissingColumn(c)) && c@
                == "__pq_code"@)
        }),
{
    let names = dataset.columns@.map_values(|c: String| c@);
    assert forall|name: Seq<char>| #[trigger] names.contains(name) <==> has_column(
        dataset.columns@,
        name,
    ) by {
        if names.contains(name) {
            let i = choose|i: int| 0 <= i < names.len() && names[i] == name;
            assert(dataset.columns@[i]@ == name);
        }
        if has_column(dataset.columns@, name) {
            let i = choose|i: int|
                0 <= i < dataset.columns@.len() && (#[trigger] dataset.columns@[i])@ == name;
            assert(names[i] == name);
        }
    }
}

/// The condition on the rows of a partition is the partition column's name, an equals sign between
/// spaces, and the partition's number in decimal.
pub proof fn law_filter_of_a_partition(partition_id: nat)
    ensures
        EncodedDatasetShuffleReader::filter_text(partition_id) == "__ivf_part_id = "@
            + crate::text::rendered(partition_id),
{
    reveal_strlit("__ivf_part_id");
    reveal_strlit(" = ");
    reveal_strlit("__ivf_part_id = ");
    assert(PART_ID_COLUMN@ + " = "@ =~= "__ivf_part_id = "@);
}

/// The field of a name is the first one that carries it.
pub proof fn law_first_field_of_a_name<T>(fields: Seq<SchemaField<T>>, name: Seq<char>, from: nat)
    ensures
        match field_named(fields, name, from) {
            Some(i) => from <= i < fields.len() && fields[i as int].name@ == name && forall|j: int|
                from <= j < i ==> (#[trigger] fields[j]).name@ != name,
            None => forall|j: int|
                from <= j < fields.len() ==> (#[trigger] fields[j]).name@ != name,
        },
    decreases fields.len() - from,
{
    if from < fields.len() && fields[from as int].name@ != name {
        law_first_field_of_a_name(fields, name, from + 1);
    }
}

/// Renaming the row id changes the name and the metadata of that field alone: its type and whether it
/// may be null stay, and so do all other fields and their order.
pub proof fn law_renaming_leaves_the_rest<T>(
    before: Seq<SchemaField<T>>,
    after: Seq<SchemaField<T>>,
    row_id_idx: int,
    i: int,
)
    requires
        renamed(before, after, row_id_idx),
        0 <= i < before.len(),
    ensures
        after.len() == before.len(),
        after[i].data_type == before[i].data_type,
        after[i].nullable == before[i].nullable,
        i != row_id_idx ==> after[i].name@ == before[i].name@ && after[i].metadata@
            == before[i].metadata@,
        i == row_id_idx ==> after[i].name@ == "_rowid"@ && after[i].metadata@ == Map::<
            Seq<char>,
            Seq<char>,
        >::empty(),
{
}

/// Why a dataset with all its columns is not opened: no sizes in its metadata; sizes or fragments that
/// cannot be read, with the entry and what is wrong with it; fragments that are not known; or another
/// number of partitions than of sizes.
pub proof fn law_datasets_that_are_not_opened<L: Fn(&str) -> Result<u64, String>>(
    dataset: DatasetDescription,
    parse_loss: L,
    r: Result<ReaderView, Error>,
)
    requires
        opened(dataset, parse_loss, r),
        has_column(dataset.columns@, "_rowid"@) || has_column(dataset.columns@, "row_id"@),
        has_column(dataset.columns@, "__ivf_part_id"@),
        has_column(dataset.columns@, "__pq_code"@),
    ensures
        ({
            let sizes_key = "lance:index_build:precomputed_encoded_partition_sizes"@;
            let metadata = dataset.metadata@;
            &&& !metadata.contains_key(sizes_key) ==> (r matches Err(Error::MissingMetadata(k))
                && k@ == sizes_key)
            &&& metadata.contains_key(sizes_key) && json_sizes(
                metadata[sizes_key],
                usize::BITS,
            ) is Err ==> (r matches Err(Error::MetadataParse { key, value, error }) && key@
                == sizes_key && value@ == metadata[sizes_key] && error@ == json_sizes(
                metadata[sizes_key],
                usize::BITS,
            )->Err_0)
        }),
        ({
            let sizes_key = "lance:index_build:precomputed_encoded_partition_sizes"@;
            let fragments_key = "lance:index_build:precomputed_encoded_partition_fragment_ids"@;
            let metadata = dataset.metadata@;
            let sizes = json_sizes(metadata[sizes_key], usize::BITS);
            let lists = json_number_lists(metadata[fragments_key]);
            metadata.contains_key(sizes_key) && sizes is Ok && metadata.contains_key(fragments_key)
                ==> {
                &&& lists is Err ==> (r matches Err(Error::MetadataParse { key, value, error })
                    && key@ == fragments_key && value@ == metadata[fragments_key] && error@
                    == lists->Err_0)
                &&& lists is Ok ==> match resolved_partitions(
                    dataset.fragment_ids@,
                    lists->Ok_0,
                    lists->Ok_0.len(),
                ) {
                    Err(e) => r == Err::<ReaderView, Error>(e),
                    Ok(resolved) => resolved.len() != sizes->Ok_0.len() ==> r == Err::<
                        ReaderView,
                        Error,
                    >(
                        Error::PartitionCountMismatch {
                            fragments: resolved.len() as usize,
                            sizes: sizes->Ok_0.len() as usize,
                        },
                    ),
                }
            }
        }),
        ({
            let sizes_key = "lance:index_build:precomputed_encoded_partition_sizes"@;
            let fragments_key = "lance:index_build:precomputed_encoded_partition_fragment_ids"@;
            let loss_key = "lance:index_build:precomputed_encoded_total_loss"@;
            let metadata = dataset.metadata@;
            metadata.contains_key(sizes_key) && json_sizes(
                metadata[sizes_key],
                usize::BITS,
            ) is Ok && !metadata.contains_key(fragments_key) && !metadata.contains_key(loss_key)
                ==> r is Ok
        }),
{
}

/// The total loss of an opened reader is what its metadata entry is read as.
pub proof fn law_loss_of_an_opened_reader<L: Fn(&str) -> Result<u64, String>>(
    dataset: DatasetDescription,
    parse_loss: L,
    reader: ReaderView,
) -> (text: &'static str)
    requires
        opened(dataset, parse_loss, Ok::<ReaderView, Error>(reader)),
        dataset.metadata@.contains_key("lance:index_build:precomputed_encoded_total_loss"@),
    ensures
        reader.total_loss is Some,
        text@ == dataset.metadata@["lance:index_build:precomputed_encoded_total_loss"@],
        call_ensures(parse_loss, (text,), Ok::<u64, String>(reader.total_loss->0)),
{
    let key = PRECOMPUTED_ENCODED_TOTAL_LOSS_METADATA_KEY@;
    let metadata = dataset.metadata@;
    let (text, loss) = choose|text: &str, loss: Result<u64, String>|
        text@ == metadata[key] && #[trigger] call_ensures(parse_loss, (text,), loss) && loss is Ok
            && reader.total_loss == Some(loss->Ok_0);
    text
}

/// A dataset has a column exactly where its name is among theirs.
pub proof fn law_columns_by_name(columns: Seq<String>, name: Seq<char>)
    ensures
        has_column(columns, name) <==> columns.map_values(|c: String| c@).contains(name),
{
    let names = columns.map_values(|c: String| c@);
    if names.contains(name) {
        let i = choose|i: int| 0 <= i < names.len() && names[i] == name;
        assert(columns[i]@ == name);
    }
    if has_column(columns, name) {
        let i = choose|i: int| 0 <= i < columns.len() && (#[trigger] columns[i])@ == name;
        assert(names[i] == name);
    }
}

/// The sizes of the partitions are what their metadata entry is read as; it has to be there, and what
/// is wrong with it is told with the entry.
pub proof fn law_sizes_of_the_partitions(
    metadata: Map<Seq<char>, Seq<char>>,
    r: Result<Seq<usize>, Error>,
)
    requires
        sizes_read(metadata, r),
    ensures
        ({
            let key = "lance:index_build:precomputed_encoded_partition_sizes"@;
            let read = json_sizes(metadata[key], usize::BITS);
            &&& !metadata.contains_key(key) ==> (r matches Err(Error::MissingMetadata(k)) && k@
                == key)
            &&& metadata.contains_key(key) && read is Ok ==> r == Ok::<Seq<usize>, Error>(
                read->Ok_0,
            )
            &&& metadata.contains_key(key) && read is Err ==> (r matches Err(
                Error::MetadataParse { key: k, value, error },
            ) && k@ == key && value@ == metadata[key] && error@ == read->Err_0)
        }),
{
}

/// The fragments of the partitions are those of the ids that their metadata entry is read as; there
/// are none where it is not there, and what is wrong with it is told with the entry.
pub proof fn law_listed_fragments(
    metadata: Map<Seq<char>, Seq<char>>,
    fragment_ids: Seq<u64>,
    r: Result<Option<Seq<Seq<usize>>>, Error>,
)
    requires
        fragments_read(metadata, fragment_ids, r),
    ensures
        ({
            let key = "lance:index_build:precomputed_encoded_partition_fragment_ids"@;
            let read = json_number_lists(metadata[key]);
            &&& !metadata.contains_key(key) ==> r == Ok::<Option<Seq<Seq<usize>>>, Error>(None)
            &&& metadata.contains_key(key) && read is Err ==> (r matches Err(
                Error::MetadataParse { key: k, value, error },
            ) && k@ == key && value@ == metadata[key] && error@ == read->Err_0)
            &&& metadata.contains_key(key) && read is Ok ==> match resolved_partitions(
                fragment_ids,
                read->Ok_0,
                read->Ok_0.len(),
            ) {
                Ok(resolved) => r == Ok::<Option<Seq<Seq<usize>>>, Error>(Some(resolved)),
                Err(e) => r == Err::<Option<Seq<Seq<usize>>>, Error>(e),
            }
        }),
{
}

/// A failure on a metadata entry names the entry, its text and what is wrong with it.
pub proof fn law_parse_errors(e: Error, key: Seq<char>, value: Seq<char>, error: Seq<char>)
    requires
        is_parse_error(e, key, value, error),
    ensures
        e is MetadataParse,
        e->key@ == key,
        e->value@ == value,
        e->error@ == error,
{
}

/// A dataset whose columns, sizes and fragments are in order is not opened only where its total loss
/// cannot be read, and then the entry and what is wrong with it are told.
pub proof fn law_loss_that_is_not_read<L: Fn(&str) -> Result<u64, String>>(
    dataset: DatasetDescription,
    parse_loss: L,
    e: Error,
) -> (r: (&'static str, String))
    requires
        opened(dataset, parse_loss, Err::<ReaderView, Error>(e)),
        has_column(dataset.columns@, "_rowid"@) || has_column(dataset.columns@, "row_id"@),
        has_column(dataset.columns@, "__ivf_part_id"@),
        has_column(dataset.columns@, "__pq_code"@),
        ({
            let sizes_key = "lance:index_build:precomputed_encoded_partition_sizes"@;
            let fragments_key = "lance:index_build:precomputed_encoded_partition_fragment_ids"@;
            let metadata = dataset.metadata@;
            let sizes = json_sizes(metadata[sizes_key], usize::BITS);
            let lists = json_number_lists(metadata[fragments_key]);
            &&& metadata.contains_key(sizes_key) && sizes is Ok
            &&& metadata.contains_key(fragments_key) ==> lists is Ok && lists->Ok_0.len()
                == sizes->Ok_0.len() && resolved_partitions(
                dataset.fragment_ids@,
                lists->Ok_0,
                lists->Ok_0.len(),
            ) is Ok
        }),
    ensures
        ({
            let key = "lance:index_build:precomputed_encoded_total_loss"@;
            let metadata = dataset.metadata@;
            &&& metadata.contains_key(key)
            &&& r.0@ == metadata[key]
            &&& call_ensures(parse_loss, (r.0,), Err::<u64, String>(r.1))
            &&& e is MetadataParse && e->key@ == key && e->value@ == metadata[key] && e->error@
                == r.1@
        }),
{
    let fragments_key = PRECOMPUTED_ENCODED_PARTITION_FRAGMENT_IDS_METADATA_KEY@;
    let key = PRECOMPUTED_ENCODED_TOTAL_LOSS_METADATA_KEY@;
    let metadata = dataset.metadata@;
    if metadata.contains_key(fragments_key) {
        let lists = json_number_lists(metadata[fragments_key])->Ok_0;
        assert(dataset.fragment_ids.len() == dataset.fragment_ids@.len());
        law_fragments_of_the_partitions(dataset.fragment_ids@, lists, lists.len());
    }
    let (text, loss) = choose|text: &str, loss: Result<u64, String>|
        text@ == metadata[key] && #[trigger] call_ensures(parse_loss, (text,), loss) && loss is Err
            && is_parse_error(e, key, metadata[key], loss->Err_0@);
    (text, loss->Err_0)
}

} // verus!
