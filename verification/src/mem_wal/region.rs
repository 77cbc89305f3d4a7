//! Region specs: how rows are spread over regions.
use vstd::prelude::*;

use crate::bytes::push_le;
use crate::error::Error;
use crate::mem_wal::batch::{append_array_value, find_column_by_field_id, RecordBatch};
use crate::mem_wal::pb;
use crate::mem_wal::transforms::{BUCKET, IDENTITY, MULTI_BUCKET};
use crate::string_map::StringMap;
use crate::text::{copy_text, parse_u32, same_text};

verus! {

/// The 32-bit murmur3 hash of `data` under `seed`.
pub uninterp spec fn murmur3_of(data: Seq<u8>, seed: u32) -> u32;

/// Calls `murmur3::murmur3_32` on the bytes. The contract claims that the hash depends on the bytes
/// and the seed alone, and that there is one: the outside function fails only where reading its
/// source fails, and bytes in memory can always be read. It counts the bytes in 32 bits, so longer
/// data is left out.
#[verifier::external_body]
fn murmur3_hash(data: &[u8], seed: u32) -> (r: Option<u32>)
    requires
        data@.len() <= u32::MAX,
    ensures
        r == Some(murmur3_of(data@, seed)),
{
    murmur3::murmur3_32(&mut std::io::Cursor::new(data), seed).ok()
}

/// Region field definition.
#[derive(Debug, Clone, PartialEq, Eq)]
pub struct RegionField {
    pub field_id: String,
    pub source_ids: Vec<i32>,
    pub transform: Option<String>,
    pub expression: Option<String>,
    pub result_type: String,
    pub parameters: StringMap,
}

/// Region spec definition.
#[derive(Debug, Clone, PartialEq, Eq)]
pub struct RegionSpec {
    pub spec_id: u32,
    pub fields: Vec<RegionField>,
}

/// The bucket that a row falls into.
#[derive(Debug, Clone)]
pub struct BucketResult {
    /// The computed bucket number, below `num_buckets`.
    pub bucket: u32,
    /// The number of buckets in the transform.
    pub num_buckets: u32,
}

/// The values of the source columns at a row, one after the other.
pub open spec fn row_bytes(batch: RecordBatch, source_ids: Seq<i32>, row: int) -> Result<
    Seq<u8>,
    Error,
>
    decreases source_ids.len(),
{
    if source_ids.len() == 0 {
        Ok(Seq::empty())
    } else {
        match row_bytes(batch, source_ids.drop_last(), row) {
            Err(e) => Err(e),
            Ok(data) => match crate::mem_wal::batch::found_column(
                batch.columns@,
                source_ids.last(),
            ) {
                Err(e) => Err(e),
                Ok(c) => match crate::mem_wal::batch::cell_bytes(batch.columns@[c as int], row) {
                    Err(e) => Err(e),
                    Ok(bytes) => Ok(data + bytes),
                },
            },
        }
    }
}

/// Reading the source columns touches the row: there is a first one, and it is found.
pub open spec fn reads_row(batch: RecordBatch, source_ids: Seq<i32>) -> bool {
    source_ids.len() > 0 && crate::mem_wal::batch::found_column(batch.columns@, source_ids[0]) is Ok
}

/// The row can be read, and what is read is short enough to be hashed.
pub open spec fn hashable(batch: RecordBatch, source_ids: Seq<i32>, row: int) -> bool {
    &&& reads_row(batch, source_ids) ==> row < batch.num_rows
    &&& row_bytes(batch, source_ids, row) matches Ok(data) ==> data.len() <= u32::MAX
}

/// What stands in place of a hash: the first failure, or the hash of the row as a signed number.
pub open spec fn row_hash(batch: RecordBatch, source_ids: Seq<i32>, row: int) -> Result<int, Error> {
    match row_bytes(batch, source_ids, row) {
        Err(e) => Err(e),
        Ok(data) => {
            let hash = murmur3_of(data, 0);
            Ok(
                if hash < 0x8000_0000 {
                    hash as int
                } else {
                    hash - 0x1_0000_0000
                },
            )
        },
    }
}

/// The bucket of a hash: its magnitude, modulo the number of buckets.
pub open spec fn bucket_of(hash: int, num_buckets: u32) -> u32
    recommends
        num_buckets > 0,
{
    ((if hash < 0 {
        0 - hash
    } else {
        hash
    }) % (num_buckets as int)) as u32
}

/// The bucket of a hash: its magnitude, modulo the number of buckets.
pub fn bucket_from_hash(hash: i32, num_buckets: u32) -> (bucket: u32)
    requires
        num_buckets > 0,
    ensures
        bucket == bucket_of(hash as int, num_buckets),
        bucket < num_buckets,
        exists|q: int|
            0 <= q && (if hash < 0 {
                -hash
            } else {
                hash as int
            }) == #[trigger] (q * num_buckets) + bucket,
{
    proof {
        law_bucket_is_the_remainder(hash as int, num_buckets);
    }
    let wide: i64 = hash as i64;
    let magnitude: u32 = if wide < 0 {
        (0 - wide) as u32
    } else {
        wide as u32
    };
    magnitude % num_buckets
}

/// The transform hashes into buckets.
pub open spec fn is_bucket_transform(transform: Option<String>) -> bool {
    transform matches Some(t) && (t@ == BUCKET@ || t@ == MULTI_BUCKET@)
}

/// The number of buckets that the parameters give.
pub open spec fn num_buckets_of(parameters: Map<Seq<char>, Seq<char>>) -> Result<u32, Error> {
    if !parameters.contains_key("num_buckets"@) {
        Err(Error::MissingNumBuckets)
    } else {
        match crate::text::parsed_u32(parameters["num_buckets"@]) {
            Ok(n) => Ok(n),
            Err(kind) => Err(Error::InvalidNumBuckets(kind)),
        }
    }
}

/// The bucket of a row by its source columns can be computed: where there is a number of buckets,
/// the columns can be hashed, and there is a bucket to put the row in.
pub open spec fn sources_ready(
    batch: RecordBatch,
    source_ids: Seq<i32>,
    num_buckets: Result<u32, Error>,
    row: int,
) -> bool {
    num_buckets matches Ok(n) ==> {
        &&& hashable(batch, source_ids, row)
        &&& n == 0 ==> row_bytes(batch, source_ids, row) is Err
    }
}

impl RegionField {
    /// Whether the transform of this field hashes into buckets.
    pub fn is_bucket(&self) -> (r: bool)
        ensures
            r == is_bucket_transform(self.transform),
    {
        match &self.transform {
            Some(t) => same_text(t, BUCKET) || same_text(t, MULTI_BUCKET),
            None => false,
        }
    }

    /// The number of buckets that the parameters give.
    pub fn num_buckets(&self) -> (r: Result<u32, Error>)
        ensures
            r == num_buckets_of(self.parameters@),
    {
        match self.parameters.get("num_buckets") {
            None => Err(Error::MissingNumBuckets),
            Some(text) => match parse_u32(text.as_str()) {
                Ok(n) => Ok(n),
                Err(kind) => Err(Error::InvalidNumBuckets(kind)),
            },
        }
    }

    /// What the value of this field is at a row.
    pub open spec fn value(&self, batch: RecordBatch, row: int) -> Result<Seq<u8>, Error> {
        if is_bucket_transform(self.transform) {
            self.bucket_value(batch, row)
        } else {
            match self.transform {
                None => row_bytes(batch, self.source_ids@, row),
                Some(t) => if t@ == IDENTITY@ {
                    row_bytes(batch, self.source_ids@, row)
                } else {
                    Err(Error::UnsupportedTransform(t))
                },
            }
        }
    }

    /// What the bucket value of this field is at a row.
    pub open spec fn bucket_value(&self, batch: RecordBatch, row: int) -> Result<Seq<u8>, Error> {
        match num_buckets_of(self.parameters@) {
            Err(e) => Err(e),
            Ok(n) => match row_hash(batch, self.source_ids@, row) {
                Err(e) => Err(e),
                Ok(hash) => Ok(crate::bytes::le_bytes(bucket_of(hash, n) as nat, 4)),
            },
        }
    }

    /// The bucket of a row can be computed: it can be hashed, and there is a bucket to put it in.
    pub open spec fn bucket_ready(&self, batch: RecordBatch, row: int) -> bool {
        sources_ready(batch, self.source_ids@, num_buckets_of(self.parameters@), row)
    }

    /// The value of this field can be computed at a row.
    pub open spec fn value_ready(&self, batch: RecordBatch, row: int) -> bool {
        if is_bucket_transform(self.transform) {
            self.bucket_ready(batch, row)
        } else {
            (self.transform matches Some(t) ==> t@ == IDENTITY@) && reads_row(
                batch,
                self.source_ids@,
            ) ==> row < batch.num_rows
        }
    }

    /// Computes the value of this region field for a single row: the raw bytes of the hashed or
    /// transformed value.
    pub fn compute_value(&self, batch: &RecordBatch, row_idx: usize) -> (r: Result<Vec<u8>, Error>)
        requires
            batch.wf(),
            self.value_ready(*batch, row_idx as int),
        ensures
            match r {
                Ok(bytes) => self.value(*batch, row_idx as int) == Ok::<Seq<u8>, Error>(bytes@),
                Err(e) => self.value(*batch, row_idx as int) == Err::<Seq<u8>, Error>(e),
            },
    {
        if self.is_bucket() {
            return self.compute_bucket_value(batch, row_idx);
        }
        match &self.transform {
            None => self.compute_identity_value(batch, row_idx),
            Some(t) => if same_text(t, IDENTITY) {
                self.compute_identity_value(batch, row_idx)
            } else {
                Err(Error::UnsupportedTransform(t.clone()))
            },
        }
    }

    /// Computes the bucket value for bucket transforms.
    pub fn compute_bucket_value(&self, batch: &RecordBatch, row_idx: usize) -> (r: Result<
        Vec<u8>,
        Error,
    >)
        requires
            batch.wf(),
            self.bucket_ready(*batch, row_idx as int),
        ensures
            match r {
                Ok(bytes) => self.bucket_value(*batch, row_idx as int) == Ok::<Seq<u8>, Error>(
                    bytes@,
                ),
                Err(e) => self.bucket_value(*batch, row_idx as int) == Err::<Seq<u8>, Error>(e),
            },
    {
        let num_buckets: u32 = match self.num_buckets() {
            Ok(n) => n,
            Err(e) => {
                return Err(e);
            },
        };
        let hash: i32 = match self.compute_murmur3_hash(batch, row_idx) {
            Ok(hash) => hash,
            Err(e) => {
                return Err(e);
            },
        };
        let bucket: u32 = bucket_from_hash(hash, num_buckets);
        let mut bytes: Vec<u8> = Vec::new();
        push_le(&mut bytes, bucket as u64, 4);
        assert(bytes@ =~= crate::bytes::le_bytes(bucket as nat, 4));
        Ok(bytes)
    }

    /// Computes the identity value: the raw column values one after the other.
    pub fn compute_identity_value(&self, batch: &RecordBatch, row_idx: usize) -> (r: Result<
        Vec<u8>,
        Error,
    >)
        requires
            batch.wf(),
            reads_row(*batch, self.source_ids@) ==> row_idx < batch.num_rows,
        ensures
            match r {
                Ok(bytes) => row_bytes(*batch, self.source_ids@, row_idx as int) == Ok::<
                    Seq<u8>,
                    Error,
                >(bytes@),
                Err(e) => row_bytes(*batch, self.source_ids@, row_idx as int) == Err::<
                    Seq<u8>,
                    Error,
                >(e),
            },
    {
        read_sources(batch, self.source_ids.as_slice(), row_idx)
    }

    /// Computes the murmur3 hash of the source columns at a row.
    pub fn compute_murmur3_hash(&self, batch: &RecordBatch, row_idx: usize) -> (r: Result<
        i32,
        Error,
    >)
        requires
            batch.wf(),
            hashable(*batch, self.source_ids@, row_idx as int),
        ensures
            match r {
                Ok(hash) => row_hash(*batch, self.source_ids@, row_idx as int) == Ok::<int, Error>(
                    hash as int,
                ),
                Err(e) => row_hash(*batch, self.source_ids@, row_idx as int) == Err::<int, Error>(e),
            },
    {
        hash_sources(batch, self.source_ids.as_slice(), row_idx)
    }
}

/// Reads the values of source columns at a row, one after the other.
pub fn read_sources(batch: &RecordBatch, source_ids: &[i32], row_idx: usize) -> (r: Result<
    Vec<u8>,
    Error,
>)
    requires
        batch.wf(),
        reads_row(*batch, source_ids@) ==> row_idx < batch.num_rows,
    ensures
        match r {
            Ok(bytes) => row_bytes(*batch, source_ids@, row_idx as int) == Ok::<Seq<u8>, Error>(
                bytes@,
            ),
            Err(e) => row_bytes(*batch, source_ids@, row_idx as int) == Err::<Seq<u8>, Error>(e),
        },
{
    let mut data: Vec<u8> = Vec::new();
    let n: usize = source_ids.len();
    let mut i: usize = 0;
    proof {
        assert(source_ids@.take(0) =~= Seq::<i32>::empty());
    }
    while i < n
        invariant
            i <= n,
            n == source_ids@.len(),
            batch.wf(),
            reads_row(*batch, source_ids@) ==> row_idx < batch.num_rows,
            row_bytes(*batch, source_ids@.take(i as int), row_idx as int) == Ok::<Seq<u8>, Error>(
                data@,
            ),
        decreases n - i,
    {
        let ghost so_far = source_ids@.take(i + 1);
        proof {
            assert(so_far.drop_last() =~= source_ids@.take(i as int));
            assert(so_far.last() == source_ids@[i as int]);
        }
        let col_idx: usize = match find_column_by_field_id(batch, source_ids[i]) {
            Ok(c) => c,
            Err(e) => {
                proof {
                    lemma_first_failure(*batch, source_ids@, row_idx as int, (i + 1) as nat, e);
                }
                return Err(e);
            },
        };
        proof {
            if i > 0 {
                lemma_first_found(*batch, source_ids@.take(i as int), row_idx as int);
            }
            assert(reads_row(*batch, source_ids@));
        }
        match append_array_value(&mut data, &batch.columns[col_idx], row_idx) {
            Ok(_) => {},
            Err(e) => {
                proof {
                    lemma_first_failure(*batch, source_ids@, row_idx as int, (i + 1) as nat, e);
                }
                return Err(e);
            },
        }
        i = i + 1;
    }
    assert(source_ids@.take(n as int) =~= source_ids@);
    Ok(data)
}

/// Computes the murmur3 hash of source columns at a row.
pub fn hash_sources(batch: &RecordBatch, source_ids: &[i32], row_idx: usize) -> (r: Result<
    i32,
    Error,
>)
    requires
        batch.wf(),
        hashable(*batch, source_ids@, row_idx as int),
    ensures
        match r {
            Ok(hash) => row_hash(*batch, source_ids@, row_idx as int) == Ok::<int, Error>(
                hash as int,
            ),
            Err(e) => row_hash(*batch, source_ids@, row_idx as int) == Err::<int, Error>(e),
        },
{
    match read_sources(batch, source_ids, row_idx) {
        Err(e) => Err(e),
        Ok(data) => match murmur3_hash(data.as_slice(), 0) {
            None => Err(Error::HashFailed),
            Some(hash) => {
                if hash < 0x8000_0000 {
                    Ok(hash as i32)
                } else {
                    Ok((hash as i64 - 0x1_0000_0000) as i32)
                }
            },
        },
    }
}

/// A failure in the first columns is a failure of all of them.
proof fn lemma_first_failure(
    batch: RecordBatch,
    source_ids: Seq<i32>,
    row: int,
    n: nat,
    e: Error,
)
    requires
        n <= source_ids.len(),
        row_bytes(batch, source_ids.take(n as int), row) == Err::<Seq<u8>, Error>(e),
    ensures
        row_bytes(batch, source_ids, row) == Err::<Seq<u8>, Error>(e),
    decreases source_ids.len(),
{
    if n == source_ids.len() {
        assert(source_ids.take(n as int) =~= source_ids);
    } else {
        assert(source_ids.drop_last().take(n as int) =~= source_ids.take(n as int));
        lemma_first_failure(batch, source_ids.drop_last(), row, n, e);
    }
}

/// Where values were read, the first column was found.
proof fn lemma_first_found(batch: RecordBatch, source_ids: Seq<i32>, row: int)
    requires
        source_ids.len() > 0,
        row_bytes(batch, source_ids, row) is Ok,
    ensures
        crate::mem_wal::batch::found_column(batch.columns@, source_ids[0]) is Ok,
    decreases source_ids.len(),
{
    if source_ids.len() > 1 {
        lemma_first_found(batch, source_ids.drop_last(), row);
    }
}

/// The buckets of the first `n` rows, or the first failure.
pub open spec fn buckets_of(
    batch: RecordBatch,
    source_ids: Seq<i32>,
    num_buckets: u32,
    n: nat,
) -> Result<Seq<u32>, Error>
    decreases n,
{
    if n == 0 {
        Ok(Seq::empty())
    } else {
        match buckets_of(batch, source_ids, num_buckets, (n - 1) as nat) {
            Err(e) => Err(e),
            Ok(buckets) => match row_hash(batch, source_ids, n - 1) {
                Err(e) => Err(e),
                Ok(hash) => Ok(buckets.push(bucket_of(hash, num_buckets))),
            },
        }
    }
}

/// The source columns that fields hash together: those of the first field, then those of the later
/// fields that hash into buckets.
pub open spec fn hashed_sources(fields: Seq<RegionField>) -> Seq<i32>
    decreases fields.len(),
{
    if fields.len() == 0 {
        Seq::empty()
    } else {
        let before = hashed_sources(fields.drop_last());
        if fields.len() == 1 || is_bucket_transform(fields.last().transform) {
            before + fields.last().source_ids@
        } else {
            before
        }
    }
}

impl RegionSpec {
    /// The source columns that the fields of this spec hash together: those of the first field, then
    /// those of the later fields that hash into buckets.
    pub fn hashed_sources(&self) -> (r: Vec<i32>)
        ensures
            r@ == hashed_sources(self.fields@),
    {
        let mut sources: Vec<i32> = Vec::new();
        let n: usize = self.fields.len();
        let mut i: usize = 0;
        proof {
            assert(self.fields@.take(0) =~= Seq::<RegionField>::empty());
        }
        while i < n
            invariant
                i <= n,
                n == self.fields@.len(),
                sources@ == hashed_sources(self.fields@.take(i as int)),
            decreases n - i,
        {
            proof {
                let so_far = self.fields@.take(i + 1);
                assert(so_far.drop_last() =~= self.fields@.take(i as int));
                assert(so_far.last() == self.fields@[i as int]);
            }
            if i == 0 || self.fields[i].is_bucket() {
                let ghost before = sources@;
                sources.extend_from_slice(self.fields[i].source_ids.as_slice());
                assert(sources@ =~= before + self.fields@[i as int].source_ids@);
            }
            i = i + 1;
        }
        assert(self.fields@.take(n as int) =~= self.fields@);
        sources
    }

    /// The bucket of a row can be computed.
    pub open spec fn bucket_ready(&self, batch: RecordBatch, row: int) -> bool {
        sources_ready(
            batch,
            hashed_sources(self.fields@),
            num_buckets_of(self.fields@[0].parameters@),
            row,
        )
    }

    /// The bucket of a row.
    pub open spec fn bucket(&self, batch: RecordBatch, row: int) -> Result<BucketResult, Error> {
        if self.fields@.len() == 0 {
            Err(Error::NoRegionFields)
        } else {
            let field = self.fields@[0];
            if !is_bucket_transform(field.transform) {
                Err(Error::UnsupportedRouting)
            } else {
                match num_buckets_of(field.parameters@) {
                    Err(e) => Err(e),
                    Ok(num_buckets) => match row_hash(
                        batch,
                        hashed_sources(self.fields@),
                        row,
                    ) {
                        Err(e) => Err(e),
                        Ok(hash) => Ok(
                            BucketResult { bucket: bucket_of(hash, num_buckets), num_buckets },
                        ),
                    },
                }
            }
        }
    }

    /// The buckets of all rows, with their number.
    pub open spec fn buckets(&self, batch: RecordBatch) -> Result<(Seq<u32>, u32), Error> {
        if self.fields@.len() == 0 {
            Err(Error::NoRegionFields)
        } else {
            let field = self.fields@[0];
            match num_buckets_of(field.parameters@) {
                Err(e) => Err(e),
                Ok(num_buckets) => match buckets_of(
                    batch,
                    hashed_sources(self.fields@),
                    num_buckets,
                    batch.num_rows as nat,
                ) {
                    Err(e) => Err(e),
                    Ok(buckets) => Ok((buckets, num_buckets)),
                },
            }
        }
    }

    /// Computes the bucket of a row.
    ///
    /// The first field of the spec defines the bucket transform and the number of buckets. Later
    /// fields that hash into buckets are combined with it: the values of the source columns of all
    /// of them are hashed together, one after the other.
    pub fn compute_bucket(&self, batch: &RecordBatch, row_idx: usize) -> (r: Result<
        BucketResult,
        Error,
    >)
        requires
            batch.wf(),
            self.fields@.len() > 0 && is_bucket_transform(self.fields@[0].transform)
                ==> self.bucket_ready(*batch, row_idx as int),
        ensures
            r == self.bucket(*batch, row_idx as int),
            r matches Ok(b) ==> b.bucket < b.num_buckets,
    {
        if self.fields.len() == 0 {
            return Err(Error::NoRegionFields);
        }
        let field: &RegionField = &self.fields[0];
        if !field.is_bucket() {
            return Err(Error::UnsupportedRouting);
        }
        let num_buckets: u32 = match field.num_buckets() {
            Ok(n) => n,
            Err(e) => {
                return Err(e);
            },
        };
        let sources = self.hashed_sources();
        match hash_sources(batch, sources.as_slice(), row_idx) {
            Err(e) => Err(e),
            Ok(hash) => {
                let bucket: u32 = bucket_from_hash(hash, num_buckets);
                Ok(BucketResult { bucket, num_buckets })
            },
        }
    }

    /// The buckets of all rows can be computed.
    pub open spec fn buckets_ready(&self, batch: RecordBatch) -> bool {
        self.fields@.len() > 0 && num_buckets_of(self.fields@[0].parameters@) is Ok ==> forall|
            row: int,
        |
            0 <= row < batch.num_rows && #[trigger] buckets_of(
                batch,
                hashed_sources(self.fields@),
                num_buckets_of(self.fields@[0].parameters@)->Ok_0,
                row as nat,
            ) is Ok ==> self.bucket_ready(batch, row)
    }

    /// Computes the buckets of all rows of a batch, one for each row, from the same source columns
    /// as that of a single row.
    pub fn compute_buckets(&self, batch: &RecordBatch) -> (r: Result<(Vec<u32>, u32), Error>)
        requires
            batch.wf(),
            self.buckets_ready(*batch),
        ensures
            match r {
                Ok(b) => self.buckets(*batch) == Ok::<(Seq<u32>, u32), Error>((b.0@, b.1)),
                Err(e) => self.buckets(*batch) == Err::<(Seq<u32>, u32), Error>(e),
            },
            r matches Ok(b) ==> b.0@.len() == batch.num_rows && forall|row: int|
                0 <= row < batch.num_rows ==> #[trigger] b.0@[row] < b.1,
    {
        if self.fields.len() == 0 {
            return Err(Error::NoRegionFields);
        }
        let field: &RegionField = &self.fields[0];
        let num_buckets: u32 = match field.num_buckets() {
            Ok(n) => n,
            Err(e) => {
                return Err(e);
            },
        };
        let sources = self.hashed_sources();
        let mut buckets: Vec<u32> = Vec::new();
        let mut row_idx: usize = 0;
        while row_idx < batch.num_rows
            invariant
                row_idx <= batch.num_rows,
                batch.wf(),
                self.buckets_ready(*batch),
                self.fields@.len() > 0,
                field == self.fields@[0],
                num_buckets_of(field.parameters@) == Ok::<u32, Error>(num_buckets),
                sources@ == hashed_sources(self.fields@),
                buckets_of(*batch, sources@, num_buckets, row_idx as nat) == Ok::<Seq<u32>, Error>(
                    buckets@,
                ),
                buckets@.len() == row_idx,
                forall|row: int| 0 <= row < row_idx ==> #[trigger] buckets@[row] < num_buckets,
            decreases batch.num_rows - row_idx,
        {
            assert(self.bucket_ready(*batch, row_idx as int)) by {
                assert(buckets_of(*batch, sources@, num_buckets, row_idx as nat) is Ok);
            }
            match hash_sources(batch, sources.as_slice(), row_idx) {
                Err(e) => {
                    proof {
                        lemma_first_bad_row(
                            *batch,
                            sources@,
                            num_buckets,
                            (row_idx + 1) as nat,
                            batch.num_rows as nat,
                            e,
                        );
                    }
                    return Err(e);
                },
                Ok(hash) => {
                    let bucket: u32 = bucket_from_hash(hash, num_buckets);
                    buckets.push(bucket);
                },
            }
            row_idx = row_idx + 1;
        }
        Ok((buckets, num_buckets))
    }
}

/// A failure in the first rows is a failure of all of them.
proof fn lemma_first_bad_row(
    batch: RecordBatch,
    source_ids: Seq<i32>,
    num_buckets: u32,
    a: nat,
    b: nat,
    e: Error,
)
    requires
        a <= b,
        buckets_of(batch, source_ids, num_buckets, a) == Err::<Seq<u32>, Error>(e),
    ensures
        buckets_of(batch, source_ids, num_buckets, b) == Err::<Seq<u32>, Error>(e),
    decreases b,
{
    if a < b {
        lemma_first_bad_row(batch, source_ids, num_buckets, a, (b - 1) as nat, e);
    }
}

/// The bucket of a row among the buckets of all rows.
proof fn lemma_bucket_at(
    batch: RecordBatch,
    source_ids: Seq<i32>,
    num_buckets: u32,
    n: nat,
    row: int,
)
    requires
        0 <= row < n,
        buckets_of(batch, source_ids, num_buckets, n) is Ok,
    ensures
        buckets_of(batch, source_ids, num_buckets, n)->Ok_0.len() == n,
        row_hash(batch, source_ids, row) matches Ok(hash) && buckets_of(
            batch,
            source_ids,
            num_buckets,
            n,
        )->Ok_0[row] == bucket_of(hash, num_buckets),
    decreases n,
{
    lemma_buckets_len(batch, source_ids, num_buckets, (n - 1) as nat);
    if row < n - 1 {
        lemma_bucket_at(batch, source_ids, num_buckets, (n - 1) as nat, row);
    }
}

/// There is one bucket for every row.
proof fn lemma_buckets_len(batch: RecordBatch, source_ids: Seq<i32>, num_buckets: u32, n: nat)
    requires
        buckets_of(batch, source_ids, num_buckets, n) is Ok,
    ensures
        buckets_of(batch, source_ids, num_buckets, n)->Ok_0.len() == n,
    decreases n,
{
    if n > 0 {
        lemma_buckets_len(batch, source_ids, num_buckets, (n - 1) as nat);
    }
}

/// The buckets of a batch are the buckets of its rows: where rows are routed by buckets, computing
/// all at once succeeds exactly where computing each succeeds, with the same buckets.
pub proof fn law_buckets_agree_with_rows(spec: RegionSpec, batch: RecordBatch)
    requires
        spec.fields@.len() > 0,
        is_bucket_transform(spec.fields@[0].transform),
        num_buckets_of(spec.fields@[0].parameters@) is Ok,
    ensures
        spec.buckets(batch) is Ok <==> forall|row: int|
            0 <= row < batch.num_rows ==> #[trigger] spec.bucket(batch, row) is Ok,
        spec.buckets(batch) matches Ok(b) ==> b.0.len() == batch.num_rows && forall|row: int|
            0 <= row < batch.num_rows ==> #[trigger] spec.bucket(batch, row) == Ok::<
                BucketResult,
                Error,
            >(BucketResult { bucket: b.0[row], num_buckets: b.1 }),
{
    let field = spec.fields@[0];
    let sources = hashed_sources(spec.fields@);
    let n = num_buckets_of(field.parameters@)->Ok_0;
    let rows = batch.num_rows as nat;
    if spec.buckets(batch) is Ok {
        lemma_buckets_len(batch, sources, n, rows);
        assert forall|row: int| 0 <= row < batch.num_rows implies #[trigger] spec.bucket(batch, row)
            == Ok::<BucketResult, Error>(
            BucketResult { bucket: spec.buckets(batch)->Ok_0.0[row], num_buckets: n },
        ) by {
            lemma_bucket_at(batch, sources, n, rows, row);
        }
    } else {
        let row = lemma_bad_row(batch, sources, n, rows);
        assert(spec.bucket(batch, row) is Err);
    }
}

/// Several fields that hash into buckets route rows as one field with the source columns of all of
/// them does: splitting the columns over fields changes no bucket.
pub proof fn law_bucket_fields_hash_as_one(
    spec: RegionSpec,
    joined: RegionSpec,
    batch: RecordBatch,
    row: int,
)
    requires
        spec.fields@.len() > 0,
        forall|i: int|
            0 <= i < spec.fields@.len() ==> is_bucket_transform(
                (#[trigger] spec.fields@[i]).transform,
            ),
        joined.fields@.len() == 1,
        is_bucket_transform(joined.fields@[0].transform),
        joined.fields@[0].parameters@ == spec.fields@[0].parameters@,
        joined.fields@[0].source_ids@ == spec.fields@.map_values(
            |field: RegionField| field.source_ids@,
        ).flatten(),
    ensures
        spec.bucket(batch, row) == joined.bucket(batch, row),
        spec.buckets(batch) == joined.buckets(batch),
{
    lemma_joined_sources(spec.fields@);
    reveal_with_fuel(hashed_sources, 2);
    assert(hashed_sources(joined.fields@) =~= joined.fields@[0].source_ids@);
}

/// Fields that all hash into buckets hash all of their source columns.
proof fn lemma_joined_sources(fields: Seq<RegionField>)
    requires
        forall|i: int|
            0 <= i < fields.len() ==> is_bucket_transform((#[trigger] fields[i]).transform),
    ensures
        hashed_sources(fields) == fields.map_values(|field: RegionField| field.source_ids@).flatten(),
    decreases fields.len(),
{
    let lists = fields.map_values(|field: RegionField| field.source_ids@);
    if fields.len() == 0 {
        assert(lists =~= Seq::<Seq<i32>>::empty());
    } else {
        let shorter = fields.drop_last();
        lemma_joined_sources(shorter);
        let before = shorter.map_values(|field: RegionField| field.source_ids@);
        assert(lists =~= before.push(fields.last().source_ids@));
        before.lemma_flatten_push(fields.last().source_ids@);
    }
}

/// A spec of one field hashes the source columns of that field.
pub proof fn law_one_field_hashes_its_columns(spec: RegionSpec)
    requires
        spec.fields@.len() == 1,
    ensures
        hashed_sources(spec.fields@) == spec.fields@[0].source_ids@,
{
    reveal_with_fuel(hashed_sources, 2);
    assert(hashed_sources(spec.fields@) =~= spec.fields@[0].source_ids@);
}

/// Where the buckets of all rows fail, some row fails.
proof fn lemma_bad_row(
    batch: RecordBatch,
    source_ids: Seq<i32>,
    num_buckets: u32,
    n: nat,
) -> (row: int)
    requires
        buckets_of(batch, source_ids, num_buckets, n) is Err,
    ensures
        0 <= row < n,
        row_hash(batch, source_ids, row) is Err,
    decreases n,
{
    if buckets_of(batch, source_ids, num_buckets, (n - 1) as nat) is Err {
        lemma_bad_row(batch, source_ids, num_buckets, (n - 1) as nat)
    } else {
        n - 1
    }
}

impl View for RegionField {
    type V = crate::mem_wal::pb::RegionFieldView;

    open spec fn view(&self) -> crate::mem_wal::pb::RegionFieldView {
        crate::mem_wal::pb::RegionFieldView {
            field_id: self.field_id@,
            source_ids: self.source_ids@,
            transform: crate::mem_wal::pb::optional_text(self.transform),
            expression: crate::mem_wal::pb::optional_text(self.expression),
            result_type: self.result_type@,
            parameters: self.parameters@,
        }
    }
}

impl View for RegionSpec {
    type V = crate::mem_wal::pb::RegionSpecView;

    open spec fn view(&self) -> crate::mem_wal::pb::RegionSpecView {
        crate::mem_wal::pb::RegionSpecView {
            spec_id: self.spec_id,
            fields: self.fields@.map_values(|f: RegionField| f@),
        }
    }
}

/// Copies field ids.
fn copy_ids(ids: &Vec<i32>) -> (r: Vec<i32>)
    ensures
        r@ == ids@,
{
    let mut copy: Vec<i32> = Vec::with_capacity(ids.len());
    let mut i: usize = 0;
    while i < ids.len()
        invariant
            i <= ids@.len(),
            copy@ == ids@.take(i as int),
        decreases ids@.len() - i,
    {
        copy.push(ids[i]);
        assert(copy@ =~= ids@.take(i + 1));
        i = i + 1;
    }
    assert(ids@.take(ids@.len() as int) =~= ids@);
    copy
}

impl From<&RegionField> for pb::RegionField {
    fn from(rf: &RegionField) -> (r: Self)
        ensures
            r@ == rf@,
    {
        pb::RegionField {
            field_id: rf.field_id.clone(),
            source_ids: copy_ids(&rf.source_ids),
            transform: copy_text(&rf.transform),
            expression: copy_text(&rf.expression),
            result_type: rf.result_type.clone(),
            parameters: rf.parameters.clone(),
        }
    }
}

impl vstd::std_specs::convert::FromSpecImpl<&RegionField> for pb::RegionField {
    open spec fn obeys_from_spec() -> bool {
        false
    }

    open spec fn from_spec(rf: &RegionField) -> Self {
        arbitrary()
    }
}

impl From<pb::RegionField> for RegionField {
    fn from(rf: pb::RegionField) -> (r: Self)
        ensures
            r@ == rf@,
    {
        RegionField {
            field_id: rf.field_id,
            source_ids: rf.source_ids,
            transform: rf.transform,
            expression: rf.expression,
            result_type: rf.result_type,
            parameters: rf.parameters,
        }
    }
}

impl vstd::std_specs::convert::FromSpecImpl<pb::RegionField> for RegionField {
    open spec fn obeys_from_spec() -> bool {
        true
    }

    open spec fn from_spec(rf: pb::RegionField) -> Self {
        RegionField {
            field_id: rf.field_id,
            source_ids: rf.source_ids,
            transform: rf.transform,
            expression: rf.expression,
            result_type: rf.result_type,
            parameters: rf.parameters,
        }
    }
}

impl From<&RegionSpec> for pb::RegionSpec {
    fn from(rs: &RegionSpec) -> (r: Self)
        ensures
            r@ == rs@,
    {
        let mut fields: Vec<pb::RegionField> = Vec::with_capacity(rs.fields.len());
        let mut i: usize = 0;
        while i < rs.fields.len()
            invariant
                i <= rs.fields@.len(),
                fields@.len() == i,
                forall|j: int| 0 <= j < i ==> (#[trigger] fields@[j])@ == rs.fields@[j]@,
            decreases rs.fields@.len() - i,
        {
            fields.push(pb::RegionField::from(&rs.fields[i]));
            i = i + 1;
        }
        assert(fields@.map_values(|f: pb::RegionField| f@) =~= rs@.fields);
        pb::RegionSpec { spec_id: rs.spec_id, fields }
    }
}

impl vstd::std_specs::convert::FromSpecImpl<&RegionSpec> for pb::RegionSpec {
    open spec fn obeys_from_spec() -> bool {
        false
    }

    open spec fn from_spec(rs: &RegionSpec) -> Self {
        arbitrary()
    }
}

impl From<pb::RegionSpec> for RegionSpec {
    fn from(rs: pb::RegionSpec) -> (r: Self)
        ensures
            r@ == rs@,
    {
        let ghost given = rs.fields@;
        let mut fields: Vec<RegionField> = Vec::with_capacity(rs.fields.len());
        for f in it: rs.fields
            invariant
                it.seq() == given,
                fields@.len() == it.index(),
                forall|j: int| 0 <= j < it.index() ==> (#[trigger] fields@[j])@ == given[j]@,
        {
            fields.push(RegionField::from(f));
        }
        assert(fields@.map_values(|f: RegionField| f@) =~= rs@.fields);
        RegionSpec { spec_id: rs.spec_id, fields }
    }
}

impl vstd::std_specs::convert::FromSpecImpl<pb::RegionSpec> for RegionSpec {
    open spec fn obeys_from_spec() -> bool {
        false
    }

    open spec fn from_spec(rs: pb::RegionSpec) -> Self {
        arbitrary()
    }
}

/// The bucket of a hash is what its magnitude leaves after whole numbers of buckets.
pub proof fn law_bucket_is_the_remainder(hash: int, num_buckets: u32)
    requires
        num_buckets > 0,
    ensures
        bucket_of(hash, num_buckets) < num_buckets,
        exists|q: int|
            0 <= q && (if hash < 0 {
                -hash
            } else {
                hash
            }) == #[trigger] (q * num_buckets) + bucket_of(hash, num_buckets),
{
    let magnitude = if hash < 0 {
        -hash
    } else {
        hash
    };
    let n = num_buckets as int;
    vstd::arithmetic::div_mod::lemma_fundamental_div_mod(magnitude, n);
    vstd::arithmetic::div_mod::lemma_div_pos_is_pos(magnitude, n);
    vstd::arithmetic::div_mod::lemma_mod_bound(magnitude, n);
    vstd::arithmetic::mul::lemma_mul_is_commutative(n, magnitude / n);
    assert(0 <= magnitude / n && magnitude == (magnitude / n) * num_buckets + bucket_of(
        hash,
        num_buckets,
    ));
}

/// Every bucket is reached: a hash below the number of buckets is its own bucket, with either sign,
/// and as many buckets more in magnitude make no difference.
pub proof fn law_every_bucket_is_reached(b: u32, num_buckets: u32, q: nat)
    requires
        b < num_buckets,
    ensures
        bucket_of(b as int, num_buckets) == b,
        bucket_of(q * num_buckets + b, num_buckets) == b,
        bucket_of(-(q * num_buckets + b), num_buckets) == b,
{
    let x = q * num_buckets + b;
    assert(q * num_buckets >= 0) by (nonlinear_arith);
    vstd::arithmetic::div_mod::lemma_small_mod(b as nat, num_buckets as nat);
    vstd::arithmetic::div_mod::lemma_fundamental_div_mod_converse(
        x,
        num_buckets as int,
        q as int,
        b as int,
    );
}

/// The values of the source columns at a row are those of each column alone, one after the other;
/// where one cannot be read, the failure is that of the first such column.
pub proof fn law_row_bytes_are_the_cells(batch: RecordBatch, source_ids: Seq<i32>, row: int)
    ensures
        match row_bytes(batch, source_ids, row) {
            Ok(data) => (forall|i: int|
                0 <= i < source_ids.len() ==> crate::mem_wal::batch::found_column(
                    batch.columns@,
                    #[trigger] source_ids[i],
                ) is Ok && crate::mem_wal::batch::cell_bytes(
                    batch.columns@[crate::mem_wal::batch::found_column(
                        batch.columns@,
                        source_ids[i],
                    )->Ok_0 as int],
                    row,
                ) is Ok) && data == Seq::new(
                source_ids.len(),
                |i: int|
                    crate::mem_wal::batch::cell_bytes(
                        batch.columns@[crate::mem_wal::batch::found_column(
                            batch.columns@,
                            source_ids[i],
                        )->Ok_0 as int],
                        row,
                    )->Ok_0,
            ).flatten(),
            Err(e) => exists|n: int|
                0 <= n < source_ids.len() && (match crate::mem_wal::batch::found_column(
                    batch.columns@,
                    #[trigger] source_ids[n],
                ) {
                    Err(missing) => e == missing,
                    Ok(c) => crate::mem_wal::batch::cell_bytes(batch.columns@[c as int], row)
                        == Err::<Seq<u8>, Error>(e),
                }) && row_bytes(batch, source_ids.take(n), row) is Ok,
        },
    decreases source_ids.len(),
{
    let cells = Seq::new(
        source_ids.len(),
        |i: int|
            crate::mem_wal::batch::cell_bytes(
                batch.columns@[crate::mem_wal::batch::found_column(
                    batch.columns@,
                    source_ids[i],
                )->Ok_0 as int],
                row,
            )->Ok_0,
    );
    if source_ids.len() == 0 {
        assert(cells =~= Seq::<Seq<u8>>::empty());
        assert(cells.flatten() =~= Seq::<u8>::empty());
    } else {
        let before = source_ids.drop_last();
        law_row_bytes_are_the_cells(batch, before, row);
        let last = source_ids.len() - 1;
        assert(source_ids[last] == source_ids.last());
        match row_bytes(batch, before, row) {
            Err(e) => {
                let n = choose|n: int|
                    0 <= n < before.len() && (match crate::mem_wal::batch::found_column(
                        batch.columns@,
                        #[trigger] before[n],
                    ) {
                        Err(missing) => e == missing,
                        Ok(c) => crate::mem_wal::batch::cell_bytes(batch.columns@[c as int], row)
                            == Err::<Seq<u8>, Error>(e),
                    }) && row_bytes(batch, before.take(n), row) is Ok;
                assert(source_ids[n] == before[n]);
                assert(source_ids.take(n) =~= before.take(n));
            },
            Ok(data) => {
                assert(source_ids.take(last) =~= before);
                if row_bytes(batch, source_ids, row) is Ok {
                    let old_cells = Seq::new(
                        before.len(),
                        |i: int|
                            crate::mem_wal::batch::cell_bytes(
                                batch.columns@[crate::mem_wal::batch::found_column(
                                    batch.columns@,
                                    before[i],
                                )->Ok_0 as int],
                                row,
                            )->Ok_0,
                    );
                    assert(cells =~= old_cells.push(cells[last]));
                    old_cells.lemma_flatten_push(cells[last]);
                    assert forall|i: int|
                        0 <= i < source_ids.len() implies crate::mem_wal::batch::found_column(
                        batch.columns@,
                        #[trigger] source_ids[i],
                    ) is Ok && crate::mem_wal::batch::cell_bytes(
                        batch.columns@[crate::mem_wal::batch::found_column(
                            batch.columns@,
                            source_ids[i],
                        )->Ok_0 as int],
                        row,
                    ) is Ok by {
                        if i < last {
                            assert(before[i] == source_ids[i]);
                        }
                    }
                }
            },
        }
    }
}

/// The hash of a row is the murmur3 hash, with seed zero, of the values of its source columns, taken
/// as a signed number of 32 bits; it fails where they cannot be read.
pub proof fn law_row_hash(batch: RecordBatch, source_ids: Seq<i32>, row: int)
    ensures
        match row_bytes(batch, source_ids, row) {
            Ok(data) => row_hash(batch, source_ids, row) matches Ok(hash) && -0x8000_0000 <= hash
                < 0x8000_0000 && hash % 0x1_0000_0000 == murmur3_of(data, 0),
            Err(e) => row_hash(batch, source_ids, row) == Err::<int, Error>(e),
        },
{
}

/// The number of buckets stands, in decimal, under its own name among the parameters.
pub proof fn law_number_of_buckets(parameters: Map<Seq<char>, Seq<char>>)
    ensures
        !parameters.contains_key("num_buckets"@) ==> num_buckets_of(parameters) == Err::<u32, Error>(
            Error::MissingNumBuckets,
        ),
        parameters.contains_key("num_buckets"@) ==> match crate::text::parsed_u32(
            parameters["num_buckets"@],
        ) {
            Ok(n) => num_buckets_of(parameters) == Ok::<u32, Error>(n),
            Err(kind) => num_buckets_of(parameters) == Err::<u32, Error>(
                Error::InvalidNumBuckets(kind),
            ),
        },
{
}

/// A field hashes into buckets exactly where its transform is `bucket` or `multi_bucket`.
pub proof fn law_bucket_transforms(transform: Option<String>)
    ensures
        is_bucket_transform(transform) <==> transform is Some && (transform->0@ == "bucket"@
            || transform->0@ == "multi_bucket"@),
{
}

/// Fields hash the source columns of the first of them and then those of every later one that
/// hashes into buckets, in order.
pub proof fn law_hashed_sources(fields: Seq<RegionField>)
    requires
        fields.len() > 0,
    ensures
        hashed_sources(fields) == fields[0].source_ids@ + fields.skip(1).filter(
            |field: RegionField|
                field.transform is Some && (field.transform->0@ == "bucket"@ || field.transform->0@
                    == "multi_bucket"@),
        ).map_values(|field: RegionField| field.source_ids@).flatten(),
    decreases fields.len(),
{
    let pred = |field: RegionField|
        field.transform is Some && (field.transform->0@ == "bucket"@ || field.transform->0@
            == "multi_bucket"@);
    let ids = |field: RegionField| field.source_ids@;
    let rest = fields.skip(1);
    reveal(Seq::filter);
    if fields.len() == 1 {
        reveal_with_fuel(hashed_sources, 2);
        assert(rest =~= Seq::<RegionField>::empty());
        assert(rest.filter(pred).map_values(ids) =~= Seq::<Seq<i32>>::empty());
        assert(rest.filter(pred).map_values(ids).flatten() =~= Seq::<i32>::empty());
        assert(hashed_sources(fields) =~= fields[0].source_ids@);
        assert(fields[0].source_ids@ + Seq::<i32>::empty() =~= fields[0].source_ids@);
    } else {
        let shorter = fields.drop_last();
        law_hashed_sources(shorter);
        assert(rest.drop_last() =~= shorter.skip(1));
        assert(rest.last() == fields.last());
        let before = shorter.skip(1).filter(pred);
        if pred(fields.last()) {
            assert(rest.filter(pred) =~= before.push(fields.last()));
            assert(rest.filter(pred).map_values(ids) =~= before.map_values(ids).push(
                fields.last().source_ids@,
            ));
            before.map_values(ids).lemma_flatten_push(fields.last().source_ids@);
            assert(hashed_sources(fields) =~= fields[0].source_ids@ + (before.map_values(
                ids,
            ).flatten() + fields.last().source_ids@));
        } else {
            assert(rest.filter(pred) =~= before);
        }
    }
}

/// Where a row goes. The first field has to hash into buckets and to give their number; the bucket
/// is then what the magnitude of the row's hash leaves after whole numbers of buckets.
pub proof fn law_bucket_of_a_row(spec: RegionSpec, batch: RecordBatch, row: int)
    ensures
        match spec.bucket(batch, row) {
            Ok(b) => {
                &&& spec.fields@.len() > 0
                &&& spec.fields@[0].transform is Some
                &&& spec.fields@[0].transform->0@ == "bucket"@ || spec.fields@[0].transform->0@
                    == "multi_bucket"@
                &&& spec.fields@[0].parameters@.contains_key("num_buckets"@)
                &&& crate::text::parsed_u32(spec.fields@[0].parameters@["num_buckets"@]) == Ok::<
                    u32,
                    crate::text::IntErrorKind,
                >(b.num_buckets)
                &&& row_bytes(batch, hashed_sources(spec.fields@), row) is Ok
                &&& b.num_buckets > 0 ==> b.bucket < b.num_buckets && exists|q: int|
                    0 <= q && ({
                        let hash = murmur3_of(
                            row_bytes(batch, hashed_sources(spec.fields@), row)->Ok_0,
                            0,
                        );
                        if hash < 0x8000_0000 {
                            hash as int
                        } else {
                            0x1_0000_0000 - hash
                        }
                    }) == #[trigger] (q * b.num_buckets) + b.bucket
            },
            Err(e) => if spec.fields@.len() == 0 {
                e == Error::NoRegionFields
            } else if spec.fields@[0].transform is None || (spec.fields@[0].transform->0@
                != "bucket"@ && spec.fields@[0].transform->0@ != "multi_bucket"@) {
                e == Error::UnsupportedRouting
            } else if !spec.fields@[0].parameters@.contains_key("num_buckets"@) {
                e == Error::MissingNumBuckets
            } else {
                match crate::text::parsed_u32(spec.fields@[0].parameters@["num_buckets"@]) {
                    Err(kind) => e == Error::InvalidNumBuckets(kind),
                    Ok(_) => row_bytes(batch, hashed_sources(spec.fields@), row) == Err::<
                        Seq<u8>,
                        Error,
                    >(e),
                }
            },
        },
{
    if spec.bucket(batch, row) is Ok {
        let b = spec.bucket(batch, row)->Ok_0;
        let hash = row_hash(batch, hashed_sources(spec.fields@), row)->Ok_0;
        law_row_hash(batch, hashed_sources(spec.fields@), row);
        if b.num_buckets > 0 {
            law_bucket_is_the_remainder(hash, b.num_buckets);
            let q = choose|q: int|
                0 <= q && (if hash < 0 {
                    -hash
                } else {
                    hash
                }) == #[trigger] (q * b.num_buckets) + bucket_of(hash, b.num_buckets);
            assert(0 <= q && b.bucket == bucket_of(hash, b.num_buckets));
        }
    }
}

/// Where the rows of a batch go: as many buckets as rows, each by the hash of its row alone; where
/// rows cannot be read, the failure is that of the first such row.
pub proof fn law_buckets_of_the_rows(spec: RegionSpec, batch: RecordBatch)
    requires
        spec.fields@.len() > 0,
    ensures
        spec.buckets(batch) matches Ok(b) ==> num_buckets_of(spec.fields@[0].parameters@) == Ok::<
            u32,
            Error,
        >(b.1) && b.0.len() == batch.num_rows && forall|row: int|
            0 <= row < batch.num_rows ==> row_hash(
                batch,
                hashed_sources(spec.fields@),
                row,
            ) is Ok && #[trigger] b.0[row] == bucket_of(
                row_hash(batch, hashed_sources(spec.fields@), row)->Ok_0,
                b.1,
            ),
        spec.buckets(batch) matches Err(e) ==> num_buckets_of(spec.fields@[0].parameters@) == Err::<
            u32,
            Error,
        >(e) || num_buckets_of(spec.fields@[0].parameters@) is Ok && exists|n: int|
            0 <= n < batch.num_rows && #[trigger] row_hash(
                batch,
                hashed_sources(spec.fields@),
                n,
            ) == Err::<int, Error>(e) && forall|row: int|
                0 <= row < n ==> #[trigger] row_hash(
                    batch,
                    hashed_sources(spec.fields@),
                    row,
                ) is Ok,
{
    let sources = hashed_sources(spec.fields@);
    let rows = batch.num_rows as nat;
    if num_buckets_of(spec.fields@[0].parameters@) is Ok {
        let n = num_buckets_of(spec.fields@[0].parameters@)->Ok_0;
        if spec.buckets(batch) is Ok {
            let b = spec.buckets(batch)->Ok_0;
            lemma_buckets_len(batch, sources, n, rows);
            assert forall|row: int| 0 <= row < batch.num_rows implies #[trigger] row_hash(
                batch,
                sources,
                row,
            ) is Ok && b.0[row] == bucket_of(row_hash(batch, sources, row)->Ok_0, b.1) by {
                lemma_bucket_at(batch, sources, n, rows, row);
            }
        } else {
            assert(buckets_of(batch, sources, n, rows) is Err);
            lemma_first_bad_hash(batch, sources, n, rows);
        }
    }
}

/// Where the buckets of all rows fail, they fail as the first row that has none.
proof fn lemma_first_bad_hash(batch: RecordBatch, source_ids: Seq<i32>, num_buckets: u32, n: nat)
    requires
        buckets_of(batch, source_ids, num_buckets, n) is Err,
    ensures
        exists|k: int|
            0 <= k < n && #[trigger] row_hash(batch, source_ids, k) == Err::<int, Error>(
                buckets_of(batch, source_ids, num_buckets, n)->Err_0,
            ) && forall|row: int| 0 <= row < k ==> #[trigger] row_hash(batch, source_ids, row) is Ok,
    decreases n,
{
    if buckets_of(batch, source_ids, num_buckets, (n - 1) as nat) is Err {
        lemma_first_bad_hash(batch, source_ids, num_buckets, (n - 1) as nat);
    } else {
        assert forall|row: int| 0 <= row < n - 1 implies #[trigger] row_hash(
            batch,
            source_ids,
            row,
        ) is Ok by {
            lemma_bucket_at(batch, source_ids, num_buckets, (n - 1) as nat, row);
        }
        assert(row_hash(batch, source_ids, n - 1) is Err);
    }
}

/// The value of a field at a row: the values of its source columns where it has no transform or the
/// identity; the four bytes of the row's bucket, lowest first, where it hashes into buckets; and a
/// failure that names the transform where it has another.
pub proof fn law_value_of_a_field(field: RegionField, batch: RecordBatch, row: int, k: nat)
    requires
        k < 4,
    ensures
        field.transform is None || field.transform->0@ == "identity"@ ==> field.value(batch, row)
            == row_bytes(batch, field.source_ids@, row),
        field.transform is Some && (field.transform->0@ == "bucket"@ || field.transform->0@
            == "multi_bucket"@) ==> match num_buckets_of(field.parameters@) {
            Err(e) => field.value(batch, row) == Err::<Seq<u8>, Error>(e),
            Ok(n) => match row_hash(batch, field.source_ids@, row) {
                Err(e) => field.value(batch, row) == Err::<Seq<u8>, Error>(e),
                Ok(hash) => field.value(batch, row) matches Ok(bytes) && bytes.len() == 4
                    && bytes[k as int] == bucket_of(hash, n) as int / vstd::arithmetic::power::pow(
                    256,
                    k,
                ) % 256,
            },
        },
        field.transform is Some && field.transform->0@ != "identity"@ && field.transform->0@
            != "bucket"@ && field.transform->0@ != "multi_bucket"@ ==> field.value(batch, row)
            == Err::<Seq<u8>, Error>(Error::UnsupportedTransform(field.transform->0)),
{
    reveal_strlit("identity");
    reveal_strlit("bucket");
    reveal_strlit("multi_bucket");
    assert("identity"@[0] == 'i' && "bucket"@[0] == 'b' && "multi_bucket"@[0] == 'm');
    if let Ok(n) = num_buckets_of(field.parameters@) {
        if let Ok(hash) = row_hash(batch, field.source_ids@, row) {
            crate::bytes::law_le_bytes_are_digits(bucket_of(hash, n) as nat, 4, k);
        }
    }
}

/// The bucket value of a field is its value where it hashes into buckets.
pub proof fn law_bucket_value_is_the_value(field: RegionField, batch: RecordBatch, row: int)
    requires
        field.transform is Some,
        field.transform->0@ == "bucket"@ || field.transform->0@ == "multi_bucket"@,
    ensures
        field.bucket_value(batch, row) == field.value(batch, row),
{
}

/// The bucket value of a field does not depend on its transform.
pub proof fn law_bucket_value_ignores_the_transform(
    a: RegionField,
    b: RegionField,
    batch: RecordBatch,
    row: int,
)
    requires
        a.source_ids@ == b.source_ids@,
        a.parameters@ == b.parameters@,
    ensures
        a.bucket_value(batch, row) == b.bucket_value(batch, row),
{
}

/// A region field and a message that says the same hold the same under each name.
pub proof fn law_message_of_a_field(field: RegionField, message: pb::RegionField)
    requires
        message@ == field@,
    ensures
        message.field_id@ == field.field_id@,
        message.source_ids@ == field.source_ids@,
        message.transform is Some <==> field.transform is Some,
        message.transform is Some ==> message.transform->0@ == field.transform->0@,
        message.expression is Some <==> field.expression is Some,
        message.expression is Some ==> message.expression->0@ == field.expression->0@,
        message.result_type@ == field.result_type@,
        message.parameters@ == field.parameters@,
{
}

/// A region spec and a message that says the same have the same id and the same fields, in order.
pub proof fn law_message_of_a_spec(spec: RegionSpec, message: pb::RegionSpec)
    requires
        message@ == spec@,
    ensures
        message.spec_id == spec.spec_id,
        message.fields@.len() == spec.fields@.len(),
        forall|i: int|
            0 <= i < spec.fields@.len() ==> (#[trigger] message.fields@[i])@ == spec.fields@[i]@,
{
    let written = message.fields@.map_values(|f: pb::RegionField| f@);
    let given = spec.fields@.map_values(|f: RegionField| f@);
    assert(written == given);
    assert(written.len() == message.fields@.len() && given.len() == spec.fields@.len());
    assert forall|i: int| 0 <= i < spec.fields@.len() implies (#[trigger] message.fields@[i])@
        == spec.fields@[i]@ by {
        assert(written[i] == given[i]);
    }
}

/// Every row of a batch can be hashed whose values fit in the count of bytes that the hash keeps.
pub proof fn law_rows_that_can_be_hashed(batch: RecordBatch, source_ids: Seq<i32>, row: int)
    requires
        0 <= row < batch.num_rows,
        row_bytes(batch, source_ids, row) is Ok ==> row_bytes(
            batch,
            source_ids,
            row,
        )->Ok_0.len() <= 0xffff_ffff,
    ensures
        hashable(batch, source_ids, row),
        forall|num_buckets: u32|
            num_buckets > 0 ==> #[trigger] sources_ready(
                batch,
                source_ids,
                Ok::<u32, Error>(num_buckets),
                row,
            ),
{
}

/// A spec without fields routes no row and no batch.
pub proof fn law_no_fields_no_buckets(spec: RegionSpec, batch: RecordBatch, row: int)
    requires
        spec.fields@.len() == 0,
    ensures
        spec.bucket(batch, row) == Err::<BucketResult, Error>(Error::NoRegionFields),
        spec.buckets(batch) == Err::<(Seq<u32>, u32), Error>(Error::NoRegionFields),
{
}

} // verus!
