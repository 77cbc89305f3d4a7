//! Storage of RabitQ codes with what belongs to them.
use std::collections::HashMap;

use vstd::prelude::*;

use crate::bytes::copy_bytes;
use crate::error::Error;
use crate::ordered::OrderedFloat;
use crate::string_map::StringMap;
use crate::vector::bq::codes::{get_rq_code, pack_codes, FixedSizeListArray};
use crate::vector::distance::DistanceType;

verus! {

pub const RABIT_METADATA_KEY: &'static str = "lance:rabit";

pub const RABIT_CODE_COLUMN: &'static str = "_rabit_codes";

/// How vectors are rotated before they are quantized.
#[derive(Debug, Clone, Copy, PartialEq, Eq, Structural)]
pub enum RQRotationType {
    /// By a dense matrix.
    Matrix,
    /// By signs and fast transforms.
    Fast,
}

/// The rotation type of metadata that does not name one: older metadata always used dense
/// matrices.
pub fn default_rotation_type_compat() -> (r: RQRotationType)
    ensures
        r == RQRotationType::Matrix,
{
    RQRotationType::Matrix
}

/// The kind of number that a vector or a matrix holds.
#[derive(Debug, Clone, Copy, PartialEq, Eq, Structural)]
pub enum DataType {
    Float16,
    Float32,
    Float64,
    /// Any other kind.
    Other,
}

/// A rotation matrix, as the bytes of its values row by row.
#[derive(Debug, Clone)]
pub struct RotateMatrix {
    pub num_rows: usize,
    pub value_type: DataType,
    pub values: Vec<u8>,
}

impl RotateMatrix {
    /// Copies the matrix.
    fn copy(&self) -> (r: Self)
        ensures
            r.num_rows == self.num_rows,
            r.value_type == self.value_type,
            r.values@ == self.values@,
    {
        RotateMatrix {
            num_rows: self.num_rows,
            value_type: self.value_type,
            values: copy_bytes(&self.values),
        }
    }
}

/// What has to be known to read RabitQ codes.
#[derive(Debug, Clone)]
pub struct RabitQuantizationMetadata {
    /// The rotation matrix. It is large, and is stored apart from the other metadata.
    pub rotate_mat: Option<RotateMatrix>,
    pub rotate_mat_position: Option<u32>,
    pub fast_rotation_signs: Option<Vec<u8>>,
    pub rotation_type: RQRotationType,
    pub code_dim: u32,
    pub num_bits: u8,
    pub packed: bool,
}

impl RabitQuantizationMetadata {
    /// Both say the same.
    pub open spec fn same_as(&self, other: &Self) -> bool {
        &&& match (self.rotate_mat, other.rotate_mat) {
            (Some(a), Some(b)) => a.num_rows == b.num_rows && a.value_type == b.value_type
                && a.values@ == b.values@,
            (None, None) => true,
            _ => false,
        }
        &&& self.rotate_mat_position == other.rotate_mat_position
        &&& match (self.fast_rotation_signs, other.fast_rotation_signs) {
            (Some(a), Some(b)) => a@ == b@,
            (None, None) => true,
            _ => false,
        }
        &&& self.rotation_type == other.rotation_type
        &&& self.code_dim == other.code_dim
        &&& self.num_bits == other.num_bits
        &&& self.packed == other.packed
    }

    /// Copies the metadata.
    fn copy(&self) -> (r: Self)
        ensures
            r.same_as(self),
    {
        let rotate_mat = match &self.rotate_mat {
            Some(m) => Some(m.copy()),
            None => None,
        };
        let fast_rotation_signs = match &self.fast_rotation_signs {
            Some(signs) => Some(copy_bytes(signs)),
            None => None,
        };
        RabitQuantizationMetadata {
            rotate_mat,
            rotate_mat_position: self.rotate_mat_position,
            fast_rotation_signs,
            rotation_type: self.rotation_type,
            code_dim: self.code_dim,
            num_bits: self.num_bits,
            packed: self.packed,
        }
    }

    /// Where the rotation matrix is stored.
    pub fn buffer_index(&self) -> (r: Option<u32>)
        ensures
            r == match self.rotation_type {
                RQRotationType::Matrix => self.rotate_mat_position,
                RQRotationType::Fast => None,
            },
    {
        match self.rotation_type {
            RQRotationType::Matrix => self.rotate_mat_position,
            RQRotationType::Fast => None,
        }
    }

    /// Notes where the rotation matrix is stored.
    pub fn set_buffer_index(&mut self, index: u32)
        ensures
            *final(self) == (RabitQuantizationMetadata {
                rotate_mat_position: Some(index),
                ..*old(self)
            }),
    {
        self.rotate_mat_position = Some(index);
    }

    /// Takes the rotation matrix out of the buffer that it was stored in.
    ///
    /// `decode` reads the buffer; it is asked only where rotation is by a matrix. Metadata that
    /// does not know the dimension of the codes takes it from the matrix.
    pub fn parse_buffer<D: Fn(&[u8]) -> Result<RotateMatrix, Error>>(
        &mut self,
        bytes: &[u8],
        decode: &D,
    ) -> (r: Result<(), Error>)
        requires
            call_requires(decode, (bytes,)),
        ensures
            old(self).rotation_type == RQRotationType::Fast ==> r is Ok && *final(self) == *old(
                self,
            ),
            old(self).rotation_type == RQRotationType::Matrix ==> exists|
                decoded: Result<RotateMatrix, Error>,
            |
                #[trigger] call_ensures(decode, (bytes,), decoded) && match decoded {
                    Err(e) => r == Err::<(), Error>(e) && *final(self) == *old(self),
                    Ok(mat) => r is Ok && *final(self) == (RabitQuantizationMetadata {
                        rotate_mat: Some(mat),
                        code_dim: if old(self).code_dim == 0 {
                            (mat.num_rows as int % 0x1_0000_0000) as u32
                        } else {
                            old(self).code_dim
                        },
                        ..*old(self)
                    }),
                },
    {
        match self.rotation_type {
            RQRotationType::Fast => {
                return Ok(());
            },
            RQRotationType::Matrix => {},
        }
        let decoded = decode(bytes);
        match decoded {
            Err(e) => Err(e),
            Ok(mat) => {
                if self.code_dim == 0 {
                    self.code_dim = (mat.num_rows as u64 % 0x1_0000_0000) as u32;
                }
                self.rotate_mat = Some(mat);
                Ok(())
            },
        }
    }

    /// The buffer to store beside the metadata: the rotation matrix, where rotation is by one.
    ///
    /// `encode` writes the matrix.
    pub fn extra_metadata<N: Fn(&RotateMatrix) -> Result<Vec<u8>, Error>>(&self, encode: &N) -> (r:
        Result<Option<Vec<u8>>, Error>)
        requires
            forall|mat: &RotateMatrix| call_requires(encode, (mat,)),
        ensures
            match (self.rotation_type, self.rotate_mat) {
                (RQRotationType::Matrix, Some(mat)) => match r {
                    Ok(Some(bytes)) => call_ensures(
                        encode,
                        (&mat,),
                        Ok::<Vec<u8>, Error>(bytes),
                    ),
                    Ok(None) => false,
                    Err(e) => call_ensures(encode, (&mat,), Err::<Vec<u8>, Error>(e)),
                },
                _ => r == Ok::<Option<Vec<u8>>, Error>(None),
            },
    {
        match self.rotation_type {
            RQRotationType::Fast => Ok(None),
            RQRotationType::Matrix => match &self.rotate_mat {
                None => Ok(None),
                Some(mat) => match encode(mat) {
                    Ok(bytes) => Ok(Some(bytes)),
                    Err(e) => Err(e),
                },
            },
        }
    }

    /// The text of the metadata among the metadata of a file.
    pub fn find_text(file_metadata: &StringMap) -> (r: Result<&String, Error>)
        ensures
            match r {
                Ok(text) => file_metadata@.contains_key(RABIT_METADATA_KEY@) && text@
                    == file_metadata@[RABIT_METADATA_KEY@],
                Err(e) => !file_metadata@.contains_key(RABIT_METADATA_KEY@) && e
                    == Error::RabitMetadataNotFound,
            },
            r is Ok <==> file_metadata@.contains_key("lance:rabit"@),
            r matches Ok(text) ==> text@ == file_metadata@["lance:rabit"@],
    {
        match file_metadata.get(RABIT_METADATA_KEY) {
            Some(text) => Ok(text),
            None => Err(Error::RabitMetadataNotFound),
        }
    }
}

/// Rows of quantized vectors.
#[derive(Debug, Clone)]
pub struct RabitBatch {
    pub row_ids: Vec<u64>,
    pub codes: FixedSizeListArray,
    pub add_factors: Vec<OrderedFloat>,
    pub scale_factors: Vec<OrderedFloat>,
}

impl RabitBatch {
    /// The columns are equally long, codes are not empty, and a row number fits in 32 bits.
    pub open spec fn wf(&self) -> bool {
        &&& self.codes.wf()
        &&& self.codes.value_length > 0
        &&& self.codes.spec_len() == self.row_ids@.len()
        &&& self.add_factors@.len() == self.row_ids@.len()
        &&& self.scale_factors@.len() == self.row_ids@.len()
        &&& self.row_ids@.len() <= 0x1_0000_0000
    }

    pub fn num_rows(&self) -> (n: usize)
        ensures
            n == self.row_ids@.len(),
    {
        self.row_ids.len()
    }
}

/// Quantized vectors, with the codes in the packed layout.
#[derive(Debug)]
pub struct RabitQuantizationStorage {
    metadata: RabitQuantizationMetadata,
    batch: RabitBatch,
    distance_type: DistanceType,
    add_factors: Vec<OrderedFloat>,
    scale_factors: Vec<OrderedFloat>,
}

/// Copies factors.
fn copy_factors(factors: &Vec<OrderedFloat>) -> (r: Vec<OrderedFloat>)
    ensures
        r@ == factors@,
{
    let mut copy: Vec<OrderedFloat> = Vec::with_capacity(factors.len());
    let mut i: usize = 0;
    while i < factors.len()
        invariant
            i <= factors@.len(),
            copy@ == factors@.take(i as int),
        decreases factors@.len() - i,
    {
        copy.push(factors[i]);
        assert(copy@ =~= factors@.take(i + 1));
        i = i + 1;
    }
    assert(factors@.take(factors@.len() as int) =~= factors@);
    copy
}

/// The id of a row after a remapping: the new one that is given, none where the row is dropped,
/// and the old one where nothing is said.
pub open spec fn new_id(mapping: Map<u64, Option<u64>>, row_id: u64) -> Option<u64> {
    if mapping.contains_key(row_id) {
        mapping[row_id]
    } else {
        Some(row_id)
    }
}

/// The rows among the first `n` that stay, each as its place and its new id.
pub open spec fn kept_rows(
    row_ids: Seq<u64>,
    mapping: Map<u64, Option<u64>>,
    n: nat,
) -> Seq<(int, u64)>
    decreases n,
{
    if n == 0 {
        Seq::empty()
    } else {
        let before = kept_rows(row_ids, mapping, (n - 1) as nat);
        match new_id(mapping, row_ids[n - 1]) {
            Some(id) => before.push((n - 1, id)),
            None => before,
        }
    }
}

/// The codes of the kept rows, one after the other.
pub open spec fn gathered_codes(
    codes: Seq<u8>,
    n: nat,
    width: nat,
    rows: Seq<(int, u64)>,
) -> Seq<u8> {
    Seq::new(
        rows.len() * width,
        |q: int|
            crate::vector::bq::codes::rq_byte(
                codes,
                rows[q / width as int].0,
                n,
                width,
                q % width as int,
            ),
    )
}

/// Kept rows are rows, in order, with their new ids.
proof fn lemma_kept_rows(row_ids: Seq<u64>, mapping: Map<u64, Option<u64>>, n: nat)
    requires
        n <= row_ids.len(),
    ensures
        kept_rows(row_ids, mapping, n).len() <= n,
        forall|i: int|
            0 <= i < kept_rows(row_ids, mapping, n).len() ==> {
                let row = #[trigger] kept_rows(row_ids, mapping, n)[i];
                0 <= row.0 < n && new_id(mapping, row_ids[row.0]) == Some(row.1)
            },
        forall|i: int, j: int|
            0 <= i < j < kept_rows(row_ids, mapping, n).len() ==> (#[trigger] kept_rows(
                row_ids,
                mapping,
                n,
            )[i]).0 < (#[trigger] kept_rows(row_ids, mapping, n)[j]).0,
    decreases n,
{
    if n > 0 {
        lemma_kept_rows(row_ids, mapping, (n - 1) as nat);
    }
}

/// The codes of one more row come after those of the rows before it.
proof fn lemma_gather_one(
    codes: Seq<u8>,
    n: nat,
    width: nat,
    rows: Seq<(int, u64)>,
    row: (int, u64),
)
    requires
        width > 0,
    ensures
        gathered_codes(codes, n, width, rows.push(row)) == gathered_codes(codes, n, width, rows)
            + crate::vector::bq::codes::rq_code(codes, row.0, n, width),
{
    let longer = rows.push(row);
    assert(longer.len() * width == rows.len() * width + width) by (nonlinear_arith)
        requires
            longer.len() == rows.len() + 1,
    ;
    assert forall|q: int| 0 <= q < longer.len() * width implies #[trigger] gathered_codes(
        codes,
        n,
        width,
        longer,
    )[q] == (gathered_codes(codes, n, width, rows) + crate::vector::bq::codes::rq_code(
        codes,
        row.0,
        n,
        width,
    ))[q] by {
        let m = rows.len() as int;
        let w = width as int;
        if q < m * w {
            assert(0 <= q / w < m) by (nonlinear_arith)
                requires
                    0 <= q < m * w,
                    w > 0,
            ;
            assert(longer[q / w] == rows[q / w]);
        } else {
            let col = q - m * w;
            vstd::arithmetic::div_mod::lemma_fundamental_div_mod_converse(q, w, m, col);
            assert(longer[m] == row);
        }
    }
    assert(gathered_codes(codes, n, width, longer) =~= gathered_codes(codes, n, width, rows)
        + crate::vector::bq::codes::rq_code(codes, row.0, n, width));
}

/// How a query is rotated.
pub enum Rotation<'a> {
    /// By the matrix, whose values are of that kind.
    Dense { matrix: &'a RotateMatrix },
    /// By signs, to vectors of that dimension, from values of that kind.
    Fast { code_dim: usize, signs: &'a Vec<u8>, query_type: DataType },
}

/// How the distance of a query to the centroid enters the distances to its vectors.
#[derive(Debug, Clone, Copy, PartialEq, Eq, Structural)]
pub enum QueryFactor {
    /// As it is.
    Plain,
    /// Less one.
    MinusOne,
}

impl RabitQuantizationStorage {
    pub closed spec fn spec_metadata(&self) -> RabitQuantizationMetadata {
        self.metadata
    }

    pub closed spec fn spec_batch(&self) -> RabitBatch {
        self.batch
    }

    pub closed spec fn spec_distance_type(&self) -> DistanceType {
        self.distance_type
    }

    /// The factors that distances are computed with.
    pub closed spec fn spec_add_factors(&self) -> Seq<OrderedFloat> {
        self.add_factors@
    }

    pub closed spec fn spec_scale_factors(&self) -> Seq<OrderedFloat> {
        self.scale_factors@
    }

    /// The storage is whole and marked as packed, and distances are computed with the factors that
    /// the batch holds.
    pub open spec fn wf(&self) -> bool {
        &&& self.spec_batch().wf()
        &&& self.spec_metadata().packed
        &&& self.spec_add_factors() == self.spec_batch().add_factors@
        &&& self.spec_scale_factors() == self.spec_batch().scale_factors@
    }

    /// The packed codes.
    pub open spec fn packed_codes(&self) -> Seq<u8> {
        self.spec_batch().codes.values@
    }

    /// The number of bytes of a code.
    pub open spec fn width(&self) -> nat {
        self.spec_batch().codes.value_length as nat
    }

    /// The code of a row.
    pub open spec fn code(&self, row: int) -> Seq<u8> {
        crate::vector::bq::codes::rq_code(
            self.packed_codes(),
            row,
            self.spec_batch().row_ids@.len(),
            self.width(),
        )
    }

    /// Makes a storage of a batch; codes that are not packed yet are packed.
    pub fn try_from_batch(
        batch: RabitBatch,
        metadata: &RabitQuantizationMetadata,
        distance_type: DistanceType,
    ) -> (r: Result<Self, Error>)
        requires
            batch.wf(),
        ensures
            r matches Ok(s) && {
                &&& s.wf()
                &&& s.spec_metadata().same_as(
                    &(RabitQuantizationMetadata { packed: true, ..*metadata }),
                )
                &&& s.spec_distance_type() == distance_type
                &&& s.spec_batch().row_ids@ == batch.row_ids@
                &&& s.spec_batch().add_factors@ == batch.add_factors@
                &&& s.spec_batch().scale_factors@ == batch.scale_factors@
                &&& s.spec_add_factors() == batch.add_factors@
                &&& s.spec_scale_factors() == batch.scale_factors@
                &&& s.width() == batch.codes.value_length
                &&& s.packed_codes() == if metadata.packed {
                    batch.codes.values@
                } else {
                    crate::vector::bq::codes::packed(
                        batch.codes.values@,
                        batch.codes.value_length as nat,
                        batch.row_ids@.len(),
                    )
                }
            },
    {
        let add_factors = copy_factors(&batch.add_factors);
        let scale_factors = copy_factors(&batch.scale_factors);
        let mut new_metadata = metadata.copy();
        new_metadata.packed = true;
        let batch = if metadata.packed {
            batch
        } else {
            let codes = pack_codes(&batch.codes);
            RabitBatch {
                row_ids: batch.row_ids,
                codes,
                add_factors: batch.add_factors,
                scale_factors: batch.scale_factors,
            }
        };
        Ok(
            RabitQuantizationStorage {
                metadata: new_metadata,
                batch,
                distance_type,
                add_factors,
                scale_factors,
            },
        )
    }

    /// The rows that stay under a mapping.
    pub open spec fn kept(&self, mapping: Map<u64, Option<u64>>) -> Seq<(int, u64)> {
        kept_rows(self.spec_batch().row_ids@, mapping, self.spec_batch().row_ids@.len())
    }

    /// The places of the rows that stay under a mapping, in order.
    pub fn kept_indices(&self, mapping: &HashMap<u64, Option<u64>>) -> (r: Vec<u32>)
        requires
            self.wf(),
        ensures
            r@.len() == self.kept(mapping@).len(),
            forall|i: int| 0 <= i < r@.len() ==> #[trigger] r@[i] == self.kept(mapping@)[i].0,
    {
        broadcast use vstd::std_specs::hash::group_hash_axioms;

        let n: usize = self.batch.row_ids.len();
        let mut indices: Vec<u32> = Vec::new();
        let mut i: usize = 0;
        while i < n
            invariant
                i <= n,
                n == self.batch.row_ids@.len(),
                n <= 0x1_0000_0000,
                indices@.len() == kept_rows(self.batch.row_ids@, mapping@, i as nat).len(),
                forall|j: int|
                    0 <= j < indices@.len() ==> #[trigger] indices@[j] == kept_rows(
                        self.batch.row_ids@,
                        mapping@,
                        i as nat,
                    )[j].0,
            decreases n - i,
        {
            let stays: bool = match mapping.get(&self.batch.row_ids[i]) {
                Some(id) => id.is_some(),
                None => true,
            };
            assert(stays == (new_id(mapping@, self.batch.row_ids@[i as int]) is Some));
            if stays {
                indices.push(i as u32);
            }
            i = i + 1;
        }
        indices
    }

    /// `s` holds the rows that stay under a mapping: with their new ids, and with their codes and
    /// factors as they were.
    pub open spec fn remapped(&self, mapping: Map<u64, Option<u64>>, s: Self) -> bool {
        let rows = self.kept(mapping);
        &&& s.wf()
        &&& s.spec_metadata().same_as(&self.spec_metadata())
        &&& s.spec_distance_type() == self.spec_distance_type()
        &&& s.spec_batch().row_ids@ == rows.map_values(|row: (int, u64)| row.1)
        &&& s.spec_add_factors() == rows.map_values(
            |row: (int, u64)| self.spec_add_factors()[row.0],
        )
        &&& s.spec_scale_factors() == rows.map_values(
            |row: (int, u64)| self.spec_scale_factors()[row.0],
        )
        &&& s.width() == self.width()
        &&& s.packed_codes() == crate::vector::bq::codes::packed(
            gathered_codes(
                self.packed_codes(),
                self.spec_batch().row_ids@.len(),
                self.width(),
                rows,
            ),
            self.width(),
            rows.len(),
        )
    }

    /// Gives rows new ids, and drops rows; the codes of the rows that stay are packed again.
    pub fn remap(&self, mapping: &HashMap<u64, Option<u64>>) -> (r: Result<Self, Error>)
        requires
            self.wf(),
        ensures
            r matches Ok(s) && self.remapped(mapping@, s),
    {
        broadcast use vstd::std_specs::hash::group_hash_axioms;

        let num_vectors: usize = self.batch.row_ids.len();
        let num_code_bytes: usize = self.batch.codes.value_length;
        let ghost old_codes = self.batch.codes.values@;
        let ghost ids = self.batch.row_ids@;
        proof {
            crate::vector::bq::codes::lemma_len_times_width(self.batch.codes);
            assert(num_vectors * num_code_bytes == old_codes.len());
        }
        let mut row_ids: Vec<u64> = Vec::new();
        let mut add_factors: Vec<OrderedFloat> = Vec::new();
        let mut scale_factors: Vec<OrderedFloat> = Vec::new();
        let mut new_codes: Vec<u8> = Vec::new();
        let ghost mut rows: Seq<(int, u64)> = Seq::empty();
        proof {
            assert(gathered_codes(old_codes, num_vectors as nat, num_code_bytes as nat, rows)
                =~= Seq::empty());
        }
        let mut i: usize = 0;
        while i < num_vectors
            invariant
                i <= num_vectors,
                self.wf(),
                ids == self.batch.row_ids@,
                ids == self.spec_batch().row_ids@,
                num_vectors == ids.len(),
                num_code_bytes == self.batch.codes.value_length,
                num_code_bytes > 0,
                old_codes == self.batch.codes.values@,
                old_codes.len() == num_vectors * num_code_bytes,
                self.batch.add_factors@.len() == num_vectors,
                self.batch.scale_factors@.len() == num_vectors,
                rows == kept_rows(ids, mapping@, i as nat),
                row_ids@ == rows.map_values(|row: (int, u64)| row.1),
                add_factors@ == rows.map_values(
                    |row: (int, u64)| self.batch.add_factors@[row.0],
                ),
                scale_factors@ == rows.map_values(
                    |row: (int, u64)| self.batch.scale_factors@[row.0],
                ),
                new_codes@ == gathered_codes(
                    old_codes,
                    num_vectors as nat,
                    num_code_bytes as nat,
                    rows,
                ),
            decreases num_vectors - i,
        {
            let row_id: u64 = self.batch.row_ids[i];
            let kept: Option<u64> = match mapping.get(&row_id) {
                Some(id) => *id,
                None => Some(row_id),
            };
            assert(kept == new_id(mapping@, row_id));
            match kept {
                Some(id) => {
                    let mut code = get_rq_code(
                        self.batch.codes.values.as_slice(),
                        i,
                        num_vectors,
                        num_code_bytes,
                    );
                    let ghost row: (int, u64) = (i as int, id);
                    proof {
                        lemma_gather_one(
                            old_codes,
                            num_vectors as nat,
                            num_code_bytes as nat,
                            rows,
                            row,
                        );
                    }
                    row_ids.push(id);
                    add_factors.push(self.batch.add_factors[i]);
                    scale_factors.push(self.batch.scale_factors[i]);
                    new_codes.append(&mut code);
                    proof {
                        let longer = rows.push(row);
                        assert(row_ids@ =~= longer.map_values(|row: (int, u64)| row.1));
                        assert(add_factors@ =~= longer.map_values(
                            |row: (int, u64)| self.batch.add_factors@[row.0],
                        ));
                        assert(scale_factors@ =~= longer.map_values(
                            |row: (int, u64)| self.batch.scale_factors@[row.0],
                        ));
                        rows = longer;
                    }
                },
                None => {},
            }
            i = i + 1;
        }
        proof {
            lemma_kept_rows(ids, mapping@, num_vectors as nat);
        }
        let unpacked = FixedSizeListArray { values: new_codes, value_length: num_code_bytes };
        proof {
            let m = rows.len() as int;
            let w = num_code_bytes as int;
            vstd::arithmetic::div_mod::lemma_div_multiples_vanish(m, w);
            vstd::arithmetic::div_mod::lemma_mod_multiples_basic(m, w);
            assert(unpacked.values@.len() == m * w);
            assert(unpacked.wf());
            assert(unpacked.spec_len() == m);
        }
        let codes = pack_codes(&unpacked);
        let s = RabitQuantizationStorage {
            metadata: self.metadata.copy(),
            add_factors: copy_factors(&add_factors),
            scale_factors: copy_factors(&scale_factors),
            batch: RabitBatch { row_ids, codes, add_factors, scale_factors },
            distance_type: self.distance_type,
        };
        proof {
            vstd::arithmetic::div_mod::lemma_div_multiples_vanish(
                rows.len() as int,
                num_code_bytes as int,
            );
        }
        Ok(s)
    }

    /// The batch that is stored.
    pub fn to_batches(&self) -> (r: &RabitBatch)
        ensures
            *r == self.spec_batch(),
    {
        &self.batch
    }

    /// The number of rows.
    pub fn len(&self) -> (n: usize)
        ensures
            n == self.spec_batch().row_ids@.len(),
    {
        self.batch.num_rows()
    }

    /// The id of a row.
    pub fn row_id(&self, id: u32) -> (r: u64)
        requires
            id < self.spec_batch().row_ids@.len(),
        ensures
            r == self.spec_batch().row_ids@[id as int],
    {
        self.batch.row_ids[id as usize]
    }

    /// The ids of all rows.
    pub fn row_ids(&self) -> (r: &[u64])
        ensures
            r@ == self.spec_batch().row_ids@,
    {
        self.batch.row_ids.as_slice()
    }

    pub fn distance_type(&self) -> (r: DistanceType)
        ensures
            r == self.spec_distance_type(),
    {
        self.distance_type
    }

    pub fn metadata(&self) -> (r: &RabitQuantizationMetadata)
        ensures
            *r == self.spec_metadata(),
    {
        &self.metadata
    }

    /// The factors that distances are computed with.
    pub fn factors(&self) -> (r: (&[OrderedFloat], &[OrderedFloat]))
        ensures
            r.0@ == self.spec_add_factors(),
            r.1@ == self.spec_scale_factors(),
    {
        (self.add_factors.as_slice(), self.scale_factors.as_slice())
    }

    /// The dimension of the codes: what the metadata says, else the rows of the matrix.
    pub open spec fn spec_code_dim(&self) -> nat {
        if self.spec_metadata().code_dim > 0 {
            self.spec_metadata().code_dim as nat
        } else {
            match self.spec_metadata().rotate_mat {
                Some(mat) => mat.num_rows as nat,
                None => 0,
            }
        }
    }

    /// The dimension of the codes.
    pub fn code_dim(&self) -> (r: usize)
        ensures
            r == self.spec_code_dim(),
    {
        if self.metadata.code_dim > 0 {
            self.metadata.code_dim as usize
        } else {
            match &self.metadata.rotate_mat {
                Some(mat) => mat.num_rows,
                None => 0,
            }
        }
    }

    /// What is needed to rotate a query of that kind of numbers is there.
    pub open spec fn can_rotate(&self, query_type: DataType) -> bool {
        match self.spec_metadata().rotation_type {
            RQRotationType::Matrix => self.spec_metadata().rotate_mat matches Some(mat)
                && mat.value_type != DataType::Other,
            RQRotationType::Fast => self.spec_metadata().fast_rotation_signs is Some && query_type
                != DataType::Other,
        }
    }

    /// How a query of that kind of numbers is rotated.
    pub fn rotation(&self, query_type: DataType) -> (r: Rotation)
        requires
            self.can_rotate(query_type),
        ensures
            match self.spec_metadata().rotation_type {
                RQRotationType::Matrix => r matches Rotation::Dense { matrix } && *matrix
                    == self.spec_metadata().rotate_mat->0,
                RQRotationType::Fast => r matches Rotation::Fast { code_dim, signs, query_type: t }
                    && code_dim == self.spec_code_dim() && *signs
                    == self.spec_metadata().fast_rotation_signs->0 && t == query_type,
            },
    {
        match self.metadata.rotation_type {
            RQRotationType::Matrix => {
                let matrix = self.metadata.rotate_mat.as_ref().unwrap();
                Rotation::Dense { matrix }
            },
            RQRotationType::Fast => {
                let signs = self.metadata.fast_rotation_signs.as_ref().unwrap();
                Rotation::Fast { code_dim: self.code_dim(), signs, query_type }
            },
        }
    }

    /// How the distance of a query to the centroid enters the distances to its vectors.
    pub fn query_factor(&self) -> (r: QueryFactor)
        requires
            self.spec_distance_type() != DistanceType::Hamming,
        ensures
            r == if self.spec_distance_type() == DistanceType::L2 {
                QueryFactor::Plain
            } else {
                QueryFactor::MinusOne
            },
    {
        match self.distance_type {
            DistanceType::L2 => QueryFactor::Plain,
            _ => QueryFactor::MinusOne,
        }
    }
}

/// A remapping keeps the code of every row that stays.
pub proof fn law_remap_keeps_codes(
    codes: Seq<u8>,
    n: nat,
    width: nat,
    row_ids: Seq<u64>,
    mapping: Map<u64, Option<u64>>,
    i: int,
)
    requires
        width > 0,
        row_ids.len() == n,
        codes.len() == n * width,
        0 <= i < kept_rows(row_ids, mapping, n).len(),
    ensures
        ({
            let rows = kept_rows(row_ids, mapping, n);
            let after = crate::vector::bq::codes::packed(
                gathered_codes(codes, n, width, rows),
                width,
                rows.len(),
            );
            crate::vector::bq::codes::rq_code(after, i, rows.len(), width)
                == crate::vector::bq::codes::rq_code(codes, rows[i].0, n, width)
        }),
{
    let rows = kept_rows(row_ids, mapping, n);
    let gathered = gathered_codes(codes, n, width, rows);
    crate::vector::bq::codes::law_rq_code_of_packed(gathered, width, rows.len(), i);
    assert((i + 1) * width == i * width + width) by (nonlinear_arith);
    assert(0 <= i * width && (i + 1) * width <= rows.len() * width) by (nonlinear_arith)
        requires
            0 <= i < rows.len(),
    ;
    assert forall|col: int| 0 <= col < width implies gathered.subrange(
        i * width,
        (i + 1) * width,
    )[col] == #[trigger] crate::vector::bq::codes::rq_code(codes, rows[i].0, n, width)[col] by {
        vstd::arithmetic::div_mod::lemma_fundamental_div_mod_converse(
            i * width + col,
            width as int,
            i,
            col,
        );
    }
    assert(gathered.subrange(i * width, (i + 1) * width) =~= crate::vector::bq::codes::rq_code(
        codes,
        rows[i].0,
        n,
        width,
    ));
}

/// A remapping leaves every row that stays alone but for its id: its code and both its factors are
/// what they were, and a row that the mapping says nothing of keeps its id too.
pub proof fn law_remap_leaves_rows_alone(
    before: RabitQuantizationStorage,
    mapping: Map<u64, Option<u64>>,
    after: RabitQuantizationStorage,
    row: int,
) -> (i: int)
    requires
        before.wf(),
        before.remapped(mapping, after),
        0 <= row < before.spec_batch().row_ids@.len(),
        new_id(mapping, before.spec_batch().row_ids@[row]) is Some,
    ensures
        0 <= i < after.spec_batch().row_ids@.len(),
        new_id(mapping, before.spec_batch().row_ids@[row]) == Some(
            after.spec_batch().row_ids@[i],
        ),
        !mapping.contains_key(before.spec_batch().row_ids@[row]) ==> after.spec_batch().row_ids@[i]
            == before.spec_batch().row_ids@[row],
        after.code(i) == before.code(row),
        after.spec_add_factors()[i] == before.spec_add_factors()[row],
        after.spec_scale_factors()[i] == before.spec_scale_factors()[row],
{
    let row_ids = before.spec_batch().row_ids@;
    let i = lemma_row_is_kept(row_ids, mapping, row_ids.len(), row);
    lemma_kept_rows(row_ids, mapping, row_ids.len());
    crate::vector::bq::codes::lemma_len_times_width(before.spec_batch().codes);
    law_remap_keeps_codes(
        before.packed_codes(),
        row_ids.len(),
        before.width(),
        row_ids,
        mapping,
        i,
    );
    i
}

/// A remapping keeps exactly the rows that it does not drop: every one of them is there, once, and
/// in the order of the rows.
pub proof fn law_remap_keeps_rows(row_ids: Seq<u64>, mapping: Map<u64, Option<u64>>, row: int)
    requires
        0 <= row < row_ids.len(),
    ensures
        new_id(mapping, row_ids[row]) is Some <==> exists|i: int|
            0 <= i < kept_rows(row_ids, mapping, row_ids.len()).len() && (#[trigger] kept_rows(
                row_ids,
                mapping,
                row_ids.len(),
            )[i]).0 == row,
        forall|i: int, j: int|
            0 <= i < j < kept_rows(row_ids, mapping, row_ids.len()).len() ==> (#[trigger] kept_rows(
                row_ids,
                mapping,
                row_ids.len(),
            )[i]).0 < (#[trigger] kept_rows(row_ids, mapping, row_ids.len())[j]).0,
        forall|i: int|
            0 <= i < kept_rows(row_ids, mapping, row_ids.len()).len() ==> {
                let kept = #[trigger] kept_rows(row_ids, mapping, row_ids.len())[i];
                Some(kept.1) == new_id(mapping, row_ids[kept.0])
            },
{
    lemma_kept_rows(row_ids, mapping, row_ids.len());
    if new_id(mapping, row_ids[row]) is Some {
        let i = lemma_row_is_kept(row_ids, mapping, row_ids.len(), row);
        assert(kept_rows(row_ids, mapping, row_ids.len())[i].0 == row);
    }
}

/// A row that is not dropped is among the kept ones.
proof fn lemma_row_is_kept(
    row_ids: Seq<u64>,
    mapping: Map<u64, Option<u64>>,
    n: nat,
    row: int,
) -> (i: int)
    requires
        0 <= row < n <= row_ids.len(),
        new_id(mapping, row_ids[row]) is Some,
    ensures
        0 <= i < kept_rows(row_ids, mapping, n).len(),
        kept_rows(row_ids, mapping, n)[i].0 == row,
    decreases n,
{
    if row == n - 1 {
        kept_rows(row_ids, mapping, n).len() - 1
    } else {
        lemma_row_is_kept(row_ids, mapping, (n - 1) as nat, row)
    }
}

/// Where a mapping says nothing of any row, every row stays as it is.
pub proof fn law_empty_remap_keeps_all(
    codes: Seq<u8>,
    n: nat,
    width: nat,
    row_ids: Seq<u64>,
    mapping: Map<u64, Option<u64>>,
)
    requires
        width > 0,
        row_ids.len() == n,
        codes.len() == n * width,
        forall|i: int| 0 <= i < n ==> !mapping.contains_key(#[trigger] row_ids[i]),
    ensures
        kept_rows(row_ids, mapping, n).map_values(|row: (int, u64)| row.1) == row_ids,
        crate::vector::bq::codes::packed(
            gathered_codes(codes, n, width, kept_rows(row_ids, mapping, n)),
            width,
            n,
        ) == codes,
{
    lemma_all_kept(row_ids, mapping, n);
    let rows = kept_rows(row_ids, mapping, n);
    assert(rows.map_values(|row: (int, u64)| row.1) =~= row_ids);
    assert(gathered_codes(codes, n, width, rows) =~= crate::vector::bq::codes::unpacked(
        codes,
        width,
        n,
    )) by {
        assert forall|q: int| 0 <= q < n * width implies #[trigger] gathered_codes(
            codes,
            n,
            width,
            rows,
        )[q] == crate::vector::bq::codes::unpacked(codes, width, n)[q] by {
            let w = width as int;
            assert(0 <= q / w < n) by (nonlinear_arith)
                requires
                    0 <= q < n * w,
                    w > 0,
            ;
            assert(rows[q / w].0 == q / w);
        }
    }
    crate::vector::bq::codes::law_pack_after_unpack(codes, width, n);
}

/// Rows of which nothing is said all stay.
proof fn lemma_all_kept(row_ids: Seq<u64>, mapping: Map<u64, Option<u64>>, n: nat)
    requires
        n <= row_ids.len(),
        forall|i: int| 0 <= i < row_ids.len() ==> !mapping.contains_key(#[trigger] row_ids[i]),
    ensures
        kept_rows(row_ids, mapping, n).len() == n,
        forall|i: int|
            0 <= i < n ==> #[trigger] kept_rows(row_ids, mapping, n)[i] == (i, row_ids[i]),
    decreases n,
{
    if n > 0 {
        lemma_all_kept(row_ids, mapping, (n - 1) as nat);
    }
}

/// Metadata that say the same have the same entries.
pub proof fn law_same_metadata(a: RabitQuantizationMetadata, b: RabitQuantizationMetadata)
    ensures
        a.same_as(&b) <==> {
            &&& a.rotate_mat is Some <==> b.rotate_mat is Some
            &&& a.rotate_mat is Some ==> a.rotate_mat->0.num_rows == b.rotate_mat->0.num_rows
                && a.rotate_mat->0.value_type == b.rotate_mat->0.value_type
                && a.rotate_mat->0.values@ == b.rotate_mat->0.values@
            &&& a.rotate_mat_position == b.rotate_mat_position
            &&& a.fast_rotation_signs is Some <==> b.fast_rotation_signs is Some
            &&& a.fast_rotation_signs is Some ==> a.fast_rotation_signs->0@
                == b.fast_rotation_signs->0@
            &&& a.rotation_type == b.rotation_type
            &&& a.code_dim == b.code_dim
            &&& a.num_bits == b.num_bits
            &&& a.packed == b.packed
        },
{
}

/// What a remapping does, row by row. A row goes exactly where the mapping has its id and gives it
/// none. The others stay, in order, each with its code and both its factors, and under the id that
/// the mapping gives it, or its own where the mapping does not have it. The kind of distance, the
/// width of the codes and the metadata stay too.
pub proof fn law_remap_row_by_row(
    before: RabitQuantizationStorage,
    mapping: Map<u64, Option<u64>>,
    after: RabitQuantizationStorage,
) -> (rows: Seq<int>)
    requires
        before.wf(),
        before.remapped(mapping, after),
    ensures
        rows.len() == after.spec_batch().row_ids@.len(),
        rows.len() == before.kept(mapping).len(),
        after.spec_batch().add_factors@.len() == rows.len(),
        after.spec_batch().scale_factors@.len() == rows.len(),
        forall|i: int|
            0 <= i < rows.len() ==> 0 <= #[trigger] rows[i] < before.spec_batch().row_ids@.len()
                && rows[i] == before.kept(mapping)[i].0,
        forall|i: int, j: int| 0 <= i < j < rows.len() ==> rows[i] < rows[j],
        forall|r: int|
            0 <= r < before.spec_batch().row_ids@.len() ==> (#[trigger] rows.contains(r) <==> !(
            mapping.contains_key(before.spec_batch().row_ids@[r])
                && mapping[before.spec_batch().row_ids@[r]] is None)),
        forall|i: int|
            0 <= i < rows.len() ==> {
                let id = before.spec_batch().row_ids@[#[trigger] rows[i]];
                &&& after.spec_batch().row_ids@[i] == if mapping.contains_key(id) {
                    mapping[id]->0
                } else {
                    id
                }
                &&& after.code(i) == before.code(rows[i])
                &&& after.spec_batch().add_factors@[i] == before.spec_batch().add_factors@[rows[i]]
                &&& after.spec_batch().scale_factors@[i]
                    == before.spec_batch().scale_factors@[rows[i]]
            },
        after.spec_add_factors() == after.spec_batch().add_factors@,
        after.spec_scale_factors() == after.spec_batch().scale_factors@,
        after.spec_distance_type() == before.spec_distance_type(),
        after.width() == before.width(),
        after.spec_metadata().same_as(&before.spec_metadata()),
{
    let row_ids = before.spec_batch().row_ids@;
    let n = row_ids.len();
    let kept = kept_rows(row_ids, mapping, n);
    let rows = kept.map_values(|row: (int, u64)| row.0);
    lemma_kept_rows(row_ids, mapping, n);
    crate::vector::bq::codes::lemma_len_times_width(before.spec_batch().codes);
    assert forall|r: int| 0 <= r < n implies (#[trigger] rows.contains(r) <==> !(
    mapping.contains_key(row_ids[r]) && mapping[row_ids[r]] is None)) by {
        if new_id(mapping, row_ids[r]) is Some {
            let i = lemma_row_is_kept(row_ids, mapping, n, r);
            assert(rows[i] == r);
        }
        if rows.contains(r) {
            let i = choose|i: int| 0 <= i < rows.len() && rows[i] == r;
            assert(kept[i].0 == r);
        }
    }
    assert forall|i: int| 0 <= i < rows.len() implies {
        let id = row_ids[#[trigger] rows[i]];
        &&& after.spec_batch().row_ids@[i] == if mapping.contains_key(id) {
            mapping[id]->0
        } else {
            id
        }
        &&& after.code(i) == before.code(rows[i])
        &&& after.spec_batch().add_factors@[i] == before.spec_batch().add_factors@[rows[i]]
        &&& after.spec_batch().scale_factors@[i] == before.spec_batch().scale_factors@[rows[i]]
    } by {
        assert(new_id(mapping, row_ids[kept[i].0]) == Some(kept[i].1));
        law_remap_keeps_codes(before.packed_codes(), n, before.width(), row_ids, mapping, i);
    }
    rows
}

/// The code of a row is read out of the stored bytes, which hold one code for every row.
pub proof fn law_code_of_a_stored_row(storage: RabitQuantizationStorage, row: int)
    ensures
        storage.code(row) == crate::vector::bq::codes::rq_code(
            storage.spec_batch().codes.values@,
            row,
            storage.spec_batch().row_ids@.len(),
            storage.spec_batch().codes.value_length as nat,
        ),
{
}

/// Codes that were packed into a storage come back row by row.
pub proof fn law_stored_codes_come_back(
    storage: RabitQuantizationStorage,
    codes: FixedSizeListArray,
    row: int,
)
    requires
        codes.wf(),
        storage.width() == codes.value_length,
        storage.spec_batch().row_ids@.len() * codes.value_length == codes.values@.len(),
        storage.packed_codes() == crate::vector::bq::codes::packed(
            codes.values@,
            codes.value_length as nat,
            storage.spec_batch().row_ids@.len(),
        ),
        0 <= row < storage.spec_batch().row_ids@.len(),
    ensures
        storage.code(row) == codes.values@.subrange(
            row * codes.value_length,
            (row + 1) * codes.value_length,
        ),
{
    crate::vector::bq::codes::law_rq_code_of_packed(
        codes.values@,
        codes.value_length as nat,
        storage.spec_batch().row_ids@.len(),
        row,
    );
}

/// The dimension of the codes is what the metadata say; where they say none, the rows of the
/// rotation matrix, and none where there is no matrix.
pub proof fn law_dimension_of_the_codes(storage: RabitQuantizationStorage)
    ensures
        storage.spec_metadata().code_dim > 0 ==> storage.spec_code_dim()
            == storage.spec_metadata().code_dim,
        storage.spec_metadata().code_dim == 0 && storage.spec_metadata().rotate_mat is Some
            ==> storage.spec_code_dim() == storage.spec_metadata().rotate_mat->0.num_rows,
        storage.spec_metadata().code_dim == 0 && storage.spec_metadata().rotate_mat is None
            ==> storage.spec_code_dim() == 0,
{
}

} // verus!
