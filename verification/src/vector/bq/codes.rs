//! The packed layout of quantization codes.
//!
//! Every full group of [`BATCH_SIZE`] vectors is stored block by block: one block of 32 bytes
//! for each byte position of a code, its first half holding the low nibbles of the group and
//! its second half the high nibbles, in the order that the shuffle instructions of the distance
//! kernel expect. The vectors left over are stored column by column.
use vstd::prelude::*;

verus! {

/// Number of vectors that are packed together.
pub const BATCH_SIZE: usize = 32;

/// Slot `j` of a half block holds vector `PERM0[j]` in its low nibble and vector
/// `PERM0[j] + 16` in its high nibble.
pub const PERM0: [usize; 16] = [0, 8, 1, 9, 2, 10, 3, 11, 4, 12, 5, 13, 6, 14, 7, 15];

/// The inverse of [`PERM0`]: vector `v` of the lower sixteen sits in slot `PERM0_INVERSE[v]`.
pub const PERM0_INVERSE: [usize; 16] = [0, 2, 4, 6, 8, 10, 12, 14, 1, 3, 5, 7, 9, 11, 13, 15];

/// A list of byte codes that all have the same length, stored one after the other.
#[derive(Debug, Clone)]
pub struct FixedSizeListArray {
    pub values: Vec<u8>,
    pub value_length: usize,
}

impl FixedSizeListArray {
    /// Codes are not empty, and the values are a whole number of codes.
    pub open spec fn wf(&self) -> bool {
        &&& self.value_length > 0
        &&& self.values@.len() % (self.value_length as nat) == 0
    }

    /// The number of codes.
    pub open spec fn spec_len(&self) -> nat {
        self.values@.len() / (self.value_length as nat)
    }

    /// The bytes of the code at position `id`.
    pub open spec fn code(&self, id: int) -> Seq<u8> {
        self.values@.subrange(id * self.value_length, (id + 1) * self.value_length)
    }

    /// The number of codes.
    pub fn len(&self) -> (n: usize)
        requires
            self.wf(),
        ensures
            n == self.spec_len(),
            n * self.value_length == self.values@.len(),
    {
        proof {
            lemma_len_times_width(*self);
        }
        self.values.len() / self.value_length
    }
}

/// A whole number of codes fills the values.
pub proof fn lemma_len_times_width(codes: FixedSizeListArray)
    requires
        codes.wf(),
    ensures
        codes.spec_len() * codes.value_length == codes.values@.len(),
{
    vstd::arithmetic::div_mod::lemma_fundamental_div_mod(
        codes.values@.len() as int,
        codes.value_length as int,
    );
    vstd::arithmetic::mul::lemma_mul_is_commutative(
        codes.value_length as int,
        codes.spec_len() as int,
    );
}

/// The vector in the low nibbles of slot `j`.
pub open spec fn perm(j: int) -> int {
    if j % 2 == 0 { j / 2 } else { j / 2 + 8 }
}

/// The slot whose low nibbles belong to vector `v` of the lower sixteen.
pub open spec fn perm_inverse(v: int) -> int {
    if v < 8 { 2 * v } else { 2 * (v - 8) + 1 }
}

/// How many of `n` vectors lie in full groups.
pub open spec fn packed_count(n: nat) -> nat {
    n / 32 * 32
}

/// One byte of the packed layout of `values`, `n` codes of `width` bytes.
pub open spec fn packed_byte(values: Seq<u8>, width: nat, n: nat, p: int) -> u8 {
    let m = packed_count(n);
    if p < m * width {
        let block = p / 32;
        let slot = p % 32;
        let group = block / width as int;
        let col = block % width as int;
        let low = values[(group * 32 + perm(slot % 16)) * width + col];
        let high = values[(group * 32 + perm(slot % 16) + 16) * width + col];
        if slot < 16 {
            (low & 0xF) | ((high & 0xF) << 4)
        } else {
            (low >> 4) | ((high >> 4) << 4)
        }
    } else {
        let r = n - m;
        let q = p - m * width;
        values[(m + q % r) * width + q / r]
    }
}

/// The packed layout of `n` codes of `width` bytes.
pub open spec fn packed(values: Seq<u8>, width: nat, n: nat) -> Seq<u8> {
    Seq::new(n * width, |p: int| packed_byte(values, width, n, p))
}

/// Byte `col` of the code of vector `id`, read out of the packed layout.
pub open spec fn rq_byte(codes: Seq<u8>, id: int, n: nat, width: nat, col: int) -> u8 {
    let m = packed_count(n);
    if id < m {
        let start = (id / 32 * width + col) * 32;
        let v = id % 32;
        if v < 16 {
            let slot = perm_inverse(v);
            (codes[start + slot] & 0xF) | (codes[start + slot + 16] << 4)
        } else {
            let slot = perm_inverse(v - 16);
            (codes[start + slot] >> 4) | (codes[start + slot + 16] & 0xF0)
        }
    } else {
        codes[m * width + col * (n - m) + (id - m)]
    }
}

/// The code of vector `id`, read out of the packed layout.
pub open spec fn rq_code(codes: Seq<u8>, id: int, n: nat, width: nat) -> Seq<u8> {
    Seq::new(width, |col: int| rq_byte(codes, id, n, width, col))
}

/// All codes, read out of the packed layout.
pub open spec fn unpacked(codes: Seq<u8>, width: nat, n: nat) -> Seq<u8> {
    Seq::new(n * width, |p: int| rq_byte(codes, p / width as int, n, width, p % width as int))
}

/// Position `col` of row `id` lies inside `n` rows of `width`.
proof fn lemma_in_rows(id: int, n: int, width: int, col: int)
    requires
        0 <= id < n,
        0 <= col < width,
    ensures
        0 <= id * width + col < n * width,
        0 <= id * width,
        id * width + width <= n * width,
{
    assert(id * width + width == (id + 1) * width) by (nonlinear_arith);
    assert((id + 1) * width <= n * width) by (nonlinear_arith)
        requires
            id + 1 <= n,
            0 < width,
    ;
    assert(0 <= id * width) by (nonlinear_arith)
        requires
            0 <= id,
            0 < width,
    ;
}

/// Copies byte `col_idx` of the 32 codes that start at `row`.
pub fn get_column(
    quantization_code: &[u8],
    code_len: usize,
    row: usize,
    col_idx: usize,
    codes: &mut [u8; 32],
)
    requires
        col_idx < code_len,
        (row + 32) * code_len <= quantization_code@.len(),
    ensures
        forall|i: int|
            0 <= i < 32 ==> #[trigger] final(codes)@[i] == quantization_code@[(row + i) * code_len
                + col_idx],
{
    let total: usize = quantization_code.len();
    let mut i: usize = 0;
    while i < 32
        invariant
            i <= 32,
            col_idx < code_len,
            total == quantization_code@.len(),
            (row + 32) * code_len <= total,
            forall|k: int|
                0 <= k < i ==> #[trigger] codes@[k] == quantization_code@[(row + k) * code_len
                    + col_idx],
        decreases 32 - i,
    {
        proof {
            lemma_in_rows(row + i, row + 32, code_len as int, col_idx as int);
            assert(row + i <= (row + i) * code_len) by (nonlinear_arith)
                requires
                    code_len >= 1,
            ;
        }
        let vec_idx: usize = row + i;
        codes[i] = quantization_code[vec_idx * code_len + col_idx];
        i = i + 1;
    }
}

/// The permutation tables are `perm` and its inverse.
proof fn lemma_perm_tables()
    ensures
        forall|j: int| 0 <= j < 16 ==> #[trigger] PERM0@[j] == perm(j) && 0 <= perm(j) < 16,
        forall|v: int|
            0 <= v < 16 ==> #[trigger] PERM0_INVERSE@[v] == perm_inverse(v) && 0 <= perm_inverse(v)
                < 16,
{
}

/// Where slot `slot` of column `col` of group `group` lies, and what it holds.
proof fn lemma_packed_slot(values: Seq<u8>, width: nat, n: nat, group: int, col: int, slot: int)
    requires
        0 <= group < n / 32,
        0 <= col < width,
        0 <= slot < 32,
    ensures
        0 <= (group * width + col) * 32 + slot < packed_count(n) * width,
        packed_count(n) * width <= n * width,
        ({
            let low = values[(group * 32 + perm(slot % 16)) * width + col];
            let high = values[(group * 32 + perm(slot % 16) + 16) * width + col];
            packed_byte(values, width, n, (group * width + col) * 32 + slot) == if slot < 16 {
                (low & 0xF) | ((high & 0xF) << 4)
            } else {
                (low >> 4) | ((high >> 4) << 4)
            }
        }),
{
    let block = group * width + col;
    lemma_in_rows(group, (n / 32) as int, width as int, col);
    assert(block < (n / 32) * width);
    assert((n / 32) * width * 32 == packed_count(n) * width) by (nonlinear_arith)
        requires
            packed_count(n) == n / 32 * 32,
    ;
    assert(packed_count(n) * width <= n * width) by (nonlinear_arith)
        requires
            packed_count(n) <= n,
    ;
    vstd::arithmetic::div_mod::lemma_fundamental_div_mod_converse(
        block,
        width as int,
        group,
        col,
    );
    let p = block * 32 + slot;
    assert(p / 32 == block && p % 32 == slot);
}

/// Where column `col` of the left-over vector `row` lies, and what it holds.
proof fn lemma_packed_rest(values: Seq<u8>, width: nat, n: nat, col: int, row: int)
    requires
        0 <= col < width,
        0 <= row < n - packed_count(n),
    ensures
        packed_count(n) * width <= packed_count(n) * width + col * (n - packed_count(n)) + row < n
            * width,
        packed_byte(
            values,
            width,
            n,
            packed_count(n) * width + col * (n - packed_count(n)) + row,
        ) == values[(packed_count(n) + row) * width + col],
{
    let m = packed_count(n) as int;
    let r = n - m;
    lemma_in_rows(col, width as int, r, row);
    assert(m * width + width * r == n * width) by (nonlinear_arith)
        requires
            r == n - m,
    ;
    vstd::arithmetic::div_mod::lemma_fundamental_div_mod_converse(col * r + row, r, col, row);
}

/// Rearranges codes into the packed layout.
pub fn pack_codes(codes: &FixedSizeListArray) -> (r: FixedSizeListArray)
    requires
        codes.wf(),
    ensures
        r.wf(),
        r.value_length == codes.value_length,
        r.spec_len() == codes.spec_len(),
        r.values@ == packed(codes.values@, codes.value_length as nat, codes.spec_len()),
{
    let code_len: usize = codes.value_length;
    let n: usize = codes.len();
    let total: usize = codes.values.len();
    let groups: usize = n / BATCH_SIZE;
    let num_packed: usize = groups * BATCH_SIZE;
    let ghost target = packed(codes.values@, code_len as nat, n as nat);
    let ghost width = code_len as int;
    let mut blocks: Vec<u8> = Vec::with_capacity(total);
    let mut col: [u8; 32] = [0u8; 32];
    proof {
        lemma_perm_tables();
        assert(target.take(0) =~= Seq::<u8>::empty());
        assert(0 * width == 0) by (nonlinear_arith);
    }
    let mut group: usize = 0;
    while group < groups
        invariant
            group <= groups,
            groups == n / 32,
            code_len > 0,
            width == code_len,
            n * code_len == total,
            total == codes.values@.len(),
            target == packed(codes.values@, code_len as nat, n as nat),
            blocks@ == target.take((group * width) * 32),
            forall|j: int| 0 <= j < 16 ==> #[trigger] PERM0@[j] == perm(j) && 0 <= perm(j) < 16,
        decreases groups - group,
    {
        let mut i: usize = 0;
        while i < code_len
            invariant
                i <= code_len,
                group < groups,
                groups == n / 32,
                code_len > 0,
                width == code_len,
                n * code_len == total,
                total == codes.values@.len(),
                target == packed(codes.values@, code_len as nat, n as nat),
                blocks@ == target.take((group * width + i) * 32),
                forall|j: int| 0 <= j < 16 ==> #[trigger] PERM0@[j] == perm(j) && 0 <= perm(j) < 16,
            decreases code_len - i,
        {
            proof {
                assert((group * 32 + 32) * code_len <= n * code_len) by (nonlinear_arith)
                    requires
                        group * 32 + 32 <= n,
                ;
            }
            get_column(codes.values.as_slice(), code_len, group * BATCH_SIZE, i, &mut col);
            let ghost start = (group * width + i) * 32;
            let mut j: usize = 0;
            while j < 16
                invariant
                    j <= 16,
                    group < n / 32,
                    i < code_len,
                    width == code_len,
                    start == (group * width + i) * 32,
                    target == packed(codes.values@, code_len as nat, n as nat),
                    blocks@ == target.take(start + j),
                    forall|j: int|
                        0 <= j < 16 ==> #[trigger] PERM0@[j] == perm(j) && 0 <= perm(j) < 16,
                    forall|v: int|
                        0 <= v < 32 ==> #[trigger] col@[v] == codes.values@[(group * 32 + v)
                            * code_len + i],
                decreases 16 - j,
            {
                proof {
                    lemma_packed_slot(
                        codes.values@,
                        code_len as nat,
                        n as nat,
                        group as int,
                        i as int,
                        j as int,
                    );
                    assert(PERM0@[j as int] == perm(j as int));
                }
                let low: u8 = col[PERM0[j]] & 0xF;
                let high: u8 = col[PERM0[j] + 16] & 0xF;
                blocks.push(low | (high << 4));
                assert(blocks@ =~= target.take(start + j + 1));
                j = j + 1;
            }
            let mut k: usize = 0;
            while k < 16
                invariant
                    k <= 16,
                    group < n / 32,
                    i < code_len,
                    width == code_len,
                    start == (group * width + i) * 32,
                    target == packed(codes.values@, code_len as nat, n as nat),
                    blocks@ == target.take(start + 16 + k),
                    forall|j: int|
                        0 <= j < 16 ==> #[trigger] PERM0@[j] == perm(j) && 0 <= perm(j) < 16,
                    forall|v: int|
                        0 <= v < 32 ==> #[trigger] col@[v] == codes.values@[(group * 32 + v)
                            * code_len + i],
                decreases 16 - k,
            {
                proof {
                    lemma_packed_slot(
                        codes.values@,
                        code_len as nat,
                        n as nat,
                        group as int,
                        i as int,
                        k + 16,
                    );
                    assert(PERM0@[k as int] == perm(k as int));
                }
                let low: u8 = col[PERM0[k]] >> 4;
                let high: u8 = col[PERM0[k] + 16] >> 4;
                blocks.push(low | (high << 4));
                assert(blocks@ =~= target.take(start + 16 + k + 1));
                k = k + 1;
            }
            proof {
                assert((group * width + i + 1) * 32 == start + 32);
            }
            i = i + 1;
        }
        proof {
            assert((group + 1) * width == group * width + width) by (nonlinear_arith);
        }
        group = group + 1;
    }

    let rest: usize = n - num_packed;
    proof {
        assert((groups * width) * 32 == packed_count(n as nat) * width) by (nonlinear_arith)
            requires
                packed_count(n as nat) == groups * 32,
        ;
    }
    let ghost base = packed_count(n as nat) * width;
    let mut c: usize = 0;
    while c < code_len
        invariant
            c <= code_len,
            width == code_len,
            num_packed == packed_count(n as nat),
            rest == n - num_packed,
            base == packed_count(n as nat) * width,
            n * code_len == total,
            total == codes.values@.len(),
            target == packed(codes.values@, code_len as nat, n as nat),
            blocks@ == target.take(base + c * rest),
        decreases code_len - c,
    {
        let mut row: usize = 0;
        while row < rest
            invariant
                row <= rest,
                c < code_len,
                width == code_len,
                num_packed == packed_count(n as nat),
                rest == n - num_packed,
                base == packed_count(n as nat) * width,
                n * code_len == total,
                total == codes.values@.len(),
                target == packed(codes.values@, code_len as nat, n as nat),
                blocks@ == target.take(base + c * rest + row),
            decreases rest - row,
        {
            proof {
                lemma_packed_rest(
                    codes.values@,
                    code_len as nat,
                    n as nat,
                    c as int,
                    row as int,
                );
                lemma_in_rows(num_packed + row, n as int, width, c as int);
            }
            blocks.push(codes.values[(num_packed + row) * code_len + c]);
            assert(blocks@ =~= target.take(base + c * rest + row + 1));
            row = row + 1;
        }
        proof {
            assert((c + 1) * rest == c * rest + rest) by (nonlinear_arith);
        }
        c = c + 1;
    }
    proof {
        assert(base + width * rest == n * width) by (nonlinear_arith)
            requires
                base == num_packed * width,
                rest == n - num_packed,
        ;
        assert(target.take(n * width) =~= target);
        lemma_len_times_width(*codes);
    }
    FixedSizeListArray { values: blocks, value_length: code_len }
}

/// The bytes that hold column `col` of vector `id` lie inside the packed codes.
pub proof fn lemma_rq_bounds(id: int, n: nat, width: nat, col: int)
    requires
        0 <= id < n,
        0 <= col < width,
    ensures
        id < packed_count(n) ==> 0 <= (id / 32 * width + col) * 32 && (id / 32 * width + col) * 32
            + 32 <= packed_count(n) * width,
        packed_count(n) * width <= n * width,
        id >= packed_count(n) ==> 0 <= packed_count(n) * width + col * (n - packed_count(n)) + (id
            - packed_count(n)) < n * width,
{
    if id < packed_count(n) {
        lemma_packed_slot(Seq::empty(), width, n, id / 32, col, 31);
    } else {
        lemma_packed_rest(Seq::empty(), width, n, col, id - packed_count(n));
    }
    assert(packed_count(n) * width <= n * width) by (nonlinear_arith)
        requires
            packed_count(n) <= n,
    ;
}

/// Reads one byte of a code out of the packed layout.
fn get_rq_byte(codes: &[u8], id: usize, num_vectors: usize, num_code_bytes: usize, col: usize) -> (r:
    u8)
    requires
        id < num_vectors,
        col < num_code_bytes,
        codes@.len() == num_vectors * num_code_bytes,
    ensures
        r == rq_byte(codes@, id as int, num_vectors as nat, num_code_bytes as nat, col as int),
{
    let total: usize = codes.len();
    let remainder: usize = num_vectors % BATCH_SIZE;
    let num_packed: usize = num_vectors - remainder;
    proof {
        lemma_rq_bounds(id as int, num_vectors as nat, num_code_bytes as nat, col as int);
        lemma_perm_tables();
    }
    if id < num_packed {
        proof {
            assert(0 <= id as int / 32 * num_code_bytes) by (nonlinear_arith)
                requires
                    id >= 0,
                    num_code_bytes >= 0,
            ;
        }
        let start: usize = (id / BATCH_SIZE * num_code_bytes + col) * BATCH_SIZE;
        let v: usize = id % BATCH_SIZE;
        if v < 16 {
            proof {
                assert(PERM0_INVERSE@[v as int] == perm_inverse(v as int));
            }
            let slot: usize = PERM0_INVERSE[v];
            (codes[start + slot] & 0xF) | (codes[start + slot + 16] << 4)
        } else {
            proof {
                assert(PERM0_INVERSE@[v - 16] == perm_inverse(v - 16));
            }
            let slot: usize = PERM0_INVERSE[v - 16];
            (codes[start + slot] >> 4) | (codes[start + slot + 16] & 0xF0)
        }
    } else {
        proof {
            assert(0 <= packed_count(num_vectors as nat) * num_code_bytes) by (nonlinear_arith)
                requires
                    packed_count(num_vectors as nat) >= 0,
                    num_code_bytes >= 0,
            ;
            assert(0 <= col * remainder) by (nonlinear_arith)
                requires
                    col >= 0,
                    remainder >= 0,
            ;
        }
        codes[num_packed * num_code_bytes + col * remainder + (id - num_packed)]
    }
}

/// The code of vector `id`, read out of the packed layout of `num_vectors` codes.
pub fn get_rq_code(codes: &[u8], id: usize, num_vectors: usize, num_code_bytes: usize) -> (r: Vec<
    u8,
>)
    requires
        id < num_vectors,
        codes@.len() == num_vectors * num_code_bytes,
    ensures
        r@ == rq_code(codes@, id as int, num_vectors as nat, num_code_bytes as nat),
{
    let mut code: Vec<u8> = Vec::with_capacity(num_code_bytes);
    let mut col: usize = 0;
    while col < num_code_bytes
        invariant
            col <= num_code_bytes,
            id < num_vectors,
            codes@.len() == num_vectors * num_code_bytes,
            code@ == rq_code(codes@, id as int, num_vectors as nat, num_code_bytes as nat).take(
                col as int,
            ),
        decreases num_code_bytes - col,
    {
        code.push(get_rq_byte(codes, id, num_vectors, num_code_bytes, col));
        assert(code@ =~= rq_code(
            codes@,
            id as int,
            num_vectors as nat,
            num_code_bytes as nat,
        ).take(col + 1));
        col = col + 1;
    }
    assert(code@ =~= rq_code(codes@, id as int, num_vectors as nat, num_code_bytes as nat));
    code
}

/// Restores the codes that [`pack_codes`] rearranged.
pub fn unpack_codes(codes: &FixedSizeListArray) -> (r: FixedSizeListArray)
    requires
        codes.wf(),
    ensures
        r.wf(),
        r.value_length == codes.value_length,
        r.spec_len() == codes.spec_len(),
        r.values@ == unpacked(codes.values@, codes.value_length as nat, codes.spec_len()),
{
    let code_len: usize = codes.value_length;
    let n: usize = codes.len();
    let mut values: Vec<u8> = Vec::with_capacity(codes.values.len());
    let ghost target = unpacked(codes.values@, code_len as nat, n as nat);
    let ghost width = code_len as int;
    proof {
        assert(0 * width == 0) by (nonlinear_arith);
        assert(target.take(0) =~= Seq::<u8>::empty());
    }
    let mut id: usize = 0;
    while id < n
        invariant
            id <= n,
            width == code_len,
            width > 0,
            codes.values@.len() == n * code_len,
            target == unpacked(codes.values@, code_len as nat, n as nat),
            values@ == target.take(id * width),
        decreases n - id,
    {
        let mut col: usize = 0;
        while col < code_len
            invariant
                id < n,
                col <= code_len,
                width == code_len,
                codes.values@.len() == n * code_len,
                target == unpacked(codes.values@, code_len as nat, n as nat),
                values@ == target.take(id * width + col),
            decreases code_len - col,
        {
            values.push(get_rq_byte(codes.values.as_slice(), id, n, code_len, col));
            proof {
                lemma_in_rows(id as int, n as int, width, col as int);
                vstd::arithmetic::div_mod::lemma_fundamental_div_mod_converse(
                    id * width + col,
                    width,
                    id as int,
                    col as int,
                );
                assert(values@ =~= target.take(id * width + col + 1));
            }
            col = col + 1;
        }
        proof {
            assert((id + 1) * width == id * width + width) by (nonlinear_arith);
        }
        id = id + 1;
    }
    proof {
        assert(target.take(n * width) =~= target);
        lemma_len_times_width(*codes);
    }
    FixedSizeListArray { values, value_length: code_len }
}

/// A byte comes back from the two halves of a block that its nibbles went to.
proof fn lemma_nibbles(a: u8, b: u8)
    ensures
        ((((a & 0xF) | ((b & 0xF) << 4)) & 0xF) | (((a >> 4) | ((b >> 4) << 4)) << 4)) == a,
        ((((a & 0xF) | ((b & 0xF) << 4)) >> 4) | (((a >> 4) | ((b >> 4) << 4)) & 0xF0)) == b,
        ((((a & 0xF) | (b << 4)) & 0xF) | ((((a >> 4) | (b & 0xF0)) & 0xF) << 4)) == a,
        ((((a & 0xF) | (b << 4)) >> 4) | ((((a >> 4) | (b & 0xF0)) >> 4) << 4)) == b,
{
    assert(((((a & 0xF) | ((b & 0xF) << 4)) & 0xF) | (((a >> 4) | ((b >> 4) << 4)) << 4)) == a)
        by (bit_vector);
    assert(((((a & 0xF) | ((b & 0xF) << 4)) >> 4) | (((a >> 4) | ((b >> 4) << 4)) & 0xF0)) == b)
        by (bit_vector);
    assert(((((a & 0xF) | (b << 4)) & 0xF) | ((((a >> 4) | (b & 0xF0)) & 0xF) << 4)) == a)
        by (bit_vector);
    assert(((((a & 0xF) | (b << 4)) >> 4) | ((((a >> 4) | (b & 0xF0)) >> 4) << 4)) == b)
        by (bit_vector);
}

/// The code of a vector can be read out of the packed layout: it is the code that was packed.
pub proof fn law_rq_code_of_packed(values: Seq<u8>, width: nat, n: nat, id: int)
    requires
        values.len() == n * width,
        0 <= id < n,
    ensures
        rq_code(packed(values, width, n), id, n, width) == values.subrange(
            id * width,
            (id + 1) * width,
        ),
{
    let code = values.subrange(id * width, (id + 1) * width);
    let p = packed(values, width, n);
    let m = packed_count(n) as int;
    assert((id + 1) * width == id * width + width) by (nonlinear_arith);
    assert(0 <= id * width && (id + 1) * width <= n * width) by (nonlinear_arith)
        requires
            0 <= id < n,
    ;
    assert forall|col: int| 0 <= col < width implies #[trigger] rq_byte(p, id, n, width, col)
        == values[id * width + col] by {
        lemma_rq_bounds(id, n, width, col);
        if id < m {
            let group = id / 32;
            let v = id % 32;
            let w = if v < 16 { v } else { v - 16 };
            let slot = perm_inverse(w);
            lemma_packed_slot(values, width, n, group, col, slot);
            lemma_packed_slot(values, width, n, group, col, slot + 16);
            assert(perm(slot) == w);
            assert(slot % 16 == slot && (slot + 16) % 16 == slot);
            lemma_nibbles(
                values[(group * 32 + w) * width + col],
                values[(group * 32 + w + 16) * width + col],
            );
        } else {
            lemma_packed_rest(values, width, n, col, id - m);
        }
    }
    assert(rq_code(p, id, n, width) =~= code);
}

/// Unpacking is the inverse of packing.
pub proof fn law_unpack_after_pack(values: Seq<u8>, width: nat, n: nat)
    requires
        values.len() == n * width,
        width > 0,
    ensures
        unpacked(packed(values, width, n), width, n) == values,
{
    let p = packed(values, width, n);
    assert forall|q: int| 0 <= q < n * width implies #[trigger] unpacked(p, width, n)[q]
        == values[q] by {
        let id = q / width as int;
        let col = q % width as int;
        lemma_row_of(q, width as int, n as int);
        law_rq_code_of_packed(values, width, n, id);
        assert((id + 1) * width == id * width + width) by (nonlinear_arith);
        lemma_in_rows(id, n as int, width as int, col);
        assert(rq_code(p, id, n, width)[col] == values.subrange(id * width, (id + 1) * width)[col]);
    }
    assert(unpacked(p, width, n) =~= values);
}

/// Position `q` lies in row `q / width`, at `q % width`.
proof fn lemma_row_of(q: int, width: int, n: int)
    requires
        width > 0,
        0 <= q < n * width,
    ensures
        0 <= q / width < n,
        0 <= q % width < width,
        q == q / width * width + q % width,
{
    vstd::arithmetic::div_mod::lemma_fundamental_div_mod(q, width);
    vstd::arithmetic::mul::lemma_mul_is_commutative(width, q / width);
    vstd::arithmetic::div_mod::lemma_div_pos_is_pos(q, width);
    assert(q / width < n) by (nonlinear_arith)
        requires
            q == q / width * width + q % width,
            0 <= q % width,
            q < n * width,
            width > 0,
    ;
}

/// Byte `col` of row `id` of the codes read out of a packed layout.
proof fn lemma_unpacked_byte(codes: Seq<u8>, width: nat, n: nat, id: int, col: int)
    requires
        0 <= id < n,
        0 <= col < width,
    ensures
        0 <= id * width + col < n * width,
        unpacked(codes, width, n)[id * width + col] == rq_byte(codes, id, n, width, col),
{
    lemma_in_rows(id, n as int, width as int, col);
    vstd::arithmetic::div_mod::lemma_fundamental_div_mod_converse(
        id * width + col,
        width as int,
        id,
        col,
    );
    assert(0 <= id * width) by (nonlinear_arith)
        requires
            0 <= id,
    ;
}

/// Packing is the inverse of unpacking.
pub proof fn law_pack_after_unpack(codes: Seq<u8>, width: nat, n: nat)
    requires
        codes.len() == n * width,
        width > 0,
    ensures
        packed(unpacked(codes, width, n), width, n) == codes,
{
    let values = unpacked(codes, width, n);
    let m = packed_count(n) as int;
    assert forall|p: int| 0 <= p < n * width implies #[trigger] packed_byte(values, width, n, p)
        == codes[p] by {
        if p < m * width {
            let block = p / 32;
            let slot = p % 32;
            let j = slot % 16;
            let group = block / width as int;
            let col = block % width as int;
            assert(m * width == (n / 32 * width) * 32) by (nonlinear_arith)
                requires
                    m == n / 32 * 32,
            ;
            assert(block < n / 32 * width);
            lemma_row_of(block, width as int, (n / 32) as int);
            lemma_perm_tables();
            let id = group * 32 + perm(j);
            assert(0 <= perm(j) < 16 && perm_inverse(perm(j)) == j);
            assert(id / 32 == group && id % 32 == perm(j));
            assert((id + 16) / 32 == group && (id + 16) % 32 == perm(j) + 16);
            lemma_unpacked_byte(codes, width, n, id, col);
            lemma_unpacked_byte(codes, width, n, id + 16, col);
            let start = (group * width + col) * 32;
            assert(p == start + slot);
            lemma_nibbles(codes[start + j], codes[start + j + 16]);
        } else {
            let r = n - m;
            let q = p - m * width;
            assert((n - m) * width == n * width - m * width) by (nonlinear_arith);
            assert(r > 0) by (nonlinear_arith)
                requires
                    0 <= q < r * width,
                    r >= 0,
            ;
            assert(q < width * r) by (nonlinear_arith)
                requires
                    q < r * width,
            ;
            lemma_row_of(q, r, width as int);
            lemma_unpacked_byte(codes, width, n, m + q % r, q / r);
        }
    }
    assert(packed(values, width, n) =~= codes);
}

/// The nibbles of a byte that was put together from two bytes, as remainders and quotients.
proof fn lemma_nibble_values(a: u8, b: u8)
    ensures
        ((a & 0xF) | ((b & 0xF) << 4)) == a % 16 + 16 * (b % 16),
        ((a >> 4) | ((b >> 4) << 4)) == a / 16 + 16 * (b / 16),
        ((a & 0xF) | (b << 4)) == a % 16 + 16 * (b % 16),
        ((a >> 4) | (b & 0xF0)) == a / 16 + 16 * (b / 16),
{
    assert(((a & 0xF) | ((b & 0xF) << 4)) == a % 16 + 16 * (b % 16) && ((a >> 4) | ((b >> 4) << 4))
        == a / 16 + 16 * (b / 16) && ((a & 0xF) | (b << 4)) == a % 16 + 16 * (b % 16) && ((a >> 4)
        | (b & 0xF0)) == a / 16 + 16 * (b / 16)) by (bit_vector);
}

/// The packed layout of a full group: for each code byte a block of 32 bytes. Byte `j` of the first
/// sixteen holds the low halves of two vectors, sixteen apart, and the byte sixteen behind it their
/// high halves; even bytes belong to the first eight vectors in order and odd ones to the next eight.
pub proof fn law_packed_group(values: Seq<u8>, width: nat, n: nat, group: int, col: int, j: int)
    requires
        values.len() == n * width,
        0 <= group < n / 32,
        0 <= col < width,
        0 <= j < 16,
    ensures
        packed(values, width, n).len() == n * width,
        ({
            let start = (group * width + col) * 32;
            let vector = group * 32 + if j % 2 == 0 {
                j / 2
            } else {
                8 + j / 2
            };
            let low = values[vector * width + col];
            let high = values[(vector + 16) * width + col];
            &&& 0 <= start && start + 32 <= n * width
            &&& packed(values, width, n)[start + j] == low % 16 + 16 * (high % 16)
            &&& packed(values, width, n)[start + 16 + j] == low / 16 + 16 * (high / 16)
        }),
{
    let start = (group * width + col) * 32;
    lemma_packed_slot(values, width, n, group, col, j);
    lemma_packed_slot(values, width, n, group, col, j + 16);
    lemma_rq_bounds(group * 32, n, width, col);
    assert(group * 32 / 32 == group);
    assert((j + 16) % 16 == j && j % 16 == j);
    let vector = group * 32 + perm(j);
    lemma_nibble_values(values[vector * width + col], values[(vector + 16) * width + col]);
}

/// Codes behind the last full group are stored byte position by byte position: all first bytes, then
/// all second ones, and so on.
pub proof fn law_packed_rest(values: Seq<u8>, width: nat, n: nat, id: int, col: int)
    requires
        values.len() == n * width,
        n / 32 * 32 <= id < n,
        0 <= col < width,
    ensures
        packed(values, width, n)[(n / 32 * 32) * width + col * (n % 32) + id % 32] == values[id
            * width + col],
{
    let m = packed_count(n) as int;
    assert(n - m == n % 32 && id - m == id % 32);
    lemma_packed_rest(values, width, n, col, id - m);
}

/// A code byte is read back out of the packed layout from two bytes sixteen apart, its low half out
/// of the first and its high half out of the second: low halves of those for the first sixteen
/// vectors of a group, and high halves for the others.
pub proof fn law_code_byte_of_a_group(codes: Seq<u8>, width: nat, n: nat, id: int, col: int)
    requires
        0 <= id < n / 32 * 32,
        0 <= col < width,
    ensures
        rq_code(codes, id, n, width).len() == width,
        ({
            let lane = id % 32;
            let first = (id / 32 * width + col) * 32 + 2 * (lane % 8) + lane % 16 / 8;
            let a = codes[first];
            let b = codes[first + 16];
            rq_code(codes, id, n, width)[col] == if lane < 16 {
                a % 16 + 16 * (b % 16)
            } else {
                a / 16 + 16 * (b / 16)
            }
        }),
{
    let lane = id % 32;
    let w = if lane < 16 {
        lane
    } else {
        lane - 16
    };
    let start = (id / 32 * width + col) * 32;
    assert(perm_inverse(w) == 2 * (lane % 8) + lane % 16 / 8);
    assert(rq_code(codes, id, n, width)[col] == rq_byte(codes, id, n, width, col));
    lemma_nibble_values(codes[start + perm_inverse(w)], codes[start + perm_inverse(w) + 16]);
}

/// A code byte behind the last full group is read from among the bytes of its position.
pub proof fn law_code_byte_of_the_rest(codes: Seq<u8>, width: nat, n: nat, id: int, col: int)
    requires
        n / 32 * 32 <= id < n,
        0 <= col < width,
    ensures
        rq_code(codes, id, n, width).len() == width,
        rq_code(codes, id, n, width)[col] == codes[(n / 32 * 32) * width + col * (n % 32) + id % 32],
{
    let m = packed_count(n) as int;
    assert(n - m == n % 32 && id - m == id % 32);
}

/// Unpacking puts the codes one behind the other.
pub proof fn law_unpacked_codes(codes: Seq<u8>, width: nat, n: nat, id: int, col: int)
    requires
        0 <= id < n,
        0 <= col < width,
    ensures
        unpacked(codes, width, n).len() == n * width,
        0 <= id * width + col < n * width,
        unpacked(codes, width, n)[id * width + col] == rq_code(codes, id, n, width)[col],
{
    lemma_unpacked_byte(codes, width, n, id, col);
    lemma_in_rows(id, n as int, width as int, col);
}

/// Codes of a list stand one behind the other.
pub proof fn law_code_of_a_list(codes: FixedSizeListArray, id: int, col: int)
    requires
        codes.wf(),
        0 <= id < codes.spec_len(),
        0 <= col < codes.value_length,
    ensures
        codes.spec_len() * codes.value_length == codes.values@.len(),
        codes.code(id).len() == codes.value_length,
        codes.code(id)[col] == codes.values@[id * codes.value_length + col],
{
    lemma_len_times_width(codes);
    lemma_in_rows(id, codes.spec_len() as int, codes.value_length as int, col);
    assert((id + 1) * codes.value_length == id * codes.value_length + codes.value_length)
        by (nonlinear_arith);
}

/// Packing and unpacking keep the number of bytes, and a code has as many as its width.
pub proof fn law_numbers_of_bytes(bytes: Seq<u8>, width: nat, n: nat, id: int)
    ensures
        packed(bytes, width, n).len() == n * width,
        unpacked(bytes, width, n).len() == n * width,
        rq_code(bytes, id, n, width).len() == width,
{
}

} // verus!
