//! Distances of packed codes, and the search for the nearest of them.
use vstd::multiset::Multiset;
use vstd::prelude::*;

use crate::ordered::{OrderedFloat, INFINITY_KEY};
use crate::topk::{push_topk_result, topk_from_distances, NodeHeap, OrderedNode};
use crate::vector::bq::codes::{BATCH_SIZE, PERM0_INVERSE};

verus! {

/// Number of code bits that one distance table covers.
pub const SEGMENT_LENGTH: usize = 4;

/// Number of entries of a distance table.
pub const SEGMENT_NUM_CODES: usize = 16;

/// Addition that stops at the largest 16-bit value.
pub open spec fn sat_add(a: int, b: int) -> int {
    if a + b > 65535 { 65535 } else { a + b }
}

/// The low nibble of the code byte that lane `lane` has in a packed block.
pub open spec fn lane_low(block: Seq<u8>, lane: int) -> u8 {
    if lane < 16 {
        block[crate::vector::bq::codes::perm_inverse(lane)] & 0xF
    } else {
        block[crate::vector::bq::codes::perm_inverse(lane - 16)] >> 4
    }
}

/// The high nibble of the code byte that lane `lane` has in a packed block.
pub open spec fn lane_high(block: Seq<u8>, lane: int) -> u8 {
    if lane < 16 {
        block[crate::vector::bq::codes::perm_inverse(lane) + 16] & 0xF
    } else {
        block[crate::vector::bq::codes::perm_inverse(lane - 16) + 16] >> 4
    }
}

/// The sum of a lane after the two nibbles of its code byte were looked up and added.
pub open spec fn lane_sum(block: Seq<u8>, table: Seq<u8>, before: u16, lane: int) -> int {
    sat_add(
        sat_add(before as int, table[lane_low(block, lane) as int] as int),
        table[16 + lane_high(block, lane)] as int,
    )
}

/// Nibbles are less than sixteen.
proof fn lemma_nibble_bounds(b: u8)
    ensures
        b & 0xF < 16,
        b >> 4 < 16,
{
    assert(b & 0xF < 16 && b >> 4 < 16) by (bit_vector);
}

/// Adds the distances of one packed block of 32 vectors to their sums.
///
/// The first sixteen entries of `dist_table` belong to the low nibbles, the others to the high
/// ones.
pub fn accumulate_4bit_packed_block(block: &[u8], dist_table: &[u8], sums: &mut [u16; 32])
    requires
        block@.len() == 32,
        dist_table@.len() == 32,
    ensures
        forall|lane: int|
            0 <= lane < 32 ==> #[trigger] final(sums)@[lane] == lane_sum(
                block@,
                dist_table@,
                old(sums)@[lane],
                lane,
            ),
{
    let mut lane: usize = 0;
    while lane < 32
        invariant
            lane <= 32,
            block@.len() == 32,
            dist_table@.len() == 32,
            forall|v: int|
                0 <= v < lane ==> #[trigger] sums@[v] == lane_sum(
                    block@,
                    dist_table@,
                    old(sums)@[v],
                    v,
                ),
            forall|v: int| lane <= v < 32 ==> #[trigger] sums@[v] == old(sums)@[v],
        decreases 32 - lane,
    {
        let slot: usize = if lane < 16 { PERM0_INVERSE[lane] } else { PERM0_INVERSE[lane - 16] };
        proof {
            assert(slot == crate::vector::bq::codes::perm_inverse(
                if lane < 16 { lane as int } else { lane - 16 },
            ) && slot < 16);
            lemma_nibble_bounds(block@[slot as int]);
            lemma_nibble_bounds(block@[slot + 16]);
        }
        let low: u8 = if lane < 16 { block[slot] & 0xF } else { block[slot] >> 4 };
        let high: u8 = if lane < 16 { block[slot + 16] & 0xF } else { block[slot + 16] >> 4 };
        let sum: u16 = sums[lane].saturating_add(dist_table[low as usize] as u16).saturating_add(
            dist_table[16 + high as usize] as u16,
        );
        sums[lane] = sum;
        lane = lane + 1;
    }
}

/// The quantized distance of the first `t` bytes of a code.
pub open spec fn code_sum(code: Seq<u8>, table: Seq<u8>, t: nat) -> int
    decreases t,
{
    if t == 0 {
        0
    } else {
        let byte = code[t - 1];
        sat_add(
            sat_add(
                code_sum(code, table, (t - 1) as nat),
                table[(t - 1) * 32 + (byte & 0xF)] as int,
            ),
            table[(t - 1) * 32 + 16 + (byte >> 4)] as int,
        )
    }
}

/// The largest of the first `n` entries from `start` on.
pub open spec fn largest(table: Seq<u8>, start: int, n: nat) -> int
    decreases n,
{
    if n == 0 {
        0
    } else {
        let rest = largest(table, start, (n - 1) as nat);
        let x = table[start + n - 1] as int;
        if x > rest { x } else { rest }
    }
}

/// The most that code bytes `t` to `width` can add to a quantized distance.
pub open spec fn remaining(table: Seq<u8>, width: int, t: int) -> int
    decreases width - t,
{
    if t >= width {
        0
    } else {
        largest(table, t * 32, 16) + largest(table, t * 32 + 16, 16) + remaining(
            table,
            width,
            t + 1,
        )
    }
}

/// No entry exceeds the largest one.
proof fn lemma_largest(table: Seq<u8>, start: int, n: nat, i: int)
    requires
        0 <= i < n,
    ensures
        table[start + i] <= largest(table, start, n),
    decreases n,
{
    if i < n - 1 {
        lemma_largest(table, start, (n - 1) as nat, i);
    }
}

/// The largest entry is a byte.
proof fn lemma_largest_bound(table: Seq<u8>, start: int, n: nat)
    ensures
        0 <= largest(table, start, n) <= 255,
    decreases n,
{
    if n > 0 {
        lemma_largest_bound(table, start, (n - 1) as nat);
    }
}

/// A quantized distance grows by no more than what remains.
proof fn lemma_code_sum_bound(code: Seq<u8>, table: Seq<u8>, width: nat, t: nat)
    requires
        t <= width,
    ensures
        code_sum(code, table, width) <= code_sum(code, table, t) + remaining(
            table,
            width as int,
            t as int,
        ),
    decreases width - t,
{
    if t < width {
        lemma_code_sum_bound(code, table, width, t + 1);
        let byte = code[t as int];
        lemma_nibble_bounds(byte);
        lemma_largest(table, (t * 32) as int, 16, (byte & 0xF) as int);
        lemma_largest(table, (t * 32 + 16) as int, 16, (byte >> 4) as int);
    }
}

/// A quantized distance fits in 16 bits.
proof fn lemma_code_sum_range(code: Seq<u8>, table: Seq<u8>, t: nat)
    ensures
        0 <= code_sum(code, table, t) <= 65535,
    decreases t,
{
    if t > 0 {
        lemma_code_sum_range(code, table, (t - 1) as nat);
    }
}

/// What remains is bounded by the number of bytes left.
proof fn lemma_remaining_bound(table: Seq<u8>, width: int, t: int)
    requires
        0 <= t <= width,
    ensures
        0 <= remaining(table, width, t) <= 510 * (width - t),
    decreases width - t,
{
    if t < width {
        lemma_remaining_bound(table, width, t + 1);
        lemma_largest_bound(table, t * 32, 16);
        lemma_largest_bound(table, t * 32 + 16, 16);
    }
}

/// The largest of the sixteen entries from `start` on.
fn largest_of_segment(table: &[u8], start: usize) -> (r: u8)
    requires
        start + 16 <= table@.len(),
    ensures
        r == largest(table@, start as int, 16),
{
    let total: usize = table.len();
    let mut best: u8 = 0;
    let mut i: usize = 0;
    while i < 16
        invariant
            i <= 16,
            total == table@.len(),
            start + 16 <= total,
            best == largest(table@, start as int, i as nat),
        decreases 16 - i,
    {
        let x: u8 = table[start + i];
        if x > best {
            best = x;
        }
        i = i + 1;
    }
    best
}

/// For each byte position, the most that it and the bytes behind it can add.
fn suffix_max(table: &[u8], width: usize) -> (r: Vec<u64>)
    requires
        width * 32 <= table@.len(),
        width <= 0x7fff_ffff,
    ensures
        r@.len() == width + 1,
        forall|t: int| 0 <= t <= width ==> #[trigger] r@[t] == remaining(table@, width as int, t),
{
    let total: usize = table.len();
    let mut reversed: Vec<u64> = Vec::with_capacity(width + 1);
    reversed.push(0);
    let mut t: usize = width;
    while t > 0
        invariant
            t <= width,
            total == table@.len(),
            width * 32 <= total,
            width <= 0x7fff_ffff,
            reversed@.len() == width - t + 1,
            forall|i: int|
                0 <= i <= width - t ==> #[trigger] reversed@[i] == remaining(
                    table@,
                    width as int,
                    width - i,
                ),
        decreases t,
    {
        t = t - 1;
        proof {
            lemma_remaining_bound(table@, width as int, t + 1);
            assert(reversed@[width - t - 1] == remaining(table@, width as int, t + 1));
        }
        let both: u64 = largest_of_segment(table, t * 32) as u64 + largest_of_segment(
            table,
            t * 32 + 16,
        ) as u64;
        let last: u64 = reversed[reversed.len() - 1];
        reversed.push(both + last);
    }
    let mut result: Vec<u64> = Vec::with_capacity(width + 1);
    let mut i: usize = 0;
    while i <= width
        invariant
            i <= width + 1,
            width <= 0x7fff_ffff,
            reversed@.len() == width + 1,
            result@.len() == i,
            forall|j: int|
                0 <= j <= width ==> #[trigger] reversed@[j] == remaining(
                    table@,
                    width as int,
                    width - j,
                ),
            forall|j: int|
                0 <= j < i ==> #[trigger] result@[j] == remaining(table@, width as int, j),
        decreases width + 1 - i,
    {
        assert(reversed@[width - i] == remaining(table@, width as int, i as int));
        result.push(reversed[width - i]);
        i = i + 1;
    }
    result
}

/// The distance that `f` gives to row `id` for the quantized sum `q`.
pub open spec fn packed_key<P: Fn(usize, u64) -> OrderedFloat>(
    f: P,
    id: usize,
    q: u64,
) -> OrderedFloat {
    choose|r: OrderedFloat| call_ensures(f, (id, q), r)
}

/// The distance that `f` gives to row `id`.
pub open spec fn exact_key<E: Fn(usize) -> OrderedFloat>(f: E, id: usize) -> OrderedFloat {
    choose|r: OrderedFloat| call_ensures(f, (id,), r)
}

/// `f` can be called on every one of `n` rows, and its results depend on the input alone.
pub open spec fn packed_function<P: Fn(usize, u64) -> OrderedFloat>(f: P, n: nat) -> bool {
    &&& forall|id: usize, q: u64| id < n ==> #[trigger] call_requires(f, (id, q))
    &&& forall|id: usize, q: u64, r1: OrderedFloat, r2: OrderedFloat|
        id < n && #[trigger] call_ensures(f, (id, q), r1) && #[trigger] call_ensures(
            f,
            (id, q),
            r2,
        ) ==> r1 == r2
}

/// `f` can be called on every one of `n` rows, and its results depend on the input alone.
pub open spec fn exact_function<E: Fn(usize) -> OrderedFloat>(f: E, n: nat) -> bool {
    &&& forall|id: usize| id < n ==> #[trigger] call_requires(f, (id,))
    &&& forall|id: usize, r1: OrderedFloat, r2: OrderedFloat|
        id < n && #[trigger] call_ensures(f, (id,), r1) && #[trigger] call_ensures(f, (id,), r2)
            ==> r1 == r2
}

/// How a search went.
#[derive(Debug, Clone, Copy)]
pub struct RabitTopKSearchStats {
    pub searched_rows: usize,
    pub pruned_rows: usize,
    pub pruned_batches: usize,
    pub fallback_full_scan: bool,
}

/// Computes the distances between one query and packed codes.
///
/// The quantized table has two segments of sixteen entries for every code byte, for its low and
/// for its high nibble. What turns a quantized sum into a distance is handed to the methods, as
/// is the distance of a row by the table before quantization.
pub struct RabitDistCalculator<'a> {
    dim: usize,
    num_bits: u8,
    codes: &'a [u8],
    dist_table: Vec<u8>,
    positive_scale: bool,
}

impl<'a> RabitDistCalculator<'a> {
    /// The number of bytes of a code.
    pub closed spec fn width(&self) -> nat {
        (self.dim * self.num_bits) as nat / 8
    }

    /// The packed codes.
    pub closed spec fn codes(&self) -> Seq<u8> {
        self.codes@
    }

    /// The quantized table.
    pub closed spec fn table(&self) -> Seq<u8> {
        self.dist_table@
    }

    /// Whether some row has a positive scale factor.
    pub closed spec fn positive_scale(&self) -> bool {
        self.positive_scale
    }

    /// The number of vectors.
    pub open spec fn count(&self) -> nat {
        self.codes().len() / self.width()
    }

    /// The table covers a code, and the codes are whole.
    pub closed spec fn wf(&self) -> bool {
        &&& self.dim * self.num_bits <= usize::MAX
        &&& valid_parts(self.width(), self.dist_table@, self.codes@)
    }

    /// The code of row `id`.
    pub open spec fn code(&self, id: int) -> Seq<u8> {
        crate::vector::bq::codes::rq_code(self.codes(), id, self.count(), self.width())
    }

    /// The quantized distance of row `id`.
    pub open spec fn quantized_sum(&self, id: int) -> int {
        code_sum(self.code(id), self.table(), self.width())
    }

    /// The number of rows in full groups.
    pub open spec fn packed_rows(&self) -> nat {
        crate::vector::bq::codes::packed_count(self.count())
    }

    /// The distance of row `id`: by its quantized sum where it is packed, else by the table
    /// before quantization.
    pub open spec fn row_key<P: Fn(usize, u64) -> OrderedFloat, E: Fn(usize) -> OrderedFloat>(
        &self,
        packed: P,
        exact: E,
        id: int,
    ) -> OrderedFloat {
        if id < self.packed_rows() {
            packed_key(packed, id as usize, self.quantized_sum(id) as u64)
        } else {
            exact_key(exact, id as usize)
        }
    }

    /// The distances of all rows.
    pub open spec fn row_keys<P: Fn(usize, u64) -> OrderedFloat, E: Fn(usize) -> OrderedFloat>(
        &self,
        packed: P,
        exact: E,
    ) -> Seq<OrderedFloat> {
        Seq::new(self.count(), |id: int| self.row_key(packed, exact, id))
    }

    /// The best distance that lane `lane` of group `group` can still reach once the first `t`
    /// bytes of its code were added up.
    pub open spec fn lane_bound<P: Fn(usize, u64) -> OrderedFloat>(
        &self,
        packed: P,
        group: int,
        t: nat,
        lane: int,
    ) -> OrderedFloat {
        packed_key(
            packed,
            (group * 32 + lane) as usize,
            (code_sum(self.code(group * 32 + lane), self.table(), t) + remaining(
                self.table(),
                self.width() as int,
                t as int,
            )) as u64,
        )
    }

    /// After `t` bytes no row of the group can be nearer than `limit`.
    pub open spec fn group_exceeds<P: Fn(usize, u64) -> OrderedFloat>(
        &self,
        packed: P,
        group: int,
        t: nat,
        limit: OrderedFloat,
    ) -> bool {
        &&& crate::ordered::float_gt(OrderedFloat { key: INFINITY_KEY }, limit)
        &&& forall|lane: int|
            0 <= lane < 32 ==> {
                let bound = #[trigger] self.lane_bound(packed, group, t, lane);
                crate::ordered::is_nan(bound) || crate::ordered::float_gt(bound, limit)
            }
    }

    /// The group is skipped when `k` of the rows `seen` before it are nearer than any of its rows
    /// can be, as far as some number of its code bytes shows.
    pub open spec fn group_pruned<P: Fn(usize, u64) -> OrderedFloat>(
        &self,
        packed: P,
        seen: Seq<OrderedNode>,
        k: nat,
        group: int,
    ) -> bool {
        &&& seen.len() >= k
        &&& exists|t: nat|
            0 < t <= self.width() && #[trigger] self.group_exceeds(
                packed,
                group,
                t,
                OrderedFloat { key: crate::topk::kth_key(seen.to_multiset(), k) as i32 },
            )
    }

    /// The rows from `start` to `end` with their distances.
    pub open spec fn nodes<P: Fn(usize, u64) -> OrderedFloat, E: Fn(usize) -> OrderedFloat>(
        &self,
        packed: P,
        exact: E,
        row_ids: Seq<u64>,
        start: int,
        end: int,
    ) -> Seq<OrderedNode> {
        crate::topk::zipped(row_ids, self.row_keys(packed, exact)).subrange(start, end)
    }

    /// The rows of the first `groups` groups that are not skipped, in order, and the number of
    /// groups that are.
    pub open spec fn scan<P: Fn(usize, u64) -> OrderedFloat, E: Fn(usize) -> OrderedFloat>(
        &self,
        packed: P,
        exact: E,
        row_ids: Seq<u64>,
        k: nat,
        groups: nat,
    ) -> (Seq<OrderedNode>, nat)
        decreases groups,
    {
        if groups == 0 {
            (Seq::empty(), 0)
        } else {
            let (seen, pruned) = self.scan(packed, exact, row_ids, k, (groups - 1) as nat);
            if self.group_pruned(packed, seen, k, groups - 1) {
                (seen, pruned + 1)
            } else {
                (
                    seen + self.nodes(
                        packed,
                        exact,
                        row_ids,
                        (groups - 1) * 32,
                        (groups * 32) as int,
                    ),
                    pruned,
                )
            }
        }
    }

    /// A calculator over packed codes; bytes after the last whole code are left aside.
    pub fn new(
        dim: usize,
        num_bits: u8,
        dist_table: Vec<u8>,
        codes: &'a [u8],
        scale_factors: &[OrderedFloat],
    ) -> (r: Self)
        requires
            dim * num_bits <= usize::MAX,
            0 < (dim * num_bits) as nat / 8 <= 0x7fff_ffff,
            (dim * num_bits) as nat / 8 * 32 <= dist_table@.len(),
        ensures
            r.wf(),
            r.width() == (dim * num_bits) as nat / 8,
            r.codes() == codes@.take(
                (codes@.len() / r.width() * r.width()) as int,
            ),
            r.count() == codes@.len() / r.width(),
            r.table() == dist_table@,
            r.positive_scale() == any_positive(scale_factors@),
    {
        let width: usize = dim * (num_bits as usize) / 8;
        let total: usize = codes.len();
        let n: usize = total / width;
        proof {
            vstd::arithmetic::div_mod::lemma_fundamental_div_mod(total as int, width as int);
            vstd::arithmetic::mul::lemma_mul_is_commutative(width as int, n as int);
            vstd::arithmetic::div_mod::lemma_div_multiples_vanish(n as int, width as int);
            vstd::arithmetic::div_mod::lemma_mod_multiples_basic(n as int, width as int);
        }
        let codes: &[u8] = &codes[0..n * width];
        let positive_scale = has_positive(scale_factors);
        RabitDistCalculator { dim, num_bits, codes, dist_table, positive_scale }
    }

    /// The number of bytes of a code.
    pub fn code_len(&self) -> (r: usize)
        requires
            self.wf(),
        ensures
            r == self.width(),
            0 < r <= 0x7fff_ffff,
            r * 32 <= self.table().len(),
    {
        self.dim * (self.num_bits as usize) / 8
    }

    /// The number of vectors.
    pub fn num_vectors(&self) -> (r: usize)
        requires
            self.wf(),
        ensures
            r == self.count(),
            r * self.width() == self.codes().len(),
    {
        proof {
            vstd::arithmetic::div_mod::lemma_fundamental_div_mod(
                self.codes@.len() as int,
                self.width() as int,
            );
            vstd::arithmetic::mul::lemma_mul_is_commutative(
                self.width() as int,
                self.count() as int,
            );
        }
        self.codes.len() / self.code_len()
    }
}

/// Some factor is greater than zero.
pub open spec fn any_positive(factors: Seq<OrderedFloat>) -> bool {
    exists|i: int|
        0 <= i < factors.len() && crate::ordered::float_gt(
            #[trigger] factors[i],
            OrderedFloat { key: 0 },
        )
}

/// Whether some factor is greater than zero.
pub fn has_positive(factors: &[OrderedFloat]) -> (r: bool)
    ensures
        r == any_positive(factors@),
{
    let zero = OrderedFloat { key: 0 };
    let mut i: usize = 0;
    while i < factors.len()
        invariant
            i <= factors@.len(),
            zero.key == 0,
            forall|j: int|
                0 <= j < i ==> !crate::ordered::float_gt(#[trigger] factors@[j], zero),
        decreases factors@.len() - i,
    {
        if factors[i].float_gt(&zero) {
            assert(crate::ordered::float_gt(factors@[i as int], OrderedFloat { key: 0 }));
            return true;
        }
        i = i + 1;
    }
    false
}

/// The table has two segments for every byte of a code, and the codes are whole.
pub open spec fn valid_parts(width: nat, table: Seq<u8>, codes: Seq<u8>) -> bool {
    &&& 0 < width <= 0x7fff_ffff
    &&& width * 32 <= table.len()
    &&& codes.len() % width == 0
}

/// The two nibbles of a code byte, as they are found in its packed block.
proof fn lemma_lane_nibbles(codes: Seq<u8>, n: nat, width: nat, group: int, t: int, lane: int)
    requires
        0 <= group < n / 32,
        0 <= t < width,
        0 <= lane < 32,
        codes.len() == n * width,
    ensures
        0 <= (group * width + t) * 32,
        (group * width + t) * 32 + 32 <= codes.len(),
        ({
            let block = codes.subrange((group * width + t) * 32, (group * width + t) * 32 + 32);
            let byte = crate::vector::bq::codes::rq_byte(codes, group * 32 + lane, n, width, t);
            &&& byte & 0xF == lane_low(block, lane)
            &&& byte >> 4 == lane_high(block, lane)
        }),
{
    let id = group * 32 + lane;
    crate::vector::bq::codes::lemma_rq_bounds(id, n, width, t);
    assert(id / 32 == group && id % 32 == lane);
    let start = (group * width + t) * 32;
    let slot = crate::vector::bq::codes::perm_inverse(if lane < 16 { lane } else { lane - 16 });
    let a = codes[start + slot];
    let b = codes[start + slot + 16];
    assert(((a & 0xF) | (b << 4)) & 0xF == a & 0xF && ((a & 0xF) | (b << 4)) >> 4 == b & 0xF
        && ((a >> 4) | (b & 0xF0)) & 0xF == a >> 4 && ((a >> 4) | (b & 0xF0)) >> 4 == b >> 4)
        by (bit_vector);
}

impl<'a> RabitDistCalculator<'a> {
    /// Adds byte `t` of the codes of a group to the sums of its lanes.
    fn add_byte(&self, group: usize, t: usize, n: usize, width: usize, sums: &mut [u16; 32])
        requires
            self.wf(),
            n == self.count(),
            width == self.width(),
            group < n / 32,
            t < width,
            forall|lane: int|
                0 <= lane < 32 ==> #[trigger] old(sums)@[lane] == code_sum(
                    self.code(group * 32 + lane),
                    self.table(),
                    t as nat,
                ),
        ensures
            forall|lane: int|
                0 <= lane < 32 ==> #[trigger] final(sums)@[lane] == code_sum(
                    self.code(group * 32 + lane),
                    self.table(),
                    (t + 1) as nat,
                ),
    {
        let m: usize = self.num_vectors();
        let total: usize = self.codes.len();
        let table_len: usize = self.dist_table.len();
        proof {
            lemma_lane_nibbles(
                self.codes@,
                n as nat,
                width as nat,
                group as int,
                t as int,
                0,
            );
            assert(0 <= group * width) by (nonlinear_arith)
                requires
                    group >= 0,
                    width >= 0,
            ;
        }
        let start: usize = (group * width + t) * BATCH_SIZE;
        let block: &[u8] = &self.codes[start..start + BATCH_SIZE];
        let segment: &[u8] = &self.dist_table[t * 32..t * 32 + 32];
        let ghost before = sums@;
        accumulate_4bit_packed_block(block, segment, sums);
        proof {
            assert forall|lane: int| 0 <= lane < 32 implies #[trigger] sums@[lane] == code_sum(
                self.code(group * 32 + lane),
                self.table(),
                (t + 1) as nat,
            ) by {
                lemma_lane_nibbles(
                    self.codes@,
                    n as nat,
                    width as nat,
                    group as int,
                    t as int,
                    lane,
                );
                let byte = self.code(group * 32 + lane)[t as int];
                lemma_nibble_bounds(byte);
                assert(sums@[lane] == lane_sum(block@, segment@, before[lane], lane));
            }
        }
    }

    /// The quantized distances of the rows of a group.
    fn group_sums(&self, group: usize, n: usize, width: usize) -> (sums: [u16; 32])
        requires
            self.wf(),
            n == self.count(),
            width == self.width(),
            group < n / 32,
        ensures
            forall|lane: int|
                0 <= lane < 32 ==> #[trigger] sums@[lane] == self.quantized_sum(group * 32 + lane),
    {
        let mut sums: [u16; 32] = [0u16; 32];
        let mut t: usize = 0;
        while t < width
            invariant
                t <= width,
                self.wf(),
                n == self.count(),
                width == self.width(),
                group < n / 32,
                forall|lane: int|
                    0 <= lane < 32 ==> #[trigger] sums@[lane] == code_sum(
                        self.code(group * 32 + lane),
                        self.table(),
                        t as nat,
                    ),
            decreases width - t,
        {
            self.add_byte(group, t, n, width, &mut sums);
            t = t + 1;
        }
        sums
    }

    /// `dists` are the distances of all rows, each one that was computed for its row.
    pub open spec fn all_distances<P: Fn(usize, u64) -> OrderedFloat, E: Fn(usize) -> OrderedFloat>(
        &self,
        packed: P,
        exact: E,
        dists: Seq<OrderedFloat>,
    ) -> bool {
        &&& dists == self.row_keys(packed, exact)
        &&& forall|id: int|
            0 <= id < self.packed_rows() ==> call_ensures(
                packed,
                (id as usize, self.quantized_sum(id) as u64),
                #[trigger] dists[id],
            )
        &&& forall|id: int|
            self.packed_rows() <= id < self.count() ==> call_ensures(
                exact,
                (id as usize,),
                #[trigger] dists[id],
            )
    }

    /// The distances of all rows.
    pub fn distance_all<P: Fn(usize, u64) -> OrderedFloat, E: Fn(usize) -> OrderedFloat>(
        &self,
        packed: &P,
        exact: &E,
    ) -> (r: Vec<OrderedFloat>)
        requires
            self.wf(),
            packed_function(*packed, self.count()),
            exact_function(*exact, self.count()),
        ensures
            self.all_distances(*packed, *exact, r@),
    {
        let width: usize = self.code_len();
        let n: usize = self.num_vectors();
        let remainder: usize = n % BATCH_SIZE;
        let groups: usize = n / BATCH_SIZE;
        let mut dists: Vec<OrderedFloat> = Vec::with_capacity(n);
        let mut group: usize = 0;
        while group < groups
            invariant
                group <= groups,
                groups == n / 32,
                self.wf(),
                n == self.count(),
                width == self.width(),
                packed_function(*packed, self.count()),
                dists@.len() == group * 32,
                forall|id: int|
                    0 <= id < group * 32 ==> (#[trigger] dists@[id]) == packed_key(*packed, id as usize, self.quantized_sum(id) as u64) && call_ensures(
                        packed,
                        (id as usize, self.quantized_sum(id) as u64),
                        dists@[id],
                    ),
            decreases groups - group,
        {
            let sums = self.group_sums(group, n, width);
            let mut lane: usize = 0;
            while lane < 32
                invariant
                    lane <= 32,
                    group < groups,
                    groups == n / 32,
                    n == self.count(),
                    packed_function(*packed, self.count()),
                    forall|lane: int|
                        0 <= lane < 32 ==> #[trigger] sums@[lane] == self.quantized_sum(
                            group * 32 + lane,
                        ),
                    dists@.len() == group * 32 + lane,
                    forall|id: int|
                        0 <= id < group * 32 + lane ==> (#[trigger] dists@[id]) == packed_key(*packed, id as usize, self.quantized_sum(id) as u64) && call_ensures(
                            packed,
                            (id as usize, self.quantized_sum(id) as u64),
                            dists@[id],
                        ),
                decreases 32 - lane,
            {
                let d = packed(group * 32 + lane, sums[lane] as u64);
                dists.push(d);
                lane = lane + 1;
            }
            group = group + 1;
        }
        let mut id: usize = n - remainder;
        while id < n
            invariant
                n - remainder <= id <= n,
                remainder == n % 32,
                self.wf(),
                n == self.count(),
                exact_function(*exact, self.count()),
                dists@.len() == id,
                forall|i: int|
                    0 <= i < n - remainder ==> (#[trigger] dists@[i]) == packed_key(*packed, i as usize, self.quantized_sum(i) as u64) && call_ensures(
                        packed,
                        (i as usize, self.quantized_sum(i) as u64),
                        dists@[i],
                    ),
                forall|i: int|
                    n - remainder <= i < id ==> (#[trigger] dists@[i]) == exact_key(*exact, i as usize)
                        && call_ensures(exact, (i as usize,), dists@[i]),
            decreases n - id,
        {
            let d = exact(id);
            dists.push(d);
            id = id + 1;
        }
        assert(dists@ =~= self.row_keys(*packed, *exact));
        dists
    }
}

impl<'a> RabitDistCalculator<'a> {
    /// The node is a row, with a distance that was computed for it.
    pub open spec fn computed<P: Fn(usize, u64) -> OrderedFloat, E: Fn(usize) -> OrderedFloat>(
        &self,
        packed: P,
        exact: E,
        row_ids: Seq<u64>,
        node: OrderedNode,
    ) -> bool {
        exists|id: int|
            0 <= id < self.count() && node.id == #[trigger] row_ids[id] && if id
                < self.packed_rows() {
                call_ensures(
                    packed,
                    (id as usize, self.quantized_sum(id) as u64),
                    node.dist,
                )
            } else {
                call_ensures(exact, (id as usize,), node.dist)
            }
    }

    /// Whether the lanes of a group all stay beyond `limit` once `t` bytes were added up.
    fn group_out_of_reach<P: Fn(usize, u64) -> OrderedFloat>(
        &self,
        packed: &P,
        group: usize,
        Ghost(t): Ghost<nat>,
        sums: &[u16; 32],
        rest: u64,
        limit: OrderedFloat,
    ) -> (r: bool)
        requires
            self.wf(),
            packed_function(*packed, self.count()),
            group < self.count() / 32,
            t <= self.width(),
            rest == remaining(self.table(), self.width() as int, t as int),
            forall|lane: int|
                0 <= lane < 32 ==> #[trigger] sums@[lane] == code_sum(
                    self.code(group * 32 + lane),
                    self.table(),
                    t,
                ),
        ensures
            r == self.group_exceeds(*packed, group as int, t, limit),
    {
        let n: usize = self.num_vectors();
        let width: usize = self.code_len();
        proof {
            lemma_remaining_bound(self.table(), self.width() as int, t as int);
        }
        let mut exceeds: bool = OrderedFloat { key: INFINITY_KEY }.float_gt(&limit);
        let mut lane: usize = 0;
        while lane < 32
            invariant
                lane <= 32,
                packed_function(*packed, self.count()),
                n == self.count(),
                group < n / 32,
                rest == remaining(self.table(), self.width() as int, t as int),
                rest <= 510 * 0x7fff_ffff,
                forall|lane: int|
                    0 <= lane < 32 ==> #[trigger] sums@[lane] == code_sum(
                        self.code(group * 32 + lane),
                        self.table(),
                        t,
                    ),
                exceeds == (crate::ordered::float_gt(OrderedFloat { key: INFINITY_KEY }, limit) && (
                forall|v: int|
                    0 <= v < lane ==> {
                        let bound = #[trigger] self.lane_bound(*packed, group as int, t, v);
                        crate::ordered::is_nan(bound) || crate::ordered::float_gt(bound, limit)
                    })),
            decreases 32 - lane,
        {
            let bound = packed(group * 32 + lane, sums[lane] as u64 + rest);
            proof {
                assert(bound == self.lane_bound(*packed, group as int, t, lane as int));
            }
            if !(bound.is_nan() || bound.float_gt(&limit)) {
                exceeds = false;
            }
            lane = lane + 1;
        }
        exceeds
    }

    /// The `k` nearest rows.
    pub fn search_topk_unfiltered<
        P: Fn(usize, u64) -> OrderedFloat,
        E: Fn(usize) -> OrderedFloat,
    >(&self, row_ids: &[u64], k: usize, packed: &P, exact: &E) -> (r: Vec<OrderedNode>)
        requires
            self.wf(),
            row_ids@.len() == self.count(),
            packed_function(*packed, self.count()),
            exact_function(*exact, self.count()),
        ensures
            exists|stats: RabitTopKSearchStats|
                #[trigger] self.found(*packed, *exact, row_ids@, k as nat, r@, stats),
            forall|i: int|
                0 <= i < r@.len() ==> self.computed(*packed, *exact, row_ids@, #[trigger] r@[i]),
    {
        let (results, stats) = self.search_topk_unfiltered_with_stats(row_ids, k, packed, exact);
        assert(self.found(*packed, *exact, row_ids@, k as nat, results@, stats));
        results
    }

    /// The `k` nearest rows, and how they were found.
    ///
    /// Where no scale factor is positive a larger quantized sum means a smaller distance, and a
    /// group of rows is skipped as soon as none of them can be among the nearest any more.
    pub fn search_topk_unfiltered_with_stats<
        P: Fn(usize, u64) -> OrderedFloat,
        E: Fn(usize) -> OrderedFloat,
    >(&self, row_ids: &[u64], k: usize, packed: &P, exact: &E) -> (r: (
        Vec<OrderedNode>,
        RabitTopKSearchStats,
    ))
        requires
            self.wf(),
            row_ids@.len() == self.count(),
            packed_function(*packed, self.count()),
            exact_function(*exact, self.count()),
        ensures
            self.found(*packed, *exact, row_ids@, k as nat, r.0@, r.1),
            forall|i: int|
                0 <= i < r.0@.len() ==> self.computed(*packed, *exact, row_ids@, #[trigger] r.0@[i]),
    {
        broadcast use vstd::seq_lib::group_to_multiset_ensures;
        broadcast use vstd::multiset::group_multiset_axioms;

        let mut stats = RabitTopKSearchStats {
            searched_rows: 0,
            pruned_rows: 0,
            pruned_batches: 0,
            fallback_full_scan: false,
        };
        if k == 0 {
            return (Vec::new(), stats);
        }
        let width: usize = self.code_len();
        let n: usize = self.num_vectors();
        if n == 0 {
            return (Vec::new(), stats);
        }
        let ghost all_nodes = crate::topk::zipped(row_ids@, self.row_keys(*packed, *exact));
        if self.positive_scale {
            stats.fallback_full_scan = true;
            stats.searched_rows = n;
            let dists = self.distance_all(packed, exact);
            let results = topk_from_distances(row_ids, dists.as_slice(), k);
            proof {
                assert forall|i: int| 0 <= i < results@.len() implies self.computed(
                    *packed,
                    *exact,
                    row_ids@,
                    #[trigger] results@[i],
                ) by {
                    let x = results@[i];
                    assert(results@.contains(x));
                    assert(results@.to_multiset().count(x) > 0);
                    assert(all_nodes.to_multiset().count(x) > 0);
                    assert(all_nodes.contains(x));
                    let id = choose|id: int| 0 <= id < all_nodes.len() && all_nodes[id] == x;
                    assert(x.id == row_ids@[id]);
                    assert(x.dist == dists@[id]);
                }
            }
            return (results, stats);
        }
        let suffix = suffix_max(self.dist_table.as_slice(), width);
        let remainder: usize = n % BATCH_SIZE;
        let groups: usize = n / BATCH_SIZE;
        let mut results = NodeHeap::new();
        proof {
            crate::topk::lemma_nothing_selected(Seq::empty(), k as nat);
        }
        let mut group: usize = 0;
        while group < groups
            invariant
                group <= groups,
                groups == n / 32,
                k > 0,
                self.wf(),
                n == self.count(),
                width == self.width(),
                row_ids@.len() == n,
                packed_function(*packed, self.count()),
                all_nodes == crate::topk::zipped(row_ids@, self.row_keys(*packed, *exact)),
                suffix@.len() == width + 1,
                forall|t: int|
                    0 <= t <= width ==> #[trigger] suffix@[t] == remaining(
                        self.table(),
                        width as int,
                        t,
                    ),
                results.wf(),
                ({
                    let (seen, pruned) = self.scan(
                        *packed,
                        *exact,
                        row_ids@,
                        k as nat,
                        group as nat,
                    );
                    &&& crate::topk::offered(results@, seen, k as nat)
                    &&& stats.pruned_batches == pruned
                    &&& pruned <= group
                }),
                stats.pruned_rows == 32 * stats.pruned_batches,
                stats.searched_rows == 32 * (group - stats.pruned_batches),
                !stats.fallback_full_scan,
                forall|x: OrderedNode|
                    #[trigger] results@.contains(x) ==> self.computed(
                        *packed,
                        *exact,
                        row_ids@,
                        x,
                    ),
            decreases groups - group,
        {
            let ghost seen = self.scan(*packed, *exact, row_ids@, k as nat, group as nat).0;
            proof {
                crate::topk::law_offered_is_top_k(results@, seen, k as nat);
                vstd::seq_lib::to_multiset_len(seen);
            }
            let mut sums: [u16; 32] = [0u16; 32];
            let mut skip: bool = false;
            let mut t: usize = 0;
            while t < width && !skip
                invariant
                    t <= width,
                    group < n / 32,
                    k > 0,
                    self.wf(),
                    n == self.count(),
                    width == self.width(),
                    packed_function(*packed, self.count()),
                    suffix@.len() == width + 1,
                    forall|t: int|
                        0 <= t <= width ==> #[trigger] suffix@[t] == remaining(
                            self.table(),
                            width as int,
                            t,
                        ),
                    results.wf(),
                    crate::topk::is_top_k(results@, seen.to_multiset(), k as nat),
                    seen.to_multiset().len() == seen.len(),
                    forall|lane: int|
                        0 <= lane < 32 ==> #[trigger] sums@[lane] == code_sum(
                            self.code(group * 32 + lane),
                            self.table(),
                            t as nat,
                        ),
                    skip ==> self.group_pruned(*packed, seen, k as nat, group as int),
                    !skip && seen.len() >= k ==> forall|u: nat|
                        0 < u <= t ==> !#[trigger] self.group_exceeds(
                            *packed,
                            group as int,
                            u,
                            OrderedFloat {
                                key: crate::topk::kth_key(seen.to_multiset(), k as nat) as i32,
                            },
                        ),
                decreases width - t,
            {
                self.add_byte(group, t, n, width, &mut sums);
                t = t + 1;
                if results.len() == k {
                    match results.peek() {
                        Some(farthest) => {
                            proof {
                                crate::topk::lemma_farthest_is_kth(
                                    results@,
                                    seen.to_multiset(),
                                    k as nat,
                                    farthest,
                                );
                            }
                            if self.group_out_of_reach(
                                packed,
                                group,
                                Ghost(t as nat),
                                &sums,
                                suffix[t],
                                farthest.dist,
                            ) {
                                proof {
                                    let limit = OrderedFloat {
                                        key: crate::topk::kth_key(
                                            seen.to_multiset(),
                                            k as nat,
                                        ) as i32,
                                    };
                                    assert(farthest.dist == limit);
                                    assert(self.group_exceeds(
                                        *packed,
                                        group as int,
                                        t as nat,
                                        limit,
                                    ));
                                }
                                skip = true;
                            }
                        },
                        None => {},
                    }
                }
            }
            proof {
                assert(self.scan(*packed, *exact, row_ids@, k as nat, (group + 1) as nat)
                    == if skip {
                    (
                        seen,
                        self.scan(*packed, *exact, row_ids@, k as nat, group as nat).1 + 1,
                    )
                } else {
                    (
                        seen + self.nodes(
                            *packed,
                            *exact,
                            row_ids@,
                            group * 32,
                            group * 32 + 32,
                        ),
                        self.scan(*packed, *exact, row_ids@, k as nat, group as nat).1,
                    )
                });
            }
            if skip {
                stats.pruned_batches = stats.pruned_batches + 1;
                stats.pruned_rows = stats.pruned_rows + BATCH_SIZE;
            } else {
                stats.searched_rows = stats.searched_rows + BATCH_SIZE;
                let mut lane: usize = 0;
                proof {
                    assert(seen + all_nodes.subrange(group * 32, group * 32) =~= seen);
                }
                while lane < 32
                    invariant
                        lane <= 32,
                        group < n / 32,
                        n == self.count(),
                        width == self.width(),
                        row_ids@.len() == n,
                        packed_function(*packed, self.count()),
                        all_nodes == crate::topk::zipped(row_ids@, self.row_keys(*packed, *exact)),
                        forall|lane: int|
                            0 <= lane < 32 ==> #[trigger] sums@[lane] == self.quantized_sum(
                                group * 32 + lane,
                            ),
                        results.wf(),
                        crate::topk::offered(
                            results@,
                            seen + all_nodes.subrange(group * 32, group * 32 + lane),
                            k as nat,
                        ),
                        forall|x: OrderedNode|
                            #[trigger] results@.contains(x) ==> self.computed(
                                *packed,
                                *exact,
                                row_ids@,
                                x,
                            ),
                    decreases 32 - lane,
                {
                    let id: usize = group * BATCH_SIZE + lane;
                    let dist = packed(id, sums[lane] as u64);
                    let node = OrderedNode::new(row_ids[id], dist);
                    let ghost before = results@;
                    push_topk_result(&mut results, node, k);
                    proof {
                        assert(node == all_nodes[id as int]);
                        assert(node.id == row_ids@[id as int]);
                        assert(self.computed(*packed, *exact, row_ids@, node));
                        lemma_push_row(
                            before,
                            results@,
                            seen,
                            all_nodes,
                            group * 32,
                            id as int,
                            k as nat,
                        );
                        assert forall|x: OrderedNode| #[trigger]
                            results@.contains(x) implies self.computed(
                            *packed,
                            *exact,
                            row_ids@,
                            x,
                        ) by {
                            assert(x == node || before.contains(x));
                        }
                    }
                    lane = lane + 1;
                }
            }
            group = group + 1;
        }
        let ghost seen = self.scan(*packed, *exact, row_ids@, k as nat, groups as nat).0;
        proof {
            assert(seen + all_nodes.subrange(n - remainder, n - remainder) =~= seen);
        }
        let mut id: usize = n - remainder;
        while id < n
            invariant
                n - remainder <= id <= n,
                remainder == n % 32,
                self.wf(),
                n == self.count(),
                row_ids@.len() == n,
                exact_function(*exact, self.count()),
                all_nodes == crate::topk::zipped(row_ids@, self.row_keys(*packed, *exact)),
                results.wf(),
                crate::topk::offered(
                    results@,
                    seen + all_nodes.subrange(n - remainder, id as int),
                    k as nat,
                ),
                forall|x: OrderedNode|
                    #[trigger] results@.contains(x) ==> self.computed(
                        *packed,
                        *exact,
                        row_ids@,
                        x,
                    ),
            decreases n - id,
        {
            let dist = exact(id);
            let node = OrderedNode::new(row_ids[id], dist);
            let ghost before = results@;
            push_topk_result(&mut results, node, k);
            proof {
                assert(node == all_nodes[id as int]);
                assert(node.id == row_ids@[id as int]);
                assert(self.computed(*packed, *exact, row_ids@, node));
                lemma_push_row(
                    before,
                    results@,
                    seen,
                    all_nodes,
                    n - remainder,
                    id as int,
                    k as nat,
                );
                assert forall|x: OrderedNode| #[trigger] results@.contains(x) implies self.computed(
                    *packed,
                    *exact,
                    row_ids@,
                    x,
                ) by {
                    assert(x == node || before.contains(x));
                }
            }
            id = id + 1;
        }
        stats.searched_rows = stats.searched_rows + remainder;
        let nodes = results.into_vec();
        proof {
            assert forall|i: int| 0 <= i < nodes@.len() implies self.computed(
                *packed,
                *exact,
                row_ids@,
                #[trigger] nodes@[i],
            ) by {
                assert(nodes@.contains(nodes@[i]));
                assert(results@.contains(nodes@[i]));
            }
        }
        (nodes, stats)
    }

    /// What a search finds and reports.
    pub open spec fn found<P: Fn(usize, u64) -> OrderedFloat, E: Fn(usize) -> OrderedFloat>(
        &self,
        packed: P,
        exact: E,
        row_ids: Seq<u64>,
        k: nat,
        results: Seq<OrderedNode>,
        stats: RabitTopKSearchStats,
    ) -> bool {
        let n = self.count();
        let all = crate::topk::zipped(row_ids, self.row_keys(packed, exact));
        if k == 0 || n == 0 {
            &&& results.len() == 0
            &&& stats.searched_rows == 0
            &&& stats.pruned_rows == 0
            &&& stats.pruned_batches == 0
            &&& !stats.fallback_full_scan
        } else if self.positive_scale() {
            &&& crate::topk::offered(results.to_multiset(), all, k)
            &&& stats.searched_rows == n
            &&& stats.pruned_rows == 0
            &&& stats.pruned_batches == 0
            &&& stats.fallback_full_scan
        } else {
            let (seen, pruned) = self.scan(packed, exact, row_ids, k, n / 32);
            &&& crate::topk::offered(
                results.to_multiset(),
                seen + self.nodes(packed, exact, row_ids, (n / 32 * 32) as int, n as int),
                k,
            )
            &&& stats.pruned_batches == pruned
            &&& stats.pruned_rows == 32 * pruned
            &&& stats.searched_rows == n - 32 * pruned
            &&& !stats.fallback_full_scan
        }
    }
}

/// Offering the next row extends the rows that the selection comes from.
proof fn lemma_push_row(
    before: Multiset<OrderedNode>,
    after: Multiset<OrderedNode>,
    seen: Seq<OrderedNode>,
    nodes: Seq<OrderedNode>,
    start: int,
    id: int,
    k: nat,
)
    requires
        0 <= start <= id < nodes.len(),
        crate::topk::offered(before, seen + nodes.subrange(start, id), k),
        crate::topk::pushed(before, after, nodes[id], k),
    ensures
        crate::topk::offered(after, seen + nodes.subrange(start, id + 1), k),
        forall|x: OrderedNode|
            #[trigger] after.contains(x) ==> x == nodes[id] || before.contains(x),
{
    broadcast use vstd::multiset::group_multiset_axioms;

    let rows = seen + nodes.subrange(start, id);
    crate::topk::lemma_offer_one(before, after, rows, nodes[id], k);
    assert(seen + nodes.subrange(start, id + 1) =~= rows.push(nodes[id]));
}

/// For each of `n` rows, a larger quantized sum never means a larger distance, and no distance is
/// undefined. This is so where no scale factor is positive.
pub open spec fn non_increasing<P: Fn(usize, u64) -> OrderedFloat>(f: P, n: nat) -> bool {
    &&& forall|id: usize, q1: u64, q2: u64|
        id < n && q1 <= q2 ==> (#[trigger] packed_key(f, id, q2)).key <= (#[trigger] packed_key(
            f,
            id,
            q1,
        )).key
    &&& forall|id: usize, q: u64|
        id < n ==> !crate::ordered::is_nan(#[trigger] packed_key(f, id, q))
}

impl<'a> RabitDistCalculator<'a> {
    /// The rows of a skipped group are farther away than the `k` nearest seen before.
    proof fn lemma_pruned_rows_are_farther<
        P: Fn(usize, u64) -> OrderedFloat,
        E: Fn(usize) -> OrderedFloat,
    >(
        self,
        packed: P,
        exact: E,
        row_ids: Seq<u64>,
        seen: Seq<OrderedNode>,
        k: nat,
        group: int,
        lane: int,
    )
        requires
            self.wf(),
            row_ids.len() == self.count(),
            0 <= group < self.count() / 32,
            non_increasing(packed, self.count()),
            0 < k,
            self.group_pruned(packed, seen, k, group),
            0 <= lane < 32,
        ensures
            self.row_key(packed, exact, group * 32 + lane).key > crate::topk::kth_key(
                seen.to_multiset(),
                k,
            ),
    {
        broadcast use vstd::seq_lib::group_to_multiset_ensures;

        crate::topk::lemma_kth_key(seen.to_multiset(), k);
        let limit = OrderedFloat { key: crate::topk::kth_key(seen.to_multiset(), k) as i32 };
        let t = choose|t: nat|
            0 < t <= self.width() && #[trigger] self.group_exceeds(packed, group, t, limit);
        let id = group * 32 + lane;
        let bound = self.lane_bound(packed, group, t, lane);
        lemma_code_sum_bound(self.code(id), self.table(), self.width(), t);
        lemma_code_sum_range(self.code(id), self.table(), self.width());
        lemma_code_sum_range(self.code(id), self.table(), t);
        lemma_remaining_bound(self.table(), self.width() as int, t as int);
    }

    /// What comes from the rows of the first groups that are not skipped comes from all of their
    /// rows too.
    proof fn lemma_skipping_changes_nothing<
        P: Fn(usize, u64) -> OrderedFloat,
        E: Fn(usize) -> OrderedFloat,
    >(
        self,
        packed: P,
        exact: E,
        row_ids: Seq<u64>,
        k: nat,
        groups: nat,
        result: Multiset<OrderedNode>,
    )
        requires
            self.wf(),
            row_ids.len() == self.count(),
            groups <= self.count() / 32,
            non_increasing(packed, self.count()),
            0 < k,
            crate::topk::offered(result, self.scan(packed, exact, row_ids, k, groups).0, k),
        ensures
            crate::topk::offered(
                result,
                self.nodes(packed, exact, row_ids, 0, (groups * 32) as int),
                k,
            ),
        decreases groups,
    {
        let all = crate::topk::zipped(row_ids, self.row_keys(packed, exact));
        if groups == 0 {
            assert(all.subrange(0, 0) =~= Seq::<OrderedNode>::empty());
        } else {
            let g = (groups - 1) as nat;
            let seen = self.scan(packed, exact, row_ids, k, g).0;
            let rows = self.nodes(packed, exact, row_ids, (g * 32) as int, (groups * 32) as int);
            let earlier = self.nodes(packed, exact, row_ids, 0, (g * 32) as int);
            assert(all.subrange(0, (groups * 32) as int) =~= earlier + rows);
            assert forall|m: Multiset<OrderedNode>| #[trigger]
                crate::topk::offered(m, seen, k) implies crate::topk::offered(m, earlier, k) by {
                self.lemma_skipping_changes_nothing(packed, exact, row_ids, k, g, m);
            }
            if self.group_pruned(packed, seen, k, g as int) {
                assert forall|i: int| 0 <= i < rows.len() implies (#[trigger] rows[i]).dist.key
                    >= crate::topk::kth_key(seen.to_multiset(), k) by {
                    self.lemma_pruned_rows_are_farther(
                        packed,
                        exact,
                        row_ids,
                        seen,
                        k,
                        g as int,
                        i,
                    );
                }
                crate::topk::law_farther_rows_do_not_matter(result, seen, rows, k);
            }
            crate::topk::lemma_offered_after(result, seen, earlier, rows, k);
        }
    }

    /// Skipping groups loses nothing: what the search finds is what comes from offering every row
    /// in order, and these are the `k` nearest rows.
    pub proof fn law_search_matches_full_scan<
        P: Fn(usize, u64) -> OrderedFloat,
        E: Fn(usize) -> OrderedFloat,
    >(
        self,
        packed: P,
        exact: E,
        row_ids: Seq<u64>,
        k: nat,
        results: Seq<OrderedNode>,
        stats: RabitTopKSearchStats,
    )
        requires
            self.wf(),
            row_ids.len() == self.count(),
            self.positive_scale() || non_increasing(packed, self.count()),
            self.found(packed, exact, row_ids, k, results, stats),
        ensures
            crate::topk::offered(
                results.to_multiset(),
                crate::topk::zipped(row_ids, self.row_keys(packed, exact)),
                k,
            ),
            crate::topk::is_top_k(
                results.to_multiset(),
                crate::topk::zipped(row_ids, self.row_keys(packed, exact)).to_multiset(),
                k,
            ),
            results.len() == if k < self.count() { k } else { self.count() },
    {
        broadcast use vstd::seq_lib::group_to_multiset_ensures;
        broadcast use vstd::multiset::group_multiset_axioms;

        let n = self.count();
        let all = crate::topk::zipped(row_ids, self.row_keys(packed, exact));
        if k == 0 || n == 0 {
            assert(results.to_multiset() =~= Multiset::<OrderedNode>::empty());
            crate::topk::lemma_nothing_selected(all, k);
        } else if !self.positive_scale() {
            let m = n / 32 * 32;
            let seen = self.scan(packed, exact, row_ids, k, n / 32).0;
            let earlier = self.nodes(packed, exact, row_ids, 0, m as int);
            let rest = self.nodes(packed, exact, row_ids, m as int, n as int);
            assert(all =~= earlier + rest);
            assert forall|r: Multiset<OrderedNode>| #[trigger]
                crate::topk::offered(r, seen, k) implies crate::topk::offered(r, earlier, k) by {
                self.lemma_skipping_changes_nothing(packed, exact, row_ids, k, n / 32, r);
            }
            crate::topk::lemma_offered_after(results.to_multiset(), seen, earlier, rest, k);
        }
        crate::topk::law_offered_is_top_k(results.to_multiset(), all, k);
    }
}

/// The nibbles of a byte are its remainder and its quotient by sixteen.
proof fn lemma_nibble_values(b: u8)
    ensures
        b & 0xF == b % 16,
        b >> 4 == b / 16,
{
    assert(b & 0xF == b % 16 && b >> 4 == b / 16) by (bit_vector);
}

/// The quantized distance of a code adds up, for every one of its bytes, the table entry of its low
/// half and that of its high half, and stops at the largest 16-bit value: it is their sum, or that
/// value where the sum is larger.
pub proof fn law_every_code_byte_counts(code: Seq<u8>, table: Seq<u8>, t: nat)
    ensures
        ({
            let sum = Seq::new(
                t,
                |i: int|
                    table[i * 32 + code[i] % 16] as int + table[i * 32 + 16 + code[i] / 16] as int,
            ).fold_left(0int, |sum: int, x: int| sum + x);
            &&& 0 <= sum
            &&& code_sum(code, table, t) == if sum < 65535 {
                sum
            } else {
                65535
            }
        }),
    decreases t,
{
    let add_up = |sum: int, x: int| sum + x;
    let entries = Seq::new(
        t,
        |i: int| table[i * 32 + code[i] % 16] as int + table[i * 32 + 16 + code[i] / 16] as int,
    );
    if t > 0 {
        let u = (t - 1) as nat;
        law_every_code_byte_counts(code, table, u);
        let fewer = Seq::new(
            u,
            |i: int| table[i * 32 + code[i] % 16] as int + table[i * 32 + 16 + code[i] / 16] as int,
        );
        assert(entries.drop_last() =~= fewer);
        assert(entries.fold_left(0int, add_up) == fewer.fold_left(0int, add_up) + entries.last());
        lemma_nibble_values(code[u as int]);
    }
}

/// The sum of a lane after one more packed block is its sum before and the two entries of its code
/// byte, up to the largest 16-bit value. The halves of that byte stand in two bytes of the block,
/// sixteen apart: in their low halves for the first sixteen lanes and in their high halves for the
/// others.
pub proof fn law_lane_of_a_block(block: Seq<u8>, table: Seq<u8>, before: u16, lane: int)
    requires
        0 <= lane < 32,
    ensures
        ({
            let slot = 2 * (lane % 8) + lane % 16 / 8;
            let low = if lane < 16 {
                block[slot] % 16
            } else {
                block[slot] / 16
            };
            let high = if lane < 16 {
                block[slot + 16] % 16
            } else {
                block[slot + 16] / 16
            };
            let sum = before + table[low as int] + table[16 + high];
            lane_sum(block, table, before, lane) == if sum < 65535 {
                sum
            } else {
                65535
            }
        }),
{
    let slot = 2 * (lane % 8) + lane % 16 / 8;
    assert(crate::vector::bq::codes::perm_inverse(if lane < 16 { lane } else { lane - 16 }) == slot);
    lemma_nibble_values(block[slot]);
    lemma_nibble_values(block[slot + 16]);
}

/// The largest entry of a segment is one of its entries, and none is larger.
pub proof fn law_largest_entry(table: Seq<u8>, start: int, n: nat) -> (i: int)
    requires
        n > 0,
    ensures
        0 <= i < n,
        table[start + i] == largest(table, start, n),
        forall|j: int| 0 <= j < n ==> #[trigger] table[start + j] <= largest(table, start, n),
    decreases n,
{
    assert forall|j: int| 0 <= j < n implies #[trigger] table[start + j] <= largest(
        table,
        start,
        n,
    ) by {
        lemma_largest(table, start, n, j);
    }
    reveal_with_fuel(largest, 2);
    if n == 1 || table[start + n - 1] == largest(table, start, n) {
        n - 1
    } else {
        law_largest_entry(table, start, (n - 1) as nat)
    }
}

/// The most that the last code bytes can add is the sum, over each of them, of the largest entry for
/// its low half and the largest entry for its high half.
pub proof fn law_what_remains(table: Seq<u8>, width: int, t: int)
    requires
        0 <= t <= width,
    ensures
        remaining(table, width, t) == Seq::new(
            (width - t) as nat,
            |i: int|
                largest(table, (t + i) * 32, 16) + largest(table, (t + i) * 32 + 16, 16),
        ).fold_left(0int, |sum: int, x: int| sum + x),
    decreases width - t,
{
    let add_up = |sum: int, x: int| sum + x;
    let entries = Seq::new(
        (width - t) as nat,
        |i: int| largest(table, (t + i) * 32, 16) + largest(table, (t + i) * 32 + 16, 16),
    );
    if t < width {
        law_what_remains(table, width - 1, t);
        let fewer = Seq::new(
            (width - 1 - t) as nat,
            |i: int| largest(table, (t + i) * 32, 16) + largest(table, (t + i) * 32 + 16, 16),
        );
        assert(entries.drop_last() =~= fewer);
        assert(entries.fold_left(0int, add_up) == fewer.fold_left(0int, add_up) + entries.last());
        lemma_remaining_last(table, width, t);
    }
}

/// One more byte at the end adds its largest entries to what remains.
proof fn lemma_remaining_last(table: Seq<u8>, width: int, t: int)
    requires
        0 <= t < width,
    ensures
        remaining(table, width, t) == remaining(table, width - 1, t) + largest(
            table,
            (width - 1) * 32,
            16,
        ) + largest(table, (width - 1) * 32 + 16, 16),
    decreases width - t,
{
    if t < width - 1 {
        lemma_remaining_last(table, width, t + 1);
    } else {
        assert(remaining(table, width, width) == 0);
        assert(remaining(table, width - 1, width - 1) == 0);
    }
}

/// Some factor is positive exactly where one lies behind zero and not behind infinity.
pub proof fn law_positive_factors(factors: Seq<OrderedFloat>)
    ensures
        any_positive(factors) <==> exists|i: int|
            0 <= i < factors.len() && 0 < (#[trigger] factors[i]).key <= 0x7f80_0000,
{
    if any_positive(factors) {
        let i = choose|i: int|
            0 <= i < factors.len() && crate::ordered::float_gt(
                #[trigger] factors[i],
                OrderedFloat { key: 0 },
            );
        assert(0 < factors[i].key <= 0x7f80_0000);
    }
    if exists|i: int| 0 <= i < factors.len() && 0 < (#[trigger] factors[i]).key <= 0x7f80_0000 {
        let i = choose|i: int|
            0 <= i < factors.len() && 0 < (#[trigger] factors[i]).key <= 0x7f80_0000;
        assert(crate::ordered::float_gt(factors[i], OrderedFloat { key: 0 }));
    }
}

impl<'a> RabitDistCalculator<'a> {
    /// The quantized distance of a row adds up the table entries of both halves of every byte of its
    /// code, up to the largest 16-bit value.
    pub proof fn law_quantized_distance_of_a_row(self, id: int)
        requires
            self.wf(),
            0 <= id < self.count(),
        ensures
            self.code(id).len() == self.width(),
            self.count() == self.codes().len() / self.width(),
            self.code(id) == crate::vector::bq::codes::rq_code(
                self.codes(),
                id,
                self.count(),
                self.width(),
            ),
            ({
                let sum = Seq::new(
                    self.width(),
                    |i: int|
                        self.table()[i * 32 + self.code(id)[i] % 16] as int + self.table()[i * 32
                            + 16 + self.code(id)[i] / 16] as int,
                ).fold_left(0int, |sum: int, x: int| sum + x);
                self.quantized_sum(id) == if sum < 65535 {
                    sum
                } else {
                    65535
                }
            }),
    {
        law_every_code_byte_counts(self.code(id), self.table(), self.width());
    }

    /// The quantized distance of a row whose codes were packed is that of its own code: the entries
    /// of both halves of each of its bytes, up to the largest 16-bit value.
    pub proof fn law_quantized_distance_of_a_packed_code(self, values: Seq<u8>, id: int)
        requires
            self.wf(),
            0 <= id < self.count(),
            values.len() == self.count() * self.width(),
            self.codes() == crate::vector::bq::codes::packed(values, self.width(), self.count()),
        ensures
            ({
                let sum = Seq::new(
                    self.width(),
                    |i: int|
                        self.table()[i * 32 + values[id * self.width() + i] % 16] as int
                            + self.table()[i * 32 + 16 + values[id * self.width() + i] / 16] as int,
                ).fold_left(0int, |sum: int, x: int| sum + x);
                self.quantized_sum(id) == if sum < 65535 {
                    sum
                } else {
                    65535
                }
            }),
    {
        let width = self.width();
        law_every_code_byte_counts(self.code(id), self.table(), width);
        crate::vector::bq::codes::law_rq_code_of_packed(values, width, self.count(), id);
        assert((id + 1) * width == id * width + width) by (nonlinear_arith);
        assert(0 <= id * width && (id + 1) * width <= self.count() * width) by (nonlinear_arith)
            requires
                0 <= id < self.count(),
        ;
        assert forall|i: int| 0 <= i < width implies #[trigger] self.code(id)[i] == values[id * width
            + i] by {}
        assert(Seq::new(
            width,
            |i: int|
                self.table()[i * 32 + self.code(id)[i] % 16] as int + self.table()[i * 32 + 16
                    + self.code(id)[i] / 16] as int,
        ) =~= Seq::new(
            width,
            |i: int|
                self.table()[i * 32 + values[id * width + i] % 16] as int + self.table()[i * 32 + 16
                    + values[id * width + i] / 16] as int,
        ));
    }

    /// All distances: one for each row; of those in full groups of 32 each from its quantized
    /// distance, and of the others each from the table before quantization.
    pub proof fn law_all_distances<
        P: Fn(usize, u64) -> OrderedFloat,
        E: Fn(usize) -> OrderedFloat,
    >(self, packed: P, exact: E, dists: Seq<OrderedFloat>, id: int)
        requires
            self.all_distances(packed, exact, dists),
            0 <= id < self.count(),
        ensures
            dists.len() == self.count(),
            dists == self.row_keys(packed, exact),
            id < self.count() / 32 * 32 ==> call_ensures(
                packed,
                (id as usize, self.quantized_sum(id) as u64),
                dists[id],
            ),
            id >= self.count() / 32 * 32 ==> call_ensures(exact, (id as usize,), dists[id]),
    {
    }

    /// The distance of a row is the one that is computed for it.
    pub proof fn law_distance_of_a_row<
        P: Fn(usize, u64) -> OrderedFloat,
        E: Fn(usize) -> OrderedFloat,
    >(self, packed: P, exact: E, id: int, r: OrderedFloat)
        requires
            packed_function(packed, self.count()),
            exact_function(exact, self.count()),
            self.count() <= usize::MAX,
            0 <= id < self.count(),
            if id < self.count() / 32 * 32 {
                call_ensures(packed, (id as usize, self.quantized_sum(id) as u64), r)
            } else {
                call_ensures(exact, (id as usize,), r)
            },
        ensures
            self.row_keys(packed, exact).len() == self.count(),
            self.row_keys(packed, exact)[id] == r,
    {
    }

    /// Groups that are skipped are counted, and the others give their rows: the two make up all
    /// groups, and nothing is skipped before `k` rows were seen.
    proof fn lemma_scan_counts<P: Fn(usize, u64) -> OrderedFloat, E: Fn(usize) -> OrderedFloat>(
        self,
        packed: P,
        exact: E,
        row_ids: Seq<u64>,
        k: nat,
        groups: nat,
    )
        requires
            row_ids.len() == self.count(),
            groups <= self.count() / 32,
        ensures
            self.scan(packed, exact, row_ids, k, groups).0.len() + 32 * self.scan(
                packed,
                exact,
                row_ids,
                k,
                groups,
            ).1 == 32 * groups,
            self.scan(packed, exact, row_ids, k, groups).1 > 0 ==> self.scan(
                packed,
                exact,
                row_ids,
                k,
                groups,
            ).0.len() >= k,
        decreases groups,
    {
        if groups > 0 {
            self.lemma_scan_counts(packed, exact, row_ids, k, (groups - 1) as nat);
        }
    }

    /// What a search reports: nothing where none is asked for or there is none; a full scan where
    /// some scale factor is positive; and else the skipped groups of 32 rows, with all other rows
    /// searched. It finds `k` rows, or all where there are fewer.
    pub proof fn law_search_report<
        P: Fn(usize, u64) -> OrderedFloat,
        E: Fn(usize) -> OrderedFloat,
    >(
        self,
        packed: P,
        exact: E,
        row_ids: Seq<u64>,
        k: nat,
        results: Seq<OrderedNode>,
        stats: RabitTopKSearchStats,
    )
        requires
            row_ids.len() == self.count(),
            self.found(packed, exact, row_ids, k, results, stats),
        ensures
            results.len() == if k < self.count() {
                k
            } else {
                self.count()
            },
            k == 0 ==> stats.searched_rows == 0 && stats.pruned_rows == 0,
            k > 0 ==> stats.searched_rows + stats.pruned_rows == self.count(),
            stats.pruned_rows == 32 * stats.pruned_batches,
            stats.pruned_batches <= self.count() / 32,
            stats.fallback_full_scan <==> k > 0 && self.count() > 0 && self.positive_scale(),
            stats.fallback_full_scan ==> stats.pruned_batches == 0,
    {
        broadcast use vstd::seq_lib::group_to_multiset_ensures;

        let n = self.count();
        let all = crate::topk::zipped(row_ids, self.row_keys(packed, exact));
        if k > 0 && n > 0 {
            if self.positive_scale() {
                crate::topk::law_offered_are_the_nearest(results.to_multiset(), all, k);
            } else {
                self.lemma_scan_counts(packed, exact, row_ids, k, n / 32);
                let seen = self.scan(packed, exact, row_ids, k, n / 32).0;
                let rest = self.nodes(packed, exact, row_ids, (n / 32 * 32) as int, n as int);
                crate::topk::law_offered_are_the_nearest(results.to_multiset(), seen + rest, k);
            }
        }
    }

    /// How a group of rows is taken: where it is skipped, the rows stay as they were and one more
    /// group counts as skipped; else its 32 rows come behind those before, each with its own
    /// distance.
    pub proof fn law_next_group<P: Fn(usize, u64) -> OrderedFloat, E: Fn(usize) -> OrderedFloat>(
        self,
        packed: P,
        exact: E,
        row_ids: Seq<u64>,
        k: nat,
        group: nat,
    )
        requires
            row_ids.len() == self.count(),
            group < self.count() / 32,
        ensures
            self.scan(packed, exact, row_ids, k, 0) == (Seq::<OrderedNode>::empty(), 0nat),
            ({
                let before = self.scan(packed, exact, row_ids, k, group);
                let after = self.scan(packed, exact, row_ids, k, group + 1);
                if self.group_pruned(packed, before.0, k, group as int) {
                    after.0 == before.0 && after.1 == before.1 + 1
                } else {
                    &&& after.1 == before.1
                    &&& after.0.len() == before.0.len() + 32
                    &&& after.0.take(before.0.len() as int) == before.0
                    &&& forall|lane: int|
                        0 <= lane < 32 ==> (#[trigger] after.0[before.0.len() + lane]) == (
                        OrderedNode {
                            id: row_ids[group * 32 + lane],
                            dist: self.row_keys(packed, exact)[group * 32 + lane],
                        })
                }
            }),
    {
        let before = self.scan(packed, exact, row_ids, k, group);
        let after = self.scan(packed, exact, row_ids, k, group + 1);
        if !self.group_pruned(packed, before.0, k, group as int) {
            assert(after.0.take(before.0.len() as int) =~= before.0);
        }
    }

    /// A group is skipped only where `k` rows were seen, the `k`-th nearest of them at a distance
    /// below infinity, and after some of the code bytes every row of the group has, for the most that
    /// its sum can still become, a distance beyond that one or none at all.
    pub proof fn law_skipped_groups_are_beyond<P: Fn(usize, u64) -> OrderedFloat>(
        self,
        packed: P,
        seen: Seq<OrderedNode>,
        k: nat,
        group: int,
    ) -> (r: (nat, OrderedFloat))
        requires
            k > 0,
            self.group_pruned(packed, seen, k, group),
        ensures
            seen.len() >= k,
            seen.to_multiset().filter(|x: OrderedNode| x.dist.key < r.1.key).len() < k,
            seen.to_multiset().filter(|x: OrderedNode| x.dist.key <= r.1.key).len() >= k,
            0 < r.0 <= self.width(),
            -0x7f80_0001 <= r.1.key < 0x7f80_0000,
            forall|lane: int|
                0 <= lane < 32 ==> ({
                    let bound = #[trigger] self.lane_bound(packed, group, r.0, lane);
                    crate::ordered::is_nan(bound) || crate::ordered::float_gt(bound, r.1)
                }),
    {
        broadcast use vstd::seq_lib::group_to_multiset_ensures;
        broadcast use vstd::multiset::group_multiset_axioms;

        let all = seen.to_multiset();
        crate::topk::lemma_kth_key(all, k);
        crate::topk::law_kth_nearest(all, k);
        let limit = OrderedFloat { key: crate::topk::kth_key(all, k) as i32 };
        assert(all.filter(|x: OrderedNode| x.dist.key < limit.key) =~= all.filter(
            |x: OrderedNode| x.dist.key < crate::topk::kth_key(all, k),
        ));
        assert(all.filter(|x: OrderedNode| x.dist.key <= limit.key) =~= all.filter(
            |x: OrderedNode| x.dist.key <= crate::topk::kth_key(all, k),
        ));
        let t = choose|t: nat|
            0 < t <= self.width() && #[trigger] self.group_exceeds(packed, group, t, limit);
        assert(self.group_exceeds(packed, group, t, limit));
        (t, limit)
    }

    /// A group is skipped wherever `k` rows were seen, the `k`-th nearest of them at a distance below
    /// infinity, and after some of the code bytes every row of the group has, for the most that its
    /// sum can still become, a distance beyond that one or none at all.
    pub proof fn law_groups_beyond_are_skipped<P: Fn(usize, u64) -> OrderedFloat>(
        self,
        packed: P,
        seen: Seq<OrderedNode>,
        k: nat,
        group: int,
        t: nat,
        limit: OrderedFloat,
    )
        requires
            0 < k <= seen.len(),
            seen.to_multiset().filter(|x: OrderedNode| x.dist.key < limit.key).len() < k,
            seen.to_multiset().filter(|x: OrderedNode| x.dist.key <= limit.key).len() >= k,
            0 < t <= self.width(),
            -0x7f80_0001 <= limit.key < 0x7f80_0000,
            forall|lane: int|
                0 <= lane < 32 ==> ({
                    let bound = #[trigger] self.lane_bound(packed, group, t, lane);
                    crate::ordered::is_nan(bound) || crate::ordered::float_gt(bound, limit)
                }),
        ensures
            self.group_pruned(packed, seen, k, group),
    {
        broadcast use vstd::multiset::group_multiset_axioms;

        let all = seen.to_multiset();
        crate::topk::law_kth_is_unique(all, k, limit.key as int);
        assert(all.filter(|x: OrderedNode| x.dist.key < limit.key) =~= all.filter(
            |x: OrderedNode| x.dist.key < limit.key as int,
        ));
        assert(OrderedFloat { key: crate::topk::kth_key(all, k) as i32 } == limit);
        assert(self.group_exceeds(packed, group, t, limit));
    }

    /// What a row can still reach after `t` of its code bytes is the distance of its sum so far and
    /// all that the other bytes can add.
    pub proof fn law_reach_of_a_row<P: Fn(usize, u64) -> OrderedFloat>(
        self,
        packed: P,
        group: int,
        t: nat,
        lane: int,
        r: OrderedFloat,
    )
        requires
            packed_function(packed, self.count()),
            0 <= group < self.count() / 32,
            0 <= lane < 32,
            self.count() <= usize::MAX,
            t <= self.width(),
            call_ensures(
                packed,
                (
                    (group * 32 + lane) as usize,
                    (code_sum(self.code(group * 32 + lane), self.table(), t) + remaining(
                        self.table(),
                        self.width() as int,
                        t as int,
                    )) as u64,
                ),
                r,
            ),
        ensures
            self.lane_bound(packed, group, t, lane) == r,
    {
    }
}

impl<'a> RabitDistCalculator<'a> {
    /// A row that was computed is one of the rows, with a distance from its quantized distance where
    /// it lies in a full group of 32, and else from the table before quantization.
    pub proof fn law_computed_row<P: Fn(usize, u64) -> OrderedFloat, E: Fn(usize) -> OrderedFloat>(
        self,
        packed: P,
        exact: E,
        row_ids: Seq<u64>,
        node: OrderedNode,
    ) -> (id: int)
        requires
            self.computed(packed, exact, row_ids, node),
        ensures
            0 <= id < self.count(),
            node.id == row_ids[id],
            id < self.count() / 32 * 32 ==> call_ensures(
                packed,
                (id as usize, self.quantized_sum(id) as u64),
                node.dist,
            ),
            id >= self.count() / 32 * 32 ==> call_ensures(exact, (id as usize,), node.dist),
    {
        choose|id: int|
            0 <= id < self.count() && node.id == #[trigger] row_ids[id] && if id
                < self.packed_rows() {
                call_ensures(packed, (id as usize, self.quantized_sum(id) as u64), node.dist)
            } else {
                call_ensures(exact, (id as usize,), node.dist)
            }
    }
}

impl<'a> RabitDistCalculator<'a> {
    /// There is one distance for every row, and the rows of full groups are those before the last
    /// multiple of 32.
    pub proof fn law_number_of_distances<
        P: Fn(usize, u64) -> OrderedFloat,
        E: Fn(usize) -> OrderedFloat,
    >(self, packed: P, exact: E)
        ensures
            self.row_keys(packed, exact).len() == self.count(),
            self.packed_rows() % 32 == 0,
            self.packed_rows() <= self.count() < self.packed_rows() + 32,
    {
    }
}

} // verus!
