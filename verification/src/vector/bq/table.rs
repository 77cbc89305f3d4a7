//! Distance tables: what every nibble of a code adds to the distance to a query.
//!
//! A table works on any kind of number: the caller hands in zero and addition.
use vstd::prelude::*;

use crate::ordered::OrderedFloat;
use crate::vector::bq::codes::get_rq_code;
use crate::vector::bq::search::{SEGMENT_LENGTH, SEGMENT_NUM_CODES};

verus! {

/// Position of the lowest bit that is set, for the numbers below sixteen (0 for 0).
pub const LOWBIT_IDX: [usize; 16] = [0, 0, 1, 0, 2, 0, 1, 0, 3, 0, 1, 0, 2, 0, 1, 0];

/// The value of the lowest bit that is set.
pub open spec fn lowest_bit(x: nat) -> nat
    decreases x,
{
    if x == 0 {
        0
    } else if x % 2 == 1 {
        1
    } else {
        2 * lowest_bit(x / 2)
    }
}

/// The value of the lowest bit of `x` that is set.
pub fn lowbit(x: usize) -> (r: usize)
    requires
        x > 0,
    ensures
        r == lowest_bit(x as nat),
        0 < r <= x,
{
    let mut bit: usize = 1;
    let mut rest: usize = x;
    while rest % 2 == 0
        invariant
            0 < rest,
            0 < bit,
            bit * rest <= x,
            bit * lowest_bit(rest as nat) == lowest_bit(x as nat),
        decreases rest,
    {
        proof {
            assert((bit * 2) * (rest / 2) == bit * rest) by (nonlinear_arith)
                requires
                    rest % 2 == 0,
            ;
            assert((bit * 2) * lowest_bit((rest / 2) as nat) == bit * (2 * lowest_bit(
                (rest / 2) as nat,
            ))) by (nonlinear_arith);
            assert(bit * 2 <= (bit * 2) * (rest / 2)) by (nonlinear_arith)
                requires
                    rest / 2 >= 1,
                    bit >= 0,
            ;
        }
        bit = bit * 2;
        rest = rest / 2;
    }
    proof {
        assert(bit <= bit * rest) by (nonlinear_arith)
            requires
                rest >= 1,
                bit >= 0,
        ;
        assert(lowest_bit(rest as nat) == 1);
        assert(bit * 1 == bit);
    }
    bit
}

/// The table of one segment: entry 0 is zero, and every other entry adds one dimension to an
/// entry before it.
pub open spec fn is_segment_table<T, A: Fn(T, T) -> T>(
    table: Seq<T>,
    sub_vec: Seq<T>,
    zero: T,
    plus: A,
) -> bool {
    &&& table.len() == 16
    &&& table[0] == zero
    &&& forall|j: int|
        0 < j < 16 ==> call_ensures(
            plus,
            (table[j - lowest_bit(j as nat)], sub_vec[LOWBIT_IDX@[j] as int]),
            #[trigger] table[j],
        )
}

/// Clearing the lowest bit leaves a smaller number.
proof fn lemma_lowest_bit(j: nat)
    requires
        j > 0,
    ensures
        0 < lowest_bit(j) <= j,
    decreases j,
{
    if j % 2 == 0 {
        lemma_lowest_bit(j / 2);
    }
}

/// Builds the table of one segment of a query.
pub fn build_dist_table_for_subvec<T: Copy, A: Fn(T, T) -> T>(
    sub_vec: &[T],
    zero: T,
    plus: &A,
) -> (r: Vec<T>)
    requires
        sub_vec@.len() >= 4,
        forall|a: T, b: T| call_requires(plus, (a, b)),
    ensures
        is_segment_table(r@, sub_vec@, zero, *plus),
{
    let mut dist_table: Vec<T> = Vec::with_capacity(SEGMENT_NUM_CODES);
    dist_table.push(zero);
    let mut j: usize = 1;
    while j < 16
        invariant
            1 <= j <= 16,
            sub_vec@.len() >= 4,
            forall|a: T, b: T| call_requires(plus, (a, b)),
            dist_table@.len() == j,
            dist_table@[0] == zero,
            forall|i: int|
                0 < i < j ==> call_ensures(
                    *plus,
                    (dist_table@[i - lowest_bit(i as nat)], sub_vec@[LOWBIT_IDX@[i] as int]),
                    #[trigger] dist_table@[i],
                ),
        decreases 16 - j,
    {
        let ghost before = dist_table@;
        let entry = plus(dist_table[j - lowbit(j)], sub_vec[LOWBIT_IDX[j]]);
        dist_table.push(entry);
        proof {
            assert forall|i: int| 0 < i < j + 1 implies call_ensures(
                *plus,
                (dist_table@[i - lowest_bit(i as nat)], sub_vec@[LOWBIT_IDX@[i] as int]),
                #[trigger] dist_table@[i],
            ) by {
                lemma_lowest_bit(i as nat);
                assert(dist_table@[i - lowest_bit(i as nat)] == before[i - lowest_bit(i as nat)]);
                if i < j {
                    assert(dist_table@[i] == before[i]);
                }
            }
        }
        j = j + 1;
    }
    dist_table
}

/// The table is the distance table of a query: a segment table for every four dimensions, and zeros
/// for dimensions that fill no segment.
pub open spec fn is_table_of<T, A: Fn(T, T) -> T>(
    table: Seq<T>,
    query: Seq<T>,
    zero: T,
    plus: A,
) -> bool {
    &&& table.len() == query.len() * 4
    &&& forall|s: int|
        0 <= s < query.len() / 4 ==> is_segment_table(
            #[trigger] table.subrange(s * 16, s * 16 + 16),
            query.subrange(s * 4, s * 4 + 4),
            zero,
            plus,
        )
    &&& forall|i: int| query.len() / 4 * 16 <= i < query.len() * 4 ==> #[trigger] table[i] == zero
}

/// Builds the distance table of a query: sixteen entries for every four dimensions.
pub fn build_dist_table_direct<T: Copy, A: Fn(T, T) -> T>(qc: &[T], zero: T, plus: &A) -> (r: Vec<T>)
    requires
        qc@.len() * 4 <= usize::MAX,
        forall|a: T, b: T| call_requires(plus, (a, b)),
    ensures
        is_table_of(r@, qc@, zero, *plus),
{
    let n: usize = qc.len();
    let segments: usize = n / SEGMENT_LENGTH;
    let mut dist_table: Vec<T> = Vec::with_capacity(n * 4);
    let mut s: usize = 0;
    while s < segments
        invariant
            s <= segments,
            segments == n / 4,
            n == qc@.len(),
            n * 4 <= usize::MAX,
            forall|a: T, b: T| call_requires(plus, (a, b)),
            dist_table@.len() == s * 16,
            forall|i: int|
                0 <= i < s ==> is_segment_table(
                    #[trigger] dist_table@.subrange(i * 16, i * 16 + 16),
                    qc@.subrange(i * 4, i * 4 + 4),
                    zero,
                    *plus,
                ),
        decreases segments - s,
    {
        let sub_vec: &[T] = &qc[s * 4..s * 4 + 4];
        let mut segment = build_dist_table_for_subvec(sub_vec, zero, plus);
        let ghost before = dist_table@;
        let ghost part = segment@;
        dist_table.append(&mut segment);
        proof {
            assert forall|i: int| 0 <= i < s + 1 implies is_segment_table(
                #[trigger] dist_table@.subrange(i * 16, i * 16 + 16),
                qc@.subrange(i * 4, i * 4 + 4),
                zero,
                *plus,
            ) by {
                if i < s {
                    assert(dist_table@.subrange(i * 16, i * 16 + 16) =~= before.subrange(
                        i * 16,
                        i * 16 + 16,
                    ));
                } else {
                    assert(dist_table@.subrange(i * 16, i * 16 + 16) =~= part);
                }
            }
        }
        s = s + 1;
    }
    let ghost filled = dist_table@;
    while dist_table.len() < n * 4
        invariant
            segments == n / 4,
            n == qc@.len(),
            n * 4 <= usize::MAX,
            filled.len() == segments * 16,
            segments * 16 <= dist_table@.len() <= n * 4,
            dist_table@.take(segments * 16) == filled,
            forall|i: int| segments * 16 <= i < dist_table@.len() ==> #[trigger] dist_table@[i] == zero,
        decreases n * 4 - dist_table@.len(),
    {
        dist_table.push(zero);
        assert(dist_table@.take(segments * 16) =~= filled);
    }
    proof {
        assert forall|i: int| 0 <= i < segments implies is_segment_table(
            #[trigger] dist_table@.subrange(i * 16, i * 16 + 16),
            qc@.subrange(i * 4, i * 4 + 4),
            zero,
            *plus,
        ) by {
            assert(dist_table@.subrange(i * 16, i * 16 + 16) =~= filled.subrange(
                i * 16,
                i * 16 + 16,
            ));
        }
    }
    dist_table
}

/// The sum of the dimensions that the bits of `j` select.
pub open spec fn selected_sum<T>(sub_vec: Seq<T>, value: spec_fn(T) -> int, j: nat, d: nat) -> int
    decreases j,
{
    if j == 0 {
        0
    } else {
        (if j % 2 == 1 { value(sub_vec[d as int]) } else { 0 }) + selected_sum(
            sub_vec,
            value,
            j / 2,
            d + 1,
        )
    }
}

/// Taking the lowest bit out of `j` takes its dimension out of the sum.
proof fn lemma_selected_sum<T>(sub_vec: Seq<T>, value: spec_fn(T) -> int, j: nat, d: nat, bit: nat)
    requires
        j > 0,
        lowest_bit(j) == vstd::arithmetic::power2::pow2(bit),
    ensures
        selected_sum(sub_vec, value, j, d) == selected_sum(
            sub_vec,
            value,
            (j - lowest_bit(j)) as nat,
            d,
        ) + value(sub_vec[(d + bit) as int]),
    decreases j,
{
    vstd::arithmetic::power2::lemma2_to64();
    lemma_lowest_bit(j);
    if j % 2 == 1 {
        if bit > 0 {
            vstd::arithmetic::power2::lemma_pow2_unfold(bit);
        }
        let rest = (j - 1) as nat;
        if rest > 0 {
            assert(rest / 2 == j / 2);
        } else {
            assert(selected_sum(sub_vec, value, 0, d + 1) == 0);
        }
    } else {
        if bit == 0 {
            assert(false);
        }
        vstd::arithmetic::power2::lemma_pow2_unfold(bit);
        lemma_selected_sum(sub_vec, value, j / 2, d + 1, (bit - 1) as nat);
        let rest = (j - lowest_bit(j)) as nat;
        lemma_lowest_bit(j / 2);
        assert(rest / 2 == j / 2 - lowest_bit(j / 2));
        assert(rest % 2 == 0);
        if rest == 0 {
            assert(selected_sum(sub_vec, value, 0, d + 1) == 0);
        }
    }
}

/// Where addition is exact, entry `j` of a segment table is the sum of the dimensions that the
/// bits of `j` select.
pub proof fn law_segment_table_sums_bits<T>(
    table: Seq<T>,
    sub_vec: Seq<T>,
    value: spec_fn(T) -> int,
    j: nat,
)
    requires
        table.len() == 16,
        j < 16,
        value(table[0]) == 0,
        forall|i: int|
            0 < i < 16 ==> value(#[trigger] table[i]) == value(table[i - lowest_bit(i as nat)])
                + value(sub_vec[LOWBIT_IDX@[i] as int]),
    ensures
        value(table[j as int]) == selected_sum(sub_vec, value, j, 0),
    decreases j,
{
    if j > 0 {
        vstd::arithmetic::power2::lemma2_to64();
        reveal_with_fuel(lowest_bit, 5);
        let bit = LOWBIT_IDX@[j as int] as nat;
        assert(lowest_bit(j) == vstd::arithmetic::power2::pow2(bit));
        lemma_lowest_bit(j);
        lemma_selected_sum(sub_vec, value, j, 0, bit);
        law_segment_table_sums_bits(table, sub_vec, value, (j - lowest_bit(j)) as nat);
        assert(value(table[j as int]) == value(table[j - lowest_bit(j)]) + value(
            sub_vec[bit as int],
        ));
    }
}

/// `after` can come out when the two entries of byte `i` of a code are added to `before`.
pub open spec fn adds_byte<T, A: Fn(T, T) -> T>(
    plus: A,
    table: Seq<T>,
    byte: u8,
    i: int,
    before: T,
    after: T,
) -> bool {
    exists|pair: T|
        #[trigger] call_ensures(
            plus,
            (table[i * 32 + (byte & 0xF)], table[i * 32 + 16 + (byte >> 4)]),
            pair,
        ) && call_ensures(plus, (before, pair), after)
}

/// `sums` are the sums that come up when the bytes of a code are added one after the other.
pub open spec fn running_sums<T, A: Fn(T, T) -> T>(
    plus: A,
    table: Seq<T>,
    code: Seq<u8>,
    sums: Seq<T>,
) -> bool {
    &&& sums.len() == code.len() + 1
    &&& forall|i: int|
        0 <= i < code.len() ==> adds_byte(plus, table, #[trigger] code[i], i, sums[i], sums[i + 1])
}

/// `end` can come out when all bytes of a code are added to `start`.
pub open spec fn adds_up<T, A: Fn(T, T) -> T>(
    plus: A,
    table: Seq<T>,
    code: Seq<u8>,
    start: T,
    end: T,
) -> bool {
    exists|sums: Seq<T>|
        #[trigger] running_sums(plus, table, code, sums) && sums[0] == start && sums.last() == end
}

/// The code of row `row` among `length` rows that are laid out byte by byte from `start` on.
pub open spec fn transposed_code(
    codes: Seq<u8>,
    start: int,
    length: int,
    width: nat,
    row: int,
) -> Seq<u8> {
    Seq::new(width, |col: int| codes[start + col * length + row])
}

/// The nibbles of a byte are below sixteen.
proof fn lemma_nibbles_small(b: u8)
    ensures
        b & 0xF < 16,
        b >> 4 < 16,
{
    assert(b & 0xF < 16 && b >> 4 < 16) by (bit_vector);
}

/// Adds the two table entries of byte `i` of a code to `before`.
fn add_byte<T: Copy, A: Fn(T, T) -> T>(
    plus: &A,
    table: &[T],
    byte: u8,
    i: usize,
    before: T,
) -> (after: T)
    requires
        i * 32 + 32 <= table@.len(),
        forall|a: T, b: T| call_requires(plus, (a, b)),
    ensures
        adds_byte(*plus, table@, byte, i as int, before, after),
{
    let total: usize = table.len();
    proof {
        lemma_nibbles_small(byte);
    }
    let current: usize = i * 32 + (byte & 0xF) as usize;
    let next: usize = i * 32 + 16 + (byte >> 4) as usize;
    let pair = plus(table[current], table[next]);
    plus(before, pair)
}

/// Adds to the distances of `length` rows what their codes, laid out byte by byte, add up to.
pub fn compute_rq_distance_flat<T: Copy, A: Fn(T, T) -> T>(
    dist_table: &[T],
    codes: &[u8],
    offset: usize,
    length: usize,
    dists: &mut Vec<T>,
    plus: &A,
)
    requires
        length > 0,
        (offset + length) * (dist_table@.len() / 32) <= codes@.len(),
        offset + length <= old(dists)@.len(),
        forall|a: T, b: T| call_requires(plus, (a, b)),
    ensures
        final(dists)@.len() == old(dists)@.len(),
        forall|i: int|
            0 <= i < old(dists)@.len() && !(offset <= i < offset + length)
                ==> #[trigger] final(dists)@[i] == old(dists)@[i],
        forall|row: int|
            0 <= row < length ==> adds_up(
                *plus,
                dist_table@,
                #[trigger] transposed_code(
                    codes@,
                    offset * (dist_table@.len() / 32),
                    length as int,
                    dist_table@.len() / 32,
                    row,
                ),
                old(dists)@[offset + row],
                final(dists)@[offset + row],
            ),
{
    let table_len: usize = dist_table.len();
    let total: usize = codes.len();
    let code_len: usize = table_len / 4 / 8;
    proof {
        assert(code_len == table_len / 32);
        assert((offset + length) * code_len == offset * code_len + length * code_len)
            by (nonlinear_arith);
        assert(0 <= offset * code_len && 0 <= length * code_len) by (nonlinear_arith)
            requires
                offset >= 0,
                length >= 0,
                code_len >= 0,
        ;
    }
    let start: usize = offset * code_len;
    let dist_count: usize = dists.len();
    let ghost before = dists@;
    let ghost mut sums: Seq<Seq<T>> = Seq::new(
        length as nat,
        |row: int| seq![before[offset + row]],
    );
    let mut col: usize = 0;
    while col < code_len
        invariant
            col <= code_len,
            code_len == dist_table@.len() / 32,
            code_len == table_len / 32,
            start == offset * code_len,
            start + length * code_len <= total,
            total == codes@.len(),
            table_len == dist_table@.len(),
            dist_count == before.len(),
            offset + length <= before.len(),
            dists@.len() == before.len(),
            forall|a: T, b: T| call_requires(plus, (a, b)),
            forall|i: int|
                0 <= i < before.len() && !(offset <= i < offset + length) ==> #[trigger] dists@[i]
                    == before[i],
            sums.len() == length,
            forall|row: int|
                0 <= row < length ==> running_sums(
                    *plus,
                    dist_table@,
                    transposed_code(codes@, start as int, length as int, col as nat, row),
                    #[trigger] sums[row],
                ) && sums[row][0] == before[offset + row] && sums[row].last() == dists@[offset
                    + row],
        decreases code_len - col,
    {
        proof {
            assert(col * length + length <= length * code_len) by (nonlinear_arith)
                requires
                    col + 1 <= code_len,
                    length >= 0,
            ;
            assert(0 <= col * length) by (nonlinear_arith)
                requires
                    col >= 0,
                    length >= 0,
            ;
        }
        let mut row: usize = 0;
        let ghost old_sums = sums;
        while row < length
            invariant
                row <= length,
                col < code_len,
                code_len == dist_table@.len() / 32,
                code_len == table_len / 32,
                table_len == dist_table@.len(),
                0 <= col * length,
                start + col * length + length <= total,
                total == codes@.len(),
                dist_count == before.len(),
                offset + length <= before.len(),
                dists@.len() == before.len(),
                forall|a: T, b: T| call_requires(plus, (a, b)),
                forall|i: int|
                    0 <= i < before.len() && !(offset <= i < offset + length)
                        ==> #[trigger] dists@[i] == before[i],
                old_sums.len() == length,
                sums.len() == length,
                forall|r: int|
                    row <= r < length ==> #[trigger] sums[r] == old_sums[r] && running_sums(
                        *plus,
                        dist_table@,
                        transposed_code(codes@, start as int, length as int, col as nat, r),
                        sums[r],
                    ) && sums[r][0] == before[offset + r] && sums[r].last() == dists@[offset + r],
                forall|r: int|
                    0 <= r < row ==> running_sums(
                        *plus,
                        dist_table@,
                        transposed_code(codes@, start as int, length as int, (col + 1) as nat, r),
                        #[trigger] sums[r],
                    ) && sums[r][0] == before[offset + r] && sums[r].last() == dists@[offset + r],
            decreases length - row,
        {
            let byte: u8 = codes[start + col * length + row];
            let id: usize = offset + row;
            let sum = add_byte(plus, dist_table, byte, col, dists[id]);
            dists.set(id, sum);
            proof {
                let mine = sums[row as int];
                let longer = mine.push(sum);
                let code = transposed_code(
                    codes@,
                    start as int,
                    length as int,
                    (col + 1) as nat,
                    row as int,
                );
                let shorter = transposed_code(
                    codes@,
                    start as int,
                    length as int,
                    col as nat,
                    row as int,
                );
                assert forall|i: int| 0 <= i < code.len() implies adds_byte(
                    *plus,
                    dist_table@,
                    #[trigger] code[i],
                    i,
                    longer[i],
                    longer[i + 1],
                ) by {
                    if i < col {
                        assert(code[i] == shorter[i]);
                    } else {
                        assert(code[i] == byte);
                    }
                }
                sums = sums.update(row as int, longer);
            }
            row = row + 1;
        }
        col = col + 1;
    }
    proof {
        assert forall|row: int| 0 <= row < length implies adds_up(
            *plus,
            dist_table@,
            #[trigger] transposed_code(
                codes@,
                offset * (dist_table@.len() / 32),
                length as int,
                dist_table@.len() / 32,
                row,
            ),
            before[offset + row],
            dists@[offset + row],
        ) by {
            assert(running_sums(
                *plus,
                dist_table@,
                transposed_code(codes@, start as int, length as int, code_len as nat, row),
                sums[row],
            ));
        }
    }
}

/// What a code adds up to, before it becomes a distance.
pub fn code_distance<T: Copy, A: Fn(T, T) -> T>(
    dist_table: &[T],
    code: &[u8],
    zero: T,
    plus: &A,
) -> (r: T)
    requires
        forall|a: T, b: T| call_requires(plus, (a, b)),
    ensures
        adds_up(
            *plus,
            dist_table@,
            code@.take(
                if code@.len() <= dist_table@.len() / 32 {
                    code@.len() as int
                } else {
                    dist_table@.len() as int / 32
                },
            ),
            zero,
            r,
        ),
{
    let segments: usize = dist_table.len() / (2 * SEGMENT_NUM_CODES);
    let mut dist = zero;
    let ghost mut sums: Seq<T> = seq![zero];
    let mut i: usize = 0;
    while i < code.len() && i < segments
        invariant
            i <= code@.len(),
            i <= segments,
            segments == dist_table@.len() / 32,
            forall|a: T, b: T| call_requires(plus, (a, b)),
            running_sums(*plus, dist_table@, code@.take(i as int), sums),
            sums[0] == zero,
            sums.last() == dist,
        decreases code@.len() - i,
    {
        let ghost before = sums;
        dist = add_byte(plus, dist_table, code[i], i, dist);
        proof {
            sums = sums.push(dist);
            let longer = code@.take(i + 1);
            let shorter = code@.take(i as int);
            assert forall|j: int| 0 <= j < longer.len() implies adds_byte(
                *plus,
                dist_table@,
                #[trigger] longer[j],
                j,
                sums[j],
                sums[j + 1],
            ) by {
                if j < i {
                    assert(longer[j] == shorter[j]);
                }
            }
        }
        i = i + 1;
    }
    dist
}

/// What the code of vector `id` of a packed layout adds up to, before it becomes a distance.
pub fn distance<T: Copy, A: Fn(T, T) -> T>(
    dist_table: &[T],
    codes: &[u8],
    id: usize,
    num_vectors: usize,
    code_len: usize,
    zero: T,
    plus: &A,
) -> (r: T)
    requires
        id < num_vectors,
        codes@.len() == num_vectors * code_len,
        code_len * 32 <= dist_table@.len(),
        forall|a: T, b: T| call_requires(plus, (a, b)),
    ensures
        adds_up(
            *plus,
            dist_table@,
            crate::vector::bq::codes::rq_code(
                codes@,
                id as int,
                num_vectors as nat,
                code_len as nat,
            ),
            zero,
            r,
        ),
{
    let code = get_rq_code(codes, id, num_vectors, code_len);
    let sum = code_distance(dist_table, code.as_slice(), zero, plus);
    assert(code@.take(code@.len() as int) =~= code@);
    sum
}

/// The vectors after the last full group are laid out byte by byte.
pub proof fn law_rest_is_transposed(codes: Seq<u8>, n: nat, width: nat, id: int)
    requires
        crate::vector::bq::codes::packed_count(n) <= id < n,
    ensures
        crate::vector::bq::codes::rq_code(codes, id, n, width) == transposed_code(
            codes,
            (crate::vector::bq::codes::packed_count(n) * width) as int,
            n - crate::vector::bq::codes::packed_count(n),
            width,
            id - crate::vector::bq::codes::packed_count(n),
        ),
{
}

/// Where addition gives one result, a code adds up to one result.
pub proof fn law_adds_up_to_one<T, A: Fn(T, T) -> T>(
    plus: A,
    table: Seq<T>,
    code: Seq<u8>,
    start: T,
    a: T,
    b: T,
)
    requires
        forall|x: T, y: T, r: T, s: T|
            #[trigger] call_ensures(plus, (x, y), r) && #[trigger] call_ensures(plus, (x, y), s)
                ==> r == s,
        adds_up(plus, table, code, start, a),
        adds_up(plus, table, code, start, b),
    ensures
        a == b,
{
    let p = choose|sums: Seq<T>|
        #[trigger] running_sums(plus, table, code, sums) && sums[0] == start && sums.last() == a;
    let q = choose|sums: Seq<T>|
        #[trigger] running_sums(plus, table, code, sums) && sums[0] == start && sums.last() == b;
    lemma_running_sums_agree(plus, table, code, p, q, code.len());
}

/// Where addition gives one result, sums that start alike stay alike.
proof fn lemma_running_sums_agree<T, A: Fn(T, T) -> T>(
    plus: A,
    table: Seq<T>,
    code: Seq<u8>,
    p: Seq<T>,
    q: Seq<T>,
    i: nat,
)
    requires
        forall|x: T, y: T, r: T, s: T|
            #[trigger] call_ensures(plus, (x, y), r) && #[trigger] call_ensures(plus, (x, y), s)
                ==> r == s,
        running_sums(plus, table, code, p),
        running_sums(plus, table, code, q),
        p[0] == q[0],
        i <= code.len(),
    ensures
        p[i as int] == q[i as int],
    decreases i,
{
    if i > 0 {
        let j = i - 1;
        lemma_running_sums_agree(plus, table, code, p, q, j as nat);
        assert(adds_byte(plus, table, code[j], j, p[j], p[j + 1]));
        assert(adds_byte(plus, table, code[j], j, q[j], q[j + 1]));
    }
}

/// Bit `i` of a code is set; the bits of a byte are counted from the lowest one.
pub open spec fn bit_set(code: Seq<u8>, i: int) -> bool {
    (code[i / 8] >> ((i % 8) as u8)) & 1 == 1
}

/// The sum of the first `n` components of a query at which the bit of a code is set.
pub open spec fn set_bits_sum<T>(
    query: Seq<T>,
    value: spec_fn(T) -> int,
    code: Seq<u8>,
    n: nat,
) -> int
    decreases n,
{
    if n == 0 {
        0
    } else {
        set_bits_sum(query, value, code, (n - 1) as nat) + if bit_set(code, n - 1) {
            value(query[n - 1])
        } else {
            0
        }
    }
}

/// The sum of the first `n` components of a query, taken as they are where the bit of a code is set,
/// and negated elsewhere.
pub open spec fn signed_sum<T>(
    query: Seq<T>,
    value: spec_fn(T) -> int,
    code: Seq<u8>,
    n: nat,
) -> int
    decreases n,
{
    if n == 0 {
        0
    } else {
        signed_sum(query, value, code, (n - 1) as nat) + if bit_set(code, n - 1) {
            value(query[n - 1])
        } else {
            -value(query[n - 1])
        }
    }
}

/// The sum of the first `n` components of a query.
pub open spec fn component_sum<T>(query: Seq<T>, value: spec_fn(T) -> int, n: nat) -> int
    decreases n,
{
    if n == 0 {
        0
    } else {
        component_sum(query, value, (n - 1) as nat) + value(query[n - 1])
    }
}

/// Twice the components at the set bits, less all components, is the signed sum.
pub proof fn law_signed_sum<T>(query: Seq<T>, value: spec_fn(T) -> int, code: Seq<u8>, n: nat)
    ensures
        signed_sum(query, value, code, n) == 2 * set_bits_sum(query, value, code, n)
            - component_sum(query, value, n),
    decreases n,
{
    if n > 0 {
        law_signed_sum(query, value, code, (n - 1) as nat);
    }
}

/// Addition is exact on the numbers that `value` gives.
pub open spec fn adds_exactly<T, A: Fn(T, T) -> T>(
    plus: A,
    zero: T,
    value: spec_fn(T) -> int,
) -> bool {
    &&& value(zero) == 0
    &&& forall|a: T, b: T, r: T|
        #[trigger] call_ensures(plus, (a, b), r) ==> value(r) == value(a) + value(b)
}

/// The bits of a byte, from its two nibbles.
proof fn lemma_bits_of_nibbles(x: u8)
    ensures
        (x & 0xF) % 2 == 1 <==> (x >> 0u8) & 1 == 1,
        (x & 0xF) / 2 % 2 == 1 <==> (x >> 1u8) & 1 == 1,
        (x & 0xF) / 4 % 2 == 1 <==> (x >> 2u8) & 1 == 1,
        (x & 0xF) / 8 % 2 == 1 <==> (x >> 3u8) & 1 == 1,
        (x >> 4) % 2 == 1 <==> (x >> 4u8) & 1 == 1,
        (x >> 4) / 2 % 2 == 1 <==> (x >> 5u8) & 1 == 1,
        (x >> 4) / 4 % 2 == 1 <==> (x >> 6u8) & 1 == 1,
        (x >> 4) / 8 % 2 == 1 <==> (x >> 7u8) & 1 == 1,
{
    assert({
        &&& ((x & 0xF) % 2 == 1 <==> (x >> 0u8) & 1 == 1)
        &&& ((x & 0xF) / 2 % 2 == 1 <==> (x >> 1u8) & 1 == 1)
        &&& ((x & 0xF) / 4 % 2 == 1 <==> (x >> 2u8) & 1 == 1)
        &&& ((x & 0xF) / 8 % 2 == 1 <==> (x >> 3u8) & 1 == 1)
        &&& ((x >> 4) % 2 == 1 <==> (x >> 4u8) & 1 == 1)
        &&& ((x >> 4) / 2 % 2 == 1 <==> (x >> 5u8) & 1 == 1)
        &&& ((x >> 4) / 4 % 2 == 1 <==> (x >> 6u8) & 1 == 1)
        &&& ((x >> 4) / 8 % 2 == 1 <==> (x >> 7u8) & 1 == 1)
    }) by (bit_vector);
}

/// The dimensions that a nibble selects, one by one.
proof fn lemma_nibble_sum<T>(sub_vec: Seq<T>, value: spec_fn(T) -> int, j: nat)
    requires
        j < 16,
    ensures
        selected_sum(sub_vec, value, j, 0) == (if j % 2 == 1 {
            value(sub_vec[0])
        } else {
            0
        }) + (if j / 2 % 2 == 1 {
            value(sub_vec[1])
        } else {
            0
        }) + (if j / 4 % 2 == 1 {
            value(sub_vec[2])
        } else {
            0
        }) + (if j / 8 % 2 == 1 {
            value(sub_vec[3])
        } else {
            0
        }),
{
    reveal_with_fuel(selected_sum, 5);
    assert(j / 2 / 2 == j / 4 && j / 4 / 2 == j / 8 && j / 8 / 2 == 0);
}

/// An entry of a segment table is the sum of the dimensions that its nibble selects.
proof fn lemma_entry_sum<T, A: Fn(T, T) -> T>(
    table: Seq<T>,
    query: Seq<T>,
    zero: T,
    plus: A,
    value: spec_fn(T) -> int,
    s: int,
    j: nat,
)
    requires
        adds_exactly(plus, zero, value),
        is_table_of(table, query, zero, plus),
        0 <= s < query.len() / 4,
        j < 16,
    ensures
        value(table[s * 16 + j]) == selected_sum(
            query.subrange(s * 4, s * 4 + 4),
            value,
            j,
            0,
        ),
{
    let segment = table.subrange(s * 16, s * 16 + 16);
    let sub_vec = query.subrange(s * 4, s * 4 + 4);
    assert(is_segment_table(segment, sub_vec, zero, plus));
    assert forall|i: int| 0 < i < 16 implies value(#[trigger] segment[i]) == value(
        segment[i - lowest_bit(i as nat)],
    ) + value(sub_vec[LOWBIT_IDX@[i] as int]) by {
        assert(call_ensures(
            plus,
            (segment[i - lowest_bit(i as nat)], sub_vec[LOWBIT_IDX@[i] as int]),
            segment[i],
        ));
    }
    law_segment_table_sums_bits(segment, sub_vec, value, j);
    assert(segment[j as int] == table[s * 16 + j]);
}

/// One more bit of a byte adds its component where it is set.
proof fn lemma_one_bit<T>(
    query: Seq<T>,
    value: spec_fn(T) -> int,
    code: Seq<u8>,
    k: nat,
    b: u8,
)
    requires
        b < 8,
    ensures
        set_bits_sum(query, value, code, 8 * k + b as nat + 1) == set_bits_sum(
            query,
            value,
            code,
            8 * k + b as nat,
        ) + if (code[k as int] >> b) & 1 == 1 {
            value(query[8 * k + b])
        } else {
            0
        },
{
    let n = 8 * k + b;
    assert(n / 8 == k && n % 8 == b);
    assert((n % 8) as u8 == b);
}

/// The bits of a byte add the components that its two nibbles select.
proof fn lemma_eight_bits<T>(query: Seq<T>, value: spec_fn(T) -> int, code: Seq<u8>, k: nat)
    requires
        k < code.len(),
        code.len() * 8 <= query.len(),
    ensures
        set_bits_sum(query, value, code, 8 * k + 8) - set_bits_sum(query, value, code, 8 * k)
            == selected_sum(
            query.subrange(8 * k as int, 8 * k as int + 4),
            value,
            (code[k as int] & 0xF) as nat,
            0,
        ) + selected_sum(
            query.subrange(8 * k as int + 4, 8 * k as int + 8),
            value,
            (code[k as int] >> 4) as nat,
            0,
        ),
{
    let byte = code[k as int];
    lemma_nibbles_small(byte);
    lemma_bits_of_nibbles(byte);
    lemma_nibble_sum(query.subrange(8 * k as int, 8 * k as int + 4), value, (byte & 0xF) as nat);
    lemma_nibble_sum(query.subrange(8 * k as int + 4, 8 * k as int + 8), value, (byte >> 4) as nat);
    lemma_one_bit(query, value, code, k, 0);
    lemma_one_bit(query, value, code, k, 1);
    lemma_one_bit(query, value, code, k, 2);
    lemma_one_bit(query, value, code, k, 3);
    lemma_one_bit(query, value, code, k, 4);
    lemma_one_bit(query, value, code, k, 5);
    lemma_one_bit(query, value, code, k, 6);
    lemma_one_bit(query, value, code, k, 7);
}

/// What one byte of a code adds is the sum of the components at its set bits.
proof fn lemma_byte_sum<T, A: Fn(T, T) -> T>(
    table: Seq<T>,
    query: Seq<T>,
    zero: T,
    plus: A,
    value: spec_fn(T) -> int,
    code: Seq<u8>,
    k: nat,
    before: T,
    after: T,
)
    requires
        adds_exactly(plus, zero, value),
        is_table_of(table, query, zero, plus),
        k < code.len(),
        code.len() * 8 <= query.len(),
        adds_byte(plus, table, code[k as int], k as int, before, after),
    ensures
        value(after) - value(before) == set_bits_sum(query, value, code, 8 * k + 8) - set_bits_sum(
            query,
            value,
            code,
            8 * k,
        ),
{
    let byte = code[k as int];
    lemma_nibbles_small(byte);
    let s = 2 * k as int;
    lemma_entry_sum(table, query, zero, plus, value, s, (byte & 0xF) as nat);
    lemma_entry_sum(table, query, zero, plus, value, s + 1, (byte >> 4) as nat);
    assert(query.subrange(s * 4, s * 4 + 4) == query.subrange(8 * k as int, 8 * k as int + 4));
    assert(query.subrange((s + 1) * 4, (s + 1) * 4 + 4) == query.subrange(8 * k as int + 4, 8 * k as int + 8));
    lemma_eight_bits(query, value, code, k);
    let pair = choose|pair: T|
        #[trigger] call_ensures(
            plus,
            (table[k * 32 + (byte & 0xF)], table[k * 32 + 16 + (byte >> 4)]),
            pair,
        ) && call_ensures(plus, (before, pair), after);
    assert(value(after) == value(before) + value(pair));
}

/// Where addition is exact, what a code adds up to over the table of a query is the sum of the
/// components of the query at the set bits of the code.
pub proof fn law_code_sums_set_bits<T, A: Fn(T, T) -> T>(
    table: Seq<T>,
    query: Seq<T>,
    zero: T,
    plus: A,
    value: spec_fn(T) -> int,
    code: Seq<u8>,
    sum: T,
)
    requires
        adds_exactly(plus, zero, value),
        is_table_of(table, query, zero, plus),
        code.len() * 8 <= query.len(),
        adds_up(plus, table, code, zero, sum),
    ensures
        value(sum) == set_bits_sum(query, value, code, code.len() * 8),
{
    let sums = choose|sums: Seq<T>|
        #[trigger] running_sums(plus, table, code, sums) && sums[0] == zero && sums.last() == sum;
    lemma_running_bits(table, query, zero, plus, value, code, sums, code.len());
}

/// After `k` bytes, the components at the set bits of these bytes are added up.
proof fn lemma_running_bits<T, A: Fn(T, T) -> T>(
    table: Seq<T>,
    query: Seq<T>,
    zero: T,
    plus: A,
    value: spec_fn(T) -> int,
    code: Seq<u8>,
    sums: Seq<T>,
    k: nat,
)
    requires
        adds_exactly(plus, zero, value),
        is_table_of(table, query, zero, plus),
        k <= code.len(),
        code.len() * 8 <= query.len(),
        running_sums(plus, table, code, sums),
        sums[0] == zero,
    ensures
        value(sums[k as int]) == set_bits_sum(query, value, code, k * 8),
    decreases k,
{
    if k > 0 {
        let j = (k - 1) as nat;
        lemma_running_bits(table, query, zero, plus, value, code, sums, j);
        assert(adds_byte(plus, table, code[j as int], j as int, sums[j as int], sums[k as int]));
        lemma_byte_sum(
            table,
            query,
            zero,
            plus,
            value,
            code,
            j,
            sums[j as int],
            sums[k as int],
        );
        assert(8 * j + 8 == k * 8 && 8 * j == j * 8);
    }
}

/// The smallest entry of a table in the total order.
pub open spec fn is_smallest(table: Seq<OrderedFloat>, x: OrderedFloat) -> bool {
    &&& table.contains(x)
    &&& forall|i: int| 0 <= i < table.len() ==> x.key <= (#[trigger] table[i]).key
}

/// The largest entry of a table in the total order.
pub open spec fn is_largest(table: Seq<OrderedFloat>, x: OrderedFloat) -> bool {
    &&& table.contains(x)
    &&& forall|i: int| 0 <= i < table.len() ==> (#[trigger] table[i]).key <= x.key
}

/// Scales the entries of a distance table to bytes.
///
/// `scale` maps an entry, given the smallest and the largest one, to its byte. A table whose
/// entries are all equal becomes all zeros.
pub fn quantize_dist_table<S: Fn(OrderedFloat, OrderedFloat, OrderedFloat) -> u8>(
    dist_table: &[OrderedFloat],
    scale: &S,
) -> (r: (OrderedFloat, OrderedFloat, Vec<u8>))
    requires
        dist_table@.len() > 0,
        forall|d: OrderedFloat, a: OrderedFloat, b: OrderedFloat| call_requires(scale, (d, a, b)),
    ensures
        is_smallest(dist_table@, r.0),
        is_largest(dist_table@, r.1),
        r.2@.len() == dist_table@.len(),
        forall|i: int|
            0 <= i < dist_table@.len() ==> if crate::ordered::float_eq(r.0, r.1) {
                #[trigger] r.2@[i] == 0
            } else {
                call_ensures(scale, (dist_table@[i], r.0, r.1), r.2@[i])
            },
{
    let mut qmin = dist_table[0];
    let mut qmax = dist_table[0];
    let mut i: usize = 1;
    while i < dist_table.len()
        invariant
            1 <= i <= dist_table@.len(),
            dist_table@.contains(qmin),
            dist_table@.contains(qmax),
            forall|j: int|
                0 <= j < i ==> qmin.key <= (#[trigger] dist_table@[j]).key && dist_table@[j].key
                    <= qmax.key,
        decreases dist_table@.len() - i,
    {
        let d = dist_table[i];
        assert(dist_table@.contains(d));
        if d.key < qmin.key {
            qmin = d;
        }
        if d.key > qmax.key {
            qmax = d;
        }
        i = i + 1;
    }
    let flat = qmin.float_eq(&qmax);
    let mut quantized: Vec<u8> = Vec::with_capacity(dist_table.len());
    let mut j: usize = 0;
    while j < dist_table.len()
        invariant
            j <= dist_table@.len(),
            quantized@.len() == j,
            flat == crate::ordered::float_eq(qmin, qmax),
            forall|d: OrderedFloat, a: OrderedFloat, b: OrderedFloat|
                call_requires(scale, (d, a, b)),
            forall|i: int|
                0 <= i < j ==> if crate::ordered::float_eq(qmin, qmax) {
                    #[trigger] quantized@[i] == 0
                } else {
                    call_ensures(scale, (dist_table@[i], qmin, qmax), quantized@[i])
                },
        decreases dist_table@.len() - j,
    {
        if flat {
            quantized.push(0);
        } else {
            let byte: u8 = scale(dist_table[j], qmin, qmax);
            quantized.push(byte);
        }
        j = j + 1;
    }
    (qmin, qmax, quantized)
}

/// The lowest bit of a number that is set is a power of two that divides it an odd number of times.
pub proof fn law_lowest_bit(x: nat) -> (b: nat)
    requires
        x > 0,
    ensures
        lowest_bit(x) == vstd::arithmetic::power2::pow2(b),
        exists|q: nat| q % 2 == 1 && x == #[trigger] (q * lowest_bit(x)),
    decreases x,
{
    if x % 2 == 1 {
        vstd::arithmetic::power2::lemma2_to64();
        assert(x == x * lowest_bit(x)) by {
            assert(lowest_bit(x) == 1);
        }
        0
    } else {
        let c = law_lowest_bit(x / 2);
        let q = choose|q: nat| q % 2 == 1 && x / 2 == #[trigger] (q * lowest_bit(x / 2));
        vstd::arithmetic::power2::lemma_pow2_unfold(c + 1);
        assert(q * lowest_bit(x) == 2 * (q * lowest_bit(x / 2))) by (nonlinear_arith)
            requires
                lowest_bit(x) == 2 * lowest_bit(x / 2),
        ;
        assert(q % 2 == 1 && x == q * lowest_bit(x));
        c + 1
    }
}

/// Where addition is exact, entry `j` of the table of four dimensions is the sum of those whose bits
/// are set in `j`, the lowest bit for the first.
pub proof fn law_segment_entry<T, A: Fn(T, T) -> T>(
    table: Seq<T>,
    sub_vec: Seq<T>,
    zero: T,
    plus: A,
    value: spec_fn(T) -> int,
    j: int,
)
    requires
        adds_exactly(plus, zero, value),
        is_segment_table(table, sub_vec, zero, plus),
        0 <= j < 16,
    ensures
        table.len() == 16,
        value(table[j]) == (j % 2) * value(sub_vec[0]) + (j / 2 % 2) * value(sub_vec[1]) + (j / 4
            % 2) * value(sub_vec[2]) + (j / 8 % 2) * value(sub_vec[3]),
{
    law_segment_table_sums_bits(table, sub_vec, value, j as nat);
    reveal_with_fuel(selected_sum, 5);
    assert(j / 2 / 2 == j / 4 && j / 4 / 2 == j / 8 && j / 8 / 2 == 0);
    let a = value(sub_vec[0]);
    let b = value(sub_vec[1]);
    let c = value(sub_vec[2]);
    let d = value(sub_vec[3]);
    assert((j % 2) * a == if j % 2 == 1 { a } else { 0 }) by (nonlinear_arith);
    assert((j / 2 % 2) * b == if j / 2 % 2 == 1 { b } else { 0 }) by (nonlinear_arith);
    assert((j / 4 % 2) * c == if j / 4 % 2 == 1 { c } else { 0 }) by (nonlinear_arith);
    assert((j / 8 % 2) * d == if j / 8 % 2 == 1 { d } else { 0 }) by (nonlinear_arith);
}

/// Where addition is exact, the table of a query has sixteen entries for every four of its dimensions,
/// each the sum of those that its place selects, and zeros behind them up to four for a dimension.
pub proof fn law_table_of_a_query<T, A: Fn(T, T) -> T>(
    table: Seq<T>,
    query: Seq<T>,
    zero: T,
    plus: A,
    value: spec_fn(T) -> int,
    s: int,
    j: int,
)
    requires
        adds_exactly(plus, zero, value),
        is_table_of(table, query, zero, plus),
        0 <= s,
        0 <= j < 16,
    ensures
        table.len() == 4 * query.len(),
        s < query.len() / 4 ==> value(table[s * 16 + j]) == (j % 2) * value(query[s * 4]) + (j / 2
            % 2) * value(query[s * 4 + 1]) + (j / 4 % 2) * value(query[s * 4 + 2]) + (j / 8 % 2)
            * value(query[s * 4 + 3]),
        s >= query.len() / 4 && s * 16 + j < table.len() ==> table[s * 16 + j] == zero,
{
    if s < query.len() / 4 {
        let segment = table.subrange(s * 16, s * 16 + 16);
        let part = query.subrange(s * 4, s * 4 + 4);
        law_segment_entry(segment, part, zero, plus, value, j);
        assert(segment[j] == table[s * 16 + j]);
    }
}

/// A code without bytes adds nothing, and one more byte adds, to what the bytes before it give, the
/// sum of the entry of its low half and that of its high half.
pub proof fn law_one_more_byte<T, A: Fn(T, T) -> T>(
    plus: A,
    table: Seq<T>,
    code: Seq<u8>,
    byte: u8,
    start: T,
    end: T,
) -> (r: (T, T))
    requires
        adds_up(plus, table, code.push(byte), start, end),
    ensures
        adds_up(plus, table, code, start, r.0),
        call_ensures(
            plus,
            (table[code.len() * 32 + byte % 16], table[code.len() * 32 + 16 + byte / 16]),
            r.1,
        ),
        call_ensures(plus, (r.0, r.1), end),
        code.len() == 0 ==> r.0 == start,
{
    let longer = code.push(byte);
    let n = code.len() as int;
    let sums = choose|sums: Seq<T>|
        #[trigger] running_sums(plus, table, longer, sums) && sums[0] == start && sums.last() == end;
    let fewer = sums.take(n + 1);
    assert(adds_byte(plus, table, longer[n], n, sums[n], sums[n + 1]));
    assert forall|i: int| 0 <= i < code.len() implies adds_byte(
        plus,
        table,
        #[trigger] code[i],
        i,
        fewer[i],
        fewer[i + 1],
    ) by {
        assert(longer[i] == code[i]);
    }
    assert(running_sums(plus, table, code, fewer));
    let pair = choose|pair: T|
        #[trigger] call_ensures(
            plus,
            (table[n * 32 + (byte & 0xF)], table[n * 32 + 16 + (byte >> 4)]),
            pair,
        ) && call_ensures(plus, (sums[n], pair), sums[n + 1]);
    assert(byte & 0xF == byte % 16 && byte >> 4 == byte / 16) by (bit_vector);
    (sums[n], pair)
}

/// A code without bytes adds nothing.
pub proof fn law_no_bytes_add_nothing<T, A: Fn(T, T) -> T>(plus: A, table: Seq<T>, start: T, end: T)
    requires
        adds_up(plus, table, Seq::<u8>::empty(), start, end),
    ensures
        end == start,
{
}

/// Where addition is exact, what a code adds is the sum, over every one of its bytes, of the table
/// entry of its low half and that of its high half.
pub proof fn law_code_adds_table_entries<T, A: Fn(T, T) -> T>(
    plus: A,
    table: Seq<T>,
    zero: T,
    value: spec_fn(T) -> int,
    code: Seq<u8>,
    start: T,
    end: T,
)
    requires
        adds_exactly(plus, zero, value),
        adds_up(plus, table, code, start, end),
    ensures
        value(end) == value(start) + Seq::new(
            code.len(),
            |i: int|
                value(table[i * 32 + code[i] % 16]) + value(table[i * 32 + 16 + code[i] / 16]),
        ).fold_left(0int, |sum: int, x: int| sum + x),
    decreases code.len(),
{
    let add_up = |sum: int, x: int| sum + x;
    let entries = Seq::new(
        code.len(),
        |i: int| value(table[i * 32 + code[i] % 16]) + value(table[i * 32 + 16 + code[i] / 16]),
    );
    if code.len() > 0 {
        let shorter = code.drop_last();
        assert(shorter.push(code.last()) =~= code);
        let (mid, pair) = law_one_more_byte(plus, table, shorter, code.last(), start, end);
        law_code_adds_table_entries(plus, table, zero, value, shorter, start, mid);
        let fewer = Seq::new(
            shorter.len(),
            |i: int|
                value(table[i * 32 + shorter[i] % 16]) + value(
                    table[i * 32 + 16 + shorter[i] / 16],
                ),
        );
        assert(entries.drop_last() =~= fewer);
        assert(entries.fold_left(0int, add_up) == fewer.fold_left(0int, add_up) + entries.last());
    } else {
        assert(code =~= Seq::<u8>::empty());
        law_no_bytes_add_nothing(plus, table, start, end);
    }
}

/// Bit `i` of a code is the digit of weight two to the `i % 8` of its byte `i / 8`.
pub proof fn law_bits_of_a_code(code: Seq<u8>, i: int)
    requires
        0 <= i,
    ensures
        bit_set(code, i) <==> code[i / 8] as int / vstd::arithmetic::power::pow(2, (i % 8) as nat) % 2
            == 1,
{
    let x = code[i / 8];
    reveal_with_fuel(vstd::arithmetic::power::pow, 9);
    assert({
        &&& (x >> 0u8) & 1 == x % 2
        &&& (x >> 1u8) & 1 == x / 2 % 2
        &&& (x >> 2u8) & 1 == x / 4 % 2
        &&& (x >> 3u8) & 1 == x / 8 % 2
        &&& (x >> 4u8) & 1 == x / 16 % 2
        &&& (x >> 5u8) & 1 == x / 32 % 2
        &&& (x >> 6u8) & 1 == x / 64 % 2
        &&& (x >> 7u8) & 1 == x / 128 % 2
    }) by (bit_vector);
}

/// The sums over the components of a query: over all, over those at the set bits of a code, and over
/// all with those elsewhere negated.
pub proof fn law_component_sums<T>(
    query: Seq<T>,
    value: spec_fn(T) -> int,
    code: Seq<u8>,
    n: nat,
)
    ensures
        component_sum(query, value, n) == Seq::new(n, |i: int| value(query[i])).fold_left(
            0int,
            |sum: int, x: int| sum + x,
        ),
        set_bits_sum(query, value, code, n) == Seq::new(
            n,
            |i: int|
                if bit_set(code, i) {
                    value(query[i])
                } else {
                    0
                },
        ).fold_left(0int, |sum: int, x: int| sum + x),
        signed_sum(query, value, code, n) == Seq::new(
            n,
            |i: int|
                if bit_set(code, i) {
                    value(query[i])
                } else {
                    -value(query[i])
                },
        ).fold_left(0int, |sum: int, x: int| sum + x),
    decreases n,
{
    if n > 0 {
        let m = (n - 1) as nat;
        law_component_sums(query, value, code, m);
        let all = |k: nat| Seq::new(k, |i: int| value(query[i]));
        let set = |k: nat|
            Seq::new(
                k,
                |i: int|
                    if bit_set(code, i) {
                        value(query[i])
                    } else {
                        0
                    },
            );
        let signed = |k: nat|
            Seq::new(
                k,
                |i: int|
                    if bit_set(code, i) {
                        value(query[i])
                    } else {
                        -value(query[i])
                    },
            );
        assert(all(n).drop_last() =~= all(m));
        assert(set(n).drop_last() =~= set(m));
        assert(signed(n).drop_last() =~= signed(m));
    }
}

/// A row that is laid out byte position by byte position has one byte of each.
pub proof fn law_transposed_code(
    codes: Seq<u8>,
    start: int,
    length: int,
    width: nat,
    row: int,
    col: int,
)
    requires
        0 <= col < width,
    ensures
        transposed_code(codes, start, length, width, row).len() == width,
        transposed_code(codes, start, length, width, row)[col] == codes[start + col * length + row],
{
}

/// The smallest and the largest entry of a table are entries of it, and every entry lies between
/// them.
pub proof fn law_extremes(table: Seq<OrderedFloat>, lo: OrderedFloat, hi: OrderedFloat, i: int)
    requires
        is_smallest(table, lo),
        is_largest(table, hi),
        0 <= i < table.len(),
    ensures
        table.contains(lo),
        table.contains(hi),
        lo.key <= table[i].key <= hi.key,
{
}

/// Every entry of the table of four dimensions but the first is the one without its lowest bit, plus
/// the dimension of that bit.
pub proof fn law_segment_steps<T, A: Fn(T, T) -> T>(
    table: Seq<T>,
    sub_vec: Seq<T>,
    zero: T,
    plus: A,
    j: int,
)
    requires
        is_segment_table(table, sub_vec, zero, plus),
        0 < j < 16,
    ensures
        table.len() == 16,
        table[0] == zero,
        j % 2 == 1 ==> call_ensures(plus, (table[j - 1], sub_vec[0]), table[j]),
        j % 4 == 2 ==> call_ensures(plus, (table[j - 2], sub_vec[1]), table[j]),
        j % 8 == 4 ==> call_ensures(plus, (table[j - 4], sub_vec[2]), table[j]),
        j % 16 == 8 ==> call_ensures(plus, (table[j - 8], sub_vec[3]), table[j]),
{
    lemma_lowest_bits_of_places(j);
    assert(call_ensures(
        plus,
        (table[j - lowest_bit(j as nat)], sub_vec[LOWBIT_IDX@[j] as int]),
        table[j],
    ));
}

/// The lowest bits of the places of a segment table.
proof fn lemma_lowest_bits_of_places(j: int)
    requires
        0 < j < 16,
    ensures
        j % 2 == 1 ==> lowest_bit(j as nat) == 1 && LOWBIT_IDX@[j] == 0,
        j % 4 == 2 ==> lowest_bit(j as nat) == 2 && LOWBIT_IDX@[j] == 1,
        j % 8 == 4 ==> lowest_bit(j as nat) == 4 && LOWBIT_IDX@[j] == 2,
        j % 16 == 8 ==> lowest_bit(j as nat) == 8 && LOWBIT_IDX@[j] == 3,
{
    reveal_with_fuel(lowest_bit, 5);
}

} // verus!
