//! From a query to a distance calculator.
//!
//! Numbers are of any kind `T`: the caller hands in what is done with them.
use vstd::prelude::*;

use crate::ordered::OrderedFloat;
use crate::vector::bq::search::RabitDistCalculator;
use crate::vector::bq::storage::{
    DataType, QueryFactor, RabitQuantizationStorage, RotateMatrix, Rotation,
};
use crate::vector::bq::table::{
    build_dist_table_direct, compute_rq_distance_flat, quantize_dist_table,
};

verus! {

/// What distances to a query are computed from.
#[derive(Debug)]
pub struct QueryTable<T> {
    /// The dimension of the query.
    pub dim: usize,
    /// The number of bits of a dimension.
    pub num_bits: u8,
    /// What every nibble of a code adds to a distance.
    pub dist_table: Vec<T>,
    /// The sum of the rotated query.
    pub sum_q: T,
    /// What the distance of the query to the centroid adds.
    pub query_factor: T,
}

/// `sums` are the sums that come up when values are added one after the other.
pub open spec fn running_totals<T, A: Fn(T, T) -> T>(
    plus: A,
    values: Seq<T>,
    sums: Seq<T>,
) -> bool {
    &&& sums.len() == values.len() + 1
    &&& forall|i: int|
        0 <= i < values.len() ==> call_ensures(
            plus,
            (sums[i], #[trigger] values[i]),
            sums[i + 1],
        )
}

/// `total` can come out when values are added to `zero` one after the other.
pub open spec fn totals<T, A: Fn(T, T) -> T>(plus: A, values: Seq<T>, zero: T, total: T) -> bool {
    exists|sums: Seq<T>|
        #[trigger] running_totals(plus, values, sums) && sums[0] == zero && sums.last() == total
}

/// Adds values up.
fn add_up<T: Copy, A: Fn(T, T) -> T>(values: &Vec<T>, zero: T, plus: &A) -> (total: T)
    requires
        forall|a: T, b: T| call_requires(plus, (a, b)),
    ensures
        totals(*plus, values@, zero, total),
{
    let mut total = zero;
    let ghost mut sums: Seq<T> = seq![zero];
    let mut i: usize = 0;
    while i < values.len()
        invariant
            i <= values@.len(),
            forall|a: T, b: T| call_requires(plus, (a, b)),
            sums.len() == i + 1,
            sums[0] == zero,
            sums.last() == total,
            forall|j: int|
                0 <= j < i ==> call_ensures(
                    *plus,
                    (sums[j], #[trigger] values@[j]),
                    sums[j + 1],
                ),
        decreases values@.len() - i,
    {
        total = plus(total, values[i]);
        proof {
            sums = sums.push(total);
        }
        i = i + 1;
    }
    assert(running_totals(*plus, values@, sums));
    total
}

impl RabitQuantizationStorage {
    /// `rotated` can come out when a query is rotated as the metadata says.
    pub open spec fn rotates_to<
        T,
        D: Fn(&RotateMatrix) -> Vec<T>,
        F: Fn(usize, &Vec<u8>) -> Vec<T>,
    >(&self, dense: D, fast: F, rotated: Vec<T>) -> bool {
        match self.spec_metadata().rotation_type {
            crate::vector::bq::storage::RQRotationType::Matrix => call_ensures(
                dense,
                (&self.spec_metadata().rotate_mat->0,),
                rotated,
            ),
            crate::vector::bq::storage::RQRotationType::Fast => exists|code_dim: usize|
                code_dim == self.spec_code_dim() && #[trigger] call_ensures(
                    fast,
                    (code_dim, &self.spec_metadata().fast_rotation_signs->0),
                    rotated,
                ),
        }
    }

    /// Prepares the computation of distances to a query of `dim` numbers.
    ///
    /// `dense` rotates the query by a matrix, `fast` by signs to a dimension; `dist_q_c` is the
    /// distance of the query to the centroid, and `minus_one` takes one from it.
    pub fn dist_calculator<
        T: Copy,
        D: Fn(&RotateMatrix) -> Vec<T>,
        F: Fn(usize, &Vec<u8>) -> Vec<T>,
        A: Fn(T, T) -> T,
        S: Fn(T) -> T,
    >(
        &self,
        dim: usize,
        query_type: DataType,
        dist_q_c: T,
        zero: T,
        dense: &D,
        fast: &F,
        plus: &A,
        minus_one: &S,
    ) -> (r: QueryTable<T>)
        requires
            self.can_rotate(query_type),
            self.spec_distance_type() != crate::vector::distance::DistanceType::Hamming,
            forall|mat: &RotateMatrix| call_requires(dense, (mat,)),
            forall|code_dim: usize, signs: &Vec<u8>| call_requires(fast, (code_dim, signs)),
            forall|a: T, b: T| call_requires(plus, (a, b)),
            forall|a: T| call_requires(minus_one, (a,)),
            forall|rotated: Vec<T>| #[trigger]
                self.rotates_to(*dense, *fast, rotated) ==> rotated@.len() * 4 <= usize::MAX,
        ensures
            r.dim == dim,
            r.num_bits == self.spec_metadata().num_bits,
            exists|rotated: Vec<T>|
                #[trigger] self.rotates_to(*dense, *fast, rotated) && crate::vector::bq::table::is_table_of(
                    r.dist_table@,
                    rotated@,
                    zero,
                    *plus,
                ) && totals(*plus, rotated@, zero, r.sum_q),
            if self.spec_distance_type() == crate::vector::distance::DistanceType::L2 {
                r.query_factor == dist_q_c
            } else {
                call_ensures(minus_one, (dist_q_c,), r.query_factor)
            },
    {
        let rotated: Vec<T> = match self.rotation(query_type) {
            Rotation::Dense { matrix } => dense(matrix),
            Rotation::Fast { code_dim, signs, query_type: _ } => fast(code_dim, signs),
        };
        assert(self.rotates_to(*dense, *fast, rotated));
        let dist_table = build_dist_table_direct(rotated.as_slice(), zero, plus);
        let sum_q = add_up(&rotated, zero, plus);
        let query_factor = match self.query_factor() {
            QueryFactor::Plain => dist_q_c,
            QueryFactor::MinusOne => minus_one(dist_q_c),
        };
        QueryTable { dim, num_bits: self.metadata().num_bits, dist_table, sum_q, query_factor }
    }
}

/// Turns the entries of a table into their places in the total order.
fn table_keys<T: Copy, K: Fn(T) -> OrderedFloat>(table: &Vec<T>, key: &K) -> (r: Vec<OrderedFloat>)
    requires
        forall|a: T| call_requires(key, (a,)),
    ensures
        r@.len() == table@.len(),
        forall|i: int|
            0 <= i < table@.len() ==> call_ensures(key, (table@[i],), #[trigger] r@[i]),
{
    let mut keys: Vec<OrderedFloat> = Vec::with_capacity(table.len());
    let mut i: usize = 0;
    while i < table.len()
        invariant
            i <= table@.len(),
            keys@.len() == i,
            forall|a: T| call_requires(key, (a,)),
            forall|j: int| 0 <= j < i ==> call_ensures(key, (table@[j],), #[trigger] keys@[j]),
        decreases table@.len() - i,
    {
        let k = key(table[i]);
        keys.push(k);
        i = i + 1;
    }
    keys
}

/// The keys are those of the entries of a table.
pub open spec fn are_keys<T, K: Fn(T) -> OrderedFloat>(
    table: Seq<T>,
    key: K,
    keys: Seq<OrderedFloat>,
) -> bool {
    &&& keys.len() == table.len()
    &&& forall|i: int|
        0 <= i < table.len() ==> call_ensures(key, (table[i],), #[trigger] keys[i])
}

/// The bytes are a table scaled between its smallest and its largest entry.
pub open spec fn is_quantized<S: Fn(OrderedFloat, OrderedFloat, OrderedFloat) -> u8>(
    keys: Seq<OrderedFloat>,
    scale: S,
    qmin: OrderedFloat,
    qmax: OrderedFloat,
    bytes: Seq<u8>,
) -> bool {
    &&& crate::vector::bq::table::is_smallest(keys, qmin)
    &&& crate::vector::bq::table::is_largest(keys, qmax)
    &&& bytes.len() == keys.len()
    &&& forall|i: int|
        0 <= i < keys.len() ==> if crate::ordered::float_eq(qmin, qmax) {
            #[trigger] bytes[i] == 0
        } else {
            call_ensures(scale, (keys[i], qmin, qmax), bytes[i])
        }
}

impl<T: Copy> QueryTable<T> {
    /// The calculator of quantized distances over the codes of a storage, with the smallest and
    /// the largest entry of the distance table.
    pub fn calculator<
        'a,
        K: Fn(T) -> OrderedFloat,
        S: Fn(OrderedFloat, OrderedFloat, OrderedFloat) -> u8,
    >(&self, storage: &'a RabitQuantizationStorage, key: &K, scale: &S) -> (r: (
        OrderedFloat,
        OrderedFloat,
        RabitDistCalculator<'a>,
    ))
        requires
            self.dim * self.num_bits <= usize::MAX,
            0 < (self.dim * self.num_bits) as nat / 8 <= 0x7fff_ffff,
            (self.dim * self.num_bits) as nat / 8 * 32 <= self.dist_table@.len(),
            forall|a: T| call_requires(key, (a,)),
            forall|d: OrderedFloat, a: OrderedFloat, b: OrderedFloat|
                call_requires(scale, (d, a, b)),
        ensures
            r.2.wf(),
            r.2.width() == (self.dim * self.num_bits) as nat / 8,
            r.2.count() == storage.packed_codes().len() / r.2.width(),
            r.2.codes() == storage.packed_codes().take(
                (storage.packed_codes().len() / r.2.width() * r.2.width()) as int,
            ),
            r.2.positive_scale() == crate::vector::bq::search::any_positive(
                storage.spec_scale_factors(),
            ),
            exists|keys: Seq<OrderedFloat>|
                #[trigger] are_keys(self.dist_table@, *key, keys) && is_quantized(
                    keys,
                    *scale,
                    r.0,
                    r.1,
                    r.2.table(),
                ),
    {
        let keys = table_keys(&self.dist_table, key);
        assert(are_keys(self.dist_table@, *key, keys@));
        let (qmin, qmax, bytes) = quantize_dist_table(keys.as_slice(), scale);
        assert(is_quantized(keys@, *scale, qmin, qmax, bytes@));
        let (_, scale_factors) = storage.factors();
        let calculator = RabitDistCalculator::new(
            self.dim,
            self.num_bits,
            bytes,
            storage.to_batches().codes.values.as_slice(),
            scale_factors,
        );
        (qmin, qmax, calculator)
    }
}

impl<T> QueryTable<T> {
    /// `sums` are what the codes of the rows after the last full group add up to, and zero for the
    /// rows of full groups.
    pub open spec fn rest_sums<A: Fn(T, T) -> T>(
        &self,
        storage: RabitQuantizationStorage,
        zero: T,
        plus: A,
        sums: Seq<T>,
    ) -> bool {
        &&& sums.len() == storage.spec_batch().row_ids@.len()
        &&& forall|row: int|
            0 <= row < sums.len() ==> if row < crate::vector::bq::codes::packed_count(sums.len()) {
                #[trigger] sums[row] == zero
            } else {
                crate::vector::bq::table::adds_up(
                    plus,
                    self.dist_table@,
                    storage.code(row),
                    zero,
                    sums[row],
                )
            }
    }
}

impl<T: Copy> QueryTable<T> {
    /// What the codes of the rows after the last full group add up to, before they become
    /// distances; zero for the rows of full groups.
    pub fn remainder_sums<A: Fn(T, T) -> T>(
        &self,
        storage: &RabitQuantizationStorage,
        zero: T,
        plus: &A,
    ) -> (r: Vec<T>)
        requires
            storage.wf(),
            self.dist_table@.len() / 32 == storage.width(),
            forall|a: T, b: T| call_requires(plus, (a, b)),
        ensures
            self.rest_sums(*storage, zero, *plus, r@),
    {
        let codes: &Vec<u8> = &storage.to_batches().codes.values;
        let n: usize = storage.len();
        let remainder: usize = n % 32;
        let offset: usize = n - remainder;
        let mut sums: Vec<T> = Vec::with_capacity(n);
        let mut i: usize = 0;
        while i < n
            invariant
                i <= n,
                sums@.len() == i,
                forall|j: int| 0 <= j < i ==> #[trigger] sums@[j] == zero,
            decreases n - i,
        {
            sums.push(zero);
            i = i + 1;
        }
        if remainder > 0 {
            let ghost before = sums@;
            let ghost width = storage.width();
            proof {
                crate::vector::bq::codes::lemma_len_times_width(storage.spec_batch().codes);
                assert(offset + remainder == n);
                assert(codes@.len() == n * width);
            }
            compute_rq_distance_flat(
                self.dist_table.as_slice(),
                codes.as_slice(),
                offset,
                remainder,
                &mut sums,
                plus,
            );
            proof {
                assert(crate::vector::bq::codes::packed_count(n as nat) == offset);
                assert forall|row: int| offset <= row < n implies crate::vector::bq::table::adds_up(
                    *plus,
                    self.dist_table@,
                    storage.code(row),
                    zero,
                    #[trigger] sums@[row],
                ) by {
                    crate::vector::bq::table::law_rest_is_transposed(
                        codes@,
                        n as nat,
                        width,
                        row,
                    );
                    let r = row - offset;
                    assert(before[offset + r] == zero);
                    assert(storage.code(row) == crate::vector::bq::table::transposed_code(
                        codes@,
                        offset * (self.dist_table@.len() / 32),
                        remainder as int,
                        self.dist_table@.len() / 32,
                        r,
                    ));
                }
            }
        }
        sums
    }
}

/// The rows after the last full group get the distance that a single row gets.
///
/// `single` is what the code of the row adds up to on its own, and `finalize` turns what a code adds
/// up to into a distance.
pub proof fn law_rest_gets_the_distance_of_a_row<T, A, P, E, F>(
    table: QueryTable<T>,
    storage: RabitQuantizationStorage,
    calculator: RabitDistCalculator,
    zero: T,
    plus: A,
    finalize: F,
    packed: P,
    exact: E,
    rest: Seq<T>,
    dists: Seq<OrderedFloat>,
    id: int,
    single: T,
    dist: OrderedFloat,
) where
    A: Fn(T, T) -> T,
    P: Fn(usize, u64) -> OrderedFloat,
    E: Fn(usize) -> OrderedFloat,
    F: Fn(usize, T) -> OrderedFloat,

    requires
        forall|x: T, y: T, r: T, s: T|
            #[trigger] call_ensures(plus, (x, y), r) && #[trigger] call_ensures(plus, (x, y), s)
                ==> r == s,
        forall|i: usize, x: T, a: OrderedFloat, b: OrderedFloat|
            #[trigger] call_ensures(finalize, (i, x), a) && #[trigger] call_ensures(
                finalize,
                (i, x),
                b,
            ) ==> a == b,
        table.rest_sums(storage, zero, plus, rest),
        forall|i: usize, k: OrderedFloat|
            i < rest.len() && #[trigger] call_ensures(exact, (i,), k) ==> call_ensures(
                finalize,
                (i, rest[i as int]),
                k,
            ),
        calculator.count() == storage.spec_batch().row_ids@.len(),
        calculator.count() <= usize::MAX,
        calculator.all_distances(packed, exact, dists),
        calculator.packed_rows() <= id < calculator.count(),
        crate::vector::bq::table::adds_up(
            plus,
            table.dist_table@,
            storage.code(id),
            zero,
            single,
        ),
        call_ensures(finalize, (id as usize, single), dist),
    ensures
        dists.len() == calculator.count(),
        dists[id] == dist,
{
    crate::vector::bq::table::law_adds_up_to_one(
        plus,
        table.dist_table@,
        storage.code(id),
        zero,
        rest[id],
        single,
    );
    assert(call_ensures(exact, (id as usize,), dists[id]));
    assert(call_ensures(finalize, (id as usize, rest[id]), dists[id]));
}

/// `dist` is a distance of a row of a storage: what its code adds up to, with its two factors.
pub open spec fn row_distance<T, A, F>(
    storage: RabitQuantizationStorage,
    row: int,
    table: QueryTable<T>,
    zero: T,
    plus: A,
    finalize: F,
    dist: OrderedFloat,
) -> bool where
    A: Fn(T, T) -> T,
    F: Fn(T, OrderedFloat, OrderedFloat) -> OrderedFloat,
 {
    exists|sum: T|
        crate::vector::bq::table::adds_up(
            plus,
            table.dist_table@,
            storage.code(row),
            zero,
            sum,
        ) && #[trigger] call_ensures(
            finalize,
            (sum, storage.spec_add_factors()[row], storage.spec_scale_factors()[row]),
            dist,
        )
}

/// A row that stays under a remapping keeps its distance to every query.
///
/// `finalize` turns what a code adds up to, and the two factors of a row, into a distance.
pub proof fn law_remapped_rows_keep_their_distance<T, A, F>(
    before: RabitQuantizationStorage,
    mapping: Map<u64, Option<u64>>,
    after: RabitQuantizationStorage,
    row: int,
    table: QueryTable<T>,
    zero: T,
    plus: A,
    finalize: F,
) -> (i: int) where
    A: Fn(T, T) -> T,
    F: Fn(T, OrderedFloat, OrderedFloat) -> OrderedFloat,

    requires
        forall|x: T, y: T, r: T, s: T|
            #[trigger] call_ensures(plus, (x, y), r) && #[trigger] call_ensures(plus, (x, y), s)
                ==> r == s,
        forall|x: T, y: OrderedFloat, z: OrderedFloat, a: OrderedFloat, b: OrderedFloat|
            #[trigger] call_ensures(finalize, (x, y, z), a) && #[trigger] call_ensures(
                finalize,
                (x, y, z),
                b,
            ) ==> a == b,
        before.wf(),
        before.remapped(mapping, after),
        0 <= row < before.spec_batch().row_ids@.len(),
        crate::vector::bq::storage::new_id(mapping, before.spec_batch().row_ids@[row]) is Some,
    ensures
        0 <= i < after.spec_batch().row_ids@.len(),
        crate::vector::bq::storage::new_id(mapping, before.spec_batch().row_ids@[row]) == Some(
            after.spec_batch().row_ids@[i],
        ),
        forall|old_dist: OrderedFloat, new_dist: OrderedFloat|
            #[trigger] row_distance(before, row, table, zero, plus, finalize, old_dist)
                && #[trigger] row_distance(after, i, table, zero, plus, finalize, new_dist)
                ==> old_dist == new_dist,
{
    let i = crate::vector::bq::storage::law_remap_leaves_rows_alone(before, mapping, after, row);
    assert forall|old_dist: OrderedFloat, new_dist: OrderedFloat|
        #[trigger] row_distance(before, row, table, zero, plus, finalize, old_dist)
            && #[trigger] row_distance(
            after,
            i,
            table,
            zero,
            plus,
            finalize,
            new_dist,
        ) implies old_dist == new_dist by {
        let adds = |sum: T|
            crate::vector::bq::table::adds_up(
                plus,
                table.dist_table@,
                before.code(row),
                zero,
                sum,
            );
        let old_sum = choose|sum: T|
            adds(sum) && #[trigger] call_ensures(
                finalize,
                (sum, before.spec_add_factors()[row], before.spec_scale_factors()[row]),
                old_dist,
            );
        let new_sum = choose|sum: T|
            adds(sum) && #[trigger] call_ensures(
                finalize,
                (sum, after.spec_add_factors()[i], after.spec_scale_factors()[i]),
                new_dist,
            );
        crate::vector::bq::table::law_adds_up_to_one(
            plus,
            table.dist_table@,
            before.code(row),
            zero,
            old_sum,
            new_sum,
        );
    }
    i
}

/// Where addition is exact, the sum of a rotated query is the sum of its components.
proof fn lemma_total<T, A: Fn(T, T) -> T>(
    plus: A,
    query: Seq<T>,
    zero: T,
    value: spec_fn(T) -> int,
    sums: Seq<T>,
    n: nat,
)
    requires
        crate::vector::bq::table::adds_exactly(plus, zero, value),
        running_totals(plus, query, sums),
        sums[0] == zero,
        n <= query.len(),
    ensures
        value(sums[n as int]) == crate::vector::bq::table::component_sum(query, value, n),
    decreases n,
{
    if n > 0 {
        lemma_total(plus, query, zero, value, sums, (n - 1) as nat);
        assert(call_ensures(plus, (sums[n - 1], query[n - 1]), sums[n as int]));
    }
}

/// Where addition is exact, the code of a vector that was packed gives the product of the query with
/// the signs of the vector: twice what its code adds up to, less the sum of the query, is the sum of
/// the components of the query, each as it is where the bit of the code is set and negated elsewhere.
pub proof fn law_packed_code_gives_the_signed_sum<T, A: Fn(T, T) -> T>(
    codes: Seq<u8>,
    width: nat,
    n: nat,
    id: int,
    table: Seq<T>,
    query: Seq<T>,
    zero: T,
    plus: A,
    value: spec_fn(T) -> int,
    sum_q: T,
    sum: T,
)
    requires
        width > 0,
        codes.len() == n * width,
        0 <= id < n,
        query.len() == 8 * width,
        crate::vector::bq::table::adds_exactly(plus, zero, value),
        crate::vector::bq::table::is_table_of(table, query, zero, plus),
        totals(plus, query, zero, sum_q),
        crate::vector::bq::table::adds_up(
            plus,
            table,
            crate::vector::bq::codes::rq_code(
                crate::vector::bq::codes::packed(codes, width, n),
                id,
                n,
                width,
            ),
            zero,
            sum,
        ),
    ensures
        2 * value(sum) - value(sum_q) == crate::vector::bq::table::signed_sum(
            query,
            value,
            codes.subrange(id * width, (id + 1) * width),
            query.len(),
        ),
{
    let code = codes.subrange(id * width, (id + 1) * width);
    crate::vector::bq::codes::law_rq_code_of_packed(codes, width, n, id);
    assert((id + 1) * width == id * width + width) by (nonlinear_arith);
    assert(0 <= id * width && (id + 1) * width <= n * width) by (nonlinear_arith)
        requires
            0 <= id < n,
    ;
    crate::vector::bq::table::law_code_sums_set_bits(table, query, zero, plus, value, code, sum);
    crate::vector::bq::table::law_signed_sum(query, value, code, query.len());
    let sums = choose|sums: Seq<T>|
        #[trigger] running_totals(plus, query, sums) && sums[0] == zero && sums.last() == sum_q;
    lemma_total(plus, query, zero, value, sums, query.len());
}

/// How a query is rotated: by the matrix where rotation is by one, and else by the signs to the
/// dimension of the codes.
pub proof fn law_rotation<T, D: Fn(&RotateMatrix) -> Vec<T>, F: Fn(usize, &Vec<u8>) -> Vec<T>>(
    storage: RabitQuantizationStorage,
    dense: D,
    fast: F,
    rotated: Vec<T>,
)
    requires
        storage.rotates_to(dense, fast, rotated),
    ensures
        storage.spec_metadata().rotation_type
            == crate::vector::bq::storage::RQRotationType::Matrix ==> call_ensures(
            dense,
            (&storage.spec_metadata().rotate_mat->0,),
            rotated,
        ),
        storage.spec_metadata().rotation_type == crate::vector::bq::storage::RQRotationType::Fast
            ==> call_ensures(
            fast,
            (
                storage.spec_code_dim() as usize,
                &storage.spec_metadata().fast_rotation_signs->0,
            ),
            rotated,
        ),
{
}

/// Values are added one after the other, each to what those before it give.
pub proof fn law_one_more_value<T, A: Fn(T, T) -> T>(
    plus: A,
    values: Seq<T>,
    last: T,
    zero: T,
    total: T,
) -> (before: T)
    requires
        totals(plus, values.push(last), zero, total),
    ensures
        totals(plus, values, zero, before),
        call_ensures(plus, (before, last), total),
        values.len() == 0 ==> before == zero,
{
    let longer = values.push(last);
    let n = values.len() as int;
    let sums = choose|sums: Seq<T>|
        #[trigger] running_totals(plus, longer, sums) && sums[0] == zero && sums.last() == total;
    let fewer = sums.take(n + 1);
    assert(call_ensures(plus, (sums[n], longer[n]), sums[n + 1]));
    assert forall|i: int| 0 <= i < values.len() implies call_ensures(
        plus,
        (fewer[i], #[trigger] values[i]),
        fewer[i + 1],
    ) by {
        assert(longer[i] == values[i]);
    }
    assert(running_totals(plus, values, fewer));
    sums[n]
}

/// Where addition is exact, a total is the sum of its values.
pub proof fn law_total_is_the_sum<T, A: Fn(T, T) -> T>(
    plus: A,
    values: Seq<T>,
    zero: T,
    value: spec_fn(T) -> int,
    total: T,
)
    requires
        crate::vector::bq::table::adds_exactly(plus, zero, value),
        totals(plus, values, zero, total),
    ensures
        value(total) == Seq::new(values.len(), |i: int| value(values[i])).fold_left(
            0int,
            |sum: int, x: int| sum + x,
        ),
{
    let sums = choose|sums: Seq<T>|
        #[trigger] running_totals(plus, values, sums) && sums[0] == zero && sums.last() == total;
    lemma_total(plus, values, zero, value, sums, values.len());
    crate::vector::bq::table::law_component_sums(values, value, Seq::empty(), values.len());
}

/// A quantized table has one byte for each entry: zero where all entries are equal as floats, and
/// else what scaling the entry between the smallest and the largest gives.
pub proof fn law_quantized_table<
    T,
    K: Fn(T) -> OrderedFloat,
    S: Fn(OrderedFloat, OrderedFloat, OrderedFloat) -> u8,
>(
    table: Seq<T>,
    key: K,
    keys: Seq<OrderedFloat>,
    scale: S,
    qmin: OrderedFloat,
    qmax: OrderedFloat,
    bytes: Seq<u8>,
    i: int,
)
    requires
        are_keys(table, key, keys),
        is_quantized(keys, scale, qmin, qmax, bytes),
        0 <= i < table.len(),
    ensures
        bytes.len() == table.len(),
        keys.len() == table.len(),
        call_ensures(key, (table[i],), keys[i]),
        keys.contains(qmin),
        keys.contains(qmax),
        qmin.key <= keys[i].key <= qmax.key,
        crate::ordered::float_eq(qmin, qmax) ==> bytes[i] == 0,
        !crate::ordered::float_eq(qmin, qmax) ==> call_ensures(
            scale,
            (keys[i], qmin, qmax),
            bytes[i],
        ),
{
    crate::vector::bq::table::law_extremes(keys, qmin, qmax, i);
}

/// Sums of the rows behind the last full group: one for each row, zero for those in full groups of
/// 32, and for the others what their codes add up to.
pub proof fn law_sums_of_the_rest<T, A: Fn(T, T) -> T>(
    table: QueryTable<T>,
    storage: RabitQuantizationStorage,
    zero: T,
    plus: A,
    sums: Seq<T>,
    row: int,
)
    requires
        table.rest_sums(storage, zero, plus, sums),
        0 <= row < storage.spec_batch().row_ids@.len(),
    ensures
        sums.len() == storage.spec_batch().row_ids@.len(),
        row < sums.len() / 32 * 32 ==> sums[row] == zero,
        row >= sums.len() / 32 * 32 ==> crate::vector::bq::table::adds_up(
            plus,
            table.dist_table@,
            storage.code(row),
            zero,
            sums[row],
        ),
{
}

} // verus!
