//! Flat vector index.
use vstd::prelude::*;

use crate::error::Error;
use crate::ordered::OrderedFloat;
use crate::topk::{push_topk_result, NodeHeap, OrderedNode};
use crate::vector::bq::search::RabitDistCalculator;
use crate::vector::distance::DistanceType;
use crate::vector::quantizer::{QuantizationType, Quantizer};
use crate::vector::query::Query;

verus! {

pub const FLAT_COLUMN: &'static str = "flat";

/// The place of the smallest finite float in the total order.
pub const MIN_KEY: i32 = -0x7f80_0000;

/// The place of the largest finite float in the total order.
pub const MAX_KEY: i32 = 0x7f7f_ffff;

/// A flat index stores no metadata; a query scans over the storage and returns the top results.
#[derive(Debug, Clone, Copy, PartialEq, Eq, Structural)]
pub struct FlatIndex {}

impl Default for FlatIndex {
    fn default() -> (r: Self)
        ensures
            r == (FlatIndex {  }),
    {
        FlatIndex {  }
    }
}

/// What a flat search is asked for.
#[derive(Debug, Clone, Copy, PartialEq, Eq, Structural)]
pub struct FlatQueryParams {
    pub lower_bound: Option<OrderedFloat>,
    pub upper_bound: Option<OrderedFloat>,
    pub dist_q_c: OrderedFloat,
}

impl Default for FlatQueryParams {
    fn default() -> (r: Self)
        ensures
            r.lower_bound is None,
            r.upper_bound is None,
            r.dist_q_c.key == 0,
    {
        FlatQueryParams {
            lower_bound: None,
            upper_bound: None,
            dist_q_c: OrderedFloat { key: 0 },
        }
    }
}

impl From<&Query> for FlatQueryParams {
    fn from(q: &Query) -> (r: Self) {
        FlatQueryParams {
            lower_bound: q.lower_bound,
            upper_bound: q.upper_bound,
            dist_q_c: q.dist_q_c,
        }
    }
}

impl vstd::std_specs::convert::FromSpecImpl<&Query> for FlatQueryParams {
    open spec fn obeys_from_spec() -> bool {
        true
    }

    open spec fn from_spec(q: &Query) -> Self {
        FlatQueryParams {
            lower_bound: q.lower_bound,
            upper_bound: q.upper_bound,
            dist_q_c: q.dist_q_c,
        }
    }
}

impl FlatQueryParams {
    /// Some bound is set.
    pub open spec fn is_range(&self) -> bool {
        self.lower_bound is Some || self.upper_bound is Some
    }

    /// The distance lies in the range that is asked for: from the lower bound on, and below the
    /// upper one. In a range, a bound that is not set is the outermost finite float.
    pub open spec fn in_range(&self, dist: OrderedFloat) -> bool {
        self.is_range() ==> {
            let lower = match self.lower_bound {
                Some(b) => b.key,
                None => MIN_KEY,
            };
            let upper = match self.upper_bound {
                Some(b) => b.key,
                None => MAX_KEY,
            };
            lower <= dist.key < upper
        }
    }

    /// Whether some bound is set.
    pub fn has_range(&self) -> (r: bool)
        ensures
            r == self.is_range(),
    {
        self.lower_bound.is_some() || self.upper_bound.is_some()
    }

    /// Whether a distance lies in the range that is asked for.
    pub fn admits(&self, dist: &OrderedFloat) -> (r: bool)
        ensures
            r == self.in_range(*dist),
            self.lower_bound is None && self.upper_bound is None ==> r,
            self.lower_bound is None && self.upper_bound is Some ==> r == (-0x7f80_0000 <= dist.key
                && dist.key < self.upper_bound->0.key),
            self.lower_bound is Some && self.upper_bound is None ==> r == (
            self.lower_bound->0.key <= dist.key && dist.key < 0x7f7f_ffff),
            self.lower_bound is Some && self.upper_bound is Some ==> r == (
            self.lower_bound->0.key <= dist.key && dist.key < self.upper_bound->0.key),
    {
        if !self.has_range() {
            return true;
        }
        let lower: i32 = match self.lower_bound {
            Some(b) => b.key,
            None => MIN_KEY,
        };
        let upper: i32 = match self.upper_bound {
            Some(b) => b.key,
            None => MAX_KEY,
        };
        lower <= dist.key && dist.key < upper
    }
}

/// The rows that a search found: their distances and their ids, in no given order.
#[derive(Debug, Clone)]
pub struct SearchResult {
    pub distances: Vec<OrderedFloat>,
    pub row_ids: Vec<u64>,
}

impl View for SearchResult {
    type V = Seq<OrderedNode>;

    open spec fn view(&self) -> Seq<OrderedNode> {
        crate::topk::zipped(self.row_ids@, self.distances@)
    }
}

/// What a search took.
#[derive(Debug, Clone, Copy, PartialEq, Eq, Structural)]
pub struct SearchMetrics {
    pub comparisons: usize,
    pub pruned_rows: usize,
}

/// The rows among the first `n` that the filter selects and whose distance is in range.
pub open spec fn candidates(
    nodes: Seq<OrderedNode>,
    params: FlatQueryParams,
    prefilter: Option<Seq<bool>>,
    n: nat,
) -> Seq<OrderedNode>
    decreases n,
{
    if n == 0 {
        Seq::empty()
    } else {
        let before = candidates(nodes, params, prefilter, (n - 1) as nat);
        if (prefilter matches Some(mask) ==> mask[n - 1]) && params.in_range(nodes[n - 1].dist) {
            before.push(nodes[n - 1])
        } else {
            before
        }
    }
}

/// More rows give no fewer candidates.
proof fn lemma_candidates_grow(
    nodes: Seq<OrderedNode>,
    params: FlatQueryParams,
    prefilter: Option<Seq<bool>>,
    a: nat,
    b: nat,
)
    requires
        a <= b,
    ensures
        candidates(nodes, params, prefilter, a).len() <= candidates(
            nodes,
            params,
            prefilter,
            b,
        ).len(),
    decreases b,
{
    if a < b {
        lemma_candidates_grow(nodes, params, prefilter, a, (b - 1) as nat);
    }
}

/// The view of a filter that may be there.
pub open spec fn filter_view(prefilter: Option<&[bool]>) -> Option<Seq<bool>> {
    match prefilter {
        Some(mask) => Some(mask@),
        None => None,
    }
}

/// Takes nodes apart.
fn unzip(nodes: Vec<OrderedNode>) -> (r: SearchResult)
    ensures
        r@ == nodes@,
        r.row_ids@.len() == r.distances@.len(),
{
    let mut distances: Vec<OrderedFloat> = Vec::with_capacity(nodes.len());
    let mut row_ids: Vec<u64> = Vec::with_capacity(nodes.len());
    let mut i: usize = 0;
    while i < nodes.len()
        invariant
            i <= nodes@.len(),
            distances@.len() == i,
            row_ids@.len() == i,
            forall|j: int|
                0 <= j < i ==> (#[trigger] nodes@[j]).id == row_ids@[j] && nodes@[j].dist
                    == distances@[j],
        decreases nodes@.len() - i,
    {
        distances.push(nodes[i].dist);
        row_ids.push(nodes[i].id);
        i = i + 1;
    }
    let r = SearchResult { distances, row_ids };
    assert(r@ =~= nodes@);
    r
}

impl FlatIndex {
    pub fn name() -> (r: &'static str)
        ensures
            r@ == "FLAT"@,
    {
        "FLAT"
    }

    pub fn metadata_key() -> (r: &'static str)
        ensures
            r@ == "lance:flat"@,
    {
        "lance:flat"
    }

    /// Whether some row is selected and in range.
    pub fn has_candidate(
        &self,
        params: &FlatQueryParams,
        row_ids: &[u64],
        dists: &[OrderedFloat],
        prefilter: Option<&[bool]>,
    ) -> (r: bool)
        requires
            prefilter matches Some(mask) ==> mask@.len() == row_ids@.len() && dists@.len()
                == row_ids@.len(),
        ensures
            r == (candidates(
                crate::topk::zipped(row_ids@, dists@),
                *params,
                filter_view(prefilter),
                crate::topk::zipped(row_ids@, dists@).len(),
            ).len() > 0),
    {
        let n: usize = if row_ids.len() < dists.len() {
            row_ids.len()
        } else {
            dists.len()
        };
        let ghost nodes = crate::topk::zipped(row_ids@, dists@);
        let ghost filter = filter_view(prefilter);
        let mut i: usize = 0;
        while i < n
            invariant
                i <= n,
                n == nodes.len(),
                n <= row_ids@.len(),
                n <= dists@.len(),
                filter == filter_view(prefilter),
                prefilter matches Some(mask) ==> mask@.len() == n,
                nodes == crate::topk::zipped(row_ids@, dists@),
                candidates(nodes, *params, filter, i as nat).len() == 0,
            decreases n - i,
        {
            let selected: bool = match prefilter {
                Some(mask) => mask[i],
                None => true,
            };
            if selected && params.admits(&dists[i]) {
                proof {
                    lemma_candidates_grow(nodes, *params, filter, (i + 1) as nat, n as nat);
                }
                return true;
            }
            i = i + 1;
        }
        false
    }

    /// Searches the rows for the `k` nearest ones.
    ///
    /// `dists` are the distances of the rows; where there is a filter, only those of the rows that
    /// it selects are looked at. Rows without a distance are left aside.
    pub fn search(
        &self,
        k: usize,
        params: &FlatQueryParams,
        row_ids: &[u64],
        dists: &[OrderedFloat],
        prefilter: Option<&[bool]>,
    ) -> (r: (SearchResult, SearchMetrics))
        requires
            prefilter matches Some(mask) ==> mask@.len() == row_ids@.len() && dists@.len()
                == row_ids@.len(),
            k > 0 || candidates(
                crate::topk::zipped(row_ids@, dists@),
                *params,
                filter_view(prefilter),
                crate::topk::zipped(row_ids@, dists@).len(),
            ).len() == 0,
        ensures
            r.0.row_ids@.len() == r.0.distances@.len(),
            crate::topk::offered(
                r.0@.to_multiset(),
                candidates(
                    crate::topk::zipped(row_ids@, dists@),
                    *params,
                    filter_view(prefilter),
                    crate::topk::zipped(row_ids@, dists@).len(),
                ),
                k as nat,
            ),
            crate::topk::is_top_k(
                r.0@.to_multiset(),
                candidates(
                    crate::topk::zipped(row_ids@, dists@),
                    *params,
                    filter_view(prefilter),
                    crate::topk::zipped(row_ids@, dists@).len(),
                ).to_multiset(),
                k as nat,
            ),
            r.1.comparisons == row_ids@.len(),
            r.1.pruned_rows == 0,
    {
        let n: usize = if row_ids.len() < dists.len() {
            row_ids.len()
        } else {
            dists.len()
        };
        let ghost nodes = crate::topk::zipped(row_ids@, dists@);
        let ghost filter = filter_view(prefilter);
        let mut res = NodeHeap::new();
        proof {
            crate::topk::lemma_nothing_selected(candidates(nodes, *params, filter, 0), k as nat);
        }
        let mut i: usize = 0;
        while i < n
            invariant
                i <= n,
                n == nodes.len(),
                n <= row_ids@.len(),
                n <= dists@.len(),
                filter == filter_view(prefilter),
                prefilter matches Some(mask) ==> mask@.len() == n,
                nodes == crate::topk::zipped(row_ids@, dists@),
                res.wf(),
                crate::topk::offered(
                    res@,
                    candidates(nodes, *params, filter, i as nat),
                    k as nat,
                ),
            decreases n - i,
        {
            let selected: bool = match prefilter {
                Some(mask) => mask[i],
                None => true,
            };
            if selected && params.admits(&dists[i]) {
                let ghost before = res@;
                let ghost found = candidates(nodes, *params, filter, i as nat);
                let candidate = OrderedNode::new(row_ids[i], dists[i]);
                push_topk_result(&mut res, candidate, k);
                proof {
                    assert(candidate == nodes[i as int]);
                    crate::topk::lemma_offer_one(before, res@, found, candidate, k as nat);
                    assert(candidates(nodes, *params, filter, (i + 1) as nat) == found.push(
                        candidate,
                    ));
                }
            }
            i = i + 1;
        }
        proof {
            crate::topk::law_offered_is_top_k(
                res@,
                candidates(nodes, *params, filter, n as nat),
                k as nat,
            );
        }
        (unzip(res.into_vec()), SearchMetrics { comparisons: row_ids.len(), pruned_rows: 0 })
    }

    /// The distances of the rows that a filter selects.
    fn selected_distances<D: Fn(usize) -> OrderedFloat>(
        &self,
        mask: &[bool],
        distance: &D,
    ) -> (r: Vec<OrderedFloat>)
        requires
            forall|id: usize| id < mask@.len() ==> #[trigger] call_requires(distance, (id,)),
        ensures
            r@.len() == mask@.len(),
            forall|id: int|
                0 <= id < mask@.len() && mask@[id] ==> call_ensures(
                    distance,
                    (id as usize,),
                    #[trigger] r@[id],
                ),
    {
        let n: usize = mask.len();
        let mut dists: Vec<OrderedFloat> = Vec::with_capacity(n);
        let mut id: usize = 0;
        while id < n
            invariant
                id <= n,
                n == mask@.len(),
                dists@.len() == id,
                forall|id: usize| id < n ==> #[trigger] call_requires(distance, (id,)),
                forall|j: int|
                    0 <= j < id && mask@[j] ==> call_ensures(
                        distance,
                        (j as usize,),
                        #[trigger] dists@[j],
                    ),
            decreases n - id,
        {
            let dist = if mask[id] {
                distance(id)
            } else {
                OrderedFloat { key: 0 }
            };
            dists.push(dist);
            id = id + 1;
        }
        dists
    }

    /// What a search over RabitQ codes finds, and what it takes.
    pub open spec fn rabit_found<
        P: Fn(usize, u64) -> OrderedFloat,
        E: Fn(usize) -> OrderedFloat,
        D: Fn(usize) -> OrderedFloat,
    >(
        &self,
        k: nat,
        params: FlatQueryParams,
        calculator: RabitDistCalculator,
        row_ids: Seq<u64>,
        prefilter: Option<Seq<bool>>,
        packed: P,
        exact: E,
        distance: D,
        found: Seq<OrderedNode>,
        metrics: SearchMetrics,
    ) -> bool {
        if prefilter is None && !params.is_range() {
            exists|stats: crate::vector::bq::search::RabitTopKSearchStats|
                #[trigger] calculator.found(packed, exact, row_ids, k, found, stats)
                    && metrics.comparisons == stats.searched_rows && metrics.pruned_rows
                    == stats.pruned_rows
        } else {
            &&& metrics.comparisons == row_ids.len()
            &&& metrics.pruned_rows == 0
            &&& match prefilter {
                None => crate::topk::offered(
                    found.to_multiset(),
                    candidates(
                        crate::topk::zipped(row_ids, calculator.row_keys(packed, exact)),
                        params,
                        None,
                        row_ids.len(),
                    ),
                    k,
                ),
                Some(mask) => exists|dists: Seq<OrderedFloat>|
                    #[trigger] selected_dists(dists, mask, distance) && crate::topk::offered(
                        found.to_multiset(),
                        candidates(
                            crate::topk::zipped(row_ids, dists),
                            params,
                            prefilter,
                            row_ids.len(),
                        ),
                        k,
                    ),
            }
        }
    }

    /// Searches rows that are stored as RabitQ codes.
    ///
    /// Without bounds and without a filter, groups of rows that cannot be among the nearest ones
    /// are skipped. `packed` and `exact` give the distances of a scan, `distance` that of a single
    /// row.
    pub fn search_rabit<
        P: Fn(usize, u64) -> OrderedFloat,
        E: Fn(usize) -> OrderedFloat,
        D: Fn(usize) -> OrderedFloat,
    >(
        &self,
        k: usize,
        params: &FlatQueryParams,
        calculator: &RabitDistCalculator,
        row_ids: &[u64],
        prefilter: Option<&[bool]>,
        packed: &P,
        exact: &E,
        distance: &D,
    ) -> (r: (SearchResult, SearchMetrics))
        requires
            calculator.wf(),
            row_ids@.len() == calculator.count(),
            prefilter matches Some(mask) ==> mask@.len() == row_ids@.len(),
            crate::vector::bq::search::packed_function(*packed, calculator.count()),
            crate::vector::bq::search::exact_function(*exact, calculator.count()),
            forall|id: usize|
                id < row_ids@.len() ==> #[trigger] call_requires(distance, (id,)),
            k > 0 || (prefilter is None && !params.is_range()) || nothing_to_find(
                *params,
                *calculator,
                row_ids@,
                filter_view(prefilter),
                *packed,
                *exact,
                *distance,
            ),
        ensures
            r.0.row_ids@.len() == r.0.distances@.len(),
            self.rabit_found(
                k as nat,
                *params,
                *calculator,
                row_ids@,
                filter_view(prefilter),
                *packed,
                *exact,
                *distance,
                r.0@,
                r.1,
            ),
    {
        match prefilter {
            None => {
                if !params.has_range() {
                    let (results, stats) = calculator.search_topk_unfiltered_with_stats(
                        row_ids,
                        k,
                        packed,
                        exact,
                    );
                    let metrics = SearchMetrics {
                        comparisons: stats.searched_rows,
                        pruned_rows: stats.pruned_rows,
                    };
                    let found = unzip(results);
                    assert(calculator.found(*packed, *exact, row_ids@, k as nat, found@, stats));
                    return (found, metrics);
                }
                let dists = calculator.distance_all(packed, exact);
                let r = self.search(k, params, row_ids, dists.as_slice(), None);
                assert(self.rabit_found(
                    k as nat,
                    *params,
                    *calculator,
                    row_ids@,
                    None,
                    *packed,
                    *exact,
                    *distance,
                    r.0@,
                    r.1,
                ));
                r
            },
            Some(mask) => {
                let dists = self.selected_distances(mask, distance);
                assert(selected_dists(dists@, mask@, *distance));
                let r = self.search(k, params, row_ids, dists.as_slice(), Some(mask));
                assert(self.rabit_found(
                    k as nat,
                    *params,
                    *calculator,
                    row_ids@,
                    Some(mask@),
                    *packed,
                    *exact,
                    *distance,
                    r.0@,
                    r.1,
                ));
                r
            },
        }
    }

    pub fn load() -> (r: Result<Self, Error>)
        ensures
            r == Ok::<FlatIndex, Error>(FlatIndex {  }),
    {
        Ok(FlatIndex {  })
    }

    /// A flat index is built without looking at the vectors.
    pub fn index_vectors() -> (r: Result<Self, Error>)
        ensures
            r == Ok::<FlatIndex, Error>(FlatIndex {  }),
    {
        Ok(FlatIndex {  })
    }

    /// A flat index does not depend on row ids.
    pub fn remap(&self) -> (r: Result<Self, Error>)
        ensures
            r == Ok::<FlatIndex, Error>(*self),
    {
        Ok(*self)
    }
}

/// The distances of the selected rows are ones that were computed.
pub open spec fn selected_dists<D: Fn(usize) -> OrderedFloat>(
    dists: Seq<OrderedFloat>,
    mask: Seq<bool>,
    distance: D,
) -> bool {
    &&& dists.len() == mask.len()
    &&& forall|id: int|
        0 <= id < mask.len() && mask[id] ==> call_ensures(
            distance,
            (id as usize,),
            #[trigger] dists[id],
        )
}

/// No row is both selected and in range, whatever distances are computed.
pub open spec fn nothing_to_find<
    P: Fn(usize, u64) -> OrderedFloat,
    E: Fn(usize) -> OrderedFloat,
    D: Fn(usize) -> OrderedFloat,
>(
    params: FlatQueryParams,
    calculator: RabitDistCalculator,
    row_ids: Seq<u64>,
    prefilter: Option<Seq<bool>>,
    packed: P,
    exact: E,
    distance: D,
) -> bool {
    match prefilter {
        None => candidates(
            crate::topk::zipped(row_ids, calculator.row_keys(packed, exact)),
            params,
            None,
            row_ids.len(),
        ).len() == 0,
        Some(mask) => forall|dists: Seq<OrderedFloat>| #[trigger]
            selected_dists(dists, mask, distance) ==> candidates(
                crate::topk::zipped(row_ids, dists),
                params,
                prefilter,
                row_ids.len(),
            ).len() == 0,
    }
}

/// A search over RabitQ codes without bounds and without a filter finds what comes from offering
/// every row in order, which are the `k` nearest rows; every row is either compared or skipped.
pub proof fn law_rabit_search_matches_full_scan<
    P: Fn(usize, u64) -> OrderedFloat,
    E: Fn(usize) -> OrderedFloat,
    D: Fn(usize) -> OrderedFloat,
>(
    index: FlatIndex,
    k: nat,
    params: FlatQueryParams,
    calculator: RabitDistCalculator,
    row_ids: Seq<u64>,
    packed: P,
    exact: E,
    distance: D,
    found: Seq<OrderedNode>,
    metrics: SearchMetrics,
)
    requires
        calculator.wf(),
        row_ids.len() == calculator.count(),
        calculator.positive_scale() || crate::vector::bq::search::non_increasing(
            packed,
            calculator.count(),
        ),
        !params.is_range(),
        index.rabit_found(
            k,
            params,
            calculator,
            row_ids,
            None,
            packed,
            exact,
            distance,
            found,
            metrics,
        ),
    ensures
        crate::topk::offered(
            found.to_multiset(),
            crate::topk::zipped(row_ids, calculator.row_keys(packed, exact)),
            k,
        ),
        crate::topk::is_top_k(
            found.to_multiset(),
            crate::topk::zipped(row_ids, calculator.row_keys(packed, exact)).to_multiset(),
            k,
        ),
        found.len() == if k < row_ids.len() { k } else { row_ids.len() },
        k > 0 ==> metrics.comparisons + metrics.pruned_rows == row_ids.len(),
{
    let stats = choose|stats: crate::vector::bq::search::RabitTopKSearchStats|
        #[trigger] calculator.found(packed, exact, row_ids, k, found, stats) && metrics.comparisons
            == stats.searched_rows && metrics.pruned_rows == stats.pruned_rows;
    calculator.law_search_matches_full_scan(packed, exact, row_ids, k, found, stats);
}

/// Without bounds and without a filter, every row is a candidate.
pub proof fn law_all_rows_are_candidates(nodes: Seq<OrderedNode>, params: FlatQueryParams)
    requires
        !params.is_range(),
    ensures
        candidates(nodes, params, None, nodes.len()) == nodes,
{
    lemma_prefix_candidates(nodes, params, nodes.len());
    assert(nodes.take(nodes.len() as int) =~= nodes);
}

proof fn lemma_prefix_candidates(nodes: Seq<OrderedNode>, params: FlatQueryParams, n: nat)
    requires
        !params.is_range(),
        n <= nodes.len(),
    ensures
        candidates(nodes, params, None, n) == nodes.take(n as int),
    decreases n,
{
    if n > 0 {
        lemma_prefix_candidates(nodes, params, (n - 1) as nat);
        assert(nodes.take(n as int) =~= nodes.take(n - 1).push(nodes[n - 1]));
    } else {
        assert(nodes.take(0) =~= Seq::empty());
    }
}

/// What has to be known to read a flat storage.
#[derive(Debug, Clone, Copy, PartialEq, Eq, Structural)]
pub struct FlatMetadata {
    pub dim: usize,
}

/// The kind of the items of a vector.
#[derive(Debug, Clone, Copy, PartialEq, Eq, Structural)]
pub enum ItemType {
    Float32,
    UInt8,
}

/// The column that vectors are stored in.
#[derive(Debug, Clone, Copy)]
pub struct VectorField {
    pub name: &'static str,
    pub item_type: ItemType,
    pub list_size: i32,
    pub nullable: bool,
}

/// Keeps float vectors as they are.
#[derive(Debug, Clone, Copy, PartialEq, Eq, Structural)]
pub struct FlatQuantizer {
    pub dim: usize,
    pub distance_type: DistanceType,
}

impl FlatQuantizer {
    pub fn new(dim: usize, distance_type: DistanceType) -> (r: Self)
        ensures
            r.dim == dim,
            r.distance_type == distance_type,
    {
        FlatQuantizer { dim, distance_type }
    }

    /// A quantizer for vectors of that many values.
    pub fn build(value_length: i32, distance_type: DistanceType) -> (r: Result<Self, Error>)
        requires
            value_length >= 0,
        ensures
            r == Ok::<FlatQuantizer, Error>(
                FlatQuantizer { dim: value_length as usize, distance_type },
            ),
    {
        Ok(FlatQuantizer::new(value_length as usize, distance_type))
    }

    /// There is nothing to train.
    pub fn retrain(&mut self) -> (r: Result<(), Error>)
        ensures
            r is Ok,
            *final(self) == *old(self),
    {
        Ok(())
    }

    pub fn code_dim(&self) -> (r: usize)
        ensures
            r == self.dim,
    {
        self.dim
    }

    pub fn column(&self) -> (r: &'static str)
        ensures
            r@ == FLAT_COLUMN@,
            r@ == "flat"@,
    {
        FLAT_COLUMN
    }

    pub fn from_metadata(metadata: &FlatMetadata, distance_type: DistanceType) -> (r: Result<
        Quantizer,
        Error,
    >)
        ensures
            r == Ok::<Quantizer, Error>(
                Quantizer::Flat(FlatQuantizer { dim: metadata.dim, distance_type }),
            ),
    {
        Ok(Quantizer::Flat(FlatQuantizer { dim: metadata.dim, distance_type }))
    }

    pub fn metadata(&self) -> (r: FlatMetadata)
        ensures
            r.dim == self.dim,
    {
        FlatMetadata { dim: self.dim }
    }

    pub fn metadata_key() -> (r: &'static str)
        ensures
            r@ == "flat"@,
    {
        "flat"
    }

    pub fn quantization_type() -> (r: QuantizationType)
        ensures
            r == QuantizationType::Flat,
    {
        QuantizationType::Flat
    }

    pub fn field(&self) -> (r: VectorField)
        ensures
            r.name@ == FLAT_COLUMN@,
            r.name@ == "flat"@,
            r.item_type == ItemType::Float32,
            r.list_size == self.dim as i32,
            r.nullable,
    {
        VectorField {
            name: FLAT_COLUMN,
            item_type: ItemType::Float32,
            list_size: self.dim as i32,
            nullable: true,
        }
    }
}

impl From<FlatQuantizer> for Quantizer {
    fn from(value: FlatQuantizer) -> (r: Self) {
        Quantizer::Flat(value)
    }
}

impl vstd::std_specs::convert::FromSpecImpl<FlatQuantizer> for Quantizer {
    open spec fn obeys_from_spec() -> bool {
        true
    }

    open spec fn from_spec(value: FlatQuantizer) -> Self {
        Quantizer::Flat(value)
    }
}

impl TryFrom<Quantizer> for FlatQuantizer {
    type Error = Error;

    fn try_from(value: Quantizer) -> (r: Result<Self, Error>) {
        match value {
            Quantizer::Flat(quantizer) => Ok(quantizer),
            _ => Err(Error::NotFlatQuantizer),
        }
    }
}

impl vstd::std_specs::convert::TryFromSpecImpl<Quantizer> for FlatQuantizer {
    open spec fn obeys_try_from_spec() -> bool {
        true
    }

    open spec fn try_from_spec(value: Quantizer) -> Result<Self, Error> {
        match value {
            Quantizer::Flat(quantizer) => Ok(quantizer),
            _ => Err(Error::NotFlatQuantizer),
        }
    }
}

/// Keeps binary vectors as they are.
#[derive(Debug, Clone, Copy, PartialEq, Eq, Structural)]
pub struct FlatBinQuantizer {
    pub dim: usize,
    pub distance_type: DistanceType,
}

impl FlatBinQuantizer {
    pub fn new(dim: usize, distance_type: DistanceType) -> (r: Self)
        ensures
            r.dim == dim,
            r.distance_type == distance_type,
    {
        FlatBinQuantizer { dim, distance_type }
    }

    /// A quantizer for vectors of that many values.
    pub fn build(value_length: i32, distance_type: DistanceType) -> (r: Result<Self, Error>)
        requires
            value_length >= 0,
        ensures
            r == Ok::<FlatBinQuantizer, Error>(
                FlatBinQuantizer { dim: value_length as usize, distance_type },
            ),
    {
        Ok(FlatBinQuantizer::new(value_length as usize, distance_type))
    }

    /// There is nothing to train.
    pub fn retrain(&mut self) -> (r: Result<(), Error>)
        ensures
            r is Ok,
            *final(self) == *old(self),
    {
        Ok(())
    }

    pub fn code_dim(&self) -> (r: usize)
        ensures
            r == self.dim,
    {
        self.dim
    }

    pub fn column(&self) -> (r: &'static str)
        ensures
            r@ == FLAT_COLUMN@,
            r@ == "flat"@,
    {
        FLAT_COLUMN
    }

    pub fn from_metadata(metadata: &FlatMetadata, distance_type: DistanceType) -> (r: Result<
        Quantizer,
        Error,
    >)
        ensures
            r == Ok::<Quantizer, Error>(
                Quantizer::FlatBin(FlatBinQuantizer { dim: metadata.dim, distance_type }),
            ),
    {
        Ok(Quantizer::FlatBin(FlatBinQuantizer { dim: metadata.dim, distance_type }))
    }

    pub fn metadata(&self) -> (r: FlatMetadata)
        ensures
            r.dim == self.dim,
    {
        FlatMetadata { dim: self.dim }
    }

    pub fn metadata_key() -> (r: &'static str)
        ensures
            r@ == "flat"@,
    {
        "flat"
    }

    pub fn quantization_type() -> (r: QuantizationType)
        ensures
            r == QuantizationType::Flat,
    {
        QuantizationType::Flat
    }

    pub fn field(&self) -> (r: VectorField)
        ensures
            r.name@ == FLAT_COLUMN@,
            r.name@ == "flat"@,
            r.item_type == ItemType::UInt8,
            r.list_size == self.dim as i32,
            r.nullable,
    {
        VectorField {
            name: FLAT_COLUMN,
            item_type: ItemType::UInt8,
            list_size: self.dim as i32,
            nullable: true,
        }
    }
}

impl From<FlatBinQuantizer> for Quantizer {
    fn from(value: FlatBinQuantizer) -> (r: Self) {
        Quantizer::FlatBin(value)
    }
}

impl vstd::std_specs::convert::FromSpecImpl<FlatBinQuantizer> for Quantizer {
    open spec fn obeys_from_spec() -> bool {
        true
    }

    open spec fn from_spec(value: FlatBinQuantizer) -> Self {
        Quantizer::FlatBin(value)
    }
}

impl TryFrom<Quantizer> for FlatBinQuantizer {
    type Error = Error;

    fn try_from(value: Quantizer) -> (r: Result<Self, Error>) {
        match value {
            Quantizer::FlatBin(quantizer) => Ok(quantizer),
            _ => Err(Error::NotFlatBinQuantizer),
        }
    }
}

impl vstd::std_specs::convert::TryFromSpecImpl<Quantizer> for FlatBinQuantizer {
    open spec fn obeys_try_from_spec() -> bool {
        true
    }

    open spec fn try_from_spec(value: Quantizer) -> Result<Self, Error> {
        match value {
            Quantizer::FlatBin(quantizer) => Ok(quantizer),
            _ => Err(Error::NotFlatBinQuantizer),
        }
    }
}

/// A flat quantizer comes back from the quantizer that it was made into, and from its metadata.
pub proof fn law_flat_quantizer_round_trip(q: FlatQuantizer, b: FlatBinQuantizer)
    ensures
        <FlatQuantizer as vstd::std_specs::convert::TryFromSpec<Quantizer>>::try_from_spec(
            <Quantizer as vstd::std_specs::convert::FromSpec<FlatQuantizer>>::from_spec(q),
        ) == Ok::<FlatQuantizer, Error>(q),
        <FlatBinQuantizer as vstd::std_specs::convert::TryFromSpec<Quantizer>>::try_from_spec(
            <Quantizer as vstd::std_specs::convert::FromSpec<FlatBinQuantizer>>::from_spec(b),
        ) == Ok::<FlatBinQuantizer, Error>(b),
{
}

/// The parameters of a flat search are the query's bounds and its distance to the centroid.
pub proof fn law_params_of_a_query(q: Query)
    ensures
        <FlatQueryParams as vstd::std_specs::convert::FromSpec<&Query>>::obeys_from_spec(),
        ({
            let params = <FlatQueryParams as vstd::std_specs::convert::FromSpec<&Query>>::from_spec(
                &q,
            );
            params.lower_bound == q.lower_bound && params.upper_bound == q.upper_bound
                && params.dist_q_c == q.dist_q_c
        }),
{
}

/// A search without bounds admits every distance.
pub proof fn law_no_bounds_admit_all(params: FlatQueryParams, dist: OrderedFloat)
    requires
        params.lower_bound is None,
        params.upper_bound is None,
    ensures
        !params.is_range(),
        params.in_range(dist),
{
}

/// With an upper bound alone, every finite distance below it is in range, and none at it or above.
pub proof fn law_upper_bound_alone(params: FlatQueryParams, dist: OrderedFloat)
    requires
        params.lower_bound is None,
        params.upper_bound is Some,
    ensures
        params.is_range(),
        params.in_range(dist) <==> -0x7f80_0000 <= dist.key < params.upper_bound->0.key,
        crate::ordered::NEG_INFINITY_KEY < dist.key < crate::ordered::INFINITY_KEY && dist.key
            < params.upper_bound->0.key ==> params.in_range(dist),
        dist.key >= params.upper_bound->0.key ==> !params.in_range(dist),
{
}

/// With a lower bound alone, every distance from it up to the largest finite float is in range, that
/// float itself left out, and none below the bound.
pub proof fn law_lower_bound_alone(params: FlatQueryParams, dist: OrderedFloat)
    requires
        params.lower_bound is Some,
        params.upper_bound is None,
    ensures
        params.is_range(),
        params.in_range(dist) <==> params.lower_bound->0.key <= dist.key < 0x7f7f_ffff,
        dist.key < params.lower_bound->0.key ==> !params.in_range(dist),
{
}

/// With both bounds, exactly the distances from the lower one on and below the upper one are in
/// range.
pub proof fn law_both_bounds(params: FlatQueryParams, dist: OrderedFloat)
    requires
        params.lower_bound is Some,
        params.upper_bound is Some,
    ensures
        params.is_range(),
        params.in_range(dist) <==> params.lower_bound->0.key <= dist.key
            < params.upper_bound->0.key,
{
}

/// A wider range admits all that a narrower one does, and what two ranges that meet admit, the range
/// from the first lower bound to the second upper one does.
pub proof fn law_ranges_join(
    first: FlatQueryParams,
    second: FlatQueryParams,
    whole: FlatQueryParams,
    dist: OrderedFloat,
)
    requires
        first.upper_bound is Some,
        second.lower_bound == first.upper_bound,
        whole.lower_bound == first.lower_bound,
        whole.upper_bound == second.upper_bound,
        whole.lower_bound matches Some(b) ==> b.key <= first.upper_bound->0.key,
        whole.upper_bound matches Some(b) ==> first.upper_bound->0.key <= b.key,
        whole.lower_bound is Some || whole.upper_bound is Some,
        -0x7f80_0000 <= first.upper_bound->0.key <= 0x7f7f_ffff,
    ensures
        whole.in_range(dist) <==> first.in_range(dist) || second.in_range(dist),
        !(first.in_range(dist) && second.in_range(dist)),
{
}

/// The candidates of a search are the rows that the filter selects and whose distances keep within
/// the bounds that are set, all of them and in order. Where only one bound is set, the distances are
/// the finite ones on its side, without the largest.
pub proof fn law_candidates(
    nodes: Seq<OrderedNode>,
    params: FlatQueryParams,
    prefilter: Option<Seq<bool>>,
    n: nat,
) -> (places: Seq<int>)
    requires
        n <= nodes.len(),
    ensures
        places.len() == candidates(nodes, params, prefilter, n).len(),
        forall|j: int|
            0 <= j < places.len() ==> 0 <= #[trigger] places[j] < n && candidates(
                nodes,
                params,
                prefilter,
                n,
            )[j] == nodes[places[j]],
        forall|i: int, j: int| 0 <= i < j < places.len() ==> places[i] < places[j],
        forall|i: int|
            0 <= i < n ==> (#[trigger] places.contains(i) <==> {
                &&& prefilter is Some ==> prefilter->0[i]
                &&& params.lower_bound is Some ==> params.lower_bound->0.key <= nodes[i].dist.key
                &&& params.upper_bound is Some ==> nodes[i].dist.key < params.upper_bound->0.key
                &&& params.lower_bound is None && params.upper_bound is Some ==> -0x7f80_0000
                    <= nodes[i].dist.key
                &&& params.upper_bound is None && params.lower_bound is Some ==> nodes[i].dist.key
                    < 0x7f7f_ffff
            }),
    decreases n,
{
    if n == 0 {
        Seq::empty()
    } else {
        let last = n - 1;
        let before = law_candidates(nodes, params, prefilter, last as nat);
        if (prefilter matches Some(mask) ==> mask[last]) && params.in_range(nodes[last].dist) {
            let places = before.push(last);
            assert forall|i: int| 0 <= i < n implies (#[trigger] places.contains(i) <==> i == last
                || before.contains(i)) by {
                assert(places[before.len() as int] == last);
                if before.contains(i) {
                    let j = choose|j: int| 0 <= j < before.len() && before[j] == i;
                    assert(places[j] == i);
                }
            }
            assert forall|j: int| 0 <= j < places.len() implies 0 <= #[trigger] places[j] < n
                && candidates(nodes, params, prefilter, n)[j] == nodes[places[j]] by {
                if j < before.len() {
                    assert(places[j] == before[j]);
                }
            }
            places
        } else {
            assert(!before.contains(last)) by {
                if before.contains(last) {
                    let j = choose|j: int| 0 <= j < before.len() && before[j] == last;
                    assert(before[j] < last);
                }
            }
            before
        }
    }
}

/// What a search finds: only rows that the filter selects and that keep within the bounds, each with
/// its own distance; and of those rows one is missing only where `k` were found, none of them farther
/// than it.
pub proof fn law_found_rows(
    found: Seq<OrderedNode>,
    row_ids: Seq<u64>,
    dists: Seq<OrderedFloat>,
    params: FlatQueryParams,
    prefilter: Option<Seq<bool>>,
    k: nat,
)
    requires
        row_ids.len() == dists.len(),
        crate::topk::offered(
            found.to_multiset(),
            candidates(
                crate::topk::zipped(row_ids, dists),
                params,
                prefilter,
                crate::topk::zipped(row_ids, dists).len(),
            ),
            k,
        ),
    ensures
        found.len() <= k,
        forall|j: int|
            0 <= j < found.len() ==> exists|i: int|
                {
                    &&& 0 <= i < row_ids.len()
                    &&& #[trigger] row_ids[i] == (#[trigger] found[j]).id
                    &&& dists[i] == found[j].dist
                    &&& prefilter is Some ==> prefilter->0[i]
                    &&& params.lower_bound is Some ==> params.lower_bound->0.key <= dists[i].key
                    &&& params.upper_bound is Some ==> dists[i].key < params.upper_bound->0.key
                },
        forall|i: int|
            0 <= i < row_ids.len() && (prefilter is Some ==> prefilter->0[i]) && (
            params.lower_bound is Some ==> params.lower_bound->0.key <= dists[i].key) && (
            params.upper_bound is Some ==> dists[i].key < params.upper_bound->0.key) && (
            params.lower_bound is None && params.upper_bound is Some ==> -0x7f80_0000
                <= dists[i].key) && (params.upper_bound is None && params.lower_bound is Some
                ==> dists[i].key < 0x7f7f_ffff) ==> found.contains(
                OrderedNode { id: #[trigger] row_ids[i], dist: dists[i] },
            ) || found.len() == k && forall|j: int|
                0 <= j < found.len() ==> (#[trigger] found[j]).dist.key <= dists[i].key,
{
    broadcast use vstd::seq_lib::group_to_multiset_ensures;

    let nodes = crate::topk::zipped(row_ids, dists);
    let kept = candidates(nodes, params, prefilter, nodes.len());
    let places = law_candidates(nodes, params, prefilter, nodes.len());
    let result = found.to_multiset();
    crate::topk::law_offered_are_the_nearest(result, kept, k);
    assert forall|j: int| 0 <= j < found.len() implies exists|i: int|
        {
            &&& 0 <= i < row_ids.len()
            &&& #[trigger] row_ids[i] == (#[trigger] found[j]).id
            &&& dists[i] == found[j].dist
            &&& prefilter is Some ==> prefilter->0[i]
            &&& params.lower_bound is Some ==> params.lower_bound->0.key <= dists[i].key
            &&& params.upper_bound is Some ==> dists[i].key < params.upper_bound->0.key
        } by {
        assert(found.contains(found[j]));
        assert(result.count(found[j]) > 0);
        assert(kept.contains(found[j]));
        let c = choose|c: int| 0 <= c < kept.len() && kept[c] == found[j];
        let i = places[c];
        assert(places.contains(i));
        assert(nodes[i].id == row_ids[i]);
    }
    assert forall|i: int|
        0 <= i < row_ids.len() && (prefilter is Some ==> prefilter->0[i]) && (
        params.lower_bound is Some ==> params.lower_bound->0.key <= dists[i].key) && (
        params.upper_bound is Some ==> dists[i].key < params.upper_bound->0.key) && (
        params.lower_bound is None && params.upper_bound is Some ==> -0x7f80_0000 <= dists[i].key)
            && (params.upper_bound is None && params.lower_bound is Some ==> dists[i].key
            < 0x7f7f_ffff) implies found.contains(
        OrderedNode { id: #[trigger] row_ids[i], dist: dists[i] },
    ) || found.len() == k && forall|j: int|
        0 <= j < found.len() ==> (#[trigger] found[j]).dist.key <= dists[i].key by {
        let node = nodes[i];
        assert(node == (OrderedNode { id: row_ids[i], dist: dists[i] }));
        assert(places.contains(i));
        let c = choose|c: int| 0 <= c < places.len() && places[c] == i;
        assert(kept[c] == node);
        assert(kept.contains(node));
        if !found.contains(node) {
            assert(result.count(node) == 0);
            assert(kept.to_multiset().count(node) > 0);
            if k >= kept.len() {
                lemma_same_size(result, kept.to_multiset(), node);
            }
            assert forall|j: int| 0 <= j < found.len() implies (#[trigger] found[j]).dist.key
                <= dists[i].key by {
                assert(found.contains(found[j]));
                assert(result.count(found[j]) > 0);
            }
        }
    }
}

/// A selection that lacks a candidate has fewer members than there are candidates.
proof fn lemma_same_size(
    part: vstd::multiset::Multiset<OrderedNode>,
    whole: vstd::multiset::Multiset<OrderedNode>,
    node: OrderedNode,
)
    requires
        forall|y: OrderedNode| #[trigger] part.count(y) <= whole.count(y),
        part.count(node) < whole.count(node),
    ensures
        part.len() < whole.len(),
{
    broadcast use vstd::multiset::group_multiset_axioms;

    let rest = whole.sub(part);
    assert(part.add(rest) =~= whole);
    assert(rest.count(node) > 0);
    assert(rest.remove(node).insert(node) =~= rest);
}

/// A search over RabitQ codes with a filter looks at every row, and finds among those that it selects
/// as a search over the distances of single rows does.
pub proof fn law_filtered_rabit_search<
    P: Fn(usize, u64) -> OrderedFloat,
    E: Fn(usize) -> OrderedFloat,
    D: Fn(usize) -> OrderedFloat,
>(
    index: FlatIndex,
    k: nat,
    params: FlatQueryParams,
    calculator: RabitDistCalculator,
    row_ids: Seq<u64>,
    mask: Seq<bool>,
    packed: P,
    exact: E,
    distance: D,
    found: Seq<OrderedNode>,
    metrics: SearchMetrics,
) -> (dists: Seq<OrderedFloat>)
    requires
        mask.len() == row_ids.len(),
        index.rabit_found(
            k,
            params,
            calculator,
            row_ids,
            Some(mask),
            packed,
            exact,
            distance,
            found,
            metrics,
        ),
    ensures
        metrics.comparisons == row_ids.len(),
        metrics.pruned_rows == 0,
        dists.len() == row_ids.len(),
        forall|i: int|
            0 <= i < mask.len() && mask[i] ==> call_ensures(
                distance,
                (i as usize,),
                #[trigger] dists[i],
            ),
        found.len() <= k,
        forall|i: int|
            0 <= i < row_ids.len() && mask[i] && (params.lower_bound is Some
                ==> params.lower_bound->0.key <= dists[i].key) && (params.upper_bound is Some
                ==> dists[i].key < params.upper_bound->0.key) && (params.lower_bound is None
                && params.upper_bound is Some ==> -0x7f80_0000 <= dists[i].key) && (
            params.upper_bound is None && params.lower_bound is Some ==> dists[i].key
                < 0x7f7f_ffff) ==> found.contains(
                OrderedNode { id: #[trigger] row_ids[i], dist: dists[i] },
            ) || found.len() == k && forall|j: int|
                0 <= j < found.len() ==> (#[trigger] found[j]).dist.key <= dists[i].key,
{
    let dists = choose|dists: Seq<OrderedFloat>|
        #[trigger] selected_dists(dists, mask, distance) && crate::topk::offered(
            found.to_multiset(),
            candidates(
                crate::topk::zipped(row_ids, dists),
                params,
                Some(mask),
                row_ids.len(),
            ),
            k,
        );
    law_found_rows(found, row_ids, dists, params, Some(mask), k);
    dists
}

/// Every row that a search over RabitQ codes with a filter finds is one that the filter selects, with
/// a distance that was computed for it and that keeps within the bounds.
pub proof fn law_filtered_rabit_rows<
    P: Fn(usize, u64) -> OrderedFloat,
    E: Fn(usize) -> OrderedFloat,
    D: Fn(usize) -> OrderedFloat,
>(
    index: FlatIndex,
    k: nat,
    params: FlatQueryParams,
    calculator: RabitDistCalculator,
    row_ids: Seq<u64>,
    mask: Seq<bool>,
    packed: P,
    exact: E,
    distance: D,
    found: Seq<OrderedNode>,
    metrics: SearchMetrics,
    j: int,
) -> (i: int)
    requires
        mask.len() == row_ids.len(),
        index.rabit_found(
            k,
            params,
            calculator,
            row_ids,
            Some(mask),
            packed,
            exact,
            distance,
            found,
            metrics,
        ),
        0 <= j < found.len(),
    ensures
        0 <= i < row_ids.len(),
        mask[i],
        found[j].id == row_ids[i],
        call_ensures(distance, (i as usize,), found[j].dist),
        params.lower_bound is Some ==> params.lower_bound->0.key <= found[j].dist.key,
        params.upper_bound is Some ==> found[j].dist.key < params.upper_bound->0.key,
{
    let dists = choose|dists: Seq<OrderedFloat>|
        #[trigger] selected_dists(dists, mask, distance) && crate::topk::offered(
            found.to_multiset(),
            candidates(
                crate::topk::zipped(row_ids, dists),
                params,
                Some(mask),
                row_ids.len(),
            ),
            k,
        );
    law_found_rows(found, row_ids, dists, params, Some(mask), k);
    let filter = Some(mask);
    let i = choose|i: int|
        {
            &&& 0 <= i < row_ids.len()
            &&& #[trigger] row_ids[i] == found[j].id
            &&& dists[i] == found[j].dist
            &&& filter is Some ==> filter->0[i]
            &&& params.lower_bound is Some ==> params.lower_bound->0.key <= dists[i].key
            &&& params.upper_bound is Some ==> dists[i].key < params.upper_bound->0.key
        };
    assert(found[j].id == row_ids[i]);
    i
}

/// A search over RabitQ codes with bounds and without a filter looks at every row, and finds within
/// the bounds as a search over the distances of a full scan does.
pub proof fn law_bounded_rabit_search<
    P: Fn(usize, u64) -> OrderedFloat,
    E: Fn(usize) -> OrderedFloat,
    D: Fn(usize) -> OrderedFloat,
>(
    index: FlatIndex,
    k: nat,
    params: FlatQueryParams,
    calculator: RabitDistCalculator,
    row_ids: Seq<u64>,
    packed: P,
    exact: E,
    distance: D,
    found: Seq<OrderedNode>,
    metrics: SearchMetrics,
)
    requires
        params.lower_bound is Some || params.upper_bound is Some,
        row_ids.len() == calculator.count(),
        index.rabit_found(
            k,
            params,
            calculator,
            row_ids,
            None,
            packed,
            exact,
            distance,
            found,
            metrics,
        ),
    ensures
        metrics.comparisons == row_ids.len(),
        metrics.pruned_rows == 0,
        found.len() <= k,
        calculator.row_keys(packed, exact).len() == row_ids.len(),
        forall|i: int|
            0 <= i < row_ids.len() && (params.lower_bound is Some ==> params.lower_bound->0.key
                <= calculator.row_keys(packed, exact)[i].key) && (params.upper_bound is Some
                ==> calculator.row_keys(packed, exact)[i].key < params.upper_bound->0.key) && (
            params.lower_bound is None ==> -0x7f80_0000 <= calculator.row_keys(
                packed,
                exact,
            )[i].key) && (params.upper_bound is None ==> calculator.row_keys(packed, exact)[i].key
                < 0x7f7f_ffff) ==> found.contains(
                OrderedNode {
                    id: #[trigger] row_ids[i],
                    dist: calculator.row_keys(packed, exact)[i],
                },
            ) || found.len() == k && forall|j: int|
                0 <= j < found.len() ==> (#[trigger] found[j]).dist.key <= calculator.row_keys(
                    packed,
                    exact,
                )[i].key,
{
    law_found_rows(found, row_ids, calculator.row_keys(packed, exact), params, None, k);
}

/// A flat quantizer becomes the quantizer of its own kind, and none comes out of another kind.
pub proof fn law_kinds_of_flat_quantizers(q: FlatQuantizer, b: FlatBinQuantizer, other: Quantizer)
    ensures
        <Quantizer as vstd::std_specs::convert::FromSpec<FlatQuantizer>>::obeys_from_spec(),
        <Quantizer as vstd::std_specs::convert::FromSpec<FlatBinQuantizer>>::obeys_from_spec(),
        <FlatQuantizer as vstd::std_specs::convert::TryFromSpec<Quantizer>>::obeys_try_from_spec(),
        <FlatBinQuantizer as vstd::std_specs::convert::TryFromSpec<
            Quantizer,
        >>::obeys_try_from_spec(),
        <Quantizer as vstd::std_specs::convert::FromSpec<FlatQuantizer>>::from_spec(q)
            == Quantizer::Flat(q),
        <Quantizer as vstd::std_specs::convert::FromSpec<FlatBinQuantizer>>::from_spec(b)
            == Quantizer::FlatBin(b),
        !(other is Flat) ==> <FlatQuantizer as vstd::std_specs::convert::TryFromSpec<
            Quantizer,
        >>::try_from_spec(other) == Err::<FlatQuantizer, Error>(Error::NotFlatQuantizer),
        !(other is FlatBin) ==> <FlatBinQuantizer as vstd::std_specs::convert::TryFromSpec<
            Quantizer,
        >>::try_from_spec(other) == Err::<FlatBinQuantizer, Error>(Error::NotFlatBinQuantizer),
{
}

/// A filter that is there is seen as it is, and one that is not as none.
pub proof fn law_filter_is_seen_as_it_is(mask: &[bool])
    ensures
        filter_view(Some(mask)) == Some(mask@),
        filter_view(None) is None,
{
}

/// What a search found is its row ids with its distances, place by place.
pub proof fn law_found_pairs(found: SearchResult, i: int)
    requires
        found.row_ids@.len() == found.distances@.len(),
        0 <= i < found.row_ids@.len(),
    ensures
        found@.len() == found.row_ids@.len(),
        found@[i].id == found.row_ids@[i],
        found@[i].dist == found.distances@[i],
{
}

} // verus!
