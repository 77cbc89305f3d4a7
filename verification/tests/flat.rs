use lance_index::error::{Error, ErrorKind};
use lance_index::ordered::OrderedFloat;
use lance_index::vector::bq::codes::{pack_codes, FixedSizeListArray};
use lance_index::vector::bq::search::{RabitDistCalculator, SEGMENT_NUM_CODES};
use lance_index::vector::bq::storage::DataType;
use lance_index::vector::bq::table::{
    build_dist_table_direct, compute_rq_distance_flat, distance, quantize_dist_table,
};
use lance_index::vector::distance::{DistanceType, VectorMetricType};
use lance_index::vector::flat::index::{
    FlatBinQuantizer, FlatIndex, FlatMetadata, FlatQuantizer, FlatQueryParams, ItemType,
    SearchMetrics, SearchResult, FLAT_COLUMN,
};
use lance_index::vector::quantizer::{QuantizationType, Quantizer};
use lance_index::vector::query::{Query, QueryVector};

fn key(x: f32) -> OrderedFloat {
    OrderedFloat::from_bits(x.to_bits())
}

fn float(x: OrderedFloat) -> f32 {
    f32::from_bits(x.to_bits())
}

fn plus(a: f32, b: f32) -> f32 {
    a + b
}

fn scale(d: OrderedFloat, qmin: OrderedFloat, qmax: OrderedFloat) -> u8 {
    let factor = 255.0 / (float(qmax) - float(qmin));
    ((float(d) - float(qmin)) * factor).round() as u8
}

/// Rows of codes with what is needed for their distances to a query.
struct Rows {
    codes: Vec<u8>,
    row_ids: Vec<u64>,
    table: Vec<f32>,
    quantized: Vec<u8>,
    sum_q: f32,
    range: f32,
    sum_min: f32,
    rest: Vec<f32>,
}

const CODE_DIM: usize = 64;

fn make_rq_storage(num_rows: usize) -> Rows {
    let rows = FixedSizeListArray {
        values: (0..num_rows * CODE_DIM / 8).map(|i| (i * 53 + i / 5) as u8).collect(),
        value_length: CODE_DIM / 8,
    };
    let codes = pack_codes(&rows).values;
    let query: Vec<f32> = (0..CODE_DIM).map(|idx| idx as f32 / 23.0).collect();
    let table = build_dist_table_direct(&query, 0.0, &plus);
    let keys: Vec<OrderedFloat> = table.iter().map(|x| key(*x)).collect();
    let (qmin, qmax, quantized) = quantize_dist_table(&keys, &scale);
    let mut rest = vec![0.0f32; num_rows];
    let rest_start = num_rows / 32 * 32;
    if rest_start < num_rows {
        compute_rq_distance_flat(
            &table,
            &codes,
            rest_start,
            num_rows - rest_start,
            &mut rest,
            &plus,
        );
    }
    let sum_min = (quantized.len() / SEGMENT_NUM_CODES) as f32 * float(qmin);
    Rows {
        codes,
        row_ids: (0..num_rows as u64).collect(),
        table,
        quantized,
        sum_q: query.iter().sum(),
        range: (float(qmax) - float(qmin)) / 255.0,
        sum_min,
        rest,
    }
}

impl Rows {
    fn add_factor(id: usize) -> f32 {
        id as f32 * 0.01
    }

    fn scale_factor(id: usize) -> f32 {
        -(1.0 + id as f32 * 0.01)
    }

    fn scale_keys(&self) -> Vec<OrderedFloat> {
        (0..self.row_ids.len()).map(|id| key(Self::scale_factor(id))).collect()
    }

    fn calculator<'a>(&'a self) -> RabitDistCalculator<'a> {
        RabitDistCalculator::new(
            CODE_DIM,
            1,
            self.quantized.clone(),
            &self.codes,
            &self.scale_keys(),
        )
    }

    fn finalize(&self, id: usize, dist: f32) -> OrderedFloat {
        let dist_vq_qr = (2.0 * dist - self.sum_q) / (CODE_DIM as f32).sqrt();
        key(dist_vq_qr * Self::scale_factor(id) + Self::add_factor(id))
    }

    fn packed(&self, id: usize, sum: u64) -> OrderedFloat {
        self.finalize(id, sum as f32 * self.range + self.sum_min)
    }

    fn exact(&self, id: usize) -> OrderedFloat {
        self.finalize(id, self.rest[id])
    }

    fn single(&self, id: usize) -> OrderedFloat {
        let n = self.row_ids.len();
        self.finalize(
            id,
            distance(&self.table, &self.codes, id, n, CODE_DIM / 8, 0.0, &plus),
        )
    }

    fn search(
        &self,
        k: usize,
        params: &FlatQueryParams,
        prefilter: Option<&[bool]>,
    ) -> (SearchResult, SearchMetrics) {
        FlatIndex::default().search_rabit(
            k,
            params,
            &self.calculator(),
            &self.row_ids,
            prefilter,
            &|id, sum| self.packed(id, sum),
            &|id| self.exact(id),
            &|id| self.single(id),
        )
    }

    fn scan(&self) -> Vec<(u64, f32)> {
        let dists = self
            .calculator()
            .distance_all(&|id, sum| self.packed(id, sum), &|id| self.exact(id));
        self.row_ids.iter().copied().zip(dists.into_iter().map(float)).collect()
    }
}

fn sorted(mut pairs: Vec<(u64, f32)>) -> Vec<(u64, f32)> {
    pairs.sort_by(|(lhs_id, lhs_dist), (rhs_id, rhs_dist)| {
        lhs_dist.total_cmp(rhs_dist).then_with(|| lhs_id.cmp(rhs_id))
    });
    pairs
}

fn sort_result_batch(result: &SearchResult) -> Vec<(u64, f32)> {
    sorted(
        result
            .row_ids
            .iter()
            .copied()
            .zip(result.distances.iter().map(|d| float(*d)))
            .collect(),
    )
}

#[test]
fn test_rq_flat_search_matches_full_scan_without_filter() {
    let storage = make_rq_storage(96);
    let params = FlatQueryParams::default();

    let (result, metrics) = storage.search(10, &params, None);

    let mut baseline = sorted(storage.scan());
    baseline.truncate(10);

    assert_eq!(sort_result_batch(&result), baseline);
    assert_eq!(metrics.comparisons + metrics.pruned_rows, storage.row_ids.len());
}

#[test]
fn test_rq_flat_range_query_matches_scalar_path() {
    let storage = make_rq_storage(64);
    let params = FlatQueryParams {
        lower_bound: Some(key(-1000.0)),
        upper_bound: Some(key(1000.0)),
        dist_q_c: key(0.0),
    };

    let (result, metrics) = storage.search(8, &params, None);

    let mut baseline = sorted(storage.scan());
    baseline.truncate(8);

    assert_eq!(sort_result_batch(&result), baseline);
    assert_eq!((metrics.comparisons, metrics.pruned_rows), (64, 0));
}

#[test]
fn test_rq_flat_prefilter_matches_scalar_path() {
    let storage = make_rq_storage(64);

    let all = vec![true; 64];
    let (result, _) = storage.search(8, &FlatQueryParams::default(), Some(&all));

    let mut baseline = sorted(
        (0..64usize)
            .map(|idx| (storage.row_ids[idx], float(storage.single(idx))))
            .collect(),
    );
    baseline.truncate(8);

    assert_eq!(sort_result_batch(&result), baseline);
}

#[test]
fn filters_and_bounds() {
    let index = FlatIndex::default();
    let row_ids: Vec<u64> = (100..106).collect();
    let dists: Vec<OrderedFloat> =
        [5.0f32, 1.0, 3.0, -2.0, 3.0, 9.0].iter().map(|x| key(*x)).collect();
    let open = FlatQueryParams::default();

    let (found, metrics) = index.search(2, &open, &row_ids, &dists, None);
    assert_eq!(sort_result_batch(&found), vec![(103, -2.0), (101, 1.0)]);
    assert_eq!((metrics.comparisons, metrics.pruned_rows), (6, 0));

    let mask = [true, false, true, false, true, true];
    let (found, metrics) = index.search(2, &open, &row_ids, &dists, Some(&mask));
    assert_eq!(sort_result_batch(&found), vec![(102, 3.0), (104, 3.0)]);
    assert_eq!(metrics.comparisons, 6);

    let range = FlatQueryParams {
        lower_bound: Some(key(1.0)),
        upper_bound: Some(key(5.0)),
        dist_q_c: key(0.0),
    };
    let (found, _) = index.search(10, &range, &row_ids, &dists, None);
    assert_eq!(sort_result_batch(&found), vec![(101, 1.0), (102, 3.0), (104, 3.0)]);
    let (found, _) = index.search(1, &range, &row_ids, &dists, Some(&mask));
    assert_eq!(found.distances, vec![key(3.0)]);

    let none = vec![false; 6];
    assert!(index.has_candidate(&range, &row_ids, &dists, Some(&mask)));
    assert!(!index.has_candidate(&open, &row_ids, &dists, Some(&none)));
    let (found, _) = index.search(0, &open, &row_ids, &dists, Some(&none));
    assert!(found.row_ids.is_empty());
}

#[test]
fn bounds_that_are_not_set() {
    let above = FlatQueryParams { lower_bound: Some(key(0.0)), upper_bound: None, dist_q_c: key(0.0) };
    assert!(above.has_range());
    assert!(above.admits(&key(0.0)));
    assert!(!above.admits(&key(-0.0)));
    assert!(above.admits(&key(1e38)));
    assert!(!above.admits(&key(f32::MAX)));
    assert!(!above.admits(&key(f32::INFINITY)));
    let below = FlatQueryParams { lower_bound: None, upper_bound: Some(key(2.0)), dist_q_c: key(0.0) };
    assert!(below.admits(&key(f32::MIN)));
    assert!(!below.admits(&key(f32::NEG_INFINITY)));
    assert!(!below.admits(&key(2.0)));
    let open = FlatQueryParams::default();
    assert!(!open.has_range());
    assert!(open.admits(&key(f32::INFINITY)));
}

#[test]
fn params_of_a_query() {
    let query = Query {
        column: "vector".to_string(),
        key: QueryVector { value_type: DataType::Float32, values: vec![0; 8] },
        k: 3,
        lower_bound: Some(key(0.5)),
        upper_bound: None,
        minimum_nprobes: 1,
        maximum_nprobes: None,
        ef: None,
        refine_factor: None,
        metric_type: Some(DistanceType::L2),
        use_index: true,
        dist_q_c: key(0.25),
    };
    let params = FlatQueryParams::from(&query);
    assert_eq!(params.lower_bound, Some(key(0.5)));
    assert_eq!(params.upper_bound, None);
    assert_eq!(params.dist_q_c, key(0.25));
}

#[test]
fn flat_index_of_nothing() {
    assert_eq!(FlatIndex::name(), "FLAT");
    assert_eq!(FlatIndex::metadata_key(), "lance:flat");
    let index = FlatIndex::load().unwrap();
    assert_eq!(index, FlatIndex::index_vectors().unwrap());
    assert_eq!(index.remap().unwrap(), index);
}

#[test]
fn flat_quantizers() {
    let mut flat = FlatQuantizer::new(12, DistanceType::Cosine);
    assert_eq!(FlatQuantizer::build(12, DistanceType::Cosine).unwrap(), flat);
    assert!(flat.retrain().is_ok());
    assert_eq!(flat.code_dim(), 12);
    assert_eq!(flat.column(), FLAT_COLUMN);
    assert_eq!(flat.metadata(), FlatMetadata { dim: 12 });
    assert_eq!(FlatQuantizer::metadata_key(), "flat");
    assert_eq!(FlatQuantizer::quantization_type(), QuantizationType::Flat);
    let field = flat.field();
    assert_eq!((field.name, field.item_type, field.list_size, field.nullable), ("flat", ItemType::Float32, 12, true));
    let quantizer = FlatQuantizer::from_metadata(&flat.metadata(), DistanceType::Cosine).unwrap();
    assert_eq!(quantizer, Quantizer::from(flat));
    assert_eq!(FlatQuantizer::try_from(quantizer).unwrap(), flat);

    let mut bin = FlatBinQuantizer::new(16, DistanceType::Hamming);
    assert_eq!(FlatBinQuantizer::build(16, DistanceType::Hamming).unwrap(), bin);
    assert!(bin.retrain().is_ok());
    assert_eq!(bin.code_dim(), 16);
    assert_eq!(bin.column(), FLAT_COLUMN);
    assert_eq!(FlatBinQuantizer::metadata_key(), "flat");
    assert_eq!(FlatBinQuantizer::quantization_type(), QuantizationType::Flat);
    assert_eq!(bin.field().item_type, ItemType::UInt8);
    let binary = FlatBinQuantizer::from_metadata(&bin.metadata(), DistanceType::Hamming).unwrap();
    assert_eq!(FlatBinQuantizer::try_from(binary).unwrap(), bin);

    let error = FlatQuantizer::try_from(binary).unwrap_err();
    assert!(matches!(error, Error::NotFlatQuantizer));
    assert_eq!(error.kind(), ErrorKind::InvalidInput);
    assert!(matches!(FlatBinQuantizer::try_from(quantizer), Err(Error::NotFlatBinQuantizer)));
    assert!(matches!(FlatBinQuantizer::try_from(Quantizer::Rabit), Err(Error::NotFlatBinQuantizer)));
}

#[test]
fn kinds_of_distance() {
    for (distance, metric) in [
        (DistanceType::L2, VectorMetricType::L2),
        (DistanceType::Cosine, VectorMetricType::Cosine),
        (DistanceType::Dot, VectorMetricType::Dot),
        (DistanceType::Hamming, VectorMetricType::Hamming),
    ] {
        assert_eq!(VectorMetricType::from(distance), metric);
        assert_eq!(DistanceType::from(metric), distance);
    }
}
