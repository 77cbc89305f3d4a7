use std::collections::HashMap;

use lance_index::ordered::OrderedFloat;
use lance_index::topk::{push_topk_result, topk_from_distances, NodeHeap, OrderedNode};
use lance_index::vector::bq::calculator::QueryTable;
use lance_index::vector::bq::codes::{
    get_column, get_rq_code, pack_codes, unpack_codes, FixedSizeListArray, BATCH_SIZE, PERM0,
    PERM0_INVERSE,
};
use lance_index::vector::bq::search::{
    accumulate_4bit_packed_block, has_positive, RabitDistCalculator, SEGMENT_LENGTH,
    SEGMENT_NUM_CODES,
};
use lance_index::vector::bq::storage::{
    default_rotation_type_compat, DataType, QueryFactor, RQRotationType, RabitBatch,
    RabitQuantizationMetadata, RabitQuantizationStorage, RotateMatrix, Rotation,
    RABIT_METADATA_KEY,
};
use lance_index::vector::bq::table::{
    build_dist_table_direct, build_dist_table_for_subvec, code_distance, compute_rq_distance_flat,
    distance, lowbit, quantize_dist_table, LOWBIT_IDX,
};
use lance_index::error::{Error, ErrorKind};
use lance_index::string_map::StringMap;
use lance_index::vector::distance::DistanceType;

fn key(x: f32) -> OrderedFloat {
    OrderedFloat::from_bits(x.to_bits())
}

fn float(x: OrderedFloat) -> f32 {
    f32::from_bits(x.to_bits())
}

fn plus(a: f32, b: f32) -> f32 {
    a + b
}

fn scale(d: OrderedFloat, qmin: OrderedFloat, qmax: OrderedFloat) -> u8 {
    let factor = 255.0 / (float(qmax) - float(qmin));
    ((float(d) - float(qmin)) * factor).round() as u8
}

/// The float side of distances.
struct Floats {
    table: Vec<f32>,
    codes: Vec<u8>,
    code_len: usize,
    sum_q: f32,
    sqrt_d: f32,
    add_factors: Vec<f32>,
    scale_factors: Vec<f32>,
    query_factor: f32,
    range: f32,
    sum_min: f32,
    rest: Vec<f32>,
}

impl Floats {
    fn new(
        dim: usize,
        table: Vec<f32>,
        sum_q: f32,
        codes: Vec<u8>,
        add_factors: Vec<f32>,
        scale_factors: Vec<f32>,
        query_factor: f32,
    ) -> (Self, Vec<u8>) {
        let code_len = dim / 8;
        let keys: Vec<OrderedFloat> = table.iter().map(|x| key(*x)).collect();
        let (qmin, qmax, quantized) = quantize_dist_table(&keys, &scale);
        let n = codes.len() / code_len;
        let rest_start = n - n % BATCH_SIZE;
        let mut rest = vec![0.0f32; n];
        if rest_start < n {
            compute_rq_distance_flat(&table, &codes, rest_start, n - rest_start, &mut rest, &plus);
        }
        let range = (float(qmax) - float(qmin)) / 255.0;
        let sum_min = (quantized.len() / SEGMENT_NUM_CODES) as f32 * float(qmin);
        (
            Floats {
                table,
                codes,
                code_len,
                sum_q,
                sqrt_d: (dim as f32).sqrt(),
                add_factors,
                scale_factors,
                query_factor,
                range,
                sum_min,
                rest,
            },
            quantized,
        )
    }

    fn finalize(&self, id: usize, dist: f32) -> OrderedFloat {
        let dist_vq_qr = (2.0 * dist - self.sum_q) / self.sqrt_d;
        key(dist_vq_qr * self.scale_factors[id] + self.add_factors[id] + self.query_factor)
    }

    fn packed(&self, id: usize, sum: u64) -> OrderedFloat {
        self.finalize(id, sum as f32 * self.range + self.sum_min)
    }

    fn exact(&self, id: usize) -> OrderedFloat {
        self.finalize(id, self.rest[id])
    }

    fn single(&self, id: usize) -> OrderedFloat {
        let n = self.codes.len() / self.code_len;
        self.finalize(id, distance(&self.table, &self.codes, id, n, self.code_len, 0.0, &plus))
    }

    fn scale_keys(&self) -> Vec<OrderedFloat> {
        self.scale_factors.iter().map(|x| key(*x)).collect()
    }
}

fn canonicalize_topk(results: Vec<OrderedNode>) -> Vec<(u64, f32)> {
    let mut results: Vec<(u64, f32)> =
        results.into_iter().map(|r| (r.id, float(r.dist))).collect();
    results.sort_by(|(lhs_id, lhs_dist), (rhs_id, rhs_dist)| {
        lhs_dist.total_cmp(rhs_dist).then_with(|| lhs_id.cmp(rhs_id))
    });
    results
}

fn baseline_topk(
    calc: &RabitDistCalculator,
    floats: &Floats,
    row_ids: &[u64],
    k: usize,
) -> Vec<(u64, f32)> {
    let mut heap = NodeHeap::new();
    let dists = calc.distance_all(&|id, sum| floats.packed(id, sum), &|id| floats.exact(id));
    for (row_id, dist) in row_ids.iter().zip(dists) {
        push_topk_result(&mut heap, OrderedNode::new(*row_id, dist), k);
    }
    canonicalize_topk(heap.into_vec())
}

fn make_test_codes(num_vectors: usize, code_dim: usize) -> FixedSizeListArray {
    let code_len = code_dim / 8;
    let values = (0..num_vectors * code_len).map(|i| (i * 37 + i / 7) as u8).collect();
    FixedSizeListArray { values, value_length: code_len }
}

fn make_test_metadata(code_dim: usize) -> RabitQuantizationMetadata {
    RabitQuantizationMetadata {
        rotate_mat: None,
        rotate_mat_position: None,
        fast_rotation_signs: Some(vec![0xA5; code_dim / 8 * 4]),
        rotation_type: RQRotationType::Fast,
        code_dim: code_dim as u32,
        num_bits: 1,
        packed: false,
    }
}

fn make_test_batch(codes: FixedSizeListArray) -> RabitBatch {
    let num_rows = codes.len();
    RabitBatch {
        row_ids: (0..num_rows as u64).collect(),
        codes,
        add_factors: (0..num_rows).map(|v| key(v as f32)).collect(),
        scale_factors: (0..num_rows).map(|v| key(v as f32 + 0.5)).collect(),
    }
}

fn copy_codes(codes: &FixedSizeListArray) -> FixedSizeListArray {
    FixedSizeListArray { values: codes.values.clone(), value_length: codes.value_length }
}

fn assert_codes_eq(actual: &FixedSizeListArray, expected: &FixedSizeListArray) {
    assert_eq!(actual.len(), expected.len());
    assert_eq!(actual.value_length, expected.value_length);
    assert_eq!(actual.values, expected.values);
}

/// The codes of vectors by the signs of their dimensions.
fn sign_codes(num_rows: usize, code_dim: usize) -> FixedSizeListArray {
    let mut values = Vec::new();
    for row in 0..num_rows {
        for byte in 0..code_dim / 8 {
            let mut code = 0u8;
            for bit in 0..8 {
                let dim = byte * 8 + bit;
                let value = (dim as f32 - row as f32) / 13.0 * (1.0 - 2.0 * ((dim % 3) as f32));
                if value >= 0.0 {
                    code |= 1 << bit;
                }
            }
            values.push(code);
        }
    }
    FixedSizeListArray { values, value_length: code_dim / 8 }
}

fn make_search_storage(
    num_rows: usize,
    code_dim: usize,
    distance_type: DistanceType,
    scale_for_row: impl Fn(usize) -> f32,
) -> (RabitQuantizationStorage, Vec<f32>) {
    let batch = RabitBatch {
        row_ids: (0..num_rows as u64).collect(),
        codes: sign_codes(num_rows, code_dim),
        add_factors: (0..num_rows).map(|idx| key(idx as f32 * 0.05)).collect(),
        scale_factors: (0..num_rows).map(|idx| key(scale_for_row(idx))).collect(),
    };
    let storage = RabitQuantizationStorage::try_from_batch(
        batch,
        &make_test_metadata(code_dim),
        distance_type,
    )
    .unwrap();
    let query = (0..code_dim).map(|idx| idx as f32 / 7.0 - 1.5).collect();
    (storage, query)
}

/// Prepares distances to a query, which is taken as rotated already.
fn query_table(
    storage: &RabitQuantizationStorage,
    query: &[f32],
    dist_q_c: f32,
) -> QueryTable<f32> {
    storage.dist_calculator(
        query.len(),
        DataType::Float32,
        dist_q_c,
        0.0,
        &|_: &RotateMatrix| -> Vec<f32> { unreachable!() },
        &|code_dim: usize, _: &Vec<u8>| -> Vec<f32> {
            assert_eq!(code_dim, query.len());
            query.to_vec()
        },
        &plus,
        &|x: f32| x - 1.0,
    )
}

fn floats_of(storage: &RabitQuantizationStorage, table: &QueryTable<f32>) -> Floats {
    let (add_factors, scale_factors) = storage.factors();
    Floats::new(
        table.dim,
        table.dist_table.clone(),
        table.sum_q,
        storage.to_batches().codes.values.clone(),
        add_factors.iter().map(|x| float(*x)).collect(),
        scale_factors.iter().map(|x| float(*x)).collect(),
        table.query_factor,
    )
    .0
}

fn build_dist_table_not_optimized(sub_vec: &[f32], dist_table: &mut [f32]) {
    for (j, dist) in dist_table.iter_mut().enumerate().take(SEGMENT_NUM_CODES) {
        for (k, v) in sub_vec.iter().enumerate().take(SEGMENT_LENGTH) {
            if j & (1 << k) != 0 {
                *dist += v;
            }
        }
    }
}

#[test]
fn test_build_dist_table_not_optimized() {
    let sub_vec = vec![1.0, 2.0, 3.0, 4.0];
    let mut expected = vec![0.0; SEGMENT_NUM_CODES];
    build_dist_table_not_optimized(&sub_vec, &mut expected);
    let dist_table = build_dist_table_for_subvec(&sub_vec, 0.0, &plus);
    assert_eq!(dist_table, expected);
}

#[test]
fn test_pack_unpack_codes() {
    for num_vectors in [10, 32, 50, 64, 100] {
        let code_len = 8;

        let mut codes_data = Vec::new();
        for i in 0..num_vectors {
            for j in 0..code_len {
                codes_data.push((i * code_len + j) as u8);
            }
        }

        let original_codes = FixedSizeListArray { values: codes_data, value_length: code_len };

        let packed = pack_codes(&original_codes);
        let unpacked = unpack_codes(&packed);

        assert_eq!(original_codes.len(), unpacked.len());
        assert_eq!(original_codes.value_length, unpacked.value_length);
        assert_eq!(
            original_codes.values, unpacked.values,
            "Mismatch for num_vectors={}",
            num_vectors
        );
    }
}

#[test]
fn test_try_from_batch_canonicalizes_rq_codes_to_packed_layout() {
    let original_codes = make_test_codes(50, 64);
    let metadata = make_test_metadata(original_codes.value_length * 8);
    assert!(!metadata.packed);

    let storage = RabitQuantizationStorage::try_from_batch(
        make_test_batch(copy_codes(&original_codes)),
        &metadata,
        DistanceType::L2,
    )
    .unwrap();

    assert!(storage.metadata().packed);
    let stored_codes = &storage.to_batches().codes;
    let expected_codes = pack_codes(&original_codes);
    assert_codes_eq(stored_codes, &expected_codes);
}

#[test]
fn test_remap_preserves_packed_rq_storage_layout() {
    let original_codes = make_test_codes(50, 64);
    let metadata = make_test_metadata(original_codes.value_length * 8);
    let storage = RabitQuantizationStorage::try_from_batch(
        make_test_batch(copy_codes(&original_codes)),
        &metadata,
        DistanceType::L2,
    )
    .unwrap();

    let mut mapping = HashMap::new();
    mapping.insert(1, Some(101));
    mapping.insert(3, None);
    mapping.insert(4, Some(104));

    let remapped = storage.remap(&mapping).unwrap();
    assert!(remapped.metadata().packed);

    let remapped_batch = remapped.to_batches();
    let expected_row_ids: Vec<u64> =
        [0, 101, 2, 104].into_iter().chain(5..original_codes.len() as u64).collect();
    assert_eq!(remapped_batch.row_ids, expected_row_ids);

    let repacked = pack_codes(&unpack_codes(&remapped_batch.codes));
    assert_codes_eq(&remapped_batch.codes, &repacked);

    let unpacked = unpack_codes(&remapped_batch.codes);
    for (new_row, old_row) in [0, 1, 2, 4].into_iter().chain(5..50).enumerate() {
        assert_eq!(
            unpacked.values[new_row * 8..new_row * 8 + 8],
            original_codes.values[old_row * 8..old_row * 8 + 8]
        );
        assert_eq!(remapped_batch.add_factors[new_row], key(old_row as f32));
    }
}

#[test]
fn remapped_rows_keep_their_factors() {
    let original_codes = make_test_codes(50, 64);
    let metadata = make_test_metadata(original_codes.value_length * 8);
    let storage = RabitQuantizationStorage::try_from_batch(
        make_test_batch(copy_codes(&original_codes)),
        &metadata,
        DistanceType::L2,
    )
    .unwrap();
    let (old_add, old_scale) = storage.factors();

    let mut mapping = HashMap::new();
    mapping.insert(0, None);
    mapping.insert(7, Some(700));
    mapping.insert(20, None);
    let remapped = storage.remap(&mapping).unwrap();
    let kept: Vec<u32> = (1..20).chain(21..50).collect();
    assert_eq!(storage.kept_indices(&mapping), kept);
    let (add_factors, scale_factors) = remapped.factors();
    assert_eq!(add_factors.len(), 48);
    assert_eq!(scale_factors.len(), 48);
    for (new_row, old_row) in (1..20).chain(21..50).enumerate() {
        assert_eq!(add_factors[new_row], old_add[old_row]);
        assert_eq!(scale_factors[new_row], old_scale[old_row]);
    }
    assert_eq!(add_factors, &remapped.to_batches().add_factors[..]);
    assert_eq!(scale_factors, &remapped.to_batches().scale_factors[..]);
}

#[test]
fn test_accumulate_4bit_packed_block_matches_scalar_batch_sum() {
    let block = (0..BATCH_SIZE).map(|idx| idx as u8).collect::<Vec<_>>();
    let dist_table = (0..BATCH_SIZE)
        .map(|idx| (idx as u8).wrapping_mul(3).wrapping_add(1))
        .collect::<Vec<_>>();
    let mut actual = [0u16; BATCH_SIZE];
    accumulate_4bit_packed_block(&block, &dist_table, &mut actual);

    let mut expected = [0u16; BATCH_SIZE];
    let current_dist_table = &dist_table[..16];
    let next_dist_table = &dist_table[16..];
    for j in 0..16 {
        let low_current_code = (block[j] & 0x0F) as usize;
        let high_current_code = (block[j] >> 4) as usize;
        let low_next_code = (block[j + 16] & 0x0F) as usize;
        let high_next_code = (block[j + 16] >> 4) as usize;

        expected[PERM0[j]] = expected[PERM0[j]]
            .saturating_add(current_dist_table[low_current_code] as u16)
            .saturating_add(next_dist_table[low_next_code] as u16);
        expected[PERM0[j] + 16] = expected[PERM0[j] + 16]
            .saturating_add(current_dist_table[high_current_code] as u16)
            .saturating_add(next_dist_table[high_next_code] as u16);
    }

    assert_eq!(actual, expected);
}

fn search_matches_full_scan(distance_type: DistanceType, scale_for_row: impl Fn(usize) -> f32) {
    for &num_rows in &[32, 50, 64, 96] {
        let (storage, query) = make_search_storage(num_rows, 64, distance_type, &scale_for_row);
        let table = query_table(&storage, &query, 0.0);
        let (_, _, dist_calc) = table.calculator(&storage, &key, &scale);
        let floats = floats_of(&storage, &table);

        for &k in &[1, 10, 32] {
            let expected = baseline_topk(&dist_calc, &floats, storage.row_ids(), k);
            let actual = canonicalize_topk(dist_calc.search_topk_unfiltered(
                storage.row_ids(),
                k,
                &|id, sum| floats.packed(id, sum),
                &|id| floats.exact(id),
            ));
            assert_eq!(actual, expected, "num_rows={num_rows}, k={k}");
        }
    }
}

#[test]
fn test_search_topk_matches_full_scan_l2() {
    search_matches_full_scan(DistanceType::L2, |idx| -(1.0 + idx as f32 * 0.01));
}

#[test]
fn test_search_topk_matches_full_scan_dot() {
    search_matches_full_scan(DistanceType::Dot, |idx| -(0.5 + idx as f32 * 0.005));
}

#[test]
fn test_search_topk_reports_pruned_batches() {
    let row_ids = (0..96u64).collect::<Vec<_>>();
    let code_len = 8;
    let mut codes = vec![0xFF; 32 * code_len];
    codes.extend(vec![0x00; 64 * code_len]);
    let dist_table = (0..code_len * 2 * SEGMENT_NUM_CODES)
        .map(|idx| (idx % SEGMENT_NUM_CODES) as f32)
        .collect::<Vec<_>>();
    let scale_factors = vec![-1.0; 96];
    let add_factors = vec![0.0; 96];
    let (floats, quantized) = Floats::new(
        code_len * 8,
        dist_table,
        0.0,
        codes.clone(),
        add_factors,
        scale_factors,
        0.0,
    );
    let dist_calc =
        RabitDistCalculator::new(code_len * 8, 1, quantized, &codes, &floats.scale_keys());

    let (results, stats) = dist_calc.search_topk_unfiltered_with_stats(
        &row_ids,
        1,
        &|id, sum| floats.packed(id, sum),
        &|id| floats.exact(id),
    );
    assert_eq!(stats.searched_rows, 32);
    assert_eq!(stats.pruned_rows, 64);
    assert!(stats.pruned_batches > 0);
    assert!(!stats.fallback_full_scan);
    assert_eq!(results.len(), 1);
}

#[test]
fn test_search_topk_falls_back_for_positive_scale() {
    let row_ids = (0..64u64).collect::<Vec<_>>();
    let code_len = 8;
    let codes = vec![0x3C; 64 * code_len];
    let dist_table = (0..code_len * 2 * SEGMENT_NUM_CODES)
        .map(|idx| (idx % SEGMENT_NUM_CODES) as f32)
        .collect::<Vec<_>>();
    let mut scale_factors = vec![-1.0; 64];
    scale_factors[7] = 0.25;
    let add_factors = vec![0.0; 64];
    let (floats, quantized) = Floats::new(
        code_len * 8,
        dist_table,
        0.0,
        codes.clone(),
        add_factors,
        scale_factors,
        0.0,
    );
    let dist_calc =
        RabitDistCalculator::new(code_len * 8, 1, quantized, &codes, &floats.scale_keys());

    let (actual, stats) = dist_calc.search_topk_unfiltered_with_stats(
        &row_ids,
        10,
        &|id, sum| floats.packed(id, sum),
        &|id| floats.exact(id),
    );
    assert!(stats.fallback_full_scan);
    assert_eq!(stats.searched_rows, row_ids.len());
    assert_eq!(stats.pruned_rows, 0);
    assert_eq!(
        canonicalize_topk(actual),
        baseline_topk(&dist_calc, &floats, &row_ids, 10)
    );
}

#[test]
fn first_of_rows_at_one_distance_is_found() {
    let row_ids = (0..64u64).collect::<Vec<_>>();
    let mut codes = vec![0xFF; 32];
    codes.extend([0x00; 64]);
    codes.extend([0xFF; 32]);
    let mut dist_table = vec![0.0; 64];
    dist_table[15] = 1.0;
    dist_table[31] = 1.0;
    dist_table[47] = 255.0;
    dist_table[63] = 255.0;
    let (floats, quantized) = Floats::new(
        16,
        dist_table,
        0.0,
        codes.clone(),
        vec![0.0; 64],
        vec![-1.0; 64],
        0.0,
    );
    let calc = RabitDistCalculator::new(16, 1, quantized, &codes, &floats.scale_keys());
    let (results, stats) = calc.search_topk_unfiltered_with_stats(
        &row_ids,
        1,
        &|id, sum| floats.packed(id, sum),
        &|id| floats.exact(id),
    );
    assert_eq!(results, vec![OrderedNode { id: 32, dist: key(-255.0) }]);
    assert_eq!((stats.searched_rows, stats.pruned_rows, stats.pruned_batches), (64, 0, 0));
    assert!(!stats.fallback_full_scan);

    let dists = [key(2.0), key(1.0), key(1.0), key(1.0)];
    assert_eq!(
        topk_from_distances(&[9, 8, 7, 6], &dists, 1),
        vec![OrderedNode { id: 8, dist: key(1.0) }]
    );
}

#[test]
fn search_of_nothing_finds_nothing() {
    let codes: Vec<u8> = vec![0; 32];
    let calc = RabitDistCalculator::new(8, 1, vec![0; 32], &codes, &[key(-1.0)]);
    let row_ids: Vec<u64> = (0..32).collect();
    let (results, stats) = calc.search_topk_unfiltered_with_stats(
        &row_ids,
        0,
        &|_, _| key(0.0),
        &|_| key(0.0),
    );
    assert!(results.is_empty());
    assert_eq!(stats.searched_rows + stats.pruned_rows + stats.pruned_batches, 0);

    let none: Vec<u8> = Vec::new();
    let calc = RabitDistCalculator::new(8, 1, vec![0; 32], &none, &[]);
    let (results, _) =
        calc.search_topk_unfiltered_with_stats(&[], 5, &|_, _| key(0.0), &|_| key(0.0));
    assert!(results.is_empty());
}

#[test]
fn calculator_leaves_loose_bytes_aside() {
    let codes: Vec<u8> = vec![1, 2, 3, 4, 5];
    let calc = RabitDistCalculator::new(16, 1, vec![0; 64], &codes, &[]);
    assert_eq!(calc.code_len(), 2);
    assert_eq!(calc.num_vectors(), 2);
}

#[test]
fn quantized_distances_of_full_groups() {
    let code_len = 1;
    let codes_rows = FixedSizeListArray {
        values: (0..33).map(|i| i as u8).collect(),
        value_length: code_len,
    };
    let codes = pack_codes(&codes_rows).values;
    let table: Vec<u8> = (0..32).map(|i| i as u8).collect();
    let calc = RabitDistCalculator::new(8, 1, table.clone(), &codes, &[key(-0.0), key(0.0)]);
    let dists = calc.distance_all(
        &|id, sum| key((id as u64 * 1000 + sum) as f32),
        &|id| key(-(id as f32)),
    );
    assert_eq!(dists.len(), 33);
    for id in 0..32usize {
        let code = id as u8;
        let sum = table[(code & 15) as usize] as u64 + table[16 + (code >> 4) as usize] as u64;
        assert_eq!(float(dists[id]), (id as u64 * 1000 + sum) as f32);
    }
    assert_eq!(float(dists[32]), -32.0);
}

#[test]
fn packed_layout_of_one_group() {
    let rows = FixedSizeListArray { values: (0..32).map(|i| i as u8 * 8).collect(), value_length: 1 };
    let packed = pack_codes(&rows);
    for j in 0..16 {
        let low = rows.values[PERM0[j]];
        let high = rows.values[PERM0[j] + 16];
        assert_eq!(packed.values[j], (low & 15) | ((high & 15) << 4));
        assert_eq!(packed.values[j + 16], (low >> 4) | ((high >> 4) << 4));
        assert_eq!(PERM0_INVERSE[PERM0[j]], j);
    }
    for id in 0..32 {
        assert_eq!(get_rq_code(&packed.values, id, 32, 1), vec![rows.values[id]]);
    }
    let mut column = [0u8; 32];
    get_column(&rows.values, 1, 0, 0, &mut column);
    assert_eq!(column.to_vec(), rows.values);
}

#[test]
fn packing_inverts_unpacking_of_any_bytes() {
    for n in [0usize, 1, 31, 32, 33, 70] {
        let codes = FixedSizeListArray {
            values: (0..n * 3).map(|i| (i * 91 + 13) as u8).collect(),
            value_length: 3,
        };
        assert_eq!(pack_codes(&unpack_codes(&codes)).values, codes.values);
    }
}

#[test]
fn lowest_bits() {
    assert_eq!(lowbit(1), 1);
    assert_eq!(lowbit(12), 4);
    assert_eq!(lowbit(1 << 40), 1 << 40);
    for j in 1..16usize {
        assert_eq!(LOWBIT_IDX[j], j.trailing_zeros() as usize);
        assert_eq!(lowbit(j), 1 << LOWBIT_IDX[j]);
    }
}

#[test]
fn distance_table_of_a_query() {
    let table = build_dist_table_direct(&[1.0f32, 2.0, 4.0, 8.0, 16.0, 32.0, 64.0, 128.0, 5.0], 0.0, &plus);
    assert_eq!(table.len(), 36);
    for j in 0..16 {
        assert_eq!(table[j], j as f32);
        assert_eq!(table[16 + j], 16.0 * j as f32);
    }
    assert_eq!(table[32..], [0.0; 4]);
}

#[test]
fn distance_of_a_code_is_the_same_both_ways() {
    let table: Vec<i64> = (0..64).map(|i| i * i).collect();
    let add = |a: i64, b: i64| a + b;
    let rows = FixedSizeListArray { values: (0..70).map(|i| (i * 29) as u8).collect(), value_length: 2 };
    let codes = pack_codes(&rows).values;
    let mut flat = vec![0i64; 35];
    compute_rq_distance_flat(&table, &codes, 32, 3, &mut flat, &add);
    for id in 0..35usize {
        let code = &rows.values[id * 2..id * 2 + 2];
        let expected = table[(code[0] & 15) as usize]
            + table[16 + (code[0] >> 4) as usize]
            + table[32 + (code[1] & 15) as usize]
            + table[48 + (code[1] >> 4) as usize];
        assert_eq!(distance(&table, &codes, id, 35, 2, 0, &add), expected);
        assert_eq!(code_distance(&table, code, 0, &add), expected);
        assert_eq!(flat[id], if id < 32 { 0 } else { expected });
    }
}

#[test]
fn code_of_a_vector_gives_the_signed_sum() {
    let query: Vec<i64> = (0..16).map(|i| 3 * i - 11).collect();
    let table = build_dist_table_direct(&query, 0i64, &|a: i64, b: i64| a + b);
    let n = 35;
    let rows = FixedSizeListArray {
        values: (0..2 * n).map(|i| (i as u8).wrapping_mul(73).wrapping_add(5)).collect(),
        value_length: 2,
    };
    let packed = pack_codes(&rows).values;
    let sum_q: i64 = query.iter().sum();
    for id in 0..n {
        let sum = distance(&table, &packed, id, n, 2, 0i64, &|a: i64, b: i64| a + b);
        let expected: i64 = (0..16)
            .map(|i| {
                let set = rows.values[2 * id + i / 8] >> (i % 8) & 1 == 1;
                if set { query[i] } else { -query[i] }
            })
            .sum();
        assert_eq!(2 * sum - sum_q, expected);
    }
}

#[test]
fn quantization_of_a_table() {
    let keys: Vec<OrderedFloat> = [0.0f32, 1.0, 2.0, 4.0].iter().map(|x| key(*x)).collect();
    let (qmin, qmax, bytes) = quantize_dist_table(&keys, &scale);
    assert_eq!((float(qmin), float(qmax)), (0.0, 4.0));
    assert_eq!(bytes, vec![0, 64, 128, 255]);

    let equal: Vec<OrderedFloat> = [0.0f32, -0.0, 0.0].iter().map(|x| key(*x)).collect();
    let (qmin, qmax, bytes) = quantize_dist_table(&equal, &|_, _, _| 9);
    assert!(float(qmin).is_sign_negative() && float(qmax).is_sign_positive());
    assert_eq!(bytes, vec![0, 0, 0]);
}

#[test]
fn positive_factors() {
    assert!(!has_positive(&[]));
    assert!(!has_positive(&[key(-1.0), key(0.0), key(-0.0), key(f32::NAN)]));
    assert!(has_positive(&[key(-1.0), key(1e-30)]));
    assert!(has_positive(&[key(f32::INFINITY)]));
}

#[test]
fn nearest_of_given_distances() {
    let dists: Vec<OrderedFloat> = [3.0f32, 1.0, 2.0, 1.0].iter().map(|x| key(*x)).collect();
    let found = canonicalize_topk(topk_from_distances(&[10, 11, 12, 13], &dists, 3));
    assert_eq!(found, vec![(11, 1.0), (13, 1.0), (12, 2.0)]);
    assert!(topk_from_distances(&[10, 11], &dists, 0).is_empty());
    assert_eq!(topk_from_distances(&[10], &dists, 9).len(), 1);
}

#[test]
fn remap_without_rows() {
    let storage = RabitQuantizationStorage::try_from_batch(
        make_test_batch(make_test_codes(40, 64)),
        &make_test_metadata(64),
        DistanceType::L2,
    )
    .unwrap();
    let same = storage.remap(&HashMap::new()).unwrap();
    assert_eq!(same.to_batches().row_ids, storage.to_batches().row_ids);
    assert_eq!(same.to_batches().codes.values, storage.to_batches().codes.values);

    let gone: HashMap<u64, Option<u64>> = (0..40).map(|id| (id, None)).collect();
    let empty = storage.remap(&gone).unwrap();
    assert_eq!(empty.len(), 0);
    assert_eq!(empty.to_batches().codes.value_length, 8);
    assert_eq!(storage.row_id(7), 7);
    assert_eq!(storage.distance_type(), DistanceType::L2);
}

#[test]
fn packed_batches_are_taken_as_they_are() {
    let mut metadata = make_test_metadata(64);
    metadata.packed = true;
    let codes = make_test_codes(64, 64);
    let storage = RabitQuantizationStorage::try_from_batch(
        make_test_batch(copy_codes(&codes)),
        &metadata,
        DistanceType::Cosine,
    )
    .unwrap();
    assert_codes_eq(&storage.to_batches().codes, &codes);
}

#[test]
fn metadata_buffers() {
    assert_eq!(default_rotation_type_compat(), RQRotationType::Matrix);
    let mut metadata = make_test_metadata(64);
    metadata.set_buffer_index(5);
    assert_eq!(metadata.rotate_mat_position, Some(5));
    assert_eq!(metadata.buffer_index(), None);
    let refuse = |_: &[u8]| -> Result<RotateMatrix, Error> { Err(Error::UnexpectedEnd) };
    assert!(metadata.parse_buffer(&[1], &refuse).is_ok());
    assert!(metadata.rotate_mat.is_none());

    metadata.rotation_type = RQRotationType::Matrix;
    assert_eq!(metadata.buffer_index(), Some(5));
    assert!(matches!(metadata.parse_buffer(&[1], &refuse), Err(Error::UnexpectedEnd)));
    let decode = |bytes: &[u8]| -> Result<RotateMatrix, Error> {
        Ok(RotateMatrix {
            num_rows: bytes.len(),
            value_type: DataType::Float32,
            values: bytes.to_vec(),
        })
    };
    metadata.code_dim = 0;
    assert!(metadata.parse_buffer(&[1, 2, 3], &decode).is_ok());
    assert_eq!(metadata.code_dim, 3);
    assert!(metadata.parse_buffer(&[1, 2], &decode).is_ok());
    assert_eq!(metadata.code_dim, 3);

    let encode = |mat: &RotateMatrix| -> Result<Vec<u8>, Error> { Ok(mat.values.clone()) };
    assert_eq!(metadata.extra_metadata(&encode).unwrap(), Some(vec![1, 2]));
    metadata.rotation_type = RQRotationType::Fast;
    assert_eq!(metadata.extra_metadata(&encode).unwrap(), None);
}

#[test]
fn metadata_text_of_a_file() {
    let mut file_metadata = StringMap::new();
    let missing = RabitQuantizationMetadata::find_text(&file_metadata).unwrap_err();
    assert!(matches!(missing, Error::RabitMetadataNotFound));
    assert_eq!(missing.kind(), ErrorKind::Index);
    file_metadata.insert(RABIT_METADATA_KEY.to_string(), "{}".to_string());
    assert_eq!(RabitQuantizationMetadata::find_text(&file_metadata).unwrap(), "{}");
}

#[test]
fn rotation_and_factor_of_a_query() {
    let (storage, query) = make_search_storage(3, 64, DistanceType::Dot, |_| -1.0);
    match storage.rotation(DataType::Float16) {
        Rotation::Fast { code_dim, query_type, .. } => {
            assert_eq!(code_dim, 64);
            assert_eq!(query_type, DataType::Float16);
        }
        Rotation::Dense { .. } => panic!("rotation by signs was asked for"),
    }
    assert_eq!(storage.query_factor(), QueryFactor::MinusOne);
    let table = query_table(&storage, &query, 3.0);
    assert_eq!(table.query_factor, 2.0);
    assert_eq!(table.dist_table.len(), 256);
    assert_eq!(table.sum_q, query.iter().sum::<f32>());

    let mut metadata = make_test_metadata(64);
    metadata.rotation_type = RQRotationType::Matrix;
    metadata.code_dim = 0;
    metadata.rotate_mat =
        Some(RotateMatrix { num_rows: 2, value_type: DataType::Float64, values: vec![] });
    let dense = RabitQuantizationStorage::try_from_batch(
        make_test_batch(make_test_codes(3, 64)),
        &metadata,
        DistanceType::L2,
    )
    .unwrap();
    assert_eq!(dense.code_dim(), 2);
    assert_eq!(dense.query_factor(), QueryFactor::Plain);
    let table = dense.dist_calculator(
        4,
        DataType::Other,
        3.0f32,
        0.0,
        &|mat: &RotateMatrix| vec![mat.num_rows as f32; 8],
        &|_: usize, _: &Vec<u8>| -> Vec<f32> { unreachable!() },
        &plus,
        &|x: f32| x - 1.0,
    );
    assert_eq!(table.sum_q, 16.0);
    assert_eq!(table.query_factor, 3.0);
}

#[test]
fn single_distances_agree_with_a_scan_of_the_rest() {
    let (storage, query) = make_search_storage(40, 64, DistanceType::L2, |_| -1.0);
    let table = query_table(&storage, &query, 0.5);
    let floats = floats_of(&storage, &table);
    let sums = table.remainder_sums(&storage, 0.0, &plus);
    assert_eq!(sums[..32], [0.0; 32]);
    for id in 32..40 {
        assert_eq!(floats.single(id), floats.exact(id));
        assert_eq!(sums[id], floats.rest[id]);
    }
}
