use std::io::Cursor;

use lance_index::error::{Error, ErrorKind, RegionIdOwner};
use lance_index::index_type::IndexType;
use lance_index::mem_wal::region::bucket_from_hash;
use lance_index::mem_wal::{
    append_array_value, find_column_by_field_id, pb, transforms, Column, ColumnData,
    FlushedGeneration, IndexCatchupProgress, MemWalIndex, MemWalIndexDetails, MergedGeneration,
    RecordBatch, RegionField, RegionManifest, RegionSpec, Uuid, MEM_WAL_INDEX_NAME,
};
use lance_index::string_map::StringMap;
use lance_index::text::IntErrorKind;

fn column(data: ColumnData, num_rows: usize) -> Column {
    Column { field_id: None, nulls: vec![false; num_rows], data }
}

fn make_test_batch() -> RecordBatch {
    let names = [
        "alice", "bob", "charlie", "david", "eve", "frank", "grace", "henry", "ivy", "jack",
    ];
    RecordBatch {
        columns: vec![
            column(ColumnData::Int64(vec![1, 2, 3, 4, 5, 6, 7, 8, 9, 10]), 10),
            column(ColumnData::Utf8(names.iter().map(|n| n.to_string()).collect()), 10),
            column(
                ColumnData::Int32(vec![100, 200, 300, 400, 500, 600, 700, 800, 900, 1000]),
                10,
            ),
        ],
        num_rows: 10,
    }
}

fn parameters(num_buckets: &str) -> StringMap {
    let mut parameters = StringMap::new();
    parameters.insert("num_buckets".to_string(), num_buckets.to_string());
    parameters
}

fn field(source_ids: Vec<i32>, transform: Option<&str>, parameters: StringMap) -> RegionField {
    RegionField {
        field_id: "bucket_field".to_string(),
        source_ids,
        transform: transform.map(|t| t.to_string()),
        expression: None,
        result_type: "int32".to_string(),
        parameters,
    }
}

fn make_bucket_region_spec(source_id: i32, num_buckets: u32) -> RegionSpec {
    RegionSpec {
        spec_id: 1,
        fields: vec![field(
            vec![source_id],
            Some(transforms::BUCKET),
            parameters(&num_buckets.to_string()),
        )],
    }
}

#[test]
fn test_compute_bucket_single_field() {
    let batch = make_test_batch();
    let spec = make_bucket_region_spec(0, 4);

    for row_idx in 0..batch.num_rows() {
        let result = spec.compute_bucket(&batch, row_idx).unwrap();
        assert!(result.bucket < 4, "Bucket should be in range [0, 4)");
        assert_eq!(result.num_buckets, 4);
    }
}

#[test]
fn test_compute_buckets_batch() {
    let batch = make_test_batch();
    let spec = make_bucket_region_spec(0, 4);

    let (buckets, num_buckets) = spec.compute_buckets(&batch).unwrap();

    assert_eq!(buckets.len(), batch.num_rows());
    assert_eq!(num_buckets, 4);

    for &bucket in &buckets {
        assert!(bucket < 4, "All buckets should be in range [0, 4)");
    }
}

#[test]
fn test_compute_bucket_string_field() {
    let batch = make_test_batch();
    let spec = make_bucket_region_spec(1, 8);

    let (buckets, num_buckets) = spec.compute_buckets(&batch).unwrap();

    assert_eq!(buckets.len(), batch.num_rows());
    assert_eq!(num_buckets, 8);

    for &bucket in &buckets {
        assert!(bucket < 8, "All buckets should be in range [0, 8)");
    }
}

#[test]
fn test_compute_bucket_deterministic() {
    let batch = make_test_batch();
    let spec = make_bucket_region_spec(0, 16);

    let (buckets1, _) = spec.compute_buckets(&batch).unwrap();
    let (buckets2, _) = spec.compute_buckets(&batch).unwrap();

    assert_eq!(buckets1, buckets2, "Bucket assignments should be deterministic");
}

#[test]
fn test_unsupported_transform() {
    let spec = RegionSpec {
        spec_id: 1,
        fields: vec![RegionField {
            field_id: "unknown_field".to_string(),
            source_ids: vec![0],
            transform: Some("year".to_string()),
            expression: None,
            result_type: "int32".to_string(),
            parameters: StringMap::new(),
        }],
    };

    let batch = make_test_batch();
    let result = spec.compute_bucket(&batch, 0);

    assert!(result.is_err());
    let error = result.unwrap_err();
    assert!(matches!(error, Error::UnsupportedRouting));
    assert_eq!(error.kind(), ErrorKind::NotSupported);
    match spec.fields[0].compute_value(&batch, 0) {
        Err(Error::UnsupportedTransform(t)) => assert_eq!(t, "year"),
        other => panic!("unexpected {:?}", other),
    }
}

#[test]
fn test_missing_num_buckets() {
    let spec = RegionSpec {
        spec_id: 1,
        fields: vec![RegionField {
            field_id: "bucket_field".to_string(),
            source_ids: vec![0],
            transform: Some(transforms::BUCKET.to_string()),
            expression: None,
            result_type: "int32".to_string(),
            parameters: StringMap::new(),
        }],
    };

    let batch = make_test_batch();
    let result = spec.compute_bucket(&batch, 0);

    assert!(result.is_err());
    assert!(matches!(result, Err(Error::MissingNumBuckets)));
    assert!(matches!(spec.compute_buckets(&batch), Err(Error::MissingNumBuckets)));
}

#[test]
fn test_multi_column_bucket() {
    let spec = RegionSpec {
        spec_id: 1,
        fields: vec![RegionField {
            field_id: "multi_bucket".to_string(),
            source_ids: vec![0, 2],
            transform: Some(transforms::MULTI_BUCKET.to_string()),
            expression: None,
            result_type: "int32".to_string(),
            parameters: parameters("4"),
        }],
    };

    let batch = make_test_batch();
    let (buckets, num_buckets) = spec.compute_buckets(&batch).unwrap();

    assert_eq!(buckets.len(), batch.num_rows());
    assert_eq!(num_buckets, 4);

    for &bucket in &buckets {
        assert!(bucket < 4);
    }
}

#[test]
fn buckets_are_the_hashes_of_rows() {
    let batch = make_test_batch();
    let spec = RegionSpec {
        spec_id: 1,
        fields: vec![field(vec![1, 2], Some(transforms::MULTI_BUCKET), parameters("+13"))],
    };
    let (buckets, num_buckets) = spec.compute_buckets(&batch).unwrap();
    assert_eq!(num_buckets, 13);
    let names = ["alice", "bob", "charlie"];
    for (row, name) in names.iter().enumerate() {
        let mut data = vec![1u8];
        data.extend((name.len() as u32).to_le_bytes());
        data.extend(name.as_bytes());
        data.push(1);
        data.extend(((row as i32 + 1) * 100).to_le_bytes());
        assert_eq!(spec.fields[0].compute_identity_value(&batch, row).unwrap(), data);
        let hash = murmur3::murmur3_32(&mut Cursor::new(&data), 0).unwrap() as i32;
        assert_eq!(spec.fields[0].compute_murmur3_hash(&batch, row).unwrap(), hash);
        assert_eq!(buckets[row], hash.unsigned_abs() % 13);
        assert_eq!(spec.compute_bucket(&batch, row).unwrap().bucket, buckets[row]);
        assert_eq!(
            spec.fields[0].compute_value(&batch, row).unwrap(),
            buckets[row].to_le_bytes().to_vec()
        );
    }
}

#[test]
fn bucket_fields_are_combined() {
    let batch = make_test_batch();
    let bucket = Some(transforms::BUCKET);
    let spec = |fields: Vec<RegionField>| RegionSpec { spec_id: 1, fields };
    let first = || field(vec![0], bucket, parameters("1009"));
    let two = spec(vec![first(), field(vec![2], bucket, parameters("7"))]);
    let other = spec(vec![first(), field(vec![1], bucket, parameters("7"))]);
    let one = spec(vec![first()]);
    let joined =
        spec(vec![field(vec![0, 2], Some(transforms::MULTI_BUCKET), parameters("1009"))]);
    let with_identity = spec(vec![
        first(),
        field(vec![1], Some(transforms::IDENTITY), StringMap::new()),
        field(vec![2], Some(transforms::MULTI_BUCKET), StringMap::new()),
    ]);
    assert_eq!(two.hashed_sources(), vec![0, 2]);
    assert_eq!(with_identity.hashed_sources(), vec![0, 2]);
    assert_eq!(one.hashed_sources(), vec![0]);
    let (buckets, num_buckets) = two.compute_buckets(&batch).unwrap();
    assert_eq!(num_buckets, 1009);
    assert_eq!(buckets, joined.compute_buckets(&batch).unwrap().0);
    assert_eq!(buckets, with_identity.compute_buckets(&batch).unwrap().0);
    assert_ne!(buckets, one.compute_buckets(&batch).unwrap().0);
    assert_ne!(buckets, other.compute_buckets(&batch).unwrap().0);
    for row in 0..batch.num_rows() {
        let mut data = two.fields[0].compute_identity_value(&batch, row).unwrap();
        data.extend(two.fields[1].compute_identity_value(&batch, row).unwrap());
        let hash = murmur3::murmur3_32(&mut Cursor::new(&data), 0).unwrap() as i32;
        let found = two.compute_bucket(&batch, row).unwrap();
        assert_eq!(found.num_buckets, 1009);
        assert_eq!(found.bucket, hash.unsigned_abs() % 1009);
        assert_eq!(found.bucket, buckets[row]);
    }
    let missing = spec(vec![first(), field(vec![99], bucket, parameters("7"))]);
    assert!(matches!(missing.compute_bucket(&batch, 0), Err(Error::FieldNotFound { .. })));
    assert!(matches!(missing.compute_buckets(&batch), Err(Error::FieldNotFound { .. })));
}

#[test]
fn cells_differ_by_their_bytes() {
    let bytes_of = |data: ColumnData, null: bool| -> Vec<u8> {
        let mut array = column(data, 1);
        array.nulls[0] = null;
        let mut buffer = Vec::new();
        append_array_value(&mut buffer, &array, 0).unwrap();
        buffer
    };
    let text = |s: &str| ColumnData::Utf8(vec![s.to_string()]);
    assert_eq!(bytes_of(text(""), true), vec![0]);
    assert_ne!(bytes_of(text(""), false), bytes_of(text(""), true));
    assert_ne!(bytes_of(text("a"), false), bytes_of(text("b"), false));
    assert_eq!(bytes_of(text("a"), true), bytes_of(text("b"), true));
    let zeros = [0.0f64.to_bits(), (-0.0f64).to_bits()];
    assert_ne!(
        bytes_of(ColumnData::Float64(vec![zeros[0]]), false),
        bytes_of(ColumnData::Float64(vec![zeros[1]]), false)
    );
    assert_ne!(
        bytes_of(ColumnData::Int8(vec![0]), false),
        bytes_of(ColumnData::Int8(vec![0]), true)
    );
}

#[test]
fn buckets_of_hashes() {
    assert_eq!(bucket_from_hash(0, 7), 0);
    assert_eq!(bucket_from_hash(-1, 7), 1);
    assert_eq!(bucket_from_hash(i32::MIN, 10), 8);
    assert_eq!(bucket_from_hash(i32::MAX, 10), 7);
}

#[test]
fn values_as_bytes() {
    let bytes_of = |data: ColumnData| -> Vec<u8> {
        let mut buffer = vec![9u8];
        append_array_value(&mut buffer, &column(data, 1), 0).unwrap();
        buffer
    };
    assert_eq!(bytes_of(ColumnData::Int8(vec![-2])), vec![9, 1, 254]);
    assert_eq!(bytes_of(ColumnData::Int16(vec![-2])), vec![9, 1, 254, 255]);
    assert_eq!(bytes_of(ColumnData::Int32(vec![258])), vec![9, 1, 2, 1, 0, 0]);
    assert_eq!(
        bytes_of(ColumnData::Int64(vec![i64::MIN])),
        vec![9, 1, 0, 0, 0, 0, 0, 0, 0, 128]
    );
    assert_eq!(bytes_of(ColumnData::UInt8(vec![7])), vec![9, 1, 7]);
    assert_eq!(bytes_of(ColumnData::UInt16(vec![0x0102])), vec![9, 1, 2, 1]);
    assert_eq!(bytes_of(ColumnData::UInt32(vec![0x01020304])), vec![9, 1, 4, 3, 2, 1]);
    assert_eq!(
        bytes_of(ColumnData::UInt64(vec![u64::MAX - 1])),
        vec![9, 1, 254, 255, 255, 255, 255, 255, 255, 255]
    );
    let mut float = vec![9, 1];
    float.extend(1.5f32.to_le_bytes());
    assert_eq!(bytes_of(ColumnData::Float32(vec![1.5f32.to_bits()])), float);
    let mut double = vec![9, 1];
    double.extend((-2.25f64).to_le_bytes());
    assert_eq!(bytes_of(ColumnData::Float64(vec![(-2.25f64).to_bits()])), double);
    assert_eq!(bytes_of(ColumnData::Boolean(vec![true])), vec![9, 1, 1]);
    assert_eq!(bytes_of(ColumnData::Boolean(vec![false])), vec![9, 1, 0]);
    assert_eq!(
        bytes_of(ColumnData::Utf8(vec!["\u{e9}!".to_string()])),
        vec![9, 1, 3, 0, 0, 0, 0xc3, 0xa9, b'!']
    );
    assert_eq!(
        bytes_of(ColumnData::LargeUtf8(vec!["a".to_string()])),
        vec![9, 1, 1, 0, 0, 0, 0, 0, 0, 0, b'a']
    );
    assert_eq!(bytes_of(ColumnData::Binary(vec![vec![5, 6]])), vec![9, 1, 2, 0, 0, 0, 5, 6]);
    assert_eq!(
        bytes_of(ColumnData::LargeBinary(vec![vec![5]])),
        vec![9, 1, 1, 0, 0, 0, 0, 0, 0, 0, 5]
    );
}

#[test]
fn nulls_and_unsupported_values() {
    let mut buffer = Vec::new();
    let null = Column { field_id: None, nulls: vec![true], data: ColumnData::Int8(vec![3]) };
    append_array_value(&mut buffer, &null, 0).unwrap();
    assert_eq!(buffer, vec![0]);

    let dates = column(ColumnData::Unsupported("Date32".to_string()), 1);
    let error = append_array_value(&mut buffer, &dates, 0).unwrap_err();
    assert!(matches!(&error, Error::UnsupportedArrayType(t) if t == "Date32"));
    assert_eq!(error.kind(), ErrorKind::NotSupported);
    assert_eq!(buffer, vec![0, 1]);
}

#[test]
fn columns_by_field_id() {
    let mut batch = make_test_batch();
    assert_eq!(find_column_by_field_id(&batch, 2).unwrap(), 2);
    batch.columns[1].field_id = Some("2".to_string());
    assert_eq!(find_column_by_field_id(&batch, 2).unwrap(), 1);
    batch.columns[0].field_id = Some("+2".to_string());
    assert_eq!(find_column_by_field_id(&batch, 2).unwrap(), 0);
    batch.columns[0].field_id = Some("-2".to_string());
    assert_eq!(find_column_by_field_id(&batch, -2).unwrap(), 0);
    batch.columns[0].field_id = Some("two".to_string());
    assert_eq!(find_column_by_field_id(&batch, 0).unwrap(), 0);
    for missing in [-1, 3] {
        let error = find_column_by_field_id(&batch, missing).unwrap_err();
        assert!(matches!(
            error,
            Error::FieldNotFound { field_id, num_columns: 3 } if field_id == missing
        ));
        assert_eq!(error.kind(), ErrorKind::InvalidInput);
    }
}

#[test]
fn failures_of_bucket_specs() {
    let batch = make_test_batch();
    let none = RegionSpec { spec_id: 1, fields: vec![] };
    assert!(matches!(none.compute_bucket(&batch, 0), Err(Error::NoRegionFields)));
    assert!(matches!(none.compute_buckets(&batch), Err(Error::NoRegionFields)));

    for (text, kind) in [
        ("", IntErrorKind::Empty),
        ("four", IntErrorKind::InvalidDigit),
        ("-4", IntErrorKind::InvalidDigit),
        ("4294967296", IntErrorKind::PosOverflow),
    ] {
        let spec = RegionSpec {
            spec_id: 1,
            fields: vec![field(vec![0], Some(transforms::BUCKET), parameters(text))],
        };
        match spec.compute_bucket(&batch, 0) {
            Err(Error::InvalidNumBuckets(k)) => assert_eq!(k, kind),
            other => panic!("unexpected {:?}", other),
        }
    }

    let unknown = make_bucket_region_spec(17, 4);
    assert!(matches!(unknown.compute_bucket(&batch, 0), Err(Error::FieldNotFound { .. })));
    assert!(matches!(unknown.compute_buckets(&batch), Err(Error::FieldNotFound { .. })));
}

#[test]
fn identity_values() {
    let batch = make_test_batch();
    for transform in [None, Some(transforms::IDENTITY)] {
        let field = field(vec![2, 0], transform, StringMap::new());
        assert_eq!(
            field.compute_value(&batch, 1).unwrap(),
            vec![1, 200, 0, 0, 0, 1, 2, 0, 0, 0, 0, 0, 0, 0]
        );
    }
}

#[test]
fn buckets_without_a_bucket_transform() {
    let batch = make_test_batch();
    let spec = RegionSpec { spec_id: 1, fields: vec![field(vec![0], None, parameters("4"))] };
    assert!(spec.compute_bucket(&batch, 0).is_err());
    assert_eq!(spec.compute_buckets(&batch).unwrap().0.len(), 10);

    let empty = RecordBatch { columns: vec![], num_rows: 0 };
    assert_eq!(
        make_bucket_region_spec(0, 4).compute_buckets(&empty).unwrap(),
        (vec![], 4)
    );
}

fn uuid(value: u128) -> Uuid {
    Uuid { value }
}

fn details() -> MemWalIndexDetails {
    MemWalIndexDetails {
        snapshot_ts_millis: -5,
        num_regions: 2,
        inline_snapshots: Some(vec![1, 2]),
        region_specs: vec![make_bucket_region_spec(3, 9)],
        maintained_indexes: vec!["idx".to_string()],
        merged_generations: vec![
            MergedGeneration::new(uuid(1), 7),
            MergedGeneration::new(uuid(2), 3),
            MergedGeneration::new(uuid(1), 8),
        ],
        index_catchup: vec![
            IndexCatchupProgress::new(
                "idx".to_string(),
                vec![MergedGeneration::new(uuid(1), 6), MergedGeneration::new(uuid(2), 3)],
            ),
            IndexCatchupProgress::new("idx".to_string(), vec![MergedGeneration::new(uuid(1), 9)]),
            IndexCatchupProgress::new("other".to_string(), vec![]),
        ],
    }
}

#[test]
fn identifiers_as_bytes() {
    let value = 0xa1a2a3a4_b1b2_c1c2_d1d2_d3d4d5d6d7d8u128;
    let bytes = uuid(value).to_bytes();
    assert_eq!(bytes[0], 0xa1);
    assert_eq!(bytes[15], 0xd8);
    assert_eq!(bytes, uuid::Uuid::from_u128(value).as_bytes().to_vec());
    assert_eq!(Uuid::from_slice(&bytes), Some(uuid(value)));
    assert_eq!(Uuid::from_slice(&bytes[..15]), None);
}

#[test]
fn generations_round_trip() {
    let flushed = FlushedGeneration { generation: 4, path: "gen_4".to_string() };
    let message = pb::FlushedGeneration::from(&flushed);
    assert_eq!((message.generation, message.path.as_str()), (4, "gen_4"));
    assert_eq!(FlushedGeneration::from(message), flushed);

    let merged = MergedGeneration::new(uuid(u128::MAX - 1), 5);
    let message = pb::MergedGeneration::from(&merged);
    assert_eq!(message.generation, 5);
    assert_eq!(message.region_id.as_ref().unwrap().uuid.len(), 16);
    assert_eq!(MergedGeneration::try_from(message).unwrap(), merged);

    let progress = IndexCatchupProgress::new("idx".to_string(), vec![merged]);
    let message = pb::IndexCatchupProgress::from(&progress);
    assert_eq!(IndexCatchupProgress::try_from(message).unwrap(), progress);
    assert_eq!(progress.caught_up_generation_for_region(&uuid(u128::MAX - 1)), Some(5));
    assert_eq!(progress.caught_up_generation_for_region(&uuid(0)), None);

    let manifest = RegionManifest {
        region_id: uuid(77),
        version: 1,
        region_spec_id: 2,
        writer_epoch: 3,
        replay_after_wal_entry_position: 4,
        wal_entry_position_last_seen: 5,
        current_generation: 6,
        flushed_generations: vec![flushed],
    };
    let message = pb::RegionManifest::from(&manifest);
    assert_eq!(RegionManifest::try_from(message).unwrap(), manifest);
}

#[test]
fn messages_without_a_region_id() {
    let missing = pb::MergedGeneration { region_id: None, generation: 1 };
    let error = MergedGeneration::try_from(missing).unwrap_err();
    assert!(matches!(error, Error::MissingRegionId(RegionIdOwner::MergedGeneration)));
    assert_eq!(error.kind(), ErrorKind::InvalidInput);

    let short = pb::MergedGeneration {
        region_id: Some(pb::Uuid { uuid: vec![1, 2, 3] }),
        generation: 1,
    };
    let error = MergedGeneration::try_from(short.clone()).unwrap_err();
    assert!(matches!(error, Error::MalformedUuid));
    assert_eq!(error.kind(), ErrorKind::Io);

    let progress = pb::IndexCatchupProgress {
        index_name: "idx".to_string(),
        caught_up_generations: vec![short],
    };
    assert!(matches!(IndexCatchupProgress::try_from(progress), Err(Error::MalformedUuid)));

    let manifest = pb::RegionManifest {
        region_id: None,
        version: 0,
        region_spec_id: 0,
        writer_epoch: 0,
        replay_after_wal_entry_position: 0,
        wal_entry_position_last_seen: 0,
        current_generation: 0,
        flushed_generations: vec![],
    };
    assert!(matches!(
        RegionManifest::try_from(manifest),
        Err(Error::MissingRegionId(RegionIdOwner::RegionManifest))
    ));
}

#[test]
fn details_round_trip() {
    let details = details();
    let message = pb::MemWalIndexDetails::from(&details);
    assert_eq!(message.region_specs[0].fields[0].parameters.get("num_buckets").unwrap(), "9");
    assert_eq!(MemWalIndexDetails::try_from(message).unwrap(), details);

    let mut broken = pb::MemWalIndexDetails::from(&details);
    broken.index_catchup[1].caught_up_generations[0].region_id = None;
    assert!(matches!(
        MemWalIndexDetails::try_from(broken),
        Err(Error::MissingRegionId(RegionIdOwner::MergedGeneration))
    ));

    let empty = MemWalIndexDetails::default();
    assert_eq!(empty.num_regions, 0);
    assert!(empty.index_catchup.is_empty());
    assert_eq!(IndexCatchupProgress::default().index_name, "");
}

#[test]
fn specs_round_trip() {
    let spec = make_bucket_region_spec(3, 9);
    let message = pb::RegionSpec::from(&spec);
    assert_eq!(RegionSpec::from(message), spec);
    let field = spec.fields[0].clone();
    assert_eq!(RegionField::from(pb::RegionField::from(&field)), field);
    assert_ne!(make_bucket_region_spec(3, 8), spec);
}

#[test]
fn caught_up_indexes() {
    let index = MemWalIndex::new(details());
    assert_eq!(index.merged_generation_for_region(&uuid(1)), Some(7));
    assert_eq!(index.merged_generation_for_region(&uuid(9)), None);
    assert_eq!(index.index_caught_up_generation("idx", &uuid(1)), Some(6));
    assert_eq!(index.index_caught_up_generation("other", &uuid(1)), None);
    assert_eq!(index.index_caught_up_generation("unknown", &uuid(1)), None);
    assert!(!index.is_index_caught_up("idx", &uuid(1)));
    assert!(index.is_index_caught_up("idx", &uuid(2)));
    assert!(index.is_index_caught_up("idx", &uuid(9)));
    assert!(index.is_index_caught_up("other", &uuid(1)));
    assert!(index.is_index_caught_up("unknown", &uuid(1)));
}

#[test]
fn statistics_of_an_index() {
    let index = MemWalIndex::new(details());
    let stats = index.statistics();
    assert_eq!(stats.num_regions, 2);
    assert_eq!(stats.num_merged_generations, 3);
    assert_eq!(stats.num_region_specs, 1);
    assert_eq!(stats.num_maintained_indexes, 1);
    assert_eq!(stats.num_index_catchup_entries, 3);
    assert_eq!(index.index_type(), IndexType::MemWal);
    assert!(index.calculate_included_frags().is_empty());
    assert_eq!(MEM_WAL_INDEX_NAME, "__lance_mem_wal");
}
