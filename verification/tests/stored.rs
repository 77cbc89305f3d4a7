use lance_index::encoded_dataset::{
    column_with_name, fragments_from_parsed, output_schema, read_fragments, read_sizes,
    rename_row_id, resolve_partition_fragments, sizes_from_parsed,
    DatasetDescription, EncodedDatasetShuffleReader, SchemaField,
    PRECOMPUTED_ENCODED_PARTITION_FRAGMENT_IDS_METADATA_KEY,
    PRECOMPUTED_ENCODED_PARTITION_SIZES_METADATA_KEY,
    PRECOMPUTED_ENCODED_TOTAL_LOSS_METADATA_KEY, ROW_ID,
};
use lance_index::error::{Error, ErrorKind};
use lance_index::fragments::{collect_fragments, fragment_ids};
use lance_index::index_type::IndexType;
use lance_index::mem_wal::Uuid;
use lance_index::scalar::bitmap::{
    build_segment, plan_segments, Any, IndexFile, IndexMetadata, IndexSegment, IndexSegmentPlan,
};
use lance_index::string_map::StringMap;
use lance_index::table_identifier::{
    open_dataset_from_table_identifier, table_identifier_from_dataset,
    table_identifier_from_dataset_with_manifest, DatasetLocation,
};
use lance_index::vector::distance::DistanceType;
use lance_index::vector::ivf_state::{write_parts, KindNames, KindParsers, IVF_TYPE_TAG};
use lance_index::vector::quantizer::QuantizationType;
use lance_index::vector::{
    deserialize_vector_index_data, IvfIndexState, IvfIndexStateHeader, PART_ID_COLUMN,
    PQ_CODE_COLUMN,
};

fn uuid(value: u128) -> Uuid {
    Uuid { value }
}

fn segment(id: u128, fragments: &[u32]) -> IndexMetadata {
    IndexMetadata {
        uuid: uuid(id),
        name: "bitmap_idx".to_string(),
        dataset_version: 3,
        fragment_bitmap: Some(collect_fragments(&fragments.to_vec())),
        index_details: Some(Any {
            type_url: "/lance.index.pb.BitmapIndexDetails".to_string(),
            value: vec![1, 2],
        }),
        index_version: 2,
        files: Some(vec![
            IndexFile { path: "a".to_string(), size_bytes: 10 },
            IndexFile { path: "b".to_string(), size_bytes: 5 },
        ]),
    }
}

#[test]
fn fragments_are_a_set() {
    let bitmap = collect_fragments(&vec![70000, 3, 9, 3]);
    assert_eq!(fragment_ids(&bitmap), vec![3, 9, 70000]);
    assert_eq!(bitmap.len(), 3);
    assert!(fragment_ids(&collect_fragments(&vec![])).is_empty());
}

#[test]
fn one_plan_for_each_segment() {
    let mut second = segment(8, &[7]);
    second.files = None;
    let segments = vec![segment(7, &[4, 1]), second];
    let plans = plan_segments(&segments, None).unwrap();
    assert_eq!(plans.len(), 2);
    assert_eq!(plans[0].estimated_bytes(), 15);
    assert_eq!(plans[1].estimated_bytes(), 0);
    assert_eq!(plans[0].requested_index_type(), Some(IndexType::Bitmap));
    assert_eq!(plans[0].segments().len(), 1);
    for (plan, source) in plans.iter().zip(&segments) {
        let built = build_segment(plan).unwrap();
        assert_eq!(built.uuid(), source.uuid);
        assert_eq!(built.index_version(), 2);
        assert_eq!(built.index_details().value, vec![1, 2]);
        assert_eq!(
            built.fragments(),
            fragment_ids(source.fragment_bitmap.as_ref().unwrap())
        );
    }
    assert_eq!(build_segment(&plans[0]).unwrap().fragments(), vec![1, 4]);
    assert_eq!(plan_segments(&segments[..1], Some(1)).unwrap().len(), 1);
    assert!(plan_segments(&[], Some(1)).unwrap().is_empty());
}

#[test]
fn segments_that_cannot_be_planned() {
    let good = || segment(7, &[1]);
    assert!(matches!(
        plan_segments(&[good()], Some(0)),
        Err(Error::ZeroTargetSegmentBytes)
    ));
    let merge = plan_segments(&[good(), good()], Some(100)).unwrap_err();
    assert!(matches!(merge, Error::MergeNotSupported));
    assert_eq!(merge.kind(), ErrorKind::InvalidInput);

    let mut uncovered = segment(9, &[1]);
    uncovered.fragment_bitmap = None;
    let error = plan_segments(&[good(), uncovered], None).unwrap_err();
    assert!(matches!(error, Error::MissingFragmentCoverage(id) if id == uuid(9)));
    assert_eq!(error.kind(), ErrorKind::Index);

    let mut bare = segment(10, &[1]);
    bare.index_details = None;
    assert!(matches!(
        plan_segments(&[bare], None),
        Err(Error::MissingIndexDetails(id)) if id == uuid(10)
    ));

    let mut other = segment(11, &[1]);
    other.index_details.as_mut().unwrap().type_url = "BitmapIndexDetails2".to_string();
    assert!(matches!(
        plan_segments(&[other], None),
        Err(Error::NotBitmapSegment(id)) if id == uuid(11)
    ));
}

#[test]
fn segments_that_cannot_be_built() {
    let details = || Any { type_url: "t".to_string(), value: vec![] };
    let built = || IndexSegment::new(uuid(1), &vec![2], details(), 0);
    let none = IndexSegmentPlan::new(built(), vec![], 0, None);
    assert!(matches!(build_segment(&none), Err(Error::MergeNotSupported)));
    let two = IndexSegmentPlan::new(built(), vec![segment(1, &[2]), segment(1, &[2])], 0, None);
    assert!(matches!(build_segment(&two), Err(Error::MergeNotSupported)));
    let other = IndexSegmentPlan::new(built(), vec![segment(2, &[2])], 0, None);
    assert!(matches!(build_segment(&other), Err(Error::SegmentUuidMismatch)));
    let same = IndexSegmentPlan::new(built(), vec![segment(1, &[9])], 0, None);
    assert_eq!(build_segment(&same).unwrap().fragments(), vec![2]);
    assert_eq!(same.segment().uuid(), uuid(1));
}

fn dataset(columns: &[&str], metadata: &[(&str, &str)], fragment_ids: &[u64]) -> DatasetDescription {
    let mut map = StringMap::new();
    for (key, value) in metadata {
        map.insert(key.to_string(), value.to_string());
    }
    DatasetDescription {
        columns: columns.iter().map(|c| c.to_string()).collect(),
        metadata: map,
        fragment_ids: fragment_ids.to_vec(),
    }
}

const COLUMNS: [&str; 3] = ["row_id", "__ivf_part_id", "__pq_code"];

fn parse_loss(text: &str) -> Result<u64, String> {
    serde_json::from_str::<f64>(text).map(|loss| loss.to_bits()).map_err(|e| e.to_string())
}

#[test]
fn encoded_dataset_reader_reads_mapped_fragments_and_renames_row_id() {
    assert_eq!((COLUMNS[1], COLUMNS[2]), (PART_ID_COLUMN, PQ_CODE_COLUMN));
    let fragments = [0u64, 1];
    let sizes = serde_json::to_string(&vec![1_usize, 3]).unwrap();
    let ids =
        serde_json::to_string(&vec![vec![fragments[0]], vec![fragments[0], fragments[1]]]).unwrap();
    let description = dataset(
        &COLUMNS,
        &[
            (PRECOMPUTED_ENCODED_PARTITION_SIZES_METADATA_KEY, sizes.as_str()),
            (PRECOMPUTED_ENCODED_PARTITION_FRAGMENT_IDS_METADATA_KEY, ids.as_str()),
        ],
        &fragments,
    );

    let reader = EncodedDatasetShuffleReader::try_new(&description, &parse_loss).unwrap();
    assert_eq!(reader.partition_size(0), 1);
    assert_eq!(reader.partition_size(1), 3);
    assert_eq!(reader.partition_size(2), 0);
    assert_eq!(reader.total_loss(), None);

    let scan = reader.read_partition(1).unwrap();
    assert_eq!(scan.projection, vec!["row_id", "__ivf_part_id", "__pq_code"]);
    assert_eq!(scan.fragments, Some(vec![0, 1]));
    assert_eq!(scan.filter, "__ivf_part_id = 1");
    assert!(!scan.fragments_missing);

    let stored = [[(10u64, 0u32), (11, 1)], [(12, 1), (13, 1)]];
    let row_ids: Vec<u64> = scan
        .fragments
        .unwrap()
        .into_iter()
        .flat_map(|fragment| stored[fragment])
        .filter(|(_, part)| format!("{} = {}", PART_ID_COLUMN, part) == scan.filter)
        .map(|(row_id, _)| row_id)
        .collect();
    assert_eq!(row_ids, vec![11, 12, 13]);

    let fields: Vec<SchemaField<u8>> = COLUMNS
        .iter()
        .enumerate()
        .map(|(i, name)| {
            let mut metadata = StringMap::new();
            metadata.insert("k".to_string(), "v".to_string());
            SchemaField { name: name.to_string(), data_type: i as u8, nullable: i == 2, metadata }
        })
        .collect();
    let schema = output_schema(fields);
    assert!(column_with_name(&schema, "row_id").is_none());
    assert_eq!(column_with_name(&schema, ROW_ID), Some(0));
    assert_eq!(schema[0].data_type, 0);
    assert!(!schema[0].nullable);
    assert_eq!(schema[0].metadata.len(), 0);
    assert_eq!(schema[1].name, "__ivf_part_id");
    assert_eq!(schema[1].metadata.len(), 1);
    assert!(schema[2].nullable);
}

#[test]
fn schemas_without_a_precomputed_row_id() {
    let fields = vec![SchemaField {
        name: ROW_ID.to_string(),
        data_type: (),
        nullable: false,
        metadata: StringMap::new(),
    }];
    let same = output_schema(fields);
    assert_eq!(same[0].name, ROW_ID);
    assert_eq!(rename_row_id(same, 5)[0].name, ROW_ID);
}

#[test]
fn partitions_that_are_not_read() {
    let description = dataset(
        &["_rowid", "row_id", "__ivf_part_id", "__pq_code"],
        &[
            (PRECOMPUTED_ENCODED_PARTITION_SIZES_METADATA_KEY, "[0, 2, 4]"),
            (PRECOMPUTED_ENCODED_PARTITION_FRAGMENT_IDS_METADATA_KEY, "[[], [], [6, 5, 6]]"),
            (PRECOMPUTED_ENCODED_TOTAL_LOSS_METADATA_KEY, "1.5"),
        ],
        &[5, 6, 5],
    );
    let reader = EncodedDatasetShuffleReader::try_new(&description, &parse_loss).unwrap();
    assert_eq!(reader.row_id_column, "_rowid");
    assert_eq!(reader.total_loss(), Some(1.5f64.to_bits()));
    assert!(reader.read_partition(0).is_none());
    assert!(reader.read_partition(3).is_none());
    let missing = reader.read_partition(1).unwrap();
    assert_eq!(missing.fragments, None);
    assert!(missing.fragments_missing);
    let found = reader.read_partition(2).unwrap();
    assert_eq!(found.fragments, Some(vec![1, 2, 1]));
    assert_eq!(found.projection[0], "_rowid");

    let whole = dataset(
        &COLUMNS,
        &[(PRECOMPUTED_ENCODED_PARTITION_SIZES_METADATA_KEY, "[3]")],
        &[],
    );
    let reader = EncodedDatasetShuffleReader::try_new(&whole, &parse_loss).unwrap();
    let scan = reader.read_partition(0).unwrap();
    assert_eq!(scan.fragments, None);
    assert!(!scan.fragments_missing);
}

#[test]
fn datasets_that_cannot_be_opened() {
    let open = |description: &DatasetDescription| {
        EncodedDatasetShuffleReader::try_new(description, &parse_loss).unwrap_err()
    };
    let sizes = (PRECOMPUTED_ENCODED_PARTITION_SIZES_METADATA_KEY, "[1]");
    let ids_key = PRECOMPUTED_ENCODED_PARTITION_FRAGMENT_IDS_METADATA_KEY;

    assert!(matches!(
        open(&dataset(&["__ivf_part_id", "__pq_code"], &[sizes], &[])),
        Error::MissingRowIdColumn
    ));
    assert!(matches!(
        open(&dataset(&["row_id"], &[sizes], &[])),
        Error::MissingColumn("__ivf_part_id")
    ));
    assert!(matches!(
        open(&dataset(&["row_id", "__ivf_part_id"], &[sizes], &[])),
        Error::MissingColumn("__pq_code")
    ));
    let missing = open(&dataset(&COLUMNS, &[], &[]));
    assert!(matches!(
        missing,
        Error::MissingMetadata(k) if k == PRECOMPUTED_ENCODED_PARTITION_SIZES_METADATA_KEY
    ));
    assert_eq!(missing.kind(), ErrorKind::InvalidInput);
    let text = "[1, -2]";
    match open(&dataset(
        &COLUMNS,
        &[(PRECOMPUTED_ENCODED_PARTITION_SIZES_METADATA_KEY, text)],
        &[],
    )) {
        Error::MetadataParse { key, value, error } => {
            assert_eq!(key, PRECOMPUTED_ENCODED_PARTITION_SIZES_METADATA_KEY);
            assert_eq!(value, text);
            let expected = "invalid value: integer `-2`, expected usize at line 1 column 6";
            assert_eq!(error, expected);
        }
        other => panic!("unexpected {:?}", other),
    }
    assert!(matches!(
        open(&dataset(&COLUMNS, &[sizes, (ids_key, "[[1], 2]")], &[1])),
        Error::MetadataParse { key, .. } if key == ids_key
    ));
    assert!(matches!(
        open(&dataset(&COLUMNS, &[sizes, (ids_key, "[[4]]")], &[1])),
        Error::UnknownFragment(4)
    ));
    assert!(matches!(
        open(&dataset(&COLUMNS, &[sizes, (ids_key, "[[1], []]")], &[1])),
        Error::PartitionCountMismatch { fragments: 2, sizes: 1 }
    ));
    assert!(matches!(
        open(&dataset(
            &COLUMNS,
            &[sizes, (PRECOMPUTED_ENCODED_TOTAL_LOSS_METADATA_KEY, "much")],
            &[]
        )),
        Error::MetadataParse { key, .. } if key == PRECOMPUTED_ENCODED_TOTAL_LOSS_METADATA_KEY
    ));
}

#[test]
fn metadata_entries_as_they_were_read() {
    let text = "[..]".to_string();
    assert_eq!(sizes_from_parsed(&text, Ok(vec![4, 5])).unwrap(), vec![4, 5]);
    assert!(matches!(
        sizes_from_parsed(&text, Err("no".to_string())),
        Err(Error::MetadataParse { value, error, .. }) if value == "[..]" && error == "no"
    ));

    let description = dataset(&[], &[], &[3, 4]);
    assert_eq!(
        fragments_from_parsed(&description, &text, Ok(vec![vec![4, 3], vec![]])).unwrap(),
        vec![vec![1, 0], vec![]]
    );
    assert!(fragments_from_parsed(&description, &text, Err("no".to_string())).is_err());
    assert!(matches!(
        resolve_partition_fragments(&description, &vec![vec![3], vec![3, 9, 8]]),
        Err(Error::UnknownFragment(9))
    ));
    assert!(read_fragments(&description).unwrap().is_none());
    assert!(read_sizes(&description.metadata).is_err());
}

#[test]
fn identifiers_of_datasets() {
    let location = DatasetLocation {
        uri: "memory://table".to_string(),
        version: 12,
        e_tag: Some("tag".to_string()),
    };
    let light = table_identifier_from_dataset(&location, Ok(None)).unwrap();
    assert_eq!(light.uri, "memory://table");
    assert_eq!(light.version, 12);
    assert_eq!(light.manifest_etag, Some("tag".to_string()));
    assert_eq!(light.serialized_manifest, None);
    assert_eq!(light.storage_options.len(), 0);
    let plan = open_dataset_from_table_identifier(&light);
    assert_eq!((plan.uri.as_str(), plan.version), ("memory://table", 12));
    assert_eq!(plan.serialized_manifest, None);
    assert!(plan.storage_options.is_none());

    let mut options = StringMap::new();
    options.insert("region".to_string(), "eu".to_string());
    let full =
        table_identifier_from_dataset_with_manifest(&location, vec![9, 8], Ok(Some(options)))
            .unwrap();
    assert_eq!(full.serialized_manifest, Some(vec![9, 8]));
    let plan = open_dataset_from_table_identifier(&full);
    assert_eq!(plan.serialized_manifest, Some(vec![9, 8]));
    assert_eq!(plan.storage_options.unwrap().get("region").unwrap(), "eu");

    assert!(matches!(
        table_identifier_from_dataset(&location, Err(Error::UnexpectedEnd)),
        Err(Error::UnexpectedEnd)
    ));
    assert!(table_identifier_from_dataset_with_manifest(
        &location,
        vec![],
        Err(Error::Io("gone".to_string()))
    )
    .is_err());
}

/// A kind of sub-index.
#[derive(Debug, Clone, Copy, PartialEq)]
enum SubIndex {
    Flat,
    Graph,
}

fn distance_name(kind: &DistanceType) -> String {
    format!("{kind:?}")
}

fn sub_index_name(kind: &SubIndex) -> String {
    format!("{kind:?}")
}

fn quantization_name(kind: &QuantizationType) -> String {
    format!("{kind:?}")
}

fn unknown(name: &str) -> Error {
    Error::Io(format!("unknown {name}"))
}

fn parse_distance(name: &str) -> Result<DistanceType, Error> {
    [DistanceType::L2, DistanceType::Cosine, DistanceType::Dot, DistanceType::Hamming]
        .into_iter()
        .find(|kind| distance_name(kind) == name)
        .ok_or_else(|| unknown(name))
}

fn parse_sub_index(name: &str) -> Result<SubIndex, Error> {
    [SubIndex::Flat, SubIndex::Graph]
        .into_iter()
        .find(|kind| sub_index_name(kind) == name)
        .ok_or_else(|| unknown(name))
}

fn parse_quantization(name: &str) -> Result<QuantizationType, Error> {
    [QuantizationType::Flat, QuantizationType::Product, QuantizationType::Rabit]
        .into_iter()
        .find(|kind| quantization_name(kind) == name)
        .ok_or_else(|| unknown(name))
}

fn header_of(state: &IvfIndexState<Vec<u8>, SubIndex>) -> IvfIndexStateHeader {
    state.header(&KindNames {
        distance_type: distance_name,
        sub_index_type: sub_index_name,
        quantization_type: quantization_name,
    })
}

fn write(state: &IvfIndexState<Vec<u8>, SubIndex>) -> Result<Vec<u8>, Error> {
    state.serialize(
        &KindNames {
            distance_type: distance_name,
            sub_index_type: sub_index_name,
            quantization_type: quantization_name,
        },
        &encode_header,
        &encode_ivf,
    )
}

fn state(extra: Option<Vec<u8>>) -> IvfIndexState<Vec<u8>, SubIndex> {
    IvfIndexState {
        index_file_path: "index.idx".to_string(),
        uuid: "u".to_string(),
        ivf: vec![1, 2, 3],
        aux_ivf: vec![4, 5],
        distance_type: DistanceType::Cosine,
        sub_index_metadata: vec!["m".to_string()],
        quantizer_metadata_json: "{}".to_string(),
        quantizer_extra_data: extra,
        sub_index_type: SubIndex::Graph,
        quantization_type: QuantizationType::Product,
        cache_key_prefix: "p/".to_string(),
        index_file_size: 100,
        aux_file_size: 200,
    }
}

fn encode_header(header: &IvfIndexStateHeader) -> Result<Vec<u8>, Error> {
    let parts = vec![
        header.index_file_path.clone(),
        header.uuid.clone(),
        header.distance_type.clone(),
        header.sub_index_metadata.join("|"),
        header.sub_index_type.clone(),
        header.quantization_type.clone(),
        header.quantizer_metadata_json.clone(),
        header.cache_key_prefix.clone(),
        header.index_file_size.to_string(),
        header.aux_file_size.to_string(),
    ];
    serde_json::to_vec(&parts).map_err(|e| Error::Io(e.to_string()))
}

fn parse_header(bytes: &[u8]) -> Result<IvfIndexStateHeader, Error> {
    let parts: Vec<String> =
        serde_json::from_slice(bytes).map_err(|e| Error::Io(e.to_string()))?;
    Ok(IvfIndexStateHeader {
        index_file_path: parts[0].clone(),
        uuid: parts[1].clone(),
        distance_type: parts[2].clone(),
        sub_index_metadata: parts[3].split('|').map(|s| s.to_string()).collect(),
        sub_index_type: parts[4].clone(),
        quantization_type: parts[5].clone(),
        quantizer_metadata_json: parts[6].clone(),
        cache_key_prefix: parts[7].clone(),
        index_file_size: parts[8].parse().unwrap(),
        aux_file_size: parts[9].parse().unwrap(),
    })
}

fn encode_ivf(ivf: &Vec<u8>) -> Result<Vec<u8>, Error> {
    if ivf.first() == Some(&0xfe) {
        return Err(Error::HashFailed);
    }
    Ok(ivf.clone())
}

fn decode_ivf(bytes: &[u8]) -> Result<Vec<u8>, Error> {
    if bytes.first() == Some(&0xff) {
        return Err(Error::Io("bad model".to_string()));
    }
    Ok(bytes.to_vec())
}

fn decode_aux_ivf(bytes: &[u8]) -> Result<Vec<u8>, Error> {
    decode_ivf(bytes).map_err(|_| Error::Io("bad auxiliary model".to_string()))
}

fn read(bytes: &[u8]) -> Result<IvfIndexState<Vec<u8>, SubIndex>, Error> {
    read_tagged(IVF_TYPE_TAG, bytes)
}

fn read_tagged(tag: &str, bytes: &[u8]) -> Result<IvfIndexState<Vec<u8>, SubIndex>, Error> {
    let parsers = KindParsers {
        distance_type: parse_distance,
        sub_index_type: parse_sub_index,
        quantization_type: parse_quantization,
    };
    deserialize_vector_index_data(
        tag.to_string(),
        bytes,
        &parse_header,
        &decode_ivf,
        &decode_aux_ivf,
        &parsers,
    )
}

#[test]
fn states_round_trip() {
    for extra in [None, Some(vec![]), Some(vec![7u8; 300])] {
        let written = write(&state(extra.clone())).unwrap();
        let mut longer = written.clone();
        longer.extend([1, 2, 3]);
        for bytes in [written, longer] {
            let back = read(&bytes).unwrap();
            assert_eq!(back.index_file_path, "index.idx");
            assert_eq!(back.uuid, "u");
            assert_eq!(back.ivf, vec![1, 2, 3]);
            assert_eq!(back.aux_ivf, vec![4, 5]);
            assert_eq!(back.sub_index_metadata, vec!["m".to_string()]);
            assert_eq!(back.distance_type, DistanceType::Cosine);
            assert_eq!(back.sub_index_type, SubIndex::Graph);
            assert_eq!(back.quantization_type, QuantizationType::Product);
            assert_eq!(back.quantizer_metadata_json, "{}");
            assert_eq!(back.cache_key_prefix, "p/");
            assert_eq!((back.index_file_size, back.aux_file_size), (100, 200));
            assert_eq!(
                back.quantizer_extra_data,
                extra.clone().filter(|data| !data.is_empty())
            );
        }
    }
}

#[test]
fn wire_format_of_a_state() {
    let bytes = write_parts(&[9], &[], &[5, 6], &[7]);
    let mut expected = Vec::new();
    for part in [&[9u8][..], &[], &[5, 6], &[7]] {
        expected.extend((part.len() as u64).to_le_bytes());
        expected.extend(part);
    }
    assert_eq!(bytes, expected);
    assert_eq!(state(None).type_tag(), "IVF");
}

#[test]
fn states_without_an_auxiliary_model() {
    let header = encode_header(&header_of(&state(None))).unwrap();
    let mut bytes = Vec::new();
    for part in [&header[..], &[1, 2, 3], &[]] {
        bytes.extend((part.len() as u64).to_le_bytes());
        bytes.extend(part);
    }
    let legacy = read(&bytes).unwrap();
    assert_eq!(legacy.aux_ivf, legacy.ivf);
    bytes.extend([1, 0, 0]);
    assert_eq!(read(&bytes).unwrap().aux_ivf, vec![1, 2, 3]);
    bytes.extend([0, 0, 0, 0, 0]);
    assert!(matches!(read(&bytes), Err(Error::UnexpectedEnd)));
    bytes.push(8);
    assert_eq!(read(&bytes).unwrap().aux_ivf, vec![8]);
}

#[test]
fn states_that_cannot_be_read() {
    let bytes = write(&state(Some(vec![1]))).unwrap();
    let error = read(&bytes[..7]).unwrap_err();
    assert!(matches!(error, Error::UnexpectedEnd));
    assert_eq!(error.kind(), ErrorKind::Io);
    assert!(matches!(read(&bytes[..20]), Err(Error::UnexpectedEnd)));
    assert!(matches!(read(&[0xff; 20]), Err(Error::UnexpectedEnd)));
    assert!(matches!(read(&write_parts(b"no", &[], &[], &[])), Err(Error::Io(_))));
    let header = encode_header(&header_of(&state(None))).unwrap();
    assert!(matches!(
        read(&write_parts(&header, &[0xff], &[], &[])),
        Err(Error::Io(m)) if m == "bad model"
    ));
    assert!(matches!(
        read(&write_parts(&header, &[1], &[], &[0xff])),
        Err(Error::Io(m)) if m == "bad auxiliary model"
    ));
    let mut unwritable = state(None);
    unwritable.aux_ivf = vec![0xfe];
    assert!(matches!(write(&unwritable), Err(Error::HashFailed)));
}

#[test]
fn states_of_unknown_kinds() {
    let refused = |change: fn(&mut IvfIndexStateHeader), aux: &[u8]| {
        let mut header = header_of(&state(None));
        change(&mut header);
        let header = encode_header(&header).unwrap();
        match read(&write_parts(&header, &[1], &[], aux)) {
            Err(Error::Io(message)) => message,
            _ => panic!("read a state of an unknown kind"),
        }
    };
    assert_eq!(refused(|h| h.distance_type = "d".to_string(), &[]), "unknown d");
    assert_eq!(refused(|h| h.sub_index_type = "s".to_string(), &[]), "unknown s");
    assert_eq!(refused(|h| h.quantization_type = "q".to_string(), &[]), "unknown q");
    let all = |h: &mut IvfIndexStateHeader| {
        h.quantization_type = "q".to_string();
        h.sub_index_type = "s".to_string();
        h.distance_type = "d".to_string();
    };
    assert_eq!(refused(all, &[]), "unknown d");
    assert_eq!(refused(all, &[0xff]), "bad auxiliary model");
}

#[test]
fn tagged_data() {
    let bytes = write(&state(None)).unwrap();
    let back = read_tagged(IVF_TYPE_TAG, &bytes);
    assert_eq!(back.unwrap().ivf, vec![1, 2, 3]);
    let other = read_tagged("HNSW", &bytes);
    assert!(matches!(other, Err(Error::UnknownTypeTag(t)) if t == "HNSW"));
}
