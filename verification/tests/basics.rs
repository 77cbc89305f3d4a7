use std::collections::HashMap;

use lance_index::bytes::{push_le, read_le};
use lance_index::optimize::OptimizeOptions;
use lance_index::ordered::OrderedFloat;
use lance_index::string_map::StringMap;
use lance_index::text::{
    ends_with, parse_i32, parse_u32, render, render_int, same_text, IntErrorKind,
};

#[test]
fn floats_in_their_total_order() {
    let floats = [
        f32::NEG_INFINITY,
        f32::MIN,
        -1.5,
        -f32::MIN_POSITIVE,
        -0.0,
        0.0,
        1e-40,
        2.5,
        f32::MAX,
        f32::INFINITY,
    ];
    let keys: Vec<OrderedFloat> =
        floats.iter().map(|x| OrderedFloat::from_bits(x.to_bits())).collect();
    for (i, a) in floats.iter().enumerate() {
        assert_eq!(keys[i].to_bits(), a.to_bits());
        assert!(!keys[i].is_nan());
        for (j, b) in floats.iter().enumerate() {
            assert_eq!(keys[i].key < keys[j].key, a.total_cmp(b).is_lt());
            assert_eq!(keys[i].float_gt(&keys[j]), a > b);
            assert_eq!(keys[i].float_eq(&keys[j]), a == b);
        }
    }
    let nan = OrderedFloat::from_bits(f32::NAN.to_bits());
    assert!(nan.is_nan());
    assert!(OrderedFloat::from_bits(f32::NAN.to_bits() | 0x8000_0000).is_nan());
    assert!(!nan.float_gt(&keys[0]) && !keys[9].float_gt(&nan) && !nan.float_eq(&nan));
}

#[test]
fn numbers_as_bytes() {
    let mut buffer = vec![7];
    push_le(&mut buffer, 0x0102_0304_0506_0708, 8);
    push_le(&mut buffer, 0x0102_0304, 2);
    assert_eq!(buffer, vec![7, 8, 7, 6, 5, 4, 3, 2, 1, 4, 3]);
    assert_eq!(read_le(&buffer[1..9]), 0x0102_0304_0506_0708);
    assert_eq!(read_le(&[]), 0);
}

#[test]
fn numbers_in_text() {
    for text in [
        "", "+", "-", "0", "+0", "-0", "00012", "4294967295", "4294967296", "99999999999999999999",
        "-1", "+-1", " 1", "1 ", "1_0", "12a", "2147483647", "2147483648", "-2147483648",
        "-2147483649", "\u{0663}", "99999999999x",
    ] {
        assert_eq!(parse_u32(text).ok(), text.parse::<u32>().ok(), "{}", text);
        assert_eq!(parse_i32(text), text.parse::<i32>().ok(), "{}", text);
        if let Err(kind) = parse_u32(text) {
            let expected = match text.parse::<u32>().unwrap_err().kind() {
                std::num::IntErrorKind::Empty => IntErrorKind::Empty,
                std::num::IntErrorKind::PosOverflow => IntErrorKind::PosOverflow,
                _ => IntErrorKind::InvalidDigit,
            };
            assert_eq!(kind, expected, "{}", text);
        }
    }
    for n in [0u64, 7, 10, 4_294_967_295, u64::MAX] {
        assert_eq!(render(n), n.to_string());
    }
    for n in [0i64, -1, 42, i64::MIN, i64::MAX] {
        assert_eq!(render_int(n), n.to_string());
    }
    assert_eq!(parse_u32(&render(4_000_000_000)), Ok(4_000_000_000));
}

#[test]
fn texts() {
    assert!(same_text(&"abc".to_string(), "abc"));
    assert!(!same_text(&"abc".to_string(), "abd"));
    assert!(ends_with("type/BitmapIndexDetails", "BitmapIndexDetails"));
    assert!(ends_with("\u{e9}x", "x"));
    assert!(ends_with("x", ""));
    assert!(!ends_with("Details", "IndexDetails"));
    assert!(!ends_with("Detailz", "Details"));
}

#[test]
fn maps_of_text() {
    let mut map = StringMap::new();
    assert_eq!(map.len(), 0);
    assert!(map.get("a").is_none());
    map.insert("a".to_string(), "1".to_string());
    map.insert("b".to_string(), "2".to_string());
    map.insert("a".to_string(), "3".to_string());
    assert_eq!(map.len(), 2);
    assert_eq!(map.get("a").unwrap(), "3");
    let mut other = StringMap::new();
    other.insert("b".to_string(), "2".to_string());
    assert_ne!(map, other);
    other.insert("a".to_string(), "4".to_string());
    assert_ne!(map, other);
    other.insert("a".to_string(), "3".to_string());
    assert_eq!(map, other);
    assert_eq!(map.clone(), map);
}

#[test]
fn optimize_options() {
    let options = OptimizeOptions::new();
    assert_eq!(options.num_indices_to_merge, Some(1));
    assert_eq!(options.index_names, None);
    assert!(!options.retrain);
    assert!(options.transaction_properties.is_none());
    assert_eq!(OptimizeOptions::default().num_indices_to_merge, Some(1));
    assert_eq!(OptimizeOptions::merge(3).num_indices_to_merge, Some(3));
    assert_eq!(OptimizeOptions::append().num_indices_to_merge, Some(0));
    let retrain = OptimizeOptions::retrain();
    assert!(retrain.retrain);
    assert_eq!(retrain.num_indices_to_merge, None);

    let mut properties = HashMap::new();
    properties.insert("job_id".to_string(), "7".to_string());
    let options = OptimizeOptions::merge(2)
        .num_indices_to_merge(None)
        .index_names(vec!["idx".to_string()])
        .transaction_properties(properties);
    assert_eq!(options.num_indices_to_merge, None);
    assert_eq!(options.index_names, Some(vec!["idx".to_string()]));
    assert_eq!(options.transaction_properties.unwrap().get("job_id").unwrap(), "7");
}
