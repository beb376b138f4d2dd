use archive_mirror::encode::{encode, read_value, resolve, serialize, try_resolve, Value};
use archive_mirror::layout::{offset_of, size_of, Shape};
use archive_mirror::sink::ByteSink;
use archive_mirror::tag::{le_bytes, le_value_at, tag_width};

fn leaf(bytes: Vec<u8>) -> Value {
    Value::Leaf { bytes }
}

fn two_leaf_shape() -> Shape {
    Shape::Record {
        fields: vec![Shape::Leaf { size: 2 }, Shape::Leaf { size: 3 }],
    }
}

fn two_leaf_value() -> Value {
    Value::Record {
        fields: vec![leaf(vec![1, 2]), leaf(vec![3, 4, 5])],
    }
}

#[test]
fn tag_width_steps() {
    assert_eq!(tag_width(0), 1);
    assert_eq!(tag_width(1), 1);
    assert_eq!(tag_width(255), 1);
    assert_eq!(tag_width(256), 2);
    assert_eq!(tag_width(65535), 2);
    assert_eq!(tag_width(65536), 4);
    assert_eq!(tag_width(4294967295), 4);
    assert_eq!(tag_width(4294967296), 8);
}

#[test]
fn le_bytes_round_trip() {
    let b = le_bytes(0x0102030405060708, 8);
    assert_eq!(b, vec![8, 7, 6, 5, 4, 3, 2, 1]);
    let v = le_value_at(&b, 0, 8);
    assert_eq!(v, 0x0102030405060708);
    let short = le_bytes(300, 2);
    assert_eq!(short, vec![44, 1]);
    assert_eq!(le_value_at(&short, 0, 2), 300);
}

#[test]
fn record_of_leaves_round_trips() {
    let shape = two_leaf_shape();
    let value = two_leaf_value();
    let mut sink = ByteSink::new(64);
    let pos = encode(&value, &shape, &mut sink).unwrap();
    assert_eq!(pos, 0);
    let buf = sink.into_bytes();
    assert_eq!(buf, vec![1, 2, 3, 4, 5]);
    let back = read_value(&shape, &buf, pos).unwrap();
    assert_eq!(back, two_leaf_value());
}

#[test]
fn resolve_is_position_independent_and_offsets_are_exact() {
    let shape = two_leaf_shape();
    let value = two_leaf_value();
    let mut sink = ByteSink::new(8);
    let r = serialize(&value, &mut sink).unwrap();
    let at0 = resolve(&r, 0, &value, &shape);
    let at17 = resolve(&r, 17, &value, &shape);
    let at4096 = resolve(&r, 4096, &value, &shape);
    assert_eq!(at0, at17);
    assert_eq!(at0, at4096);
    let fields = match &shape {
        Shape::Record { fields } => fields,
        _ => unreachable!(),
    };
    let off0 = offset_of(fields, 0);
    let off1 = offset_of(fields, 1);
    assert_eq!(off0, 0);
    assert_eq!(off1, 2);
    assert_eq!(&at0[off0..off0 + 2], &[1, 2]);
    assert_eq!(&at0[off1..off1 + 3], &[3, 4, 5]);
    assert_eq!(size_of(&shape), 5);
}

#[test]
fn variant_value_round_trips_with_tag_and_padding() {
    let shape = Shape::Variants {
        variants: vec![
            archive_mirror::layout::VariantFields { fields: vec![Shape::Leaf { size: 1 }] },
            archive_mirror::layout::VariantFields {
                fields: vec![Shape::Leaf { size: 2 }, Shape::Leaf { size: 2 }],
            },
        ],
    };
    assert_eq!(size_of(&shape), 5);

    let wide = Value::Variant { index: 1, fields: vec![leaf(vec![0xAA, 0xBB]), leaf(vec![0xCC, 0xDD])] };
    let mut sink = ByteSink::new(16);
    let pos = encode(&wide, &shape, &mut sink).unwrap();
    let buf = sink.into_bytes();
    assert_eq!(buf, vec![1, 0xAA, 0xBB, 0xCC, 0xDD]);
    let back = read_value(&shape, &buf, pos).unwrap();
    assert_eq!(
        back,
        Value::Variant { index: 1, fields: vec![leaf(vec![0xAA, 0xBB]), leaf(vec![0xCC, 0xDD])] }
    );

    let narrow = Value::Variant { index: 0, fields: vec![leaf(vec![9])] };
    let mut sink2 = ByteSink::new(16);
    let pos2 = encode(&narrow, &shape, &mut sink2).unwrap();
    let buf2 = sink2.into_bytes();
    assert_eq!(buf2, vec![0, 9, 0, 0, 0]);
    let back2 = read_value(&shape, &buf2, pos2).unwrap();
    assert_eq!(back2, Value::Variant { index: 0, fields: vec![leaf(vec![9])] });
}

#[test]
fn variant_mismatch_yields_no_bytes() {
    let shape = Shape::Variants {
        variants: vec![
            archive_mirror::layout::VariantFields { fields: vec![Shape::Leaf { size: 1 }] },
            archive_mirror::layout::VariantFields { fields: vec![Shape::Leaf { size: 1 }] },
        ],
    };
    let from_a = Value::Variant { index: 0, fields: vec![leaf(vec![1])] };
    let holds_b = Value::Variant { index: 1, fields: vec![leaf(vec![2])] };
    let mut sink = ByteSink::new(16);
    let r = serialize(&from_a, &mut sink).unwrap();
    assert_eq!(try_resolve(&r, 0, &holds_b, &shape), None);
    assert!(try_resolve(&r, 0, &from_a, &shape).is_some());
}

#[test]
fn copy_safe_leaf_is_content_identical() {
    let shape = Shape::Leaf { size: 3 };
    let value = leaf(vec![7, 8, 9]);
    let mut sink = ByteSink::new(8);
    let pos = encode(&value, &shape, &mut sink).unwrap();
    let buf = sink.into_bytes();
    assert_eq!(pos, 0);
    assert_eq!(buf, vec![7, 8, 9]);
}

#[test]
fn sink_reports_exhaustion_and_stays_unchanged() {
    let shape = Shape::Leaf { size: 5 };
    let value = leaf(vec![1, 2, 3, 4, 5]);
    let mut sink = ByteSink::new(4);
    assert!(encode(&value, &shape, &mut sink).is_err());
    assert_eq!(sink.pos(), 0);
    let mut roomy = ByteSink::new(5);
    assert!(encode(&value, &shape, &mut roomy).is_ok());
    assert_eq!(roomy.pos(), 5);
}

#[test]
fn sink_write_advances_position() {
    let mut sink = ByteSink::new(4);
    assert!(sink.write(&vec![1, 2, 3]).is_ok());
    assert_eq!(sink.pos(), 3);
    assert!(sink.write(&vec![4, 5]).is_err());
    assert_eq!(sink.pos(), 3);
    assert!(sink.write(&vec![4]).is_ok());
    assert_eq!(sink.into_bytes(), vec![1, 2, 3, 4]);
}

#[test]
fn empty_record_archives_to_nothing() {
    let shape = Shape::Record { fields: vec![] };
    let value = Value::Record { fields: vec![] };
    assert_eq!(size_of(&shape), 0);
    let mut sink = ByteSink::new(4);
    let pos = encode(&value, &shape, &mut sink).unwrap();
    let buf = sink.into_bytes();
    assert_eq!(buf, Vec::<u8>::new());
    assert_eq!(read_value(&shape, &buf, pos).unwrap(), Value::Record { fields: vec![] });
}

#[test]
fn zero_variant_shape_reads_nothing_back() {
    let shape = Shape::Variants { variants: vec![] };
    assert_eq!(size_of(&shape), 1);
    assert_eq!(read_value(&shape, &vec![0], 0), None);
}

#[test]
fn reader_rejects_bytes_no_value_archives_to() {
    let shape = Shape::Variants {
        variants: vec![archive_mirror::layout::VariantFields { fields: vec![] }],
    };
    // A tag pointing past the last variant.
    assert_eq!(read_value(&shape, &vec![7], 0), None);
    // Nonzero padding after the payload.
    let shape2 = Shape::Variants {
        variants: vec![
            archive_mirror::layout::VariantFields { fields: vec![] },
            archive_mirror::layout::VariantFields { fields: vec![Shape::Leaf { size: 2 }] },
        ],
    };
    assert_eq!(read_value(&shape2, &vec![0, 1, 0], 0), None);
    assert!(read_value(&shape2, &vec![0, 0, 0], 0).is_some());
}
