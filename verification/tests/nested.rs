use archive_mirror::encode::{encode, read_value, Value};
use archive_mirror::layout::{offset_of, Shape};
use archive_mirror::sink::ByteSink;

fn nested_shape() -> Shape {
    Shape::Record {
        fields: vec![
            Shape::Record { fields: vec![Shape::Leaf { size: 2 }] },
            Shape::Record { fields: vec![Shape::Leaf { size: 3 }] },
        ],
    }
}

fn nested_value() -> Value {
    Value::Record {
        fields: vec![
            Value::Record { fields: vec![Value::Leaf { bytes: vec![0x11, 0x22] }] },
            Value::Record { fields: vec![Value::Leaf { bytes: vec![0x33, 0x44, 0x55] }] },
        ],
    }
}

#[test]
fn nested_records_round_trip_with_leaves_intact() {
    let shape = nested_shape();
    let value = nested_value();
    let mut sink = ByteSink::new(64);
    // Occupy the front of the buffer so the archived value does not sit at
    // position zero.
    sink.write(&vec![0xEE; 7]).unwrap();
    let pos = encode(&value, &shape, &mut sink).unwrap();
    assert_eq!(pos, 7);
    let buf = sink.into_bytes();
    let back = read_value(&shape, &buf, pos).unwrap();
    assert_eq!(back, nested_value());
}

#[test]
fn inner_offsets_are_relative_to_the_enclosing_record() {
    let shape = nested_shape();
    let value = nested_value();
    let mut sink = ByteSink::new(64);
    sink.write(&vec![0xEE; 7]).unwrap();
    let pos = encode(&value, &shape, &mut sink).unwrap();
    let buf = sink.into_bytes();
    let outer = match &shape {
        Shape::Record { fields } => fields,
        _ => unreachable!(),
    };
    let off_second = offset_of(outer, 1);
    assert_eq!(off_second, 2);
    // The second nested record starts at the outer position plus its own
    // offset, not at the buffer start plus the offset twice over.
    assert_eq!(&buf[pos..pos + 2], &[0x11, 0x22]);
    assert_eq!(&buf[pos + off_second..pos + off_second + 3], &[0x33, 0x44, 0x55]);
}
