use archive_mirror::range::{
    archive_range, archive_range_inclusive, read_range, read_range_inclusive, ArchivedRange,
    ArchivedRangeInclusive,
};
use archive_mirror::sink::ByteSink;

#[test]
fn half_open_range_bounds_and_membership() {
    let r = ArchivedRange { start: 3u64, end: 9u64 };
    assert!(r.contains(&5));
    assert!(!r.contains(&9));
    assert!(!r.contains(&2));
    assert!(r.contains(&3));
    assert!(!r.is_empty());
}

#[test]
fn half_open_range_with_equal_bounds_is_empty() {
    let r = ArchivedRange { start: 5u64, end: 5u64 };
    assert!(r.is_empty());
    assert!(!r.contains(&5));
}

#[test]
fn inclusive_range_with_equal_bounds_holds_one_item() {
    let r = ArchivedRangeInclusive { start: 5u64, end: 5u64 };
    assert!(!r.is_empty());
    assert!(r.contains(&5));
    assert!(!r.contains(&4));
    assert!(!r.contains(&6));
}

#[test]
fn inclusive_range_out_of_order_is_empty() {
    let r = ArchivedRangeInclusive { start: 6u64, end: 5u64 };
    assert!(r.is_empty());
}

#[test]
fn archived_range_round_trips_through_the_sink() {
    let mut sink = ByteSink::new(64);
    let pos = archive_range(3, 9, &mut sink).unwrap();
    assert_eq!(pos, 0);
    let buf = sink.into_bytes();
    assert_eq!(buf.len(), 16);
    assert_eq!(&buf[0..8], &[3, 0, 0, 0, 0, 0, 0, 0]);
    assert_eq!(&buf[8..16], &[9, 0, 0, 0, 0, 0, 0, 0]);
    let ar = read_range(&buf, pos);
    assert_eq!(ar.start, 3);
    assert_eq!(ar.end, 9);
    assert!(ar.contains(&5));
    assert!(!ar.contains(&9));
    assert!(!ar.contains(&2));
    assert!(!ar.is_empty());
}

#[test]
fn archived_inclusive_range_round_trips_through_the_sink() {
    let mut sink = ByteSink::new(64);
    sink.write(&vec![0xFF; 3]).unwrap();
    let pos = archive_range_inclusive(5, 5, &mut sink).unwrap();
    assert_eq!(pos, 3);
    let buf = sink.into_bytes();
    let ar = read_range_inclusive(&buf, pos);
    assert_eq!(ar.start, 5);
    assert_eq!(ar.end, 5);
    assert!(!ar.is_empty());
    assert!(ar.contains(&5));
}

#[test]
fn archive_range_fails_when_the_sink_is_full() {
    let mut sink = ByteSink::new(10);
    assert!(archive_range(1, 2, &mut sink).is_err());
    assert_eq!(sink.pos(), 0);
}
