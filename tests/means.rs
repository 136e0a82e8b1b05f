use ph::means::{range_average, DecodeError, Insert, Msg, Query};

#[test]
fn decode_insert() {
    let data: [u8; 9] = [b'I', 0x00, 0x00, 0x30, 0x39, 0x00, 0x00, 0x00, 0x65];
    assert_eq!(Msg::decode(&data), Ok(Msg::I(Insert { timestamp: 12345, price: 101 })));
}

#[test]
fn decode_query_with_negative_values() {
    let data: [u8; 9] = [b'Q', 0xff, 0xff, 0xff, 0xff, 0x80, 0x00, 0x00, 0x00];
    assert_eq!(Msg::decode(&data), Ok(Msg::Q(Query { begin: -1, end: i32::MIN })));
}

#[test]
fn decode_extremes() {
    let data: [u8; 9] = [b'I', 0x7f, 0xff, 0xff, 0xff, 0x00, 0x01, 0x02, 0x03];
    assert_eq!(Msg::decode(&data), Ok(Msg::I(Insert { timestamp: i32::MAX, price: 0x010203 })));
}

#[test]
fn decode_unknown_kind() {
    let data: [u8; 9] = [b'X', 0, 0, 0, 1, 0, 0, 0, 2];
    assert_eq!(Msg::decode(&data), Err(DecodeError::UnknownKind(b'X')));
}

#[test]
fn average_over_range() {
    let prices = [(12345, 101), (12346, 102), (12347, 100), (40960, 5)];
    assert_eq!(range_average(&prices, 12288, 16384), 101);
    assert_eq!(range_average(&prices, 0, i32::MAX), 77);
    assert_eq!(range_average(&prices, 12346, 12346), 102);
}

#[test]
fn average_of_nothing_is_zero() {
    let prices = [(10, 7), (20, 9)];
    assert_eq!(range_average(&prices, 11, 19), 0);
    assert_eq!(range_average(&prices, 20, 10), 0);
    assert_eq!(range_average(&[], i32::MIN, i32::MAX), 0);
}

#[test]
fn average_rounds_toward_zero() {
    assert_eq!(range_average(&[(1, 1), (2, 2)], 1, 2), 1);
    assert_eq!(range_average(&[(1, -1), (2, -2)], 1, 2), -1);
    assert_eq!(range_average(&[(1, i32::MIN), (2, i32::MIN)], 1, 2), i32::MIN);
    assert_eq!(range_average(&[(1, i32::MAX), (2, i32::MAX)], 1, 2), i32::MAX);
}
