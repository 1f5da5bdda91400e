use alloy_core::json::{deserialize_json_buffer, read_json_buffer, write_json_buffer, DecodeError, WireError};

fn whole(bytes: &[u8]) -> Result<Vec<u8>, String> {
    Ok(bytes.to_vec())
}

#[test]
fn read_json_buffer_gives_length_and_offset() {
    let buf = b"12{\"a\":\"hey!\"}";
    assert_eq!(read_json_buffer(buf), Ok((12, 2)));
    assert_eq!(&buf[2..2 + 12], b"{\"a\":\"hey!\"}");
}

#[test]
fn read_json_buffer_single_digit() {
    assert_eq!(read_json_buffer(b"2{}"), Ok((2, 1)));
}

#[test]
fn read_json_buffer_sentinel_wins_over_what_follows() {
    assert_eq!(read_json_buffer(&[0, b'2', b'{', b'}']), Ok((0, 0)));
    assert_eq!(read_json_buffer(&[0, b'x', b'y']), Ok((0, 0)));
    assert_eq!(read_json_buffer(&[0, 0, 0, 0]), Ok((0, 0)));
}

#[test]
fn read_json_buffer_sentinel_alone() {
    assert_eq!(read_json_buffer(&[0]), Ok((0, 0)));
}

#[test]
fn read_json_buffer_without_marker() {
    assert_eq!(read_json_buffer(b"12"), Err(WireError::MissingMarker));
    assert_eq!(read_json_buffer(b"abc"), Err(WireError::MissingMarker));
}

#[test]
fn read_json_buffer_empty_buffer() {
    assert_eq!(read_json_buffer(b""), Err(WireError::MissingMarker));
}

#[test]
fn read_json_buffer_marker_first() {
    assert_eq!(read_json_buffer(b"{}"), Err(WireError::EmptyLength));
}

#[test]
fn read_json_buffer_refuses_what_is_no_digit() {
    assert_eq!(read_json_buffer(b"1x{}"), Err(WireError::NonNumeric));
    assert_eq!(read_json_buffer(b"+2{}"), Err(WireError::NonNumeric));
    assert_eq!(read_json_buffer(b"-2{}"), Err(WireError::NonNumeric));
    assert_eq!(read_json_buffer(b" 2{}"), Err(WireError::NonNumeric));
    assert_eq!(read_json_buffer(b"2 {}"), Err(WireError::NonNumeric));
}

#[test]
fn read_json_buffer_sentinel_only_counts_in_front() {
    assert_eq!(read_json_buffer(&[b'2', 0, b'{', b'}']), Err(WireError::NonNumeric));
}

#[test]
fn read_json_buffer_length_too_large() {
    assert_eq!(read_json_buffer(b"99999999999999999999999999{}"), Err(WireError::LengthOverflow));
}

#[test]
fn read_json_buffer_largest_length() {
    let text = format!("{}{{}}", usize::MAX);
    assert_eq!(read_json_buffer(text.as_bytes()), Ok((usize::MAX, text.len() - 2)));
}

#[test]
fn read_json_buffer_leading_zeros() {
    assert_eq!(read_json_buffer(b"002{}"), Ok((2, 3)));
}

#[test]
fn read_json_buffer_stops_at_first_marker() {
    assert_eq!(read_json_buffer(b"7{\"a\":{}}"), Ok((7, 1)));
}

#[test]
fn read_json_buffer_does_not_check_the_payload_is_there() {
    assert_eq!(read_json_buffer(b"500{}"), Ok((500, 3)));
}

#[test]
fn deserialize_json_buffer_hands_over_the_payload_only() {
    let got = deserialize_json_buffer(b"2{}trailing", whole);
    assert_eq!(got, Ok(Some(b"{}".to_vec())));
}

#[test]
fn deserialize_json_buffer_whole_payload() {
    let got = deserialize_json_buffer(b"9{\"a\": 10}", whole);
    assert_eq!(got, Ok(Some(b"{\"a\": 10}".to_vec())));
}

#[test]
fn deserialize_json_buffer_not_ready() {
    let got = deserialize_json_buffer(&[0, b'2', b'{', b'}'], |_: &[u8]| -> Result<u8, String> {
        panic!("the decoder must not run")
    });
    assert_eq!(got, Ok(None));
}

#[test]
fn deserialize_json_buffer_zero_length_is_no_value() {
    let got = deserialize_json_buffer(b"0{}", |_: &[u8]| -> Result<u8, String> {
        panic!("the decoder must not run")
    });
    assert_eq!(got, Ok(None));
}

#[test]
fn deserialize_json_buffer_truncated() {
    let got = deserialize_json_buffer(b"5{}", whole);
    assert_eq!(got, Err(DecodeError::Frame(WireError::Truncated)));
}

#[test]
fn deserialize_json_buffer_malformed_frame() {
    assert_eq!(deserialize_json_buffer(b"x{}", whole), Err(DecodeError::Frame(WireError::NonNumeric)));
    assert_eq!(deserialize_json_buffer(b"{}", whole), Err(DecodeError::Frame(WireError::EmptyLength)));
    assert_eq!(deserialize_json_buffer(b"22", whole), Err(DecodeError::Frame(WireError::MissingMarker)));
    assert_eq!(
        deserialize_json_buffer(b"99999999999999999999999999{}", whole),
        Err(DecodeError::Frame(WireError::LengthOverflow))
    );
}

#[test]
fn deserialize_json_buffer_decoder_refuses() {
    let got = deserialize_json_buffer(b"2{}", |_: &[u8]| -> Result<u8, String> { Err("no".to_string()) });
    assert_eq!(got, Err(DecodeError::Payload("no".to_string())));
}

#[test]
fn deserialize_json_buffer_with_a_json_decoder() {
    let decode = |bytes: &[u8]| serde_json::from_slice::<serde_json::Value>(bytes).map_err(|e| e.to_string());
    let got = deserialize_json_buffer(b"13{\"done\":true}", decode).unwrap().unwrap();
    assert_eq!(got["done"].as_bool(), Some(true));
    let bad = deserialize_json_buffer(b"3{\"a", |bytes: &[u8]| {
        serde_json::from_slice::<serde_json::Value>(bytes).map_err(|e| e.to_string())
    });
    assert!(matches!(bad, Err(DecodeError::Payload(_))));
}

#[test]
fn write_json_buffer_exact() {
    assert_eq!(write_json_buffer(b"{}"), Some(b"2{}".to_vec()));
    assert_eq!(write_json_buffer(b"{\"a\":\"hey!\"}"), Some(b"12{\"a\":\"hey!\"}".to_vec()));
}

#[test]
fn write_json_buffer_refuses_what_is_no_payload() {
    assert_eq!(write_json_buffer(b""), None);
    assert_eq!(write_json_buffer(b"[1]"), None);
    assert_eq!(write_json_buffer(b" {}"), None);
}

#[test]
fn wire_round_trip() {
    for filler in [0usize, 1, 7, 8, 9, 10, 97, 98, 99, 100, 998, 1000, 4096] {
        let mut payload = vec![b'{'];
        payload.extend(std::iter::repeat(b'x').take(filler));
        payload.push(b'}');
        let buf = write_json_buffer(&payload).unwrap();
        let digits = payload.len().to_string().len();
        assert_eq!(read_json_buffer(&buf), Ok((payload.len(), digits)));
        assert_eq!(&buf[digits..], &payload[..]);
        assert_eq!(deserialize_json_buffer(&buf, whole), Ok(Some(payload)));
    }
}

#[test]
fn wire_round_trip_payload_with_markers_and_sentinels() {
    let payload = vec![b'{', 0, b'{', b'9', b'{', 0];
    let buf = write_json_buffer(&payload).unwrap();
    assert_eq!(read_json_buffer(&buf), Ok((6, 1)));
    assert_eq!(deserialize_json_buffer(&buf, whole), Ok(Some(payload)));
}
