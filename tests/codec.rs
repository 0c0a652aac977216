use tpu_telemetry::codec::{decode, encode, parse_frame, read_varint, write_varint, WireFrame};

fn frame(unit: &str, values: &[f32], time_us: u64) -> WireFrame {
    WireFrame {
        unit: unit.to_string(),
        values: values.iter().map(|v| v.to_bits()).collect(),
        time_us,
    }
}

#[test]
fn encode_gives_exact_bytes() {
    let f = frame("V", &[3.7], 1234);
    let b = 3.7f32.to_bits().to_le_bytes();
    let expected = vec![
        0x0A, 0x01, b'V', 0x12, 0x04, b[0], b[1], b[2], b[3], 0x18, 0xD2, 0x09,
    ];
    assert_eq!(encode(&f), expected);
}

#[test]
fn encode_leaves_out_empty_fields() {
    assert_eq!(encode(&frame("", &[], 0)), Vec::<u8>::new());
    assert_eq!(encode(&frame("", &[], 1)), vec![0x18, 0x01]);
}

#[test]
fn round_trip_keeps_unit_values_and_time() {
    let f = frame("MB", &[512.0], 1_730_247_194_876_000);
    let back = decode(&encode(&f)).expect("a frame");
    assert_eq!(back, f);
    assert_eq!(f32::from_bits(back.values[0]), 512.0);
}

#[test]
fn round_trip_many_values_and_non_ascii_unit() {
    let f = frame("°C", &[1.5, -2.25, 0.0, f32::MAX], u64::MAX);
    assert_eq!(decode(&encode(&f)), Some(f));
}

#[test]
fn round_trip_empty_frame() {
    let f = frame("", &[], 0);
    assert_eq!(decode(&encode(&f)), Some(f));
}

#[test]
fn decode_refuses_malformed_bytes() {
    assert_eq!(decode(&[0xFF]), None);
    // key of field zero
    assert_eq!(decode(&[0x00, 0x01]), None);
    // unit longer than what follows
    assert_eq!(decode(&[0x0A, 0x05, b'a']), None);
    // packed values whose length is not a multiple of four
    assert_eq!(decode(&[0x12, 0x03, 1, 2, 3]), None);
    // time written with the wrong wire type
    assert_eq!(decode(&[0x1D, 1, 2, 3, 4]), None);
    // unknown wire type
    assert_eq!(decode(&[0x0B]), None);
    // time that runs off the end
    assert_eq!(decode(&[0x18, 0x80]), None);
}

#[test]
fn decode_refuses_unit_that_is_not_utf8() {
    assert_eq!(decode(&[0x0A, 0x01, 0xFF]), None);
    assert!(parse_frame(&[0x0A, 0x01, 0xFF]).is_some());
}

#[test]
fn decode_skips_unknown_fields_and_reads_unpacked_values() {
    let one = 1.0f32.to_bits().to_le_bytes();
    let two = 2.0f32.to_bits().to_le_bytes();
    let bytes = vec![
        0x20, 0x07, // field 4, varint
        0x15, one[0], one[1], one[2], one[3], // field 2, four bytes
        0x2A, 0x02, 9, 9, // field 5, length-prefixed
        0x15, two[0], two[1], two[2], two[3], // field 2 again
        0x31, 0, 0, 0, 0, 0, 0, 0, 0, // field 6, eight bytes
        0x0A, 0x01, b'A', 0x18, 0x05,
    ];
    assert_eq!(decode(&bytes), Some(frame("A", &[1.0, 2.0], 5)));
}

#[test]
fn later_fields_replace_unit_and_time() {
    let bytes = vec![0x0A, 0x01, b'a', 0x18, 0x01, 0x0A, 0x01, b'b', 0x18, 0x02];
    assert_eq!(decode(&bytes), Some(frame("b", &[], 2)));
}

#[test]
fn varint_writes_and_reads_back() {
    for v in [0u64, 1, 127, 128, 300, 1234, u32::MAX as u64, u64::MAX] {
        let mut out = vec![0xAA];
        write_varint(&mut out, v);
        assert_eq!(read_varint(&out, 1, 10), Some((v, out.len())));
    }
    let mut out = Vec::new();
    write_varint(&mut out, 300);
    assert_eq!(out, vec![0xAC, 0x02]);
}

#[test]
fn varint_past_sixty_four_bits_is_refused() {
    let bytes = [0xFF, 0xFF, 0xFF, 0xFF, 0xFF, 0xFF, 0xFF, 0xFF, 0xFF, 0x02];
    assert_eq!(read_varint(&bytes, 0, 10), None);
    let long = [0x80, 0x80, 0x80, 0x80, 0x80, 0x80, 0x80, 0x80, 0x80, 0x80, 0x00];
    assert_eq!(read_varint(&long, 0, 10), None);
}
