use sqlite_reader::{decode_varint, encode_varint, Error};

#[test]
fn test_decode_varint() {
    let varint_bytes = vec![0x81, 0x01];

    let (val, _i) = decode_varint(&varint_bytes).unwrap();

    assert_eq!(val, 129);
}

#[test]
fn varint_round_trip_samples() {
    let samples: Vec<i64> = vec![
        0,
        1,
        127,
        128,
        129,
        255,
        16383,
        16384,
        1 << 20,
        (1 << 35) + 12345,
        (1 << 55) + 7,
        i64::MAX - 128,
        -256,
        i64::MIN,
    ];
    for v in samples {
        let enc = encode_varint(v);
        assert!(enc.len() >= 1 && enc.len() <= 9);
        let (dec, used) = decode_varint(&enc).unwrap();
        assert_eq!(dec, v);
        assert_eq!(used, enc.len());
    }
}

#[test]
fn varint_single_byte_covers_exactly_0_to_127() {
    for v in 0i64..=127 {
        assert_eq!(encode_varint(v).len(), 1);
    }
    assert_eq!(encode_varint(128).len(), 2);
    for b in 0u8..=0x7f {
        let (v, used) = decode_varint(&[b]).unwrap();
        assert_eq!(v, b as i64);
        assert_eq!(used, 1);
    }
}

#[test]
fn varint_ninth_byte_continuation_fails() {
    let bytes = [0xff, 0xff, 0xff, 0xff, 0xff, 0xff, 0xff, 0xff, 0x80];
    assert_eq!(decode_varint(&bytes), Err(Error::MalformedVarint));
}

#[test]
fn varint_empty_input_fails() {
    let bytes: Vec<u8> = Vec::new();
    assert_eq!(decode_varint(&bytes), Err(Error::MalformedVarint));
}

#[test]
fn varint_nine_byte_value_decodes() {
    // A value at or above 2^56 needs the 9th byte; its low byte must have
    // bit 7 clear to be encodable at all.
    let v: i64 = 0x0100_0000_0000_0012;
    let enc = encode_varint(v);
    assert_eq!(enc.len(), 9);
    let (dec, used) = decode_varint(&enc).unwrap();
    assert_eq!(dec, v);
    assert_eq!(used, 9);
}

#[test]
fn int_rendering() {
    assert_eq!(sqlite_reader::int_to_string(0), "0");
    assert_eq!(sqlite_reader::int_to_string(42), "42");
    assert_eq!(sqlite_reader::int_to_string(-1), "-1");
    assert_eq!(sqlite_reader::int_to_string(i64::MAX), "9223372036854775807");
    assert_eq!(sqlite_reader::int_to_string(i64::MIN), "-9223372036854775808");
}
