use compact_size::{Decoded, SizeClass, VarInt, VarIntError};

#[test]
fn lib_test_varint_encode() {
    assert_eq!(VarInt::encode(515).unwrap(), vec![0xfd, 3, 2]);
}

#[test]
fn lib_test_varint_decode() {
    assert_eq!(VarInt::decode(&vec![0xfd, 3, 2]).unwrap().value, 515);
}

#[test]
fn lib_test_varint_get_size() {
    assert_eq!(VarInt::get_size(515).unwrap(), 3);
}

#[test]
fn test_test_varint_encode() {
    assert_eq!(VarInt::encode(515).unwrap(), vec![0xfd, 3, 2]);
}

#[test]
fn test_test_varint_decode() {
    assert_eq!(VarInt::decode(&vec![0xfd, 3, 2]).unwrap().value, 515);
}

#[test]
fn test_test_varint_get_size() {
    assert_eq!(VarInt::get_size(515).unwrap(), 3);
}

#[test]
fn encode_single_byte_range() {
    assert_eq!(VarInt::encode(0).unwrap(), vec![0x00]);
    assert_eq!(VarInt::encode(5).unwrap(), vec![0x05]);
    assert_eq!(VarInt::encode(252).unwrap(), vec![0xfc]);
}

#[test]
fn encode_two_byte_range() {
    assert_eq!(VarInt::encode(253).unwrap(), vec![0xfd, 0xfd, 0x00]);
    assert_eq!(VarInt::encode(254).unwrap(), vec![0xfd, 0xfe, 0x00]);
    assert_eq!(VarInt::encode(255).unwrap(), vec![0xfd, 0xff, 0x00]);
    assert_eq!(VarInt::encode(256).unwrap(), vec![0xfd, 0x00, 0x01]);
    assert_eq!(VarInt::encode(0xfffe).unwrap(), vec![0xfd, 0xfe, 0xff]);
    assert_eq!(VarInt::encode(0xffff).unwrap(), vec![0xfd, 0xff, 0xff]);
}

#[test]
fn encode_four_byte_range() {
    assert_eq!(VarInt::encode(0x1_0000).unwrap(), vec![0xfe, 0x00, 0x00, 0x01, 0x00]);
    assert_eq!(VarInt::encode(0x1234_5678).unwrap(), vec![0xfe, 0x78, 0x56, 0x34, 0x12]);
    assert_eq!(VarInt::encode(0x1000_0000).unwrap(), vec![0xfe, 0x00, 0x00, 0x00, 0x10]);
    assert_eq!(VarInt::encode(0xffff_fffe).unwrap(), vec![0xfe, 0xfe, 0xff, 0xff, 0xff]);
    assert_eq!(VarInt::encode(0xffff_ffff).unwrap(), vec![0xfe, 0xff, 0xff, 0xff, 0xff]);
}

#[test]
fn encode_eight_byte_range() {
    assert_eq!(
        VarInt::encode(0x1_0000_0000).unwrap(),
        vec![0xff, 0, 0, 0, 0, 1, 0, 0, 0]
    );
    assert_eq!(
        VarInt::encode(0x0102_0304_0506_0708).unwrap(),
        vec![0xff, 0x08, 0x07, 0x06, 0x05, 0x04, 0x03, 0x02, 0x01]
    );
    assert_eq!(
        VarInt::encode(u64::MAX - 1).unwrap(),
        vec![0xff, 0xfe, 0xff, 0xff, 0xff, 0xff, 0xff, 0xff, 0xff]
    );
    assert_eq!(
        VarInt::encode(u64::MAX).unwrap(),
        vec![0xff, 0xff, 0xff, 0xff, 0xff, 0xff, 0xff, 0xff, 0xff]
    );
}

#[test]
fn encode_never_fails() {
    for v in edge_values() {
        assert!(VarInt::encode(v).is_ok());
        assert_ne!(VarInt::encode(v), Err(VarIntError::InvalidRange));
    }
}

#[test]
fn decode_two_byte_payload() {
    assert_eq!(
        VarInt::decode(&[0xfd, 0x03, 0x02]),
        Ok(Decoded { value: 515, bytes_consumed: 3 })
    );
}

#[test]
fn decode_single_byte() {
    assert_eq!(VarInt::decode(&[0x05]), Ok(Decoded { value: 5, bytes_consumed: 1 }));
    assert_eq!(VarInt::decode(&[0x00]), Ok(Decoded { value: 0, bytes_consumed: 1 }));
    assert_eq!(VarInt::decode(&[0xfc]), Ok(Decoded { value: 252, bytes_consumed: 1 }));
}

#[test]
fn decode_four_and_eight_byte_payloads() {
    assert_eq!(
        VarInt::decode(&[0xfe, 0x78, 0x56, 0x34, 0x12]),
        Ok(Decoded { value: 0x1234_5678, bytes_consumed: 5 })
    );
    assert_eq!(
        VarInt::decode(&[0xff, 0x08, 0x07, 0x06, 0x05, 0x04, 0x03, 0x02, 0x01]),
        Ok(Decoded { value: 0x0102_0304_0506_0708, bytes_consumed: 9 })
    );
    assert_eq!(
        VarInt::decode(&[0xff; 9]),
        Ok(Decoded { value: u64::MAX, bytes_consumed: 9 })
    );
}

#[test]
fn decode_truncated_two_byte_payload() {
    assert_eq!(VarInt::decode(&[0xfd, 0x01]), Err(VarIntError::TruncatedInput));
}

#[test]
fn decode_empty_input_is_truncated() {
    assert_eq!(VarInt::decode(&[]), Err(VarIntError::TruncatedInput));
}

#[test]
fn decode_truncated_in_every_class() {
    assert_eq!(VarInt::decode(&[0xfd]), Err(VarIntError::TruncatedInput));
    assert_eq!(VarInt::decode(&[0xfe]), Err(VarIntError::TruncatedInput));
    assert_eq!(VarInt::decode(&[0xfe, 1, 2, 3]), Err(VarIntError::TruncatedInput));
    assert_eq!(VarInt::decode(&[0xff]), Err(VarIntError::TruncatedInput));
    assert_eq!(
        VarInt::decode(&[0xff, 1, 2, 3, 4, 5, 6, 7]),
        Err(VarIntError::TruncatedInput)
    );
}

#[test]
fn decode_every_proper_prefix_of_an_encoding_is_truncated() {
    for v in edge_values() {
        let bytes = VarInt::encode(v).unwrap();
        for cut in 0..bytes.len() {
            assert_eq!(VarInt::decode(&bytes[..cut]), Err(VarIntError::TruncatedInput));
        }
    }
}

#[test]
fn decode_leaves_trailing_bytes_alone() {
    assert_eq!(
        VarInt::decode(&[0x05, 0xaa, 0xbb]),
        Ok(Decoded { value: 5, bytes_consumed: 1 })
    );
    assert_eq!(
        VarInt::decode(&[0xfd, 0x03, 0x02, 0xff, 0xff]),
        Ok(Decoded { value: 515, bytes_consumed: 3 })
    );
    assert_eq!(
        VarInt::decode(&[0xfe, 0x00, 0x00, 0x01, 0x00, 0x07]),
        Ok(Decoded { value: 0x1_0000, bytes_consumed: 5 })
    );
}

#[test]
fn decode_reads_a_stream_of_encodings() {
    let values: Vec<u64> = vec![7, 300, 70_000, 5_000_000_000, 252, 253];
    let mut stream: Vec<u8> = Vec::new();
    for v in &values {
        stream.extend(VarInt::encode(*v).unwrap());
    }
    let mut cursor = 0;
    let mut seen: Vec<u64> = Vec::new();
    while cursor < stream.len() {
        let d = VarInt::decode(&stream[cursor..]).unwrap();
        seen.push(d.value);
        cursor += d.bytes_consumed;
    }
    assert_eq!(cursor, stream.len());
    assert_eq!(seen, values);
}

#[test]
fn decode_accepts_a_longer_spelling_of_a_small_value() {
    assert_eq!(
        VarInt::decode(&[0xfd, 0x05, 0x00]),
        Ok(Decoded { value: 5, bytes_consumed: 3 })
    );
    assert!(VarInt::get_size(5).unwrap() <= 3);
    assert_eq!(
        VarInt::decode(&[0xff, 0x05, 0, 0, 0, 0, 0, 0, 0]),
        Ok(Decoded { value: 5, bytes_consumed: 9 })
    );
}

#[test]
fn get_size_at_the_boundaries() {
    assert_eq!(VarInt::get_size(0), Ok(1));
    assert_eq!(VarInt::get_size(252), Ok(1));
    assert_eq!(VarInt::get_size(253), Ok(3));
    assert_eq!(VarInt::get_size(0xffff), Ok(3));
    assert_eq!(VarInt::get_size(0x1_0000), Ok(5));
    assert_eq!(VarInt::get_size(0x1000_0000), Ok(5));
    assert_eq!(VarInt::get_size(0xffff_ffff), Ok(5));
    assert_eq!(VarInt::get_size(0x1_0000_0000), Ok(9));
    assert_eq!(VarInt::get_size(u64::MAX), Ok(9));
}

#[test]
fn get_size_is_stable() {
    for v in edge_values() {
        let first = VarInt::get_size(v);
        assert_eq!(VarInt::get_size(v), first);
        assert_eq!(VarInt::get_size(v), first);
    }
}

#[test]
fn get_size_agrees_with_encode() {
    for v in edge_values() {
        let bytes = VarInt::encode(v).unwrap();
        assert_eq!(usize::from(VarInt::get_size(v).unwrap()), bytes.len());
        assert!(matches!(bytes.len(), 1 | 3 | 5 | 9));
    }
}

#[test]
fn round_trip_on_edge_values() {
    for v in edge_values() {
        let bytes = VarInt::encode(v).unwrap();
        assert_eq!(
            VarInt::decode(&bytes),
            Ok(Decoded { value: v, bytes_consumed: bytes.len() })
        );
    }
}

#[test]
fn round_trip_on_every_value_up_to_seventy_thousand() {
    for v in 0..70_000u64 {
        let bytes = VarInt::encode(v).unwrap();
        let d = VarInt::decode(&bytes).unwrap();
        assert_eq!(d.value, v);
        assert_eq!(d.bytes_consumed, bytes.len());
    }
}

#[test]
fn round_trip_on_powers_of_two() {
    for shift in 0..64 {
        for v in [(1u64 << shift) - 1, 1u64 << shift, (1u64 << shift) + 1] {
            let bytes = VarInt::encode(v).unwrap();
            assert_eq!(
                VarInt::decode(&bytes),
                Ok(Decoded { value: v, bytes_consumed: bytes.len() })
            );
        }
    }
}

#[test]
fn distinct_values_have_distinct_encodings() {
    let values = edge_values();
    for a in &values {
        for b in &values {
            if a != b {
                assert_ne!(VarInt::encode(*a).unwrap(), VarInt::encode(*b).unwrap());
            }
        }
    }
}

#[test]
fn canonical_input_encodes_back_to_itself() {
    let inputs: Vec<Vec<u8>> = vec![
        vec![0x00],
        vec![0xfc],
        vec![0xfd, 0xfd, 0x00],
        vec![0xfd, 0xff, 0xff],
        vec![0xfe, 0x00, 0x00, 0x01, 0x00],
        vec![0xff, 0, 0, 0, 0, 1, 0, 0, 0],
    ];
    for input in inputs {
        let d = VarInt::decode(&input).unwrap();
        assert_eq!(VarInt::encode(d.value).unwrap(), input);
    }
}

#[test]
fn classify_follows_the_range_table() {
    assert_eq!(SizeClass::classify(0), SizeClass::U8);
    assert_eq!(SizeClass::classify(252), SizeClass::U8);
    assert_eq!(SizeClass::classify(253), SizeClass::U16);
    assert_eq!(SizeClass::classify(0xffff), SizeClass::U16);
    assert_eq!(SizeClass::classify(0x1_0000), SizeClass::U32);
    assert_eq!(SizeClass::classify(0xffff_ffff), SizeClass::U32);
    assert_eq!(SizeClass::classify(0x1_0000_0000), SizeClass::U64);
    assert_eq!(SizeClass::classify(u64::MAX), SizeClass::U64);
}

#[test]
fn discriminator_names_the_class() {
    for b in 0..0xfdu8 {
        assert_eq!(SizeClass::from_discriminator(b), SizeClass::U8);
    }
    assert_eq!(SizeClass::from_discriminator(0xfd), SizeClass::U16);
    assert_eq!(SizeClass::from_discriminator(0xfe), SizeClass::U32);
    assert_eq!(SizeClass::from_discriminator(0xff), SizeClass::U64);
}

#[test]
fn class_lengths_and_first_bytes() {
    assert_eq!(SizeClass::U8.payload_width(), 0);
    assert_eq!(SizeClass::U16.payload_width(), 2);
    assert_eq!(SizeClass::U32.payload_width(), 4);
    assert_eq!(SizeClass::U64.payload_width(), 8);
    assert_eq!(SizeClass::U8.encoded_len(), 1);
    assert_eq!(SizeClass::U16.encoded_len(), 3);
    assert_eq!(SizeClass::U32.encoded_len(), 5);
    assert_eq!(SizeClass::U64.encoded_len(), 9);
    assert_eq!(SizeClass::U8.first_byte(200), 200);
    assert_eq!(SizeClass::U16.first_byte(300), 0xfd);
    assert_eq!(SizeClass::U32.first_byte(70_000), 0xfe);
    assert_eq!(SizeClass::U64.first_byte(u64::MAX), 0xff);
}

fn edge_values() -> Vec<u64> {
    vec![
        0,
        1,
        5,
        251,
        252,
        253,
        254,
        255,
        256,
        515,
        0xfffe,
        0xffff,
        0x1_0000,
        0x1_0001,
        0x0fff_ffff,
        0x1000_0000,
        0xffff_fffe,
        0xffff_ffff,
        0x1_0000_0000,
        0x1_0000_0001,
        0x0102_0304_0506_0708,
        u64::MAX - 1,
        u64::MAX,
    ]
}
