use audio_streamer::packet::{parse_packet, serialize_packet};

#[test]
fn serialize_exact_bytes() {
    let samples: Vec<u32> = vec![0xAABBCCDD];
    let out = serialize_packet(0x04030201, &samples);
    assert_eq!(
        out,
        vec![0, 0, 0, 0, 0x01, 0x02, 0x03, 0x04, 0xDD, 0xCC, 0xBB, 0xAA]
    );
}

#[test]
fn serialize_empty_payload() {
    let samples: Vec<u32> = Vec::new();
    let out = serialize_packet(7, &samples);
    assert_eq!(out, vec![0, 0, 0, 0, 7, 0, 0, 0]);
}

#[test]
fn round_trip_float_bits() {
    let floats: [f32; 5] = [0.5, -1.0, 0.0, 3.25, f32::MIN_POSITIVE];
    let samples: Vec<u32> = floats.iter().map(|f| f.to_bits()).collect();
    let wire = serialize_packet(123_456_789, &samples);
    let packet = parse_packet(&wire).expect("well-formed packet must parse");
    assert_eq!(packet.timestamp_ms, 123_456_789);
    assert_eq!(packet.samples, samples);
    for (i, f) in floats.iter().enumerate() {
        assert_eq!(f32::from_bits(packet.samples[i]), *f);
    }
}

#[test]
fn short_datagram_rejected() {
    let data: Vec<u8> = vec![1, 2, 3, 4, 5, 6, 7];
    assert!(parse_packet(&data).is_none());
    let empty: Vec<u8> = Vec::new();
    assert!(parse_packet(&empty).is_none());
}

#[test]
fn header_only_datagram_has_no_samples() {
    let data: Vec<u8> = vec![0, 0, 0, 0, 0x2A, 0, 0, 0];
    let packet = parse_packet(&data).expect("header-sized datagram parses");
    assert_eq!(packet.timestamp_ms, 42);
    assert!(packet.samples.is_empty());
}

#[test]
fn trailing_bytes_dropped() {
    // Header, one complete sample group, then three trailing bytes.
    let mut data: Vec<u8> = vec![9, 9, 9, 9, 0x01, 0x00, 0x00, 0x00];
    data.extend_from_slice(&[0x44, 0x33, 0x22, 0x11]);
    data.extend_from_slice(&[0xEE, 0xEE, 0xEE]);
    let packet = parse_packet(&data).expect("datagram longer than header parses");
    assert_eq!(packet.timestamp_ms, 1);
    assert_eq!(packet.samples, vec![0x11223344]);
}

#[test]
fn timestamp_is_little_endian() {
    let data: Vec<u8> = vec![0, 0, 0, 0, 0xDD, 0xCC, 0xBB, 0xAA];
    let packet = parse_packet(&data).expect("parses");
    assert_eq!(packet.timestamp_ms, 0xAABBCCDD);
}
