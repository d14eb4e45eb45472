use bytes::BytesMut;
use frame_codec::{encode_frame, get_connect_packet, get_frame, FrameError, UID};
use xxhash_rust::xxh3::xxh3_64;

/// Builds a frame's on-wire bytes by hand: len, checksum, token, payload.
fn wire_frame(token: &[u8], payload: &[u8]) -> Vec<u8> {
    let mut body: Vec<u8> = Vec::new();
    body.extend_from_slice(token);
    body.extend_from_slice(payload);
    let mut out: Vec<u8> = Vec::new();
    out.extend_from_slice(&(body.len() as u32).to_le_bytes());
    out.extend_from_slice(&xxh3_64(&body).to_le_bytes());
    out.extend_from_slice(&body);
    out
}

/// Builds a handshake packet's on-wire bytes by hand.
fn wire_handshake(flags: u8, version: u64, trailing: &[u8]) -> Vec<u8> {
    let packed = ((flags as u64) << 60) | version;
    let mut out: Vec<u8> = Vec::new();
    out.extend_from_slice(&((8 + trailing.len()) as u32).to_le_bytes());
    out.extend_from_slice(&packed.to_le_bytes());
    out.extend_from_slice(trailing);
    out
}

fn sample_token() -> Vec<u8> {
    (0u8..16u8).map(|i| i.wrapping_mul(17).wrapping_add(3)).collect()
}

#[test]
fn frame_round_trip() {
    let token_bytes = sample_token();
    let token = UID::new(token_bytes.clone()).unwrap();
    let payload: Vec<u8> = vec![9, 8, 7, 6, 5, 4, 3, 2, 1, 0];
    let enc = encode_frame(&token, &payload);

    let mut buf = BytesMut::from(&enc[..]);
    let frame = get_frame(&mut buf).unwrap().unwrap();
    assert_eq!(frame.token.as_bytes(), &token_bytes);
    assert_eq!(frame.payload, payload);
    assert_eq!(buf.len(), 0);
}

#[test]
fn encode_matches_wire_format() {
    let token_bytes = sample_token();
    let token = UID::new(token_bytes.clone()).unwrap();
    let payload: Vec<u8> = vec![0xAA, 0xBB, 0xCC];
    let enc = encode_frame(&token, &payload);

    // Identical to the hand-built wire bytes: the length field counts
    // token plus payload, the checksum field is the xxHash3-64 of exactly
    // those bytes.
    assert_eq!(enc, wire_frame(&token_bytes, &payload));
    assert_eq!(&enc[0..4], &19u32.to_le_bytes());
    let mut body: Vec<u8> = token_bytes.clone();
    body.extend_from_slice(&payload);
    assert_eq!(&enc[4..12], &xxh3_64(&body).to_le_bytes());
}

#[test]
fn one_byte_at_a_time() {
    let token = UID::new(sample_token()).unwrap();
    let payload: Vec<u8> = vec![1, 2, 3, 4, 5];
    let enc = encode_frame(&token, &payload);

    let mut buf = BytesMut::new();
    for (i, b) in enc.iter().enumerate() {
        buf.extend_from_slice(&[*b]);
        if i + 1 < enc.len() {
            // Every strict prefix: no result yet, nothing consumed.
            assert!(matches!(get_frame(&mut buf), Ok(None)));
            assert_eq!(buf.len(), i + 1);
        }
    }
    let frame = get_frame(&mut buf).unwrap().unwrap();
    assert_eq!(frame.payload, payload);
    assert_eq!(buf.len(), 0);
}

#[test]
fn bit_flip_in_payload_fails_checksum() {
    let token = UID::new(sample_token()).unwrap();
    let payload: Vec<u8> = vec![0x10, 0x20, 0x30, 0x40];
    let enc = encode_frame(&token, &payload);
    let payload_at = 4 + 8 + 16;

    for byte in payload_at..enc.len() {
        for bit in 0..8 {
            let mut corrupted = enc.clone();
            corrupted[byte] ^= 1 << bit;
            let mut buf = BytesMut::from(&corrupted[..]);
            let r = get_frame(&mut buf);
            assert_eq!(r.unwrap_err(), FrameError::ChecksumMismatch);
            // A fatal decode never consumes bytes.
            assert_eq!(buf.len(), corrupted.len());
        }
    }
}

#[test]
fn empty_payload_frame() {
    let token_bytes = sample_token();
    let enc = wire_frame(&token_bytes, &[]);
    assert_eq!(&enc[0..4], &16u32.to_le_bytes());

    let mut buf = BytesMut::from(&enc[..]);
    let frame = get_frame(&mut buf).unwrap().unwrap();
    assert_eq!(frame.token.as_bytes(), &token_bytes);
    assert!(frame.payload.is_empty());
    assert_eq!(buf.len(), 0);
}

#[test]
fn frame_len_below_token_size_is_malformed() {
    // A declared len of 15 cannot hold the 16-byte token.  27 frame bytes
    // plus one byte of the next unit, so the 28-byte floor is met.
    let body: Vec<u8> = (0u8..15u8).collect();
    let mut enc: Vec<u8> = Vec::new();
    enc.extend_from_slice(&15u32.to_le_bytes());
    enc.extend_from_slice(&xxh3_64(&body).to_le_bytes());
    enc.extend_from_slice(&body);
    enc.push(0xFF);

    let mut buf = BytesMut::from(&enc[..]);
    let r = get_frame(&mut buf);
    assert_eq!(r.unwrap_err(), FrameError::MalformedField);
    assert_eq!(buf.len(), enc.len());
}

#[test]
fn insufficient_data_is_not_an_error() {
    let mut empty = BytesMut::new();
    assert!(matches!(get_frame(&mut empty), Ok(None)));
    assert!(matches!(get_connect_packet(&mut empty), Ok(None)));

    // 27 bytes: one short of the frame decoder's 28-byte floor.
    let mut short = BytesMut::from(&[0u8; 27][..]);
    assert!(matches!(get_frame(&mut short), Ok(None)));
    assert_eq!(short.len(), 27);
}

#[test]
fn handshake_pack_round_trip() {
    let flags: u8 = 0b1010;
    let version: u64 = 0x0FDB00B070010001;
    let enc = wire_handshake(flags, version, &[]);

    let mut buf = BytesMut::from(&enc[..]);
    let cp = get_connect_packet(&mut buf).unwrap().unwrap();
    assert_eq!(cp.flags, flags);
    assert_eq!(cp.version, version);
    assert_eq!(cp.len, 8);
    assert!(cp.trailing.is_empty());
    assert_eq!(buf.len(), 0);
}

#[test]
fn handshake_trailing_data_is_reported_not_rejected() {
    let trailing: Vec<u8> = vec![0xDE, 0xAD, 0xBE];
    let enc = wire_handshake(0b0001, 0x0FDB00B070010001, &trailing);

    let mut buf = BytesMut::from(&enc[..]);
    let cp = get_connect_packet(&mut buf).unwrap().unwrap();
    assert_eq!(cp.len, 11);
    assert_eq!(cp.trailing, trailing);
    assert_eq!(buf.len(), 0);
}

#[test]
fn handshake_length_below_packed_field_is_malformed() {
    // A declared length of 4 cannot hold the 8-byte packed field.  The
    // packed field's bytes are present in the buffer, so this is not a
    // "need more" case.
    let mut enc: Vec<u8> = Vec::new();
    enc.extend_from_slice(&4u32.to_le_bytes());
    enc.extend_from_slice(&[1, 2, 3, 4, 5, 6, 7, 8]);

    let mut buf = BytesMut::from(&enc[..]);
    let r = get_connect_packet(&mut buf);
    assert_eq!(r.unwrap_err(), FrameError::MalformedField);
    assert_eq!(buf.len(), enc.len());
}

#[test]
fn handshake_partial_body_waits() {
    // length declares 20 body bytes but only 10 have arrived: retry later,
    // nothing consumed.
    let mut enc: Vec<u8> = Vec::new();
    enc.extend_from_slice(&20u32.to_le_bytes());
    enc.extend_from_slice(&[0u8; 10]);

    let mut buf = BytesMut::from(&enc[..]);
    assert!(matches!(get_connect_packet(&mut buf), Ok(None)));
    assert_eq!(buf.len(), enc.len());
}

#[test]
fn back_to_back_units_leave_exact_remainder() {
    let stream_head = wire_handshake(0b0010, 0x0FDB00B070010001, &[0x55]);
    let frame1 = wire_frame(&sample_token(), b"first payload");
    let frame2 = wire_frame(&vec![7u8; 16], b"");
    let suffix: Vec<u8> = vec![0x01, 0x02, 0x03];

    let mut stream = stream_head.clone();
    stream.extend_from_slice(&frame1);
    stream.extend_from_slice(&frame2);
    stream.extend_from_slice(&suffix);

    let mut buf = BytesMut::from(&stream[..]);
    let cp = get_connect_packet(&mut buf).unwrap().unwrap();
    assert_eq!(cp.trailing, vec![0x55]);

    let f1 = get_frame(&mut buf).unwrap().unwrap();
    assert_eq!(f1.payload, b"first payload".to_vec());

    let f2 = get_frame(&mut buf).unwrap().unwrap();
    assert_eq!(f2.token.as_bytes(), &vec![7u8; 16]);
    assert!(f2.payload.is_empty());

    // Remaining content is the original stream minus the consumed units,
    // byte for byte.
    let consumed = stream_head.len() + frame1.len() + frame2.len();
    assert_eq!(&buf[..], &stream[consumed..]);
    assert_eq!(&buf[..], &suffix[..]);
}

#[test]
fn uid_requires_exactly_sixteen_bytes() {
    assert_eq!(UID::new(vec![0u8; 15]).unwrap_err(), FrameError::MalformedField);
    assert_eq!(UID::new(vec![0u8; 17]).unwrap_err(), FrameError::MalformedField);
    let u = UID::new((0u8..16u8).collect()).unwrap();
    assert_eq!(u.as_bytes(), &(0u8..16u8).collect::<Vec<u8>>());
}

#[test]
fn error_descriptions() {
    assert_eq!(FrameError::MalformedField.describe(), "malformed field");
    assert_eq!(FrameError::ChecksumMismatch.describe(), "checksum mismatch");
}
