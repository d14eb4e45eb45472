//! Handshake and data-frame decoding.
//!
//! Wire layout, all integers little-endian.  Handshake packet:
//! a 4-byte `length` (count of the bytes that follow it), an 8-byte packed
//! version/flags field, then `length - 8` trailing bytes kept for
//! observation.  Data frame: a 4-byte `len` (count of token plus payload
//! bytes), an 8-byte checksum over exactly those `len` bytes, a 16-byte
//! routing token, then `len - 16` payload bytes.

use vstd::prelude::*;
use vstd::assert_seqs_equal;

use crate::buffer::{buf_advance, buf_byte, buf_bytes, buf_len};
use crate::checksum::{xxh3, xxh3_of};
use crate::err::FrameError;
use crate::uid::{UID, UID_SIZE};

verus! {

/// Bytes of the `len`/`length` field that opens every unit.
pub const LEN_SIZE: usize = 4;
/// Bytes of a frame's checksum field.
pub const CHECKSUM_SIZE: usize = 8;
/// Bytes of the handshake's packed version/flags field.
pub const VERSION_SIZE: usize = 8;
/// Width in bits of the handshake flags, packed into the top of the 64-bit
/// version field.
pub const FLAG_BITS: u64 = 4;
/// Width in bits of the protocol version, the rest of the 64-bit field.
pub const VERSION_BITS: u64 = 60;
/// Mask selecting the version bits of the packed field.
pub const VERSION_MASK: u64 = 0x0FFF_FFFF_FFFF_FFFF;

/// A decoded data frame: a routing token and an independently-owned payload.
#[derive(Debug)]
pub struct Frame {
    pub token: UID,
    pub payload: Vec<u8>,
}

/// A decoded handshake packet, the first unit on a connection.
///
/// `len` counts the bytes that followed the length field on the wire;
/// `flags` is 4 bits and `version` 60 bits, unpacked from one 64-bit field.
/// `trailing` holds any body bytes past the fixed field, kept only for
/// diagnostic observation: they are never an error.
#[derive(Debug)]
pub struct ConnectPacket {
    pub len: u32,
    pub flags: u8,
    pub version: u64,
    pub trailing: Vec<u8>,
}

/// The unsigned value of 4 little-endian bytes.
pub open spec fn le_u32(s: Seq<u8>) -> u32
    recommends
        s.len() == 4,
{
    (s[0] + s[1] * 0x100 + s[2] * 0x1_0000 + s[3] * 0x100_0000) as u32
}

/// The unsigned value of 8 little-endian bytes.
pub open spec fn le_u64(s: Seq<u8>) -> u64
    recommends
        s.len() == 8,
{
    (s[0] + s[1] * 0x100 + s[2] * 0x1_0000 + s[3] * 0x100_0000
        + s[4] * 0x1_0000_0000 + s[5] * 0x100_0000_0000
        + s[6] * 0x1_0000_0000_0000 + s[7] * 0x100_0000_0000_0000) as u64
}

/// The 4 little-endian bytes of an unsigned 32-bit value.
pub open spec fn u32_le_bytes(v: u32) -> Seq<u8> {
    seq![
        (v as int % 0x100) as u8,
        (v as int / 0x100 % 0x100) as u8,
        (v as int / 0x1_0000 % 0x100) as u8,
        (v as int / 0x100_0000 % 0x100) as u8,
    ]
}

/// The 8 little-endian bytes of an unsigned 64-bit value.
pub open spec fn u64_le_bytes(v: u64) -> Seq<u8> {
    seq![
        (v as int % 0x100) as u8,
        (v as int / 0x100 % 0x100) as u8,
        (v as int / 0x1_0000 % 0x100) as u8,
        (v as int / 0x100_0000 % 0x100) as u8,
        (v as int / 0x1_0000_0000 % 0x100) as u8,
        (v as int / 0x100_0000_0000 % 0x100) as u8,
        (v as int / 0x1_0000_0000_0000 % 0x100) as u8,
        (v as int / 0x100_0000_0000_0000 % 0x100) as u8,
    ]
}

/// Serializing then reading 4 little-endian bytes gives the value back.
pub proof fn lemma_le_u32_round_trip(v: u32)
    ensures
        le_u32(u32_le_bytes(v)) == v,
{
}

/// Serializing then reading 8 little-endian bytes gives the value back.
#[verifier::rlimit(50)]
pub proof fn lemma_le_u64_round_trip(v: u64)
    ensures
        le_u64(u64_le_bytes(v)) == v,
{
    let x = v as int;
    assert(x == x % 0x100 + 0x100 * (x / 0x100)) by (nonlinear_arith)
        requires x >= 0;
    assert(x / 0x100 == (x / 0x100) % 0x100 + 0x100 * (x / 0x1_0000)) by (nonlinear_arith)
        requires x >= 0;
    assert(x / 0x1_0000 == (x / 0x1_0000) % 0x100 + 0x100 * (x / 0x100_0000)) by (nonlinear_arith)
        requires x >= 0;
    assert(x / 0x100_0000 == (x / 0x100_0000) % 0x100 + 0x100 * (x / 0x1_0000_0000))
        by (nonlinear_arith)
        requires x >= 0;
    assert(x / 0x1_0000_0000 == (x / 0x1_0000_0000) % 0x100 + 0x100 * (x / 0x100_0000_0000))
        by (nonlinear_arith)
        requires x >= 0;
    assert(x / 0x100_0000_0000 == (x / 0x100_0000_0000) % 0x100 + 0x100 * (x / 0x1_0000_0000_0000))
        by (nonlinear_arith)
        requires x >= 0;
    assert(x / 0x1_0000_0000_0000 == (x / 0x1_0000_0000_0000) % 0x100
        + 0x100 * (x / 0x100_0000_0000_0000)) by (nonlinear_arith)
        requires x >= 0;
    assert(x / 0x100_0000_0000_0000 == (x / 0x100_0000_0000_0000) % 0x100
        + 0x100 * (x / 0x1_0000_0000_0000_0000)) by (nonlinear_arith)
        requires x >= 0;
    assert(x / 0x1_0000_0000_0000_0000 == 0) by (nonlinear_arith)
        requires 0 <= x < 0x1_0000_0000_0000_0000;
}

/// The 4 flag bits packed into the top of the handshake's 64-bit field.
pub open spec fn flags_of(v: u64) -> u8 {
    (v >> VERSION_BITS) as u8
}

/// The 60 version bits of the handshake's 64-bit field.
pub open spec fn version_of(v: u64) -> u64 {
    v & VERSION_MASK
}

/// What decoding a data frame from the bytes `s` must yield.
pub enum FrameOutcome {
    /// Too few bytes for a complete frame; nothing is consumed.
    NeedMore,
    /// The declared `len` cannot hold the 16-byte token.
    Malformed,
    /// The declared checksum disagrees with the body's fingerprint.
    BadChecksum,
    /// A complete, verified frame: its token bytes, its payload bytes, and
    /// the total on-wire size consumed.
    Decoded(Seq<u8>, Seq<u8>, int),
}

/// The frame decode relation: given the buffer's bytes, the outcome the
/// decoder owes.  `len` counts the token and payload bytes; the checksum
/// covers exactly those `len` bytes and nothing else.
pub open spec fn frame_decode(s: Seq<u8>) -> FrameOutcome {
    if s.len() < LEN_SIZE + CHECKSUM_SIZE + UID_SIZE {
        FrameOutcome::NeedMore
    } else {
        let len = le_u32(s.subrange(0, LEN_SIZE as int)) as int;
        let body_at = (LEN_SIZE + CHECKSUM_SIZE) as int;
        if s.len() < body_at + len {
            FrameOutcome::NeedMore
        } else if len < UID_SIZE {
            FrameOutcome::Malformed
        } else if le_u64(s.subrange(LEN_SIZE as int, body_at)) != xxh3_of(
            s.subrange(body_at, body_at + len),
        ) {
            FrameOutcome::BadChecksum
        } else {
            FrameOutcome::Decoded(
                s.subrange(body_at, body_at + UID_SIZE),
                s.subrange(body_at + UID_SIZE, body_at + len),
                body_at + len,
            )
        }
    }
}

/// What decoding a handshake packet from the bytes `s` must yield.
pub enum HandshakeOutcome {
    /// Too few bytes for the declared packet; nothing is consumed.
    NeedMore,
    /// The declared `length` cannot hold the 8-byte packed field.
    Malformed,
    /// A complete packet: its `length`, unpacked flags and version, the
    /// trailing body bytes, and the total on-wire size consumed.
    Decoded(u32, u8, u64, Seq<u8>, int),
}

/// The handshake decode relation: given the buffer's bytes, the outcome the
/// decoder owes.  `length` counts every body byte after the length field;
/// body bytes past the packed field are trailing data, never an error.
pub open spec fn handshake_decode(s: Seq<u8>) -> HandshakeOutcome {
    if s.len() < LEN_SIZE + VERSION_SIZE {
        HandshakeOutcome::NeedMore
    } else {
        let length = le_u32(s.subrange(0, LEN_SIZE as int));
        if s.len() < LEN_SIZE + length {
            HandshakeOutcome::NeedMore
        } else if length < VERSION_SIZE {
            HandshakeOutcome::Malformed
        } else {
            let packed = le_u64(s.subrange(LEN_SIZE as int, (LEN_SIZE + VERSION_SIZE) as int));
            HandshakeOutcome::Decoded(
                length,
                flags_of(packed),
                version_of(packed),
                s.subrange((LEN_SIZE + VERSION_SIZE) as int, LEN_SIZE + length),
                LEN_SIZE + length,
            )
        }
    }
}

/// Reads the 4-byte little-endian integer at `off` in the buffer.
fn read_u32_at(b: &bytes::BytesMut, off: usize) -> (r: u32)
    requires
        off + 4 <= buf_bytes(*b).len(),
        buf_bytes(*b).len() <= usize::MAX,
    ensures
        r == le_u32(buf_bytes(*b).subrange(off as int, off as int + 4)),
{
    let b0 = buf_byte(b, off) as u32;
    let b1 = buf_byte(b, off + 1) as u32;
    let b2 = buf_byte(b, off + 2) as u32;
    let b3 = buf_byte(b, off + 3) as u32;
    b0 + b1 * 0x100 + b2 * 0x1_0000 + b3 * 0x100_0000
}

/// Reads the 8-byte little-endian integer at `off` in the buffer.
fn read_u64_at(b: &bytes::BytesMut, off: usize) -> (r: u64)
    requires
        off + 8 <= buf_bytes(*b).len(),
        buf_bytes(*b).len() <= usize::MAX,
    ensures
        r == le_u64(buf_bytes(*b).subrange(off as int, off as int + 8)),
{
    let b0 = buf_byte(b, off) as u64;
    let b1 = buf_byte(b, off + 1) as u64;
    let b2 = buf_byte(b, off + 2) as u64;
    let b3 = buf_byte(b, off + 3) as u64;
    let b4 = buf_byte(b, off + 4) as u64;
    let b5 = buf_byte(b, off + 5) as u64;
    let b6 = buf_byte(b, off + 6) as u64;
    let b7 = buf_byte(b, off + 7) as u64;
    b0 + b1 * 0x100 + b2 * 0x1_0000 + b3 * 0x100_0000
        + b4 * 0x1_0000_0000 + b5 * 0x100_0000_0000
        + b6 * 0x1_0000_0000_0000 + b7 * 0x100_0000_0000_0000
}

/// Copies `n` bytes starting at `off` out of the buffer, without consuming.
fn copy_range(b: &bytes::BytesMut, off: usize, n: usize) -> (r: Vec<u8>)
    requires
        off + n <= buf_bytes(*b).len(),
        buf_bytes(*b).len() <= usize::MAX,
    ensures
        r@ == buf_bytes(*b).subrange(off as int, off as int + n as int),
{
    let mut out: Vec<u8> = Vec::new();
    let mut i: usize = 0;
    while i < n
        invariant
            i <= n,
            off + n <= buf_bytes(*b).len(),
            buf_bytes(*b).len() <= usize::MAX,
            out@ == buf_bytes(*b).subrange(off as int, off as int + i as int),
        decreases n - i,
    {
        out.push(buf_byte(b, off + i));
        i = i + 1;
        proof {
            assert_seqs_equal!(
                out@,
                buf_bytes(*b).subrange(off as int, off as int + i as int)
            );
        }
    }
    out
}

/// Decodes one data frame from the head of the receive buffer.
///
/// With fewer bytes than a complete frame the buffer is left untouched and
/// `Ok(None)` says "retry once more bytes arrive".  A `len` too small for
/// the token, or a checksum that disagrees with the body's fingerprint, is
/// a fatal error; the buffer is not advanced and the caller must abandon
/// the connection.  On success the frame's bytes are consumed and the
/// payload is an independently-owned copy.
pub fn get_frame(bytes: &mut bytes::BytesMut) -> (r: Result<Option<Frame>, FrameError>)
    ensures
        ({
            let s = buf_bytes(*old(bytes));
            let t = buf_bytes(*final(bytes));
            match frame_decode(s) {
                FrameOutcome::NeedMore => r matches Ok(None) && t == s,
                FrameOutcome::Malformed => r matches Err(e) && e == FrameError::MalformedField
                    && t == s,
                FrameOutcome::BadChecksum => r matches Err(e) && e == FrameError::ChecksumMismatch
                    && t == s,
                FrameOutcome::Decoded(token, payload, consumed) => {
                    &&& r matches Ok(Some(f))
                    &&& f.token@ == token
                    &&& f.token.wf()
                    &&& f.payload@ == payload
                    &&& t == s.skip(consumed)
                },
            }
        }),
{
    let avail = buf_len(bytes);
    if avail < LEN_SIZE + CHECKSUM_SIZE + UID_SIZE {
        return Ok(None);
    }
    let len32 = read_u32_at(bytes, 0);
    let checksum = read_u64_at(bytes, LEN_SIZE);
    let header = LEN_SIZE + CHECKSUM_SIZE;
    if ((avail - header) as u64) < (len32 as u64) {
        return Ok(None);
    }
    let len = len32 as usize;
    if len < UID_SIZE {
        return Err(FrameError::MalformedField);
    }
    let body = copy_range(bytes, header, len);
    let computed = xxh3(&body);
    if checksum != computed {
        return Err(FrameError::ChecksumMismatch);
    }
    let token_bytes = copy_range(bytes, header, UID_SIZE);
    let token = match UID::new(token_bytes) {
        Ok(u) => u,
        Err(e) => {
            return Err(e);
        },
    };
    let payload = copy_range(bytes, header + UID_SIZE, len - UID_SIZE);
    buf_advance(bytes, header + len);
    Ok(Some(Frame { token, payload }))
}

/// Decodes the handshake packet from the head of the receive buffer.
///
/// Called once per connection, before any frame decode.  With fewer bytes
/// than the declared packet the buffer is left untouched and `Ok(None)`
/// says "retry once more bytes arrive".  A `length` too small for the
/// packed version/flags field is a fatal error.  On success the packet's
/// bytes are consumed; body bytes past the packed field come back in
/// `trailing`, preserved for observation only.
pub fn get_connect_packet(bytes: &mut bytes::BytesMut) -> (r: Result<
    Option<ConnectPacket>,
    FrameError,
>)
    ensures
        ({
            let s = buf_bytes(*old(bytes));
            let t = buf_bytes(*final(bytes));
            match handshake_decode(s) {
                HandshakeOutcome::NeedMore => r matches Ok(None) && t == s,
                HandshakeOutcome::Malformed => r matches Err(e) && e
                    == FrameError::MalformedField && t == s,
                HandshakeOutcome::Decoded(length, flags, version, trailing, consumed) => {
                    &&& r matches Ok(Some(cp))
                    &&& cp.len == length
                    &&& cp.flags == flags
                    &&& cp.version == version
                    &&& cp.trailing@ == trailing
                    &&& t == s.skip(consumed)
                },
            }
        }),
{
    let avail = buf_len(bytes);
    if avail < LEN_SIZE + VERSION_SIZE {
        return Ok(None);
    }
    let length32 = read_u32_at(bytes, 0);
    if ((avail - LEN_SIZE) as u64) < (length32 as u64) {
        return Ok(None);
    }
    let length = length32 as usize;
    if length < VERSION_SIZE {
        return Err(FrameError::MalformedField);
    }
    let packed = read_u64_at(bytes, LEN_SIZE);
    proof {
        assert((packed >> 60u64) < 256) by (bit_vector);
    }
    let flags = (packed >> VERSION_BITS) as u8;
    let version = packed & VERSION_MASK;
    let trailing = copy_range(bytes, LEN_SIZE + VERSION_SIZE, length - VERSION_SIZE);
    buf_advance(bytes, LEN_SIZE + length);
    Ok(Some(ConnectPacket { len: length32, flags, version, trailing }))
}

/// Appends every byte of `src` to `dst`.
fn push_all(dst: &mut Vec<u8>, src: &Vec<u8>)
    ensures
        final(dst)@ == old(dst)@ + src@,
{
    proof {
        assert_seqs_equal!(dst@, old(dst)@ + src@.take(0));
    }
    let mut i: usize = 0;
    while i < src.len()
        invariant
            i <= src@.len(),
            dst@ == old(dst)@ + src@.take(i as int),
        decreases src@.len() - i,
    {
        dst.push(src[i]);
        i = i + 1;
        proof {
            assert_seqs_equal!(dst@, old(dst)@ + src@.take(i as int));
        }
    }
    proof {
        assert_seqs_equal!(dst@, old(dst)@ + src@);
    }
}

/// Appends the 4 little-endian bytes of `v` to `dst`.
fn push_u32_le(dst: &mut Vec<u8>, v: u32)
    ensures
        final(dst)@ == old(dst)@ + u32_le_bytes(v),
{
    dst.push((v % 0x100) as u8);
    dst.push((v / 0x100 % 0x100) as u8);
    dst.push((v / 0x1_0000 % 0x100) as u8);
    dst.push((v / 0x100_0000 % 0x100) as u8);
    proof {
        assert_seqs_equal!(dst@, old(dst)@ + u32_le_bytes(v));
    }
}

/// Appends the 8 little-endian bytes of `v` to `dst`.
fn push_u64_le(dst: &mut Vec<u8>, v: u64)
    ensures
        final(dst)@ == old(dst)@ + u64_le_bytes(v),
{
    dst.push((v % 0x100) as u8);
    dst.push((v / 0x100 % 0x100) as u8);
    dst.push((v / 0x1_0000 % 0x100) as u8);
    dst.push((v / 0x100_0000 % 0x100) as u8);
    dst.push((v / 0x1_0000_0000 % 0x100) as u8);
    dst.push((v / 0x100_0000_0000 % 0x100) as u8);
    dst.push((v / 0x1_0000_0000_0000 % 0x100) as u8);
    dst.push((v / 0x100_0000_0000_0000 % 0x100) as u8);
    proof {
        assert_seqs_equal!(dst@, old(dst)@ + u64_le_bytes(v));
    }
}

/// The on-wire bytes of a frame carrying `token` and `payload`: the body
/// length, the body's fingerprint, then the body itself.
pub open spec fn spec_encode_frame(token: Seq<u8>, payload: Seq<u8>) -> Seq<u8> {
    u32_le_bytes((token.len() + payload.len()) as u32) + u64_le_bytes(xxh3_of(token + payload))
        + token + payload
}

/// Encodes a frame for the wire: `len`, checksum over token‖payload,
/// token, payload, all integers little-endian.
pub fn encode_frame(token: &UID, payload: &Vec<u8>) -> (r: Vec<u8>)
    requires
        token.wf(),
        UID_SIZE + payload@.len() <= u32::MAX,
    ensures
        r@ == spec_encode_frame(token@, payload@),
{
    let mut body: Vec<u8> = Vec::new();
    push_all(&mut body, token.as_bytes());
    push_all(&mut body, payload);
    proof {
        assert_seqs_equal!(body@, token@ + payload@);
    }
    let sum = xxh3(&body);
    let len32 = body.len() as u32;
    let mut out: Vec<u8> = Vec::new();
    push_u32_le(&mut out, len32);
    push_u64_le(&mut out, sum);
    push_all(&mut out, &body);
    proof {
        assert_seqs_equal!(out@, spec_encode_frame(token@, payload@));
    }
    out
}

/// Decoding an encoded frame followed by any further stream bytes yields
/// exactly that frame's token and payload, consumes exactly the frame's
/// on-wire size, and leaves the further bytes untouched.
pub proof fn lemma_frame_decode_encoded(token: Seq<u8>, payload: Seq<u8>, rest: Seq<u8>)
    requires
        token.len() == UID_SIZE,
        token.len() + payload.len() <= u32::MAX,
    ensures
        ({
            let enc = spec_encode_frame(token, payload);
            &&& frame_decode(enc + rest) == FrameOutcome::Decoded(
                token,
                payload,
                enc.len() as int,
            )
            &&& (enc + rest).skip(enc.len() as int) == rest
        }),
{
    let lenv = (token.len() + payload.len()) as int;
    let len32 = lenv as u32;
    let sum = xxh3_of(token + payload);
    let enc = spec_encode_frame(token, payload);
    let w = enc + rest;
    assert(enc.len() == 12 + lenv);
    assert_seqs_equal!(w.subrange(0, 4), u32_le_bytes(len32));
    lemma_le_u32_round_trip(len32);
    assert_seqs_equal!(w.subrange(4, 12), u64_le_bytes(sum));
    lemma_le_u64_round_trip(sum);
    assert_seqs_equal!(w.subrange(12, 12 + lenv), token + payload);
    assert_seqs_equal!(w.subrange(12, 12 + UID_SIZE), token);
    assert_seqs_equal!(w.subrange(12 + UID_SIZE, 12 + lenv), payload);
    assert_seqs_equal!(w.skip(enc.len() as int), rest);
}

/// Round trip: decoding exactly the bytes `encode_frame` produces yields a
/// frame with the same token and payload, and consumes the whole buffer.
pub proof fn lemma_frame_round_trip(token: Seq<u8>, payload: Seq<u8>)
    requires
        token.len() == UID_SIZE,
        token.len() + payload.len() <= u32::MAX,
    ensures
        ({
            let enc = spec_encode_frame(token, payload);
            frame_decode(enc) == FrameOutcome::Decoded(token, payload, enc.len() as int)
        }),
{
    let enc = spec_encode_frame(token, payload);
    lemma_frame_decode_encoded(token, payload, Seq::<u8>::empty());
    assert_seqs_equal!(enc + Seq::<u8>::empty(), enc);
}

/// Every strict prefix of an encoded frame decodes to "need more data":
/// under one-byte-at-a-time delivery the decoder reports no result and
/// consumes nothing until the last byte has arrived.
pub proof fn lemma_prefix_needs_more(token: Seq<u8>, payload: Seq<u8>, n: int)
    requires
        token.len() == UID_SIZE,
        token.len() + payload.len() <= u32::MAX,
        0 <= n < spec_encode_frame(token, payload).len(),
    ensures
        frame_decode(spec_encode_frame(token, payload).take(n)) == FrameOutcome::NeedMore,
{
    let lenv = (token.len() + payload.len()) as int;
    let len32 = lenv as u32;
    let enc = spec_encode_frame(token, payload);
    let p = enc.take(n);
    assert(enc.len() == 12 + lenv);
    if n >= 28 {
        assert_seqs_equal!(p.subrange(0, 4), u32_le_bytes(len32));
        lemma_le_u32_round_trip(len32);
        assert(p.len() < 12 + lenv);
    }
}

/// Packing 4 flag bits above 60 version bits and unpacking them yields the
/// same flags/version pair.
pub proof fn lemma_pack_round_trip(flags: u8, version: u64)
    requires
        flags < 16,
        version <= VERSION_MASK,
    ensures
        flags_of(((flags as u64) << VERSION_BITS) | version) == flags,
        version_of(((flags as u64) << VERSION_BITS) | version) == version,
{
    let f = flags as u64;
    assert((((f << 60u64) | version) >> 60u64) == f) by (bit_vector)
        requires
            f < 16u64,
            version <= 0x0FFF_FFFF_FFFF_FFFFu64,
    ;
    assert((((f << 60u64) | version) & 0x0FFF_FFFF_FFFF_FFFFu64) == version) by (bit_vector)
        requires
            version <= 0x0FFF_FFFF_FFFF_FFFFu64,
    ;
}

/// The on-wire bytes of a handshake packet: the body length, the packed
/// version/flags field, then the trailing bytes.
pub open spec fn spec_encode_handshake(flags: u8, version: u64, trailing: Seq<u8>) -> Seq<u8> {
    u32_le_bytes((VERSION_SIZE + trailing.len()) as u32) + u64_le_bytes(
        ((flags as u64) << VERSION_BITS) | version,
    ) + trailing
}

/// Round trip: decoding an encoded handshake yields the same flags and
/// version, reports exactly the trailing bytes, and consumes the whole
/// packet.  Trailing bytes are never an error.
pub proof fn lemma_handshake_round_trip(flags: u8, version: u64, trailing: Seq<u8>)
    requires
        flags < 16,
        version <= VERSION_MASK,
        VERSION_SIZE + trailing.len() <= u32::MAX,
    ensures
        ({
            let enc = spec_encode_handshake(flags, version, trailing);
            handshake_decode(enc) == HandshakeOutcome::Decoded(
                (VERSION_SIZE + trailing.len()) as u32,
                flags,
                version,
                trailing,
                enc.len() as int,
            )
        }),
{
    let length = (VERSION_SIZE + trailing.len()) as int;
    let len32 = length as u32;
    let packed = ((flags as u64) << VERSION_BITS) | version;
    let enc = spec_encode_handshake(flags, version, trailing);
    assert(enc.len() == 4 + length);
    assert_seqs_equal!(enc.subrange(0, 4), u32_le_bytes(len32));
    lemma_le_u32_round_trip(len32);
    assert_seqs_equal!(enc.subrange(4, 12), u64_le_bytes(packed));
    lemma_le_u64_round_trip(packed);
    lemma_pack_round_trip(flags, version);
    assert_seqs_equal!(enc.subrange(12, 4 + length), trailing);
}

} // verus!
