//! The wire format of a framed message: a 4-byte big-endian length prefix
//! followed by that many bytes of protobuf-encoded `UMessage`.

use protobuf::Message;
use up_rust::UMessage;
use vstd::prelude::*;
use vstd::slice::slice_subrange;
use vstd::slice::slice_to_vec;

verus! {

/// Number of bytes of the length prefix that opens every frame.
pub const LENGTH_PREFIX_LEN: usize = 4;

/// The big-endian bytes of a 32-bit length.
pub open spec fn be_u32_bytes(n: u32) -> Seq<u8> {
    seq![
        (n / 0x100_0000) as u8,
        ((n / 0x1_0000) % 0x100) as u8,
        ((n / 0x100) % 0x100) as u8,
        (n % 0x100) as u8,
    ]
}

/// The number that four bytes denote when read big-endian.
pub open spec fn be_u32_value(b: Seq<u8>) -> int
    recommends
        b.len() == 4,
{
    b[0] * 0x100_0000 + b[1] * 0x1_0000 + b[2] * 0x100 + b[3]
}

/// The frame that carries `body`: its length as a big-endian prefix, then the body.
pub open spec fn frame_of(body: Seq<u8>) -> Seq<u8>
    recommends
        body.len() <= u32::MAX,
{
    be_u32_bytes(body.len() as u32) + body
}

/// The length that the prefix of `framed` declares.
pub open spec fn declared_len(framed: Seq<u8>) -> int
    recommends
        framed.len() >= 4,
{
    be_u32_value(framed.take(4))
}

/// The buffer is too short to hold a length prefix.
pub open spec fn lacks_prefix(framed: Seq<u8>) -> bool {
    framed.len() < 4
}

/// The buffer holds a prefix, but fewer body bytes than the prefix declares.
pub open spec fn lacks_body(framed: Seq<u8>) -> bool {
    framed.len() >= 4 && framed.len() - 4 < declared_len(framed)
}

/// The body carried by the frame at the start of `framed`, if it is complete.
/// Bytes after the declared body are not part of it.
pub open spec fn frame_body_of(framed: Seq<u8>) -> Option<Seq<u8>> {
    if lacks_prefix(framed) || lacks_body(framed) {
        None
    } else {
        Some(framed.subrange(4, 4 + declared_len(framed)))
    }
}

/// Why a buffer could not be framed or unframed.
#[derive(Debug)]
pub enum FrameError {
    /// Fewer than four bytes: no length prefix.
    TooShortForPrefix,
    /// The prefix declares more body bytes than the buffer holds.
    TooShortForBody,
    /// The body is longer than a 32-bit length prefix can declare.
    BodyTooLong,
    /// protobuf failed to encode or decode the message.
    Protobuf(protobuf::Error),
}

#[verifier::external_type_specification]
#[verifier::external_body]
pub struct ExUMessage(UMessage);

#[verifier::external_type_specification]
#[verifier::external_body]
pub struct ExProtobufError(protobuf::Error);

/// Reading back the big-endian bytes of a length gives that length.
pub proof fn lemma_be_u32_value_of_bytes(n: u32)
    ensures
        be_u32_bytes(n).len() == 4,
        be_u32_value(be_u32_bytes(n)) == n,
{
    let b = be_u32_bytes(n);
    assert(b[0] == n / 0x100_0000);
    assert(b[1] == (n / 0x1_0000) % 0x100);
    assert(b[2] == (n / 0x100) % 0x100);
    assert(b[3] == n % 0x100);
    assert(be_u32_value(b) == n) by (nonlinear_arith)
        requires
            b[0] == n / 0x100_0000,
            b[1] == (n / 0x1_0000) % 0x100,
            b[2] == (n / 0x100) % 0x100,
            b[3] == n % 0x100,
            be_u32_value(b) == b[0] * 0x100_0000 + b[1] * 0x1_0000 + b[2] * 0x100 + b[3],
            0 <= n < 0x1_0000_0000,
    ;
}

/// Any four bytes denote a 32-bit length whose big-endian bytes are those four bytes.
pub proof fn lemma_be_u32_bytes_of_value(b: Seq<u8>)
    requires
        b.len() == 4,
    ensures
        0 <= be_u32_value(b) <= u32::MAX,
        be_u32_bytes(be_u32_value(b) as u32) == b,
{
    let v = be_u32_value(b);
    let b0 = b[0] as int;
    let b1 = b[1] as int;
    let b2 = b[2] as int;
    let b3 = b[3] as int;
    assert(0 <= v <= u32::MAX);
    let n = v as u32;
    assert(n / 0x100_0000 == b0 && (n / 0x1_0000) % 0x100 == b1 && (n / 0x100) % 0x100 == b2
        && n % 0x100 == b3) by (nonlinear_arith)
        requires
            n == b0 * 0x100_0000 + b1 * 0x1_0000 + b2 * 0x100 + b3,
            0 <= b0 < 256,
            0 <= b1 < 256,
            0 <= b2 < 256,
            0 <= b3 < 256,
    ;
    assert(be_u32_bytes(n) =~= b);
}

/// Whatever bytes follow a frame on the stream, splitting gives back exactly
/// the body that was framed.
pub proof fn lemma_split_after_frame(body: Seq<u8>, rest: Seq<u8>)
    requires
        body.len() <= u32::MAX,
    ensures
        frame_body_of(frame_of(body) + rest) == Some(body),
{
    let n = body.len() as u32;
    lemma_be_u32_value_of_bytes(n);
    let framed = frame_of(body) + rest;
    assert(framed.take(4) =~= be_u32_bytes(n));
    assert(framed.subrange(4, 4 + body.len() as int) =~= body);
}

/// What splitting a buffer yields, framed again, is exactly the prefix of the
/// buffer that the split consumed.
pub proof fn lemma_frame_after_split(framed: Seq<u8>)
    ensures
        frame_body_of(framed) matches Some(body) ==> body.len() <= u32::MAX && frame_of(body)
            == framed.take(4 + body.len() as int),
{
    if let Some(body) = frame_body_of(framed) {
        lemma_be_u32_bytes_of_value(framed.take(4));
        assert(body.len() == declared_len(framed));
        assert(frame_of(body) =~= framed.take(4 + body.len() as int));
    }
}


/// The prefix bytes written for a length are its base-256 digits, most
/// significant first: `b[0]*2^24 + b[1]*2^16 + b[2]*2^8 + b[3] == n`.
pub proof fn lemma_prefix_spells_length(n: u32)
    ensures
        be_u32_bytes(n).len() == 4,
        be_u32_bytes(n)[0] * 0x100_0000 + be_u32_bytes(n)[1] * 0x1_0000 + be_u32_bytes(n)[2] * 0x100
            + be_u32_bytes(n)[3] == n,
{
    let b = be_u32_bytes(n);
    let d0: int = (n / 0x100_0000) as int;
    let d1: int = ((n / 0x1_0000) % 0x100) as int;
    let d2: int = ((n / 0x100) % 0x100) as int;
    let d3: int = (n % 0x100) as int;
    assert(d0 * 0x100_0000 + d1 * 0x1_0000 + d2 * 0x100 + d3 == n && 0 <= d0 < 0x100) by (nonlinear_arith)
        requires
            d0 == n / 0x100_0000,
            d1 == (n / 0x1_0000) % 0x100,
            d2 == (n / 0x100) % 0x100,
            d3 == n % 0x100,
            0 <= n < 0x1_0000_0000,
    ;
    assert(b[0] == d0);
    assert(b[1] == d1);
    assert(b[2] == d2);
    assert(b[3] == d3);
}

/// A frame is four prefix bytes that spell the body's length in base 256,
/// most significant first (`f[0]*2^24 + f[1]*2^16 + f[2]*2^8 + f[3]`), then the
/// body itself.
pub proof fn lemma_frame_prefix_is_length(body: Seq<u8>)
    requires
        body.len() <= u32::MAX,
    ensures
        frame_of(body).len() == body.len() + 4,
        frame_of(body)[0] * 0x100_0000 + frame_of(body)[1] * 0x1_0000 + frame_of(body)[2] * 0x100
            + frame_of(body)[3] == body.len(),
        frame_of(body).subrange(4, frame_of(body).len() as int) == body,
{
    lemma_prefix_spells_length(body.len() as u32);
    let f = frame_of(body);
    let p = be_u32_bytes(body.len() as u32);
    assert(f[0] == p[0] && f[1] == p[1] && f[2] == p[2] && f[3] == p[3]);
    assert(f.subrange(4, f.len() as int) =~= body);
}

/// Splitting reads the first four bytes as a base-256 number, most significant
/// first: with `n = f[0]*2^24 + f[1]*2^16 + f[2]*2^8 + f[3]`, a buffer holding
/// fewer than `n` bytes after the prefix lacks its body, and otherwise the body
/// is exactly the `n` bytes after the prefix.
pub proof fn lemma_split_reads_big_endian(framed: Seq<u8>)
    requires
        framed.len() >= 4,
    ensures
        declared_len(framed) == framed[0] * 0x100_0000 + framed[1] * 0x1_0000 + framed[2] * 0x100
            + framed[3],
        lacks_body(framed) <==> framed.len() - 4 < framed[0] * 0x100_0000 + framed[1] * 0x1_0000
            + framed[2] * 0x100 + framed[3],
        framed.len() - 4 >= framed[0] * 0x100_0000 + framed[1] * 0x1_0000 + framed[2] * 0x100
            + framed[3] ==> frame_body_of(framed) == Some(
            framed.subrange(
                4,
                4 + framed[0] * 0x100_0000 + framed[1] * 0x1_0000 + framed[2] * 0x100 + framed[3],
            ),
        ),
{
    let t = framed.take(4);
    assert(t[0] == framed[0] && t[1] == framed[1] && t[2] == framed[2] && t[3] == framed[3]);
}

/// Encodes a frame length as its four big-endian prefix bytes.
pub fn encode_length_prefix(n: u32) -> (prefix: [u8; 4])
    ensures
        prefix@ == be_u32_bytes(n),
        prefix[0] * 0x100_0000 + prefix[1] * 0x1_0000 + prefix[2] * 0x100 + prefix[3] == n,
{
    proof {
        lemma_prefix_spells_length(n);
    }
    let prefix = [
        (n / 0x100_0000) as u8,
        ((n / 0x1_0000) % 0x100) as u8,
        ((n / 0x100) % 0x100) as u8,
        (n % 0x100) as u8,
    ];
    assert(prefix@ =~= be_u32_bytes(n));
    prefix
}

/// Reads the body length that a four-byte big-endian prefix declares.
pub fn decode_length_prefix(prefix: [u8; 4]) -> (n: u32)
    ensures
        n == be_u32_value(prefix@),
        n == prefix[0] * 0x100_0000 + prefix[1] * 0x1_0000 + prefix[2] * 0x100 + prefix[3],
{
    (prefix[0] as u32) * 0x100_0000 + (prefix[1] as u32) * 0x1_0000 + (prefix[2] as u32) * 0x100
        + (prefix[3] as u32)
}


/// Splits the frame at the start of `framed` into its body; bytes after the
/// declared body are left out.
pub fn split_frame(framed: &[u8]) -> (r: Result<&[u8], FrameError>)
    ensures
        match r {
            Ok(body) => frame_body_of(framed@) == Some(body@),
            Err(FrameError::TooShortForPrefix) => lacks_prefix(framed@),
            Err(FrameError::TooShortForBody) => lacks_body(framed@),
            Err(_) => false,
        },
        r matches Ok(body) ==> framed@.len() >= 4 && body@ == framed@.subrange(
            4,
            4 + framed@[0] * 0x100_0000 + framed@[1] * 0x1_0000 + framed@[2] * 0x100 + framed@[3],
        ),
{
    if framed.len() < LENGTH_PREFIX_LEN {
        return Err(FrameError::TooShortForPrefix);
    }
    let prefix: [u8; 4] = [framed[0], framed[1], framed[2], framed[3]];
    assert(prefix@ =~= framed@.take(4));
    proof {
        lemma_split_reads_big_endian(framed@);
    }
    let body_len = decode_length_prefix(prefix) as usize;
    if framed.len() - LENGTH_PREFIX_LEN < body_len {
        Err(FrameError::TooShortForBody)
    } else {
        Ok(slice_subrange(framed, LENGTH_PREFIX_LEN, LENGTH_PREFIX_LEN + body_len))
    }
}

/// Frames `body`: its length as a 4-byte big-endian prefix, then the body.
/// A body too long for a 32-bit prefix is refused.
pub fn frame_body(body: &[u8]) -> (r: Result<Vec<u8>, FrameError>)
    ensures
        match r {
            Ok(framed) => body@.len() <= u32::MAX && framed@ == frame_of(body@),
            Err(FrameError::BodyTooLong) => body@.len() > u32::MAX,
            Err(_) => false,
        },
        r matches Ok(framed) ==> framed@.len() == body@.len() + 4 && framed@[0] * 0x100_0000
            + framed@[1] * 0x1_0000 + framed@[2] * 0x100 + framed@[3] == body@.len()
            && framed@.subrange(4, framed@.len() as int) == body@,
{
    if body.len() > u32::MAX as usize {
        return Err(FrameError::BodyTooLong);
    }
    let prefix = encode_length_prefix(body.len() as u32);
    let mut framed: Vec<u8> = vec![prefix[0], prefix[1], prefix[2], prefix[3]];
    let mut payload = slice_to_vec(body);
    framed.append(&mut payload);
    assert(framed@ =~= frame_of(body@));
    proof {
        lemma_frame_prefix_is_length(body@);
    }
    Ok(framed)
}

/// Whether protobuf's `Message::write_to_bytes` encodes this message without
/// error. Encoding reads the message alone (its unknown fields are kept in a
/// map with a fixed hasher), so the outcome is a function of the message.
pub uninterp spec fn umessage_encodes(msg: UMessage) -> bool;

/// The bytes that protobuf's `Message::write_to_bytes` gives for this message
/// when it encodes it; the wire encoding itself is protobuf's.
pub uninterp spec fn umessage_encoding(msg: UMessage) -> Seq<u8>;

/// protobuf's `Message::write_to_bytes` on a `UMessage`: it succeeds exactly
/// when `umessage_encodes` holds of the message, and then gives the bytes that
/// `umessage_encoding` names.
#[verifier::external_body]
fn encode_message(msg: &UMessage) -> (r: Result<Vec<u8>, protobuf::Error>)
    ensures
        r is Ok == umessage_encodes(*msg),
        r matches Ok(b) ==> b@ == umessage_encoding(*msg),
{
    msg.write_to_bytes()
}

/// Whether protobuf's `Message::parse_from_bytes` decodes these bytes as a
/// `UMessage` without error. Decoding reads the bytes alone, so the outcome is
/// a function of them; the wire grammar itself is protobuf's.
pub uninterp spec fn umessage_decodes(bytes: Seq<u8>) -> bool;

/// The message that protobuf's `Message::parse_from_bytes` gives for these
/// bytes when it decodes them.
pub uninterp spec fn umessage_decoded(bytes: Seq<u8>) -> UMessage;

/// protobuf's `Message::parse_from_bytes` for `UMessage`: it succeeds exactly
/// on the bytes that `umessage_decodes` names, and then gives the message that
/// `umessage_decoded` names.
#[verifier::external_body]
fn decode_message(bytes: &[u8]) -> (r: Result<UMessage, protobuf::Error>)
    ensures
        r is Ok == umessage_decodes(bytes@),
        r matches Ok(m) ==> m == umessage_decoded(bytes@),
{
    UMessage::parse_from_bytes(bytes)
}

/// What framing a message gives: its protobuf encoding framed, an error from
/// protobuf when it cannot be encoded, or `BodyTooLong` when the encoding is
/// too long for a 32-bit length prefix.
pub open spec fn serialized(msg: UMessage, r: Result<Vec<u8>, FrameError>) -> bool {
    match r {
        Ok(framed) => umessage_encodes(msg) && umessage_encoding(msg).len() <= u32::MAX
            && framed@ == frame_of(umessage_encoding(msg)),
        Err(FrameError::Protobuf(_)) => !umessage_encodes(msg),
        Err(FrameError::BodyTooLong) => umessage_encodes(msg) && umessage_encoding(msg).len()
            > u32::MAX,
        Err(_) => false,
    }
}

/// Encodes a `UMessage` into a framed byte buffer: a 4-byte big-endian length
/// prefix followed by the protobuf-encoded message.
pub fn serialize_for_unix_socket(msg: &UMessage) -> (r: Result<Vec<u8>, FrameError>)
    ensures
        serialized(*msg, r),
{
    let envelope = match encode_message(msg) {
        Ok(bytes) => bytes,
        Err(e) => return Err(FrameError::Protobuf(e)),
    };
    frame_body(envelope.as_slice())
}

/// Decodes a framed byte buffer produced by [`serialize_for_unix_socket`]:
/// the prefix is read, the declared body is cut out, and only that body is
/// handed to protobuf's decoder.
pub fn deserialize_for_unix_socket(framed: &[u8]) -> (r: Result<UMessage, FrameError>)
    ensures
        r matches Err(FrameError::TooShortForPrefix) <==> lacks_prefix(framed@),
        r matches Err(FrameError::TooShortForBody) <==> lacks_body(framed@),
        r matches Err(FrameError::BodyTooLong) ==> false,
        r is Ok <==> (frame_body_of(framed@) matches Some(body) && umessage_decodes(body)),
        r matches Ok(m) ==> (frame_body_of(framed@) matches Some(body) && m == umessage_decoded(
            body,
        )),
{
    let body = split_frame(framed)?;
    decode_message_body(body)
}

/// Decodes the body of a frame, once the prefix has told how long it is.
pub fn decode_message_body(body: &[u8]) -> (r: Result<UMessage, FrameError>)
    ensures
        r is Ok <==> umessage_decodes(body@),
        r matches Ok(m) ==> m == umessage_decoded(body@),
        r is Err ==> r matches Err(FrameError::Protobuf(_)),
{
    match decode_message(body) {
        Ok(msg) => Ok(msg),
        Err(e) => Err(FrameError::Protobuf(e)),
    }
}

/// Deserializing what serializing a message gave hands the decoder exactly the
/// message's protobuf encoding, whatever bytes follow the frame: the message
/// comes back as protobuf decodes its own encoding.
pub proof fn lemma_deserialize_after_serialize(msg: UMessage, framed: Seq<u8>, rest: Seq<u8>)
    requires
        umessage_encodes(msg),
        umessage_encoding(msg).len() <= u32::MAX,
        framed == frame_of(umessage_encoding(msg)),
    ensures
        frame_body_of(framed + rest) == Some(umessage_encoding(msg)),
{
    lemma_split_after_frame(umessage_encoding(msg), rest);
}

} // verus!
