//! Packets on the wire: a varint that counts the bytes after it, then a
//! one-byte packet id, then the payload.

use vstd::prelude::*;
use vstd::utf8::encode_utf8;
use crate::error::ProtocolError;
use crate::varint::{decode, decoding, encode, encoding, Decoded};

verus! {

/// The most bytes that may follow a length prefix: lengths travel as
/// non-negative 32-bit integers.
pub const MAX_LENGTH: usize = 0x7fff_ffff;

/// A packet with the given id and payload. The length prefix counts the id
/// byte and the payload, not itself.
pub open spec fn packet(id: u8, payload: Seq<u8>) -> Seq<u8>
    recommends
        1 + payload.len() <= MAX_LENGTH,
{
    encoding((1 + payload.len()) as i32) + seq![id] + payload
}

/// The packet for `id` and `payload`, if its length can be written down.
pub open spec fn framed(id: u8, payload: Seq<u8>) -> Option<Seq<u8>> {
    if 1 + payload.len() <= MAX_LENGTH {
        Some(packet(id, payload))
    } else {
        None
    }
}

/// A string as it travels inside a payload: its length in bytes as a varint,
/// then its UTF-8 bytes.
pub open spec fn prefixed_text(text: Seq<char>) -> Seq<u8>
    recommends
        encode_utf8(text).len() <= MAX_LENGTH,
{
    encoding(encode_utf8(text).len() as i32) + encode_utf8(text)
}

/// The packet whose payload is the single string `text`, if the string and
/// the packet are short enough for their lengths to be written down.
pub open spec fn text_packet(id: u8, text: Seq<char>) -> Option<Seq<u8>> {
    if encode_utf8(text).len() <= MAX_LENGTH {
        framed(id, prefixed_text(text))
    } else {
        None
    }
}

/// Appends a copy of `bytes` to `buffer`.
pub fn append(buffer: &mut Vec<u8>, bytes: &[u8])
    ensures
        final(buffer)@ == old(buffer)@ + bytes@,
{
    let mut index: usize = 0;
    while index < bytes.len()
        invariant
            index <= bytes@.len(),
            buffer@ == old(buffer)@ + bytes@.take(index as int),
        decreases bytes.len() - index,
    {
        buffer.push(bytes[index]);
        index += 1;
    }
}

/// A decoded varint used as a length or count, which has to be positive.
pub fn positive_length(value: i32) -> (length: Result<usize, ProtocolError>)
    ensures
        value > 0 ==> length == Ok::<usize, ProtocolError>(value as usize),
        value <= 0 ==> length == Err::<usize, ProtocolError>(ProtocolError::InvalidValue),
{
    if value > 0 {
        Ok(value as usize)
    } else {
        Err(ProtocolError::InvalidValue)
    }
}

/// Reads the length prefix at the start of `input`: the length and the number
/// of bytes that the prefix itself took. Whether the length is acceptable in
/// its place is for the caller to say, before anything is allocated for it.
pub fn read_prefixed_length(input: &[u8]) -> (outcome: Result<(usize, usize), ProtocolError>)
    ensures
        match decoding(input@) {
            Decoded::Value { value, consumed } => if value > 0 {
                outcome == Ok::<(usize, usize), ProtocolError>((value as usize, consumed as usize))
            } else {
                outcome == Err::<(usize, usize), ProtocolError>(ProtocolError::InvalidValue)
            },
            Decoded::Malformed => outcome == Err::<(usize, usize), ProtocolError>(
                ProtocolError::MalformedVarint,
            ),
            Decoded::Truncated => outcome == Err::<(usize, usize), ProtocolError>(
                ProtocolError::TransportError,
            ),
        },
{
    match decode(input) {
        Ok((value, consumed)) => match positive_length(value) {
            Ok(length) => Ok((length, consumed)),
            Err(error) => Err(error),
        },
        Err(error) => Err(error),
    }
}

/// Builds the packet for `id` and `payload`: length prefix, id, payload, in
/// that order. Fails with `FrameTooLarge` where the length does not fit the
/// prefix.
pub fn write_packet(id: u8, payload: &[u8]) -> (frame: Result<Vec<u8>, ProtocolError>)
    ensures
        match frame {
            Ok(bytes) => framed(id, payload@) == Some(bytes@),
            Err(error) => error == ProtocolError::FrameTooLarge && framed(id, payload@).is_none(),
        },
{
    if payload.len() >= MAX_LENGTH {
        return Err(ProtocolError::FrameTooLarge);
    }
    let length: usize = 1 + payload.len();
    let mut frame: Vec<u8> = encode(length as i32);
    frame.push(id);
    append(&mut frame, payload);
    Ok(frame)
}

/// Builds the packet whose payload is `text` as a length-prefixed string.
/// Fails with `FrameTooLarge` where a length does not fit its prefix.
pub fn write_text_packet(id: u8, text: &str) -> (frame: Result<Vec<u8>, ProtocolError>)
    ensures
        match frame {
            Ok(bytes) => text_packet(id, text@) == Some(bytes@),
            Err(error) => error == ProtocolError::FrameTooLarge && text_packet(id, text@).is_none(),
        },
{
    let bytes: &[u8] = text.as_bytes();
    if bytes.len() > MAX_LENGTH {
        return Err(ProtocolError::FrameTooLarge);
    }
    let mut payload: Vec<u8> = encode(bytes.len() as i32);
    append(&mut payload, bytes);
    write_packet(id, payload.as_slice())
}

} // verus!
