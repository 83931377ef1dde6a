//! The framing of messages on a stream: the length of the text of a message in
//! bytes, as four bytes with the least significant first, then the text in UTF-8.

use vstd::prelude::*;
use vstd::slice::slice_subrange;
use vstd::string::StringSliceAdditionalSpecFns;
use vstd::utf8::{decode_utf8, encode_utf8, valid_utf8};

verus! {

/// Why bytes are no frame, or a text cannot be framed.
#[derive(Debug, Clone, Copy, PartialEq, Eq, Structural)]
pub enum WireError {
    /// There are fewer bytes than the length asks for, or than a length takes.
    ShortRead,
    /// The length does not fit the bytes: it is above what four bytes can say, or
    /// bytes follow the text.
    MalformedLength,
    /// The bytes of the text are not valid UTF-8.
    InvalidText,
}

/// The four bytes of a length, least significant first.
pub open spec fn length_bytes(n: int) -> Seq<u8> {
    seq![
        (n % 256) as u8,
        (n / 0x100 % 256) as u8,
        (n / 0x1_0000 % 256) as u8,
        (n / 0x100_0000 % 256) as u8,
    ]
}

/// The length that four bytes say.
pub open spec fn length_of(bytes: Seq<u8>) -> int {
    bytes[0] + 0x100 * bytes[1] + 0x1_0000 * bytes[2] + 0x100_0000 * bytes[3]
}

/// The frame of a text, where its UTF-8 form is short enough for the length to
/// fit in four bytes.
pub open spec fn framing(text: Seq<char>) -> Result<Seq<u8>, WireError> {
    if encode_utf8(text).len() > u32::MAX {
        Err(WireError::MalformedLength)
    } else {
        Ok(length_bytes(encode_utf8(text).len() as int) + encode_utf8(text))
    }
}

/// The text of a frame: of bytes that are four bytes of length and then exactly
/// as many bytes of valid UTF-8 as the length says.
pub open spec fn unframing(bytes: Seq<u8>) -> Result<Seq<char>, WireError> {
    if bytes.len() < 4 {
        Err(WireError::ShortRead)
    } else if bytes.len() < 4 + length_of(bytes.subrange(0, 4)) {
        Err(WireError::ShortRead)
    } else if bytes.len() > 4 + length_of(bytes.subrange(0, 4)) {
        Err(WireError::MalformedLength)
    } else if !valid_utf8(bytes.subrange(4, bytes.len() as int)) {
        Err(WireError::InvalidText)
    } else {
        Ok(decode_utf8(bytes.subrange(4, bytes.len() as int)))
    }
}

/// `String::from_utf8` of std gives the text whose UTF-8 form the bytes are, and
/// gives none for bytes that are not valid UTF-8.
#[verifier::external_body]
fn text_from_utf8(bytes: Vec<u8>) -> (text: Option<String>)
    ensures
        text is Some <==> valid_utf8(bytes@),
        text matches Some(t) ==> encode_utf8(t@) == bytes@,
{
    String::from_utf8(bytes).ok()
}

/// A result with the bytes it holds as a sequence.
pub open spec fn bytes_result(result: Result<Vec<u8>, WireError>) -> Result<Seq<u8>, WireError> {
    match result {
        Ok(bytes) => Ok(bytes@),
        Err(e) => Err(e),
    }
}

/// A result with the text it holds as a sequence of characters.
pub open spec fn text_result(result: Result<String, WireError>) -> Result<Seq<char>, WireError> {
    match result {
        Ok(text) => Ok(text@),
        Err(e) => Err(e),
    }
}

/// Writes the frame of a message: the length of its text, then the text.
pub fn frame_message(message: &str) -> (frame: Result<Vec<u8>, WireError>)
    ensures
        bytes_result(frame) == framing(message@),
{
    let payload = message.as_bytes();
    if payload.len() > 0xFFFF_FFFF {
        return Err(WireError::MalformedLength);
    }
    let size: u32 = payload.len() as u32;
    let mut frame: Vec<u8> = Vec::with_capacity(4);
    frame.push((size % 256) as u8);
    frame.push((size / 0x100 % 256) as u8);
    frame.push((size / 0x1_0000 % 256) as u8);
    frame.push((size / 0x100_0000 % 256) as u8);
    frame.extend_from_slice(payload);
    assert(frame@ =~= length_bytes(size as int) + encode_utf8(message@));
    Ok(frame)
}

/// Reads the length of the text from the four bytes that begin a frame.
pub fn payload_length(prefix: &[u8; 4]) -> (length: u32)
    ensures
        length == length_of(prefix@),
{
    prefix[0] as u32 + 0x100 * (prefix[1] as u32) + 0x1_0000 * (prefix[2] as u32) + 0x100_0000 * (
    prefix[3] as u32)
}

/// Reads the text of a message from the bytes that follow the length.
pub fn payload_text(payload: Vec<u8>) -> (text: Result<String, WireError>)
    ensures
        text_result(text) == (if valid_utf8(payload@) {
            Ok(decode_utf8(payload@))
        } else {
            Err(WireError::InvalidText)
        }),
{
    match text_from_utf8(payload) {
        Some(text) => {
            proof {
                vstd::utf8::encode_utf8_decode_utf8(text@);
            }
            Ok(text)
        },
        None => Err(WireError::InvalidText),
    }
}

/// Reads the text of a message from its frame.
pub fn unframe_message(frame: &[u8]) -> (text: Result<String, WireError>)
    ensures
        text_result(text) == unframing(frame@),
{
    if frame.len() < 4 {
        return Err(WireError::ShortRead);
    }
    let prefix = [frame[0], frame[1], frame[2], frame[3]];
    let length = payload_length(&prefix) as usize;
    if frame.len() - 4 < length {
        return Err(WireError::ShortRead);
    }
    if frame.len() - 4 > length {
        return Err(WireError::MalformedLength);
    }
    let payload = vstd::slice::slice_to_vec(slice_subrange(frame, 4, frame.len()));
    payload_text(payload)
}

/// Four bytes say the length that they were written for.
pub proof fn lemma_length_round_trip(n: int)
    requires
        0 <= n <= u32::MAX,
    ensures
        length_bytes(n).len() == 4,
        length_of(length_bytes(n)) == n,
{
}

/// Framing round trip: the frame of a text is read back as that text.
pub proof fn lemma_unframe_frame(text: Seq<char>)
    requires
        encode_utf8(text).len() <= u32::MAX,
    ensures
        framing(text) matches Ok(frame) && unframing(frame) == Ok::<Seq<char>, WireError>(text),
{
    let payload = encode_utf8(text);
    let frame = framing(text).unwrap();
    assert(frame.subrange(4, frame.len() as int) =~= payload);
    vstd::utf8::encode_utf8_valid_utf8(text);
    vstd::utf8::encode_utf8_decode_utf8(text);
}

/// Every frame begins with its four bytes of length, so no message is empty
/// on the stream, even where its text is.
pub proof fn lemma_frame_is_not_empty(text: Seq<char>)
    ensures
        framing(text) matches Ok(frame) ==> frame.len() == 4 + encode_utf8(text).len(),
{
}

} // verus!
