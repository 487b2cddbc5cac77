//! How payloads travel in messages: as text where the bytes are valid
//! UTF-8, base64 encoded where they are not or where the client says so.

use vstd::prelude::*;
use vstd::string::StrSliceExecFns;
use vstd::utf8::{decode_utf8, encode_utf8, valid_utf8};
use crate::errors::{ErrorView, WebsocketSerialServerError};
use crate::messages::{ResponseView, SerialResponse};

verus! {

/// The error with which `base64::decode` rejects a text.
#[verifier::external_type_specification]
#[verifier::external_body]
pub struct ExDecodeError(base64::DecodeError);

/// The text that `base64::encode` gives for `bytes`: their base64 encoding
/// in the standard alphabet, with padding.
pub uninterp spec fn base64_encoding(bytes: Seq<u8>) -> Seq<char>;

/// The bytes that `base64::decode` reads from `text`, or `None` where it
/// rejects the text.
pub uninterp spec fn base64_decoding(text: Seq<char>) -> Option<Seq<u8>>;

/// Calls `base64::encode`. Claims that the result depends on the bytes
/// alone. The call panics only where the length of the encoding overflows
/// or is more than a buffer can hold, which the precondition excludes.
#[verifier::external_body]
fn base64_encode(bytes: &Vec<u8>) -> (text: String)
    requires
        encoding_fits(bytes@.len()),
    ensures
        text@ == base64_encoding(bytes@),
{
    base64::encode(bytes)
}

/// Calls `base64::decode`. Claims that whether it succeeds, and the bytes
/// it gives, depend on the text alone. The call panics only where a length
/// it computes from that of the text overflows or is more than a buffer
/// can hold, which the precondition excludes.
#[verifier::external_body]
fn base64_decode(text: &String) -> (decoded: Result<Vec<u8>, base64::DecodeError>)
    requires
        decoding_fits(text@),
    ensures
        match decoded {
            Ok(bytes) => base64_decoding(text@) == Some(bytes@),
            Err(_) => base64_decoding(text@) is None,
        },
{
    base64::decode(text)
}

/// Calls `String::from_utf8` on a copy of the bytes. Claims what its
/// documentation says: it succeeds exactly on valid UTF-8, and the string
/// is then the text the bytes encode.
#[verifier::external_body]
fn utf8_text(bytes: &Vec<u8>) -> (text: Option<String>)
    ensures
        match text {
            Some(s) => valid_utf8(bytes@) && s@ == decode_utf8(bytes@),
            None => !valid_utf8(bytes@),
        },
{
    String::from_utf8(bytes.clone()).ok()
}

/// Whether the base64 encoding of `len` bytes fits in a buffer: its
/// length is at most `isize::MAX`.
pub open spec fn encoding_fits(len: nat) -> bool {
    len / 3 * 4 + 4 <= isize::MAX
}

/// Whether the text is short enough for the decoder: its length in bytes
/// is at most `isize::MAX`, as that of every string in memory is.
pub open spec fn decoding_fits(text: Seq<char>) -> bool {
    encode_utf8(text).len() <= isize::MAX
}

/// Whether `data` is short enough to be base64 encoded.
pub fn data_fits(data: &Vec<u8>) -> (fits: bool)
    ensures
        fits == encoding_fits(data@.len()),
{
    data.len() / 3 <= (isize::MAX as usize - 4) / 4
}

/// Whether the text is short enough for the decoder.
pub fn text_fits(text: &String) -> (fits: bool)
    ensures
        fits == decoding_fits(text@),
{
    text.as_str().as_bytes().len() <= isize::MAX as usize
}

/// The failure reported for a payload that is flagged as base64 and is not.
pub open spec fn invalid_base64() -> ErrorView {
    ErrorView::Other { description: "Invalid base64 data"@, display: "Invalid base64 data"@ }
}

/// The bytes a `Write` request asks to write: the payload decoded from
/// base64 if it is flagged so, its UTF-8 bytes otherwise.
pub open spec fn payload_bytes(data: Seq<char>, is_base64: bool) -> Result<Seq<u8>, ErrorView> {
    if is_base64 {
        match base64_decoding(data) {
            Some(bytes) => Ok(bytes),
            None => Err(invalid_base64()),
        }
    } else {
        Ok(encode_utf8(data))
    }
}

/// The response that carries `data` read from `port`: as text where the
/// bytes are valid UTF-8, base64 encoded and flagged otherwise.
pub open spec fn read_response_of(port: Seq<char>, data: Seq<u8>) -> ResponseView {
    if valid_utf8(data) {
        ResponseView::Read { port, data: decode_utf8(data), base64: Some(false) }
    } else {
        ResponseView::Read { port, data: base64_encoding(data), base64: Some(true) }
    }
}

/// What the decoder's verdict means for a request: the bytes, or the error
/// to report.
pub fn decoded_or_error(decoded: Result<Vec<u8>, base64::DecodeError>) -> (payload: Result<
    Vec<u8>,
    WebsocketSerialServerError,
>)
    ensures
        match decoded {
            Ok(bytes) => payload == Ok::<Vec<u8>, WebsocketSerialServerError>(bytes),
            Err(_) => payload is Err && payload->Err_0@ == invalid_base64(),
        },
{
    match decoded {
        Ok(bytes) => Ok(bytes),
        Err(_) => Err(
            WebsocketSerialServerError::Other {
                description: "Invalid base64 data".to_owned(),
                display: "Invalid base64 data".to_owned(),
            },
        ),
    }
}

/// Decode data payload.
pub fn decode_data(data: &String, is_base64: bool) -> (payload: Result<
    Vec<u8>,
    WebsocketSerialServerError,
>)
    requires
        is_base64 ==> decoding_fits(data@),
    ensures
        match payload {
            Ok(bytes) => payload_bytes(data@, is_base64) == Ok::<Seq<u8>, ErrorView>(bytes@),
            Err(e) => payload_bytes(data@, is_base64) == Err::<Seq<u8>, ErrorView>(e@),
        },
{
    if is_base64 {
        decoded_or_error(base64_decode(data))
    } else {
        Ok(data.as_str().as_bytes_vec())
    }
}

/// The response that carries text read from a port.
pub fn text_read(port: &String, text: String) -> (response: SerialResponse)
    ensures
        response@ == (ResponseView::Read { port: port@, data: text@, base64: Some(false) }),
{
    SerialResponse::Read { port: port.clone(), data: text, base64: Some(false) }
}

/// The response that carries base64 encoded bytes read from a port.
pub fn binary_read(port: &String, encoded: String) -> (response: SerialResponse)
    ensures
        response@ == (ResponseView::Read { port: port@, data: encoded@, base64: Some(true) }),
{
    SerialResponse::Read { port: port.clone(), data: encoded, base64: Some(true) }
}

/// The response that carries `data` read from `port`.
pub fn read_response(port: &String, data: &Vec<u8>) -> (response: SerialResponse)
    requires
        encoding_fits(data@.len()),
    ensures
        response@ == read_response_of(port@, data@),
{
    match utf8_text(data) {
        Some(text) => text_read(port, text),
        None => binary_read(port, base64_encode(data)),
    }
}

} // verus!
