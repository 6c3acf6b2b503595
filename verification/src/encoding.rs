//! Base64 account and instruction data.

use base64::engine::general_purpose::{STANDARD, STANDARD_NO_PAD};
use base64::Engine;
use vstd::prelude::*;

use crate::text::{self, joined};

verus! {

/// The symbol of six bits in base64.
pub open spec fn symbol(bits: int) -> char {
    "ABCDEFGHIJKLMNOPQRSTUVWXYZabcdefghijklmnopqrstuvwxyz0123456789+/"@[bits]
}

/// How bytes are written in base64, without padding: four symbols for three
/// bytes, and as many as their bits need for one or two bytes at the end.
pub open spec fn base64_text(bytes: Seq<u8>) -> Seq<char>
    decreases bytes.len(),
{
    if bytes.len() == 0 {
        Seq::empty()
    } else if bytes.len() == 1 {
        seq![symbol(bytes[0] as int / 4), symbol(bytes[0] % 4 * 16)]
    } else if bytes.len() == 2 {
        seq![
            symbol(bytes[0] as int / 4),
            symbol(bytes[0] % 4 * 16 + bytes[1] as int / 16),
            symbol(bytes[1] % 16 * 4),
        ]
    } else {
        seq![
            symbol(bytes[0] as int / 4),
            symbol(bytes[0] % 4 * 16 + bytes[1] as int / 16),
            symbol(bytes[1] % 16 * 4 + bytes[2] as int / 64),
            symbol(bytes[2] as int % 64),
        ] + base64_text(bytes.skip(3))
    }
}

/// A text filled up with padding to a multiple of four characters.
pub open spec fn with_padding(body: Seq<char>) -> Seq<char> {
    body + Seq::new(((4 - body.len() % 4) % 4) as nat, |i: int| '=')
}

/// What the base64 engine that allows no padding makes of a text: the bytes,
/// or the text of its error.
pub uninterp spec fn unpadded_decoding(text: Seq<char>) -> Result<Seq<u8>, Seq<char>>;

/// Calls `decode` of base64's `STANDARD_NO_PAD` engine, with the error turned
/// to text. The result is a function of the text alone, named by
/// [`unpadded_decoding`]. It undoes encoding: what is written of bytes reads
/// back, see [`base64_text`], and no other text is read. A text with a padding
/// character is refused.
#[verifier::external_body]
pub(crate) fn decode_unpadded(value: &str) -> (res: Result<Vec<u8>, String>)
    ensures
        text::outcome(res) == unpadded_decoding(value@),
        res is Ok ==> value@ == base64_text(res->Ok_0@),
        forall|bytes: Seq<u8>|
            #![trigger base64_text(bytes)]
            value@ == base64_text(bytes) ==> res is Ok && res->Ok_0@ == bytes,
        value@.contains('=') ==> res is Err,
{
    match STANDARD_NO_PAD.decode(value) {
        Ok(bytes) => Ok(bytes),
        Err(error) => Err(error.to_string()),
    }
}

/// What the base64 engine that demands padding makes of a text: the bytes, or
/// the text of its error.
pub uninterp spec fn padded_decoding(text: Seq<char>) -> Result<Seq<u8>, Seq<char>>;

/// Calls `decode` of base64's `STANDARD` engine, with the error turned to
/// text. The result is a function of the text alone, named by
/// [`padded_decoding`]. It undoes encoding: what is written of bytes and filled
/// up with padding reads back, and no other text is read.
#[verifier::external_body]
pub(crate) fn decode_padded(value: &str) -> (res: Result<Vec<u8>, String>)
    ensures
        text::outcome(res) == padded_decoding(value@),
        res is Ok ==> value@ == with_padding(base64_text(res->Ok_0@)),
        forall|bytes: Seq<u8>|
            #![trigger base64_text(bytes)]
            value@ == with_padding(base64_text(bytes)) ==> res is Ok && res->Ok_0@ == bytes,
{
    match STANDARD.decode(value) {
        Ok(bytes) => Ok(bytes),
        Err(error) => Err(error.to_string()),
    }
}

/// The bytes that either reading gives, the one without padding first; if
/// neither gives any, the error of the reading with padding.
pub open spec fn either_decoding(
    unpadded: Result<Seq<u8>, Seq<char>>,
    padded: Result<Seq<u8>, Seq<char>>,
) -> Result<Seq<u8>, Seq<char>> {
    match (unpadded, padded) {
        (Ok(bytes), _) => Ok(bytes),
        (Err(_), Ok(bytes)) => Ok(bytes),
        (Err(_), Err(reason)) => Err("invalid base64: "@ + reason),
    }
}

/// Chooses between the two readings of one text.
pub fn choose_decoding(unpadded: Result<Vec<u8>, String>, padded: Result<Vec<u8>, String>) -> (res:
    Result<Vec<u8>, String>)
    ensures
        text::outcome(res) == either_decoding(text::outcome(unpadded), text::outcome(padded)),
        unpadded matches Ok(bytes) ==> res is Ok && res->Ok_0@ == bytes@,
        unpadded is Err ==> (padded matches Ok(bytes) ==> res is Ok && res->Ok_0@ == bytes@),
        unpadded is Err ==> (padded matches Err(reason) ==> res is Err && res->Err_0@
            == "invalid base64: "@ + reason@),
{
    match unpadded {
        Ok(bytes) => Ok(bytes),
        Err(_) => match padded {
            Ok(bytes) => Ok(bytes),
            Err(reason) => Err(joined("invalid base64: ", reason.as_str())),
        },
    }
}

/// The result of reading base64 text, padded or not.
pub open spec fn decoded_base64(value: Seq<char>) -> Result<Seq<u8>, Seq<char>> {
    either_decoding(unpadded_decoding(value), padded_decoding(value))
}

/// Bytes written in base64, with padding or without.
pub open spec fn is_base64_of(value: Seq<char>, bytes: Seq<u8>) -> bool {
    value == base64_text(bytes) || value == with_padding(base64_text(bytes))
}

/// Reads base64 text. Padding may be there or not: the sources of the data do
/// not agree on it, and it makes no difference to the bytes. What is written of
/// bytes in either way reads back as those bytes, and nothing else is read.
pub fn decode_base64(value: &str) -> (res: Result<Vec<u8>, String>)
    ensures
        text::outcome(res) == decoded_base64(value@),
        res is Ok ==> is_base64_of(value@, res->Ok_0@),
        forall|bytes: Seq<u8>| #[trigger]
            is_base64_of(value@, bytes) ==> res is Ok && res->Ok_0@ == bytes,
{
    let unpadded: Result<Vec<u8>, String> = decode_unpadded(value);
    let padded: Result<Vec<u8>, String> = decode_padded(value);
    proof {
        assert forall|bytes: Seq<u8>| #[trigger] is_base64_of(value@, bytes) implies value@
            == base64_text(bytes) || text::outcome(unpadded) is Err by {
            let body = base64_text(bytes);
            let count = (4 - body.len() % 4) % 4;
            if value@ == with_padding(body) && count == 0 {
                assert(value@ =~= body);
            } else if value@ == with_padding(body) {
                assert(value@[body.len() as int] == '=');
            }
        }
    }
    choose_decoding(unpadded, padded)
}

/// Bytes that either engine reads are the bytes that are read, those of the
/// engine without padding first; where neither reads any, the engine with
/// padding gives the reason.
pub proof fn readable_bytes_are_read(value: Seq<char>)
    ensures
        unpadded_decoding(value) matches Ok(bytes) ==> decoded_base64(value) == Result::<
            Seq<u8>,
            Seq<char>,
        >::Ok(bytes),
        unpadded_decoding(value) is Err ==> match padded_decoding(value) {
            Ok(bytes) => decoded_base64(value) == Result::<Seq<u8>, Seq<char>>::Ok(bytes),
            Err(reason) => decoded_base64(value) == Result::<Seq<u8>, Seq<char>>::Err(
                "invalid base64: "@ + reason,
            ),
        },
{
}

} // verus!
