//! Wire bytes as base64 text, for channels that carry text only.

use crate::blocks::codeword_count;
use crate::codec::{decode, decoded, encode, encoded};
use vstd::prelude::*;

verus! {

/// Why a text is not base64.
#[derive(Clone, Copy, Debug, PartialEq, Eq, Structural)]
pub enum ArmorError {
    /// A byte outside the alphabet, or padding out of place.
    InvalidByte { offset: usize, byte: u8 },
    /// A length that no base64 text has.
    InvalidLength,
    /// A last symbol with bits set that no byte would take.
    InvalidLastSymbol { offset: usize, byte: u8 },
}

/// The text that `base64::encode` gives for `bytes`: standard alphabet, padded.
pub uninterp spec fn base64_text(bytes: Seq<u8>) -> Seq<char>;

/// What `base64::decode` gives for `text`: the bytes it stands for, or why it
/// stands for none.
pub uninterp spec fn base64_bytes(text: Seq<u8>) -> Result<Seq<u8>, ArmorError>;

/// The length of the base64 text of `byte_count` bytes: four characters for
/// every three bytes, the last group padded.
pub open spec fn armored_len(byte_count: nat) -> nat {
    ((byte_count + 2) / 3 * 4) as nat
}

/// The number of wire bytes that a message of `byte_count` bytes is sent as.
pub open spec fn wire_len(byte_count: nat) -> nat {
    2 * codeword_count(8 * byte_count, 11)
}

/// `base64::encode` with the standard configuration. The result is a function
/// of the bytes alone. The call panics where the length of the text does not
/// fit a buffer, which `requires` leaves out.
#[verifier::external_body]
fn to_base64(bytes: &[u8]) -> (text: String)
    requires
        armored_len(bytes@.len()) <= isize::MAX,
    ensures
        text@ == base64_text(bytes@),
{
    base64::encode(bytes)
}

/// `base64::decode` with the standard configuration. Success, the bytes, and
/// the error with its offset and byte are functions of the text alone. The
/// call panics where its length estimates overflow, which `requires` leaves
/// out.
#[verifier::external_body]
fn from_base64(text: &[u8]) -> (outcome: Result<Vec<u8>, ArmorError>)
    requires
        text@.len() <= isize::MAX,
    ensures
        match outcome {
            Ok(bytes) => base64_bytes(text@) == Ok::<Seq<u8>, ArmorError>(bytes@),
            Err(fault) => base64_bytes(text@) == Err::<Seq<u8>, ArmorError>(fault),
        },
{
    match base64::decode(text) {
        Ok(bytes) => Ok(bytes),
        Err(base64::DecodeError::InvalidByte(offset, byte)) => Err(
            ArmorError::InvalidByte { offset, byte },
        ),
        Err(base64::DecodeError::InvalidLength) => Err(ArmorError::InvalidLength),
        Err(base64::DecodeError::InvalidLastSymbol(offset, byte)) => Err(
            ArmorError::InvalidLastSymbol { offset, byte },
        ),
    }
}

/// Whether the base64 text of the wire bytes of a message of `byte_count`
/// bytes fits a buffer, so that `encode_base64` may be called on it.
pub fn fits_base64(byte_count: usize) -> (fits: bool)
    ensures
        fits == (armored_len(wire_len(byte_count as nat)) <= isize::MAX),
{
    let bits: u128 = 8 * (byte_count as u128);
    let wire: u128 = 2 * ((bits + 10) / 11);
    (wire + 2) / 3 * 4 <= isize::MAX as u128
}

/// Encodes a message and writes the wire bytes as base64 text.
pub fn encode_base64(bytes: &[u8]) -> (text: String)
    requires
        armored_len(wire_len(bytes@.len())) <= isize::MAX,
    ensures
        text@ == base64_text(encoded(bytes@)),
{
    let wire = encode(bytes);
    to_base64(wire.as_slice())
}

/// Reads base64 text as wire bytes and decodes them. Fails exactly where the
/// text is not base64, with the reason.
pub fn decode_base64(text: &[u8]) -> (outcome: Result<String, ArmorError>)
    requires
        text@.len() <= isize::MAX,
    ensures
        match base64_bytes(text@) {
            Ok(wire) => outcome matches Ok(message) && message@ == decoded(wire),
            Err(fault) => outcome == Err::<String, ArmorError>(fault),
        },
{
    match from_base64(text) {
        Ok(wire) => Ok(decode(wire.as_slice())),
        Err(fault) => Err(fault),
    }
}

} // verus!
