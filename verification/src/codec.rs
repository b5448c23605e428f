//! The two entry points of the codec: bytes to wire bytes, and wire bytes to text.

use crate::bitvec::bits_of;
use crate::blocks::{
    codeword_count, lemma_fresh_payload, lemma_repair_restores, lemma_wire_round_trip,
    lightly_disturbed, packed, payload_text, repaired_all, wire_bytes, zero_filled, Blocks,
};
use crate::bytes::{
    byte_bits, group_bits, lemma_byte_of_own_bits, lemma_byte_of_zeros, whole_bytes,
};
use crate::text::{chars_of, lemma_text_ignores_zero_tail, lemma_text_without_zeros, text_of};
use vstd::prelude::*;

verus! {

/// The wire bytes of a message: its codewords, freshly packed, two bytes each.
pub open spec fn encoded(bytes: Seq<u8>) -> Seq<u8> {
    wire_bytes(packed(bytes, false))
}

/// The text that wire bytes carry: their codewords, each repaired, read at the
/// payload positions.
pub open spec fn decoded(bytes: Seq<u8>) -> Seq<char> {
    payload_text(repaired_all(packed(bytes, true)))
}

/// Bits regrouped into bytes, after zeros were added at their end, are the
/// bytes they came from, followed by zero bytes.
proof fn lemma_whole_bytes_of_filled(bytes: Seq<u8>, len: nat)
    requires
        8 * bytes.len() <= len,
    ensures
        whole_bytes(zero_filled(bits_of(bytes), len)).len() == len / 8,
        whole_bytes(zero_filled(bits_of(bytes), len)).take(bytes.len() as int) == bytes,
        forall|k: int|
            bytes.len() <= k < len / 8 ==> whole_bytes(zero_filled(bits_of(bytes), len))[k] == 0,
{
    let filled = zero_filled(bits_of(bytes), len);
    let regrouped = whole_bytes(filled);
    assert forall|k: int| 0 <= k < bytes.len() implies regrouped[k] == bytes[k] by {
        let own = byte_bits(bytes[k]);
        assert forall|offset: int| 0 <= offset < 8 implies group_bits(filled, k)[offset]
            == own[offset] by {
            assert((8 * k + offset) / 8 == k);
            assert((8 * k + offset) % 8 == offset);
        }
        assert(group_bits(filled, k) =~= own);
        lemma_byte_of_own_bits(bytes[k]);
    }
    assert(regrouped.take(bytes.len() as int) =~= bytes);
    assert forall|k: int| bytes.len() <= k < len / 8 implies regrouped[k] == 0 by {
        lemma_byte_of_zeros(group_bits(filled, k));
    }
}

/// Freshly packed codewords carry the text of the message: every byte of it
/// but the zero bytes, which the text leaves out.
pub proof fn lemma_fresh_text(bytes: Seq<u8>)
    ensures
        payload_text(packed(bytes, false)) == text_of(bytes),
{
    let len: nat = 11 * codeword_count(8 * bytes.len(), 11);
    lemma_fresh_payload(bytes);
    lemma_whole_bytes_of_filled(bytes, len);
    lemma_text_ignores_zero_tail(whole_bytes(zero_filled(bits_of(bytes), len)), bytes.len());
}

/// Decoding what was encoded gives the text of the message.
pub proof fn lemma_decode_encode(bytes: Seq<u8>)
    ensures
        decoded(encoded(bytes)) == text_of(bytes),
{
    lemma_wire_round_trip(packed(bytes, false));
    lemma_fresh_payload(bytes);
    lemma_fresh_text(bytes);
}

/// Decoding gives the text of the message also where the wire bytes arrive
/// with at most one bit inverted in each codeword, other than that of label 0.
pub proof fn lemma_decode_corrects(bytes: Seq<u8>, received: Seq<u8>)
    requires
        lightly_disturbed(packed(bytes, false), packed(received, true)),
    ensures
        decoded(received) == text_of(bytes),
{
    lemma_fresh_payload(bytes);
    lemma_repair_restores(packed(bytes, false), packed(received, true));
    lemma_fresh_text(bytes);
}

/// Round trip: a message without a zero byte comes back from `decode` after
/// `encode` as it was, each byte as the character of its code point.
pub proof fn lemma_round_trip(bytes: Seq<u8>)
    requires
        forall|i: int| 0 <= i < bytes.len() ==> bytes[i] != 0,
    ensures
        decoded(encoded(bytes)) == chars_of(bytes),
{
    lemma_decode_encode(bytes);
    lemma_text_without_zeros(bytes);
}

/// Encodes a message as wire bytes.
pub fn encode(bytes: &[u8]) -> (wire: Vec<u8>)
    ensures
        wire@ == encoded(bytes@),
{
    let blocks = Blocks::new(bytes, false);
    blocks.to_byte_vec()
}

/// Decodes wire bytes to the text they carry, correcting one flipped bit in
/// each codeword.
pub fn decode(bytes: &[u8]) -> (text: String)
    ensures
        text@ == decoded(bytes@),
{
    let mut blocks = Blocks::new(bytes, true);
    blocks.repair();
    blocks.to_string()
}

} // verus!
