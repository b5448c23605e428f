//! The syndrome of a codeword, and what preparing and repairing do to it.
//!
//! The syndrome is the XOR of the labels of the set bits. The redundancy bits
//! at the labels 1, 2, 4 and 8 are chosen to make it zero; after one bit has
//! flipped, the syndrome is that bit's label.

use crate::label::{bit_at, flipped, label_mask, lemma_flip_changes_one_bit, redundancy_clear};
use vstd::prelude::*;

verus! {

/// What the bit of `label` adds to the syndrome: its label if set, else nothing.
pub open spec fn label_term(value: u16, label: u8) -> u8 {
    if bit_at(value, label) {
        label
    } else {
        0
    }
}

/// XOR of the labels below `limit` whose bits are set in `value`.
pub open spec fn syndrome_below(value: u16, limit: nat) -> u8
    decreases limit,
{
    if limit == 0 {
        0
    } else {
        syndrome_below(value, (limit - 1) as nat) ^ label_term(value, (limit - 1) as u8)
    }
}

/// The syndrome of a word: XOR of the labels of all its set bits.
pub open spec fn syndrome(value: u16) -> u8 {
    syndrome_below(value, 16)
}

/// Bit `bit` of a syndrome, moved to the redundancy position labelled `2^bit`.
pub open spec fn embed_bit(syn: u8, bit: u8) -> u16 {
    if (syn >> bit) & 1 != 0 {
        label_mask(1u8 << bit)
    } else {
        0
    }
}

/// The four low bits of a syndrome at the redundancy positions 1, 2, 4 and 8.
pub open spec fn embed(syn: u8) -> u16 {
    embed_bit(syn, 0) | embed_bit(syn, 1) | embed_bit(syn, 2) | embed_bit(syn, 3)
}

/// `value` with its own syndrome OR-ed into the redundancy positions.
pub open spec fn prepared(value: u16) -> u16 {
    value | embed(syndrome(value))
}

/// `value` with the bit that its syndrome names inverted, if the syndrome is not zero.
pub open spec fn repaired(value: u16) -> u16 {
    if syndrome(value) == 0 {
        value
    } else {
        flipped(value, syndrome(value))
    }
}

/// Whether `after` is `before` with one bit inverted, of a label from 1 to 15.
pub open spec fn one_bit_apart(before: u16, after: u16) -> bool {
    exists|label: u8| 1 <= label <= 15 && after == #[trigger] flipped(before, label)
}

/// XOR on syndromes: terms may trade places, a term taken twice is gone, and
/// nothing below 16 leads to 16 or beyond.
pub proof fn lemma_xor_u8(a: u8, b: u8, c: u8)
    by (bit_vector)
    ensures
        (a ^ b) ^ c == (a ^ c) ^ b,
        (a ^ b) ^ b == a,
        a ^ 0 == a,
        0 ^ a == a,
        a ^ a == 0,
        (a < 16 && b < 16) ==> (a ^ b) < 16,
{
}

proof fn lemma_syndrome_below_bound(value: u16, limit: nat)
    requires
        limit <= 16,
    ensures
        syndrome_below(value, limit) < 16,
    decreases limit,
{
    if limit > 0 {
        lemma_syndrome_below_bound(value, (limit - 1) as nat);
        lemma_xor_u8(
            syndrome_below(value, (limit - 1) as nat),
            label_term(value, (limit - 1) as u8),
            0,
        );
    }
}

/// No syndrome reaches 16: it always names a label, or is zero.
pub proof fn lemma_syndrome_bound(value: u16)
    ensures
        syndrome(value) < 16,
{
    lemma_syndrome_below_bound(value, 16);
}

/// Below any limit, one inverted bit changes the XOR of labels by its own
/// label if that lies below the limit, and not at all if not.
proof fn lemma_flip_below(value: u16, label: u8, limit: nat)
    requires
        label < 16,
        limit <= 16,
    ensures
        syndrome_below(flipped(value, label), limit) == syndrome_below(value, limit) ^ (if label
            < limit {
            label
        } else {
            0
        }),
    decreases limit,
{
    if limit == 0 {
        lemma_xor_u8(0, 0, 0);
    } else {
        let other: u8 = (limit - 1) as u8;
        let rest: u8 = syndrome_below(value, (limit - 1) as nat);
        lemma_flip_below(value, label, (limit - 1) as nat);
        lemma_flip_changes_one_bit(value, label, other);
        if other == label {
            // the term of `label` turns from nothing into `label`, or back
            lemma_xor_u8(rest, label, 0);
        } else {
            // the term of `other` stays, and trades places with what the flip adds
            let moved: u8 = if label < other {
                label
            } else {
                0
            };
            lemma_xor_u8(rest, moved, label_term(value, other));
        }
    }
}

/// Inverting the bit of one label changes the syndrome by exactly that label.
pub proof fn lemma_flip_moves_syndrome(value: u16, label: u8)
    requires
        label < 16,
    ensures
        syndrome(flipped(value, label)) == syndrome(value) ^ label,
{
    lemma_flip_below(value, label, 16);
}

/// With syndrome zero before, the syndrome after one flipped bit is that bit's label.
pub proof fn lemma_syndrome_names_flip(value: u16, label: u8)
    requires
        syndrome(value) == 0,
        label < 16,
    ensures
        syndrome(flipped(value, label)) == label,
{
    lemma_flip_moves_syndrome(value, label);
    lemma_xor_u8(label, 0, 0);
}

/// What `prepared` newly sets for one syndrome bit: nothing where the
/// redundancy position is already taken.
spec fn fresh_bit(value: u16, syn: u8, bit: u8) -> u16 {
    embed_bit(syn, bit) & !value
}

proof fn lemma_prepared_as_flips(value: u16, syn: u8)
    by (bit_vector)
    ensures
        value | embed(syn) == (((value ^ fresh_bit(value, syn, 0)) ^ fresh_bit(value, syn, 1))
            ^ fresh_bit(value, syn, 2)) ^ fresh_bit(value, syn, 3),
        fresh_bit(value, syn, 0) == 0 || fresh_bit(value, syn, 0) == label_mask(1),
        fresh_bit(value, syn, 1) == 0 || fresh_bit(value, syn, 1) == label_mask(2),
        fresh_bit(value, syn, 2) == 0 || fresh_bit(value, syn, 2) == label_mask(4),
        fresh_bit(value, syn, 3) == 0 || fresh_bit(value, syn, 3) == label_mask(8),
{
}

proof fn lemma_prepared_residue(value: u16, syn: u8)
    by (bit_vector)
    requires
        syn < 16,
    ensures
        ((((syn ^ (if fresh_bit(value, syn, 0) == 0 {
            0u8
        } else {
            1u8
        })) ^ (if fresh_bit(value, syn, 1) == 0 {
            0u8
        } else {
            2u8
        })) ^ (if fresh_bit(value, syn, 2) == 0 {
            0u8
        } else {
            4u8
        })) ^ (if fresh_bit(value, syn, 3) == 0 {
            0u8
        } else {
            8u8
        }) == 0) <==> (embed(syn) & value == 0),
{
}

proof fn lemma_optional_flip(value: u16, mask: u16, label: u8)
    requires
        label < 16,
        mask == 0 || mask == label_mask(label),
    ensures
        syndrome(value ^ mask) == syndrome(value) ^ (if mask == 0 {
            0u8
        } else {
            label
        }),
{
    if mask == 0 {
        assert(value ^ 0 == value) by (bit_vector);
        lemma_xor_u8(syndrome(value), 0, 0);
    } else {
        lemma_flip_moves_syndrome(value, label);
    }
}

/// Preparing a word leaves syndrome zero exactly when the redundancy positions
/// that its syndrome calls for are still free.
pub proof fn lemma_prepared_syndrome(value: u16)
    ensures
        syndrome(prepared(value)) == 0 <==> embed(syndrome(value)) & value == 0,
{
    let syn: u8 = syndrome(value);
    lemma_syndrome_bound(value);
    lemma_prepared_as_flips(value, syn);
    lemma_prepared_residue(value, syn);
    let f0: u16 = fresh_bit(value, syn, 0);
    let f1: u16 = fresh_bit(value, syn, 1);
    let f2: u16 = fresh_bit(value, syn, 2);
    let f3: u16 = fresh_bit(value, syn, 3);
    lemma_optional_flip(value, f0, 1);
    lemma_optional_flip(value ^ f0, f1, 2);
    lemma_optional_flip((value ^ f0) ^ f1, f2, 4);
    lemma_optional_flip(((value ^ f0) ^ f1) ^ f2, f3, 8);
}

/// A word whose redundancy positions are all zero has syndrome zero once prepared.
pub proof fn lemma_prepared_payload(value: u16)
    requires
        redundancy_clear(value),
    ensures
        syndrome(prepared(value)) == 0,
{
    let syn: u8 = syndrome(value);
    lemma_prepared_syndrome(value);
    assert(!bit_at(value, 1) && !bit_at(value, 2) && !bit_at(value, 4) && !bit_at(value, 8));
    assert(embed(syn) & value == 0) by (bit_vector)
        requires
            !bit_at(value, 1),
            !bit_at(value, 2),
            !bit_at(value, 4),
            !bit_at(value, 8),
    ;
}

proof fn lemma_embed_spares_payload(value: u16, syn: u8, label: u8)
    by (bit_vector)
    requires
        label < 16,
        label != 1 && label != 2 && label != 4 && label != 8,
    ensures
        bit_at(value | embed(syn), label) == bit_at(value, label),
{
}

/// Preparing a word changes no bit but those of the labels 1, 2, 4 and 8.
pub proof fn lemma_prepared_keeps_payload(value: u16, label: u8)
    requires
        label < 16,
        label != 1 && label != 2 && label != 4 && label != 8,
    ensures
        bit_at(prepared(value), label) == bit_at(value, label),
{
    lemma_embed_spares_payload(value, syndrome(value), label);
}

/// One flipped bit, other than that of label 0, is undone by `repaired`.
pub proof fn lemma_repaired_undoes_flip(value: u16, label: u8)
    requires
        syndrome(value) == 0,
        1 <= label <= 15,
    ensures
        repaired(flipped(value, label)) == value,
{
    lemma_syndrome_names_flip(value, label);
    lemma_flip_changes_one_bit(value, label, label);
}

/// What `repaired` returns has syndrome zero, so repairing it again changes nothing.
pub proof fn lemma_repaired_settles(value: u16)
    ensures
        syndrome(repaired(value)) == 0,
        repaired(repaired(value)) == repaired(value),
{
    let syn: u8 = syndrome(value);
    if syn != 0 {
        lemma_syndrome_bound(value);
        lemma_flip_moves_syndrome(value, syn);
        lemma_xor_u8(syn, 0, 0);
    }
}

} // verus!
