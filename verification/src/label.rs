//! The sixteen bit positions of a codeword.
//!
//! Positions carry labels 0 (most significant bit) to 15 (least significant).
//! Labels 0, 1, 2, 4 and 8 are redundancy positions; the other eleven carry
//! payload.

use vstd::prelude::*;

verus! {

/// The word with only the bit of `label` set; zero for a label beyond 15.
pub open spec fn label_mask(label: u8) -> u16 {
    0x8000u16 >> label
}

/// Whether the bit of `label` is set in `value`.
pub open spec fn bit_at(value: u16, label: u8) -> bool {
    value & label_mask(label) != 0
}

/// `value` with the bit of `label` inverted.
pub open spec fn flipped(value: u16, label: u8) -> u16 {
    value ^ label_mask(label)
}

/// Whether `label` names a redundancy position: zero or a power of two.
pub open spec fn is_parity_label(label: u8) -> bool {
    label == 0 || label == 1 || label == 2 || label == 4 || label == 8 || label == 16
        || label == 32 || label == 64 || label == 128
}

/// Whether every redundancy position of `value` holds zero.
pub open spec fn redundancy_clear(value: u16) -> bool {
    forall|label: u8| label < 16 && is_parity_label(label) ==> !#[trigger] bit_at(value, label)
}

/// How many redundancy positions have a label below `label`.
pub open spec fn redundancy_below(label: int) -> int {
    (if label > 0 {
        1int
    } else {
        0int
    }) + (if label > 1 {
        1int
    } else {
        0int
    }) + (if label > 2 {
        1int
    } else {
        0int
    }) + (if label > 4 {
        1int
    } else {
        0int
    }) + (if label > 8 {
        1int
    } else {
        0int
    })
}

/// How many payload positions have a label below `label`.
pub open spec fn payload_rank(label: int) -> int {
    label - redundancy_below(label)
}

/// The label of the payload position that `rank` payload positions precede.
pub open spec fn payload_label(rank: int) -> u8 {
    if rank < 1 {
        (rank + 3) as u8
    } else if rank < 4 {
        (rank + 4) as u8
    } else {
        (rank + 5) as u8
    }
}

/// The sixteen bits of a word, by label.
pub open spec fn labels_of(value: u16) -> Seq<bool> {
    Seq::new(16, |label: int| bit_at(value, label as u8))
}

/// The word that has, of the labels below `limit`, exactly those set that `labels` marks.
pub open spec fn word_below(labels: Seq<bool>, limit: nat) -> u16
    decreases limit,
{
    if limit == 0 {
        0
    } else {
        word_below(labels, (limit - 1) as nat) | (if labels[limit - 1] {
            label_mask((limit - 1) as u8)
        } else {
            0
        })
    }
}

/// The word whose bit of each label is what `labels` holds at that index.
pub open spec fn word_of(labels: Seq<bool>) -> u16 {
    word_below(labels, 16)
}

/// The mask of one label, computed.
pub fn mask_of(label: u8) -> (mask: u16)
    requires
        label < 16,
    ensures
        mask == label_mask(label),
{
    0x8000u16 >> label
}

/// Whether `label` names a redundancy position: zero or a power of two.
pub fn is_redundancy_position(label: u8) -> (reserved: bool)
    ensures
        reserved == is_parity_label(label),
{
    assert((label == 0 || label & ((label - 1) as u8) == 0) == is_parity_label(label))
        by (bit_vector);
    label == 0 || label & (label - 1) == 0
}

/// OR with nothing changes nothing.
pub proof fn lemma_or_nothing(value: u16)
    by (bit_vector)
    ensures
        value | 0 == value,
{
}

/// Setting the bit of one label sets that bit and leaves every other as it is.
pub proof fn lemma_set_one_bit(value: u16, set: u8, other: u8)
    by (bit_vector)
    requires
        set < 16,
        other < 16,
    ensures
        bit_at(value | label_mask(set), other) == (bit_at(value, other) || other == set),
        !bit_at(0, other),
{
}

/// Inverting the bit of one label inverts that bit and leaves every other as it is.
pub proof fn lemma_flip_changes_one_bit(value: u16, label: u8, other: u8)
    by (bit_vector)
    requires
        label < 16,
        other < 16,
    ensures
        bit_at(flipped(value, label), other) == (bit_at(value, other) != (other == label)),
        flipped(flipped(value, label), label) == value,
{
}

proof fn lemma_word_below_bit(labels: Seq<bool>, limit: nat, label: u8)
    requires
        limit <= 16,
        label < 16,
    ensures
        bit_at(word_below(labels, limit), label) == (label < limit && labels[label as int]),
    decreases limit,
{
    if limit == 0 {
        lemma_set_one_bit(0, 0, label);
    } else {
        let rest: u16 = word_below(labels, (limit - 1) as nat);
        lemma_word_below_bit(labels, (limit - 1) as nat, label);
        lemma_set_one_bit(rest, (limit - 1) as u8, label);
        lemma_or_nothing(rest);
    }
}

/// A word assembled from sixteen label bits has each bit as given.
pub proof fn lemma_word_of_bit(labels: Seq<bool>, label: u8)
    requires
        label < 16,
    ensures
        bit_at(word_of(labels), label) == labels[label as int],
{
    lemma_word_below_bit(labels, 16, label);
}

/// The bits of the labels below `count`, and no others.
spec fn top_bits(value: u16, count: u8) -> u16 {
    value & !(0xffffu16 >> count)
}

proof fn lemma_top_bits_step(value: u16, count: u8, next: u8)
    by (bit_vector)
    requires
        count < 16,
        next == count + 1,
    ensures
        top_bits(value, count) | (if bit_at(value, count) {
            label_mask(count)
        } else {
            0u16
        }) == top_bits(value, next),
        top_bits(value, 0) == 0,
        top_bits(value, 16) == value,
{
}

proof fn lemma_word_below_labels(value: u16, limit: nat)
    requires
        limit <= 16,
    ensures
        word_below(labels_of(value), limit) == top_bits(value, limit as u8),
    decreases limit,
{
    if limit == 0 {
        lemma_top_bits_step(value, 0, 1);
    } else {
        lemma_word_below_labels(value, (limit - 1) as nat);
        lemma_top_bits_step(value, (limit - 1) as u8, limit as u8);
    }
}

/// A word is the one assembled from its own sixteen bits.
pub proof fn lemma_word_of_labels(value: u16)
    ensures
        word_of(labels_of(value)) == value,
{
    lemma_word_below_labels(value, 16);
    lemma_top_bits_step(value, 0, 1);
}

} // verus!
