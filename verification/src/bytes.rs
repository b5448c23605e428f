//! Bits regrouped into bytes, eight to a byte, most significant bit first.

use crate::bitvec::{byte_bit, offset_mask};
use vstd::prelude::*;

verus! {

/// Bit `index` of a bit sequence, and zero beyond its end.
pub open spec fn stream_bit(bits: Seq<bool>, index: int) -> bool {
    0 <= index < bits.len() && bits[index]
}

/// The eight bits of a byte, most significant first.
pub open spec fn byte_bits(byte: u8) -> Seq<bool> {
    Seq::new(8, |offset: int| byte_bit(byte, offset as u8))
}

/// The byte that has, of the offsets below `limit`, exactly those set that `bits` marks.
pub open spec fn byte_below(bits: Seq<bool>, limit: nat) -> u8
    decreases limit,
{
    if limit == 0 {
        0
    } else {
        byte_below(bits, (limit - 1) as nat) | (if bits[limit - 1] {
            offset_mask((limit - 1) as u8)
        } else {
            0
        })
    }
}

/// The byte made of eight bits, most significant first.
pub open spec fn byte_of(bits: Seq<bool>) -> u8 {
    byte_below(bits, 8)
}

/// The eight bits that group `index` of a bit sequence holds, zero where the
/// sequence has ended.
pub open spec fn group_bits(bits: Seq<bool>, index: int) -> Seq<bool> {
    Seq::new(8, |offset: int| stream_bit(bits, 8 * index + offset))
}

/// A bit sequence regrouped into bytes; a last group of fewer than eight bits
/// is filled with zeros.
pub open spec fn padded_bytes(bits: Seq<bool>) -> Seq<u8> {
    Seq::new(((bits.len() + 7) / 8) as nat, |index: int| byte_of(group_bits(bits, index)))
}

/// A bit sequence regrouped into bytes; a last group of fewer than eight bits
/// is left out.
pub open spec fn whole_bytes(bits: Seq<bool>) -> Seq<u8> {
    Seq::new((bits.len() / 8) as nat, |index: int| byte_of(group_bits(bits, index)))
}

proof fn lemma_or_no_bits(byte: u8)
    by (bit_vector)
    ensures
        byte | 0 == byte,
{
}

proof fn lemma_set_one_offset(byte: u8, set: u8, other: u8)
    by (bit_vector)
    requires
        set < 8,
        other < 8,
    ensures
        byte_bit(byte | offset_mask(set), other) == (byte_bit(byte, other) || other == set),
        !byte_bit(0, other),
{
}

proof fn lemma_byte_below_bit(bits: Seq<bool>, limit: nat, offset: u8)
    requires
        limit <= 8,
        offset < 8,
    ensures
        byte_bit(byte_below(bits, limit), offset) == (offset < limit && bits[offset as int]),
    decreases limit,
{
    if limit == 0 {
        lemma_set_one_offset(0, 0, offset);
    } else {
        let rest: u8 = byte_below(bits, (limit - 1) as nat);
        lemma_byte_below_bit(bits, (limit - 1) as nat, offset);
        lemma_set_one_offset(rest, (limit - 1) as u8, offset);
        lemma_or_no_bits(rest);
    }
}

/// A byte assembled from eight bits has each bit as given.
pub proof fn lemma_byte_of_bit(bits: Seq<bool>, offset: u8)
    requires
        offset < 8,
    ensures
        byte_bit(byte_of(bits), offset) == bits[offset as int],
{
    lemma_byte_below_bit(bits, 8, offset);
}

/// The bits at the offsets below `count`, and no others.
spec fn top_offsets(byte: u8, count: u8) -> u8 {
    byte & !(0xffu8 >> count)
}

proof fn lemma_top_offsets_step(byte: u8, count: u8, next: u8)
    by (bit_vector)
    requires
        count < 8,
        next == count + 1,
    ensures
        top_offsets(byte, count) | (if byte_bit(byte, count) {
            offset_mask(count)
        } else {
            0u8
        }) == top_offsets(byte, next),
        top_offsets(byte, 0) == 0,
        top_offsets(byte, 8) == byte,
{
}

proof fn lemma_byte_below_own_bits(byte: u8, limit: nat)
    requires
        limit <= 8,
    ensures
        byte_below(byte_bits(byte), limit) == top_offsets(byte, limit as u8),
    decreases limit,
{
    if limit == 0 {
        lemma_top_offsets_step(byte, 0, 1);
    } else {
        lemma_byte_below_own_bits(byte, (limit - 1) as nat);
        lemma_top_offsets_step(byte, (limit - 1) as u8, limit as u8);
    }
}

/// A byte is the one assembled from its own eight bits.
pub proof fn lemma_byte_of_own_bits(byte: u8)
    ensures
        byte_of(byte_bits(byte)) == byte,
{
    lemma_byte_below_own_bits(byte, 8);
    lemma_top_offsets_step(byte, 0, 1);
}

proof fn lemma_byte_below_zeros(bits: Seq<bool>, limit: nat)
    requires
        limit <= 8,
        forall|offset: int| 0 <= offset < limit ==> !bits[offset],
    ensures
        byte_below(bits, limit) == 0,
    decreases limit,
{
    if limit > 0 {
        lemma_byte_below_zeros(bits, (limit - 1) as nat);
        lemma_or_no_bits(0);
    }
}

/// The byte made of eight zero bits is zero.
pub proof fn lemma_byte_of_zeros(bits: Seq<bool>)
    requires
        forall|offset: int| 0 <= offset < 8 ==> !bits[offset],
    ensures
        byte_of(bits) == 0,
{
    lemma_byte_below_zeros(bits, 8);
}

/// Regroups bits into bytes, most significant bit first. A last group of fewer
/// than eight bits is filled with zeros if `keep_partial`, and left out if not.
pub fn bytes_from_bits(bits: &[bool], keep_partial: bool) -> (bytes: Vec<u8>)
    ensures
        bytes@ == (if keep_partial {
            padded_bytes(bits@)
        } else {
            whole_bytes(bits@)
        }),
{
    let whole: usize = bits.len() / 8;
    let groups: usize = if keep_partial && bits.len() % 8 != 0 {
        whole + 1
    } else {
        whole
    };
    let mut bytes: Vec<u8> = Vec::new();
    let mut index: usize = 0;
    while index < groups
        invariant
            index <= groups,
            bits@.len() <= usize::MAX,
            whole == bits@.len() / 8,
            groups == whole || groups == whole + 1,
            groups == whole + 1 ==> bits@.len() % 8 != 0,
            bytes@.len() == index,
            forall|k: int| 0 <= k < index ==> bytes@[k] == byte_of(#[trigger] group_bits(bits@, k)),
        decreases groups - index,
    {
        let start: usize = 8 * index;
        let left: usize = bits.len() - start;
        let ghost group: Seq<bool> = group_bits(bits@, index as int);
        let mut byte: u8 = 0;
        let mut offset: u8 = 0;
        while offset < 8
            invariant
                offset <= 8,
                start == 8 * index,
                start <= bits@.len(),
                left == bits@.len() - start,
                group == group_bits(bits@, index as int),
                byte == byte_below(group, offset as nat),
            decreases 8 - offset,
        {
            proof {
                lemma_or_no_bits(byte);
            }
            if (offset as usize) < left && bits[start + offset as usize] {
                byte = byte | (0x80u8 >> offset);
            }
            offset = offset + 1;
        }
        bytes.push(byte);
        index = index + 1;
    }
    assert(bytes@ =~= (if keep_partial {
        padded_bytes(bits@)
    } else {
        whole_bytes(bits@)
    }));
    bytes
}

} // verus!
