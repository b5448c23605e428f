//! One 16-bit codeword.

use crate::label::{
    bit_at, flipped, is_parity_label, is_redundancy_position, mask_of, redundancy_clear,
};
use crate::syndrome::{
    embed, embed_bit, lemma_prepared_payload, lemma_prepared_syndrome, lemma_repaired_settles,
    lemma_syndrome_bound, lemma_xor_u8, one_bit_apart, prepared, repaired, syndrome,
    syndrome_below,
};
use vstd::prelude::*;

verus! {

/// The label that a drawn byte picks for inversion: one of 1 to 15, never 0.
pub open spec fn noise_label(draw: u8) -> u8 {
    (15 - draw % 15) as u8
}

/// The escape sequence that starts the highlight of a redundancy position.
pub const HIGHLIGHT_ON: &'static str = "\x1b[1;96;127m";

/// The escape sequence that ends the highlight.
pub const HIGHLIGHT_OFF: &'static str = "\x1b[0m";

/// One bit of the grid: a line break before each fourth label, the digit and a
/// space, highlighted at a redundancy position.
pub open spec fn cell_text(value: u16, label: u8) -> Seq<char> {
    let lead = if label % 4 == 0 {
        seq!['\n']
    } else {
        Seq::<char>::empty()
    };
    let digit = if bit_at(value, label) {
        '1'
    } else {
        '0'
    };
    if is_parity_label(label) {
        lead + HIGHLIGHT_ON@ + seq![digit, ' '] + HIGHLIGHT_OFF@
    } else {
        lead + seq![digit, ' ']
    }
}

/// The cells of the labels below `limit`, in order.
pub open spec fn grid_below(value: u16, limit: nat) -> Seq<char>
    decreases limit,
{
    if limit == 0 {
        Seq::empty()
    } else {
        grid_below(value, (limit - 1) as nat) + cell_text(value, (limit - 1) as u8)
    }
}

/// A word as a grid of four rows of four bits, closed by a line break.
pub open spec fn grid_text(value: u16) -> Seq<char> {
    grid_below(value, 16).push('\n')
}

/// The syndrome bits below `count`, each at its redundancy position.
spec fn embed_below(syn: u8, count: nat) -> u16
    decreases count,
{
    if count == 0 {
        0
    } else {
        embed_below(syn, (count - 1) as nat) | embed_bit(syn, (count - 1) as u8)
    }
}

proof fn lemma_embed_below_all(syn: u8)
    ensures
        embed_below(syn, 4) == embed(syn),
{
    reveal_with_fuel(embed_below, 5);
    let a: u16 = embed_bit(syn, 0);
    let b: u16 = embed_bit(syn, 1);
    let c: u16 = embed_bit(syn, 2);
    let d: u16 = embed_bit(syn, 3);
    assert((((0u16 | a) | b) | c) | d == a | b | c | d) by (bit_vector);
}

/// A 16-bit codeword.
#[derive(Clone, Copy, Debug, PartialEq, Eq, Structural)]
pub struct Block {
    pub data: u16,
}

impl Block {
    /// The syndrome of the codeword.
    pub fn parity(&self) -> (syn: u8)
        ensures
            syn == syndrome(self.data),
            syn < 16,
    {
        let mut acc: u8 = 0;
        let mut label: u8 = 0;
        while label < 16
            invariant
                label <= 16,
                acc == syndrome_below(self.data, label as nat),
            decreases 16 - label,
        {
            if self.data & mask_of(label) != 0 {
                acc = acc ^ label;
            } else {
                proof {
                    lemma_xor_u8(acc, 0, 0);
                }
            }
            label = label + 1;
        }
        proof {
            lemma_syndrome_bound(self.data);
        }
        acc
    }

    /// Writes the four low bits of `parity` into the redundancy positions 1,
    /// 2, 4 and 8, on top of what they hold.
    pub fn assign_parity(&mut self, parity: &u8)
        ensures
            final(self).data == old(self).data | embed(*parity),
    {
        let syn: u8 = *parity;
        let mut bit: u8 = 0;
        assert(self.data | 0 == self.data) by (bit_vector);
        while bit < 4
            invariant
                bit <= 4,
                self.data == old(self).data | embed_below(syn, bit as nat),
            decreases 4 - bit,
        {
            let ghost start: u16 = old(self).data;
            let ghost done: u16 = embed_below(syn, bit as nat);
            let ghost next: u16 = embed_bit(syn, bit);
            assert((start | done) | next == start | (done | next)) by (bit_vector);
            assert(done | 0 == done) by (bit_vector);
            if (syn >> bit) & 1 != 0 {
                assert(1u8 << bit < 16) by (bit_vector)
                    requires
                        bit < 4,
                ;
                self.data = self.data | mask_of(1u8 << bit);
            }
            bit = bit + 1;
        }
        proof {
            lemma_embed_below_all(syn);
        }
    }

    /// Computes the syndrome and embeds it in the redundancy positions.
    pub fn prepare(&mut self)
        ensures
            final(self).data == prepared(old(self).data),
            syndrome(final(self).data) == 0 <==> embed(syndrome(old(self).data)) & old(self).data
                == 0,
            redundancy_clear(old(self).data) ==> syndrome(final(self).data) == 0,
    {
        let syn: u8 = self.parity();
        proof {
            lemma_prepared_syndrome(self.data);
            if redundancy_clear(self.data) {
                lemma_prepared_payload(self.data);
            }
        }
        self.assign_parity(&syn);
    }

    /// Inverts the bit that the syndrome names, if the syndrome is not zero.
    pub fn repair(&mut self)
        ensures
            final(self).data == repaired(old(self).data),
            syndrome(final(self).data) == 0,
    {
        let syn: u8 = self.parity();
        proof {
            lemma_repaired_settles(self.data);
        }
        if syn > 0 {
            self.data = self.data ^ mask_of(syn);
        }
    }

    /// Inverts the bit that `draw` picks: that of label `15 - draw % 15`.
    pub fn flip_drawn_bit(&mut self, draw: u8)
        ensures
            final(self).data == flipped(old(self).data, noise_label(draw)),
            one_bit_apart(old(self).data, final(self).data),
    {
        let shift: u8 = draw % 15;
        assert(1u16 << shift == 0x8000u16 >> ((15 - shift) as u8)) by (bit_vector)
            requires
                shift < 15,
        ;
        self.data = self.data ^ (1u16 << shift);
    }

    /// Inverts one bit, drawn at random among the labels 1 to 15.
    pub fn flip_random_bit(&mut self)
        ensures
            one_bit_apart(old(self).data, final(self).data),
    {
        let draw: u8 = rand::random::<u8>();
        self.flip_drawn_bit(draw);
    }

    /// The sixteen bits as text, in four rows of four, the redundancy
    /// positions highlighted.
    pub fn render(&self) -> (text: String)
        ensures
            text@ == grid_text(self.data),
    {
        let mut text = String::new();
        let mut label: u8 = 0;
        while label < 16
            invariant
                label <= 16,
                text@ == grid_below(self.data, label as nat),
            decreases 16 - label,
        {
            let ghost before: Seq<char> = text@;
            if label % 4 == 0 {
                text.push('\n');
            }
            let digit: char = if self.data & mask_of(label) != 0 {
                '1'
            } else {
                '0'
            };
            if is_redundancy_position(label) {
                text.append(HIGHLIGHT_ON);
                text.push(digit);
                text.push(' ');
                text.append(HIGHLIGHT_OFF);
            } else {
                text.push(digit);
                text.push(' ');
            }
            assert(text@ =~= before + cell_text(self.data, label));
            label = label + 1;
        }
        text.push('\n');
        text
    }

    /// A codeword made of `data` with its redundancy bits computed and set.
    pub fn fresh(data: u16) -> (block: Self)
        ensures
            block.data == prepared(data),
            redundancy_clear(data) ==> syndrome(block.data) == 0,
    {
        let mut block = Block { data };
        block.prepare();
        block
    }
}

impl From<u16> for Block {
    /// Takes the sixteen bits as they are.
    fn from(data: u16) -> (block: Self) {
        Block { data }
    }
}

impl vstd::std_specs::convert::FromSpecImpl<u16> for Block {
    open spec fn obeys_from_spec() -> bool {
        true
    }

    open spec fn from_spec(data: u16) -> Self {
        Block { data }
    }
}

} // verus!
