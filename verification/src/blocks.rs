//! A message as a sequence of codewords.
//!
//! A byte buffer is packed into codewords either eleven bits at a time, at the
//! payload positions, with the redundancy bits computed ("fresh"), or sixteen
//! bits at a time, as the bits stand ("raw"). A sequence is written out either
//! as all of its bits, regrouped into bytes, or as its payload bits alone,
//! regrouped into characters.

use crate::bitvec::{bits_of, BitVec};
use crate::block::{noise_label, Block};
use crate::bytes::{
    bytes_from_bits, group_bits, lemma_byte_of_bit, padded_bytes, stream_bit, whole_bytes,
};
use crate::label::{
    bit_at, flipped, is_parity_label, is_redundancy_position, labels_of, lemma_or_nothing,
    lemma_word_of_bit, lemma_word_of_labels, mask_of, payload_label, payload_rank, word_below,
    word_of,
};
use crate::syndrome::{
    lemma_prepared_keeps_payload, lemma_prepared_payload, lemma_repaired_undoes_flip,
    one_bit_apart, prepared, repaired, syndrome,
};
use crate::text::{text_from_bytes, text_of};
use vstd::prelude::*;
use vstd::std_specs::slice::into_iter_elts;
use vstd::string::StringSliceAdditionalSpecFns;

verus! {

/// How many codewords `bit_count` bits fill at `width` bits each, the last one
/// possibly in part: the quotient, rounded up.
pub open spec fn codeword_count(bit_count: nat, width: nat) -> nat {
    ((bit_count + width - 1) / (width as int)) as nat
}

/// The sixteen label bits of codeword `index` when the stream is taken sixteen
/// bits at a time; bits beyond the end of the stream are zero.
pub open spec fn raw_labels(bits: Seq<bool>, index: int) -> Seq<bool> {
    Seq::new(16, |label: int| stream_bit(bits, 16 * index + label))
}

/// The sixteen label bits of codeword `index` when the stream is taken eleven
/// bits at a time and laid on the payload positions; redundancy positions and
/// bits beyond the end of the stream are zero.
pub open spec fn payload_labels(bits: Seq<bool>, index: int) -> Seq<bool> {
    Seq::new(
        16,
        |label: int|
            !is_parity_label(label as u8) && stream_bit(bits, 11 * index + payload_rank(label)),
    )
}

/// How many codewords a buffer of `byte_count` bytes is packed into.
pub open spec fn packed_len(byte_count: nat, is_raw: bool) -> nat {
    if is_raw {
        codeword_count(8 * byte_count, 16)
    } else {
        codeword_count(8 * byte_count, 11)
    }
}

/// Codeword `index` of a stream of bits.
pub open spec fn packed_word(bits: Seq<bool>, is_raw: bool, index: int) -> Block {
    if is_raw {
        Block { data: word_of(raw_labels(bits, index)) }
    } else {
        Block { data: prepared(word_of(payload_labels(bits, index))) }
    }
}

/// The codewords that a byte buffer is packed into.
pub open spec fn packed(bytes: Seq<u8>, is_raw: bool) -> Seq<Block> {
    Seq::new(
        packed_len(bytes.len(), is_raw),
        |index: int| packed_word(bits_of(bytes), is_raw, index),
    )
}

/// All bits of a sequence of codewords: sixteen per codeword, by label.
pub open spec fn wire_bits(words: Seq<Block>) -> Seq<bool> {
    Seq::new(16 * words.len(), |i: int| bit_at(words[i / 16].data, (i % 16) as u8))
}

/// The payload bits of a sequence of codewords: eleven per codeword, by label,
/// the redundancy positions left out.
pub open spec fn payload_bits(words: Seq<Block>) -> Seq<bool> {
    Seq::new(11 * words.len(), |i: int| bit_at(words[i / 11].data, payload_label(i % 11)))
}

/// The bits that a sequence of codewords is written out as.
pub open spec fn serial_bits(words: Seq<Block>, strip_from_parity: bool) -> Seq<bool> {
    if strip_from_parity {
        payload_bits(words)
    } else {
        wire_bits(words)
    }
}

/// The bytes that a sequence of codewords is sent as.
pub open spec fn wire_bytes(words: Seq<Block>) -> Seq<u8> {
    padded_bytes(wire_bits(words))
}

/// The text that a sequence of codewords carries.
pub open spec fn payload_text(words: Seq<Block>) -> Seq<char> {
    text_of(whole_bytes(payload_bits(words)))
}

/// Every codeword of a sequence repaired by its own syndrome.
pub open spec fn repaired_all(words: Seq<Block>) -> Seq<Block> {
    Seq::new(words.len(), |i: int| Block { data: repaired(words[i].data) })
}

/// Whether every codeword of a sequence has syndrome zero.
pub open spec fn all_sound(words: Seq<Block>) -> bool {
    forall|i: int| 0 <= i < words.len() ==> syndrome(#[trigger] words[i].data) == 0
}

/// Whether `after` is `before` with at most one bit inverted in each codeword,
/// and never that of label 0.
pub open spec fn lightly_disturbed(before: Seq<Block>, after: Seq<Block>) -> bool {
    &&& after.len() == before.len()
    &&& forall|i: int|
        0 <= i < before.len() ==> after[i] == before[i] || one_bit_apart(
            before[i].data,
            #[trigger] after[i].data,
        )
}

/// A bit sequence continued with zeros to `len` bits.
pub open spec fn zero_filled(bits: Seq<bool>, len: nat) -> Seq<bool> {
    Seq::new(len, |i: int| stream_bit(bits, i))
}

/// The bits of wire bytes are the bits of the codewords they were made of.
pub proof fn lemma_wire_bytes_bits(words: Seq<Block>)
    ensures
        wire_bytes(words).len() == 2 * words.len(),
        bits_of(wire_bytes(words)) == wire_bits(words),
{
    let stream = wire_bits(words);
    let bytes = wire_bytes(words);
    assert forall|i: int| 0 <= i < stream.len() implies bits_of(bytes)[i] == stream[i] by {
        lemma_byte_of_bit(group_bits(stream, i / 8), (i % 8) as u8);
    }
    assert(bits_of(bytes) =~= stream);
}

/// Wire bytes read back sixteen bits at a time are the codewords that were written.
pub proof fn lemma_wire_round_trip(words: Seq<Block>)
    ensures
        packed(wire_bytes(words), true) == words,
{
    let stream = wire_bits(words);
    let bytes = wire_bytes(words);
    lemma_wire_bytes_bits(words);
    assert forall|k: int| 0 <= k < words.len() implies packed_word(bits_of(bytes), true, k)
        == words[k] by {
        assert forall|label: int| 0 <= label < 16 implies raw_labels(stream, k)[label]
            == labels_of(words[k].data)[label] by {
            assert((16 * k + label) / 16 == k);
            assert((16 * k + label) % 16 == label);
        }
        assert(raw_labels(stream, k) =~= labels_of(words[k].data));
        lemma_word_of_labels(words[k].data);
    }
    assert(packed(bytes, true) =~= words);
}

/// A codeword packed from payload bits has syndrome zero and holds, at each
/// payload position, the stream bit that was laid there.
pub proof fn lemma_fresh_word(bits: Seq<bool>, index: int)
    ensures
        syndrome(packed_word(bits, false, index).data) == 0,
        forall|rank: int|
            0 <= rank < 11 ==> #[trigger] bit_at(
                packed_word(bits, false, index).data,
                payload_label(rank),
            ) == stream_bit(bits, 11 * index + rank),
{
    let labels = payload_labels(bits, index);
    let bare: u16 = word_of(labels);
    assert forall|label: u8| label < 16 && is_parity_label(label) implies !#[trigger] bit_at(
        bare,
        label,
    ) by {
        lemma_word_of_bit(labels, label);
    }
    lemma_prepared_payload(bare);
    assert forall|rank: int| 0 <= rank < 11 implies #[trigger] bit_at(
        prepared(bare),
        payload_label(rank),
    ) == stream_bit(bits, 11 * index + rank) by {
        let label: u8 = payload_label(rank);
        lemma_prepared_keeps_payload(bare, label);
        lemma_word_of_bit(labels, label);
        assert(payload_rank(label as int) == rank);
    }
}

/// Freshly packed codewords carry the bits of the message, continued with
/// zeros to the end of the last codeword, and repair leaves them as they are.
pub proof fn lemma_fresh_payload(bytes: Seq<u8>)
    ensures
        payload_bits(packed(bytes, false)) == zero_filled(
            bits_of(bytes),
            11 * codeword_count(8 * bytes.len(), 11),
        ),
        all_sound(packed(bytes, false)),
        repaired_all(packed(bytes, false)) == packed(bytes, false),
{
    let words = packed(bytes, false);
    let bits = bits_of(bytes);
    let filled = zero_filled(bits, 11 * codeword_count(8 * bytes.len(), 11));
    assert forall|i: int| 0 <= i < filled.len() implies payload_bits(words)[i] == filled[i] by {
        lemma_fresh_word(bits, i / 11);
        assert(bit_at(packed_word(bits, false, i / 11).data, payload_label(i % 11))
            == stream_bit(bits, 11 * (i / 11) + i % 11));
    }
    assert(payload_bits(words) =~= filled);
    assert forall|k: int| 0 <= k < words.len() implies syndrome(#[trigger] words[k].data)
        == 0 by {
        lemma_fresh_word(bits, k);
    }
    assert(repaired_all(words) =~= words);
}

/// Codewords with syndrome zero come back from repair as they were, after at
/// most one bit was inverted in each, other than that of label 0.
pub proof fn lemma_repair_restores(sent: Seq<Block>, received: Seq<Block>)
    requires
        all_sound(sent),
        lightly_disturbed(sent, received),
    ensures
        repaired_all(received) == sent,
{
    assert forall|i: int| 0 <= i < sent.len() implies repaired_all(received)[i] == sent[i] by {
        assert(syndrome(sent[i].data) == 0);
        if received[i] != sent[i] {
            assert(one_bit_apart(sent[i].data, received[i].data));
            let label: u8 = choose|label: u8|
                1 <= label <= 15 && received[i].data == #[trigger] flipped(sent[i].data, label);
            lemma_repaired_undoes_flip(sent[i].data, label);
        }
    }
    assert(repaired_all(received) =~= sent);
}

/// An ordered sequence of codewords.
pub struct Blocks(Vec<Block>);

impl View for Blocks {
    type V = Seq<Block>;

    closed spec fn view(&self) -> Seq<Block> {
        self.0@
    }
}

/// How many stream bits one codeword takes: sixteen as they stand, or eleven of payload.
spec fn group_width(is_raw: bool) -> nat {
    if is_raw {
        16
    } else {
        11
    }
}

/// How many stream bits a group has taken once the labels below `label` are filled.
spec fn taken_below(is_raw: bool, label: int) -> int {
    if is_raw {
        label
    } else {
        payload_rank(label)
    }
}

/// The label bits of codeword `index` in either mode.
spec fn group_labels(bits: Seq<bool>, is_raw: bool, index: int) -> Seq<bool> {
    if is_raw {
        raw_labels(bits, index)
    } else {
        payload_labels(bits, index)
    }
}

/// The smaller of two numbers.
spec fn at_most(a: int, b: int) -> int {
    if a <= b {
        a
    } else {
        b
    }
}

impl From<&str> for Blocks {
    /// Packs the bytes of a text into fresh codewords.
    fn from(data: &str) -> (blocks: Blocks)
        ensures
            blocks@ == packed(data.spec_bytes(), false),
    {
        Blocks::new(data.as_bytes(), false)
    }
}

impl vstd::std_specs::convert::FromSpecImpl<&str> for Blocks {
    /// The conversion is stated by the `ensures` of `from`, over the view.
    open spec fn obeys_from_spec() -> bool {
        false
    }

    open spec fn from_spec(data: &str) -> Self {
        arbitrary()
    }
}

impl Blocks {
    /// Whether `index` labels a redundancy position: zero or a power of two.
    pub fn is_parity_bit(index: u8) -> (reserved: bool)
        ensures
            reserved == is_parity_label(index),
    {
        is_redundancy_position(index)
    }

    /// Packs `data` into codewords.
    ///
    /// With `is_raw`, each codeword takes sixteen bits of `data` as they
    /// stand. Without it, each takes eleven bits at its payload positions and
    /// gets its redundancy bits computed. A last group that `data` fills only
    /// in part is completed with zeros.
    pub fn new(data: &[u8], is_raw: bool) -> (blocks: Self)
        ensures
            blocks@ == packed(data@, is_raw),
            blocks@.len() == packed_len(data@.len(), is_raw),
            !is_raw ==> all_sound(blocks@),
    {
        let mut blocks: Vec<Block> = Vec::new();
        let mut bits = BitVec::from_bytes(data);
        let ghost all: Seq<bool> = bits_of(data@);
        let ghost width: int = group_width(is_raw) as int;
        while bits.peek().is_some()
            invariant
                bits.bytes() == data@,
                all == bits_of(data@),
                width == group_width(is_raw),
                bits.cursor() == at_most(width * blocks@.len(), all.len() as int),
                blocks@.len() > 0 ==> width * (blocks@.len() - 1) < all.len(),
                forall|k: int|
                    0 <= k < blocks@.len() ==> blocks@[k] == #[trigger] packed_word(
                        all,
                        is_raw,
                        k,
                    ),
            decreases all.len() - bits.cursor(),
        {
            let ghost index: int = blocks@.len() as int;
            let ghost labels: Seq<bool> = group_labels(all, is_raw, index);
            let mut word: u16 = 0;
            let mut label: u8 = 0;
            while label < 16
                invariant
                    label <= 16,
                    bits.bytes() == data@,
                    all == bits_of(data@),
                    width == group_width(is_raw),
                    index == blocks@.len(),
                    labels == group_labels(all, is_raw, index),
                    width * index < all.len(),
                    word == word_below(labels, label as nat),
                    bits.cursor() == at_most(
                        width * index + taken_below(is_raw, label as int),
                        all.len() as int,
                    ),
                decreases 16 - label,
            {
                proof {
                    lemma_or_nothing(word);
                }
                if is_raw || !Blocks::is_parity_bit(label) {
                    match bits.next() {
                        Some(true) => {
                            word = word | mask_of(label);
                        },
                        _ => {},
                    }
                }
                label = label + 1;
            }
            let block = if is_raw {
                Block::from(word)
            } else {
                Block::fresh(word)
            };
            blocks.push(block);
        }
        let packed_blocks = Blocks(blocks);
        assert(packed_blocks@ =~= packed(data@, is_raw));
        proof {
            if !is_raw {
                lemma_fresh_payload(data@);
            }
        }
        packed_blocks
    }

    /// An iterator over the codewords, in order.
    pub fn iter(&self) -> (codewords: std::slice::Iter<'_, Block>)
        ensures
            into_iter_elts(codewords) == self@,
    {
        broadcast use vstd::std_specs::slice::group_slice_axioms;

        let codewords = self.0.as_slice().iter();
        assert(self@.as_ref().unref() =~= self@);
        codewords
    }

    /// Inverts one bit, drawn at random among the labels 1 to 15, in each
    /// codeword that a coin toss picks.
    pub fn introduce_noise(&mut self)
        ensures
            lightly_disturbed(old(self)@, final(self)@),
    {
        let mut draws: Vec<Option<u8>> = Vec::new();
        let mut index: usize = 0;
        while index < self.0.len()
            invariant
                index <= self@.len(),
                draws@.len() == index,
                self@ == old(self)@,
            decreases self@.len() - index,
        {
            let draw: Option<u8> = if rand::random::<bool>() {
                Some(rand::random::<u8>())
            } else {
                None
            };
            draws.push(draw);
            index = index + 1;
        }
        // every codeword has its draw by now: the rest is `apply_noise`
        self.apply_noise(draws.as_slice());
    }

    /// Applies the noise that was drawn: codeword `i` has the bit inverted
    /// that the byte in `draws[i]` picks, the one of label `15 - byte % 15`,
    /// and stays as it is where `draws[i]` holds none. Draws beyond the last
    /// codeword are not used, and codewords beyond the last draw stay.
    pub fn apply_noise(&mut self, draws: &[Option<u8>])
        ensures
            final(self)@ == noised(old(self)@, draws@),
            lightly_disturbed(old(self)@, final(self)@),
    {
        let mut index: usize = 0;
        while index < self.0.len() && index < draws.len()
            invariant
                index <= self@.len(),
                index <= draws@.len(),
                self@.len() == old(self)@.len(),
                forall|i: int|
                    0 <= i < index ==> #[trigger] self@[i] == disturbed(old(self)@[i], draws@[i]),
                forall|i: int| index <= i < self@.len() ==> self@[i] == old(self)@[i],
            decreases self@.len() - index,
        {
            match draws[index] {
                Some(byte) => {
                    let mut block: Block = self.0[index];
                    block.flip_drawn_bit(byte);
                    self.0.set(index, block);
                },
                None => {},
            }
            index = index + 1;
        }
        assert(self@ =~= noised(old(self)@, draws@));
        proof {
            lemma_noised_is_light(old(self)@, draws@);
        }
    }

    /// Repairs every codeword by its own syndrome.
    pub fn repair(&mut self)
        ensures
            final(self)@ == repaired_all(old(self)@),
            all_sound(final(self)@),
    {
        let mut index: usize = 0;
        while index < self.0.len()
            invariant
                self@.len() == old(self)@.len(),
                forall|i: int|
                    0 <= i < index ==> (#[trigger] self@[i]).data == repaired(old(self)@[i].data),
                forall|i: int| 0 <= i < index ==> syndrome(#[trigger] self@[i].data) == 0,
                forall|i: int| index <= i < self@.len() ==> self@[i] == old(self)@[i],
            decreases self@.len() - index,
        {
            let mut block: Block = self.0[index];
            block.repair();
            self.0.set(index, block);
            index = index + 1;
        }
        assert(self@ =~= repaired_all(old(self)@));
    }

    /// The bits of the codewords in order: all sixteen of each, or only the
    /// eleven payload bits if `strip_from_parity`.
    pub fn serialize(&self, strip_from_parity: bool) -> (bits: Vec<bool>)
        ensures
            bits@ == serial_bits(self@, strip_from_parity),
    {
        let ghost width: int = group_width(!strip_from_parity) as int;
        let ghost all: Seq<bool> = serial_bits(self@, strip_from_parity);
        let mut bits: Vec<bool> = Vec::new();
        let mut index: usize = 0;
        while index < self.0.len()
            invariant
                index <= self@.len(),
                width == group_width(!strip_from_parity),
                all == serial_bits(self@, strip_from_parity),
                bits@.len() == width * index,
                forall|i: int| 0 <= i < bits@.len() ==> bits@[i] == all[i],
            decreases self@.len() - index,
        {
            let block: Block = self.0[index];
            let mut label: u8 = 0;
            while label < 16
                invariant
                    label <= 16,
                    index < self@.len(),
                    block == self@[index as int],
                    width == group_width(!strip_from_parity),
                    all == serial_bits(self@, strip_from_parity),
                    bits@.len() == width * index + taken_below(!strip_from_parity, label as int),
                    forall|i: int| 0 <= i < bits@.len() ==> bits@[i] == all[i],
                decreases 16 - label,
            {
                if !(strip_from_parity && Blocks::is_parity_bit(label)) {
                    bits.push(block.data & mask_of(label) != 0);
                }
                label = label + 1;
            }
            index = index + 1;
        }
        assert(bits@ =~= all);
        bits
    }

    /// The codewords as bytes for sending: all sixteen bits of each, in order,
    /// eight to a byte.
    pub fn to_byte_vec(&self) -> (bytes: Vec<u8>)
        ensures
            bytes@ == wire_bytes(self@),
    {
        let bits = self.serialize(false);
        bytes_from_bits(bits.as_slice(), true)
    }

    /// The payload as text: the eleven payload bits of each codeword, in
    /// order, eight to a byte; a last group of fewer than eight bits is left
    /// out, and so is every byte that is zero.
    pub fn to_string(&self) -> (text: String)
        ensures
            text@ == payload_text(self@),
    {
        let bits = self.serialize(true);
        let bytes = bytes_from_bits(bits.as_slice(), false);
        text_from_bytes(bytes.as_slice())
    }
}

/// One codeword after a draw: as it was where nothing was drawn, and else
/// with the bit inverted that the drawn byte picks.
pub open spec fn disturbed(block: Block, draw: Option<u8>) -> Block {
    match draw {
        Some(byte) => Block { data: flipped(block.data, noise_label(byte)) },
        None => block,
    }
}

/// A sequence of codewords after one draw for each: codeword `i` is disturbed
/// by `draws[i]`, and codewords beyond the draws are as they were.
pub open spec fn noised(words: Seq<Block>, draws: Seq<Option<u8>>) -> Seq<Block> {
    Seq::new(
        words.len(),
        |i: int|
            if i < draws.len() {
                disturbed(words[i], draws[i])
            } else {
                words[i]
            },
    )
}

/// Whatever is drawn, noise inverts at most one bit in each codeword, and
/// never that of label 0.
pub proof fn lemma_noised_is_light(words: Seq<Block>, draws: Seq<Option<u8>>)
    ensures
        lightly_disturbed(words, noised(words, draws)),
{
    let after = noised(words, draws);
    assert forall|i: int| 0 <= i < words.len() implies after[i] == words[i] || one_bit_apart(
        words[i].data,
        #[trigger] after[i].data,
    ) by {
        if i < draws.len() {
            if let Some(byte) = draws[i] {
                let label: u8 = noise_label(byte);
                assert(1 <= label <= 15);
                assert(after[i].data == flipped(words[i].data, label));
            }
        }
    }
}

} // verus!
