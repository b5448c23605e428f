//! Bytes as text: each byte the character of its code point, zero bytes left out.

use vstd::prelude::*;

verus! {

/// The characters of a byte buffer, zero bytes included.
pub open spec fn chars_of(bytes: Seq<u8>) -> Seq<char> {
    Seq::new(bytes.len(), |i: int| bytes[i] as char)
}

/// The characters of a byte buffer: every byte but zero, in order, each as
/// the character of that code point.
pub open spec fn text_of(bytes: Seq<u8>) -> Seq<char>
    decreases bytes.len(),
{
    if bytes.len() == 0 {
        Seq::empty()
    } else if bytes.last() == 0 {
        text_of(bytes.drop_last())
    } else {
        text_of(bytes.drop_last()).push(bytes.last() as char)
    }
}

/// Zero bytes at the end of a buffer add nothing to its text.
pub proof fn lemma_text_ignores_zero_tail(bytes: Seq<u8>, kept: nat)
    requires
        kept <= bytes.len(),
        forall|i: int| kept <= i < bytes.len() ==> bytes[i] == 0,
    ensures
        text_of(bytes) == text_of(bytes.take(kept as int)),
    decreases bytes.len(),
{
    if kept == bytes.len() {
        assert(bytes.take(kept as int) =~= bytes);
    } else {
        assert(bytes.drop_last().take(kept as int) =~= bytes.take(kept as int));
        lemma_text_ignores_zero_tail(bytes.drop_last(), kept);
    }
}

/// A buffer without a zero byte has every byte in its text.
pub proof fn lemma_text_without_zeros(bytes: Seq<u8>)
    requires
        forall|i: int| 0 <= i < bytes.len() ==> bytes[i] != 0,
    ensures
        text_of(bytes) == chars_of(bytes),
    decreases bytes.len(),
{
    if bytes.len() > 0 {
        lemma_text_without_zeros(bytes.drop_last());
        assert(chars_of(bytes.drop_last()).push(bytes.last() as char) =~= chars_of(bytes));
    } else {
        assert(chars_of(bytes) =~= Seq::<char>::empty());
    }
}

/// `String::push` appends one character to the end of the string.
pub assume_specification[ String::push ](text: &mut String, ch: char)
    ensures
        final(text)@ == old(text)@.push(ch),
;

/// The text of a byte buffer: zero bytes are dropped, every other byte becomes
/// the character of its code point.
pub fn text_from_bytes(bytes: &[u8]) -> (text: String)
    ensures
        text@ == text_of(bytes@),
{
    let mut text = String::new();
    let mut index: usize = 0;
    while index < bytes.len()
        invariant
            index <= bytes@.len(),
            text@ == text_of(bytes@.take(index as int)),
        decreases bytes@.len() - index,
    {
        let byte: u8 = bytes[index];
        assert(bytes@.take(index + 1).drop_last() =~= bytes@.take(index as int));
        if byte > 0 {
            text.push(byte as char);
        }
        index = index + 1;
    }
    assert(bytes@.take(index as int) =~= bytes@);
    text
}

} // verus!
