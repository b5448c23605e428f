//! A byte buffer read as a sequence of bits, most significant bit first.

use vstd::prelude::*;
use vstd::slice::slice_to_vec;

verus! {

/// The byte with only the bit at `offset` set, counted from the most
/// significant bit; zero for an offset beyond 7.
pub open spec fn offset_mask(offset: u8) -> u8 {
    0x80u8 >> offset
}

/// Bit `offset` of a byte, counted from the most significant bit.
pub open spec fn byte_bit(byte: u8, offset: u8) -> bool {
    byte & offset_mask(offset) != 0
}

/// The bits of a byte buffer in stream order: eight per byte, most
/// significant first.
pub open spec fn bits_of(bytes: Seq<u8>) -> Seq<bool> {
    Seq::new(8 * bytes.len(), |i: int| byte_bit(bytes[i / 8], (i % 8) as u8))
}

/// A single forward pass over the bits of a byte buffer.
pub struct BitVec {
    source: Vec<u8>,
    byte: usize,
    bit: u8,
}

impl BitVec {
    #[verifier::type_invariant]
    spec fn inv(self) -> bool {
        &&& self.byte <= self.source@.len()
        &&& self.bit < 8
        &&& self.byte == self.source@.len() ==> self.bit == 0
    }

    /// The bytes that the stream reads.
    pub closed spec fn bytes(&self) -> Seq<u8> {
        self.source@
    }

    /// How many bits have been taken.
    pub closed spec fn cursor(&self) -> nat {
        (8 * self.byte + self.bit) as nat
    }

    /// All bits of the stream, taken or not.
    pub open spec fn bits(&self) -> Seq<bool> {
        bits_of(self.bytes())
    }

    /// The bit at the cursor, if any is left.
    pub open spec fn front(&self) -> Option<bool> {
        if self.cursor() < self.bits().len() {
            Some(self.bits()[self.cursor() as int])
        } else {
            None
        }
    }

    /// A stream over a copy of `data`, positioned at its first bit.
    pub fn from_bytes(data: &[u8]) -> (stream: Self)
        ensures
            stream.bytes() == data@,
            stream.cursor() == 0,
    {
        BitVec { source: slice_to_vec(data), byte: 0, bit: 0 }
    }

    /// The number of bytes that the stream reads.
    pub fn len(&self) -> (count: usize)
        ensures
            count == self.bytes().len(),
    {
        self.source.len()
    }

    /// The next bit without taking it, or `None` once all bits are taken.
    pub fn peek(&self) -> (bit: Option<bool>)
        ensures
            bit == self.front(),
            self.cursor() <= self.bits().len(),
    {
        proof {
            use_type_invariant(self);
        }
        if self.byte < self.source.len() {
            Some(self.source[self.byte] & (0x80u8 >> self.bit) != 0)
        } else {
            None
        }
    }

    /// Takes the next bit, or returns `None` once all bits are taken.
    pub fn next(&mut self) -> (bit: Option<bool>)
        ensures
            bit == old(self).front(),
            final(self).bytes() == old(self).bytes(),
            final(self).cursor() == old(self).cursor() + (if bit is Some {
                1nat
            } else {
                0nat
            }),
            final(self).cursor() <= final(self).bits().len(),
    {
        proof {
            use_type_invariant(&*self);
        }
        if self.byte < self.source.len() {
            let taken = self.source[self.byte] & (0x80u8 >> self.bit) != 0;
            if self.bit == 7 {
                self.bit = 0;
                self.byte = self.byte + 1;
            } else {
                self.bit = self.bit + 1;
            }
            Some(taken)
        } else {
            None
        }
    }
}

} // verus!
