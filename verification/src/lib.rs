//! A (16,11) single-error-correcting block code.
//!
//! Bytes are packed into 16-bit codewords that carry 11 payload bits and 5
//! redundancy positions. One flipped bit per codeword can be located by the
//! codeword's syndrome and corrected.

pub mod armor;
pub mod bitvec;
pub mod block;
pub mod blocks;
pub mod bytes;
pub mod codec;
pub mod label;
pub mod noise;
pub mod syndrome;
pub mod text;
