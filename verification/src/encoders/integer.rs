use core::marker::PhantomData;
use vstd::prelude::*;

use crate::ints::{be_bytes, le_bytes, lemma_le_bytes_len, Int};
use crate::Encoder;

verus! {

/// Encodes an integer as its big- or little-endian bytes, chosen at
/// construction, in one single chunk.
pub struct IntEncoder<T: Int> {
    /// The integer's byte representation, fixed at construction.
    pub bytes: Vec<u8>,
    /// Whether the single chunk has already been passed.
    pub passed: Ghost<bool>,
    /// The integer type being encoded.
    pub marker: PhantomData<T>,
}

impl<T: Int> IntEncoder<T> {
    /// Creates a big-endian encoder.
    pub fn new_be(value: T) -> (r: Self)
        ensures
            r.wf(),
            r.chunks() == seq![be_bytes(T::spec_unsigned(value), T::spec_width())],
    {
        proof {
            T::lemma_unsigned(value);
            lemma_le_bytes_len(T::spec_unsigned(value), T::spec_width());
        }
        let r = IntEncoder { bytes: value.to_be_bytes(), passed: Ghost(false), marker: PhantomData };
        proof {
            assert(r.chunks() =~= seq![be_bytes(T::spec_unsigned(value), T::spec_width())]);
        }
        r
    }

    /// Creates a little-endian encoder.
    pub fn new_le(value: T) -> (r: Self)
        ensures
            r.wf(),
            r.chunks() == seq![le_bytes(T::spec_unsigned(value), T::spec_width())],
    {
        proof {
            T::lemma_unsigned(value);
            lemma_le_bytes_len(T::spec_unsigned(value), T::spec_width());
        }
        let r = IntEncoder { bytes: value.to_le_bytes(), passed: Ghost(false), marker: PhantomData };
        proof {
            assert(r.chunks() =~= seq![le_bytes(T::spec_unsigned(value), T::spec_width())]);
        }
        r
    }
}

impl<T: Int> Encoder for IntEncoder<T> {
    open spec fn wf(&self) -> bool {
        self.bytes@.len() > 0
    }

    open spec fn chunks(&self) -> Seq<Seq<u8>> {
        if self.passed@ {
            Seq::empty()
        } else {
            seq![self.bytes@]
        }
    }

    open spec fn chunk(&self) -> Seq<u8> {
        self.bytes@
    }

    proof fn lemma_wf(&self) {
    }

    fn encoded_chunk(&self) -> (r: &[u8]) {
        self.bytes.as_slice()
    }

    fn next(&mut self) -> (more: bool) {
        proof {
            self.passed = Ghost(true);
        }
        false
    }
}

} // verus!
