use vstd::prelude::*;

use crate::Encoder;

verus! {

/// A value whose bytes can be handed out as a slice.
pub trait ByteSource: Sized {
    /// The bytes this value carries.
    spec fn byte_view(&self) -> Seq<u8>;

    /// Hands the carried bytes out as a slice.
    fn byte_slice(&self) -> (r: &[u8])
        ensures
            r@ == self.byte_view(),
    ;
}

impl ByteSource for Vec<u8> {
    open spec fn byte_view(&self) -> Seq<u8> {
        self@
    }

    fn byte_slice(&self) -> (r: &[u8]) {
        self.as_slice()
    }
}

impl<const N: usize> ByteSource for [u8; N] {
    open spec fn byte_view(&self) -> Seq<u8> {
        self@
    }

    fn byte_slice(&self) -> (r: &[u8]) {
        self.as_slice()
    }
}

impl<'a> ByteSource for &'a [u8] {
    open spec fn byte_view(&self) -> Seq<u8> {
        (*self)@
    }

    fn byte_slice(&self) -> (r: &[u8]) {
        *self
    }
}

/// A convenient alias for encoding a single byte.
pub type ByteEncoder = BytesEncoder<[u8; 1]>;

/// Trivially encodes a byte-carrying value as one single chunk.
pub struct BytesEncoder<T: ByteSource> {
    /// The value whose bytes are produced.
    pub bytes: T,
    /// Whether the single chunk has already been passed.
    pub passed: Ghost<bool>,
}

impl<T: ByteSource> BytesEncoder<T> {
    /// Creates the encoder.
    pub fn new(bytes: T) -> (r: Self)
        ensures
            r.wf(),
            r.chunk() == bytes.byte_view(),
            r.chunks() == (if bytes.byte_view().len() == 0 {
                Seq::<Seq<u8>>::empty()
            } else {
                seq![bytes.byte_view()]
            }),
    {
        BytesEncoder { bytes, passed: Ghost(false) }
    }
}

impl BytesEncoder<[u8; 1]> {
    /// Creates the encoder encoding a single byte.
    pub fn single_byte(byte: u8) -> (r: Self)
        ensures
            r.wf(),
            r.chunks() == seq![seq![byte]],
    {
        let r = BytesEncoder { bytes: [byte], passed: Ghost(false) };
        proof {
            assert(r.bytes.byte_view() =~= seq![byte]);
            assert(r.chunks() =~= seq![seq![byte]]);
        }
        r
    }
}

impl<T: ByteSource> Encoder for BytesEncoder<T> {
    open spec fn wf(&self) -> bool {
        true
    }

    open spec fn chunks(&self) -> Seq<Seq<u8>> {
        if self.passed@ || self.bytes.byte_view().len() == 0 {
            Seq::empty()
        } else {
            seq![self.bytes.byte_view()]
        }
    }

    open spec fn chunk(&self) -> Seq<u8> {
        self.bytes.byte_view()
    }

    proof fn lemma_wf(&self) {
    }

    fn encoded_chunk(&self) -> (r: &[u8]) {
        self.bytes.byte_slice()
    }

    fn next(&mut self) -> (more: bool) {
        proof {
            self.passed = Ghost(true);
        }
        false
    }
}

} // verus!
