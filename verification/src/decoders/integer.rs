use core::marker::PhantomData;
use vstd::prelude::*;

use crate::decoders::byte_vec::{ByteVecDecoder, ByteVecState};
use crate::error::UnexpectedEnd;
use crate::ints::{be_value, le_value, ByteOrder, BigEndian, Int, LittleEndian};
use crate::{spec_feed, Decoder, DecoderSpec, KnownMinLenDecoder, Step};

verus! {

/// Decodes a fixed-width integer in the byte order chosen by `Endian`.
///
/// Bytes are accumulated first; the integer is only read out of them at
/// finalization, so no partial integer interpretation ever happens
/// mid-stream.
pub struct IntDecoder<T: Int, Endian: ByteOrder> {
    /// Accumulates the integer's bytes.
    pub inner: ByteVecDecoder,
    /// The integer type and byte order being decoded.
    pub marker: PhantomData<(T, Endian)>,
}

impl<T: Int, Endian: ByteOrder> IntDecoder<T, Endian> {
    /// Creates a decoder collecting exactly the integer's width in bytes.
    pub fn new() -> (r: Self)
        ensures
            r.inner.buf@ == Seq::<u8>::empty(),
            r.inner.required == T::spec_width(),
    {
        let w = T::width();
        IntDecoder { inner: ByteVecDecoder::new(w), marker: PhantomData }
    }
}

impl<T: Int, Endian: ByteOrder> Default for IntDecoder<T, Endian> {
    fn default() -> (r: Self)
        ensures
            r.inner.buf@ == Seq::<u8>::empty(),
            r.inner.required == T::spec_width(),
    {
        Self::new()
    }
}

/// Feeding the byte accumulator never changes the number of bytes it was
/// constructed to collect.
proof fn lemma_bytevec_feed_required(s: ByteVecState, input: Seq<u8>)
    ensures
        match spec_feed::<ByteVecDecoder>(s, input) {
            Ok((s1, _)) => s1.required == s.required,
            Err(_) => true,
        },
    decreases input.len(),
{
    if input.len() == 0 {
    } else {
        match <ByteVecDecoder as DecoderSpec>::spec_step(s, input[0]) {
            Step::More(s2) => {
                lemma_bytevec_feed_required(s2, input.drop_first());
            },
            Step::Stop(_) => {},
            Step::Fail(_) => {},
        }
    }
}

impl<T: Int> DecoderSpec for IntDecoder<T, BigEndian> {
    type Value = T;

    type Error = UnexpectedEnd;

    type SpecState = ByteVecState;

    type SpecValue = T;

    open spec fn model(&self) -> ByteVecState {
        self.inner.model()
    }

    open spec fn wf(&self) -> bool {
        self.inner.wf() && self.inner.required == T::spec_width()
    }

    open spec fn spec_inv(s: ByteVecState) -> bool {
        <ByteVecDecoder as DecoderSpec>::spec_inv(s) && s.required == T::spec_width()
    }

    open spec fn spec_value(v: T) -> T {
        v
    }

    open spec fn spec_step(s: ByteVecState, b: u8) -> Step<ByteVecState, UnexpectedEnd> {
        <ByteVecDecoder as DecoderSpec>::spec_step(s, b)
    }

    open spec fn spec_finish(s: ByteVecState) -> Result<T, UnexpectedEnd> {
        match <ByteVecDecoder as DecoderSpec>::spec_finish(s) {
            Err(e) => Err(e),
            Ok(bytes) => Ok(T::from_unsigned(be_value(bytes))),
        }
    }

    proof fn lemma_wf_inv(&self) {
    }

    proof fn lemma_step_inv(s: ByteVecState, b: u8) {
    }

    proof fn lemma_stop_stable(s: ByteVecState, b: u8, c: u8) {
    }
}

/// Feeding by this decoder's transitions is feeding by the accumulator's:
/// they are the same transitions.
pub proof fn lemma_feed_delegates_be<T: Int>(s: ByteVecState, input: Seq<u8>)
    ensures
        spec_feed::<IntDecoder<T, BigEndian>>(s, input) == spec_feed::<ByteVecDecoder>(s, input),
    decreases input.len(),
{
    if input.len() == 0 {
    } else {
        match <ByteVecDecoder as DecoderSpec>::spec_step(s, input[0]) {
            Step::More(s2) => {
                lemma_feed_delegates_be::<T>(s2, input.drop_first());
            },
            Step::Stop(_) => {},
            Step::Fail(_) => {},
        }
    }
}

impl<T: Int> Decoder for IntDecoder<T, BigEndian> {
    fn decode_chunk(&mut self, bytes: &mut &[u8]) -> (r: Result<(), UnexpectedEnd>) {
        proof {
            lemma_feed_delegates_be::<T>(self.inner.model(), old(bytes)@);
            lemma_bytevec_feed_required(self.inner.model(), old(bytes)@);
        }
        self.inner.decode_chunk(bytes)
    }

    fn end(self) -> (r: Result<T, UnexpectedEnd>) {
        match self.inner.end() {
            Err(e) => Err(e),
            Ok(bytes) => Ok(T::from_be_bytes(bytes.as_slice())),
        }
    }
}

impl<T: Int> KnownMinLenDecoder for IntDecoder<T, BigEndian> {
    open spec fn spec_min_len(s: ByteVecState) -> nat {
        <ByteVecDecoder as KnownMinLenDecoder>::spec_min_len(s)
    }

    proof fn lemma_min_len(s: ByteVecState, b: u8) {
    }

    fn min_required_bytes(&self) -> (r: usize) {
        self.inner.min_required_bytes()
    }
}

impl<T: Int> DecoderSpec for IntDecoder<T, LittleEndian> {
    type Value = T;

    type Error = UnexpectedEnd;

    type SpecState = ByteVecState;

    type SpecValue = T;

    open spec fn model(&self) -> ByteVecState {
        self.inner.model()
    }

    open spec fn wf(&self) -> bool {
        self.inner.wf() && self.inner.required == T::spec_width()
    }

    open spec fn spec_inv(s: ByteVecState) -> bool {
        <ByteVecDecoder as DecoderSpec>::spec_inv(s) && s.required == T::spec_width()
    }

    open spec fn spec_value(v: T) -> T {
        v
    }

    open spec fn spec_step(s: ByteVecState, b: u8) -> Step<ByteVecState, UnexpectedEnd> {
        <ByteVecDecoder as DecoderSpec>::spec_step(s, b)
    }

    open spec fn spec_finish(s: ByteVecState) -> Result<T, UnexpectedEnd> {
        match <ByteVecDecoder as DecoderSpec>::spec_finish(s) {
            Err(e) => Err(e),
            Ok(bytes) => Ok(T::from_unsigned(le_value(bytes))),
        }
    }

    proof fn lemma_wf_inv(&self) {
    }

    proof fn lemma_step_inv(s: ByteVecState, b: u8) {
    }

    proof fn lemma_stop_stable(s: ByteVecState, b: u8, c: u8) {
    }
}

/// Feeding by this decoder's transitions is feeding by the accumulator's:
/// they are the same transitions.
pub proof fn lemma_feed_delegates_le<T: Int>(s: ByteVecState, input: Seq<u8>)
    ensures
        spec_feed::<IntDecoder<T, LittleEndian>>(s, input) == spec_feed::<ByteVecDecoder>(s, input),
    decreases input.len(),
{
    if input.len() == 0 {
    } else {
        match <ByteVecDecoder as DecoderSpec>::spec_step(s, input[0]) {
            Step::More(s2) => {
                lemma_feed_delegates_le::<T>(s2, input.drop_first());
            },
            Step::Stop(_) => {},
            Step::Fail(_) => {},
        }
    }
}

impl<T: Int> Decoder for IntDecoder<T, LittleEndian> {
    fn decode_chunk(&mut self, bytes: &mut &[u8]) -> (r: Result<(), UnexpectedEnd>) {
        proof {
            lemma_feed_delegates_le::<T>(self.inner.model(), old(bytes)@);
            lemma_bytevec_feed_required(self.inner.model(), old(bytes)@);
        }
        self.inner.decode_chunk(bytes)
    }

    fn end(self) -> (r: Result<T, UnexpectedEnd>) {
        match self.inner.end() {
            Err(e) => Err(e),
            Ok(bytes) => Ok(T::from_le_bytes(bytes.as_slice())),
        }
    }
}

} // verus!
