use vstd::prelude::*;
use vstd::slice::slice_subrange;

use crate::error::UnexpectedEnd;
use crate::{spec_feed, Decoder, DecoderSpec, KnownMinLenDecoder, Step};

verus! {

/// The spec-level state of [`ByteVecDecoder`]: the bytes accumulated so far
/// and the number of bytes the decoder was constructed to collect.
pub struct ByteVecState {
    /// Bytes accumulated so far.
    pub bytes: Seq<u8>,
    /// Total number of bytes to collect.
    pub required: nat,
}

/// Decodes a byte vector of a length known at construction.
///
/// The decoder accumulates exactly `required` bytes and refuses any more.
#[derive(Debug)]
pub struct ByteVecDecoder {
    /// Bytes accumulated so far.
    pub buf: Vec<u8>,
    /// Total number of bytes to collect.
    pub required: usize,
}

impl ByteVecDecoder {
    /// Creates a decoder that collects `required_bytes` bytes.
    pub fn new(required_bytes: usize) -> (r: Self)
        ensures
            r.wf(),
            r.model() == (ByteVecState { bytes: Seq::<u8>::empty(), required: required_bytes as nat }),
    {
        ByteVecDecoder { buf: Vec::with_capacity(required_bytes), required: required_bytes }
    }

    /// Creates a decoder that collects `required_bytes` bytes but never
    /// pre-allocates more than `limit` bytes up front.
    ///
    /// This guards against malicious length prefixes: memory grows with the
    /// bytes actually received rather than with the announced length.
    pub fn with_reserve_limit(required_bytes: usize, limit: usize) -> (r: Self)
        ensures
            r.wf(),
            r.model() == (ByteVecState { bytes: Seq::<u8>::empty(), required: required_bytes as nat }),
    {
        let cap = if required_bytes < limit {
            required_bytes
        } else {
            limit
        };
        ByteVecDecoder { buf: Vec::with_capacity(cap), required: required_bytes }
    }
}

impl DecoderSpec for ByteVecDecoder {
    type Value = Vec<u8>;

    type Error = UnexpectedEnd;

    type SpecState = ByteVecState;

    type SpecValue = Seq<u8>;

    open spec fn model(&self) -> ByteVecState {
        ByteVecState { bytes: self.buf@, required: self.required as nat }
    }

    open spec fn wf(&self) -> bool {
        self.buf@.len() <= self.required
    }

    open spec fn spec_inv(s: ByteVecState) -> bool {
        s.bytes.len() <= s.required && s.required <= usize::MAX
    }

    open spec fn spec_value(v: Vec<u8>) -> Seq<u8> {
        v@
    }

    open spec fn spec_step(s: ByteVecState, b: u8) -> Step<ByteVecState, UnexpectedEnd> {
        if s.bytes.len() >= s.required {
            Step::Stop(s)
        } else {
            Step::More(ByteVecState { bytes: s.bytes.push(b), required: s.required })
        }
    }

    open spec fn spec_finish(s: ByteVecState) -> Result<Seq<u8>, UnexpectedEnd> {
        if s.bytes.len() < s.required {
            Err(UnexpectedEnd { missing: (s.required - s.bytes.len()) as usize })
        } else {
            Ok(s.bytes)
        }
    }

    proof fn lemma_wf_inv(&self) {
    }

    proof fn lemma_step_inv(s: ByteVecState, b: u8) {
    }

    proof fn lemma_stop_stable(s: ByteVecState, b: u8, c: u8) {
    }
}

impl Decoder for ByteVecDecoder {
    fn decode_chunk(&mut self, bytes: &mut &[u8]) -> (r: Result<(), UnexpectedEnd>) {
        let n = (*bytes).len();
        let mut i: usize = 0;
        proof {
            assert(old(bytes)@.skip(0) =~= old(bytes)@);
        }
        while i < n && self.buf.len() < self.required
            invariant
                old(self).wf(),
                n == old(bytes)@.len(),
                *bytes == *old(bytes),
                i <= n,
                self.required == old(self).required,
                self.buf@.len() <= self.required,
                spec_feed::<Self>(old(self).model(), old(bytes)@) == spec_feed::<Self>(
                    self.model(),
                    old(bytes)@.skip(i as int),
                ),
            decreases n - i,
        {
            let ghost s = self.model();
            let ghost rest = old(bytes)@.skip(i as int);
            let b: u8 = (*bytes)[i];
            self.buf.push(b);
            i = i + 1;
            proof {
                assert(rest[0] == b);
                assert(Self::spec_step(s, b) == Step::<ByteVecState, UnexpectedEnd>::More(
                    self.model(),
                ));
                assert(rest.drop_first() =~= old(bytes)@.skip(i as int));
            }
        }
        *bytes = slice_subrange(*bytes, i, n);
        proof {
            let ghost rest = old(bytes)@.skip(i as int);
            assert(final(bytes)@ =~= rest);
            if rest.len() > 0 {
                assert(self.buf@.len() >= self.required);
                assert(Self::spec_step(self.model(), rest[0]) == Step::<
                    ByteVecState,
                    UnexpectedEnd,
                >::Stop(self.model()));
            }
            assert(spec_feed::<Self>(self.model(), rest) == Ok::<
                (ByteVecState, Seq<u8>),
                UnexpectedEnd,
            >((self.model(), rest)));
        }
        Ok(())
    }

    fn end(self) -> (r: Result<Vec<u8>, UnexpectedEnd>) {
        if self.buf.len() < self.required {
            Err(UnexpectedEnd { missing: self.required - self.buf.len() })
        } else {
            Ok(self.buf)
        }
    }
}

impl KnownMinLenDecoder for ByteVecDecoder {
    open spec fn spec_min_len(s: ByteVecState) -> nat {
        (s.required - s.bytes.len()) as nat
    }

    proof fn lemma_min_len(s: ByteVecState, b: u8) {
    }

    fn min_required_bytes(&self) -> (r: usize) {
        self.required - self.buf.len()
    }
}

} // verus!
