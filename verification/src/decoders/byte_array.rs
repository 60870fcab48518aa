use vstd::prelude::*;
use vstd::slice::slice_subrange;

use crate::error::UnexpectedEnd;
use crate::{spec_feed, Decoder, DecoderSpec, KnownMinLenDecoder, Step};

verus! {

/// Decodes a byte array of a compile-time length.
///
/// The decoder accumulates exactly `N` bytes and refuses any more.  The
/// buffer is zero-initialized; only the first `len` bytes are meaningful.
#[derive(Debug)]
pub struct ByteArrayDecoder<const N: usize> {
    /// Storage for the accumulated bytes; positions at `len` and beyond are
    /// not yet filled.
    pub buf: [u8; N],
    /// How many bytes have been accumulated so far.
    pub len: usize,
}

impl<const N: usize> ByteArrayDecoder<N> {
    /// Creates an empty decoder.
    pub fn new() -> (r: Self)
        ensures
            r.wf(),
            r.model() == Seq::<u8>::empty(),
    {
        let r = ByteArrayDecoder { buf: [0u8; N], len: 0 };
        proof {
            assert(r.buf@.take(0) =~= Seq::<u8>::empty());
        }
        r
    }
}

impl<const N: usize> Default for ByteArrayDecoder<N> {
    fn default() -> (r: Self)
        ensures
            r.wf(),
            r.model() == Seq::<u8>::empty(),
    {
        Self::new()
    }
}

impl<const N: usize> DecoderSpec for ByteArrayDecoder<N> {
    type Value = [u8; N];

    type Error = UnexpectedEnd;

    type SpecState = Seq<u8>;

    type SpecValue = Seq<u8>;

    open spec fn model(&self) -> Seq<u8> {
        self.buf@.take(self.len as int)
    }

    open spec fn wf(&self) -> bool {
        self.len <= N
    }

    open spec fn spec_inv(s: Seq<u8>) -> bool {
        s.len() <= N
    }

    open spec fn spec_value(v: [u8; N]) -> Seq<u8> {
        v@
    }

    open spec fn spec_step(s: Seq<u8>, b: u8) -> Step<Seq<u8>, UnexpectedEnd> {
        if s.len() >= N {
            Step::Stop(s)
        } else {
            Step::More(s.push(b))
        }
    }

    open spec fn spec_finish(s: Seq<u8>) -> Result<Seq<u8>, UnexpectedEnd> {
        if s.len() < N {
            Err(UnexpectedEnd { missing: (N - s.len()) as usize })
        } else {
            Ok(s)
        }
    }

    proof fn lemma_wf_inv(&self) {
    }

    proof fn lemma_step_inv(s: Seq<u8>, b: u8) {
    }

    proof fn lemma_stop_stable(s: Seq<u8>, b: u8, c: u8) {
    }
}

impl<const N: usize> Decoder for ByteArrayDecoder<N> {
    fn decode_chunk(&mut self, bytes: &mut &[u8]) -> (r: Result<(), UnexpectedEnd>) {
        let n = (*bytes).len();
        let mut i: usize = 0;
        proof {
            assert(old(bytes)@.skip(0) =~= old(bytes)@);
        }
        while i < n && self.len < N
            invariant
                n == old(bytes)@.len(),
                *bytes == *old(bytes),
                i <= n,
                self.len <= N,
                spec_feed::<Self>(old(self).model(), old(bytes)@) == spec_feed::<Self>(
                    self.model(),
                    old(bytes)@.skip(i as int),
                ),
            decreases n - i,
        {
            let ghost s = self.model();
            let ghost rest = old(bytes)@.skip(i as int);
            let b: u8 = (*bytes)[i];
            self.buf[self.len] = b;
            self.len = self.len + 1;
            i = i + 1;
            proof {
                assert(rest[0] == b);
                assert(self.model() =~= s.push(b));
                assert(Self::spec_step(s, b) == Step::<Seq<u8>, UnexpectedEnd>::More(self.model()));
                assert(rest.drop_first() =~= old(bytes)@.skip(i as int));
            }
        }
        *bytes = slice_subrange(*bytes, i, n);
        proof {
            let ghost rest = old(bytes)@.skip(i as int);
            assert(final(bytes)@ =~= rest);
            if rest.len() > 0 {
                assert(Self::spec_step(self.model(), rest[0]) == Step::<Seq<u8>, UnexpectedEnd>::Stop(
                    self.model(),
                ));
            }
            assert(spec_feed::<Self>(self.model(), rest) == Ok::<(Seq<u8>, Seq<u8>), UnexpectedEnd>(
                (self.model(), rest),
            ));
        }
        Ok(())
    }

    fn end(self) -> (r: Result<[u8; N], UnexpectedEnd>) {
        if self.len < N {
            Err(UnexpectedEnd { missing: N - self.len })
        } else {
            proof {
                assert(self.buf@.take(self.len as int) =~= self.buf@);
            }
            Ok(self.buf)
        }
    }
}

impl<const N: usize> KnownMinLenDecoder for ByteArrayDecoder<N> {
    open spec fn spec_min_len(s: Seq<u8>) -> nat {
        (N - s.len()) as nat
    }

    proof fn lemma_min_len(s: Seq<u8>, b: u8) {
    }

    fn min_required_bytes(&self) -> (r: usize) {
        N - self.len
    }
}

} // verus!
