use vstd::prelude::*;
use vstd::slice::slice_subrange;

use crate::error::UnexpectedEnd;
use crate::{spec_feed, Decoder, DecoderSpec, KnownMinLenDecoder, Step};

verus! {

/// Decodes a single byte.
///
/// The decoder consumes at most one byte in total and ignores any further
/// bytes offered to it once filled.
#[derive(Debug, Clone, Copy, PartialEq, Eq, Structural)]
pub struct U8Decoder {
    /// The byte received so far, if any.
    pub buf: Option<u8>,
}

impl U8Decoder {
    /// Creates an empty decoder.
    pub fn new() -> (r: Self)
        ensures
            r.wf(),
            r.buf is None,
    {
        U8Decoder { buf: None }
    }
}

impl Default for U8Decoder {
    fn default() -> (r: Self)
        ensures
            r.wf(),
            r.buf is None,
    {
        Self::new()
    }
}

impl DecoderSpec for U8Decoder {
    type Value = u8;

    type Error = UnexpectedEnd;

    type SpecState = Option<u8>;

    type SpecValue = u8;

    open spec fn model(&self) -> Option<u8> {
        self.buf
    }

    open spec fn wf(&self) -> bool {
        true
    }

    open spec fn spec_inv(s: Option<u8>) -> bool {
        true
    }

    open spec fn spec_value(v: u8) -> u8 {
        v
    }

    open spec fn spec_step(s: Option<u8>, b: u8) -> Step<Option<u8>, UnexpectedEnd> {
        match s {
            None => Step::More(Some(b)),
            Some(_) => Step::Stop(s),
        }
    }

    open spec fn spec_finish(s: Option<u8>) -> Result<u8, UnexpectedEnd> {
        match s {
            Some(b) => Ok(b),
            None => Err(UnexpectedEnd { missing: 1 }),
        }
    }

    proof fn lemma_wf_inv(&self) {
    }

    proof fn lemma_step_inv(s: Option<u8>, b: u8) {
    }

    proof fn lemma_stop_stable(s: Option<u8>, b: u8, c: u8) {
    }
}

impl Decoder for U8Decoder {
    fn decode_chunk(&mut self, bytes: &mut &[u8]) -> (r: Result<(), UnexpectedEnd>) {
        if self.buf.is_none() && (*bytes).len() > 0 {
            let b: u8 = (*bytes)[0];
            self.buf = Some(b);
            *bytes = slice_subrange(*bytes, 1, (*bytes).len());
            proof {
                let s2 = Some(b);
                assert(final(bytes)@ =~= old(bytes)@.drop_first());
                if final(bytes)@.len() > 0 {
                    assert(Self::spec_step(s2, final(bytes)@[0]) == Step::<Option<u8>, UnexpectedEnd>::Stop(s2));
                }
                assert(spec_feed::<Self>(s2, final(bytes)@) == Ok::<(Option<u8>, Seq<u8>), UnexpectedEnd>(
                    (s2, final(bytes)@),
                ));
            }
        } else {
            proof {
                if (*bytes)@.len() > 0 && old(self).buf is Some {
                    assert(Self::spec_step(old(self).model(), (*bytes)@[0]) == Step::<
                        Option<u8>,
                        UnexpectedEnd,
                    >::Stop(old(self).model()));
                }
            }
        }
        Ok(())
    }

    fn end(self) -> (r: Result<u8, UnexpectedEnd>) {
        match self.buf {
            Some(b) => Ok(b),
            None => Err(UnexpectedEnd { missing: 1 }),
        }
    }
}

impl KnownMinLenDecoder for U8Decoder {
    open spec fn spec_min_len(s: Option<u8>) -> nat {
        match s {
            None => 1,
            Some(_) => 0,
        }
    }

    proof fn lemma_min_len(s: Option<u8>, b: u8) {
    }

    fn min_required_bytes(&self) -> (r: usize) {
        match self.buf {
            None => 1,
            Some(_) => 0,
        }
    }
}

} // verus!
