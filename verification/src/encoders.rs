//! The encoders provided by this crate.

use vstd::prelude::*;

use crate::error::BufferOverflow;
use crate::{concat_chunks, starts_clean, Encoder, EncoderPositionTracker};

pub mod bytes;
pub mod combinators;
pub mod integer;
pub mod iter;

pub use bytes::ByteEncoder;
pub use bytes::ByteSource;
pub use bytes::BytesEncoder;
pub use integer::IntEncoder;
pub use iter::IterEncoder;

verus! {

/// The bytes `data` written over `buf` at position `pos`, leaving the rest
/// of `buf` alone.
pub open spec fn seq_splice(buf: Seq<u8>, pos: int, data: Seq<u8>) -> Seq<u8> {
    buf.take(pos) + data + buf.skip(pos + data.len())
}

/// The result of writing a sequence of chunks into a buffer at a position:
/// the buffer contents afterwards, and either the next write position or the
/// overflow error for the first chunk that does not fit (how many of its
/// bytes would land past the end).
pub open spec fn write_chunks(buf: Seq<u8>, pos: int, chunks: Seq<Seq<u8>>) -> (
    Seq<u8>,
    Result<int, BufferOverflow>,
)
    decreases chunks.len(),
{
    if chunks.len() == 0 {
        (buf, Ok(pos))
    } else if pos + chunks[0].len() > buf.len() {
        (buf, Err(BufferOverflow { bytes_past_end: (pos + chunks[0].len() - buf.len()) as usize }))
    } else {
        write_chunks(seq_splice(buf, pos, chunks[0]), pos + chunks[0].len(), chunks.drop_first())
    }
}

/// Consuming operations available on every encoder.
pub trait EncoderExt: Encoder {
    /// Wraps this encoder in a tracker that makes partial writes resumable.
    fn track_position(self) -> (r: EncoderPositionTracker<Self>)
        requires
            self.wf(),
            starts_clean(self),
        ensures
            r.wf(),
            r.emitted@ == Seq::<u8>::empty(),
            r.remaining() == concat_chunks(self.chunks()),
    ;

    /// Appends all encoded bytes to the vec.
    fn write_to_vec(self, buf: &mut Vec<u8>)
        requires
            self.wf(),
            starts_clean(self),
        ensures
            final(buf)@ == old(buf)@ + concat_chunks(self.chunks()),
    ;

    /// Writes all encoded bytes over `buf` starting at `pos`, without growing
    /// the buffer, and returns the position after the written bytes.
    ///
    /// # Errors
    ///
    /// Fails with [`BufferOverflow`] on the first chunk that does not fit;
    /// the chunks before it stay written.
    fn write_to_slice(self, buf: &mut Vec<u8>, pos: usize) -> (r: Result<usize, BufferOverflow>)
        requires
            self.wf(),
            starts_clean(self),
            pos <= old(buf)@.len(),
        ensures
            final(buf)@ == write_chunks(old(buf)@, pos as int, self.chunks()).0,
            match r {
                Ok(p2) => write_chunks(old(buf)@, pos as int, self.chunks()).1 == Ok::<
                    int,
                    BufferOverflow,
                >(p2 as int),
                Err(e) => write_chunks(old(buf)@, pos as int, self.chunks()).1 == Err::<
                    int,
                    BufferOverflow,
                >(e),
            },
    ;

    /// Chains an encoder built lazily by `second_encoder_constructor` after
    /// this one.
    ///
    /// This is plain sugar for tests and unverified callers; code that wants
    /// the full contract builds the combinator through
    /// [`combinators::Then::new`], handing it the chunks the constructor's
    /// encoder produces.
    fn then_with<B: Encoder, F: FnMut() -> B>(self, second_encoder_constructor: F) -> combinators::Then<
        Self,
        B,
        F,
    >;

    /// Chains another encoder after this one.
    fn chain<T2: Encoder>(self, second_encoder: T2) -> (r: combinators::Chain<Self, T2>)
        requires
            self.wf(),
            second_encoder.wf(),
            starts_clean(self),
            starts_clean(second_encoder),
        ensures
            r.wf(),
            r.chunks() == self.chunks() + second_encoder.chunks(),
            starts_clean(r),
    ;
}

impl<T: Encoder> EncoderExt for T {
    fn track_position(self) -> (r: EncoderPositionTracker<T>) {
        EncoderPositionTracker::new(self)
    }

    fn write_to_vec(self, buf: &mut Vec<u8>) {
        let mut enc = self;
        let mut more = !enc.encoded_chunk().is_empty();
        proof {
            enc.lemma_wf();
        }
        while more
            invariant
                enc.wf(),
                more == (enc.chunks().len() > 0),
                old(buf)@ + concat_chunks(self.chunks()) == buf@ + concat_chunks(enc.chunks()),
            decreases enc.chunks().len(),
        {
            proof {
                enc.lemma_wf();
            }
            let ghost pre = enc.chunks();
            let ghost buf0 = buf@;
            let c = enc.encoded_chunk();
            buf.extend_from_slice(c);
            more = enc.next();
            proof {
                assert(buf@ =~= buf0 + pre[0]);
                assert(buf@ + concat_chunks(enc.chunks()) =~= buf0 + concat_chunks(pre));
            }
        }
        proof {
            assert(final(buf)@ =~= old(buf)@ + concat_chunks(self.chunks()));
        }
    }

    fn write_to_slice(self, buf: &mut Vec<u8>, pos: usize) -> (r: Result<usize, BufferOverflow>) {
        let mut enc = self;
        let mut p = pos;
        let mut more = !enc.encoded_chunk().is_empty();
        proof {
            enc.lemma_wf();
        }
        while more
            invariant
                enc.wf(),
                more == (enc.chunks().len() > 0),
                p <= buf@.len(),
                write_chunks(old(buf)@, pos as int, self.chunks()) == write_chunks(
                    buf@,
                    p as int,
                    enc.chunks(),
                ),
            decreases enc.chunks().len(),
        {
            proof {
                enc.lemma_wf();
            }
            let ghost pre = enc.chunks();
            let ghost buf0 = buf@;
            let c = enc.encoded_chunk();
            let clen = c.len();
            if clen > buf.len() - p {
                proof {
                    assert(write_chunks(buf0, p as int, pre).1 == Err::<int, BufferOverflow>(
                        BufferOverflow { bytes_past_end: (p + clen - buf0.len()) as usize },
                    ));
                }
                return Err(BufferOverflow { bytes_past_end: clen - (buf.len() - p) });
            }
            let mut j: usize = 0;
            while j < clen
                invariant
                    j <= clen,
                    clen == c@.len(),
                    p + clen <= usize::MAX,
                    p + clen <= buf@.len(),
                    buf@.len() == buf0.len(),
                    forall|k: int|
                        0 <= k < buf@.len() ==> #[trigger] buf@[k] == (if p <= k < p + j {
                            c@[k - p]
                        } else {
                            buf0[k]
                        }),
                decreases clen - j,
            {
                buf.set(p + j, c[j]);
                j = j + 1;
            }
            proof {
                assert(buf@ =~= seq_splice(buf0, p as int, c@));
            }
            p = p + clen;
            more = enc.next();
        }
        proof {
            assert(enc.chunks().len() == 0);
        }
        Ok(p)
    }

    fn then_with<B: Encoder, F: FnMut() -> B>(self, second_encoder_constructor: F) -> combinators::Then<
        T,
        B,
        F,
    > {
        combinators::Then {
            state: combinators::ThenState::First(self, second_encoder_constructor),
            cont: Ghost(arbitrary()),
        }
    }

    fn chain<T2: Encoder>(self, second_encoder: T2) -> (r: combinators::Chain<T, T2>) {
        combinators::Chain::new(self, second_encoder)
    }
}

} // verus!
