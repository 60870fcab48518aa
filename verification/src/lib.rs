//! Push-based decoding and pull-based encoding.
//!
//! A [`Decoder`] is a state machine that consumes bytes pushed into it by the
//! caller and, once the stream ends, is finalized into a value.  An
//! [`Encoder`] is the mirror image: it hands out chunks of encoded bytes that
//! the caller writes wherever it wants.  Neither side performs any I/O, so the
//! same decoder or encoder definition can be driven by blocking readers,
//! manual feeding loops or asynchronous pollers.
//!
//! The behaviour of every decoder is pinned down by a byte-at-a-time
//! transition model over spec-level states: [`DecoderSpec::spec_step`] says
//! what offering a single byte does, [`spec_feed`] lifts that to whole chunks,
//! and each executable operation is contracted against the model.  The model
//! is what makes the central property of this crate provable: feeding an
//! input split into arbitrary chunks is indistinguishable from feeding it
//! whole (see [`lemma_feed_concat`] and [`lemma_feed_chunks`]).

use vstd::prelude::*;
use vstd::slice::slice_subrange;

pub mod decoders;
pub mod encoders;
pub mod error;
pub mod ints;
pub mod laws;

pub use decoders::combinators::DecoderExt;
pub use encoders::EncoderExt;

verus! {

/// What a decoder does when it is offered one more byte.
pub enum Step<S, E> {
    /// The byte was consumed and decoding goes on in the given state.
    More(S),
    /// The byte was refused: the decoder takes no further input.  The state
    /// may still settle internally, but it refuses every later byte as well.
    Stop(S),
    /// The byte (or an internal transition it forced) was invalid.
    Fail(E),
}

/// The byte-at-a-time transition model of a decoder.
///
/// Every decoder describes its own behaviour through these spec functions and
/// proves the laws about them.  The executable operations of [`Decoder`] are
/// contracted against this model.
pub trait DecoderSpec: Sized {
    /// The type of value produced by this decoder.
    type Value;

    /// Decoding error.
    type Error;

    /// Spec-level decoder state.
    type SpecState;

    /// Spec-level decoded value.
    type SpecValue;

    /// The spec-level state this decoder is currently in.
    spec fn model(&self) -> Self::SpecState;

    /// Well-formed decoders: ones whose fields agree with their model.  Every
    /// contract speaks only of well-formed decoders; a decoder that has
    /// reported an error is no longer well-formed and must be discarded.
    spec fn wf(&self) -> bool;

    /// The invariant of spec-level states reachable from well-formed
    /// decoders.
    spec fn spec_inv(s: Self::SpecState) -> bool;

    /// The spec-level meaning of a decoded value.
    spec fn spec_value(v: Self::Value) -> Self::SpecValue;

    /// The byte-at-a-time transition of this decoder.
    spec fn spec_step(s: Self::SpecState, b: u8) -> Step<Self::SpecState, Self::Error>;

    /// What finalizing the decoder in the given state returns.
    spec fn spec_finish(s: Self::SpecState) -> Result<Self::SpecValue, Self::Error>;

    /// Law: a well-formed decoder is in an invariant state.
    proof fn lemma_wf_inv(&self)
        requires
            self.wf(),
        ensures
            Self::spec_inv(self.model()),
    ;

    /// Law: stepping preserves the state invariant.
    proof fn lemma_step_inv(s: Self::SpecState, b: u8)
        requires
            Self::spec_inv(s),
        ensures
            match Self::spec_step(s, b) {
                Step::More(s2) => Self::spec_inv(s2),
                Step::Stop(s2) => Self::spec_inv(s2),
                Step::Fail(_) => true,
            },
    ;

    /// Law: once a decoder refuses a byte, it refuses every byte, without
    /// changing state or result again.
    proof fn lemma_stop_stable(s: Self::SpecState, b: u8, c: u8)
        requires
            Self::spec_inv(s),
        ensures
            match Self::spec_step(s, b) {
                Step::Stop(s2) => Self::spec_step(s2, c) == Step::<Self::SpecState, Self::Error>::Stop(s2)
                    && Self::spec_finish(s2) == Self::spec_finish(s),
                _ => true,
            },
    ;
}

/// The state and unread remainder after pushing a whole chunk into a decoder,
/// one byte at a time: bytes are consumed until the decoder refuses one, an
/// error occurs, or the chunk is exhausted.
pub open spec fn spec_feed<D: DecoderSpec>(
    s: D::SpecState,
    input: Seq<u8>,
) -> Result<(D::SpecState, Seq<u8>), D::Error>
    decreases input.len(),
{
    if input.len() == 0 {
        Ok((s, input))
    } else {
        match D::spec_step(s, input[0]) {
            Step::More(s2) => spec_feed::<D>(s2, input.drop_first()),
            Step::Stop(s2) => Ok((s2, input)),
            Step::Fail(e) => Err(e),
        }
    }
}

/// Full contract of [`Decoder::decode_chunk`]: on success the new state and
/// the unread remainder are exactly what the byte-at-a-time model prescribes;
/// on failure the model runs into the very same error.
pub open spec fn decode_chunk_post<D: DecoderSpec>(
    s0: D::SpecState,
    in0: Seq<u8>,
    s1: D::SpecState,
    in1: Seq<u8>,
    r: Result<(), D::Error>,
) -> bool {
    match r {
        Ok(()) => spec_feed::<D>(s0, in0) == Ok::<(D::SpecState, Seq<u8>), D::Error>((s1, in1)),
        Err(e) => spec_feed::<D>(s0, in0) == Err::<(D::SpecState, Seq<u8>), D::Error>(e),
    }
}

/// The spec-level meaning of a finalization result.
pub open spec fn spec_result<D: DecoderSpec>(
    r: Result<D::Value, D::Error>,
) -> Result<D::SpecValue, D::Error> {
    match r {
        Ok(v) => Ok(D::spec_value(v)),
        Err(e) => Err(e),
    }
}

/// A decoder consuming bytes pushed into it.
///
/// Implementations are one-shot, forward-only state machines.  A decoder must
/// never report an error merely because bytes are scarce: scarcity is only
/// turned into an error by [`Decoder::end`].  After a decoder has returned an
/// error it must be discarded; the contracts say nothing about such states
/// (they are no longer [`DecoderSpec::wf`]).
pub trait Decoder: DecoderSpec {
    /// Processes the next chunk of bytes and shrinks the slice to the unread
    /// remainder.
    ///
    /// If the slice is non-empty after this method returns, the decoder has
    /// finished decoding and the caller should pass the remainder elsewhere.
    ///
    /// # Errors
    ///
    /// An error is returned only if the bytes are invalid, never because too
    /// few bytes have arrived so far.
    fn decode_chunk(&mut self, bytes: &mut &[u8]) -> (r: Result<(), Self::Error>)
        requires
            old(self).wf(),
        ensures
            decode_chunk_post::<Self>(
                old(self).model(),
                old(bytes)@,
                final(self).model(),
                final(bytes)@,
                r,
            ),
            r is Ok ==> final(self).wf(),
    ;

    /// Called when decoding has ended or there are no more bytes.
    ///
    /// # Errors
    ///
    /// This returns an error if the bytes passed in so far do not form a
    /// complete valid value, most commonly because the stream ended too soon.
    fn end(self) -> (r: Result<Self::Value, Self::Error>)
        requires
            self.wf(),
        ensures
            spec_result::<Self>(r) == Self::spec_finish(self.model()),
    ;

    /// Resets the decoder to a fresh one, finalizing and returning the value
    /// decoded so far.
    ///
    /// Nothing is known about the fresh state beyond what the `Default`
    /// implementation states, so this is mainly for callers decoding a
    /// stream of values in a loop.
    fn take(&mut self) -> (r: Result<Self::Value, Self::Error>) where Self: core::default::Default
        requires
            old(self).wf(),
        ensures
            spec_result::<Self>(r) == Self::spec_finish(old(self).model()),
    {
        let mut d = Self::default();
        core::mem::swap(self, &mut d);
        d.end()
    }

    /// Processes the next chunk of bytes without updating the caller's slice,
    /// returning how many bytes were consumed instead.
    ///
    /// This form suits buffered readers: the count can be handed to the
    /// reader's own consume operation.
    fn bytes_received(&mut self, bytes: &[u8]) -> (r: Result<usize, Self::Error>)
        requires
            old(self).wf(),
        ensures
            match r {
                Ok(n) => {
                    &&& n <= bytes@.len()
                    &&& spec_feed::<Self>(old(self).model(), bytes@) == Ok::<
                        (Self::SpecState, Seq<u8>),
                        Self::Error,
                    >((final(self).model(), bytes@.skip(n as int)))
                    &&& final(self).wf()
                },
                Err(e) => spec_feed::<Self>(old(self).model(), bytes@) == Err::<
                    (Self::SpecState, Seq<u8>),
                    Self::Error,
                >(e),
            },
    {
        let prev_len = bytes.len();
        let mut view: &[u8] = bytes;
        match self.decode_chunk(&mut view) {
            Ok(()) => {
                proof {
                    old(self).lemma_wf_inv();
                    lemma_feed_frame::<Self>(old(self).model(), bytes@);
                }
                Ok(prev_len - view.len())
            },
            Err(e) => Err(e),
        }
    }

}

/// A decoder that knows the minimum number of bytes required for its state
/// to advance.
///
/// If [`KnownMinLenDecoder::min_required_bytes`] returns `n`, the next call
/// to [`Decoder::decode_chunk`] is guaranteed to consume at least `n` bytes
/// or fail; the implementations in this crate report the exact number of
/// bytes still consumed.  The bound is zero exactly when decoding can take no
/// further byte.  Callers use it to size read buffers without over-reading.
pub trait KnownMinLenDecoder: Decoder {
    /// The spec-level number of bytes the decoder in state `s` still
    /// consumes.
    spec fn spec_min_len(s: Self::SpecState) -> nat;

    /// Law: each consumed byte lowers the bound by exactly one, a decoder
    /// refuses bytes exactly when the bound is zero, and the bound stays zero
    /// from there on.
    proof fn lemma_min_len(s: Self::SpecState, b: u8)
        requires
            Self::spec_inv(s),
        ensures
            match Self::spec_step(s, b) {
                Step::More(s2) => Self::spec_min_len(s) > 0 && Self::spec_min_len(s2)
                    == Self::spec_min_len(s) - 1,
                Step::Stop(s2) => Self::spec_min_len(s) == 0 && Self::spec_min_len(s2) == 0,
                Step::Fail(_) => true,
            },
    ;

    /// Returns the minimum number of bytes known to be consumed by the next
    /// [`Decoder::decode_chunk`] call, saturated at `usize::MAX`.
    fn min_required_bytes(&self) -> (r: usize)
        requires
            self.wf(),
        ensures
            if Self::spec_min_len(self.model()) <= usize::MAX {
                r == Self::spec_min_len(self.model())
            } else {
                r == usize::MAX
            },
    ;

    /// Returns true if decoding ended: no further byte will be consumed.
    fn is_at_end(&self) -> (r: bool)
        requires
            self.wf(),
        ensures
            r == (Self::spec_min_len(self.model()) == 0),
    {
        self.min_required_bytes() == 0
    }
}

/// The relation between a byte stream fed into a decoder and the final
/// outcome: the decoder consumes what it takes from `input` and is finalized
/// afterwards.
pub open spec fn pull_outcome<D: DecoderSpec>(
    s0: D::SpecState,
    input: Seq<u8>,
    r: Result<D::SpecValue, D::Error>,
) -> bool {
    match spec_feed::<D>(s0, input) {
        Ok((s1, _)) => r == D::spec_finish(s1),
        Err(e) => r == Err::<D::SpecValue, D::Error>(e),
    }
}

/// Decodes a value by repeatedly pulling chunks of bytes from `reader` and
/// feeding them into `decoder`, asking for no more than `buf_len` bytes at a
/// time and never more than the decoder is known to consume, so the source
/// is not over-read.
///
/// `reader` is handed the wanted number of bytes and returns what it could
/// read; an empty result means the stream ended.  Whatever bytes the reader
/// produces, the result is the decoder's verdict on exactly the stream that
/// was fed, which the ghost part of the return value names.
///
/// # Errors
///
/// A reader failure is returned as [`ReadError::Read`]; invalid or missing
/// bytes as [`ReadError::Decode`].
pub fn sync_decode_with_zeroed_buffer<D: KnownMinLenDecoder, E, F: FnMut(usize) -> Result<
    Vec<u8>,
    E,
>>(decoder: D, buf_len: usize, reader: F) -> (r: (
    Result<D::Value, ReadError<D::Error, E>>,
    Ghost<Seq<u8>>,
))
    requires
        decoder.wf(),
        forall|n: usize| #[trigger] call_requires(reader, (n,)),
    ensures
        match r.0 {
            Ok(v) => pull_outcome::<D>(decoder.model(), r.1@, Ok(D::spec_value(v))),
            Err(ReadError::Decode(e)) => pull_outcome::<D>(decoder.model(), r.1@, Err(e)),
            Err(ReadError::Read(_)) => true,
        },
{
    let mut dec = decoder;
    let mut reader = reader;
    let ghost s0 = dec.model();
    let ghost mut fed: Seq<u8> = Seq::empty();
    proof {
        dec.lemma_wf_inv();
        assert(spec_feed::<D>(s0, fed) == Ok::<(D::SpecState, Seq<u8>), D::Error>((s0, fed)));
    }
    loop
        invariant
            dec.wf(),
            D::spec_inv(s0),
            s0 == decoder.model(),
            forall|n: usize| #[trigger] call_requires(reader, (n,)),
            exists|rest: Seq<u8>|
                spec_feed::<D>(s0, fed) == Ok::<(D::SpecState, Seq<u8>), D::Error>(
                    (dec.model(), rest),
                ),
        decreases D::spec_min_len(dec.model()),
    {
        proof {
            dec.lemma_wf_inv();
        }
        let m = dec.min_required_bytes();
        if m == 0 {
            break ;
        }
        let want = if buf_len < m {
            buf_len
        } else {
            m
        };
        if want == 0 {
            break ;
        }
        let chunk = match reader(want) {
            Ok(chunk) => chunk,
            Err(e) => {
                return (Err(ReadError::Read(e)), Ghost(fed));
            },
        };
        if chunk.len() == 0 {
            break ;
        }
        let ghost pre = dec.model();
        let ghost rest0: Seq<u8> = choose|rest: Seq<u8>|
            spec_feed::<D>(s0, fed) == Ok::<(D::SpecState, Seq<u8>), D::Error>((pre, rest));
        proof {
            lemma_feed_frame::<D>(s0, fed);
            lemma_feed_concat::<D>(s0, fed, chunk@);
            lemma_feed_min_len::<D>(pre, chunk@);
            if rest0.len() > 0 {
                lemma_feed_min_len::<D>(s0, fed);
            }
        }
        match dec.bytes_received(chunk.as_slice()) {
            Ok(_consumed) => {
                proof {
                    fed = fed + chunk@;
                }
            },
            Err(e) => {
                proof {
                    fed = fed + chunk@;
                    assert(pull_outcome::<D>(s0, fed, Err(e)));
                }
                return (Err(ReadError::Decode(e)), Ghost(fed));
            },
        }
    }
    match dec.end() {
        Ok(v) => {
            proof {
                assert(pull_outcome::<D>(s0, fed, Ok(D::spec_value(v))));
            }
            (Ok(v), Ghost(fed))
        },
        Err(e) => {
            proof {
                assert(pull_outcome::<D>(s0, fed, Err(e)));
            }
            (Err(ReadError::Decode(e)), Ghost(fed))
        },
    }
}

/// Minimum-length monotonicity: feeding a chunk lowers the bound by exactly
/// the number of bytes consumed, never below zero; if bytes were refused the
/// bound has reached zero.
pub proof fn lemma_feed_min_len<D: KnownMinLenDecoder>(s: D::SpecState, input: Seq<u8>)
    requires
        D::spec_inv(s),
    ensures
        match spec_feed::<D>(s, input) {
            Ok((s1, rest)) => {
                &&& rest.len() <= input.len()
                &&& input.len() - rest.len() <= D::spec_min_len(s)
                &&& D::spec_min_len(s1) == D::spec_min_len(s) - (input.len() - rest.len())
                &&& rest.len() > 0 ==> D::spec_min_len(s1) == 0
            },
            Err(_) => true,
        },
    decreases input.len(),
{
    if input.len() == 0 {
    } else {
        match D::spec_step(s, input[0]) {
            Step::More(s2) => {
                D::lemma_step_inv(s, input[0]);
                D::lemma_min_len(s, input[0]);
                lemma_feed_min_len::<D>(s2, input.drop_first());
            },
            Step::Stop(_) => {
                D::lemma_min_len(s, input[0]);
            },
            Step::Fail(_) => {},
        }
    }
}

/// The minimum-length bound is zero exactly at the terminal state: a decoder
/// reporting zero consumes no further byte, and a decoder that refuses a
/// byte reports zero.
pub proof fn lemma_min_len_zero<D: KnownMinLenDecoder>(s: D::SpecState, b: u8)
    requires
        D::spec_inv(s),
    ensures
        D::spec_min_len(s) == 0 ==> !(D::spec_step(s, b) is More),
        D::spec_step(s, b) is Stop ==> D::spec_min_len(s) == 0,
{
    D::lemma_min_len(s, b);
}

/// Frame facts about [`spec_feed`]: feeding preserves the invariant and the
/// remainder is always a suffix of the input.
pub proof fn lemma_feed_frame<D: DecoderSpec>(s: D::SpecState, input: Seq<u8>)
    requires
        D::spec_inv(s),
    ensures
        match spec_feed::<D>(s, input) {
            Ok((s1, rest)) => {
                &&& D::spec_inv(s1)
                &&& rest.len() <= input.len()
                &&& rest == input.skip(input.len() - rest.len())
            },
            Err(_) => true,
        },
    decreases input.len(),
{
    if input.len() == 0 {
        assert(input.skip(0) =~= input);
    } else {
        match D::spec_step(s, input[0]) {
            Step::More(s2) => {
                D::lemma_step_inv(s, input[0]);
                lemma_feed_frame::<D>(s2, input.drop_first());
                match spec_feed::<D>(s2, input.drop_first()) {
                    Ok((s1, rest)) => {
                        assert(input.drop_first().skip(input.drop_first().len() - rest.len())
                            =~= input.skip(input.len() - rest.len()));
                    },
                    Err(_) => {},
                }
            },
            Step::Stop(_) => {
                D::lemma_step_inv(s, input[0]);
                assert(input.skip(0) =~= input);
            },
            Step::Fail(_) => {},
        }
    }
}

/// Splitting law: feeding `a` and `b` one after the other is the same as
/// feeding `a + b` at once.
///
/// If feeding `a` errors, so does feeding `a + b`, with the same error.  If
/// feeding `a` consumed everything, feeding `a + b` continues exactly where
/// `a` ended.  If feeding `a` left a remainder, the decoder refuses all of
/// `b` as well and its state and result stay put.
pub proof fn lemma_feed_concat<D: DecoderSpec>(s: D::SpecState, a: Seq<u8>, b: Seq<u8>)
    requires
        D::spec_inv(s),
    ensures
        match spec_feed::<D>(s, a) {
            Ok((s1, rest1)) => {
                if rest1.len() == 0 {
                    spec_feed::<D>(s, a + b) == spec_feed::<D>(s1, b)
                } else {
                    spec_feed::<D>(s, a + b) == Ok::<(D::SpecState, Seq<u8>), D::Error>(
                        (s1, rest1 + b),
                    ) && spec_feed::<D>(s1, b) == Ok::<(D::SpecState, Seq<u8>), D::Error>((s1, b))
                }
            },
            Err(e) => spec_feed::<D>(s, a + b) == Err::<(D::SpecState, Seq<u8>), D::Error>(e),
        },
    decreases a.len(),
{
    if a.len() == 0 {
        assert(a + b =~= b);
    } else {
        assert((a + b)[0] == a[0]);
        match D::spec_step(s, a[0]) {
            Step::More(s2) => {
                D::lemma_step_inv(s, a[0]);
                assert(a.drop_first() + b =~= (a + b).drop_first());
                lemma_feed_concat::<D>(s2, a.drop_first(), b);
            },
            Step::Stop(s2) => {
                D::lemma_step_inv(s, a[0]);
                if b.len() > 0 {
                    D::lemma_stop_stable(s, a[0], b[0]);
                }
            },
            Step::Fail(_) => {},
        }
    }
}

/// The concatenation of a sequence of chunks.
pub open spec fn concat_chunks(chunks: Seq<Seq<u8>>) -> Seq<u8>
    decreases chunks.len(),
{
    if chunks.len() == 0 {
        Seq::empty()
    } else {
        chunks[0] + concat_chunks(chunks.drop_first())
    }
}

/// The decoder state after feeding a sequence of chunks in order, as a caller
/// driving [`Decoder::decode_chunk`] repeatedly does.
pub open spec fn spec_feed_all<D: DecoderSpec>(s: D::SpecState, chunks: Seq<Seq<u8>>) -> Result<
    D::SpecState,
    D::Error,
>
    decreases chunks.len(),
{
    if chunks.len() == 0 {
        Ok(s)
    } else {
        match spec_feed::<D>(s, chunks[0]) {
            Ok((s1, _)) => spec_feed_all::<D>(s1, chunks.drop_first()),
            Err(e) => Err(e),
        }
    }
}

/// Chunk-splitting invariance: decoding an input as one chunk ends in the
/// same state - and hence the same final value or error - as decoding it
/// split into any number of chunks fed in order, and errors agree as well.
pub proof fn lemma_feed_chunks<D: DecoderSpec>(s: D::SpecState, chunks: Seq<Seq<u8>>)
    requires
        D::spec_inv(s),
    ensures
        match (spec_feed::<D>(s, concat_chunks(chunks)), spec_feed_all::<D>(s, chunks)) {
            (Ok((s1, _)), Ok(s2)) => s1 == s2,
            (Err(e1), Err(e2)) => e1 == e2,
            _ => false,
        },
    decreases chunks.len(),
{
    if chunks.len() == 0 {
    } else {
        let tail = concat_chunks(chunks.drop_first());
        lemma_feed_concat::<D>(s, chunks[0], tail);
        match spec_feed::<D>(s, chunks[0]) {
            Ok((s1, rest1)) => {
                lemma_feed_frame::<D>(s, chunks[0]);
                lemma_feed_chunks::<D>(s1, chunks.drop_first());
            },
            Err(_) => {},
        }
    }
}

/// Returned when either reading or decoding fails.
#[derive(Debug, Clone, PartialEq, Eq)]
pub enum ReadError<Decode, Read> {
    /// Reading from a reader failed.
    Read(Read),
    /// Decoding the value failed.
    Decode(Decode),
}

impl<D, R> ReadError<D, R> {
    /// Converts the inner errors to another type `E`.
    pub fn convert_either<E: From<D> + From<R>>(self) -> (r: E)
        ensures
            self is Read && decoders::combinators::conv_ok::<E, R>() ==> r
                == decoders::combinators::spec_conv::<E, R>(self->Read_0),
            self is Decode && decoders::combinators::conv_ok::<E, D>() ==> r
                == decoders::combinators::spec_conv::<E, D>(self->Decode_0),
    {
        match self {
            ReadError::Read(error) => E::from(error),
            ReadError::Decode(error) => E::from(error),
        }
    }

    /// Converts the read error using a closure, leaving `Decode` intact.
    pub fn map_read<E, F: FnOnce(R) -> E>(self, map: F) -> (r: ReadError<D, E>)
        requires
            self matches ReadError::Read(e) ==> call_requires(map, (e,)),
        ensures
            match (self, r) {
                (ReadError::Read(e), ReadError::Read(e2)) => call_ensures(map, (e,), e2),
                (ReadError::Decode(e), ReadError::Decode(e2)) => e == e2,
                _ => false,
            },
    {
        match self {
            ReadError::Read(error) => ReadError::Read(map(error)),
            ReadError::Decode(error) => ReadError::Decode(error),
        }
    }

    /// Converts the decode error using a closure, leaving `Read` intact.
    pub fn map_decode<E, F: FnOnce(D) -> E>(self, map: F) -> (r: ReadError<E, R>)
        requires
            self matches ReadError::Decode(e) ==> call_requires(map, (e,)),
        ensures
            match (self, r) {
                (ReadError::Decode(e), ReadError::Decode(e2)) => call_ensures(map, (e,), e2),
                (ReadError::Read(e), ReadError::Read(e2)) => e == e2,
                _ => false,
            },
    {
        match self {
            ReadError::Read(error) => ReadError::Read(error),
            ReadError::Decode(error) => ReadError::Decode(map(error)),
        }
    }
}

impl<E> ReadError<E, core::convert::Infallible> {
    /// Reading cannot fail here, so only the decode error remains.
    pub fn into_decode(self) -> (r: E)
        requires
            self is Decode,
        ensures
            r == self->Decode_0,
    {
        match self {
            ReadError::Read(_) => vstd::pervasive::unreached(),
            ReadError::Decode(error) => error,
        }
    }
}

impl<E> ReadError<core::convert::Infallible, E> {
    /// Decoding cannot fail here, so only the read error remains.
    pub fn into_read(self) -> (r: E)
        requires
            self is Read,
        ensures
            r == self->Read_0,
    {
        match self {
            ReadError::Read(error) => error,
            ReadError::Decode(_) => vstd::pervasive::unreached(),
        }
    }
}

/// Marker for writers that are either buffered or do not pay a context
/// switch per call.
///
/// Writing one small chunk at a time is only sensible into such writers, so
/// the write helpers of the surrounding I/O adapters demand this marker.
pub trait BufWrite {
}

impl<'a, T: BufWrite> BufWrite for &'a mut T {
}

/// Wrapper for writers that the caller knows to be buffered.
///
/// Downstream users wrap foreign writer types in this to satisfy the
/// [`BufWrite`] constraint that orphan rules keep them from declaring
/// directly.
pub struct AssumeBuffered<T> {
    /// The wrapped writer.
    pub inner: T,
}

impl<T> AssumeBuffered<T> {
    /// Wraps a writer.
    pub fn new(writer: T) -> (r: Self)
        ensures
            r.inner == writer,
    {
        AssumeBuffered { inner: writer }
    }

    /// The wrapped writer.
    pub fn inner(&self) -> (r: &T)
        ensures
            r == &self.inner,
    {
        &self.inner
    }

    /// The wrapped writer, mutably.
    pub fn inner_mut(&mut self) -> (r: &mut T)
        ensures
            *r == old(self).inner,
            final(self).inner == *final(r),
    {
        &mut self.inner
    }

    /// Unwraps the writer.
    pub fn into_inner(self) -> (r: T)
        ensures
            r == self.inner,
    {
        self.inner
    }
}

impl<T> BufWrite for AssumeBuffered<T> {
}

/// A producer of encoded bytes, handed out one chunk at a time.
///
/// The behaviour of an encoder is pinned down by [`Encoder::chunks`], the
/// spec-level sequence of non-empty chunks it will still produce; their
/// concatenation ([`concat_chunks`]) is the bytes being encoded.  The caller
/// reads the current chunk with [`Encoder::encoded_chunk`], writes it
/// somewhere, and moves on with [`Encoder::next`].
///
/// Once the last chunk has been passed, [`Encoder::encoded_chunk`] may keep
/// returning leftover bytes ([`Encoder::chunk`] is unconstrained there);
/// [`Encoder::next`] said `false` and the caller must not read further.  A
/// freshly constructed encoder never starts in that ambiguous state: its
/// constructor states that an empty chunk means an empty chunk sequence.
pub trait Encoder: Sized {
    /// Well-formed encoders: ones whose fields agree with their model.
    spec fn wf(&self) -> bool;

    /// The chunks this encoder will still hand out, each non-empty.
    spec fn chunks(&self) -> Seq<Seq<u8>>;

    /// What [`Encoder::encoded_chunk`] currently returns.  Meaningful only
    /// while [`Encoder::chunks`] is non-empty; afterwards it is leftover
    /// noise.
    spec fn chunk(&self) -> Seq<u8>;

    /// Law: while chunks remain, the current chunk is the first of them, and
    /// every chunk is non-empty.
    proof fn lemma_wf(&self)
        requires
            self.wf(),
        ensures
            self.chunks().len() > 0 ==> self.chunk() == self.chunks()[0],
            forall|i: int| 0 <= i < self.chunks().len() ==> #[trigger] self.chunks()[i].len() > 0,
    ;

    /// Provides the current chunk of encoded bytes.
    ///
    /// The returned bytes are stable until [`Encoder::next`] is called.  An
    /// empty return value from a fresh or still-active encoder means there is
    /// no more data.
    fn encoded_chunk(&self) -> (r: &[u8])
        requires
            self.wf(),
        ensures
            r@ == self.chunk(),
    ;

    /// Advances to the next chunk, telling whether more data follows.
    ///
    /// Advancing past the end is allowed and keeps answering `false`.
    fn next(&mut self) -> (more: bool)
        requires
            old(self).wf(),
        ensures
            final(self).wf(),
            final(self).chunks() == (if old(self).chunks().len() > 0 {
                old(self).chunks().drop_first()
            } else {
                old(self).chunks()
            }),
            more == (final(self).chunks().len() > 0),
    ;
}

/// Whether an encoder is fresh enough to be handed to a consumer: if its
/// chunk sequence is empty, its current chunk is empty as well, so an empty
/// chunk unambiguously means "no more data".  Every constructor in this
/// crate states it; an encoder that was already driven past its last chunk
/// may not satisfy it.
pub open spec fn starts_clean<E: Encoder>(e: E) -> bool {
    e.chunks().len() == 0 ==> e.chunk().len() == 0
}

/// An [`Encoder`] wrapper that handles partial writes.
///
/// The wrapper tracks how far into the current chunk the caller has come, so
/// short writes, backpressure or interrupted I/O can resume exactly where
/// they stopped: all progress lives in the position, never in call-stack
/// state.  The ghost `emitted` records the bytes already handed out; together
/// with [`EncoderPositionTracker::remaining`] it always makes up the same
/// total stream, however the consuming steps are split.
pub struct EncoderPositionTracker<Enc> {
    /// The wrapped encoder.
    pub encoder: Enc,
    /// How far into the current chunk the caller has consumed.
    pub pos: usize,
    /// Whether the underlying encoder has run out of chunks.
    pub done: bool,
    /// The bytes consumed from this tracker so far.
    pub emitted: Ghost<Seq<u8>>,
}

impl<Enc: Encoder> EncoderPositionTracker<Enc> {
    /// Well-formed trackers.
    pub open spec fn wf(&self) -> bool {
        &&& self.encoder.wf()
        &&& self.done == (self.encoder.chunks().len() == 0)
        &&& !self.done ==> self.pos < self.encoder.chunks()[0].len()
    }

    /// The bytes this tracker will still hand out.
    pub open spec fn remaining(&self) -> Seq<u8> {
        if self.encoder.chunks().len() > 0 {
            self.encoder.chunks()[0].skip(self.pos as int) + concat_chunks(
                self.encoder.chunks().drop_first(),
            )
        } else {
            Seq::empty()
        }
    }

    /// Wraps a fresh encoder.
    pub fn new(encoder: Enc) -> (r: Self)
        requires
            encoder.wf(),
            starts_clean(encoder),
        ensures
            r.wf(),
            r.emitted@ == Seq::<u8>::empty(),
            r.remaining() == concat_chunks(encoder.chunks()),
    {
        proof {
            encoder.lemma_wf();
        }
        let done = encoder.encoded_chunk().is_empty();
        let r = EncoderPositionTracker { encoder, pos: 0, done, emitted: Ghost(Seq::empty()) };
        proof {
            if r.encoder.chunks().len() > 0 {
                assert(r.encoder.chunks()[0].skip(0) =~= r.encoder.chunks()[0]);
                assert(concat_chunks(r.encoder.chunks()) == r.encoder.chunks()[0] + concat_chunks(
                    r.encoder.chunks().drop_first(),
                ));
            }
        }
        r
    }

    /// Returns the not yet processed part of the current chunk.
    ///
    /// The returned bytes should be processed, for example by writing them
    /// into a writer.  An empty return value means there are no more bytes at
    /// all.
    pub fn encoded_chunk(&self) -> (r: &[u8])
        requires
            self.wf(),
        ensures
            r@ == (if self.remaining().len() > 0 {
                self.encoder.chunks()[0].skip(self.pos as int)
            } else {
                Seq::<u8>::empty()
            }),
            r@.len() <= self.remaining().len(),
            r@ == self.remaining().take(r@.len() as int),
            r@.len() == 0 <==> self.remaining().len() == 0,
    {
        proof {
            self.encoder.lemma_wf();
            if self.encoder.chunks().len() > 0 {
                assert(self.remaining().len() > 0);
                assert(self.remaining().take(
                    self.encoder.chunks()[0].skip(self.pos as int).len() as int,
                ) =~= self.encoder.chunks()[0].skip(self.pos as int));
            }
        }
        let c = self.encoder.encoded_chunk();
        if self.done {
            slice_subrange(c, c.len(), c.len())
        } else {
            slice_subrange(c, self.pos, c.len())
        }
    }

    /// Marks `amount` bytes of the current chunk as processed.
    ///
    /// The caller invokes this after (partially) processing the bytes that
    /// [`EncoderPositionTracker::encoded_chunk`] returned, usually with the
    /// number a write call reported.  However the stream is split into
    /// `consume` steps, the consumed bytes and the remaining ones always make
    /// up the same total: what was emitted grows by exactly the consumed
    /// prefix and the remainder shrinks by it.
    pub fn consume(&mut self, amount: usize)
        requires
            old(self).wf(),
            amount <= (if old(self).encoder.chunks().len() > 0 {
                old(self).encoder.chunks()[0].len() - old(self).pos
            } else {
                0
            }),
        ensures
            final(self).wf(),
            final(self).emitted@ == old(self).emitted@ + old(self).remaining().take(amount as int),
            final(self).remaining() == old(self).remaining().skip(amount as int),
    {
        proof {
            self.encoder.lemma_wf();
        }
        if !self.done {
            let ghost pre = *self;
            let c_len = self.encoder.encoded_chunk().len();
            self.pos = self.pos + amount;
            proof {
                self.emitted = Ghost(
                    self.emitted@ + self.encoder.chunks()[0].subrange(
                        pre.pos as int,
                        self.pos as int,
                    ),
                );
            }
            if self.pos >= c_len {
                let more = self.encoder.next();
                if more {
                    self.pos = 0;
                } else {
                    self.done = true;
                }
                proof {
                    self.encoder.lemma_wf();
                    lemma_consume_step(pre, *self, amount);
                }
            } else {
                proof {
                    lemma_consume_stay(pre, *self, amount);
                }
            }
        } else {
            proof {
                assert(old(self).remaining().take(0) =~= Seq::<u8>::empty());
                assert(old(self).emitted@ + Seq::<u8>::empty() =~= old(self).emitted@);
                assert(old(self).remaining().skip(0) =~= old(self).remaining());
            }
        }
    }
}

/// Resumable partial writes: however the consuming steps split the stream,
/// after each step the bytes already emitted and the bytes still remaining
/// rebuild exactly the stream held before it.  Together with the contract of
/// [`EncoderPositionTracker::consume`], the total byte sequence a caller
/// collects is independent of how the writes were split.
pub proof fn lemma_tracker_split(emitted: Seq<u8>, remaining: Seq<u8>, amount: int)
    requires
        0 <= amount <= remaining.len(),
    ensures
        (emitted + remaining.take(amount)) + remaining.skip(amount) == emitted + remaining,
{
    assert((emitted + remaining.take(amount)) + remaining.skip(amount) =~= emitted + remaining);
}

/// Consuming to the end of the current chunk and advancing the encoder moves
/// exactly the consumed bytes from the remainder to the emitted stream.
proof fn lemma_consume_step<Enc: Encoder>(
    pre: EncoderPositionTracker<Enc>,
    post: EncoderPositionTracker<Enc>,
    amount: usize,
)
    requires
        pre.wf(),
        !pre.done,
        amount == pre.encoder.chunks()[0].len() - pre.pos,
        post.encoder.wf(),
        post.encoder.chunks() == pre.encoder.chunks().drop_first(),
        post.done == (post.encoder.chunks().len() == 0),
        !post.done ==> post.pos == 0,
        post.emitted@ == pre.emitted@ + pre.encoder.chunks()[0].subrange(
            pre.pos as int,
            pre.encoder.chunks()[0].len() as int,
        ),
    ensures
        post.wf(),
        post.emitted@ == pre.emitted@ + pre.remaining().take(amount as int),
        post.remaining() == pre.remaining().skip(amount as int),
{
    pre.encoder.lemma_wf();
    post.encoder.lemma_wf();
    let c0 = pre.encoder.chunks()[0];
    assert(c0.skip(pre.pos as int).len() == amount);
    assert(pre.remaining().take(amount as int) =~= c0.subrange(pre.pos as int, c0.len() as int));
    assert(pre.remaining().skip(amount as int) =~= concat_chunks(pre.encoder.chunks().drop_first()));
    if post.encoder.chunks().len() > 0 {
        assert(concat_chunks(post.encoder.chunks()) == post.encoder.chunks()[0] + concat_chunks(
            post.encoder.chunks().drop_first(),
        ));
        assert(post.remaining() =~= concat_chunks(post.encoder.chunks()));
    }
}

/// Consuming part of the current chunk moves exactly the consumed bytes from
/// the remainder to the emitted stream.
proof fn lemma_consume_stay<Enc: Encoder>(
    pre: EncoderPositionTracker<Enc>,
    post: EncoderPositionTracker<Enc>,
    amount: usize,
)
    requires
        pre.wf(),
        !pre.done,
        post.pos == pre.pos + amount,
        post.pos < pre.encoder.chunks()[0].len(),
        post.encoder == pre.encoder,
        post.done == pre.done,
        post.emitted@ == pre.emitted@ + pre.encoder.chunks()[0].subrange(
            pre.pos as int,
            post.pos as int,
        ),
    ensures
        post.wf(),
        post.emitted@ == pre.emitted@ + pre.remaining().take(amount as int),
        post.remaining() == pre.remaining().skip(amount as int),
{
    pre.encoder.lemma_wf();
    let c0 = pre.encoder.chunks()[0];
    assert(pre.remaining().take(amount as int) =~= c0.subrange(pre.pos as int, post.pos as int));
    assert(pre.remaining().skip(amount as int) =~= post.remaining());
}

} // verus!
