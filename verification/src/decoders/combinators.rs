//! Combinators that sequence decoders.

use vstd::prelude::*;

use crate::error::StageError;
use crate::{spec_feed, Decoder, DecoderSpec, KnownMinLenDecoder, Step};

verus! {

/// The exec state of [`Chain`].
pub enum ChainState<A: DecoderSpec, B: DecoderSpec> {
    /// The first decoder is still consuming bytes.
    First(A, B),
    /// The first decoder has been finalized into its value; the second one is
    /// consuming bytes.
    Second(A::Value, B),
    /// A sub-decoder reported an error and the pipeline was not discarded.
    Errored,
    /// An internal transition was interrupted.  Observable only if a
    /// sub-decoder panicked mid-transition.
    Panicked,
}

/// The spec-level state of [`Chain`].
pub enum ChainSpecState<SA, VA, SB> {
    /// First stage active: its state, and the pristine second state.
    First(SA, SB),
    /// Second stage active: the first stage's value and the second's state.
    Second(VA, SB),
    /// Sink state for pipelines that failed.
    Failed,
}

/// Runs two decoders in sequence and produces the pair of their values.
///
/// All bytes are fed to the first decoder until it refuses one; it is
/// finalized on the spot and every remaining byte goes to the second decoder.
pub struct Chain<First: DecoderSpec, Second: DecoderSpec>(pub ChainState<First, Second>);

impl<First: DecoderSpec, Second: DecoderSpec> Chain<First, Second> {
    /// Creates a chain of two decoders.
    pub fn new(first: First, second: Second) -> (r: Self)
        requires
            first.wf(),
            second.wf(),
        ensures
            r.wf(),
            r.model() == ChainSpecState::<First::SpecState, First::SpecValue, Second::SpecState>::First(
                first.model(),
                second.model(),
            ),
    {
        Chain(ChainState::First(first, second))
    }
}

impl<First: DecoderSpec, Second: DecoderSpec> DecoderSpec for Chain<First, Second> {
    type Value = (First::Value, Second::Value);

    type Error = StageError<First::Error, Second::Error>;

    type SpecState = ChainSpecState<First::SpecState, First::SpecValue, Second::SpecState>;

    type SpecValue = (First::SpecValue, Second::SpecValue);

    open spec fn model(&self) -> Self::SpecState {
        match self.0 {
            ChainState::First(a, b) => ChainSpecState::First(a.model(), b.model()),
            ChainState::Second(v, b) => ChainSpecState::Second(First::spec_value(v), b.model()),
            ChainState::Errored => ChainSpecState::Failed,
            ChainState::Panicked => ChainSpecState::Failed,
        }
    }

    open spec fn wf(&self) -> bool {
        match self.0 {
            ChainState::First(a, b) => a.wf() && b.wf(),
            ChainState::Second(v, b) => b.wf(),
            ChainState::Errored => false,
            ChainState::Panicked => false,
        }
    }

    open spec fn spec_inv(s: Self::SpecState) -> bool {
        match s {
            ChainSpecState::First(sa, sb) => First::spec_inv(sa) && Second::spec_inv(sb),
            ChainSpecState::Second(v, sb) => Second::spec_inv(sb),
            ChainSpecState::Failed => false,
        }
    }

    open spec fn spec_value(v: Self::Value) -> Self::SpecValue {
        (First::spec_value(v.0), Second::spec_value(v.1))
    }

    open spec fn spec_step(s: Self::SpecState, b: u8) -> Step<Self::SpecState, Self::Error> {
        match s {
            ChainSpecState::First(sa, sb) => match First::spec_step(sa, b) {
                Step::More(sa2) => Step::More(ChainSpecState::First(sa2, sb)),
                Step::Fail(e) => Step::Fail(StageError::First(e)),
                Step::Stop(sa2) => match First::spec_finish(sa2) {
                    Err(e) => Step::Fail(StageError::First(e)),
                    Ok(v) => match Second::spec_step(sb, b) {
                        Step::More(sb2) => Step::More(ChainSpecState::Second(v, sb2)),
                        Step::Stop(sb2) => Step::Stop(ChainSpecState::Second(v, sb2)),
                        Step::Fail(e) => Step::Fail(StageError::Second(e)),
                    },
                },
            },
            ChainSpecState::Second(v, sb) => match Second::spec_step(sb, b) {
                Step::More(sb2) => Step::More(ChainSpecState::Second(v, sb2)),
                Step::Stop(sb2) => Step::Stop(ChainSpecState::Second(v, sb2)),
                Step::Fail(e) => Step::Fail(StageError::Second(e)),
            },
            ChainSpecState::Failed => Step::Stop(s),
        }
    }

    open spec fn spec_finish(s: Self::SpecState) -> Result<Self::SpecValue, Self::Error> {
        match s {
            ChainSpecState::First(sa, sb) => match First::spec_finish(sa) {
                Err(e) => Err(StageError::First(e)),
                Ok(v) => match Second::spec_finish(sb) {
                    Err(e) => Err(StageError::Second(e)),
                    Ok(w) => Ok((v, w)),
                },
            },
            ChainSpecState::Second(v, sb) => match Second::spec_finish(sb) {
                Err(e) => Err(StageError::Second(e)),
                Ok(w) => Ok((v, w)),
            },
            ChainSpecState::Failed => Err(arbitrary()),
        }
    }

    proof fn lemma_wf_inv(&self) {
        match self.0 {
            ChainState::First(a, b) => {
                a.lemma_wf_inv();
                b.lemma_wf_inv();
            },
            ChainState::Second(v, b) => {
                b.lemma_wf_inv();
            },
            ChainState::Errored => {},
            ChainState::Panicked => {},
        }
    }

    proof fn lemma_step_inv(s: Self::SpecState, b: u8) {
        match s {
            ChainSpecState::First(sa, sb) => {
                First::lemma_step_inv(sa, b);
                Second::lemma_step_inv(sb, b);
            },
            ChainSpecState::Second(v, sb) => {
                Second::lemma_step_inv(sb, b);
            },
            ChainSpecState::Failed => {},
        }
    }

    proof fn lemma_stop_stable(s: Self::SpecState, b: u8, c: u8) {
        match s {
            ChainSpecState::First(sa, sb) => {
                First::lemma_step_inv(sa, b);
                First::lemma_stop_stable(sa, b, c);
                Second::lemma_step_inv(sb, b);
                Second::lemma_stop_stable(sb, b, c);
            },
            ChainSpecState::Second(v, sb) => {
                Second::lemma_step_inv(sb, b);
                Second::lemma_stop_stable(sb, b, c);
            },
            ChainSpecState::Failed => {},
        }
    }
}

/// Feeding a chain whose second stage is active mirrors feeding the second
/// decoder alone, with the first stage's value carried along.
pub proof fn lemma_chain_feed_second<First: DecoderSpec, Second: DecoderSpec>(
    v: First::SpecValue,
    sb: Second::SpecState,
    input: Seq<u8>,
)
    ensures
        spec_feed::<Chain<First, Second>>(ChainSpecState::Second(v, sb), input) == (
        match spec_feed::<Second>(sb, input) {
            Ok((sb2, rest)) => Ok::<_, StageError<First::Error, Second::Error>>(
                (ChainSpecState::<First::SpecState, First::SpecValue, Second::SpecState>::Second(v, sb2), rest),
            ),
            Err(e) => Err(StageError::Second(e)),
        }),
    decreases input.len(),
{
    if input.len() == 0 {
    } else {
        match Second::spec_step(sb, input[0]) {
            Step::More(sb2) => {
                lemma_chain_feed_second::<First, Second>(v, sb2, input.drop_first());
            },
            Step::Stop(_) => {},
            Step::Fail(_) => {},
        }
    }
}

/// Feeding a chain whose first stage is active mirrors feeding the first
/// decoder alone and, once it refuses a byte, finalizing it and feeding the
/// remainder to the second decoder.
pub proof fn lemma_chain_feed_first<First: DecoderSpec, Second: DecoderSpec>(
    sa: First::SpecState,
    sb: Second::SpecState,
    input: Seq<u8>,
)
    ensures
        match spec_feed::<First>(sa, input) {
            Err(e) => spec_feed::<Chain<First, Second>>(ChainSpecState::First(sa, sb), input)
                == Err::<(ChainSpecState<First::SpecState, First::SpecValue, Second::SpecState>, Seq<u8>), _>(
                StageError::<First::Error, Second::Error>::First(e),
            ),
            Ok((sa2, rest)) => {
                if rest.len() == 0 {
                    spec_feed::<Chain<First, Second>>(ChainSpecState::First(sa, sb), input) == Ok::<
                        _,
                        StageError<First::Error, Second::Error>,
                    >((
                        ChainSpecState::<First::SpecState, First::SpecValue, Second::SpecState>::First(sa2, sb),
                        rest,
                    ))
                } else {
                    match First::spec_finish(sa2) {
                        Err(e) => spec_feed::<Chain<First, Second>>(
                            ChainSpecState::First(sa, sb),
                            input,
                        ) == Err::<
                            (ChainSpecState<First::SpecState, First::SpecValue, Second::SpecState>, Seq<u8>),
                            _,
                        >(StageError::<First::Error, Second::Error>::First(e)),
                        Ok(v) => spec_feed::<Chain<First, Second>>(
                            ChainSpecState::First(sa, sb),
                            input,
                        ) == (match spec_feed::<Second>(sb, rest) {
                            Ok((sb2, rest2)) => Ok::<_, StageError<First::Error, Second::Error>>(
                                (
                                    ChainSpecState::<
                                        First::SpecState,
                                        First::SpecValue,
                                        Second::SpecState,
                                    >::Second(v, sb2),
                                    rest2,
                                ),
                            ),
                            Err(e) => Err(StageError::Second(e)),
                        }),
                    }
                }
            },
        },
    decreases input.len(),
{
    if input.len() == 0 {
    } else {
        match First::spec_step(sa, input[0]) {
            Step::More(sa2) => {
                lemma_chain_feed_first::<First, Second>(sa2, sb, input.drop_first());
            },
            Step::Fail(_) => {},
            Step::Stop(sa2) => {
                match First::spec_finish(sa2) {
                    Err(_) => {},
                    Ok(v) => {
                        match Second::spec_step(sb, input[0]) {
                            Step::More(sb2) => {
                                lemma_chain_feed_second::<First, Second>(
                                    v,
                                    sb2,
                                    input.drop_first(),
                                );
                            },
                            Step::Stop(_) => {},
                            Step::Fail(_) => {},
                        }
                    },
                }
            },
        }
    }
}

impl<First: KnownMinLenDecoder, Second: KnownMinLenDecoder> KnownMinLenDecoder for Chain<
    First,
    Second,
> {
    open spec fn spec_min_len(s: Self::SpecState) -> nat {
        match s {
            ChainSpecState::First(sa, sb) => First::spec_min_len(sa) + Second::spec_min_len(sb),
            ChainSpecState::Second(v, sb) => Second::spec_min_len(sb),
            ChainSpecState::Failed => 0,
        }
    }

    proof fn lemma_min_len(s: Self::SpecState, b: u8) {
        match s {
            ChainSpecState::First(sa, sb) => {
                First::lemma_min_len(sa, b);
                Second::lemma_min_len(sb, b);
            },
            ChainSpecState::Second(v, sb) => {
                Second::lemma_min_len(sb, b);
            },
            ChainSpecState::Failed => {},
        }
    }

    fn min_required_bytes(&self) -> (r: usize) {
        match &self.0 {
            ChainState::First(a, b) => a.min_required_bytes().saturating_add(
                b.min_required_bytes(),
            ),
            ChainState::Second(v, b) => b.min_required_bytes(),
            ChainState::Errored => vstd::pervasive::unreached(),
            ChainState::Panicked => vstd::pervasive::unreached(),
        }
    }
}

/// Combinator sugar available on every decoder.
///
/// These are the method forms of the combinator constructors.  [`Then`] and
/// [`ThenTry`] built this way carry no spec-level continuation, so nothing is
/// known about them in contracts; code that wants the full contract uses
/// [`Then::new`] or [`ThenTry::new`] and hands over the continuation.
pub trait DecoderExt: Decoder {
    /// Chains another decoder after this one to decode two values.
    fn chain<D: Decoder>(self, following: D) -> (r: Chain<Self, D>)
        requires
            self.wf(),
            following.wf(),
        ensures
            r.wf(),
            r.model() == ChainSpecState::<Self::SpecState, Self::SpecValue, D::SpecState>::First(
                self.model(),
                following.model(),
            ),
    ;

    /// Chains a decoder built from this one's value after this one finishes.
    fn then_with<R: Decoder, F: FnOnce(Self::Value) -> R>(self, fun: F) -> Then<Self, R, F>;

    /// Chains a decoder built fallibly from this one's value after this one
    /// finishes, unifying all errors into `E`.
    fn then_try<E: From<Self::Error> + From<R::Error>, R: Decoder, F: FnOnce(Self::Value) -> Result<
        R,
        E,
    >>(self, fun: F) -> ThenTry<E, Self, R, F>;

    /// Decodes one value from a lower-level decoder inside a larger state
    /// machine.
    ///
    /// Feeds the chunk in; if bytes are left over, the value is complete and
    /// is handed out as `Continue` while the decoder resets to its default.
    /// Otherwise decoding breaks off for this round: `Break(Ok(()))` asks
    /// for more bytes, and any error is converted through `map_err` and
    /// breaks off decoding for good.
    fn sub_decode<E, F: FnMut(Self::Error) -> E>(
        &mut self,
        bytes: &mut &[u8],
        map_err: F,
    ) -> (r: core::ops::ControlFlow<Result<(), E>, Self::Value>) where Self: Default
        requires
            old(self).wf(),
            forall|e: Self::Error| #[trigger] call_requires(map_err, (e,)),
        ensures
            match r {
                core::ops::ControlFlow::Continue(v) => spec_feed::<Self>(
                    old(self).model(),
                    old(bytes)@,
                ) matches Ok((s1, rest)) && rest.len() > 0 && final(bytes)@ == rest
                    && Self::spec_finish(s1) == Ok::<Self::SpecValue, Self::Error>(
                    Self::spec_value(v),
                ),
                core::ops::ControlFlow::Break(Ok(())) => spec_feed::<Self>(
                    old(self).model(),
                    old(bytes)@,
                ) matches Ok((s1, rest)) && rest.len() == 0 && final(self).model() == s1
                    && final(self).wf(),
                core::ops::ControlFlow::Break(Err(e2)) => match spec_feed::<Self>(
                    old(self).model(),
                    old(bytes)@,
                ) {
                    Err(e) => call_ensures(map_err, (e,), e2),
                    Ok((s1, rest)) => rest.len() > 0 && match Self::spec_finish(s1) {
                        Err(e) => call_ensures(map_err, (e,), e2),
                        Ok(_) => false,
                    },
                },
            },
    ;
}

impl<T: Decoder> DecoderExt for T {
    fn chain<D: Decoder>(self, following: D) -> (r: Chain<T, D>) {
        Chain::new(self, following)
    }

    fn then_with<R: Decoder, F: FnOnce(T::Value) -> R>(self, fun: F) -> Then<T, R, F> {
        Then { state: ThenState::First(self, fun), cont: Ghost(arbitrary()) }
    }

    fn then_try<E: From<T::Error> + From<R::Error>, R: Decoder, F: FnOnce(T::Value) -> Result<
        R,
        E,
    >>(self, fun: F) -> ThenTry<E, T, R, F> {
        ThenTry { state: ThenTryState::First(self, fun), cont: Ghost(arbitrary()) }
    }

    fn sub_decode<E, F: FnMut(T::Error) -> E>(
        &mut self,
        bytes: &mut &[u8],
        mut map_err: F,
    ) -> (r: core::ops::ControlFlow<Result<(), E>, T::Value>) where T: Default {
        match self.decode_chunk(bytes) {
            Err(error) => {
                return core::ops::ControlFlow::Break(Err(map_err(error)));
            },
            Ok(()) => {},
        }
        if (*bytes).len() == 0 {
            core::ops::ControlFlow::Break(Ok(()))
        } else {
            match self.take() {
                Ok(value) => core::ops::ControlFlow::Continue(value),
                Err(error) => core::ops::ControlFlow::Break(Err(map_err(error))),
            }
        }
    }
}

/// The exec state of [`Then`].
pub enum ThenState<First: DecoderSpec, Second: DecoderSpec, Fun> {
    /// The first decoder is still consuming bytes; the constructor for the
    /// second decoder waits beside it.
    First(First, Fun),
    /// The second decoder is consuming bytes.
    Second(Second),
    /// A sub-decoder reported an error and the pipeline was not discarded.
    Errored,
    /// An internal transition was interrupted.
    Panicked,
}

/// The spec-level state of [`Then`]: the continuation is carried as a
/// spec-level function from the first stage's value to the second stage's
/// starting state.
#[verifier::reject_recursive_types(VA)]
pub enum ThenSpecState<SA, VA, SB> {
    /// First stage active.
    First(SA, spec_fn(VA) -> SB),
    /// Second stage active.
    Second(SB),
    /// Sink state for pipelines that failed.
    Failed,
}

/// What [`Then`] requires of its constructor closure: it must be callable on
/// every value, every decoder it builds must be well-formed, and the model of
/// that decoder must agree with the spec-level continuation `c`.
pub open spec fn then_fun_ok<First: DecoderSpec, Second: DecoderSpec, Fun: FnOnce(
    First::Value,
) -> Second>(fun: Fun, c: spec_fn(First::SpecValue) -> Second::SpecState) -> bool {
    &&& forall|v: First::Value| #[trigger] call_requires(fun, (v,))
    &&& forall|v: First::Value, b2: Second|
        #[trigger] call_ensures(fun, (v,), b2) ==> b2.wf() && b2.model() == c(
            First::spec_value(v),
        )
    &&& forall|v1: First::SpecValue| Second::spec_inv(#[trigger] c(v1))
}

/// Runs two decoders in sequence, where the second decoder is built from the
/// first one's value, and produces the second decoder's value.
///
/// This enables the "read a length, read that many bytes afterwards" pattern:
/// the shape of the second decoder is chosen by the first one's result.
pub struct Then<First: DecoderSpec, Second: DecoderSpec, Fun> {
    /// The sequencing state.
    pub state: ThenState<First, Second, Fun>,
    /// The spec-level continuation the constructor closure follows.
    pub cont: Ghost<spec_fn(First::SpecValue) -> Second::SpecState>,
}

impl<First: DecoderSpec, Second: DecoderSpec, Fun: FnOnce(First::Value) -> Second> Then<
    First,
    Second,
    Fun,
> {
    /// Creates the combinator from the first decoder, the constructor for the
    /// second one, and the spec-level continuation the constructor follows.
    pub fn new(first: First, fun: Fun, cont: Ghost<spec_fn(First::SpecValue) -> Second::SpecState>) -> (r: Self)
        requires
            first.wf(),
            then_fun_ok::<First, Second, Fun>(fun, cont@),
        ensures
            r.wf(),
            r.model() == ThenSpecState::First(first.model(), cont@),
    {
        Then { state: ThenState::First(first, fun), cont }
    }
}

impl<First: DecoderSpec, Second: DecoderSpec, Fun: FnOnce(First::Value) -> Second> DecoderSpec for Then<
    First,
    Second,
    Fun,
> {
    type Value = Second::Value;

    type Error = StageError<First::Error, Second::Error>;

    type SpecState = ThenSpecState<First::SpecState, First::SpecValue, Second::SpecState>;

    type SpecValue = Second::SpecValue;

    open spec fn model(&self) -> Self::SpecState {
        match self.state {
            ThenState::First(a, _) => ThenSpecState::First(a.model(), self.cont@),
            ThenState::Second(b) => ThenSpecState::Second(b.model()),
            ThenState::Errored => ThenSpecState::Failed,
            ThenState::Panicked => ThenSpecState::Failed,
        }
    }

    open spec fn wf(&self) -> bool {
        match self.state {
            ThenState::First(a, fun) => a.wf() && then_fun_ok::<First, Second, Fun>(
                fun,
                self.cont@,
            ),
            ThenState::Second(b) => b.wf(),
            ThenState::Errored => false,
            ThenState::Panicked => false,
        }
    }

    open spec fn spec_inv(s: Self::SpecState) -> bool {
        match s {
            ThenSpecState::First(sa, c) => First::spec_inv(sa) && forall|v1: First::SpecValue|
                Second::spec_inv(#[trigger] c(v1)),
            ThenSpecState::Second(sb) => Second::spec_inv(sb),
            ThenSpecState::Failed => false,
        }
    }

    open spec fn spec_value(v: Second::Value) -> Second::SpecValue {
        Second::spec_value(v)
    }

    open spec fn spec_step(s: Self::SpecState, b: u8) -> Step<Self::SpecState, Self::Error> {
        match s {
            ThenSpecState::First(sa, c) => match First::spec_step(sa, b) {
                Step::More(sa2) => Step::More(ThenSpecState::First(sa2, c)),
                Step::Fail(e) => Step::Fail(StageError::First(e)),
                Step::Stop(sa2) => match First::spec_finish(sa2) {
                    Err(e) => Step::Fail(StageError::First(e)),
                    Ok(v) => match Second::spec_step(c(v), b) {
                        Step::More(sb2) => Step::More(ThenSpecState::Second(sb2)),
                        Step::Stop(sb2) => Step::Stop(ThenSpecState::Second(sb2)),
                        Step::Fail(e) => Step::Fail(StageError::Second(e)),
                    },
                },
            },
            ThenSpecState::Second(sb) => match Second::spec_step(sb, b) {
                Step::More(sb2) => Step::More(ThenSpecState::Second(sb2)),
                Step::Stop(sb2) => Step::Stop(ThenSpecState::Second(sb2)),
                Step::Fail(e) => Step::Fail(StageError::Second(e)),
            },
            ThenSpecState::Failed => Step::Stop(s),
        }
    }

    open spec fn spec_finish(s: Self::SpecState) -> Result<Second::SpecValue, Self::Error> {
        match s {
            ThenSpecState::First(sa, c) => match First::spec_finish(sa) {
                Err(e) => Err(StageError::First(e)),
                Ok(v) => match Second::spec_finish(c(v)) {
                    Err(e) => Err(StageError::Second(e)),
                    Ok(w) => Ok(w),
                },
            },
            ThenSpecState::Second(sb) => match Second::spec_finish(sb) {
                Err(e) => Err(StageError::Second(e)),
                Ok(w) => Ok(w),
            },
            ThenSpecState::Failed => Err(arbitrary()),
        }
    }

    proof fn lemma_wf_inv(&self) {
        match self.state {
            ThenState::First(a, _) => {
                a.lemma_wf_inv();
            },
            ThenState::Second(b) => {
                b.lemma_wf_inv();
            },
            ThenState::Errored => {},
            ThenState::Panicked => {},
        }
    }

    proof fn lemma_step_inv(s: Self::SpecState, b: u8) {
        match s {
            ThenSpecState::First(sa, c) => {
                First::lemma_step_inv(sa, b);
                match First::spec_step(sa, b) {
                    Step::Stop(sa2) => match First::spec_finish(sa2) {
                        Ok(v) => {
                            Second::lemma_step_inv(c(v), b);
                        },
                        Err(_) => {},
                    },
                    _ => {},
                }
            },
            ThenSpecState::Second(sb) => {
                Second::lemma_step_inv(sb, b);
            },
            ThenSpecState::Failed => {},
        }
    }

    proof fn lemma_stop_stable(s: Self::SpecState, b: u8, c0: u8) {
        match s {
            ThenSpecState::First(sa, c) => {
                First::lemma_step_inv(sa, b);
                First::lemma_stop_stable(sa, b, c0);
                match First::spec_step(sa, b) {
                    Step::Stop(sa2) => match First::spec_finish(sa2) {
                        Ok(v) => {
                            Second::lemma_step_inv(c(v), b);
                            Second::lemma_stop_stable(c(v), b, c0);
                        },
                        Err(_) => {},
                    },
                    _ => {},
                }
            },
            ThenSpecState::Second(sb) => {
                Second::lemma_step_inv(sb, b);
                Second::lemma_stop_stable(sb, b, c0);
            },
            ThenSpecState::Failed => {},
        }
    }
}

/// Feeding a [`Then`] whose second stage is active mirrors feeding the second
/// decoder alone.
pub proof fn lemma_then_feed_second<First: DecoderSpec, Second: DecoderSpec, Fun: FnOnce(
    First::Value,
) -> Second>(sb: Second::SpecState, input: Seq<u8>)
    ensures
        spec_feed::<Then<First, Second, Fun>>(ThenSpecState::Second(sb), input) == (
        match spec_feed::<Second>(sb, input) {
            Ok((sb2, rest)) => Ok::<_, StageError<First::Error, Second::Error>>(
                (ThenSpecState::<First::SpecState, First::SpecValue, Second::SpecState>::Second(sb2), rest),
            ),
            Err(e) => Err(StageError::Second(e)),
        }),
    decreases input.len(),
{
    if input.len() == 0 {
    } else {
        match Second::spec_step(sb, input[0]) {
            Step::More(sb2) => {
                lemma_then_feed_second::<First, Second, Fun>(sb2, input.drop_first());
            },
            Step::Stop(_) => {},
            Step::Fail(_) => {},
        }
    }
}

/// Feeding a [`Then`] whose first stage is active mirrors feeding the first
/// decoder alone and, once it refuses a byte, finalizing it, applying the
/// continuation and feeding the remainder to the second decoder.
pub proof fn lemma_then_feed_first<First: DecoderSpec, Second: DecoderSpec, Fun: FnOnce(
    First::Value,
) -> Second>(
    sa: First::SpecState,
    c: spec_fn(First::SpecValue) -> Second::SpecState,
    input: Seq<u8>,
)
    ensures
        match spec_feed::<First>(sa, input) {
            Err(e) => spec_feed::<Then<First, Second, Fun>>(ThenSpecState::First(sa, c), input)
                == Err::<
                (ThenSpecState<First::SpecState, First::SpecValue, Second::SpecState>, Seq<u8>),
                _,
            >(StageError::<First::Error, Second::Error>::First(e)),
            Ok((sa2, rest)) => {
                if rest.len() == 0 {
                    spec_feed::<Then<First, Second, Fun>>(ThenSpecState::First(sa, c), input)
                        == Ok::<_, StageError<First::Error, Second::Error>>(
                        (
                            ThenSpecState::<
                                First::SpecState,
                                First::SpecValue,
                                Second::SpecState,
                            >::First(sa2, c),
                            rest,
                        ),
                    )
                } else {
                    match First::spec_finish(sa2) {
                        Err(e) => spec_feed::<Then<First, Second, Fun>>(
                            ThenSpecState::First(sa, c),
                            input,
                        ) == Err::<
                            (
                                ThenSpecState<
                                    First::SpecState,
                                    First::SpecValue,
                                    Second::SpecState,
                                >,
                                Seq<u8>,
                            ),
                            _,
                        >(StageError::<First::Error, Second::Error>::First(e)),
                        Ok(v) => spec_feed::<Then<First, Second, Fun>>(
                            ThenSpecState::First(sa, c),
                            input,
                        ) == (match spec_feed::<Second>(c(v), rest) {
                            Ok((sb2, rest2)) => Ok::<_, StageError<First::Error, Second::Error>>(
                                (
                                    ThenSpecState::<
                                        First::SpecState,
                                        First::SpecValue,
                                        Second::SpecState,
                                    >::Second(sb2),
                                    rest2,
                                ),
                            ),
                            Err(e) => Err(StageError::Second(e)),
                        }),
                    }
                }
            },
        },
    decreases input.len(),
{
    if input.len() == 0 {
    } else {
        match First::spec_step(sa, input[0]) {
            Step::More(sa2) => {
                lemma_then_feed_first::<First, Second, Fun>(sa2, c, input.drop_first());
            },
            Step::Fail(_) => {},
            Step::Stop(sa2) => {
                match First::spec_finish(sa2) {
                    Err(_) => {},
                    Ok(v) => {
                        match Second::spec_step(c(v), input[0]) {
                            Step::More(sb2) => {
                                lemma_then_feed_second::<First, Second, Fun>(
                                    sb2,
                                    input.drop_first(),
                                );
                            },
                            Step::Stop(_) => {},
                            Step::Fail(_) => {},
                        }
                    },
                }
            },
        }
    }
}

impl<First: Decoder, Second: Decoder, Fun: FnOnce(First::Value) -> Second> Decoder for Then<
    First,
    Second,
    Fun,
> {
    fn decode_chunk(&mut self, bytes: &mut &[u8]) -> (r: Result<(), Self::Error>) {
        let ghost c = self.cont@;
        let mut state = ThenState::Panicked;
        core::mem::swap(&mut self.state, &mut state);
        match state {
            ThenState::First(mut a, fun) => {
                proof {
                    lemma_then_feed_first::<First, Second, Fun>(a.model(), c, old(bytes)@);
                }
                match a.decode_chunk(bytes) {
                    Err(e) => {
                        self.state = ThenState::Errored;
                        Err(StageError::First(e))
                    },
                    Ok(()) => {
                        if (*bytes).len() > 0 {
                            match a.end() {
                                Err(e) => {
                                    self.state = ThenState::Errored;
                                    Err(StageError::First(e))
                                },
                                Ok(v) => {
                                    let mut second = fun(v);
                                    match second.decode_chunk(bytes) {
                                        Err(e) => {
                                            self.state = ThenState::Errored;
                                            Err(StageError::Second(e))
                                        },
                                        Ok(()) => {
                                            self.state = ThenState::Second(second);
                                            Ok(())
                                        },
                                    }
                                },
                            }
                        } else {
                            self.state = ThenState::First(a, fun);
                            Ok(())
                        }
                    },
                }
            },
            ThenState::Second(mut b) => {
                proof {
                    lemma_then_feed_second::<First, Second, Fun>(b.model(), old(bytes)@);
                }
                match b.decode_chunk(bytes) {
                    Err(e) => {
                        self.state = ThenState::Errored;
                        Err(StageError::Second(e))
                    },
                    Ok(()) => {
                        self.state = ThenState::Second(b);
                        Ok(())
                    },
                }
            },
            ThenState::Errored => vstd::pervasive::unreached(),
            ThenState::Panicked => vstd::pervasive::unreached(),
        }
    }

    fn end(self) -> (r: Result<Self::Value, Self::Error>) {
        match self.state {
            ThenState::First(a, fun) => match a.end() {
                Err(e) => Err(StageError::First(e)),
                Ok(v) => {
                    let second = fun(v);
                    match second.end() {
                        Err(e) => Err(StageError::Second(e)),
                        Ok(w) => Ok(w),
                    }
                },
            },
            ThenState::Second(b) => match b.end() {
                Err(e) => Err(StageError::Second(e)),
                Ok(w) => Ok(w),
            },
            ThenState::Errored => vstd::pervasive::unreached(),
            ThenState::Panicked => vstd::pervasive::unreached(),
        }
    }
}

/// The spec-level meaning of converting an error through `From`.
pub open spec fn spec_conv<E: From<X>, X>(e: X) -> E {
    <E as vstd::std_specs::convert::FromSpec<X>>::from_spec(e)
}

/// Whether `From` conversions into `E` from `X` follow their spec-level
/// meaning.
pub open spec fn conv_ok<E: From<X>, X>() -> bool {
    <E as vstd::std_specs::convert::FromSpec<X>>::obeys_from_spec()
}

/// The exec state of [`ThenTry`].
pub enum ThenTryState<First: DecoderSpec, Second: DecoderSpec, Fun> {
    /// The first decoder is still consuming bytes; the constructor for the
    /// second decoder waits beside it.
    First(First, Fun),
    /// The second decoder is consuming bytes.
    Second(Second),
    /// A sub-decoder or the constructor reported an error and the pipeline
    /// was not discarded.
    Errored,
    /// An internal transition was interrupted.
    Panicked,
}

/// The spec-level state of [`ThenTry`]: the continuation may itself fail with
/// the unified error type.
#[verifier::reject_recursive_types(VA)]
pub enum ThenTrySpecState<SA, VA, SB, E> {
    /// First stage active.
    First(SA, spec_fn(VA) -> Result<SB, E>),
    /// Second stage active.
    Second(SB),
    /// Sink state for pipelines that failed.
    Failed,
}

/// What [`ThenTry`] requires of its constructor closure, mirroring
/// [`then_fun_ok`] with a fallible continuation.
pub open spec fn then_try_fun_ok<E, First: DecoderSpec, Second: DecoderSpec, Fun: FnOnce(
    First::Value,
) -> Result<Second, E>>(fun: Fun, c: spec_fn(First::SpecValue) -> Result<Second::SpecState, E>) -> bool {
    &&& forall|v: First::Value| #[trigger] call_requires(fun, (v,))
    &&& forall|v: First::Value, r2: Result<Second, E>|
        #[trigger] call_ensures(fun, (v,), r2) ==> match r2 {
            Ok(b2) => b2.wf() && c(First::spec_value(v)) == Ok::<Second::SpecState, E>(b2.model()),
            Err(e) => c(First::spec_value(v)) == Err::<Second::SpecState, E>(e),
        }
    &&& forall|v1: First::SpecValue| match #[trigger] c(v1) {
        Ok(sb) => Second::spec_inv(sb),
        Err(_) => true,
    }
}

/// Like [`Then`], but the constructor of the second decoder may fail, and all
/// errors are unified into one caller-chosen type `E`.
pub struct ThenTry<E, First: DecoderSpec, Second: DecoderSpec, Fun> {
    /// The sequencing state.
    pub state: ThenTryState<First, Second, Fun>,
    /// The spec-level continuation the constructor closure follows.
    pub cont: Ghost<spec_fn(First::SpecValue) -> Result<Second::SpecState, E>>,
}

impl<
    E: From<First::Error> + From<Second::Error>,
    First: DecoderSpec,
    Second: DecoderSpec,
    Fun: FnOnce(First::Value) -> Result<Second, E>,
> ThenTry<E, First, Second, Fun> {
    /// Creates the combinator from the first decoder, the fallible
    /// constructor for the second one, and the spec-level continuation the
    /// constructor follows.
    pub fn new(
        first: First,
        fun: Fun,
        cont: Ghost<spec_fn(First::SpecValue) -> Result<Second::SpecState, E>>,
    ) -> (r: Self)
        requires
            first.wf(),
            then_try_fun_ok::<E, First, Second, Fun>(fun, cont@),
            conv_ok::<E, First::Error>(),
            conv_ok::<E, Second::Error>(),
        ensures
            r.wf(),
            r.model() == ThenTrySpecState::First(first.model(), cont@),
    {
        ThenTry { state: ThenTryState::First(first, fun), cont }
    }
}

impl<
    E: From<First::Error> + From<Second::Error>,
    First: DecoderSpec,
    Second: DecoderSpec,
    Fun: FnOnce(First::Value) -> Result<Second, E>,
> DecoderSpec for ThenTry<E, First, Second, Fun> {
    type Value = Second::Value;

    type Error = E;

    type SpecState = ThenTrySpecState<First::SpecState, First::SpecValue, Second::SpecState, E>;

    type SpecValue = Second::SpecValue;

    open spec fn model(&self) -> Self::SpecState {
        match self.state {
            ThenTryState::First(a, _) => ThenTrySpecState::First(a.model(), self.cont@),
            ThenTryState::Second(b) => ThenTrySpecState::Second(b.model()),
            ThenTryState::Errored => ThenTrySpecState::Failed,
            ThenTryState::Panicked => ThenTrySpecState::Failed,
        }
    }

    open spec fn wf(&self) -> bool {
        &&& conv_ok::<E, First::Error>()
        &&& conv_ok::<E, Second::Error>()
        &&& match self.state {
            ThenTryState::First(a, fun) => a.wf() && then_try_fun_ok::<E, First, Second, Fun>(
                fun,
                self.cont@,
            ),
            ThenTryState::Second(b) => b.wf(),
            ThenTryState::Errored => false,
            ThenTryState::Panicked => false,
        }
    }

    open spec fn spec_inv(s: Self::SpecState) -> bool {
        match s {
            ThenTrySpecState::First(sa, c) => First::spec_inv(sa) && forall|v1: First::SpecValue|
                match #[trigger] c(v1) {
                    Ok(sb) => Second::spec_inv(sb),
                    Err(_) => true,
                },
            ThenTrySpecState::Second(sb) => Second::spec_inv(sb),
            ThenTrySpecState::Failed => false,
        }
    }

    open spec fn spec_value(v: Second::Value) -> Second::SpecValue {
        Second::spec_value(v)
    }

    open spec fn spec_step(s: Self::SpecState, b: u8) -> Step<Self::SpecState, E> {
        match s {
            ThenTrySpecState::First(sa, c) => match First::spec_step(sa, b) {
                Step::More(sa2) => Step::More(ThenTrySpecState::First(sa2, c)),
                Step::Fail(e) => Step::Fail(spec_conv::<E, First::Error>(e)),
                Step::Stop(sa2) => match First::spec_finish(sa2) {
                    Err(e) => Step::Fail(spec_conv::<E, First::Error>(e)),
                    Ok(v) => match c(v) {
                        Err(e) => Step::Fail(e),
                        Ok(sb) => match Second::spec_step(sb, b) {
                            Step::More(sb2) => Step::More(ThenTrySpecState::Second(sb2)),
                            Step::Stop(sb2) => Step::Stop(ThenTrySpecState::Second(sb2)),
                            Step::Fail(e2) => Step::Fail(spec_conv::<E, Second::Error>(e2)),
                        },
                    },
                },
            },
            ThenTrySpecState::Second(sb) => match Second::spec_step(sb, b) {
                Step::More(sb2) => Step::More(ThenTrySpecState::Second(sb2)),
                Step::Stop(sb2) => Step::Stop(ThenTrySpecState::Second(sb2)),
                Step::Fail(e2) => Step::Fail(spec_conv::<E, Second::Error>(e2)),
            },
            ThenTrySpecState::Failed => Step::Stop(s),
        }
    }

    open spec fn spec_finish(s: Self::SpecState) -> Result<Second::SpecValue, E> {
        match s {
            ThenTrySpecState::First(sa, c) => match First::spec_finish(sa) {
                Err(e) => Err(spec_conv::<E, First::Error>(e)),
                Ok(v) => match c(v) {
                    Err(e) => Err(e),
                    Ok(sb) => match Second::spec_finish(sb) {
                        Err(e2) => Err(spec_conv::<E, Second::Error>(e2)),
                        Ok(w) => Ok(w),
                    },
                },
            },
            ThenTrySpecState::Second(sb) => match Second::spec_finish(sb) {
                Err(e2) => Err(spec_conv::<E, Second::Error>(e2)),
                Ok(w) => Ok(w),
            },
            ThenTrySpecState::Failed => Err(arbitrary()),
        }
    }

    proof fn lemma_wf_inv(&self) {
        match self.state {
            ThenTryState::First(a, _) => {
                a.lemma_wf_inv();
            },
            ThenTryState::Second(b) => {
                b.lemma_wf_inv();
            },
            ThenTryState::Errored => {},
            ThenTryState::Panicked => {},
        }
    }

    proof fn lemma_step_inv(s: Self::SpecState, b: u8) {
        match s {
            ThenTrySpecState::First(sa, c) => {
                First::lemma_step_inv(sa, b);
                match First::spec_step(sa, b) {
                    Step::Stop(sa2) => match First::spec_finish(sa2) {
                        Ok(v) => match c(v) {
                            Ok(sb) => {
                                Second::lemma_step_inv(sb, b);
                            },
                            Err(_) => {},
                        },
                        Err(_) => {},
                    },
                    _ => {},
                }
            },
            ThenTrySpecState::Second(sb) => {
                Second::lemma_step_inv(sb, b);
            },
            ThenTrySpecState::Failed => {},
        }
    }

    proof fn lemma_stop_stable(s: Self::SpecState, b: u8, c0: u8) {
        match s {
            ThenTrySpecState::First(sa, c) => {
                First::lemma_step_inv(sa, b);
                First::lemma_stop_stable(sa, b, c0);
                match First::spec_step(sa, b) {
                    Step::Stop(sa2) => match First::spec_finish(sa2) {
                        Ok(v) => match c(v) {
                            Ok(sb) => {
                                Second::lemma_step_inv(sb, b);
                                Second::lemma_stop_stable(sb, b, c0);
                            },
                            Err(_) => {},
                        },
                        Err(_) => {},
                    },
                    _ => {},
                }
            },
            ThenTrySpecState::Second(sb) => {
                Second::lemma_step_inv(sb, b);
                Second::lemma_stop_stable(sb, b, c0);
            },
            ThenTrySpecState::Failed => {},
        }
    }
}

/// Feeding a [`ThenTry`] whose second stage is active mirrors feeding the
/// second decoder alone, with errors converted.
pub proof fn lemma_then_try_feed_second<
    E: From<First::Error> + From<Second::Error>,
    First: DecoderSpec,
    Second: DecoderSpec,
    Fun: FnOnce(First::Value) -> Result<Second, E>,
>(sb: Second::SpecState, input: Seq<u8>)
    ensures
        spec_feed::<ThenTry<E, First, Second, Fun>>(ThenTrySpecState::Second(sb), input) == (
        match spec_feed::<Second>(sb, input) {
            Ok((sb2, rest)) => Ok::<_, E>(
                (
                    ThenTrySpecState::<
                        First::SpecState,
                        First::SpecValue,
                        Second::SpecState,
                        E,
                    >::Second(sb2),
                    rest,
                ),
            ),
            Err(e2) => Err(spec_conv::<E, Second::Error>(e2)),
        }),
    decreases input.len(),
{
    if input.len() == 0 {
    } else {
        match Second::spec_step(sb, input[0]) {
            Step::More(sb2) => {
                lemma_then_try_feed_second::<E, First, Second, Fun>(sb2, input.drop_first());
            },
            Step::Stop(_) => {},
            Step::Fail(_) => {},
        }
    }
}

/// Feeding a [`ThenTry`] whose first stage is active mirrors feeding the
/// first decoder alone and, once it refuses a byte, finalizing it, applying
/// the fallible continuation and feeding the remainder to the second decoder.
pub proof fn lemma_then_try_feed_first<
    E: From<First::Error> + From<Second::Error>,
    First: DecoderSpec,
    Second: DecoderSpec,
    Fun: FnOnce(First::Value) -> Result<Second, E>,
>(
    sa: First::SpecState,
    c: spec_fn(First::SpecValue) -> Result<Second::SpecState, E>,
    input: Seq<u8>,
)
    ensures
        match spec_feed::<First>(sa, input) {
            Err(e) => spec_feed::<ThenTry<E, First, Second, Fun>>(
                ThenTrySpecState::First(sa, c),
                input,
            ) == Err::<
                (ThenTrySpecState<First::SpecState, First::SpecValue, Second::SpecState, E>, Seq<u8>),
                _,
            >(spec_conv::<E, First::Error>(e)),
            Ok((sa2, rest)) => {
                if rest.len() == 0 {
                    spec_feed::<ThenTry<E, First, Second, Fun>>(ThenTrySpecState::First(sa, c), input)
                        == Ok::<_, E>(
                        (
                            ThenTrySpecState::<
                                First::SpecState,
                                First::SpecValue,
                                Second::SpecState,
                                E,
                            >::First(sa2, c),
                            rest,
                        ),
                    )
                } else {
                    match First::spec_finish(sa2) {
                        Err(e) => spec_feed::<ThenTry<E, First, Second, Fun>>(
                            ThenTrySpecState::First(sa, c),
                            input,
                        ) == Err::<
                            (
                                ThenTrySpecState<
                                    First::SpecState,
                                    First::SpecValue,
                                    Second::SpecState,
                                    E,
                                >,
                                Seq<u8>,
                            ),
                            _,
                        >(spec_conv::<E, First::Error>(e)),
                        Ok(v) => match c(v) {
                            Err(e) => spec_feed::<ThenTry<E, First, Second, Fun>>(
                                ThenTrySpecState::First(sa, c),
                                input,
                            ) == Err::<
                                (
                                    ThenTrySpecState<
                                        First::SpecState,
                                        First::SpecValue,
                                        Second::SpecState,
                                        E,
                                    >,
                                    Seq<u8>,
                                ),
                                _,
                            >(e),
                            Ok(sb) => spec_feed::<ThenTry<E, First, Second, Fun>>(
                                ThenTrySpecState::First(sa, c),
                                input,
                            ) == (match spec_feed::<Second>(sb, rest) {
                                Ok((sb2, rest2)) => Ok::<_, E>(
                                    (
                                        ThenTrySpecState::<
                                            First::SpecState,
                                            First::SpecValue,
                                            Second::SpecState,
                                            E,
                                        >::Second(sb2),
                                        rest2,
                                    ),
                                ),
                                Err(e2) => Err(spec_conv::<E, Second::Error>(e2)),
                            }),
                        },
                    }
                }
            },
        },
    decreases input.len(),
{
    if input.len() == 0 {
    } else {
        match First::spec_step(sa, input[0]) {
            Step::More(sa2) => {
                lemma_then_try_feed_first::<E, First, Second, Fun>(sa2, c, input.drop_first());
            },
            Step::Fail(_) => {},
            Step::Stop(sa2) => {
                match First::spec_finish(sa2) {
                    Err(_) => {},
                    Ok(v) => {
                        match c(v) {
                            Err(_) => {},
                            Ok(sb) => {
                                match Second::spec_step(sb, input[0]) {
                                    Step::More(sb2) => {
                                        lemma_then_try_feed_second::<E, First, Second, Fun>(
                                            sb2,
                                            input.drop_first(),
                                        );
                                    },
                                    Step::Stop(_) => {},
                                    Step::Fail(_) => {},
                                }
                            },
                        }
                    },
                }
            },
        }
    }
}

impl<
    E: From<First::Error> + From<Second::Error>,
    First: Decoder,
    Second: Decoder,
    Fun: FnOnce(First::Value) -> Result<Second, E>,
> Decoder for ThenTry<E, First, Second, Fun> {
    fn decode_chunk(&mut self, bytes: &mut &[u8]) -> (r: Result<(), E>) {
        let ghost c = self.cont@;
        let mut state = ThenTryState::Panicked;
        core::mem::swap(&mut self.state, &mut state);
        match state {
            ThenTryState::First(mut a, fun) => {
                proof {
                    lemma_then_try_feed_first::<E, First, Second, Fun>(a.model(), c, old(bytes)@);
                }
                match a.decode_chunk(bytes) {
                    Err(e) => {
                        self.state = ThenTryState::Errored;
                        Err(E::from(e))
                    },
                    Ok(()) => {
                        if (*bytes).len() > 0 {
                            match a.end() {
                                Err(e) => {
                                    self.state = ThenTryState::Errored;
                                    Err(E::from(e))
                                },
                                Ok(v) => match fun(v) {
                                    Err(e) => {
                                        self.state = ThenTryState::Errored;
                                        Err(e)
                                    },
                                    Ok(mut second) => match second.decode_chunk(bytes) {
                                        Err(e2) => {
                                            self.state = ThenTryState::Errored;
                                            Err(E::from(e2))
                                        },
                                        Ok(()) => {
                                            self.state = ThenTryState::Second(second);
                                            Ok(())
                                        },
                                    },
                                },
                            }
                        } else {
                            self.state = ThenTryState::First(a, fun);
                            Ok(())
                        }
                    },
                }
            },
            ThenTryState::Second(mut b) => {
                proof {
                    lemma_then_try_feed_second::<E, First, Second, Fun>(b.model(), old(bytes)@);
                }
                match b.decode_chunk(bytes) {
                    Err(e2) => {
                        self.state = ThenTryState::Errored;
                        Err(E::from(e2))
                    },
                    Ok(()) => {
                        self.state = ThenTryState::Second(b);
                        Ok(())
                    },
                }
            },
            ThenTryState::Errored => vstd::pervasive::unreached(),
            ThenTryState::Panicked => vstd::pervasive::unreached(),
        }
    }

    fn end(self) -> (r: Result<Self::Value, E>) {
        match self.state {
            ThenTryState::First(a, fun) => match a.end() {
                Err(e) => Err(E::from(e)),
                Ok(v) => match fun(v) {
                    Err(e) => Err(e),
                    Ok(second) => match second.end() {
                        Err(e2) => Err(E::from(e2)),
                        Ok(w) => Ok(w),
                    },
                },
            },
            ThenTryState::Second(b) => match b.end() {
                Err(e2) => Err(E::from(e2)),
                Ok(w) => Ok(w),
            },
            ThenTryState::Errored => vstd::pervasive::unreached(),
            ThenTryState::Panicked => vstd::pervasive::unreached(),
        }
    }
}

impl<First: Decoder, Second: Decoder> Decoder for Chain<First, Second> {
    fn decode_chunk(&mut self, bytes: &mut &[u8]) -> (r: Result<(), Self::Error>) {
        let mut state = ChainState::Panicked;
        core::mem::swap(&mut self.0, &mut state);
        match state {
            ChainState::First(mut a, b) => {
                proof {
                    lemma_chain_feed_first::<First, Second>(a.model(), b.model(), old(bytes)@);
                }
                match a.decode_chunk(bytes) {
                    Err(e) => {
                        self.0 = ChainState::Errored;
                        Err(StageError::First(e))
                    },
                    Ok(()) => {
                        if (*bytes).len() > 0 {
                            match a.end() {
                                Err(e) => {
                                    self.0 = ChainState::Errored;
                                    Err(StageError::First(e))
                                },
                                Ok(v) => {
                                    let mut b = b;
                                    match b.decode_chunk(bytes) {
                                        Err(e) => {
                                            self.0 = ChainState::Errored;
                                            Err(StageError::Second(e))
                                        },
                                        Ok(()) => {
                                            self.0 = ChainState::Second(v, b);
                                            Ok(())
                                        },
                                    }
                                },
                            }
                        } else {
                            self.0 = ChainState::First(a, b);
                            Ok(())
                        }
                    },
                }
            },
            ChainState::Second(v, mut b) => {
                proof {
                    lemma_chain_feed_second::<First, Second>(
                        First::spec_value(v),
                        b.model(),
                        old(bytes)@,
                    );
                }
                match b.decode_chunk(bytes) {
                    Err(e) => {
                        self.0 = ChainState::Errored;
                        Err(StageError::Second(e))
                    },
                    Ok(()) => {
                        self.0 = ChainState::Second(v, b);
                        Ok(())
                    },
                }
            },
            ChainState::Errored => vstd::pervasive::unreached(),
            ChainState::Panicked => vstd::pervasive::unreached(),
        }
    }

    fn end(self) -> (r: Result<Self::Value, Self::Error>) {
        match self.0 {
            ChainState::First(a, b) => match a.end() {
                Err(e) => Err(StageError::First(e)),
                Ok(v) => match b.end() {
                    Err(e) => Err(StageError::Second(e)),
                    Ok(w) => Ok((v, w)),
                },
            },
            ChainState::Second(v, b) => match b.end() {
                Err(e) => Err(StageError::Second(e)),
                Ok(w) => Ok((v, w)),
            },
            ChainState::Errored => vstd::pervasive::unreached(),
            ChainState::Panicked => vstd::pervasive::unreached(),
        }
    }
}

} // verus!
