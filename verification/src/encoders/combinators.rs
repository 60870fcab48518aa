//! Combinators that sequence encoders.

use vstd::prelude::*;

use crate::{starts_clean, Encoder};

verus! {

/// Chains two encoders, producing the first one's chunks followed by the
/// second one's.
///
/// If the first encoder is already exhausted at construction it is elided,
/// so the chain never exposes a spuriously empty first chunk.
pub struct Chain<A, B> {
    /// The first encoder, while it still has chunks.
    pub first: Option<A>,
    /// The second encoder.
    pub second: B,
}

impl<A: Encoder, B: Encoder> Chain<A, B> {
    /// Creates a chain of two encoders.
    pub fn new(first: A, second: B) -> (r: Self)
        requires
            first.wf(),
            second.wf(),
            starts_clean(first),
            starts_clean(second),
        ensures
            r.wf(),
            r.chunks() == first.chunks() + second.chunks(),
            starts_clean(r),
    {
        proof {
            first.lemma_wf();
        }
        if first.encoded_chunk().is_empty() {
            let r = Chain { first: None, second };
            proof {
                assert(first.chunks().len() == 0);
                assert(r.chunks() =~= first.chunks() + second.chunks());
            }
            r
        } else {
            let r = Chain { first: Some(first), second };
            r
        }
    }
}

impl<A: Encoder, B: Encoder> Encoder for Chain<A, B> {
    open spec fn wf(&self) -> bool {
        match self.first {
            Some(a) => {
                &&& a.wf()
                &&& a.chunks().len() > 0
                &&& self.second.wf()
                &&& starts_clean(self.second)
            },
            None => self.second.wf(),
        }
    }

    open spec fn chunks(&self) -> Seq<Seq<u8>> {
        match self.first {
            Some(a) => a.chunks() + self.second.chunks(),
            None => self.second.chunks(),
        }
    }

    open spec fn chunk(&self) -> Seq<u8> {
        match self.first {
            Some(a) => a.chunk(),
            None => self.second.chunk(),
        }
    }

    proof fn lemma_wf(&self) {
        match self.first {
            Some(a) => {
                a.lemma_wf();
                self.second.lemma_wf();
                assert(self.chunks()[0] == a.chunks()[0]);
                assert forall|i: int| 0 <= i < self.chunks().len() implies #[trigger] self.chunks()[i].len()
                    > 0 by {
                    if i < a.chunks().len() {
                        assert(self.chunks()[i] == a.chunks()[i]);
                    } else {
                        assert(self.chunks()[i] == self.second.chunks()[i - a.chunks().len()]);
                    }
                }
            },
            None => {
                self.second.lemma_wf();
            },
        }
    }

    fn encoded_chunk(&self) -> (r: &[u8]) {
        match &self.first {
            Some(a) => a.encoded_chunk(),
            None => self.second.encoded_chunk(),
        }
    }

    fn next(&mut self) -> (more: bool) {
        proof {
            old(self).lemma_wf();
        }
        let first = self.first.take();
        match first {
            Some(mut a) => {
                proof {
                    a.lemma_wf();
                }
                if a.next() {
                    self.first = Some(a);
                    proof {
                        assert(self.chunks() =~= old(self).chunks().drop_first());
                    }
                    true
                } else {
                    proof {
                        assert(self.chunks() =~= old(self).chunks().drop_first());
                        self.second.lemma_wf();
                    }
                    !self.second.encoded_chunk().is_empty()
                }
            },
            None => self.second.next(),
        }
    }
}

/// The state of [`Then`].
pub enum ThenState<A, B, F> {
    /// The first encoder is still producing chunks; the constructor for the
    /// second one waits beside it.
    First(A, F),
    /// The second encoder is producing chunks.
    Second(B),
    /// Transient state while switching stages; never observable.
    Switching,
}

/// What [`Then`] requires of its constructor closure: it must be callable,
/// and every encoder it builds must be well-formed, unambiguous at its start,
/// and produce exactly the chunks `cs`.
pub open spec fn then_fun_ok<B: Encoder, F: FnMut() -> B>(fun: F, cs: Seq<Seq<u8>>) -> bool {
    &&& call_requires(fun, ())
    &&& forall|b2: B|
        #[trigger] call_ensures(fun, (), b2) ==> b2.wf() && b2.chunks() == cs && starts_clean(b2)
}

/// Chains two encoders where the second one is only built - by a repeatable
/// constructor - once the first one is exhausted.
///
/// This avoids paying the second encoder's construction cost when encoding
/// stops early.
pub struct Then<A, B, F> {
    /// The sequencing state.
    pub state: ThenState<A, B, F>,
    /// The chunks the constructor's encoder will produce.
    pub cont: Ghost<Seq<Seq<u8>>>,
}

impl<A: Encoder, B: Encoder, F: FnMut() -> B> Then<A, B, F> {
    /// Creates the combinator from the first encoder, the constructor for the
    /// second one, and the chunks that constructor's encoder will produce.
    pub fn new(first_encoder: A, second_encoder_constructor: F, cont: Ghost<Seq<Seq<u8>>>) -> (r:
        Self)
        requires
            first_encoder.wf(),
            first_encoder.chunks().len() > 0,
            then_fun_ok(second_encoder_constructor, cont@),
            forall|i: int| 0 <= i < cont@.len() ==> #[trigger] cont@[i].len() > 0,
        ensures
            r.wf(),
            r.chunks() == first_encoder.chunks() + cont@,
            starts_clean(r),
    {
        Then { state: ThenState::First(first_encoder, second_encoder_constructor), cont }
    }
}

impl<A: Encoder, B: Encoder, F: FnMut() -> B> Encoder for Then<A, B, F> {
    open spec fn wf(&self) -> bool {
        match self.state {
            ThenState::First(a, fun) => {
                &&& a.wf()
                &&& a.chunks().len() > 0
                &&& then_fun_ok(fun, self.cont@)
                &&& forall|i: int| 0 <= i < self.cont@.len() ==> #[trigger] self.cont@[i].len() > 0
            },
            ThenState::Second(b) => b.wf(),
            ThenState::Switching => false,
        }
    }

    open spec fn chunks(&self) -> Seq<Seq<u8>> {
        match self.state {
            ThenState::First(a, _) => a.chunks() + self.cont@,
            ThenState::Second(b) => b.chunks(),
            ThenState::Switching => Seq::empty(),
        }
    }

    open spec fn chunk(&self) -> Seq<u8> {
        match self.state {
            ThenState::First(a, _) => a.chunk(),
            ThenState::Second(b) => b.chunk(),
            ThenState::Switching => Seq::empty(),
        }
    }

    proof fn lemma_wf(&self) {
        match self.state {
            ThenState::First(a, _) => {
                a.lemma_wf();
                assert(self.chunks()[0] == a.chunks()[0]);
                assert forall|i: int| 0 <= i < self.chunks().len() implies #[trigger] self.chunks()[i].len()
                    > 0 by {
                    if i < a.chunks().len() {
                        assert(self.chunks()[i] == a.chunks()[i]);
                    } else {
                        assert(self.chunks()[i] == self.cont@[i - a.chunks().len()]);
                    }
                }
            },
            ThenState::Second(b) => {
                b.lemma_wf();
            },
            ThenState::Switching => {},
        }
    }

    fn encoded_chunk(&self) -> (r: &[u8]) {
        match &self.state {
            ThenState::First(a, _) => a.encoded_chunk(),
            ThenState::Second(b) => b.encoded_chunk(),
            ThenState::Switching => vstd::pervasive::unreached(),
        }
    }

    fn next(&mut self) -> (more: bool) {
        proof {
            old(self).lemma_wf();
        }
        let mut state = ThenState::Switching;
        core::mem::swap(&mut self.state, &mut state);
        match state {
            ThenState::First(mut a, mut fun) => {
                proof {
                    a.lemma_wf();
                }
                if a.next() {
                    self.state = ThenState::First(a, fun);
                    proof {
                        assert(self.chunks() =~= old(self).chunks().drop_first());
                    }
                    true
                } else {
                    let second = fun();
                    proof {
                        second.lemma_wf();
                        assert(second.chunks() =~= old(self).chunks().drop_first());
                    }
                    let more = !second.encoded_chunk().is_empty();
                    self.state = ThenState::Second(second);
                    more
                }
            },
            ThenState::Second(mut b) => {
                let more = b.next();
                self.state = ThenState::Second(b);
                more
            },
            ThenState::Switching => vstd::pervasive::unreached(),
        }
    }
}

} // verus!
