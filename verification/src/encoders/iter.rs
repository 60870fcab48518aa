use vstd::prelude::*;

use crate::{starts_clean, Encoder};

verus! {

/// The chunks produced by running a list of encoders one after the other.
pub open spec fn items_chunks<E: Encoder>(items: Seq<E>) -> Seq<Seq<u8>>
    decreases items.len(),
{
    if items.len() == 0 {
        Seq::empty()
    } else {
        items[0].chunks() + items_chunks(items.drop_first())
    }
}

/// Every item of a list of well-formed encoders contributes only non-empty
/// chunks.
proof fn lemma_items_chunks_wf<E: Encoder>(items: Seq<E>)
    requires
        forall|i: int| 0 <= i < items.len() ==> (#[trigger] items[i]).wf(),
    ensures
        forall|i: int| 0 <= i < items_chunks(items).len() ==> #[trigger] items_chunks(items)[i].len()
            > 0,
    decreases items.len(),
{
    if items.len() == 0 {
    } else {
        items[0].lemma_wf();
        lemma_items_chunks_wf(items.drop_first());
        assert forall|i: int| 0 <= i < items_chunks(items).len() implies #[trigger] items_chunks(
            items,
        )[i].len() > 0 by {
            if i < items[0].chunks().len() {
                assert(items_chunks(items)[i] == items[0].chunks()[i]);
            } else {
                assert(items_chunks(items)[i] == items_chunks(items.drop_first())[i - items[0].chunks().len()]);
            }
        }
    }
}

/// Encodes a list of encodable items, one after the other with no
/// separators.
///
/// Items that produce no bytes are skipped without ever exposing a spurious
/// empty chunk, so an empty chunk always means "no more data".
pub struct IterEncoder<E> {
    /// The encoder whose chunks are being handed out, if any remains.
    pub current: Option<E>,
    /// The encoders not yet started, in order.
    pub rest: Vec<E>,
}

impl<E: Encoder> IterEncoder<E> {
    /// Creates the encoder from the items to encode, in order.
    pub fn new(items: Vec<E>) -> (r: Self)
        requires
            forall|i: int|
                0 <= i < items@.len() ==> (#[trigger] items@[i]).wf() && starts_clean(items@[i]),
        ensures
            r.wf(),
            r.chunks() == items_chunks(items@),
            starts_clean(r),
    {
        let mut r = IterEncoder { current: None, rest: items };
        r.refill();
        proof {
            assert(r.chunks() =~= items_chunks(items@));
        }
        r
    }

    /// Pops encoders off the pending list until one with data is found,
    /// skipping those that produce no bytes.
    fn refill(&mut self)
        requires
            old(self).current is None,
            forall|i: int|
                0 <= i < old(self).rest@.len() ==> (#[trigger] old(self).rest@[i]).wf()
                    && starts_clean(old(self).rest@[i]),
        ensures
            final(self).wf(),
            match final(self).current {
                Some(c) => c.chunks() + items_chunks(final(self).rest@) == items_chunks(
                    old(self).rest@,
                ),
                None => items_chunks(old(self).rest@) == Seq::<Seq<u8>>::empty(),
            },
    {
        loop
            invariant
                self.current is None,
                forall|i: int|
                    0 <= i < self.rest@.len() ==> (#[trigger] self.rest@[i]).wf() && starts_clean(
                        self.rest@[i],
                    ),
                items_chunks(self.rest@) == items_chunks(old(self).rest@),
            decreases self.rest@.len(),
        {
            if self.rest.len() == 0 {
                proof {
                    assert(items_chunks(self.rest@) =~= Seq::<Seq<u8>>::empty());
                }
                return ;
            }
            let ghost pre = self.rest@;
            let cand = self.rest.remove(0);
            proof {
                assert(self.rest@ =~= pre.drop_first());
                cand.lemma_wf();
            }
            if !cand.encoded_chunk().is_empty() {
                self.current = Some(cand);
                return ;
            }
            proof {
                assert(cand.chunks().len() == 0);
                assert(items_chunks(pre) =~= items_chunks(self.rest@));
            }
        }
    }
}

impl<E: Encoder> Encoder for IterEncoder<E> {
    open spec fn wf(&self) -> bool {
        &&& match self.current {
            Some(c) => c.wf() && c.chunks().len() > 0,
            None => self.rest@.len() == 0,
        }
        &&& forall|i: int|
            0 <= i < self.rest@.len() ==> (#[trigger] self.rest@[i]).wf() && starts_clean(
                self.rest@[i],
            )
    }

    open spec fn chunks(&self) -> Seq<Seq<u8>> {
        match self.current {
            Some(c) => c.chunks() + items_chunks(self.rest@),
            None => Seq::empty(),
        }
    }

    open spec fn chunk(&self) -> Seq<u8> {
        match self.current {
            Some(c) => c.chunk(),
            None => Seq::empty(),
        }
    }

    proof fn lemma_wf(&self) {
        match self.current {
            Some(c) => {
                c.lemma_wf();
                lemma_items_chunks_wf(self.rest@);
                assert(self.chunks()[0] == c.chunks()[0]);
                assert forall|i: int| 0 <= i < self.chunks().len() implies #[trigger] self.chunks()[i].len()
                    > 0 by {
                    if i < c.chunks().len() {
                        assert(self.chunks()[i] == c.chunks()[i]);
                    } else {
                        assert(self.chunks()[i] == items_chunks(self.rest@)[i - c.chunks().len()]);
                    }
                }
            },
            None => {},
        }
    }

    fn encoded_chunk(&self) -> (r: &[u8]) {
        match &self.current {
            Some(c) => c.encoded_chunk(),
            None => &[],
        }
    }

    fn next(&mut self) -> (more: bool) {
        proof {
            old(self).lemma_wf();
        }
        let cur = self.current.take();
        match cur {
            Some(mut c) => {
                proof {
                    c.lemma_wf();
                }
                if c.next() {
                    self.current = Some(c);
                    proof {
                        assert(self.chunks() =~= old(self).chunks().drop_first());
                    }
                    true
                } else {
                    self.refill();
                    proof {
                        assert(self.chunks() =~= old(self).chunks().drop_first());
                    }
                    self.current.is_some()
                }
            },
            None => false,
        }
    }
}

} // verus!
