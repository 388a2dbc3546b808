//! Cursors that wrap another cursor: `Filter` and `MapIter`.
use vstd::prelude::*;

use crate::{applied, decides, found, kept, keeps, maps, pops, rejects, Iterator};

verus! {

/// Cursor over the items of `iter` that `predicate` accepts.
pub struct Filter<I, P> {
    iter: I,
    predicate: P,
}

impl<I, P> Filter<I, P> {
    /// The wrapped cursor.
    pub closed spec fn inner(&self) -> I {
        self.iter
    }

    /// The predicate that decides which items pass.
    pub closed spec fn predicate(&self) -> P {
        self.predicate
    }

    /// Wraps `iter`, passing on the items that `predicate` accepts.
    pub fn new(iter: I, predicate: P) -> (r: Self)
        ensures
            r.inner() == iter,
            r.predicate() == predicate,
    {
        Filter { iter, predicate }
    }
}

impl<I, P> Iterator for Filter<I, P> where I: Iterator, P: Fn(&I::Item) -> bool {
    type Item = I::Item;

    closed spec fn ready(&self) -> bool {
        self.iter.ready() && forall|x: I::Item| self.predicate.requires((&x,))
    }

    closed spec fn modelled(&self) -> bool {
        self.iter.modelled() && decides(self.predicate)
    }

    closed spec fn remaining(&self) -> Seq<I::Item> {
        kept(self.iter.remaining(), self.predicate)
    }

    closed spec fn left(&self) -> nat {
        self.iter.left()
    }

    /// Step by step: the item returned is the first that the wrapped cursor
    /// yields and the predicate accepts, all those before it rejected.
    fn next(&mut self) -> (r: Option<I::Item>)
        ensures
            final(self).predicate() == old(self).predicate(),
            old(self).inner().modelled() ==> final(self).inner().modelled(),
            old(self).inner().modelled() ==> found(
                old(self).inner().remaining(),
                old(self).predicate(),
                r,
                final(self).inner().remaining(),
            ),
    {
        let ghost start = self.iter.remaining();
        let ghost mut n: int = 0;
        loop
            invariant
                self.predicate == old(self).predicate,
                self.ready(),
                self.iter.left() <= old(self).iter.left(),
                old(self).modelled() ==> self.modelled(),
                old(self).modelled() ==> self.remaining() == old(self).remaining(),
                start == old(self).iter.remaining(),
                old(self).iter.modelled() ==> self.iter.modelled(),
                old(self).iter.modelled() ==> 0 <= n <= start.len(),
                old(self).iter.modelled() ==> self.iter.remaining() == start.skip(n),
                old(self).iter.modelled() ==> forall|j: int|
                    0 <= j < n ==> rejects(self.predicate, #[trigger] start[j]),
            decreases self.iter.left(),
        {
            let ghost before = self.iter.remaining();
            let ghost left_before = self.iter.left();
            match self.iter.next() {
                None => {
                    return None;
                },
                Some(v) => {
                    proof {
                        if old(self).modelled() {
                            let k = |x: I::Item| keeps(self.predicate, x);
                            assert(before =~= seq![v] + self.iter.remaining());
                            self.iter.remaining().lemma_filter_prepend(v, k);
                        }
                        if old(self).iter.modelled() {
                            assert(v == start[n]);
                            assert(self.iter.remaining() =~= start.skip(n + 1));
                        }
                    }
                    if (self.predicate)(&v) {
                        proof {
                            assert(self.left() < left_before);
                            if old(self).modelled() {
                                assert(self.remaining() =~= old(self).remaining().drop_first());
                            }
                            if old(self).iter.modelled() {
                                assert(found(start, self.predicate, Some(v), self.iter.remaining()));
                            }
                        }
                        return Some(v);
                    }
                    proof {
                        n = n + 1;
                    }
                },
            }
        }
    }
}

/// A filter may be advanced when its cursor may and its predicate accepts
/// every item. Over a cursor that yields `s`, with a predicate that gives one
/// answer for each item, it yields exactly the items of `s` that the
/// predicate accepts, in their order, and then `None`.
pub proof fn lemma_filter_yields_kept<I, P>(f: Filter<I, P>)
    where
        I: Iterator,
        P: Fn(&I::Item) -> bool,
    ensures
        f.ready() == (f.inner().ready() && forall|x: I::Item| f.predicate().requires((&x,))),
        f.inner().modelled() && decides(f.predicate()) ==> f.modelled(),
        f.modelled() ==> f.remaining() == kept(f.inner().remaining(), f.predicate()),
        f.left() == f.inner().left(),
{
    assert(f.predicate() == f.predicate);
    if forall|x: I::Item| f.predicate.requires((&x,)) {
        assert forall|x: I::Item| f.predicate().requires((&x,)) by {
            assert(f.predicate.requires((&x,)));
        }
    }
}

/// Cursor over `transform` applied to each item of `iter`.
pub struct MapIter<I, P> {
    iter: I,
    predicator: P,
}

impl<I, P> MapIter<I, P> {
    /// The wrapped cursor.
    pub closed spec fn inner(&self) -> I {
        self.iter
    }

    /// The function applied to each item.
    pub closed spec fn transform(&self) -> P {
        self.predicator
    }

    /// Wraps `iter`, passing on `predicator` applied to each of its items.
    pub fn new(iter: I, predicator: P) -> (r: Self)
        ensures
            r.inner() == iter,
            r.transform() == predicator,
    {
        MapIter { iter, predicator }
    }
}

impl<I, P, B> Iterator for MapIter<I, P> where I: Iterator, P: Fn(I::Item) -> B {
    type Item = B;

    closed spec fn ready(&self) -> bool {
        self.iter.ready() && forall|x: I::Item| self.predicator.requires((x,))
    }

    closed spec fn modelled(&self) -> bool {
        self.iter.modelled() && maps(self.predicator)
    }

    closed spec fn remaining(&self) -> Seq<B> {
        self.iter.remaining().map_values(|x: I::Item| applied(self.predicator, x))
    }

    closed spec fn left(&self) -> nat {
        self.iter.left()
    }

    /// Step by step: the item returned is what the function gave for the
    /// item that the wrapped cursor yielded.
    fn next(&mut self) -> (r: Option<B>)
        ensures
            final(self).transform() == old(self).transform(),
            old(self).inner().modelled() ==> final(self).inner().modelled(),
            old(self).inner().modelled() ==> final(self).inner().remaining() == (if old(
                self,
            ).inner().remaining().len() > 0 {
                old(self).inner().remaining().drop_first()
            } else {
                old(self).inner().remaining()
            }),
            old(self).inner().modelled() ==> (r is Some <==> old(self).inner().remaining().len()
                > 0),
            old(self).inner().modelled() && r is Some ==> old(self).transform().ensures(
                (old(self).inner().remaining()[0],),
                r->0,
            ),
    {
        match self.iter.next() {
            None => None,
            Some(x) => {
                let y = (self.predicator)(x);
                proof {
                    assert(self.left() < old(self).left());
                    if old(self).modelled() {
                        assert(self.remaining() =~= old(self).remaining().drop_first());
                    }
                }
                Some(y)
            },
        }
    }
}

/// A map may be advanced when its cursor may and its function accepts every
/// item. Over a cursor that yields `e1, ..., en`, with a function that gives
/// one value for each item, it yields exactly `f(e1), ..., f(en)`, and then
/// `None`.
pub proof fn lemma_map_yields_applied<I, P, B>(m: MapIter<I, P>)
    where
        I: Iterator,
        P: Fn(I::Item) -> B,
    ensures
        m.ready() == (m.inner().ready() && forall|x: I::Item| m.transform().requires((x,))),
        m.inner().modelled() && maps(m.transform()) ==> m.modelled(),
        m.modelled() ==> m.remaining().len() == m.inner().remaining().len(),
        m.modelled() ==> forall|i: int|
            0 <= i < m.remaining().len() ==> #[trigger] m.remaining()[i] == applied(
                m.transform(),
                m.inner().remaining()[i],
            ),
        m.left() == m.inner().left(),
{
    assert(m.transform() == m.predicator);
    if forall|x: I::Item| m.predicator.requires((x,)) {
        assert forall|x: I::Item| m.transform().requires((x,)) by {
            assert(m.predicator.requires((x,)));
        }
    }
}

} // verus!
