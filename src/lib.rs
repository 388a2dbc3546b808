//! A growable sequence container with a pull-based cursor protocol and
//! composable adapters (`filter`, `map`, `find`, `fold`).
use vstd::prelude::*;

pub mod adapters;
pub mod vec;

pub use adapters::{Filter, MapIter};
pub use vec::{Vec, VecIterator, VecMutIterator};

verus! {

/// Pull-based iteration: one primitive, `next`, and operations derived from it.
///
/// A cursor whose `modelled` holds produces exactly `remaining()`, in order,
/// and then `None` forever. `left` bounds how many items may still come; it
/// strictly drops with each item produced, for every cursor.
pub trait Iterator {
    type Item;

    /// Whether the cursor may be advanced: every function it calls accepts
    /// every item it may be handed.
    spec fn ready(&self) -> bool;

    /// Whether `remaining` describes exactly what the cursor will produce.
    spec fn modelled(&self) -> bool;

    /// The items still to come, first to last.
    spec fn remaining(&self) -> Seq<Self::Item>;

    /// A bound on the number of items still to come.
    spec fn left(&self) -> nat;

    /// Produces the next item, or `None` once the cursor is exhausted.
    fn next(&mut self) -> (r: Option<Self::Item>)
        requires
            old(self).ready(),
        ensures
            final(self).ready(),
            r is Some ==> final(self).left() < old(self).left(),
            old(self).modelled() ==> final(self).modelled(),
            old(self).modelled() ==> pops(old(self).remaining(), r, final(self).remaining()),
    ;

    /// A cursor over the items of this one that `predicate` accepts.
    fn filter<P>(self, predicate: P) -> (r: Filter<Self, P>)
        where
            Self: Sized,
            P: Fn(&Self::Item) -> bool,
        ensures
            r.inner() == self,
            r.predicate() == predicate,
    {
        Filter::new(self, predicate)
    }

    /// Pulls items until one satisfies `predicate` and returns it; the cursor
    /// is left just past that item, or exhausted when none does.
    fn find<P>(&mut self, predicate: P) -> (r: Option<Self::Item>)
        where
            Self: Sized,
            P: Fn(&Self::Item) -> bool,
        requires
            old(self).ready(),
            forall|x: Self::Item| predicate.requires((&x,)),
        ensures
            final(self).ready(),
            r is Some ==> keeps(predicate, r->0),
            old(self).modelled() ==> final(self).modelled(),
            old(self).modelled() ==> found(
                old(self).remaining(),
                predicate,
                r,
                final(self).remaining(),
            ),
    {
        let ghost start = self.remaining();
        let ghost mut n: int = 0;
        loop
            invariant
                self.ready(),
                forall|x: Self::Item| predicate.requires((&x,)),
                old(self).modelled() ==> self.modelled(),
                old(self).modelled() ==> 0 <= n <= start.len(),
                old(self).modelled() ==> self.remaining() == start.skip(n),
                old(self).modelled() ==> forall|j: int|
                    0 <= j < n ==> rejects(predicate, #[trigger] start[j]),
                start == old(self).remaining(),
            decreases self.left(),
        {
            match self.next() {
                None => {
                    return None;
                },
                Some(v) => {
                    proof {
                        if old(self).modelled() {
                            assert(v == start[n]);
                            assert(self.remaining() =~= start.skip(n + 1));
                        }
                    }
                    let hit = predicate(&v);
                    if hit {
                        proof {
                            if old(self).modelled() {
                                assert(found(start, predicate, Some(v), self.remaining()));
                            }
                        }
                        return Some(v);
                    }
                    proof {
                        if old(self).modelled() {
                            assert(rejects(predicate, start[n]));
                        }
                        n = n + 1;
                    }
                },
            }
        }
    }

    /// A cursor over `transform` applied to each item of this one.
    fn map<P, B>(self, transform: P) -> (r: MapIter<Self, P>)
        where
            Self: Sized,
            P: Fn(Self::Item) -> B,
        ensures
            r.inner() == self,
            r.transform() == transform,
    {
        MapIter::new(self, transform)
    }

    /// Combines `init` with every item left, first to last, and returns the
    /// result.
    fn fold<F, B>(self, init: B, combine: F) -> (r: B)
        where
            Self: Sized,
            F: Fn(B, Self::Item) -> B,
        requires
            self.ready(),
            forall|a: B, x: Self::Item| combine.requires((a, x)),
        ensures
            self.modelled() && self.remaining().len() == 0 ==> r == init,
            self.modelled() ==> folded(combine, init, self.remaining(), r),
    {
        let mut it = self;
        let mut accum = init;
        let ghost start = it.remaining();
        let ghost mut n: int = 0;
        loop
            invariant
                it.ready(),
                forall|a: B, x: Self::Item| combine.requires((a, x)),
                self.modelled() ==> it.modelled(),
                self.modelled() ==> 0 <= n <= start.len(),
                self.modelled() ==> it.remaining() == start.skip(n),
                self.modelled() ==> folded(combine, init, start.take(n), accum),
                start == self.remaining(),
            decreases it.left(),
        {
            match it.next() {
                None => {
                    proof {
                        if self.modelled() {
                            assert(start.take(n) =~= start);
                        }
                    }
                    return accum;
                },
                Some(x) => {
                    proof {
                        if self.modelled() {
                            assert(start.take(n + 1).drop_last() =~= start.take(n));
                            assert(it.remaining() =~= start.skip(n + 1));
                            assert(x == start[n]);
                        }
                    }
                    let ghost prev = accum;
                    accum = combine(accum, x);
                    proof {
                        if self.modelled() {
                            assert(start.take(n + 1).last() == x);
                            assert(folded(combine, init, start.take(n + 1), accum));
                        }
                        n = n + 1;
                    }
                },
            }
        }
    }
}

/// `r` is what a cursor yields when its items to come go from `before` to
/// `after`: the first item, or `None` when nothing is left.
pub open spec fn pops<A>(before: Seq<A>, r: Option<A>, after: Seq<A>) -> bool {
    if before.len() > 0 {
        r == Some(before[0]) && after == before.drop_first()
    } else {
        r is None && after == before
    }
}

/// `p` accepts `x`: `p(&x)` may return `true`.
pub open spec fn keeps<A, P: Fn(&A) -> bool>(p: P, x: A) -> bool {
    p.ensures((&x,), true)
}

/// `p` rejects `x`: `p(&x)` may return `false`.
pub open spec fn rejects<A, P: Fn(&A) -> bool>(p: P, x: A) -> bool {
    p.ensures((&x,), false)
}

/// `p` may be called on every item and gives one answer for each.
pub open spec fn decides<A, P: Fn(&A) -> bool>(p: P) -> bool {
    &&& forall|x: A| #[trigger] p.requires((&x,))
    &&& forall|x: A, b: bool| #[trigger] p.ensures((&x,), b) ==> b == keeps(p, x)
}

/// The items of `s` that `p` keeps, in their order.
pub open spec fn kept<A, P: Fn(&A) -> bool>(s: Seq<A>, p: P) -> Seq<A> {
    s.filter(|x: A| keeps(p, x))
}

/// `r` is the first item of `before` that `p` accepted, every item before it
/// having been rejected, and `after` is what follows it; or `p` rejected
/// every item, `r` is `None` and nothing follows.
pub open spec fn found<A, P: Fn(&A) -> bool>(
    before: Seq<A>,
    p: P,
    r: Option<A>,
    after: Seq<A>,
) -> bool {
    match r {
        Some(x) => exists|k: int|
            0 <= k < before.len() && before[k] == x && keeps(p, x) && (forall|j: int|
                0 <= j < k ==> rejects(p, #[trigger] before[j])) && after == before.skip(k + 1),
        None => (forall|j: int| 0 <= j < before.len() ==> rejects(p, #[trigger] before[j]))
            && after.len() == 0,
    }
}

/// `r` comes from `init` by combining with the items of `s` first to last:
/// `combine(...combine(init, s[0])..., s[n-1])`, each step a value that
/// `combine` may return.
pub open spec fn folded<A, B, F: Fn(B, A) -> B>(combine: F, init: B, s: Seq<A>, r: B) -> bool
    decreases s.len(),
{
    if s.len() == 0 {
        r == init
    } else {
        exists|mid: B|
            folded(combine, init, s.drop_last(), mid) && #[trigger] combine.ensures(
                (mid, s.last()),
                r,
            )
    }
}

/// Where `combine` computes `g`, a folded result is the left fold of `g`:
/// `g(g(...g(init, s[0])...), s[n-1])`, and `init` itself over no items.
pub proof fn lemma_folded_is_fold_left<A, B, F: Fn(B, A) -> B>(
    combine: F,
    g: spec_fn(B, A) -> B,
    init: B,
    s: Seq<A>,
    r: B,
)
    requires
        folded(combine, init, s, r),
        forall|a: B, x: A, b: B| #[trigger] combine.ensures((a, x), b) ==> b == g(a, x),
    ensures
        r == s.fold_left(init, g),
    decreases s.len(),
{
    if s.len() > 0 {
        let mid = choose|mid: B|
            folded(combine, init, s.drop_last(), mid) && #[trigger] combine.ensures(
                (mid, s.last()),
                r,
            );
        lemma_folded_is_fold_left(combine, g, init, s.drop_last(), mid);
    }
}

/// The value that `f` gives for `x`.
pub open spec fn applied<A, B, F: Fn(A) -> B>(f: F, x: A) -> B {
    choose|y: B| f.ensures((x,), y)
}

/// `f` may be called on every item and gives one value for each.
pub open spec fn maps<A, B, F: Fn(A) -> B>(f: F) -> bool {
    &&& forall|x: A| #[trigger] f.requires((x,))
    &&& forall|x: A, y: B| #[trigger] f.ensures((x,), y) ==> y == applied(f, x)
}

} // verus!
