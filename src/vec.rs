//! The sequence container and its two cursors.
use vstd::prelude::*;

use crate::Iterator;

verus! {

/// A growable sequence whose elements keep their insertion order.
pub struct Vec<T> {
    vec: std::vec::Vec<T>,
}

impl<T> View for Vec<T> {
    type V = Seq<T>;

    closed spec fn view(&self) -> Seq<T> {
        self.vec@
    }
}

impl<T> Vec<T> {
    /// An empty container.
    pub fn new() -> (r: Self)
        ensures
            r@ == Seq::<T>::empty(),
    {
        Vec { vec: std::vec::Vec::new() }
    }

    /// Appends `value` at the end.
    pub fn add(&mut self, value: T)
        ensures
            final(self)@ == old(self)@.push(value),
    {
        self.vec.push(value);
    }

    /// A read-only cursor positioned before the first element: it yields a
    /// reference to each element in order, then `None` forever.
    pub fn iter(&self) -> (r: VecIterator<'_, T>)
        ensures
            r.ready(),
            r.modelled(),
            r.remaining() == self@.as_ref(),
            r.left() == self@.len(),
    {
        VecIterator { vec: self, idx: 0 }
    }

    /// An exclusive cursor over the elements in order. What is written
    /// through the references it hands out is what the container holds once
    /// the cursor and those references are gone.
    pub fn iter_mut(&mut self) -> (r: VecMutIterator<'_, T>)
        ensures
            r.rest@ == old(self)@,
            final(self)@ == final(r.rest)@,
    {
        VecMutIterator::new(self)
    }
}

/// Read-only cursor over a `Vec`: yields a shared reference to each element.
pub struct VecIterator<'a, T> {
    vec: &'a Vec<T>,
    idx: usize,
}

impl<'a, T> VecIterator<'a, T> {
    #[verifier::type_invariant]
    spec fn inv(&self) -> bool {
        self.idx <= self.vec@.len()
    }
}

impl<'a, T> Iterator for VecIterator<'a, T> {
    type Item = &'a T;

    open spec fn ready(&self) -> bool {
        true
    }

    open spec fn modelled(&self) -> bool {
        true
    }

    closed spec fn remaining(&self) -> Seq<&'a T> {
        self.vec@.as_ref().skip(self.idx as int)
    }

    closed spec fn left(&self) -> nat {
        (self.vec@.len() - self.idx) as nat
    }

    fn next(&mut self) -> (r: Option<&'a T>) {
        proof {
            use_type_invariant(&*self);
        }
        if self.idx >= self.vec.vec.len() {
            None
        } else {
            let item = &self.vec.vec[self.idx];
            self.idx = self.idx + 1;
            assert(self.remaining() =~= old(self).remaining().drop_first());
            assert(self.left() < old(self).left());
            Some(item)
        }
    }
}

/// Exclusive cursor over a `Vec`: yields a mutable reference to each element.
///
/// It holds the part of the buffer not handed out yet; each step splits the
/// first element off, so no two references it yields overlap, and none
/// reaches past the end.
pub struct VecMutIterator<'a, T> {
    /// The elements not handed out yet.
    pub rest: &'a mut [T],
}

impl<'a, T> VecMutIterator<'a, T> {
    fn new(v: &'a mut Vec<T>) -> (r: Self)
        ensures
            r.rest@ == old(v)@,
            final(v)@ == final(r.rest)@,
    {
        VecMutIterator { rest: v.vec.as_mut_slice() }
    }
}

impl<'a, T> Iterator for VecMutIterator<'a, T> {
    type Item = &'a mut T;

    open spec fn ready(&self) -> bool {
        true
    }

    /// The references still to come are not values that exist yet; what is
    /// known of them is stated by `next` over `rest`.
    open spec fn modelled(&self) -> bool {
        false
    }

    open spec fn remaining(&self) -> Seq<&'a mut T> {
        Seq::empty()
    }

    open spec fn left(&self) -> nat {
        self.rest@.len()
    }

    fn next(&mut self) -> (r: Option<&'a mut T>)
        ensures
            r is None <==> old(self).rest@.len() == 0,
            r is None ==> final(self).rest@ == old(self).rest@,
            r is Some ==> *r->0 == old(self).rest@[0],
            r is Some ==> final(self).rest@ == old(self).rest@.drop_first(),
            final(old(self).rest)@ == (if r is Some {
                seq![*final(r->0)]
            } else {
                Seq::empty()
            }) + final(final(self).rest)@,
    {
        let mut s: &'a mut [T] = &mut [];
        std::mem::swap(&mut s, &mut self.rest);
        if s.len() == 0 {
            self.rest = s;
            None
        } else {
            let (head, tail) = s.split_at_mut(1);
            self.rest = tail;
            assert(self.left() < old(self).left());
            head.first_mut()
        }
    }
}

} // verus!
