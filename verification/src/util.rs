//! Small support types shared across the kernel.

use vstd::prelude::*;

verus! {

/// A vector that provably holds at least one element.
///
/// Used wherever evidence is mandatory: a disagreement without residue or
/// a revocation without supporting records is unrepresentable because this
/// type has no empty constructor.
#[derive(Debug, Clone, PartialEq, Eq, PartialOrd, Ord)]
pub struct NonEmpty<T> {
    head: T,
    tail: Vec<T>,
}

impl<T: View> View for NonEmpty<T> {
    type V = Seq<T::V>;

    closed spec fn view(&self) -> Seq<T::V> {
        seq![self.head@] + self.tail@.map_values(|x: T| x@)
    }
}

impl<T: View> NonEmpty<T> {
    pub proof fn lemma_not_empty(&self)
        ensures
            self@.len() >= 1,
    {
    }

    pub fn new(head: T) -> (r: Self)
        ensures
            r@ == seq![head@],
    {
        let r = NonEmpty { head, tail: Vec::new() };
        assert(r@ =~= seq![head@]);
        r
    }

    pub fn from_vec(items: Vec<T>) -> (r: Option<Self>)
        ensures
            items@.len() == 0 <==> r.is_none(),
            r matches Some(ne) ==> ne@ == items@.map_values(|x: T| x@),
    {
        let mut items = items;
        if items.len() == 0 {
            return None;
        }
        let ghost all = items@;
        let head = items.remove(0);
        let r = NonEmpty { head, tail: items };
        assert(r@ =~= all.map_values(|x: T| x@));
        Some(r)
    }

    pub fn push(&mut self, item: T)
        ensures
            final(self)@ == old(self)@.push(item@),
    {
        let ghost before = self@;
        let ghost iv = item@;
        self.tail.push(item);
        assert(self@ =~= before.push(iv));
    }

    pub fn len(&self) -> (n: usize)
        requires
            self@.len() <= usize::MAX,
        ensures
            n == self@.len(),
    {
        1 + self.tail.len()
    }

    /// The index of the last element (one less than the length).
    pub fn last_index(&self) -> (n: usize)
        ensures
            n + 1 == self@.len(),
    {
        self.tail.len()
    }

    pub fn is_empty(&self) -> (b: bool)
        ensures
            b == (self@.len() == 0),
            !b,
    {
        false
    }

    pub fn first(&self) -> (r: &T)
        ensures
            r@ == self@[0],
    {
        &self.head
    }

    /// The element at position `i`.
    pub fn at(&self, i: usize) -> (r: &T)
        requires
            i < self@.len(),
        ensures
            r@ == self@[i as int],
    {
        if i == 0 {
            &self.head
        } else {
            &self.tail[i - 1]
        }
    }

    pub fn into_vec(self) -> (v: Vec<T>)
        ensures
            v@.map_values(|x: T| x@) == self@,
    {
        let ghost s = self@;
        let mut v = self.tail;
        v.insert(0, self.head);
        assert(v@.map_values(|x: T| x@) =~= s);
        v
    }
}

impl<T: View + Copy> NonEmpty<T> {
    /// An independent copy.
    pub fn duplicate(&self) -> (r: Self)
        ensures
            r@ == self@,
    {
        let mut tail: Vec<T> = Vec::new();
        let mut i: usize = 0;
        while i < self.tail.len()
            invariant
                i <= self.tail@.len(),
                tail@ == self.tail@.subrange(0, i as int),
            decreases self.tail@.len() - i,
        {
            tail.push(self.tail[i]);
            i = i + 1;
            assert(tail@ =~= self.tail@.subrange(0, i as int));
        }
        assert(tail@ =~= self.tail@);
        NonEmpty { head: self.head, tail }
    }

    /// The elements in order, as a vector (the way to walk them).
    pub fn to_vec(&self) -> (v: Vec<T>)
        ensures
            v@.map_values(|x: T| x@) == self@,
    {
        self.duplicate().into_vec()
    }
}

} // verus!
