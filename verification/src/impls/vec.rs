//! Vectors: a vector turns into a traversal that gives its elements away, and
//! can be built from one.

use vstd::prelude::*;
use vstd::std_specs::iter::IteratorSpec;
use crate::bridge::pull;
use crate::traversal::{FromTraversal, IntoTraversal, Traversal, begins};
use crate::visit::{Visitor, news};

verus! {

/// A traversal that hands out the elements of a vector, by value and in
/// order.
pub struct Elements<T> {
    pub items: Vec<T>,
}

impl<T> Traversal for Elements<T> {
    type Item = T;

    open spec fn wf(&self) -> bool {
        true
    }

    open spec fn finite(&self) -> bool {
        true
    }

    open spec fn may_emit(&self, item: T) -> bool {
        self.items@.contains(item)
    }

    open spec fn emits(&self, items: Seq<T>, done: bool) -> bool {
        begins(self.items@, items, done)
    }

    fn foreach<V: Visitor<T>>(self, visitor: V) -> (out: V) {
        let iter = self.items.into_iter();
        proof {
            assert forall|i: int| 0 <= i < iter.remaining().len() implies visitor.accepts(
                iter.remaining()[i],
            ) by {
                assert(self.may_emit(self.items@[i]));
            }
        }
        pull(iter, visitor)
    }

    fn size_hint(&self) -> (hint: (usize, Option<usize>))
        ensures
            hint == (self.items@.len() as usize, Some(self.items@.len() as usize)),
    {
        (self.items.len(), Some(self.items.len()))
    }
}

impl<T> IntoTraversal for Vec<T> {
    type IntoTrav = Elements<T>;

    type Item = T;

    open spec fn traversal(self) -> Elements<T> {
        Elements { items: self }
    }

    fn into_traversal(self) -> Elements<T> {
        Elements { items: self }
    }
}

/// The visitor that fills a vector: it appends every item and never stops.
pub struct VecSink<T> {
    pub vec: Vec<T>,
}

impl<T> Visitor<T> for VecSink<T> {
    open spec fn wf(&self) -> bool {
        true
    }

    open spec fn seen(&self) -> Seq<T> {
        self.vec@
    }

    open spec fn halted(&self) -> bool {
        false
    }

    open spec fn accepts(&self, item: T) -> bool {
        true
    }

    open spec fn patience(&self) -> Option<nat> {
        None
    }

    open spec fn evolves(&self, later: &Self) -> bool {
        true
    }

    proof fn evolves_refl(&self) {
    }

    proof fn evolves_trans(&self, mid: &Self, last: &Self) {
    }

    fn visit(&mut self, item: T) -> (stop: bool) {
        self.vec.push(item);
        false
    }
}

impl<T> FromTraversal<T> for Vec<T> {
    /// The vector holds the items, in their order.
    open spec fn holds(&self, items: Seq<T>) -> bool {
        self@ == items
    }

    fn from_traversal<I: IntoTraversal<Item = T>>(traversable: I) -> (d: Self) {
        let trav = traversable.into_traversal();
        let new = Vec::with_capacity(trav.size_hint().0);
        let first = VecSink { vec: new };
        let last = trav.foreach(first);
        proof {
            assert(last.vec@ =~= news(&first, &last));
        }
        last.vec
    }
}

} // verus!
