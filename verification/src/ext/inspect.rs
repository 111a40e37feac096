//! `inspect`: every item, shown to a closure first.

use vstd::prelude::*;
use crate::traversal::{Inspect, Traversal};
use crate::visit::{
    Visitor, continues, lemma_continues_refl, lemma_continues_trans, lemma_visited_continues,
};

verus! {

/// `f` was shown every item of `items`.
pub open spec fn shown<T, F: FnMut(&T)>(f: F, items: Seq<T>) -> bool {
    forall|i: int| 0 <= i < items.len() ==> call_ensures(f, (&#[trigger] items[i],), ())
}

/// The visitor that `Inspect` drives its inner traversal with.
pub struct InspectVisitor<F, V> {
    pub closure: F,
    pub inner: V,
    pub base: Ghost<nat>,
}

impl<A, F: FnMut(&A), V: Visitor<A>> Visitor<A> for InspectVisitor<F, V> {
    open spec fn wf(&self) -> bool {
        &&& self.inner.wf()
        &&& self.base@ <= self.inner.seen().len()
        &&& shown(self.closure, self.inner.seen().skip(self.base@ as int))
    }

    open spec fn seen(&self) -> Seq<A> {
        self.inner.seen()
    }

    open spec fn halted(&self) -> bool {
        self.inner.halted()
    }

    open spec fn accepts(&self, item: A) -> bool {
        &&& call_requires(self.closure, (&item,))
        &&& self.inner.accepts(item)
    }

    open spec fn patience(&self) -> Option<nat> {
        self.inner.patience()
    }

    open spec fn evolves(&self, later: &Self) -> bool {
        &&& self.closure == later.closure
        &&& self.base == later.base
        &&& continues(&self.inner, &later.inner)
    }

    proof fn evolves_refl(&self) {
        lemma_continues_refl(&self.inner);
    }

    proof fn evolves_trans(&self, mid: &Self, last: &Self) {
        lemma_continues_trans(&self.inner, &mid.inner, &last.inner);
    }

    fn visit(&mut self, item: A) -> (stop: bool) {
        let ghost before = self.inner;
        (self.closure)(&item);
        let stop = self.inner.visit(item);
        proof {
            lemma_visited_continues(&before, item, &self.inner, stop);
            assert(self.inner.seen().skip(self.base@ as int) =~= before.seen().skip(
                self.base@ as int,
            ).push(item));
        }
        stop
    }
}

impl<I: Traversal, F: FnMut(&I::Item)> Traversal for Inspect<I, F> {
    type Item = I::Item;

    open spec fn wf(&self) -> bool {
        &&& self.iter.wf()
        &&& forall|x: I::Item| #[trigger]
            self.iter.may_emit(x) ==> call_requires(self.closure, (&x,))
    }

    open spec fn finite(&self) -> bool {
        self.iter.finite()
    }

    open spec fn may_emit(&self, item: I::Item) -> bool {
        self.iter.may_emit(item)
    }

    open spec fn emits(&self, items: Seq<I::Item>, done: bool) -> bool {
        self.iter.emits(items, done) && shown(self.closure, items)
    }

    fn foreach<V: Visitor<I::Item>>(self, visitor: V) -> (out: V) {
        let ghost base = visitor.seen().len();
        let first = InspectVisitor { closure: self.closure, inner: visitor, base: Ghost(base) };
        proof {
            assert(visitor.seen().skip(base as int) =~= Seq::empty());
            assert forall|x: I::Item| #[trigger] self.iter.may_emit(x) implies first.accepts(x) by {
                assert(self.may_emit(x));
            }
        }
        let last = self.iter.foreach(first);
        last.inner
    }
}

} // verus!
