//! `map`: what a closure makes of each item.

use vstd::prelude::*;
use crate::traversal::{Mapped, Traversal};
use crate::visit::{
    Visitor, answered, continues, lemma_continues_refl, lemma_continues_trans,
    lemma_visited_continues, news,
};

verus! {

/// The visitor that `Mapped` drives its inner traversal with.
pub struct MapVisitor<F, V, A> {
    pub closure: F,
    pub inner: V,
    pub log: Ghost<Seq<A>>,
    pub base: Ghost<nat>,
}

impl<A, O, F: FnMut(A) -> O, V: Visitor<O>> Visitor<A> for MapVisitor<F, V, A> {
    open spec fn wf(&self) -> bool {
        &&& self.inner.wf()
        &&& self.base@ <= self.inner.seen().len()
        &&& answered(self.closure, self.log@, self.inner.seen().skip(self.base@ as int))
    }

    open spec fn seen(&self) -> Seq<A> {
        self.log@
    }

    open spec fn halted(&self) -> bool {
        self.inner.halted()
    }

    open spec fn accepts(&self, item: A) -> bool {
        &&& call_requires(self.closure, (item,))
        &&& forall|o: O| call_ensures(self.closure, (item,), o) ==> self.inner.accepts(o)
    }

    open spec fn patience(&self) -> Option<nat> {
        self.inner.patience()
    }

    open spec fn evolves(&self, later: &Self) -> bool {
        &&& self.closure == later.closure
        &&& self.base == later.base
        &&& continues(&self.inner, &later.inner)
    }

    proof fn evolves_refl(&self) {
        lemma_continues_refl(&self.inner);
    }

    proof fn evolves_trans(&self, mid: &Self, last: &Self) {
        lemma_continues_trans(&self.inner, &mid.inner, &last.inner);
    }

    fn visit(&mut self, item: A) -> (stop: bool) {
        let ghost before = self.inner;
        let o = (self.closure)(item);
        let stop = self.inner.visit(o);
        proof {
            self.log@ = self.log@.push(item);
            lemma_visited_continues(&before, o, &self.inner, stop);
            assert(self.inner.seen().skip(self.base@ as int) =~= before.seen().skip(
                self.base@ as int,
            ).push(o));
        }
        stop
    }
}

impl<I: Traversal, O, F: FnMut(I::Item) -> O> Traversal for Mapped<I, F> {
    type Item = O;

    open spec fn wf(&self) -> bool {
        &&& self.iter.wf()
        &&& forall|x: I::Item| #[trigger] self.iter.may_emit(x) ==> call_requires(self.closure, (x,))
    }

    open spec fn finite(&self) -> bool {
        self.iter.finite()
    }

    open spec fn may_emit(&self, item: O) -> bool {
        exists|x: I::Item| self.iter.may_emit(x) && call_ensures(self.closure, (x,), item)
    }

    open spec fn emits(&self, items: Seq<O>, done: bool) -> bool {
        exists|inner: Seq<I::Item>| #[trigger]
            self.iter.emits(inner, done) && answered(self.closure, inner, items)
    }

    fn foreach<V: Visitor<O>>(self, visitor: V) -> (out: V) {
        let ghost base = visitor.seen().len();
        let first = MapVisitor {
            closure: self.closure,
            inner: visitor,
            log: Ghost(Seq::empty()),
            base: Ghost(base),
        };
        proof {
            assert(visitor.seen().skip(base as int) =~= Seq::empty());
            assert forall|x: I::Item| #[trigger] self.iter.may_emit(x) implies first.accepts(x) by {
                assert forall|o: O| call_ensures(self.closure, (x,), o) implies visitor.accepts(
                    o,
                ) by {
                    assert(self.may_emit(o));
                }
            }
        }
        let last = self.iter.foreach(first);
        proof {
            assert(last.log@ =~= news(&first, &last));
        }
        last.inner
    }
}

} // verus!
