//! `cloned`: a clone of what each item refers to.

use vstd::prelude::*;
use std::ops::Deref;
use crate::traversal::{Cloned, Traversal};
use crate::visit::{
    Visitor, continues, lemma_continues_refl, lemma_continues_trans, lemma_visited_continues, news,
};

verus! {

/// `o` can be what cloning the target of `d` gives.
pub open spec fn copied<D: Deref>(d: D, o: D::Target) -> bool where D::Target: Clone {
    exists|target: &D::Target|
        call_ensures(<D as Deref>::deref, (&d,), target) && #[trigger] call_ensures(
            <D::Target as Clone>::clone,
            (target,),
            o,
        )
}

/// Each item of `items` can be what cloning the target of the reference at
/// its place in `refs` gives.
pub open spec fn copies<D: Deref>(refs: Seq<D>, items: Seq<D::Target>) -> bool where D::Target: Clone {
    &&& refs.len() == items.len()
    &&& forall|i: int|
        #![trigger refs[i]]
        #![trigger items[i]]
        0 <= i < refs.len() ==> copied(refs[i], items[i])
}

/// The visitor that `Cloned` drives its inner traversal with.
pub struct ClonedVisitor<V, D> {
    pub inner: V,
    pub log: Ghost<Seq<D>>,
    pub base: Ghost<nat>,
}

impl<D: Deref, V: Visitor<D::Target>> Visitor<D> for ClonedVisitor<V, D> where D::Target: Clone {
    open spec fn wf(&self) -> bool {
        &&& self.inner.wf()
        &&& self.base@ <= self.inner.seen().len()
        &&& copies(self.log@, self.inner.seen().skip(self.base@ as int))
    }

    open spec fn seen(&self) -> Seq<D> {
        self.log@
    }

    open spec fn halted(&self) -> bool {
        self.inner.halted()
    }

    open spec fn accepts(&self, item: D) -> bool {
        forall|o: D::Target| copied(item, o) ==> self.inner.accepts(o)
    }

    open spec fn patience(&self) -> Option<nat> {
        self.inner.patience()
    }

    open spec fn evolves(&self, later: &Self) -> bool {
        &&& self.base == later.base
        &&& continues(&self.inner, &later.inner)
    }

    proof fn evolves_refl(&self) {
        lemma_continues_refl(&self.inner);
    }

    proof fn evolves_trans(&self, mid: &Self, last: &Self) {
        lemma_continues_trans(&self.inner, &mid.inner, &last.inner);
    }

    fn visit(&mut self, item: D) -> (stop: bool) {
        let ghost before = self.inner;
        let o = item.deref().clone();
        assert(copied(item, o));
        let stop = self.inner.visit(o);
        proof {
            self.log@ = self.log@.push(item);
            lemma_visited_continues(&before, o, &self.inner, stop);
            assert(self.inner.seen().skip(self.base@ as int) =~= before.seen().skip(
                self.base@ as int,
            ).push(o));
        }
        stop
    }
}

impl<I: Traversal> Traversal for Cloned<I> where
    I::Item: Deref,
    <I::Item as Deref>::Target: Clone,
 {
    type Item = <I::Item as Deref>::Target;

    open spec fn wf(&self) -> bool {
        self.iter.wf()
    }

    open spec fn finite(&self) -> bool {
        self.iter.finite()
    }

    open spec fn may_emit(&self, item: Self::Item) -> bool {
        exists|d: I::Item| self.iter.may_emit(d) && copied(d, item)
    }

    open spec fn emits(&self, items: Seq<Self::Item>, done: bool) -> bool {
        exists|refs: Seq<I::Item>| #[trigger] self.iter.emits(refs, done) && copies(refs, items)
    }

    fn foreach<V: Visitor<Self::Item>>(self, visitor: V) -> (out: V) {
        let ghost base = visitor.seen().len();
        let first = ClonedVisitor { inner: visitor, log: Ghost(Seq::empty()), base: Ghost(base) };
        proof {
            assert(visitor.seen().skip(base as int) =~= Seq::empty());
            assert forall|x: I::Item| #[trigger] self.iter.may_emit(x) implies first.accepts(x) by {
                assert forall|o: Self::Item| copied(x, o) implies visitor.accepts(o) by {
                    assert(self.may_emit(o));
                }
            }
        }
        let last = self.iter.foreach(first);
        proof {
            assert(last.log@ =~= news(&first, &last));
        }
        last.inner
    }
}

} // verus!
