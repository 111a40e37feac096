//! `filter_map`: the payloads of what a closure makes of the items.

use vstd::prelude::*;
use crate::traversal::{FilterMap, Traversal};
use crate::visit::{
    Visitor, answered, continues, lemma_continues_refl, lemma_continues_trans,
    lemma_visited_continues, news,
};

verus! {

/// The payloads of the values of `outputs` that hold one, in their order.
pub open spec fn picked<O>(outputs: Seq<Option<O>>) -> Seq<O>
    decreases outputs.len(),
{
    if outputs.len() == 0 {
        Seq::empty()
    } else {
        match outputs.last() {
            Some(o) => picked(outputs.drop_last()).push(o),
            None => picked(outputs.drop_last()),
        }
    }
}

/// Picking from one value more adds its payload, if it has one.
pub proof fn lemma_picked_push<O>(outputs: Seq<Option<O>>, x: Option<O>)
    ensures
        picked(outputs.push(x)) == match x {
            Some(o) => picked(outputs).push(o),
            None => picked(outputs),
        },
{
    assert(outputs.push(x).drop_last() =~= outputs);
}

/// The visitor that `FilterMap` drives its inner traversal with.
pub struct FilterMapVisitor<F, V, A, O> {
    pub predicate: F,
    pub inner: V,
    pub log: Ghost<Seq<A>>,
    pub outputs: Ghost<Seq<Option<O>>>,
    pub base: Ghost<nat>,
}

impl<A, O, F: FnMut(A) -> Option<O>, V: Visitor<O>> Visitor<A> for FilterMapVisitor<F, V, A, O> {
    open spec fn wf(&self) -> bool {
        &&& self.inner.wf()
        &&& self.base@ <= self.inner.seen().len()
        &&& answered(self.predicate, self.log@, self.outputs@)
        &&& self.inner.seen().skip(self.base@ as int) =~= picked(self.outputs@)
    }

    open spec fn seen(&self) -> Seq<A> {
        self.log@
    }

    open spec fn halted(&self) -> bool {
        self.inner.halted()
    }

    open spec fn accepts(&self, item: A) -> bool {
        &&& call_requires(self.predicate, (item,))
        &&& forall|o: O| call_ensures(self.predicate, (item,), Some(o)) ==> self.inner.accepts(o)
    }

    open spec fn patience(&self) -> Option<nat> {
        None
    }

    open spec fn evolves(&self, later: &Self) -> bool {
        &&& self.predicate == later.predicate
        &&& self.base == later.base
        &&& continues(&self.inner, &later.inner)
    }

    proof fn evolves_refl(&self) {
        lemma_continues_refl(&self.inner);
    }

    proof fn evolves_trans(&self, mid: &Self, last: &Self) {
        lemma_continues_trans(&self.inner, &mid.inner, &last.inner);
    }

    fn visit(&mut self, item: A) -> (stop: bool) {
        let ghost before = self.inner;
        proof {
            lemma_continues_refl(&before);
        }
        let output = (self.predicate)(item);
        proof {
            lemma_picked_push(self.outputs@, output);
            self.log@ = self.log@.push(item);
            self.outputs@ = self.outputs@.push(output);
        }
        match output {
            Some(o) => {
                let stop = self.inner.visit(o);
                proof {
                    lemma_visited_continues(&before, o, &self.inner, stop);
                    assert(self.inner.seen().skip(self.base@ as int) =~= before.seen().skip(
                        self.base@ as int,
                    ).push(o));
                }
                stop
            },
            None => false,
        }
    }
}

impl<O, I: Traversal, F: FnMut(I::Item) -> Option<O>> Traversal for FilterMap<I, F> {
    type Item = O;

    open spec fn wf(&self) -> bool {
        &&& self.iter.wf()
        &&& self.iter.finite()
        &&& forall|x: I::Item| #[trigger]
            self.iter.may_emit(x) ==> call_requires(self.predicate, (x,))
    }

    open spec fn finite(&self) -> bool {
        self.iter.finite()
    }

    open spec fn may_emit(&self, item: O) -> bool {
        exists|x: I::Item| self.iter.may_emit(x) && call_ensures(self.predicate, (x,), Some(item))
    }

    open spec fn emits(&self, items: Seq<O>, done: bool) -> bool {
        exists|inner: Seq<I::Item>, outputs: Seq<Option<O>>|
            self.iter.emits(inner, done) && #[trigger] answered(self.predicate, inner, outputs)
                && items =~= picked(outputs)
    }

    fn foreach<V: Visitor<O>>(self, visitor: V) -> (out: V) {
        let ghost base = visitor.seen().len();
        let first = FilterMapVisitor {
            predicate: self.predicate,
            inner: visitor,
            log: Ghost(Seq::empty()),
            outputs: Ghost(Seq::empty()),
            base: Ghost(base),
        };
        proof {
            assert(visitor.seen().skip(base as int) =~= Seq::empty());
            assert forall|x: I::Item| #[trigger] self.iter.may_emit(x) implies first.accepts(x) by {
                assert forall|o: O|
                    call_ensures(self.predicate, (x,), Some(o)) implies visitor.accepts(o) by {
                    assert(self.may_emit(o));
                }
            }
        }
        let last = self.iter.foreach(first);
        proof {
            assert(last.log@ =~= news(&first, &last));
            assert(answered(self.predicate, last.log@, last.outputs@));
        }
        last.inner
    }
}

} // verus!
