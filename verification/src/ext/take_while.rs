//! `take_while`: the leading items of which a predicate holds.

use vstd::prelude::*;
use crate::traversal::{TakeWhile, Traversal};
use crate::visit::{
    Visitor, continues, lemma_continues_refl, lemma_continues_trans, lemma_visited_continues, news,
};

verus! {

/// `pred` holds of every item of `items`.
pub open spec fn all_pass<T, F: FnMut(&T) -> bool>(pred: F, items: Seq<T>) -> bool {
    forall|i: int| 0 <= i < items.len() ==> call_ensures(pred, (&#[trigger] items[i],), true)
}

/// The visitor that `TakeWhile` drives its inner traversal with.
pub struct TakeWhileVisitor<F, V, A> {
    pub predicate: F,
    pub inner: V,
    pub failed: bool,
    pub log: Ghost<Seq<A>>,
    pub base: Ghost<nat>,
}

impl<A, F: FnMut(&A) -> bool, V: Visitor<A>> TakeWhileVisitor<F, V, A> {
    /// The items that were passed on: all that were seen, but for the one of
    /// which the predicate failed.
    pub open spec fn passed(&self) -> Seq<A> {
        if self.failed {
            self.log@.drop_last()
        } else {
            self.log@
        }
    }
}

impl<A, F: FnMut(&A) -> bool, V: Visitor<A>> Visitor<A> for TakeWhileVisitor<F, V, A> {
    open spec fn wf(&self) -> bool {
        &&& self.inner.wf()
        &&& self.base@ <= self.inner.seen().len()
        &&& self.failed ==> self.log@.len() > 0 && !self.inner.halted() && call_ensures(
            self.predicate,
            (&self.log@.last(),),
            false,
        )
        &&& all_pass(self.predicate, self.passed())
        &&& self.inner.seen().skip(self.base@ as int) =~= self.passed()
    }

    open spec fn seen(&self) -> Seq<A> {
        self.log@
    }

    open spec fn halted(&self) -> bool {
        self.inner.halted() || self.failed
    }

    open spec fn accepts(&self, item: A) -> bool {
        &&& call_requires(self.predicate, (&item,))
        &&& self.inner.accepts(item)
    }

    open spec fn patience(&self) -> Option<nat> {
        self.inner.patience()
    }

    open spec fn evolves(&self, later: &Self) -> bool {
        &&& self.predicate == later.predicate
        &&& self.base == later.base
        &&& continues(&self.inner, &later.inner)
    }

    proof fn evolves_refl(&self) {
        lemma_continues_refl(&self.inner);
    }

    proof fn evolves_trans(&self, mid: &Self, last: &Self) {
        lemma_continues_trans(&self.inner, &mid.inner, &last.inner);
    }

    fn visit(&mut self, item: A) -> (stop: bool) {
        let ghost before = self.inner;
        let ghost logged = self.log@;
        proof {
            lemma_continues_refl(&before);
            self.log@ = self.log@.push(item);
        }
        if (self.predicate)(&item) {
            let stop = self.inner.visit(item);
            proof {
                lemma_visited_continues(&before, item, &self.inner, stop);
                assert(self.inner.seen().skip(self.base@ as int) =~= before.seen().skip(
                    self.base@ as int,
                ).push(item));
            }
            stop
        } else {
            self.failed = true;
            proof {
                assert(self.log@.drop_last() =~= logged);
            }
            true
        }
    }
}

impl<I: Traversal, F: FnMut(&I::Item) -> bool> Traversal for TakeWhile<I, F> {
    type Item = I::Item;

    open spec fn wf(&self) -> bool {
        &&& self.iter.wf()
        &&& forall|x: I::Item| #[trigger]
            self.iter.may_emit(x) ==> call_requires(self.predicate, (&x,))
    }

    open spec fn finite(&self) -> bool {
        self.iter.finite()
    }

    open spec fn may_emit(&self, item: I::Item) -> bool {
        self.iter.may_emit(item)
    }

    /// The predicate holds of every item; either the inner traversal hands
    /// out `items`, or it hands out one more, of which the predicate fails
    /// and which is not passed on.
    open spec fn emits(&self, items: Seq<I::Item>, done: bool) -> bool {
        &&& all_pass(self.predicate, items)
        &&& {
            ||| self.iter.emits(items, done)
            ||| done && exists|longer: Seq<I::Item>| #[trigger]
                self.iter.emits(longer, false) && longer.len() > 0 && items =~= longer.drop_last()
                    && call_ensures(self.predicate, (&longer.last(),), false)
        }
    }

    fn foreach<V: Visitor<I::Item>>(self, visitor: V) -> (out: V) {
        let ghost base = visitor.seen().len();
        let first = TakeWhileVisitor {
            predicate: self.predicate,
            inner: visitor,
            failed: false,
            log: Ghost(Seq::empty()),
            base: Ghost(base),
        };
        proof {
            assert(visitor.seen().skip(base as int) =~= Seq::empty());
            assert forall|x: I::Item| #[trigger] self.iter.may_emit(x) implies first.accepts(x) by {
                assert(self.may_emit(x));
            }
        }
        let last = self.iter.foreach(first);
        proof {
            let inner = last.log@;
            let items = news(&visitor, &last.inner);
            assert(inner =~= news(&first, &last));
            assert(items =~= last.passed());
        }
        last.inner
    }
}

} // verus!
