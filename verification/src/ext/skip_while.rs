//! `skip_while`: all but the leading items of which a predicate holds.

use vstd::prelude::*;
use crate::traversal::{SkipWhile, Traversal};
use crate::visit::{
    Visitor, continues, lemma_continues_refl, lemma_continues_trans, lemma_visited_continues, news,
};

verus! {

/// `pred` holds of the first `k` items of `items`, and fails of the next, if
/// there is one.
pub open spec fn led<T, F: FnMut(&T) -> bool>(pred: F, items: Seq<T>, k: nat) -> bool {
    &&& k <= items.len()
    &&& forall|i: int| 0 <= i < k ==> call_ensures(pred, (&#[trigger] items[i],), true)
    &&& k < items.len() ==> call_ensures(pred, (&items[k as int],), false)
}

/// The visitor that `SkipWhile` drives its inner traversal with.
pub struct SkipWhileVisitor<F, V, A> {
    pub predicate: F,
    pub inner: V,
    pub flag: bool,
    pub log: Ghost<Seq<A>>,
    pub dropped: Ghost<nat>,
    pub base: Ghost<nat>,
}

impl<A, F: FnMut(&A) -> bool, V: Visitor<A>> Visitor<A> for SkipWhileVisitor<F, V, A> {
    open spec fn wf(&self) -> bool {
        &&& self.inner.wf()
        &&& self.base@ <= self.inner.seen().len()
        &&& led(self.predicate, self.log@, self.dropped@)
        &&& self.flag == (self.dropped@ < self.log@.len())
        &&& self.inner.seen().skip(self.base@ as int) =~= self.log@.skip(self.dropped@ as int)
    }

    open spec fn seen(&self) -> Seq<A> {
        self.log@
    }

    open spec fn halted(&self) -> bool {
        self.inner.halted()
    }

    open spec fn accepts(&self, item: A) -> bool {
        &&& call_requires(self.predicate, (&item,))
        &&& self.inner.accepts(item)
    }

    open spec fn patience(&self) -> Option<nat> {
        None
    }

    open spec fn evolves(&self, later: &Self) -> bool {
        &&& self.predicate == later.predicate
        &&& self.base == later.base
        &&& continues(&self.inner, &later.inner)
    }

    proof fn evolves_refl(&self) {
        lemma_continues_refl(&self.inner);
    }

    proof fn evolves_trans(&self, mid: &Self, last: &Self) {
        lemma_continues_trans(&self.inner, &mid.inner, &last.inner);
    }

    fn visit(&mut self, item: A) -> (stop: bool) {
        let ghost before = self.inner;
        let ghost logged = self.log@;
        proof {
            lemma_continues_refl(&before);
            self.log@ = self.log@.push(item);
        }
        if !self.flag {
            if (self.predicate)(&item) {
                proof {
                    self.dropped@ = self.dropped@ + 1;
                }
                false
            } else {
                // Done skipping
                self.flag = true;
                let stop = self.inner.visit(item);
                proof {
                    lemma_visited_continues(&before, item, &self.inner, stop);
                    assert(self.inner.seen().skip(self.base@ as int) =~= before.seen().skip(
                        self.base@ as int,
                    ).push(item));
                }
                stop
            }
        } else {
            let stop = self.inner.visit(item);
            proof {
                lemma_visited_continues(&before, item, &self.inner, stop);
                assert(self.inner.seen().skip(self.base@ as int) =~= before.seen().skip(
                    self.base@ as int,
                ).push(item));
                assert(self.log@.skip(self.dropped@ as int) =~= logged.skip(
                    self.dropped@ as int,
                ).push(item));
            }
            stop
        }
    }
}

impl<I: Traversal, F: FnMut(&I::Item) -> bool> Traversal for SkipWhile<I, F> {
    type Item = I::Item;

    open spec fn wf(&self) -> bool {
        &&& self.iter.wf()
        &&& self.iter.finite()
        &&& forall|x: I::Item| #[trigger]
            self.iter.may_emit(x) ==> call_requires(self.predicate, (&x,))
    }

    open spec fn finite(&self) -> bool {
        self.iter.finite()
    }

    open spec fn may_emit(&self, item: I::Item) -> bool {
        self.iter.may_emit(item)
    }

    open spec fn emits(&self, items: Seq<I::Item>, done: bool) -> bool {
        exists|inner: Seq<I::Item>, k: nat|
            self.iter.emits(inner, done) && #[trigger] led(self.predicate, inner, k) && items
                =~= inner.skip(k as int)
    }

    fn foreach<V: Visitor<I::Item>>(self, visitor: V) -> (out: V) {
        let ghost base = visitor.seen().len();
        let first = SkipWhileVisitor {
            predicate: self.predicate,
            inner: visitor,
            flag: false,
            log: Ghost(Seq::empty()),
            dropped: Ghost(0),
            base: Ghost(base),
        };
        proof {
            assert(visitor.seen().skip(base as int) =~= Seq::empty());
            assert forall|x: I::Item| #[trigger] self.iter.may_emit(x) implies first.accepts(x) by {
                assert(self.may_emit(x));
            }
        }
        let last = self.iter.foreach(first);
        proof {
            assert(last.log@ =~= news(&first, &last));
            assert(led(self.predicate, last.log@, last.dropped@));
        }
        last.inner
    }
}

} // verus!
