//! `skip`: all but the first `n` items.

use vstd::prelude::*;
use crate::traversal::{Skip, Traversal};
use crate::visit::{
    Visitor, continues, lemma_continues_refl, lemma_continues_trans, lemma_visited_continues, news,
};

verus! {

/// What is left of `items` without its first `n`.
pub open spec fn beyond<T>(items: Seq<T>, n: nat) -> Seq<T> {
    if items.len() <= n {
        Seq::empty()
    } else {
        items.skip(n as int)
    }
}

/// The visitor that `Skip` drives its inner traversal with.
pub struct SkipVisitor<V, A> {
    pub inner: V,
    pub n: usize,
    pub counter: usize,
    pub log: Ghost<Seq<A>>,
    pub base: Ghost<nat>,
}

impl<A, V: Visitor<A>> Visitor<A> for SkipVisitor<V, A> {
    open spec fn wf(&self) -> bool {
        &&& self.inner.wf()
        &&& self.base@ <= self.inner.seen().len()
        &&& self.counter <= self.n
        &&& self.counter == if self.log@.len() <= self.n {
            self.log@.len()
        } else {
            self.n as nat
        }
        &&& self.inner.seen().skip(self.base@ as int) =~= beyond(self.log@, self.n as nat)
    }

    open spec fn seen(&self) -> Seq<A> {
        self.log@
    }

    open spec fn halted(&self) -> bool {
        self.inner.halted()
    }

    open spec fn accepts(&self, item: A) -> bool {
        self.inner.accepts(item)
    }

    open spec fn patience(&self) -> Option<nat> {
        match self.inner.patience() {
            Some(p) => Some((p + (self.n - self.counter)) as nat),
            None => None,
        }
    }

    open spec fn evolves(&self, later: &Self) -> bool {
        &&& self.n == later.n
        &&& self.base == later.base
        &&& continues(&self.inner, &later.inner)
    }

    proof fn evolves_refl(&self) {
        lemma_continues_refl(&self.inner);
    }

    proof fn evolves_trans(&self, mid: &Self, last: &Self) {
        lemma_continues_trans(&self.inner, &mid.inner, &last.inner);
    }

    fn visit(&mut self, item: A) -> (stop: bool) {
        let ghost before = self.inner;
        proof {
            lemma_continues_refl(&before);
            self.log@ = self.log@.push(item);
        }
        if self.counter != self.n {
            self.counter += 1;
            false
        } else {
            let stop = self.inner.visit(item);
            proof {
                lemma_visited_continues(&before, item, &self.inner, stop);
                assert(self.inner.seen().skip(self.base@ as int) =~= before.seen().skip(
                    self.base@ as int,
                ).push(item));
            }
            stop
        }
    }
}

impl<I: Traversal> Traversal for Skip<I> {
    type Item = I::Item;

    open spec fn wf(&self) -> bool {
        self.iter.wf()
    }

    open spec fn finite(&self) -> bool {
        self.iter.finite()
    }

    open spec fn may_emit(&self, item: I::Item) -> bool {
        self.iter.may_emit(item)
    }

    open spec fn emits(&self, items: Seq<I::Item>, done: bool) -> bool {
        exists|inner: Seq<I::Item>| #[trigger]
            self.iter.emits(inner, done) && items =~= beyond(inner, self.n as nat)
    }

    fn foreach<V: Visitor<I::Item>>(self, visitor: V) -> (out: V) {
        let ghost base = visitor.seen().len();
        let first = SkipVisitor {
            inner: visitor,
            n: self.n,
            counter: 0,
            log: Ghost(Seq::empty()),
            base: Ghost(base),
        };
        proof {
            assert(visitor.seen().skip(base as int) =~= Seq::empty());
            assert forall|x: I::Item| #[trigger] self.iter.may_emit(x) implies first.accepts(x) by {
                assert(self.may_emit(x));
            }
        }
        let last = self.iter.foreach(first);
        proof {
            assert(last.log@ =~= news(&first, &last));
        }
        last.inner
    }
}

} // verus!
