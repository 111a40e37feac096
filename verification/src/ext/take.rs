//! `take`: the first `n` items.

use vstd::prelude::*;
use crate::traversal::{Take, Traversal};
use crate::visit::{
    Visitor, continues, lemma_continues_refl, lemma_continues_trans, lemma_visited_continues, news,
};

verus! {

/// The visitor that `Take` drives its inner traversal with.
pub struct TakeVisitor<V, A> {
    pub inner: V,
    pub n: usize,
    pub counter: usize,
    pub full: bool,
    pub log: Ghost<Seq<A>>,
    pub base: Ghost<nat>,
}

impl<A, V: Visitor<A>> Visitor<A> for TakeVisitor<V, A> {
    open spec fn wf(&self) -> bool {
        &&& self.inner.wf()
        &&& self.base@ <= self.inner.seen().len()
        &&& self.counter <= self.n
        &&& self.log@.len() == self.counter + if self.full {
            1nat
        } else {
            0nat
        }
        &&& self.full ==> self.counter == self.n && !self.inner.halted()
        &&& self.inner.seen().skip(self.base@ as int) =~= self.log@.take(self.counter as int)
    }

    open spec fn seen(&self) -> Seq<A> {
        self.log@
    }

    open spec fn halted(&self) -> bool {
        self.inner.halted() || self.full
    }

    open spec fn accepts(&self, item: A) -> bool {
        self.inner.accepts(item)
    }

    open spec fn patience(&self) -> Option<nat> {
        Some((self.n - self.counter) as nat)
    }

    open spec fn evolves(&self, later: &Self) -> bool {
        &&& self.n == later.n
        &&& self.base == later.base
        &&& continues(&self.inner, &later.inner)
    }

    proof fn evolves_refl(&self) {
        lemma_continues_refl(&self.inner);
    }

    proof fn evolves_trans(&self, mid: &Self, last: &Self) {
        lemma_continues_trans(&self.inner, &mid.inner, &last.inner);
    }

    fn visit(&mut self, item: A) -> (stop: bool) {
        let ghost before = self.inner;
        let ghost logged = self.log@;
        proof {
            lemma_continues_refl(&before);
            self.log@ = self.log@.push(item);
        }
        if self.counter != self.n {
            self.counter += 1;
            let stop = self.inner.visit(item);
            proof {
                lemma_visited_continues(&before, item, &self.inner, stop);
                assert(self.inner.seen().skip(self.base@ as int) =~= before.seen().skip(
                    self.base@ as int,
                ).push(item));
                assert(self.log@.take(self.counter as int) =~= logged.push(item));
                assert(logged.take(logged.len() as int) =~= logged);
            }
            stop
        } else {
            self.full = true;
            proof {
                assert(self.log@.take(self.counter as int) =~= logged.take(self.counter as int));
            }
            true
        }
    }
}

impl<I: Traversal> Traversal for Take<I> {
    type Item = I::Item;

    open spec fn wf(&self) -> bool {
        self.iter.wf()
    }

    /// The inner traversal is asked for one item more than `n` at most.
    open spec fn finite(&self) -> bool {
        true
    }

    open spec fn may_emit(&self, item: I::Item) -> bool {
        self.iter.may_emit(item)
    }

    /// Either the inner traversal hands out `items`, which are `n` at most,
    /// or `items` are the first `n` of `n + 1` that it hands out: one item
    /// more is asked of it, and is not passed on.
    open spec fn emits(&self, items: Seq<I::Item>, done: bool) -> bool {
        ||| items.len() <= self.n && self.iter.emits(items, done)
        ||| done && exists|longer: Seq<I::Item>| #[trigger]
            self.iter.emits(longer, false) && longer.len() == self.n + 1 && items =~= longer.take(
                self.n as int,
            )
    }

    fn foreach<V: Visitor<I::Item>>(self, visitor: V) -> (out: V) {
        let ghost base = visitor.seen().len();
        let first = TakeVisitor {
            inner: visitor,
            n: self.n,
            counter: 0,
            full: false,
            log: Ghost(Seq::empty()),
            base: Ghost(base),
        };
        proof {
            assert(visitor.seen().skip(base as int) =~= Seq::empty());
            assert(first.log@.take(0) =~= Seq::empty());
            assert forall|x: I::Item| #[trigger] self.iter.may_emit(x) implies first.accepts(x) by {
                assert(self.may_emit(x));
            }
        }
        let last = self.iter.foreach(first);
        proof {
            let inner = last.log@;
            let items = news(&visitor, &last.inner);
            assert(inner =~= news(&first, &last));
            assert(items =~= inner.take(last.counter as int));
            if !last.full {
                assert(items =~= inner);
            }
        }
        last.inner
    }
}

} // verus!
