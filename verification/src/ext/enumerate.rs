//! `enumerate`: every item with its position.

use vstd::prelude::*;
use crate::traversal::{Enumerate, Traversal};
use crate::visit::{
    Visitor, continues, lemma_continues_refl, lemma_continues_trans, lemma_visited_continues, news,
};

verus! {

/// The position that the `n`-th item is given: `n` itself while a `usize`
/// can hold it, and from there on counted from 0 again.
pub open spec fn place(n: nat) -> usize {
    if n <= usize::MAX {
        n as usize
    } else {
        (n % (usize::MAX as nat + 1)) as usize
    }
}

/// The position after `place(n)` is the next number, or 0 after the largest
/// `usize`.
pub proof fn lemma_place_next(n: nat)
    ensures
        place(n + 1) == if place(n) == usize::MAX {
            0usize
        } else {
            (place(n) + 1) as usize
        },
{
    let m = usize::MAX as int + 1;
    vstd::arithmetic::div_mod::lemma_fundamental_div_mod(n as int, m);
    vstd::arithmetic::div_mod::lemma_mod_bound(n as int, m);
    let q = (n as int) / m;
    let r = (n as int) % m;
    if r == m - 1 {
        assert(n + 1 == m * (q + 1) + 0) by (nonlinear_arith)
            requires
                n == m * q + r,
                r == m - 1,
        ;
        vstd::arithmetic::div_mod::lemma_fundamental_div_mod_converse(n as int + 1, m, q + 1, 0);
    } else {
        vstd::arithmetic::div_mod::lemma_fundamental_div_mod_converse(n as int + 1, m, q, r + 1);
    }
    if n <= usize::MAX {
        vstd::arithmetic::div_mod::lemma_small_mod(n, m as nat);
    }
}

/// Each item of `inner` with its position.
pub open spec fn numbered<T>(inner: Seq<T>) -> Seq<(usize, T)> {
    Seq::new(inner.len(), |i: int| (place(i as nat), inner[i]))
}

/// The visitor that `Enumerate` drives its inner traversal with.
pub struct EnumerateVisitor<V, A> {
    pub inner: V,
    pub counter: usize,
    pub log: Ghost<Seq<A>>,
    pub base: Ghost<nat>,
}

impl<A, V: Visitor<(usize, A)>> Visitor<A> for EnumerateVisitor<V, A> {
    open spec fn wf(&self) -> bool {
        &&& self.inner.wf()
        &&& self.base@ <= self.inner.seen().len()
        &&& self.counter == place(self.log@.len())
        &&& self.inner.seen().skip(self.base@ as int) =~= numbered(self.log@)
    }

    open spec fn seen(&self) -> Seq<A> {
        self.log@
    }

    open spec fn halted(&self) -> bool {
        self.inner.halted()
    }

    open spec fn accepts(&self, item: A) -> bool {
        forall|i: usize| self.inner.accepts((i, item))
    }

    open spec fn patience(&self) -> Option<nat> {
        self.inner.patience()
    }

    open spec fn evolves(&self, later: &Self) -> bool {
        &&& self.base == later.base
        &&& continues(&self.inner, &later.inner)
    }

    proof fn evolves_refl(&self) {
        lemma_continues_refl(&self.inner);
    }

    proof fn evolves_trans(&self, mid: &Self, last: &Self) {
        lemma_continues_trans(&self.inner, &mid.inner, &last.inner);
    }

    fn visit(&mut self, item: A) -> (stop: bool) {
        let ghost before = self.inner;
        let ghost logged = self.log@;
        let res = self.inner.visit((self.counter, item));
        proof {
            lemma_visited_continues(&before, (self.counter, item), &self.inner, res);
            lemma_place_next(logged.len());
            self.log@ = self.log@.push(item);
            assert(self.inner.seen().skip(self.base@ as int) =~= before.seen().skip(
                self.base@ as int,
            ).push((self.counter, item)));
            assert(numbered(self.log@) =~= numbered(logged).push((self.counter, item)));
        }
        self.counter = if self.counter == usize::MAX {
            0
        } else {
            self.counter + 1
        };
        res
    }
}

impl<I: Traversal> Traversal for Enumerate<I> {
    type Item = (usize, I::Item);

    open spec fn wf(&self) -> bool {
        self.0.wf()
    }

    open spec fn finite(&self) -> bool {
        self.0.finite()
    }

    open spec fn may_emit(&self, item: (usize, I::Item)) -> bool {
        self.0.may_emit(item.1)
    }

    open spec fn emits(&self, items: Seq<(usize, I::Item)>, done: bool) -> bool {
        exists|inner: Seq<I::Item>| #[trigger] self.0.emits(inner, done) && items =~= numbered(inner)
    }

    fn foreach<V: Visitor<(usize, I::Item)>>(self, visitor: V) -> (out: V) {
        let ghost base = visitor.seen().len();
        let first = EnumerateVisitor {
            inner: visitor,
            counter: 0,
            log: Ghost(Seq::empty()),
            base: Ghost(base),
        };
        proof {
            lemma_place_next(0);
            assert(visitor.seen().skip(base as int) =~= numbered(first.log@));
            assert forall|x: I::Item| #[trigger] self.0.may_emit(x) implies first.accepts(x) by {
                assert forall|i: usize| visitor.accepts((i, x)) by {
                    assert(self.may_emit((i, x)));
                }
            }
        }
        let last = self.0.foreach(first);
        proof {
            assert(last.log@ =~= news(&first, &last));
        }
        last.inner
    }
}

} // verus!
