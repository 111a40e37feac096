//! `filter`: the items of which a predicate holds.

use vstd::prelude::*;
use crate::traversal::{Filter, Traversal};
use crate::visit::{
    Visitor, continues, lemma_continues_refl, lemma_continues_trans, lemma_visited_continues, news,
};

verus! {

/// `verdicts` are possible answers of `pred` on the items of `items`, one by
/// one.
pub open spec fn judged<T, F: FnMut(&T) -> bool>(pred: F, items: Seq<T>, verdicts: Seq<bool>) -> bool {
    &&& items.len() == verdicts.len()
    &&& forall|i: int|
        #![trigger items[i]]
        #![trigger verdicts[i]]
        0 <= i < items.len() ==> call_ensures(pred, (&items[i],), verdicts[i])
}

/// The items of `items` whose place in `keep` holds `true`, in their order.
pub open spec fn sifted<T>(items: Seq<T>, keep: Seq<bool>) -> Seq<T>
    decreases items.len(),
{
    if items.len() == 0 || keep.len() == 0 {
        Seq::empty()
    } else if keep.last() {
        sifted(items.drop_last(), keep.drop_last()).push(items.last())
    } else {
        sifted(items.drop_last(), keep.drop_last())
    }
}

/// Sifting one value more keeps it or leaves it out, as its flag says.
pub proof fn lemma_sifted_push<T>(items: Seq<T>, keep: Seq<bool>, x: T, b: bool)
    ensures
        sifted(items.push(x), keep.push(b)) == if b {
            sifted(items, keep).push(x)
        } else {
            sifted(items, keep)
        },
{
    assert(items.push(x).drop_last() =~= items);
    assert(keep.push(b).drop_last() =~= keep);
}

/// The visitor that `Filter` drives its inner traversal with.
pub struct FilterVisitor<F, V, A> {
    pub predicate: F,
    pub inner: V,
    pub log: Ghost<Seq<A>>,
    pub verdicts: Ghost<Seq<bool>>,
    pub base: Ghost<nat>,
}

impl<A, F: FnMut(&A) -> bool, V: Visitor<A>> Visitor<A> for FilterVisitor<F, V, A> {
    open spec fn wf(&self) -> bool {
        &&& self.inner.wf()
        &&& self.base@ <= self.inner.seen().len()
        &&& judged(self.predicate, self.log@, self.verdicts@)
        &&& self.inner.seen().skip(self.base@ as int) =~= sifted(self.log@, self.verdicts@)
    }

    open spec fn seen(&self) -> Seq<A> {
        self.log@
    }

    open spec fn halted(&self) -> bool {
        self.inner.halted()
    }

    open spec fn accepts(&self, item: A) -> bool {
        &&& call_requires(self.predicate, (&item,))
        &&& self.inner.accepts(item)
    }

    open spec fn patience(&self) -> Option<nat> {
        None
    }

    open spec fn evolves(&self, later: &Self) -> bool {
        &&& self.predicate == later.predicate
        &&& self.base == later.base
        &&& continues(&self.inner, &later.inner)
    }

    proof fn evolves_refl(&self) {
        lemma_continues_refl(&self.inner);
    }

    proof fn evolves_trans(&self, mid: &Self, last: &Self) {
        lemma_continues_trans(&self.inner, &mid.inner, &last.inner);
    }

    fn visit(&mut self, item: A) -> (stop: bool) {
        let ghost before = self.inner;
        proof {
            lemma_continues_refl(&before);
        }
        let keep = (self.predicate)(&item);
        proof {
            lemma_sifted_push(self.log@, self.verdicts@, item, keep);
            self.log@ = self.log@.push(item);
            self.verdicts@ = self.verdicts@.push(keep);
        }
        if keep {
            let stop = self.inner.visit(item);
            proof {
                lemma_visited_continues(&before, item, &self.inner, stop);
                assert(self.inner.seen().skip(self.base@ as int) =~= before.seen().skip(
                    self.base@ as int,
                ).push(item));
            }
            stop
        } else {
            false
        }
    }
}

impl<I: Traversal, F: FnMut(&I::Item) -> bool> Traversal for Filter<I, F> {
    type Item = I::Item;

    open spec fn wf(&self) -> bool {
        &&& self.iter.wf()
        &&& self.iter.finite()
        &&& forall|x: I::Item| #[trigger]
            self.iter.may_emit(x) ==> call_requires(self.predicate, (&x,))
    }

    open spec fn finite(&self) -> bool {
        self.iter.finite()
    }

    open spec fn may_emit(&self, item: I::Item) -> bool {
        self.iter.may_emit(item)
    }

    open spec fn emits(&self, items: Seq<I::Item>, done: bool) -> bool {
        exists|inner: Seq<I::Item>, verdicts: Seq<bool>|
            self.iter.emits(inner, done) && #[trigger] judged(self.predicate, inner, verdicts)
                && items =~= sifted(inner, verdicts)
    }

    fn foreach<V: Visitor<I::Item>>(self, visitor: V) -> (out: V) {
        let ghost base = visitor.seen().len();
        let first = FilterVisitor {
            predicate: self.predicate,
            inner: visitor,
            log: Ghost(Seq::empty()),
            verdicts: Ghost(Seq::empty()),
            base: Ghost(base),
        };
        proof {
            assert(visitor.seen().skip(base as int) =~= Seq::empty());
            assert forall|x: I::Item| #[trigger] self.iter.may_emit(x) implies first.accepts(x) by {
                assert(self.may_emit(x));
            }
        }
        let last = self.iter.foreach(first);
        proof {
            assert(last.log@ =~= news(&first, &last));
            assert(judged(self.predicate, last.log@, last.verdicts@));
        }
        last.inner
    }
}

} // verus!
