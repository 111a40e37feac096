//! The bridge from pull to push: any iterator of the standard library, driven
//! as a traversal.

use vstd::prelude::*;
use vstd::std_specs::iter::IteratorSpec;
use crate::traversal::{Traversal, begins};
use crate::visit::{Visitor, continues, lemma_continues_refl, lemma_continues_visit, news};

verus! {

/// A traversal that pulls its items from an iterator, until the iterator
/// ends or the visitor asks to stop.
pub struct Internal<I> {
    pub iter: I,
}

impl<I: Iterator> Internal<I> {
    /// Wraps `iter`. Nothing is pulled from it before the traversal is driven.
    pub fn new(iter: I) -> (t: Self)
        ensures
            t.iter == iter,
    {
        Internal { iter: iter }
    }
}

impl<I: Iterator> Traversal for Internal<I> {
    type Item = I::Item;

    /// The iterator keeps to the laws of iterators and comes to an end.
    open spec fn wf(&self) -> bool {
        self.iter.obeys_prophetic_iter_laws() && self.iter.decrease() is Some
    }

    open spec fn finite(&self) -> bool {
        true
    }

    open spec fn may_emit(&self, item: I::Item) -> bool {
        true
    }

    /// What an iterator is going to give is a prophecy, of which this
    /// description cannot speak: the contract of `foreach` below does.
    open spec fn emits(&self, items: Seq<I::Item>, done: bool) -> bool {
        true
    }

    /// What the visitor has seen more is the beginning of what the iterator
    /// had left, and all of it unless the visitor has asked to stop.
    fn foreach<V: Visitor<I::Item>>(self, visitor: V) -> (out: V)
        ensures
            begins(self.iter.remaining(), news(&visitor, &out), !out.halted()),
    {
        proof {
            assert forall|i: int| 0 <= i < self.iter.remaining().len() implies visitor.accepts(
                self.iter.remaining()[i],
            ) by {
                assert(self.may_emit(self.iter.remaining()[i]));
            }
        }
        pull(self.iter, visitor)
    }
}

/// Pulls values from `iter` and hands each to `visitor`, until the iterator
/// ends or the visitor asks to stop.
pub fn pull<I: Iterator, V: Visitor<I::Item>>(source: I, visitor: V) -> (out: V)
    requires
        source.obeys_prophetic_iter_laws(),
        source.decrease() is Some,
        visitor.wf(),
        !visitor.halted(),
        forall|i: int|
            0 <= i < source.remaining().len() ==> visitor.accepts(source.remaining()[i]),
    ensures
        continues(&visitor, &out),
        begins(source.remaining(), news(&visitor, &out), !out.halted()),
{
    let ghost all = source.remaining();
    let mut v = visitor;
    let mut iter = source;
    proof {
        lemma_continues_refl(&visitor);
    }
    loop
        invariant
            all == source.remaining(),
            iter.obeys_prophetic_iter_laws(),
            iter.decrease() is Some,
            continues(&visitor, &v),
            !v.halted(),
            news(&visitor, &v) + iter.remaining() =~= all,
            forall|i: int| 0 <= i < all.len() ==> visitor.accepts(all[i]),
        decreases iter.decrease()->0,
    {
        let ghost before = v;
        let ghost left = iter.remaining();
        let ghost n = news(&visitor, &before).len() as int;
        match iter.next() {
            None => {
                proof {
                    assert(news(&visitor, &v) =~= all);
                    assert(all.take(all.len() as int) =~= all);
                }
                return v;
            },
            Some(elem) => {
                proof {
                    assert(all[n] == elem);
                }
                let stop = v.visit(elem);
                proof {
                    lemma_continues_visit(&visitor, &before, elem, &v, stop);
                    assert(left =~= seq![elem] + iter.remaining());
                    assert(news(&visitor, &v) + iter.remaining() =~= all);
                    assert(news(&visitor, &v) =~= all.take(n + 1));
                }
                if stop {
                    return v;
                }
            },
        }
    }
}

} // verus!
