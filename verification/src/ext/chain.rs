//! `chain`: the items of one traversal and then those of another.

use vstd::prelude::*;
use crate::traversal::{Chain, Traversal};
use crate::visit::{Recorder, Visitor, lemma_continues_trans, news};

verus! {

impl<T, I: Traversal<Item = T>, O: Traversal<Item = T>> Traversal for Chain<I, O> {
    type Item = T;

    open spec fn wf(&self) -> bool {
        self.one.wf() && self.two.wf()
    }

    open spec fn finite(&self) -> bool {
        self.one.finite() && self.two.finite()
    }

    open spec fn may_emit(&self, item: T) -> bool {
        self.one.may_emit(item) || self.two.may_emit(item)
    }

    /// Either the first traversal hands out `items` and is stopped, or it
    /// hands out all it has and the second hands out the rest.
    open spec fn emits(&self, items: Seq<T>, done: bool) -> bool {
        ||| !done && self.one.emits(items, false)
        ||| exists|head: Seq<T>, tail: Seq<T>|
            #![trigger self.one.emits(head, true), self.two.emits(tail, done)]
            self.one.emits(head, true) && self.two.emits(tail, done) && items =~= head + tail
    }

    fn foreach<V: Visitor<T>>(self, visitor: V) -> (out: V) {
        let first = Recorder { inner: visitor, stopped: false };
        proof {
            assert forall|x: T| #[trigger] self.one.may_emit(x) implies first.accepts(x) by {
                assert(self.may_emit(x));
            }
        }
        let mid = self.one.foreach(first);
        if !mid.stopped {
            proof {
                assert forall|x: T| #[trigger] self.two.may_emit(x) implies mid.inner.accepts(
                    x,
                ) by {
                    assert(self.may_emit(x));
                }
            }
            let last = self.two.foreach(mid.inner);
            proof {
                lemma_continues_trans(&visitor, &mid.inner, &last);
                assert(self.one.emits(news(&visitor, &mid.inner), true));
                assert(self.two.emits(news(&mid.inner, &last), !last.halted()));
            }
            last
        } else {
            mid.inner
        }
    }
}

} // verus!
