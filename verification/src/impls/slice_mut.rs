//! Mutable slices as traversals: a mutable reference to every element once,
//! in index order.

use vstd::prelude::*;
use crate::traversal::Traversal;
use crate::visit::{Visitor, continues, lemma_continues_refl, lemma_continues_visit, news};

verus! {

impl<'a, T> Traversal for &'a mut [T] {
    type Item = &'a mut T;

    open spec fn wf(&self) -> bool {
        true
    }

    open spec fn finite(&self) -> bool {
        true
    }

    open spec fn may_emit(&self, item: &'a mut T) -> bool {
        true
    }

    /// The items refer to the slice's first elements, one each and in index
    /// order, and to all of them if `done`: what an item refers to is what
    /// the slice holds at its place when the traversal is driven.
    open spec fn emits(&self, items: Seq<&'a mut T>, done: bool) -> bool {
        &&& items.len() <= (**self)@.len()
        &&& forall|i: int| 0 <= i < items.len() ==> *#[trigger] items[i] == (**self)@[i]
        &&& done ==> items.len() == (**self)@.len()
    }

    fn foreach<V: Visitor<&'a mut T>>(self, visitor: V) -> (out: V) {
        let ghost all = self@;
        let mut v = visitor;
        proof {
            lemma_continues_refl(&visitor);
            assert forall|x: &'a mut T| visitor.accepts(x) by {
                assert(self.may_emit(x));
            }
        }
        let mut rest: &'a mut [T] = self;
        let mut stop = false;
        while !stop && rest.len() > 0
            invariant
                continues(&visitor, &v),
                stop == v.halted(),
                news(&visitor, &v).len() + rest@.len() == all.len(),
                rest@ =~= all.skip(news(&visitor, &v).len() as int),
                forall|i: int|
                    0 <= i < news(&visitor, &v).len() ==> *#[trigger] news(&visitor, &v)[i]
                        == all[i],
                forall|x: &'a mut T| visitor.accepts(x),
            decreases rest@.len(),
        {
            let ghost before = v;
            let ghost n = news(&visitor, &before).len() as int;
            let (head, tail) = rest.split_at_mut(1);
            let item = head.first_mut().unwrap();
            assert(*item == all[n]);
            stop = v.visit(item);
            proof {
                assert(v.seen().len() == before.seen().len() + 1);
                let got = v.seen().last();
                assert(v.seen() =~= before.seen().push(got));
                assert(*got == all[n]);
                lemma_continues_visit(&visitor, &before, got, &v, stop);
                assert forall|i: int| 0 <= i < news(&visitor, &v).len() implies *#[trigger] news(
                    &visitor,
                    &v,
                )[i] == all[i] by {
                    if i < n {
                        assert(news(&visitor, &v)[i] == news(&visitor, &before)[i]);
                    }
                }
            }
            rest = tail;
        }
        v
    }
}

} // verus!
