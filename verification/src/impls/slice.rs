//! Slices as traversals: every element once, in index order.

use vstd::prelude::*;
use crate::traversal::{Traversal, begins};
use crate::visit::{Visitor, continues, lemma_continues_refl, lemma_continues_visit, news};

verus! {

impl<'a, T> Traversal for &'a [T] {
    type Item = &'a T;

    open spec fn wf(&self) -> bool {
        true
    }

    open spec fn finite(&self) -> bool {
        true
    }

    open spec fn may_emit(&self, item: &'a T) -> bool {
        self@.contains(*item)
    }

    /// The items refer to the slice's first elements, and to all of them if
    /// `done`. The size of an element plays no part: a slice of `n`
    /// zero-sized elements hands out `n` items.
    open spec fn emits(&self, items: Seq<&'a T>, done: bool) -> bool {
        begins(self@.as_ref(), items, done)
    }

    fn foreach<V: Visitor<&'a T>>(self, visitor: V) -> (out: V) {
        let mut v = visitor;
        let mut i: usize = 0;
        proof {
            lemma_continues_refl(&visitor);
            assert(self@.as_ref().take(0) =~= Seq::empty());
        }
        while i < self.len()
            invariant
                i <= self@.len(),
                continues(&visitor, &v),
                !v.halted(),
                news(&visitor, &v) =~= self@.as_ref().take(i as int),
                forall|x: &'a T| #[trigger] self.may_emit(x) ==> visitor.accepts(x),
            decreases self@.len() - i,
        {
            let ghost before = v;
            let item = &self[i];
            assert(self.may_emit(item));
            let stop = v.visit(item);
            proof {
                lemma_continues_visit(&visitor, &before, item, &v, stop);
                assert(self@.as_ref().take(i + 1) =~= self@.as_ref().take(i as int).push(item));
            }
            i = i + 1;
            if stop {
                return v;
            }
        }
        v
    }

    fn size_hint(&self) -> (hint: (usize, Option<usize>))
        ensures
            hint == (self@.len() as usize, Some(self@.len() as usize)),
    {
        (self.len(), Some(self.len()))
    }
}

} // verus!
