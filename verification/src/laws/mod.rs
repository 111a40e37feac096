//! What the traversals of this library hand out, stated for whole sequences:
//! where the items of a traversal are known, so are those of a combinator
//! over it.
//!
//! The laws are proved for every traversal and every closure type, so they
//! can be called wherever a combinator holds a closure of a given type.

pub mod sources;
pub mod transform;
pub mod select;
pub mod terminal;

use vstd::prelude::*;
use crate::traversal::{FromTraversal, Traversal, begins};
use crate::visit::{decided, tally};

verus! {

/// `t` hands out the values of `all`, in their order, and nothing else:
/// whatever it hands out is the beginning of `all`, and is all of `all` where
/// the traversal has come to its end.
pub open spec fn yields<I: Traversal>(t: I, all: Seq<I::Item>) -> bool {
    forall|s: Seq<I::Item>, done: bool| #[trigger] t.emits(s, done) ==> begins(all, s, done)
}

/// `d` is a container that collecting `t` can give: it is built from all the
/// items of `t`.
pub open spec fn collected<I: Traversal, D: FromTraversal<I::Item>>(t: I, d: D) -> bool {
    exists|s: Seq<I::Item>| #[trigger] t.emits(s, true) && d.holds(s)
}

/// `n` is a number that counting `t` can give: that of all the items of `t`.
pub open spec fn counted<I: Traversal>(t: I, n: usize) -> bool {
    exists|s: Seq<I::Item>| #[trigger] t.emits(s, true) && n == tally(s.len())
}

/// `found` is an answer that `any` can give on `t` with `predicate`: the
/// predicate was asked about the items in turn, up to the first of which it
/// held.
pub open spec fn any_gave<I: Traversal, P: FnMut(I::Item) -> bool>(
    t: I,
    predicate: P,
    found: bool,
) -> bool {
    exists|s: Seq<I::Item>| t.emits(s, !found) && #[trigger] decided(predicate, s, true, found)
}

/// `holds` is an answer that `all` can give on `t` with `predicate`: the
/// predicate was asked about the items in turn, up to the first of which it
/// failed.
pub open spec fn all_gave<I: Traversal, P: FnMut(I::Item) -> bool>(
    t: I,
    predicate: P,
    holds: bool,
) -> bool {
    exists|s: Seq<I::Item>| #[trigger] t.emits(s, holds) && decided(predicate, s, false, !holds)
}

/// `t` never comes to an end, and the item that it hands out at place `k` is
/// `f(k)`.
pub open spec fn streams<I: Traversal>(t: I, f: spec_fn(int) -> I::Item) -> bool {
    forall|s: Seq<I::Item>, done: bool| #[trigger]
        t.emits(s, done) ==> !done && s =~= Seq::new(s.len(), f)
}

} // verus!
