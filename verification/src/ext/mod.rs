//! The combinators: each is a traversal that wraps another and drives it with
//! a visitor of its own, which does the combinator's work on every item and
//! hands on to the caller's visitor what is left.
//!
//! Such a visitor holds the caller's visitor in `inner`. In `log` it keeps
//! what it has seen itself, and in `base` how much the caller's visitor had
//! seen when it was wrapped: `inner.seen().skip(base)` is what has been handed
//! on since. Its invariant ties the two together, which is what the
//! combinator's `emits` says of whole sequences.

pub mod map;
pub mod filter;
pub mod filter_map;
pub mod enumerate;
pub mod skip;
pub mod take;
pub mod skip_while;
pub mod take_while;
pub mod inspect;
pub mod chain;
pub mod flat_map;
pub mod cloned;

pub use map::MapVisitor;
pub use filter::{FilterVisitor, judged, lemma_sifted_push, sifted};
pub use filter_map::{FilterMapVisitor, lemma_picked_push, picked};
pub use enumerate::{EnumerateVisitor, lemma_place_next, numbered, place};
pub use skip::{SkipVisitor, beyond};
pub use take::TakeVisitor;
pub use skip_while::{SkipWhileVisitor, led};
pub use take_while::{TakeWhileVisitor, all_pass};
pub use inspect::{InspectVisitor, shown};
pub use flat_map::{FlatMapVisitor, spread};
pub use cloned::{ClonedVisitor, copied, copies};

use vstd::prelude::*;
use std::ops::Deref;
use crate::traversal::{
    Chain, Cloned, Enumerate, Filter, FilterMap, FlatMap, FromTraversal, Inspect, Mapped, Skip,
    SkipWhile, Take, TakeWhile, Traversal,
};
use crate::visit::answered;

verus! {

/// The combinators and `collect`, on every traversal.
///
/// A combinator makes a value and drives nothing. Its contract says of the
/// new traversal when it can be driven, whether driving it comes to an end,
/// and what it hands out, in terms of the traversal it is made of.
pub trait TraversalExt: Traversal {
    /// A traversal that hands out what `f` makes of each item.
    fn map<F, O>(self, f: F) -> (r: Mapped<Self, F>) where F: FnMut(Self::Item) -> O
        ensures
            r.iter == self,
            r.closure == f,
            r.wf() <==> self.wf() && forall|x: Self::Item| #[trigger]
                self.may_emit(x) ==> call_requires(f, (x,)),
            r.finite() <==> self.finite(),
            forall|o: O| #[trigger]
                r.may_emit(o) ==> exists|x: Self::Item|
                    self.may_emit(x) && call_ensures(f, (x,), o),
            forall|s: Seq<O>, done: bool| #[trigger]
                r.emits(s, done) ==> exists|inner: Seq<Self::Item>| #[trigger]
                    self.emits(inner, done) && answered(f, inner, s),
    ;

    /// A traversal that hands out the items of which `pred` holds. It can be
    /// driven only over a traversal that comes to an end, since it may go on
    /// dropping items.
    fn filter<F>(self, pred: F) -> (r: Filter<Self, F>) where F: FnMut(&Self::Item) -> bool
        ensures
            r.iter == self,
            r.predicate == pred,
            r.wf() <==> self.wf() && self.finite() && forall|x: Self::Item| #[trigger]
                self.may_emit(x) ==> call_requires(pred, (&x,)),
            r.finite() <==> self.finite(),
            forall|x: Self::Item| #[trigger] r.may_emit(x) ==> self.may_emit(x),
            forall|s: Seq<Self::Item>, done: bool| #[trigger]
                r.emits(s, done) ==> exists|inner: Seq<Self::Item>, verdicts: Seq<bool>|
                    self.emits(inner, done) && #[trigger] judged(pred, inner, verdicts) && s
                        =~= sifted(inner, verdicts),
    ;

    /// A traversal that hands out the payload of what `pred` makes of each
    /// item, where there is one. It can be driven only over a traversal that
    /// comes to an end.
    fn filter_map<F, O>(self, pred: F) -> (r: FilterMap<Self, F>) where
        F: FnMut(Self::Item) -> Option<O>,

        ensures
            r.iter == self,
            r.predicate == pred,
            r.wf() <==> self.wf() && self.finite() && forall|x: Self::Item| #[trigger]
                self.may_emit(x) ==> call_requires(pred, (x,)),
            r.finite() <==> self.finite(),
            forall|o: O| #[trigger]
                r.may_emit(o) ==> exists|x: Self::Item|
                    self.may_emit(x) && call_ensures(pred, (x,), Some(o)),
            forall|s: Seq<O>, done: bool| #[trigger]
                r.emits(s, done) ==> exists|inner: Seq<Self::Item>, outputs: Seq<Option<O>>|
                    self.emits(inner, done) && #[trigger] answered(pred, inner, outputs) && s
                        =~= picked(outputs),
    ;

    /// A traversal that hands out each item with its position, from 0 on.
    fn enumerate(self) -> (r: Enumerate<Self>)
        ensures
            r.0 == self,
            r.wf() <==> self.wf(),
            r.finite() <==> self.finite(),
            forall|x: (usize, Self::Item)| #[trigger] r.may_emit(x) ==> self.may_emit(x.1),
            forall|s: Seq<(usize, Self::Item)>, done: bool| #[trigger]
                r.emits(s, done) ==> exists|inner: Seq<Self::Item>| #[trigger]
                    self.emits(inner, done) && s =~= numbered(inner),
    ;

    /// A traversal that leaves out the first `n` items.
    fn skip(self, n: usize) -> (r: Skip<Self>)
        ensures
            r.iter == self,
            r.n == n,
            r.wf() <==> self.wf(),
            r.finite() <==> self.finite(),
            forall|x: Self::Item| #[trigger] r.may_emit(x) ==> self.may_emit(x),
            forall|s: Seq<Self::Item>, done: bool| #[trigger]
                r.emits(s, done) ==> exists|inner: Seq<Self::Item>| #[trigger]
                    self.emits(inner, done) && s =~= beyond(inner, n as nat),
    ;

    /// A traversal that hands out the first `n` items and then stops by
    /// itself: it always comes to an end.
    fn take(self, n: usize) -> (r: Take<Self>)
        ensures
            r.iter == self,
            r.n == n,
            r.wf() <==> self.wf(),
            r.finite(),
            forall|x: Self::Item| #[trigger] r.may_emit(x) ==> self.may_emit(x),
            forall|s: Seq<Self::Item>, done: bool| #[trigger]
                r.emits(s, done) ==> {
                    ||| s.len() <= n && self.emits(s, done)
                    ||| done && exists|longer: Seq<Self::Item>| #[trigger]
                        self.emits(longer, false) && longer.len() == n + 1 && s =~= longer.take(
                            n as int,
                        )
                },
    ;

    /// A traversal that leaves out the leading items of which `pred` holds.
    /// It can be driven only over a traversal that comes to an end.
    fn skip_while<F>(self, pred: F) -> (r: SkipWhile<Self, F>) where
        F: FnMut(&Self::Item) -> bool,

        ensures
            r.iter == self,
            r.predicate == pred,
            r.wf() <==> self.wf() && self.finite() && forall|x: Self::Item| #[trigger]
                self.may_emit(x) ==> call_requires(pred, (&x,)),
            r.finite() <==> self.finite(),
            forall|x: Self::Item| #[trigger] r.may_emit(x) ==> self.may_emit(x),
            forall|s: Seq<Self::Item>, done: bool| #[trigger]
                r.emits(s, done) ==> exists|inner: Seq<Self::Item>, k: nat|
                    self.emits(inner, done) && #[trigger] led(pred, inner, k) && s =~= inner.skip(
                        k as int,
                    ),
    ;

    /// A traversal that hands out the leading items of which `pred` holds,
    /// and stops at the first of which it fails.
    fn take_while<F>(self, pred: F) -> (r: TakeWhile<Self, F>) where
        F: FnMut(&Self::Item) -> bool,

        ensures
            r.iter == self,
            r.predicate == pred,
            r.wf() <==> self.wf() && forall|x: Self::Item| #[trigger]
                self.may_emit(x) ==> call_requires(pred, (&x,)),
            r.finite() <==> self.finite(),
            forall|x: Self::Item| #[trigger] r.may_emit(x) ==> self.may_emit(x),
            forall|s: Seq<Self::Item>, done: bool| #[trigger]
                r.emits(s, done) ==> all_pass(pred, s) && {
                    ||| self.emits(s, done)
                    ||| done && exists|longer: Seq<Self::Item>| #[trigger]
                        self.emits(longer, false) && longer.len() > 0 && s =~= longer.drop_last()
                            && call_ensures(pred, (&longer.last(),), false)
                },
    ;

    /// A traversal that shows each item to `f` before it hands it out.
    fn inspect<F>(self, f: F) -> (r: Inspect<Self, F>) where F: FnMut(&Self::Item)
        ensures
            r.iter == self,
            r.closure == f,
            r.wf() <==> self.wf() && forall|x: Self::Item| #[trigger]
                self.may_emit(x) ==> call_requires(f, (&x,)),
            r.finite() <==> self.finite(),
            forall|x: Self::Item| #[trigger] r.may_emit(x) ==> self.may_emit(x),
            forall|s: Seq<Self::Item>, done: bool| #[trigger]
                r.emits(s, done) ==> self.emits(s, done) && shown(f, s),
    ;

    /// A traversal that hands out, for each item, all the items of the
    /// traversal that `f` makes of it. It can be driven only over a traversal
    /// that comes to an end, since what `f` makes may be empty.
    fn flat_map<U, F>(self, f: F) -> (r: FlatMap<Self, F>) where
        U: Traversal,
        F: FnMut(Self::Item) -> U,

        ensures
            r.iter == self,
            r.producer == f,
            r.wf() <==> {
                &&& self.wf()
                &&& self.finite()
                &&& forall|x: Self::Item| #[trigger] self.may_emit(x) ==> call_requires(f, (x,))
                &&& forall|x: Self::Item, u: U|
                    self.may_emit(x) && #[trigger] call_ensures(f, (x,), u) ==> u.wf()
            },
            r.finite() <==> (forall|x: Self::Item, u: U|
                self.may_emit(x) && #[trigger] call_ensures(f, (x,), u) ==> u.finite()),
            forall|y: U::Item| #[trigger]
                r.may_emit(y) ==> exists|x: Self::Item, u: U|
                    self.may_emit(x) && #[trigger] call_ensures(f, (x,), u) && u.may_emit(y),
            forall|s: Seq<U::Item>, done: bool| #[trigger]
                r.emits(s, done) ==> exists|
                    outer: Seq<Self::Item>,
                    subs: Seq<U>,
                    parts: Seq<Seq<U::Item>>,
                |
                    self.emits(outer, done) && #[trigger] spread(f, outer, subs, parts, done) && s
                        =~= parts.flatten(),
    ;

    /// A traversal that hands out the items of this one and then those of
    /// `other`.
    fn chain<O>(self, other: O) -> (r: Chain<Self, O>) where O: Traversal<Item = Self::Item>
        ensures
            r.one == self,
            r.two == other,
            r.wf() <==> self.wf() && other.wf(),
            r.finite() <==> self.finite() && other.finite(),
            forall|x: Self::Item| #[trigger] r.may_emit(x) ==> self.may_emit(x) || other.may_emit(x),
            forall|s: Seq<Self::Item>, done: bool| #[trigger]
                r.emits(s, done) ==> {
                    ||| !done && self.emits(s, false)
                    ||| exists|head: Seq<Self::Item>, tail: Seq<Self::Item>|
                        #![trigger self.emits(head, true), other.emits(tail, done)]
                        self.emits(head, true) && other.emits(tail, done) && s =~= head + tail
                },
    ;

    /// A traversal that hands out a clone of what each item refers to.
    fn cloned(self) -> (r: Cloned<Self>) where
        Self::Item: Deref,
        <Self::Item as Deref>::Target: Clone,

        ensures
            r.iter == self,
            r.wf() <==> self.wf(),
            r.finite() <==> self.finite(),
            forall|o: <Self::Item as Deref>::Target| #[trigger]
                r.may_emit(o) ==> exists|d: Self::Item| self.may_emit(d) && copied(d, o),
            forall|s: Seq<<Self::Item as Deref>::Target>, done: bool| #[trigger]
                r.emits(s, done) ==> exists|refs: Seq<Self::Item>| #[trigger]
                    self.emits(refs, done) && copies(refs, s),
    ;

    /// Builds a container of the caller's choice from all the items.
    fn collect<D>(self) -> (d: D) where D: FromTraversal<Self::Item>
        requires
            self.wf(),
            self.finite(),
        ensures
            exists|s: Seq<Self::Item>| #[trigger] self.emits(s, true) && d.holds(s),
    ;
}

impl<T: Traversal> TraversalExt for T {
    fn map<F, O>(self, f: F) -> (r: Mapped<Self, F>) where F: FnMut(Self::Item) -> O {
        Mapped { iter: self, closure: f }
    }

    fn filter<F>(self, pred: F) -> (r: Filter<Self, F>) where F: FnMut(&Self::Item) -> bool {
        Filter { iter: self, predicate: pred }
    }

    fn filter_map<F, O>(self, pred: F) -> (r: FilterMap<Self, F>) where
        F: FnMut(Self::Item) -> Option<O>,
     {
        FilterMap { iter: self, predicate: pred }
    }

    fn enumerate(self) -> (r: Enumerate<Self>) {
        Enumerate(self)
    }

    fn skip(self, n: usize) -> (r: Skip<Self>) {
        Skip { iter: self, n: n }
    }

    fn take(self, n: usize) -> (r: Take<Self>) {
        Take { iter: self, n: n }
    }

    fn skip_while<F>(self, pred: F) -> (r: SkipWhile<Self, F>) where
        F: FnMut(&Self::Item) -> bool,
     {
        SkipWhile { iter: self, predicate: pred }
    }

    fn take_while<F>(self, pred: F) -> (r: TakeWhile<Self, F>) where
        F: FnMut(&Self::Item) -> bool,
     {
        TakeWhile { iter: self, predicate: pred }
    }

    fn inspect<F>(self, f: F) -> (r: Inspect<Self, F>) where F: FnMut(&Self::Item) {
        Inspect { iter: self, closure: f }
    }

    fn flat_map<U, F>(self, f: F) -> (r: FlatMap<Self, F>) where
        U: Traversal,
        F: FnMut(Self::Item) -> U,
     {
        let r = FlatMap { iter: self, producer: f };
        proof {
            if r.finite() {
                assert forall|x: Self::Item, u: U|
                    self.may_emit(x) && #[trigger] call_ensures(f, (x,), u) implies u.finite() by {
                    assert(call_ensures(r.producer, (x,), u));
                }
            }
        }
        r
    }

    fn chain<O>(self, other: O) -> (r: Chain<Self, O>) where O: Traversal<Item = Self::Item> {
        Chain { one: self, two: other }
    }

    fn cloned(self) -> (r: Cloned<Self>) where
        Self::Item: Deref,
        <Self::Item as Deref>::Target: Clone,
     {
        Cloned { iter: self }
    }

    fn collect<D>(self) -> (d: D) where D: FromTraversal<Self::Item> {
        D::from_traversal(self)
    }
}

} // verus!
