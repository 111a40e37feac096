//! The producer side of the protocol: a traversal drives a visitor over its
//! items, in order, until the visitor asks to stop or the items run out.

use vstd::prelude::*;
use crate::visit::{Each, Probe, Tally, Visitor, continues, decided, news, tally};

verus! {

/// `items` are the first values of `all`, in their order, and all of them if
/// `done`.
pub open spec fn begins<T>(all: Seq<T>, items: Seq<T>, done: bool) -> bool {
    &&& items.len() <= all.len()
    &&& items =~= all.take(items.len() as int)
    &&& done ==> items =~= all
}

/// A sequence that runs all at once, pushing its items into a visitor.
///
/// A traversal is used up by driving it. What it can produce is described by
/// `emits`: `emits(s, false)` says that `s` can be the first items handed out,
/// and `emits(s, true)` that `s` can be all of them.
pub trait Traversal: Sized {
    type Item;

    /// The traversal's invariant: what must hold for it to be driven.
    spec fn wf(&self) -> bool;

    /// Whether driving comes to an end whatever the visitor answers.
    spec fn finite(&self) -> bool;

    /// The items that the traversal may hand out.
    spec fn may_emit(&self, item: Self::Item) -> bool;

    /// `items` can be what the traversal hands out, in this order: all of it
    /// if `done`, and its beginning otherwise.
    spec fn emits(&self, items: Seq<Self::Item>, done: bool) -> bool;

    /// Drives `visitor` over the items and gives it back.
    ///
    /// The visitor comes back having seen exactly the items handed out. If it
    /// has not asked to stop, they are all the items; if it has, nothing was
    /// handed out after the item it stopped on. A traversal without end is
    /// driven only by a visitor of bounded patience, so that driving always
    /// comes to an end.
    fn foreach<V: Visitor<Self::Item>>(self, visitor: V) -> (out: V)
        requires
            self.wf(),
            visitor.wf(),
            !visitor.halted(),
            forall|x: Self::Item| #[trigger] self.may_emit(x) ==> visitor.accepts(x),
            self.finite() || visitor.patience() is Some,
        ensures
            continues(&visitor, &out),
            self.emits(news(&visitor, &out), !out.halted()),
    ;

    /// Hands every item to `f`, without a way to stop. The result is the
    /// sequence of items that `f` was called on.
    fn run<F>(self, f: F) -> (items: Ghost<Seq<Self::Item>>) where F: FnMut(Self::Item)
        requires
            self.wf(),
            self.finite(),
            forall|x: Self::Item| self.may_emit(x) ==> call_requires(f, (x,)),
        ensures
            self.emits(items@, true),
            forall|i: int| 0 <= i < items@.len() ==> call_ensures(f, (#[trigger] items@[i],), ()),
    {
        let each = Each { f, log: Ghost(Seq::empty()) };
        let each = self.foreach(each);
        Ghost(each.log@)
    }

    /// Bounds on the number of items: at least `hint.0`, and at most `hint.1`
    /// where that is known.
    fn size_hint(&self) -> (hint: (usize, Option<usize>))
        ensures
            forall|s: Seq<Self::Item>| #[trigger]
                self.emits(s, true) ==> hint.0 <= s.len() && (hint.1 matches Some(most) ==> s.len()
                    <= most),
    {
        (0, None)
    }

    /// Whether `predicate` holds of some item. Stops at the first one of which
    /// it holds: `predicate` is asked about nothing after it.
    fn any<P>(self, predicate: P) -> (found: bool) where P: FnMut(Self::Item) -> bool
        requires
            self.wf(),
            self.finite(),
            forall|x: Self::Item| self.may_emit(x) ==> call_requires(predicate, (x,)),
        ensures
            exists|s: Seq<Self::Item>|
                self.emits(s, !found) && #[trigger] decided(predicate, s, true, found),
    {
        let probe = Probe { predicate, stop_on: true, hit: false, log: Ghost(Seq::empty()) };
        let done = self.foreach(probe);
        proof {
            assert(self.emits(done.log@, !done.hit));
        }
        done.hit
    }

    /// Whether `predicate` holds of every item. Stops at the first one of
    /// which it fails: `predicate` is asked about nothing after it.
    fn all<P>(self, predicate: P) -> (holds: bool) where P: FnMut(Self::Item) -> bool
        requires
            self.wf(),
            self.finite(),
            forall|x: Self::Item| self.may_emit(x) ==> call_requires(predicate, (x,)),
        ensures
            exists|s: Seq<Self::Item>| #[trigger]
                self.emits(s, holds) && decided(predicate, s, false, !holds),
    {
        let probe = Probe { predicate, stop_on: false, hit: false, log: Ghost(Seq::empty()) };
        let done = self.foreach(probe);
        proof {
            assert(self.emits(done.log@, !done.hit));
        }
        !done.hit
    }

    /// The number of items, as far as a `usize` can hold it.
    fn count(self) -> (n: usize)
        requires
            self.wf(),
            self.finite(),
        ensures
            exists|s: Seq<Self::Item>| #[trigger] self.emits(s, true) && n == tally(s.len()),
    {
        let counted = self.foreach(Tally::new());
        proof {
            assert(self.emits(counted.log@, true));
        }
        counted.n
    }
}

/// A container that can be built from the items of a traversal.
pub trait FromTraversal<T>: Sized {
    /// The container is what building from `items`, in this order, gives.
    spec fn holds(&self, items: Seq<T>) -> bool;

    /// Drives the traversal to its end and keeps every item.
    fn from_traversal<I: IntoTraversal<Item = T>>(traversable: I) -> (d: Self)
        requires
            traversable.traversal().wf(),
            traversable.traversal().finite(),
        ensures
            exists|s: Seq<T>| #[trigger] traversable.traversal().emits(s, true) && d.holds(s),
    ;
}

/// A value that can be turned into a traversal.
pub trait IntoTraversal {
    type IntoTrav: Traversal<Item = Self::Item>;

    type Item;

    /// The traversal that the value turns into.
    spec fn traversal(self) -> Self::IntoTrav;

    /// Turns the value into its traversal.
    fn into_traversal(self) -> (t: Self::IntoTrav)
        ensures
            t == self.traversal(),
    ;
}

impl<T: Traversal> IntoTraversal for T {
    type IntoTrav = Self;

    type Item = <Self as Traversal>::Item;

    open spec fn traversal(self) -> Self {
        self
    }

    fn into_traversal(self) -> Self {
        self
    }
}

/// A traversal that hands out what a closure makes of each item of another.
#[derive(Copy, Clone)]
pub struct Mapped<I, F> {
    pub iter: I,
    pub closure: F,
}

/// A traversal that hands out the items of another of which a predicate
/// holds.
#[derive(Copy, Clone)]
pub struct Filter<I, F> {
    pub iter: I,
    pub predicate: F,
}

/// A traversal that hands out what a closure makes of each item of another,
/// where it makes anything.
#[derive(Copy, Clone)]
pub struct FilterMap<I, F> {
    pub iter: I,
    pub predicate: F,
}

/// A traversal that hands out each item of another with its position.
#[derive(Copy, Clone)]
pub struct Enumerate<I>(pub I);

/// A traversal that leaves out the first `n` items of another.
#[derive(Copy, Clone)]
pub struct Skip<I> {
    pub iter: I,
    pub n: usize,
}

/// A traversal that hands out the first `n` items of another.
#[derive(Copy, Clone)]
pub struct Take<I> {
    pub iter: I,
    pub n: usize,
}

/// A traversal that leaves out the leading items of another of which a
/// predicate holds.
#[derive(Copy, Clone)]
pub struct SkipWhile<I, F> {
    pub iter: I,
    pub predicate: F,
}

/// A traversal that hands out the leading items of another of which a
/// predicate holds.
#[derive(Copy, Clone)]
pub struct TakeWhile<I, F> {
    pub iter: I,
    pub predicate: F,
}

/// A traversal that shows each item of another to a closure before it hands
/// it out.
#[derive(Copy, Clone)]
pub struct Inspect<I, F> {
    pub iter: I,
    pub closure: F,
}

/// A traversal that hands out the items of one traversal and then those of a
/// second.
#[derive(Copy, Clone)]
pub struct Chain<I, O> {
    pub one: I,
    pub two: O,
}

/// A traversal that hands out, for each item of another, the items of the
/// traversal that a closure makes of it.
#[derive(Copy, Clone)]
pub struct FlatMap<I, F> {
    pub iter: I,
    pub producer: F,
}

/// A traversal that hands out a clone of what each item of another refers to.
#[derive(Copy, Clone)]
pub struct Cloned<I> {
    pub iter: I,
}

} // verus!
