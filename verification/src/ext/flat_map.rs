//! `flat_map`: for each item, the items of the traversal that a closure makes of
//! it.

use vstd::prelude::*;
use crate::traversal::{FlatMap, Traversal};
use crate::visit::{Recorder, Visitor, continues, lemma_continues_refl, lemma_continues_trans, news};

verus! {

/// `f` can make of each item of `outer` the traversal at its place in
/// `subs`, which can hand out the items at its place in `parts`: all of its
/// items, but for the last traversal unless `whole`, which was stopped.
pub open spec fn spread<A, U: Traversal, F: FnMut(A) -> U>(
    f: F,
    outer: Seq<A>,
    subs: Seq<U>,
    parts: Seq<Seq<U::Item>>,
    whole: bool,
) -> bool {
    &&& outer.len() == subs.len()
    &&& outer.len() == parts.len()
    &&& !whole ==> outer.len() > 0
    &&& forall|i: int|
        0 <= i < outer.len() ==> call_ensures(f, (outer[i],), #[trigger] subs[i]) && subs[i].emits(
            parts[i],
            whole || i < outer.len() - 1,
        )
}

/// The visitor that `FlatMap` drives its inner traversal with. It hands the
/// caller's visitor, wrapped in a `Recorder`, to each traversal that
/// `producer` makes, and takes it back when that traversal has been driven.
pub struct FlatMapVisitor<F, V, A, U: Traversal> {
    pub producer: F,
    pub inner: Option<V>,
    pub flag: bool,
    pub log: Ghost<Seq<A>>,
    pub subs: Ghost<Seq<U>>,
    pub parts: Ghost<Seq<Seq<U::Item>>>,
    pub base: Ghost<nat>,
}

impl<A, U: Traversal, F: FnMut(A) -> U, V: Visitor<U::Item>> Visitor<A> for FlatMapVisitor<
    F,
    V,
    A,
    U,
> {
    open spec fn wf(&self) -> bool {
        &&& self.inner is Some
        &&& self.inner->0.wf()
        &&& self.flag == self.inner->0.halted()
        &&& self.base@ <= self.inner->0.seen().len()
        &&& spread(self.producer, self.log@, self.subs@, self.parts@, !self.flag)
        &&& self.inner->0.seen().skip(self.base@ as int) =~= self.parts@.flatten()
    }

    open spec fn seen(&self) -> Seq<A> {
        self.log@
    }

    open spec fn halted(&self) -> bool {
        self.flag
    }

    open spec fn accepts(&self, item: A) -> bool {
        &&& self.inner is Some
        &&& call_requires(self.producer, (item,))
        &&& forall|u: U| #[trigger]
            call_ensures(self.producer, (item,), u) ==> {
                &&& u.wf()
                &&& u.finite() || self.inner->0.patience() is Some
                &&& forall|y: U::Item| #[trigger] u.may_emit(y) ==> self.inner->0.accepts(y)
            }
    }

    open spec fn patience(&self) -> Option<nat> {
        None
    }

    open spec fn evolves(&self, later: &Self) -> bool {
        &&& self.producer == later.producer
        &&& self.base == later.base
        &&& self.inner is Some ==> later.inner is Some && continues(
            &self.inner->0,
            &later.inner->0,
        )
    }

    proof fn evolves_refl(&self) {
        lemma_continues_refl(&self.inner->0);
    }

    proof fn evolves_trans(&self, mid: &Self, last: &Self) {
        if self.inner is Some {
            lemma_continues_trans(&self.inner->0, &mid.inner->0, &last.inner->0);
        }
    }

    fn visit(&mut self, item: A) -> (stop: bool) {
        let ghost before = self.inner->0;
        let ghost logged = self.log@;
        let ghost subs = self.subs@;
        let ghost parts = self.parts@;
        let sub = (self.producer)(item);
        let inner = self.inner.take().unwrap();
        let first = Recorder { inner: inner, stopped: false };
        let last = sub.foreach(first);
        self.flag = last.stopped;
        proof {
            let part = news(&before, &last.inner);
            assert(part =~= news(&first, &last));
            self.log@ = logged.push(item);
            self.subs@ = subs.push(sub);
            self.parts@ = parts.push(part);
            parts.lemma_flatten_push(part);
            assert(last.inner.seen().skip(self.base@ as int) =~= before.seen().skip(
                self.base@ as int,
            ) + part);
            assert forall|i: int| 0 <= i < self.log@.len() implies call_ensures(
                self.producer,
                (self.log@[i],),
                #[trigger] self.subs@[i],
            ) && self.subs@[i].emits(self.parts@[i], !self.flag || i < self.log@.len() - 1) by {
                if i < logged.len() {
                    assert(subs[i] == self.subs@[i]);
                }
            }
        }
        self.inner = Some(last.inner);
        self.flag
    }
}

impl<I: Traversal, O: Traversal, F: FnMut(I::Item) -> O> Traversal for FlatMap<I, F> {
    type Item = O::Item;

    open spec fn wf(&self) -> bool {
        &&& self.iter.wf()
        &&& self.iter.finite()
        &&& forall|x: I::Item| #[trigger]
            self.iter.may_emit(x) ==> call_requires(self.producer, (x,))
        &&& forall|x: I::Item, u: O|
            self.iter.may_emit(x) && #[trigger] call_ensures(self.producer, (x,), u) ==> u.wf()
    }

    open spec fn finite(&self) -> bool {
        forall|x: I::Item, u: O|
            self.iter.may_emit(x) && #[trigger] call_ensures(self.producer, (x,), u) ==> u.finite()
    }

    open spec fn may_emit(&self, item: O::Item) -> bool {
        exists|x: I::Item, u: O|
            self.iter.may_emit(x) && #[trigger] call_ensures(self.producer, (x,), u) && u.may_emit(
                item,
            )
    }

    open spec fn emits(&self, items: Seq<O::Item>, done: bool) -> bool {
        exists|outer: Seq<I::Item>, subs: Seq<O>, parts: Seq<Seq<O::Item>>|
            self.iter.emits(outer, done) && #[trigger] spread(
                self.producer,
                outer,
                subs,
                parts,
                done,
            ) && items =~= parts.flatten()
    }

    fn foreach<V: Visitor<O::Item>>(self, visitor: V) -> (out: V) {
        let ghost base = visitor.seen().len();
        let first = FlatMapVisitor {
            producer: self.producer,
            inner: Some(visitor),
            flag: false,
            log: Ghost(Seq::empty()),
            subs: Ghost(Seq::<O>::empty()),
            parts: Ghost(Seq::empty()),
            base: Ghost(base),
        };
        proof {
            assert(visitor.seen().skip(base as int) =~= Seq::<Seq<O::Item>>::empty().flatten());
            assert forall|x: I::Item| #[trigger] self.iter.may_emit(x) implies first.accepts(x) by {
                assert forall|u: O| #[trigger] call_ensures(self.producer, (x,), u) implies {
                    &&& u.wf()
                    &&& u.finite() || visitor.patience() is Some
                    &&& forall|y: O::Item| #[trigger] u.may_emit(y) ==> visitor.accepts(y)
                } by {
                    assert forall|y: O::Item| #[trigger] u.may_emit(y) implies visitor.accepts(
                        y,
                    ) by {
                        assert(self.may_emit(y));
                    }
                }
            }
        }
        let last = self.iter.foreach(first);
        proof {
            assert(last.log@ =~= news(&first, &last));
            assert(spread(self.producer, last.log@, last.subs@, last.parts@, !last.flag));
        }
        last.inner.unwrap()
    }
}

} // verus!
