//! Traversals that make their own items: arithmetic progressions, a repeated
//! value, and the repeated application of a function.

use vstd::prelude::*;
use crate::prim::PrimInt;
use crate::traversal::Traversal;
use crate::visit::{Visitor, continues, lemma_continues_refl, lemma_continues_visit, news};

verus! {

/// The `k`-th term of the progression that begins at `start` and advances by
/// `step`.
pub open spec fn term<A: PrimInt>(start: A, step: A, k: int) -> int {
    start.value() + k * step.value()
}

/// `items` holds the terms of the progression that begins at `start` and
/// advances by `step`, from the first on.
pub open spec fn progression<A: PrimInt>(start: A, step: int, items: Seq<A>) -> bool {
    forall|k: int| 0 <= k < items.len() ==> (#[trigger] items[k]).value() == start.value() + k * step
}

/// How far `from` lies below `to`, and 0 where it does not.
pub open spec fn gap(from: int, to: int) -> int {
    if from < to {
        to - from
    } else {
        0
    }
}

/// Each term is the one before plus `step`, and the first is `start`.
pub proof fn lemma_term_next<A: PrimInt>(start: A, step: A, k: int)
    ensures
        term(start, step, k + 1) == term(start, step, k) + step.value(),
        term(start, step, 0) == start.value(),
{
    assert((k + 1) * step.value() == k * step.value() + step.value()) by (nonlinear_arith);
}

/// The terms rise with a positive step and fall with a negative one.
pub proof fn lemma_term_monotone<A: PrimInt>(start: A, step: A, j: int, k: int)
    requires
        j <= k,
    ensures
        step.value() >= 0 ==> term(start, step, j) <= term(start, step, k),
        step.value() <= 0 ==> term(start, step, j) >= term(start, step, k),
        step.value() > 0 && j < k ==> term(start, step, j) < term(start, step, k),
        step.value() < 0 && j < k ==> term(start, step, j) > term(start, step, k),
{
    let st = step.value();
    assert(st >= 0 ==> j * st <= k * st) by (nonlinear_arith)
        requires
            j <= k,
    ;
    assert(st <= 0 ==> j * st >= k * st) by (nonlinear_arith)
        requires
            j <= k,
    ;
    assert(st > 0 && j < k ==> j * st < k * st) by (nonlinear_arith);
    assert(st < 0 && j < k ==> j * st > k * st) by (nonlinear_arith);
}

/// A progression goes on with its next term.
pub proof fn lemma_progression_push<A: PrimInt>(start: A, step: int, items: Seq<A>, x: A)
    requires
        progression(start, step, items),
        x.value() == start.value() + items.len() * step,
    ensures
        progression(start, step, items.push(x)),
{
    let more = items.push(x);
    assert forall|k: int| 0 <= k < more.len() implies (#[trigger] more[k]).value() == start.value()
        + k * step by {
        if k < items.len() {
            assert(more[k] == items[k]);
        }
    }
}

/// An iterator over the range [start, stop) by `step`. It handles overflow by
/// stopping.
#[derive(Copy, Clone)]
pub struct RangeStep<A> {
    pub start: A,
    pub stop: A,
    pub step: A,
}

/// Return an iterator over the range [start, stop) by `step`. It handles
/// overflow by stopping.
pub fn range_step<A: PrimInt>(start: A, stop: A, step: A) -> (r: RangeStep<A>)
    ensures
        r.start == start,
        r.stop == stop,
        r.step == step,
{
    RangeStep { start: start, stop: stop, step: step }
}

impl<A: PrimInt> RangeStep<A> {
    /// Whether `x` lies before `stop` in the direction of travel: below it
    /// where the step is positive, and above it otherwise.
    pub open spec fn before_stop(&self, x: int) -> bool {
        if self.step.value() > 0 {
            x < self.stop.value()
        } else {
            x > self.stop.value()
        }
    }
}

impl<A: PrimInt> Traversal for RangeStep<A> {
    type Item = A;

    open spec fn wf(&self) -> bool {
        true
    }

    /// With a step of 0 and `start` above `stop`, the range hands out
    /// `start` without end.
    open spec fn finite(&self) -> bool {
        self.step.value() != 0 || self.start.value() <= self.stop.value()
    }

    open spec fn may_emit(&self, item: A) -> bool {
        self.before_stop(item.value())
    }

    /// The items are the terms `start + k * step`, from the first on. The
    /// last of them lies before `stop`, and so do those before it; where the
    /// range has come to its end, the next term does not.
    open spec fn emits(&self, items: Seq<A>, done: bool) -> bool {
        &&& progression(self.start, self.step.value(), items)
        &&& items.len() > 0 ==> self.before_stop(term(self.start, self.step, items.len() - 1))
        &&& done ==> !self.before_stop(term(self.start, self.step, items.len() as int))
    }

    fn foreach<V: Visitor<A>>(self, visitor: V) -> (out: V) {
        let mut v = visitor;
        let mut i = self.start;
        proof {
            lemma_continues_refl(&visitor);
            lemma_term_next(self.start, self.step, 0);
        }
        // branch once and duplicate trivial logic for the perf
        if A::zero().less_than(self.step) {
            while i.less_than(self.stop)
                invariant
                    self.step.value() > 0,
                    continues(&visitor, &v),
                    !v.halted(),
                    i.value() == term(self.start, self.step, news(&visitor, &v).len() as int),
                    self.emits(news(&visitor, &v), false),
                    forall|x: A| self.may_emit(x) ==> visitor.accepts(x),
                decreases gap(i.value(), self.stop.value()),
            {
                let ghost before = v;
                let ghost n = news(&visitor, &before).len() as int;
                let cur = i;
                let temp = i.checked_add(self.step);
                assert(self.may_emit(cur));
                let stop = v.visit(cur);
                proof {
                    lemma_continues_visit(&visitor, &before, cur, &v, stop);
                    lemma_term_next(self.start, self.step, n);
                    lemma_progression_push(
                        self.start,
                        self.step.value(),
                        news(&visitor, &before),
                        cur,
                    );
                    self.stop.within();
                    cur.within();
                }
                if stop {
                    return v;
                }
                i = match temp {
                    None => return v,
                    Some(x) => x,
                };
            }
        } else {
            while self.stop.less_than(i)
                invariant
                    self.step.value() <= 0,
                    continues(&visitor, &v),
                    !v.halted(),
                    i.value() == term(self.start, self.step, news(&visitor, &v).len() as int),
                    self.emits(news(&visitor, &v), false),
                    forall|x: A| self.may_emit(x) ==> visitor.accepts(x),
                    self.finite() || visitor.patience() is Some,
                decreases
                        (if self.step.value() < 0 {
                            gap(self.stop.value(), i.value())
                        } else {
                            v.patience()->0 as int
                        }),
            {
                let ghost before = v;
                let ghost n = news(&visitor, &before).len() as int;
                let cur = i;
                let temp = i.checked_add(self.step);
                assert(self.may_emit(cur));
                let stop = v.visit(cur);
                proof {
                    lemma_continues_visit(&visitor, &before, cur, &v, stop);
                    lemma_term_next(self.start, self.step, n);
                    lemma_term_monotone(self.start, self.step, 0, n);
                    lemma_progression_push(
                        self.start,
                        self.step.value(),
                        news(&visitor, &before),
                        cur,
                    );
                    self.stop.within();
                    cur.within();
                }
                if stop {
                    return v;
                }
                i = match temp {
                    None => return v,
                    Some(x) => x,
                };
            }
        }
        v
    }
}

/// An iterator over the range [start, stop] by `step`. It handles overflow by
/// stopping.
#[derive(Copy, Clone)]
pub struct RangeStepInclusive<A> {
    pub start: A,
    pub stop: A,
    pub step: A,
}

/// Return an iterator over the range [start, stop] by `step`. It handles
/// overflow by stopping.
pub fn range_step_inclusive<A: PrimInt>(start: A, stop: A, step: A) -> (r: RangeStepInclusive<A>)
    ensures
        r.start == start,
        r.stop == stop,
        r.step == step,
{
    RangeStepInclusive { start: start, stop: stop, step: step }
}

impl<A: PrimInt> RangeStepInclusive<A> {
    /// Whether `x` has not passed `stop` in the direction of travel: it is at
    /// most `stop` where the step is positive, and at least `stop` otherwise.
    pub open spec fn up_to_stop(&self, x: int) -> bool {
        if self.step.value() > 0 {
            x <= self.stop.value()
        } else {
            x >= self.stop.value()
        }
    }
}

impl<A: PrimInt> Traversal for RangeStepInclusive<A> {
    type Item = A;

    open spec fn wf(&self) -> bool {
        true
    }

    /// With a step of 0 and `start` at or above `stop`, the range hands out
    /// `start` without end.
    open spec fn finite(&self) -> bool {
        self.step.value() != 0 || self.start.value() < self.stop.value()
    }

    open spec fn may_emit(&self, item: A) -> bool {
        self.up_to_stop(item.value())
    }

    /// The items are the terms `start + k * step`, from the first on. The
    /// last of them has not passed `stop`, and neither have those before it;
    /// where the range has come to its end, the next term has.
    open spec fn emits(&self, items: Seq<A>, done: bool) -> bool {
        &&& progression(self.start, self.step.value(), items)
        &&& items.len() > 0 ==> self.up_to_stop(term(self.start, self.step, items.len() - 1))
        &&& done ==> !self.up_to_stop(term(self.start, self.step, items.len() as int))
    }

    fn foreach<V: Visitor<A>>(self, visitor: V) -> (out: V) {
        let mut v = visitor;
        let mut i = self.start;
        proof {
            lemma_continues_refl(&visitor);
            lemma_term_next(self.start, self.step, 0);
        }
        // branch once and duplicate trivial logic for the perf
        if A::zero().less_than(self.step) {
            while !self.stop.less_than(i)
                invariant
                    self.step.value() > 0,
                    continues(&visitor, &v),
                    !v.halted(),
                    i.value() == term(self.start, self.step, news(&visitor, &v).len() as int),
                    self.emits(news(&visitor, &v), false),
                    forall|x: A| self.may_emit(x) ==> visitor.accepts(x),
                decreases gap(i.value(), self.stop.value() + 1),
            {
                let ghost before = v;
                let ghost n = news(&visitor, &before).len() as int;
                let cur = i;
                let temp = i.checked_add(self.step);
                assert(self.may_emit(cur));
                let stop = v.visit(cur);
                proof {
                    lemma_continues_visit(&visitor, &before, cur, &v, stop);
                    lemma_term_next(self.start, self.step, n);
                    lemma_progression_push(
                        self.start,
                        self.step.value(),
                        news(&visitor, &before),
                        cur,
                    );
                    self.stop.within();
                    cur.within();
                }
                if stop {
                    return v;
                }
                i = match temp {
                    None => return v,
                    Some(x) => x,
                };
            }
        } else {
            while !i.less_than(self.stop)
                invariant
                    self.step.value() <= 0,
                    continues(&visitor, &v),
                    !v.halted(),
                    i.value() == term(self.start, self.step, news(&visitor, &v).len() as int),
                    self.emits(news(&visitor, &v), false),
                    forall|x: A| self.may_emit(x) ==> visitor.accepts(x),
                    self.finite() || visitor.patience() is Some,
                decreases
                        (if self.step.value() < 0 {
                            gap(self.stop.value() - 1, i.value())
                        } else {
                            v.patience()->0 as int
                        }),
            {
                let ghost before = v;
                let ghost n = news(&visitor, &before).len() as int;
                let cur = i;
                let temp = i.checked_add(self.step);
                assert(self.may_emit(cur));
                let stop = v.visit(cur);
                proof {
                    lemma_continues_visit(&visitor, &before, cur, &v, stop);
                    lemma_term_next(self.start, self.step, n);
                    lemma_term_monotone(self.start, self.step, 0, n);
                    lemma_progression_push(
                        self.start,
                        self.step.value(),
                        news(&visitor, &before),
                        cur,
                    );
                    self.stop.within();
                    cur.within();
                }
                if stop {
                    return v;
                }
                i = match temp {
                    None => return v,
                    Some(x) => x,
                };
            }
        }
        v
    }
}

/// An iterator over the range [start, stop)
#[derive(Copy, Clone)]
pub struct Range<A> {
    pub start: A,
    pub stop: A,
}

/// Returns an iterator over the given range [start, stop) (that is, starting
/// at start (inclusive), and ending at stop (exclusive)).
pub fn range<A: PrimInt>(start: A, stop: A) -> (r: Range<A>)
    ensures
        r.start == start,
        r.stop == stop,
{
    Range { start: start, stop: stop }
}

impl<A: PrimInt> Traversal for Range<A> {
    type Item = A;

    open spec fn wf(&self) -> bool {
        true
    }

    open spec fn finite(&self) -> bool {
        true
    }

    open spec fn may_emit(&self, item: A) -> bool {
        self.start.value() <= item.value() < self.stop.value()
    }

    /// The items are the integers from `start` on, as far as they lie below
    /// `stop`.
    open spec fn emits(&self, items: Seq<A>, done: bool) -> bool {
        &&& progression(self.start, 1, items)
        &&& items.len() <= gap(self.start.value(), self.stop.value())
        &&& done ==> items.len() == gap(self.start.value(), self.stop.value())
    }

    fn foreach<V: Visitor<A>>(self, visitor: V) -> (out: V) {
        let mut v = visitor;
        let mut i = self.start;
        let one = A::one();
        proof {
            lemma_continues_refl(&visitor);
        }
        while i.less_than(self.stop)
            invariant
                one.value() == 1,
                continues(&visitor, &v),
                !v.halted(),
                i.value() == self.start.value() + news(&visitor, &v).len(),
                self.emits(news(&visitor, &v), false),
                forall|x: A| self.may_emit(x) ==> visitor.accepts(x),
            decreases gap(i.value(), self.stop.value()),
        {
            let ghost before = v;
            let cur = i;
            proof {
                self.stop.within();
                cur.within();
            }
            i = cur.plus(one);
            assert(self.may_emit(cur));
            let stop = v.visit(cur);
            proof {
                lemma_continues_visit(&visitor, &before, cur, &v, stop);
                lemma_progression_push(self.start, 1, news(&visitor, &before), cur);
            }
            if stop {
                return v;
            }
        }
        v
    }
}

/// An iterator over the range [start, stop]
#[derive(Copy, Clone)]
pub struct RangeInclusive<A> {
    pub start: A,
    pub stop: A,
}

/// Return an iterator over the range [start, stop]
pub fn range_inclusive<A: PrimInt>(start: A, stop: A) -> (r: RangeInclusive<A>)
    ensures
        r.start == start,
        r.stop == stop,
{
    RangeInclusive { start: start, stop: stop }
}

impl<A: PrimInt> Traversal for RangeInclusive<A> {
    type Item = A;

    open spec fn wf(&self) -> bool {
        true
    }

    open spec fn finite(&self) -> bool {
        true
    }

    open spec fn may_emit(&self, item: A) -> bool {
        self.start.value() <= item.value() <= self.stop.value()
    }

    /// The items are the integers from `start` on, as far as they are at
    /// most `stop`. The largest value of the type can be among them.
    open spec fn emits(&self, items: Seq<A>, done: bool) -> bool {
        &&& progression(self.start, 1, items)
        &&& items.len() <= gap(self.start.value(), self.stop.value() + 1)
        &&& done ==> items.len() == gap(self.start.value(), self.stop.value() + 1)
    }

    fn foreach<V: Visitor<A>>(self, visitor: V) -> (out: V) {
        let mut v = visitor;
        let mut i = self.start;
        let one = A::one();
        proof {
            lemma_continues_refl(&visitor);
        }
        while !self.stop.less_than(i)
            invariant
                one.value() == 1,
                continues(&visitor, &v),
                !v.halted(),
                i.value() == self.start.value() + news(&visitor, &v).len(),
                self.emits(news(&visitor, &v), false),
                forall|x: A| self.may_emit(x) ==> visitor.accepts(x),
            decreases gap(i.value(), self.stop.value() + 1),
        {
            let ghost before = v;
            let cur = i;
            let next = cur.checked_add(one);
            assert(self.may_emit(cur));
            let stop = v.visit(cur);
            proof {
                lemma_continues_visit(&visitor, &before, cur, &v, stop);
                lemma_progression_push(self.start, 1, news(&visitor, &before), cur);
                self.stop.within();
                cur.within();
            }
            if stop {
                return v;
            }
            i = match next {
                None => return v,
                Some(x) => x,
            };
        }
        v
    }
}

/// An infinite iterator starting at `start` and advancing by `step` with each
/// iteration
#[derive(Copy, Clone)]
pub struct Counter<A> {
    /// The current state the counter is at (next value to be yielded)
    pub start: A,
    /// The amount that this iterator is stepping by
    pub step: A,
}

/// Creates a new counter with the specified start/step
pub fn count<A>(start: A, step: A) -> (c: Counter<A>)
    ensures
        c.start == start,
        c.step == step,
{
    Counter { start: start, step: step }
}

impl<A: PrimInt> Traversal for Counter<A> {
    type Item = A;

    open spec fn wf(&self) -> bool {
        true
    }

    /// With a step other than 0 the progression leaves the type's range and
    /// the counter ends there; with a step of 0 it never ends.
    open spec fn finite(&self) -> bool {
        self.step.value() != 0
    }

    open spec fn may_emit(&self, item: A) -> bool {
        true
    }

    /// The items are the terms `start + k * step`, from the first on; where
    /// the counter has come to its end, the type cannot hold the next term.
    open spec fn emits(&self, items: Seq<A>, done: bool) -> bool {
        &&& progression(self.start, self.step.value(), items)
        &&& done ==> !(A::lowest() <= term(self.start, self.step, items.len() as int)
            <= A::highest())
    }

    fn foreach<V: Visitor<A>>(self, visitor: V) -> (out: V) {
        let mut v = visitor;
        let mut i = self.start;
        proof {
            lemma_continues_refl(&visitor);
            lemma_term_next(self.start, self.step, 0);
            i.within();
        }
        loop
            invariant
                continues(&visitor, &v),
                !v.halted(),
                i.value() == term(self.start, self.step, news(&visitor, &v).len() as int),
                A::lowest() <= i.value() <= A::highest(),
                self.emits(news(&visitor, &v), false),
                forall|x: A| self.may_emit(x) ==> visitor.accepts(x),
                self.finite() || visitor.patience() is Some,
            decreases
                    (if self.step.value() > 0 {
                        A::highest() - i.value()
                    } else if self.step.value() < 0 {
                        i.value() - A::lowest()
                    } else {
                        v.patience()->0 as int
                    }),
        {
            let ghost before = v;
            let ghost n = news(&visitor, &before).len() as int;
            let cur = i;
            let next = cur.checked_add(self.step);
            assert(self.may_emit(cur));
            let stop = v.visit(cur);
            proof {
                lemma_continues_visit(&visitor, &before, cur, &v, stop);
                lemma_term_next(self.start, self.step, n);
                lemma_progression_push(
                    self.start,
                    self.step.value(),
                    news(&visitor, &before),
                    cur,
                );
            }
            if stop {
                return v;
            }
            i = match next {
                None => return v,
                Some(x) => x,
            };
            proof {
                i.within();
            }
        }
    }
}

/// Create a new iterator that endlessly repeats the element `elt`.
pub fn repeat<T: Clone>(elt: T) -> (r: Repeat<T>)
    ensures
        r.element == elt,
{
    Repeat { element: elt }
}

/// An iterator that repeats an element endlessly
#[derive(Copy, Clone)]
pub struct Repeat<A> {
    pub element: A,
}

impl<A: Clone> Traversal for Repeat<A> {
    type Item = A;

    open spec fn wf(&self) -> bool {
        true
    }

    open spec fn finite(&self) -> bool {
        false
    }

    open spec fn may_emit(&self, item: A) -> bool {
        cloned(self.element, item)
    }

    open spec fn emits(&self, items: Seq<A>, done: bool) -> bool {
        &&& !done
        &&& forall|k: int| 0 <= k < items.len() ==> cloned(self.element, #[trigger] items[k])
    }

    fn foreach<V: Visitor<A>>(self, visitor: V) -> (out: V) {
        let mut v = visitor;
        proof {
            lemma_continues_refl(&visitor);
        }
        loop
            invariant
                continues(&visitor, &v),
                !v.halted(),
                self.emits(news(&visitor, &v), false),
                forall|x: A| self.may_emit(x) ==> visitor.accepts(x),
                visitor.patience() is Some,
            decreases v.patience()->0,
        {
            let ghost before = v;
            let ghost n = news(&visitor, &before).len() as int;
            let item = self.element.clone();
            assert(self.may_emit(item));
            let stop = v.visit(item);
            proof {
                lemma_continues_visit(&visitor, &before, item, &v, stop);
                assert(news(&visitor, &v).len() == n + 1);
                assert(news(&visitor, &v)[n] == item);
                assert(self.emits(news(&visitor, &v), false));
            }
            if stop {
                return v;
            }
        }
    }
}

/// An iterator that repeatedly applies a given function, starting from a
/// given seed value.
#[derive(Copy, Clone)]
pub struct Iterate<T, F> {
    pub seed: T,
    pub iter: F,
}

/// Create a new iterator that produces an infinite sequence of repeated
/// applications of the given function `f`.
pub fn iterate<T, F>(seed: T, f: F) -> (r: Iterate<T, F>) where T: Clone, F: FnMut(T) -> T
    ensures
        r.seed == seed,
        r.iter == f,
        r.wf() <==> (forall|x: T| #[trigger] reachable(f, seed, x) ==> call_requires(f, (x,))),
        !r.finite(),
        forall|y: T| #[trigger]
            r.may_emit(y) ==> exists|x: T| #[trigger] reachable(f, seed, x) && cloned(x, y),
        forall|s: Seq<T>, done: bool| #[trigger]
            r.emits(s, done) ==> !done && exists|chain: Seq<T>| #[trigger]
                chained(f, seed, chain) && clones_of(chain, s),
{
    let r = Iterate { seed: seed, iter: f };
    proof {
        if r.wf() {
            assert forall|x: T| #[trigger] reachable(f, seed, x) implies call_requires(
                f,
                (x,),
            ) by {
                assert(reachable(r.iter, r.seed, x));
            }
        }
    }
    r
}

/// `chain` begins at `seed`, and each value of it after the first is a
/// result of `f` on the one before.
pub open spec fn chained<T, F: FnMut(T) -> T>(f: F, seed: T, chain: Seq<T>) -> bool {
    &&& chain.len() > 0 ==> chain[0] == seed
    &&& forall|k: int| 0 <= k < chain.len() - 1 ==> call_ensures(f, (chain[k],), #[trigger] chain[k + 1])
}

/// `x` can be reached from `seed` by applying `f` zero or more times.
pub open spec fn reachable<T, F: FnMut(T) -> T>(f: F, seed: T, x: T) -> bool {
    exists|chain: Seq<T>| #[trigger] chained(f, seed, chain) && chain.len() > 0 && chain.last() == x
}

/// Each item of `items` is a clone of the value at its place in `chain`.
pub open spec fn clones_of<T: Clone>(chain: Seq<T>, items: Seq<T>) -> bool {
    &&& chain.len() == items.len()
    &&& forall|k: int|
        #![trigger chain[k]]
        #![trigger items[k]]
        0 <= k < items.len() ==> cloned(chain[k], items[k])
}

impl<A, I> Traversal for Iterate<A, I> where A: Clone, I: FnMut(A) -> A {
    type Item = A;

    open spec fn wf(&self) -> bool {
        forall|x: A| #[trigger] reachable(self.iter, self.seed, x) ==> call_requires(self.iter, (x,))
    }

    open spec fn finite(&self) -> bool {
        false
    }

    open spec fn may_emit(&self, item: A) -> bool {
        exists|x: A| #[trigger] reachable(self.iter, self.seed, x) && cloned(x, item)
    }

    open spec fn emits(&self, items: Seq<A>, done: bool) -> bool {
        &&& !done
        &&& exists|chain: Seq<A>| #[trigger]
            chained(self.iter, self.seed, chain) && clones_of(chain, items)
    }

    fn foreach<V: Visitor<A>>(self, visitor: V) -> (out: V) {
        let mut v = visitor;
        let mut f = self.iter;
        let first = self.seed.clone();
        let ghost mut chain = seq![self.seed];
        proof {
            lemma_continues_refl(&visitor);
            assert(chained(self.iter, self.seed, chain));
            assert(reachable(self.iter, self.seed, self.seed));
            assert(self.may_emit(first));
        }
        let stop = v.visit(first);
        proof {
            lemma_continues_visit(&visitor, &visitor, first, &v, stop);
            assert(news(&visitor, &v).len() == 1);
            assert(news(&visitor, &v)[0] == first);
            assert(clones_of(chain, news(&visitor, &v)));
        }
        if !stop {
            let mut cur = self.seed;
            loop
                invariant
                    f == self.iter,
                    self.wf(),
                    continues(&visitor, &v),
                    !v.halted(),
                    chain.len() > 0,
                    chain.last() == cur,
                    chained(self.iter, self.seed, chain),
                    clones_of(chain, news(&visitor, &v)),
                    forall|x: A| self.may_emit(x) ==> visitor.accepts(x),
                    visitor.patience() is Some,
                decreases v.patience()->0,
            {
                let ghost before = v;
                let ghost n = news(&visitor, &before).len() as int;
                assert(reachable(self.iter, self.seed, cur));
                let next = f(cur);
                let item = next.clone();
                proof {
                    let longer = chain.push(next);
                    assert(chained(self.iter, self.seed, longer)) by {
                        assert forall|k: int| 0 <= k < longer.len() - 1 implies call_ensures(
                            self.iter,
                            (longer[k],),
                            #[trigger] longer[k + 1],
                        ) by {
                            if k < chain.len() - 1 {
                                assert(longer[k + 1] == chain[k + 1]);
                            }
                        }
                    }
                    chain = longer;
                    assert(reachable(self.iter, self.seed, next));
                    assert(self.may_emit(item));
                }
                let stop = v.visit(item);
                proof {
                    lemma_continues_visit(&visitor, &before, item, &v, stop);
                    assert(news(&visitor, &v).len() == n + 1);
                    assert(news(&visitor, &v)[n] == item);
                    assert(clones_of(chain, news(&visitor, &v)));
                }
                if stop {
                    return v;
                }
                cur = next;
            }
        }
        v
    }
}

} // verus!
