//! The consumer side of the protocol: a visitor receives items one at a time
//! and answers each with `true` to stop or `false` to go on.

use vstd::prelude::*;

verus! {

/// A stateful consumer of items.
///
/// The contract is stated over the visitor's history: `seen` is the sequence
/// of every item it has been given, and `halted` tells whether its last answer
/// was "stop". A visitor that has halted is never visited again.
pub trait Visitor<T>: Sized {
    /// The visitor's invariant.
    spec fn wf(&self) -> bool;

    /// Every item received so far, oldest first.
    spec fn seen(&self) -> Seq<T>;

    /// Whether the visitor has asked to stop.
    spec fn halted(&self) -> bool;

    /// The items that may be handed to the visitor.
    spec fn accepts(&self, item: T) -> bool;

    /// An upper bound on the number of further visits that answer "go on",
    /// where one is known. A traversal without end can only be driven by a
    /// visitor that has such a bound.
    spec fn patience(&self) -> Option<nat>;

    /// What a visit leaves in place: `later` is a state that this visitor can
    /// be in after zero or more visits.
    spec fn evolves(&self, later: &Self) -> bool;

    /// A visitor can be in the state that it is in.
    proof fn evolves_refl(&self)
        requires
            self.wf(),
        ensures
            self.evolves(self),
    ;

    /// What can follow a later state can follow an earlier one.
    proof fn evolves_trans(&self, mid: &Self, last: &Self)
        requires
            self.evolves(mid),
            mid.evolves(last),
        ensures
            self.evolves(last),
    ;

    /// Hands one item to the visitor; the answer is `true` to stop.
    fn visit(&mut self, item: T) -> (stop: bool)
        requires
            old(self).wf(),
            !old(self).halted(),
            old(self).accepts(item),
        ensures
            final(self).wf(),
            old(self).evolves(final(self)),
            final(self).seen() == old(self).seen().push(item),
            final(self).halted() == stop,
            forall|x: T| old(self).accepts(x) ==> #[trigger] final(self).accepts(x),
            old(self).patience() matches Some(p) ==> (final(self).patience() matches Some(q) && (q
                < p || (stop && q <= p))),
    ;
}

/// One visit with `item`, answered by `stop`, took `before` to `after`.
pub open spec fn visited<T, V: Visitor<T>>(before: &V, item: T, after: &V, stop: bool) -> bool {
    &&& after.wf()
    &&& before.evolves(after)
    &&& after.seen() == before.seen().push(item)
    &&& after.halted() == stop
    &&& forall|x: T| before.accepts(x) ==> #[trigger] after.accepts(x)
    &&& before.patience() matches Some(p) ==> (after.patience() matches Some(q) && (q < p || (stop
        && q <= p)))
}

/// The items that `after` has seen beyond those of `before`.
pub open spec fn news<T, V: Visitor<T>>(before: &V, after: &V) -> Seq<T> {
    after.seen().skip(before.seen().len() as int)
}

/// Zero or more visits took `before` to `after`: the history has only grown,
/// what was accepted is still accepted, and a bounded patience has not grown.
pub open spec fn continues<T, V: Visitor<T>>(before: &V, after: &V) -> bool {
    &&& after.wf()
    &&& before.evolves(after)
    &&& before.seen().len() <= after.seen().len()
    &&& after.seen() =~= before.seen() + news(before, after)
    &&& forall|x: T| before.accepts(x) ==> #[trigger] after.accepts(x)
    &&& before.patience() matches Some(p) ==> (after.patience() matches Some(q) && q <= p)
}

/// A visitor continues itself, with nothing new seen.
pub proof fn lemma_continues_refl<T, V: Visitor<T>>(v: &V)
    requires
        v.wf(),
    ensures
        continues(v, v),
        news(v, v) =~= Seq::<T>::empty(),
{
    v.evolves_refl();
}

/// One visit more continues what came before, with one item more seen.
pub proof fn lemma_continues_visit<T, V: Visitor<T>>(
    start: &V,
    before: &V,
    item: T,
    after: &V,
    stop: bool,
)
    requires
        continues(start, before),
        visited(before, item, after, stop),
    ensures
        continues(start, after),
        news(start, after) =~= news(start, before).push(item),
{
    start.evolves_trans(before, after);
}

/// One visit alone is a continuation, with that one item seen.
pub proof fn lemma_visited_continues<T, V: Visitor<T>>(before: &V, item: T, after: &V, stop: bool)
    requires
        before.wf(),
        visited(before, item, after, stop),
    ensures
        continues(before, after),
        news(before, after) =~= seq![item],
{
    lemma_continues_refl(before);
    lemma_continues_visit(before, before, item, after, stop);
}

/// Continuations follow one another, and what they have seen adds up.
pub proof fn lemma_continues_trans<T, V: Visitor<T>>(start: &V, mid: &V, last: &V)
    requires
        continues(start, mid),
        continues(mid, last),
    ensures
        continues(start, last),
        news(start, last) =~= news(start, mid) + news(mid, last),
{
    start.evolves_trans(mid, last);
}

/// `answers` are possible results of `f` on the items of `items`, one by one.
pub open spec fn answered<T, R, F: FnMut(T) -> R>(f: F, items: Seq<T>, answers: Seq<R>) -> bool {
    &&& items.len() == answers.len()
    &&& forall|i: int|
        #![trigger items[i]]
        #![trigger answers[i]]
        0 <= i < items.len() ==> call_ensures(f, (items[i],), answers[i])
}

/// `f` was asked about each item of `items` in turn, said `!stop_on` to all
/// but the last, and if `stopped`, said `stop_on` to the last.
pub open spec fn decided<T, F: FnMut(T) -> bool>(
    f: F,
    items: Seq<T>,
    stop_on: bool,
    stopped: bool,
) -> bool {
    &&& stopped ==> items.len() > 0 && call_ensures(f, (items.last(),), stop_on)
    &&& forall|i: int|
        0 <= i < items.len() - (if stopped { 1int } else { 0int }) ==> call_ensures(
            f,
            (#[trigger] items[i],),
            !stop_on,
        )
}

/// A visitor made of a closure that answers `true` to stop.
pub struct Callback<F, T> {
    pub f: F,
    pub stopped: bool,
    pub log: Ghost<Seq<T>>,
}

impl<T, F: FnMut(T) -> bool> Callback<F, T> {
    /// Wraps `f`; nothing has been seen yet.
    pub fn new(f: F) -> (c: Self)
        ensures
            c.f == f,
            c.wf(),
            !c.halted(),
            c.seen() =~= Seq::<T>::empty(),
            c.patience() is None,
            forall|x: T| #[trigger] c.accepts(x) <==> call_requires(f, (x,)),
    {
        Callback { f, stopped: false, log: Ghost(Seq::empty()) }
    }

    /// Whether the closure has asked to stop.
    pub fn stopped(&self) -> (b: bool)
        ensures
            b == self.halted(),
    {
        self.stopped
    }

    /// What the invariant says of the closure: it was asked about every item
    /// seen, said "go on" to all but the last, and "stop" to the last if the
    /// callback has halted. The closure itself stays the same.
    pub proof fn law_asked(&self, later: &Self)
        requires
            self.evolves(later),
            later.wf(),
        ensures
            later.f == self.f,
            decided(self.f, later.seen(), true, later.halted()),
    {
    }
}

impl<T, F: FnMut(T) -> bool> Visitor<T> for Callback<F, T> {
    open spec fn wf(&self) -> bool {
        decided(self.f, self.log@, true, self.stopped)
    }

    open spec fn seen(&self) -> Seq<T> {
        self.log@
    }

    open spec fn halted(&self) -> bool {
        self.stopped
    }

    open spec fn accepts(&self, item: T) -> bool {
        call_requires(self.f, (item,))
    }

    open spec fn patience(&self) -> Option<nat> {
        None
    }

    open spec fn evolves(&self, later: &Self) -> bool {
        self.f == later.f
    }

    proof fn evolves_refl(&self) {
    }

    proof fn evolves_trans(&self, mid: &Self, last: &Self) {
    }

    fn visit(&mut self, item: T) -> (stop: bool) {
        let stop = (self.f)(item);
        self.stopped = stop;
        proof {
            self.log@ = self.log@.push(item);
        }
        stop
    }
}

/// A visitor that hands every item to a closure and never stops.
pub struct Each<F, T> {
    pub f: F,
    pub log: Ghost<Seq<T>>,
}

impl<T, F: FnMut(T)> Visitor<T> for Each<F, T> {
    open spec fn wf(&self) -> bool {
        forall|i: int| 0 <= i < self.log@.len() ==> call_ensures(self.f, (#[trigger] self.log@[i],), ())
    }

    open spec fn seen(&self) -> Seq<T> {
        self.log@
    }

    open spec fn halted(&self) -> bool {
        false
    }

    open spec fn accepts(&self, item: T) -> bool {
        call_requires(self.f, (item,))
    }

    open spec fn patience(&self) -> Option<nat> {
        None
    }

    open spec fn evolves(&self, later: &Self) -> bool {
        self.f == later.f
    }

    proof fn evolves_refl(&self) {
    }

    proof fn evolves_trans(&self, mid: &Self, last: &Self) {
    }

    fn visit(&mut self, item: T) -> (stop: bool) {
        (self.f)(item);
        proof {
            self.log@ = self.log@.push(item);
        }
        false
    }
}

/// A visitor that looks for the first item on which a predicate says
/// `stop_on`, and stops there.
pub struct Probe<P, T> {
    pub predicate: P,
    pub stop_on: bool,
    pub hit: bool,
    pub log: Ghost<Seq<T>>,
}

impl<T, P: FnMut(T) -> bool> Visitor<T> for Probe<P, T> {
    open spec fn wf(&self) -> bool {
        decided(self.predicate, self.log@, self.stop_on, self.hit)
    }

    open spec fn seen(&self) -> Seq<T> {
        self.log@
    }

    open spec fn halted(&self) -> bool {
        self.hit
    }

    open spec fn accepts(&self, item: T) -> bool {
        call_requires(self.predicate, (item,))
    }

    open spec fn patience(&self) -> Option<nat> {
        None
    }

    open spec fn evolves(&self, later: &Self) -> bool {
        self.predicate == later.predicate && self.stop_on == later.stop_on
    }

    proof fn evolves_refl(&self) {
    }

    proof fn evolves_trans(&self, mid: &Self, last: &Self) {
    }

    fn visit(&mut self, item: T) -> (stop: bool) {
        let this = (self.predicate)(item);
        self.hit = this == self.stop_on;
        proof {
            self.log@ = self.log@.push(item);
        }
        self.hit
    }
}

/// The count of `n` items as a `usize`: exact while it fits, and the largest
/// `usize` beyond that.
pub open spec fn tally(n: nat) -> usize {
    if n <= usize::MAX {
        n as usize
    } else {
        usize::MAX
    }
}

/// A visitor that counts what it is given and never stops.
pub struct Tally<T> {
    pub n: usize,
    pub log: Ghost<Seq<T>>,
}

impl<T> Tally<T> {
    /// A tally that has counted nothing yet.
    pub fn new() -> (t: Self)
        ensures
            t.n == 0,
            t.log@ =~= Seq::<T>::empty(),
            t.wf(),
    {
        Tally { n: 0, log: Ghost(Seq::empty()) }
    }
}

impl<T> Visitor<T> for Tally<T> {
    open spec fn wf(&self) -> bool {
        self.n == tally(self.log@.len())
    }

    open spec fn seen(&self) -> Seq<T> {
        self.log@
    }

    open spec fn halted(&self) -> bool {
        false
    }

    open spec fn accepts(&self, item: T) -> bool {
        true
    }

    open spec fn patience(&self) -> Option<nat> {
        None
    }

    open spec fn evolves(&self, later: &Self) -> bool {
        true
    }

    proof fn evolves_refl(&self) {
    }

    proof fn evolves_trans(&self, mid: &Self, last: &Self) {
    }

    fn visit(&mut self, item: T) -> (stop: bool) {
        if self.n < usize::MAX {
            self.n = self.n + 1;
        }
        proof {
            self.log@ = self.log@.push(item);
        }
        false
    }
}

/// A visitor that passes every item on and remembers in `stopped` whether the
/// visitor behind it has asked to stop.
pub struct Recorder<V> {
    pub inner: V,
    pub stopped: bool,
}

impl<T, V: Visitor<T>> Visitor<T> for Recorder<V> {
    open spec fn wf(&self) -> bool {
        self.inner.wf() && self.stopped == self.inner.halted()
    }

    open spec fn seen(&self) -> Seq<T> {
        self.inner.seen()
    }

    open spec fn halted(&self) -> bool {
        self.inner.halted()
    }

    open spec fn accepts(&self, item: T) -> bool {
        self.inner.accepts(item)
    }

    open spec fn patience(&self) -> Option<nat> {
        self.inner.patience()
    }

    open spec fn evolves(&self, later: &Self) -> bool {
        continues(&self.inner, &later.inner)
    }

    proof fn evolves_refl(&self) {
        lemma_continues_refl(&self.inner);
    }

    proof fn evolves_trans(&self, mid: &Self, last: &Self) {
        lemma_continues_trans(&self.inner, &mid.inner, &last.inner);
    }

    fn visit(&mut self, item: T) -> (stop: bool) {
        let ghost before = self.inner;
        proof {
            lemma_continues_refl(&before);
        }
        self.stopped = self.inner.visit(item);
        proof {
            lemma_continues_visit(&before, &before, item, &self.inner, self.stopped);
        }
        self.stopped
    }
}

} // verus!
