//! What the sources hand out.

use vstd::prelude::*;
use crate::impls::vec::Elements;
use crate::prim::PrimInt;
use crate::traversal::{Traversal, begins};
use crate::utils::{
    Counter, Iterate, Range, RangeInclusive, RangeStep, RangeStepInclusive, Repeat, chained,
    clones_of, gap, lemma_term_monotone, progression, reachable, term,
};
use crate::laws::{yields, streams};

verus! {

/// A slice hands out references to its elements, in index order.
pub proof fn law_slice_yields<'a, T>(slice: &'a [T])
    ensures
        yields(slice, slice@.as_ref()),
{
}

/// A vector turned into a traversal hands out its elements, in index order.
pub proof fn law_elements_yields<T>(v: Vec<T>)
    ensures
        yields(Elements { items: v }, v@),
{
}

/// A range hands out the integers from `start` up to, not including, `stop`.
pub proof fn law_range_yields<A: PrimInt>(r: Range<A>, all: Seq<A>)
    requires
        progression(r.start, 1, all),
        all.len() == gap(r.start.value(), r.stop.value()),
    ensures
        yields(r, all),
{
    assert forall|s: Seq<A>, done: bool| #[trigger] r.emits(s, done) implies begins(
        all,
        s,
        done,
    ) by {
        assert forall|k: int| 0 <= k < s.len() implies s[k] == all[k] by {
            s[k].told_by_value(all[k]);
        }
    }
}

/// An inclusive range hands out the integers from `start` up to, and
/// including, `stop`.
pub proof fn law_range_inclusive_yields<A: PrimInt>(r: RangeInclusive<A>, all: Seq<A>)
    requires
        progression(r.start, 1, all),
        all.len() == gap(r.start.value(), r.stop.value() + 1),
    ensures
        yields(r, all),
{
    assert forall|s: Seq<A>, done: bool| #[trigger] r.emits(s, done) implies begins(
        all,
        s,
        done,
    ) by {
        assert forall|k: int| 0 <= k < s.len() implies s[k] == all[k] by {
            s[k].told_by_value(all[k]);
        }
    }
}

/// A stepped range hands out the terms `start + k * step` that lie before
/// `stop`, for `k` from 0 on, where `all` holds exactly those.
pub proof fn law_range_step_yields<A: PrimInt>(r: RangeStep<A>, all: Seq<A>)
    requires
        progression(r.start, r.step.value(), all),
        all.len() > 0 ==> r.before_stop(term(r.start, r.step, all.len() - 1)),
        !r.before_stop(term(r.start, r.step, all.len() as int)),
    ensures
        yields(r, all),
{
    assert forall|s: Seq<A>, done: bool| #[trigger] r.emits(s, done) implies begins(
        all,
        s,
        done,
    ) by {
        if s.len() > all.len() {
            lemma_term_monotone(r.start, r.step, all.len() as int, s.len() - 1);
        }
        if done && s.len() < all.len() {
            lemma_term_monotone(r.start, r.step, s.len() as int, all.len() - 1);
        }
        assert forall|k: int| 0 <= k < s.len() implies s[k] == all[k] by {
            s[k].told_by_value(all[k]);
        }
    }
}

/// An inclusive stepped range hands out the terms `start + k * step` that
/// have not passed `stop`, for `k` from 0 on, where `all` holds exactly those.
pub proof fn law_range_step_inclusive_yields<A: PrimInt>(r: RangeStepInclusive<A>, all: Seq<A>)
    requires
        progression(r.start, r.step.value(), all),
        all.len() > 0 ==> r.up_to_stop(term(r.start, r.step, all.len() - 1)),
        !r.up_to_stop(term(r.start, r.step, all.len() as int)),
    ensures
        yields(r, all),
{
    assert forall|s: Seq<A>, done: bool| #[trigger] r.emits(s, done) implies begins(
        all,
        s,
        done,
    ) by {
        if s.len() > all.len() {
            lemma_term_monotone(r.start, r.step, all.len() as int, s.len() - 1);
        }
        if done && s.len() < all.len() {
            lemma_term_monotone(r.start, r.step, s.len() as int, all.len() - 1);
        }
        assert forall|k: int| 0 <= k < s.len() implies s[k] == all[k] by {
            s[k].told_by_value(all[k]);
        }
    }
}

/// A stepped range never wraps around: every item it hands out is the term
/// `start + k * step` itself, which the type can hold and which lies before
/// `stop`. Where the next term would leave the type's range, the range has
/// come to its end.
pub proof fn law_range_step_stays_in_range<A: PrimInt>(r: RangeStep<A>, s: Seq<A>, done: bool)
    requires
        r.emits(s, done),
    ensures
        forall|k: int|
            0 <= k < s.len() ==> {
                &&& (#[trigger] s[k]).value() == r.start.value() + k * r.step.value()
                &&& A::lowest() <= r.start.value() + k * r.step.value() <= A::highest()
                &&& r.before_stop(s[k].value())
            },
        !(A::lowest() <= r.start.value() + s.len() * r.step.value() <= A::highest())
            ==> r.emits(s, true),
{
    assert forall|k: int| 0 <= k < s.len() implies {
        &&& (#[trigger] s[k]).value() == r.start.value() + k * r.step.value()
        &&& A::lowest() <= r.start.value() + k * r.step.value() <= A::highest()
        &&& r.before_stop(s[k].value())
    } by {
        s[k].within();
        lemma_term_monotone(r.start, r.step, k, s.len() - 1);
    }
    r.stop.within();
    r.start.within();
    lemma_term_monotone(r.start, r.step, 0, s.len() as int);
}

/// The same for the inclusive stepped range.
pub proof fn law_range_step_inclusive_stays_in_range<A: PrimInt>(
    r: RangeStepInclusive<A>,
    s: Seq<A>,
    done: bool,
)
    requires
        r.emits(s, done),
    ensures
        forall|k: int|
            0 <= k < s.len() ==> {
                &&& (#[trigger] s[k]).value() == r.start.value() + k * r.step.value()
                &&& A::lowest() <= r.start.value() + k * r.step.value() <= A::highest()
                &&& r.up_to_stop(s[k].value())
            },
        !(A::lowest() <= r.start.value() + s.len() * r.step.value() <= A::highest())
            ==> r.emits(s, true),
{
    assert forall|k: int| 0 <= k < s.len() implies {
        &&& (#[trigger] s[k]).value() == r.start.value() + k * r.step.value()
        &&& A::lowest() <= r.start.value() + k * r.step.value() <= A::highest()
        &&& r.up_to_stop(s[k].value())
    } by {
        s[k].within();
        lemma_term_monotone(r.start, r.step, k, s.len() - 1);
    }
    r.stop.within();
    r.start.within();
    lemma_term_monotone(r.start, r.step, 0, s.len() as int);
}

/// A counter hands out the terms `start + k * step` that the type can hold,
/// for `k` from 0 on, where `all` holds exactly those.
pub proof fn law_counter_yields<A: PrimInt>(c: Counter<A>, all: Seq<A>)
    requires
        progression(c.start, c.step.value(), all),
        !(A::lowest() <= term(c.start, c.step, all.len() as int) <= A::highest()),
    ensures
        yields(c, all),
{
    assert forall|s: Seq<A>, done: bool| #[trigger] c.emits(s, done) implies begins(
        all,
        s,
        done,
    ) by {
        if s.len() > all.len() {
            s[all.len() as int].within();
        }
        if done && s.len() < all.len() {
            all[s.len() as int].within();
        }
        assert forall|k: int| 0 <= k < s.len() implies s[k] == all[k] by {
            s[k].told_by_value(all[k]);
        }
    }
}

/// Where cloning the element gives the element, a repeated element is handed
/// out at every place.
pub proof fn law_repeat_streams<A: Clone>(elt: A)
    requires
        forall|y: A| #[trigger] cloned(elt, y) ==> y == elt,
    ensures
        streams(Repeat { element: elt }, |k: int| elt),
{
    let r = Repeat { element: elt };
    assert forall|s: Seq<A>, done: bool| #[trigger] r.emits(s, done) implies !done && s
        =~= Seq::new(s.len(), |k: int| elt) by {
        assert forall|k: int| 0 <= k < s.len() implies s[k] == elt by {
            assert(cloned(elt, s[k]));
        }
    }
}

/// `g` applied `k` times to `seed`.
pub open spec fn applied<T>(g: spec_fn(T) -> T, seed: T, k: int) -> T
    decreases k,
{
    if k <= 0 {
        seed
    } else {
        g(applied(g, seed, k - 1))
    }
}

/// Where the closure computes the function `g` and cloning a value gives the
/// value, the item at place `k` is `g` applied `k` times to the seed.
pub proof fn law_iterate_streams<T: Clone, F: FnMut(T) -> T>(seed: T, f: F, g: spec_fn(T) -> T)
    requires
        forall|x: T, y: T| #[trigger] call_ensures(f, (x,), y) ==> y == g(x),
        forall|x: T, y: T| #[trigger] cloned(x, y) ==> y == x,
    ensures
        streams(Iterate { seed: seed, iter: f }, |k: int| applied(g, seed, k)),
{
    let it = Iterate { seed: seed, iter: f };
    assert forall|s: Seq<T>, done: bool| #[trigger] it.emits(s, done) implies !done && s
        =~= Seq::new(s.len(), |k: int| applied(g, seed, k)) by {
        let chain = choose|chain: Seq<T>| #[trigger]
            chained(f, seed, chain) && clones_of(chain, s);
        assert forall|k: int| 0 <= k < s.len() implies s[k] == applied(g, seed, k) by {
            lemma_chain_applied(f, g, seed, chain, k);
            assert(cloned(chain[k], s[k]));
        }
    }
}

/// The value at place `k` of a chain is `g` applied `k` times to the seed.
proof fn lemma_chain_applied<T, F: FnMut(T) -> T>(
    f: F,
    g: spec_fn(T) -> T,
    seed: T,
    chain: Seq<T>,
    k: int,
)
    requires
        forall|x: T, y: T| #[trigger] call_ensures(f, (x,), y) ==> y == g(x),
        chained(f, seed, chain),
        0 <= k < chain.len(),
    ensures
        chain[k] == applied(g, seed, k),
    decreases k,
{
    if k > 0 {
        lemma_chain_applied(f, g, seed, chain, k - 1);
        assert(call_ensures(f, (chain[k - 1],), chain[k - 1 + 1]));
    }
}

} // verus!
