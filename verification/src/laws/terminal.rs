//! What collecting, counting and searching give.

use vstd::prelude::*;
use crate::laws::select::{law_filter_yields, law_take_yields};
use crate::laws::transform::law_map_yields;
use crate::traversal::{Filter, FromTraversal, Mapped, Take, Traversal, begins};
use crate::visit::{answered, decided, tally};
use crate::laws::{all_gave, any_gave, collected, counted, yields};

verus! {

/// Collecting a traversal of known items gives a vector of those items.
pub proof fn law_collect<I: Traversal>(t: I, all: Seq<I::Item>, out: Vec<I::Item>)
    requires
        yields(t, all),
        collected(t, out),
    ensures
        out@ == all,
{
    let s = choose|s: Seq<I::Item>| #[trigger] t.emits(s, true) && out.holds(s);
    assert(begins(all, s, true));
}

/// Collecting a mapped traversal gives, place by place, what the closure
/// makes of the items of the traversal, whatever the closure does.
pub proof fn law_map_collect_answers<I: Traversal, O, F: FnMut(I::Item) -> O>(
    t: I,
    f: F,
    all: Seq<I::Item>,
    out: Vec<O>,
)
    requires
        yields(t, all),
        collected(Mapped { iter: t, closure: f }, out),
    ensures
        answered(f, all, out@),
{
    let m = Mapped { iter: t, closure: f };
    let s = choose|s: Seq<O>| #[trigger] m.emits(s, true) && out.holds(s);
    let inner = choose|inner: Seq<I::Item>| #[trigger]
        t.emits(inner, true) && answered(f, inner, s);
    assert(inner =~= all);
}

/// Collecting a mapped traversal gives, element by element, the map of its
/// items: where the closure computes the function `g` and the traversal
/// hands out `all`, the vector holds `g` of each value of `all`.
pub proof fn law_map_collect<I: Traversal, O, F: FnMut(I::Item) -> O>(
    t: I,
    f: F,
    g: spec_fn(I::Item) -> O,
    all: Seq<I::Item>,
    out: Vec<O>,
)
    requires
        yields(t, all),
        forall|x: I::Item, y: O| #[trigger] call_ensures(f, (x,), y) ==> y == g(x),
        collected(Mapped { iter: t, closure: f }, out),
    ensures
        out@ == all.map_values(g),
{
    law_map_yields(t, f, g, all);
    law_collect(Mapped { iter: t, closure: f }, all.map_values(g), out);
}

/// Collecting a filtered traversal gives the items of which the predicate
/// holds, in their order: where the closure decides the predicate `p` and
/// the traversal hands out `all`, the vector holds `all` filtered by `p`.
pub proof fn law_filter_collect<I: Traversal, F: FnMut(&I::Item) -> bool>(
    t: I,
    pred: F,
    p: spec_fn(I::Item) -> bool,
    all: Seq<I::Item>,
    out: Vec<I::Item>,
)
    requires
        yields(t, all),
        forall|x: I::Item, b: bool| #[trigger] call_ensures(pred, (&x,), b) ==> b == p(x),
        collected(Filter { iter: t, predicate: pred }, out),
    ensures
        out@ == all.filter(p),
{
    law_filter_yields(t, pred, p, all);
    law_collect(Filter { iter: t, predicate: pred }, all.filter(p), out);
}

/// Counting a traversal cut to `n` items gives `n`, or the number of items of
/// the traversal where they are fewer.
pub proof fn law_take_count<I: Traversal>(t: I, n: usize, all: Seq<I::Item>, count: usize)
    requires
        yields(t, all),
        counted(Take { iter: t, n: n }, count),
    ensures
        count == if n <= all.len() {
            n as int
        } else {
            all.len() as int
        },
{
    law_take_yields(t, n, all);
    let s = choose|s: Seq<I::Item>| #[trigger]
        (Take { iter: t, n: n }).emits(s, true) && count == tally(s.len());
    assert(begins(
        all.take(
            if n <= all.len() {
                n as int
            } else {
                all.len() as int
            },
        ),
        s,
        true,
    ));
}

/// Counting a traversal without end that is cut to `n` items gives `n`.
pub proof fn law_take_count_endless<I: Traversal>(t: I, n: usize, count: usize)
    requires
        forall|s: Seq<I::Item>| !#[trigger] t.emits(s, true),
        counted(Take { iter: t, n: n }, count),
    ensures
        count == n,
{
}

/// `any` stops at the first item of which the predicate holds: where it
/// answers `true`, the predicate was asked about the items up to and
/// including that one, and about nothing after it; where it answers `false`,
/// the predicate fails of every item.
pub proof fn law_any_short_circuits<I: Traversal, P: FnMut(I::Item) -> bool>(
    t: I,
    predicate: P,
    p: spec_fn(I::Item) -> bool,
    all: Seq<I::Item>,
    asked: Seq<I::Item>,
    found: bool,
)
    requires
        yields(t, all),
        forall|x: I::Item, b: bool| #[trigger] call_ensures(predicate, (x,), b) ==> b == p(x),
        t.emits(asked, !found),
        decided(predicate, asked, true, found),
    ensures
        asked =~= all.take(asked.len() as int),
        found ==> asked.len() > 0 && p(all[asked.len() - 1]),
        forall|j: int| 0 <= j < asked.len() - (if found { 1int } else { 0int }) ==> !p(#[trigger] all[j]),
        !found ==> asked.len() == all.len(),
{
    assert(begins(all, asked, !found));
    assert forall|j: int| 0 <= j < asked.len() - (if found { 1int } else { 0int }) implies !p(
        #[trigger] all[j],
    ) by {
        assert(call_ensures(predicate, (asked[j],), false));
    }
}

/// `all` stops at the first item of which the predicate fails: where it
/// answers `false`, the predicate was asked about the items up to and
/// including that one, and about nothing after it; where it answers `true`,
/// the predicate holds of every item.
pub proof fn law_all_short_circuits<I: Traversal, P: FnMut(I::Item) -> bool>(
    t: I,
    predicate: P,
    p: spec_fn(I::Item) -> bool,
    all: Seq<I::Item>,
    asked: Seq<I::Item>,
    holds: bool,
)
    requires
        yields(t, all),
        forall|x: I::Item, b: bool| #[trigger] call_ensures(predicate, (x,), b) ==> b == p(x),
        t.emits(asked, holds),
        decided(predicate, asked, false, !holds),
    ensures
        asked =~= all.take(asked.len() as int),
        !holds ==> asked.len() > 0 && !p(all[asked.len() - 1]),
        forall|j: int| 0 <= j < asked.len() - (if holds { 0int } else { 1int }) ==> p(#[trigger] all[j]),
        holds ==> asked.len() == all.len(),
{
    assert(begins(all, asked, holds));
    assert forall|j: int| 0 <= j < asked.len() - (if holds { 0int } else { 1int }) implies p(
        #[trigger] all[j],
    ) by {
        assert(call_ensures(predicate, (asked[j],), true));
    }
}

/// `any` tells whether the predicate holds of some item.
pub proof fn law_any_finds<I: Traversal, P: FnMut(I::Item) -> bool>(
    t: I,
    predicate: P,
    p: spec_fn(I::Item) -> bool,
    all: Seq<I::Item>,
    found: bool,
)
    requires
        yields(t, all),
        forall|x: I::Item, b: bool| #[trigger] call_ensures(predicate, (x,), b) ==> b == p(x),
        any_gave(t, predicate, found),
    ensures
        found <==> exists|k: int| 0 <= k < all.len() && p(#[trigger] all[k]),
{
    let asked = choose|s: Seq<I::Item>|
        t.emits(s, !found) && #[trigger] decided(predicate, s, true, found);
    law_any_short_circuits(t, predicate, p, all, asked, found);
    if found {
        assert(p(all[asked.len() - 1]));
    }
}

/// `all` tells whether the predicate holds of every item.
pub proof fn law_all_holds<I: Traversal, P: FnMut(I::Item) -> bool>(
    t: I,
    predicate: P,
    p: spec_fn(I::Item) -> bool,
    all: Seq<I::Item>,
    holds: bool,
)
    requires
        yields(t, all),
        forall|x: I::Item, b: bool| #[trigger] call_ensures(predicate, (x,), b) ==> b == p(x),
        all_gave(t, predicate, holds),
    ensures
        holds <==> forall|k: int| 0 <= k < all.len() ==> p(#[trigger] all[k]),
{
    let asked = choose|s: Seq<I::Item>| #[trigger]
        t.emits(s, holds) && decided(predicate, s, false, !holds);
    law_all_short_circuits(t, predicate, p, all, asked, holds);
    if !holds {
        assert(!p(all[asked.len() - 1]));
    }
}

} // verus!
