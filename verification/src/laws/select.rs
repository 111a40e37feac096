//! What the combinators hand out that pick among the items of a traversal.

use vstd::prelude::*;
use crate::ext::{beyond, judged, led, sifted};
use crate::traversal::{Filter, Skip, SkipWhile, Take, TakeWhile, Traversal, begins};
use crate::laws::{yields, streams};

verus! {

/// Where `verdicts` holds `p` of each value of `items`, sifting by `verdicts`
/// is filtering by `p`.
pub proof fn lemma_sifted_is_filter<T>(items: Seq<T>, verdicts: Seq<bool>, p: spec_fn(T) -> bool)
    requires
        items.len() == verdicts.len(),
        forall|i: int| 0 <= i < items.len() ==> verdicts[i] == p(#[trigger] items[i]),
    ensures
        sifted(items, verdicts) == items.filter(p),
    decreases items.len(),
{
    reveal(Seq::filter);
    if items.len() > 0 {
        lemma_sifted_is_filter(items.drop_last(), verdicts.drop_last(), p);
        assert(verdicts.last() == p(items.last()));
    }
}

/// Where the closure decides the predicate `p`, a filtered traversal hands
/// out the items of which `p` holds, in their order.
pub proof fn law_filter_yields<I: Traversal, F: FnMut(&I::Item) -> bool>(
    t: I,
    pred: F,
    p: spec_fn(I::Item) -> bool,
    all: Seq<I::Item>,
)
    requires
        yields(t, all),
        forall|x: I::Item, b: bool| #[trigger] call_ensures(pred, (&x,), b) ==> b == p(x),
    ensures
        yields(Filter { iter: t, predicate: pred }, all.filter(p)),
{
    let f = Filter { iter: t, predicate: pred };
    assert forall|s: Seq<I::Item>, done: bool| #[trigger] f.emits(s, done) implies begins(
        all.filter(p),
        s,
        done,
    ) by {
        let (inner, verdicts) = choose|inner: Seq<I::Item>, verdicts: Seq<bool>|
            t.emits(inner, done) && #[trigger] judged(pred, inner, verdicts) && s =~= sifted(
                inner,
                verdicts,
            );
        assert forall|i: int| 0 <= i < inner.len() implies verdicts[i] == p(
            #[trigger] inner[i],
        ) by {
            assert(call_ensures(pred, (&inner[i],), verdicts[i]));
        }
        lemma_sifted_is_filter(inner, verdicts, p);
        let rest = all.skip(inner.len() as int);
        assert(all =~= inner + rest);
        Seq::filter_distributes_over_add(inner, rest, p);
        assert(s =~= all.filter(p).take(s.len() as int));
        if done {
            assert(inner =~= all);
        }
    }
}

/// A traversal cut to `n` items hands out the first `n` of the items of the
/// traversal, or all of them where they are fewer.
pub proof fn law_take_yields<I: Traversal>(t: I, n: usize, all: Seq<I::Item>)
    requires
        yields(t, all),
    ensures
        yields(
            Take { iter: t, n: n },
            all.take(
                if n <= all.len() {
                    n as int
                } else {
                    all.len() as int
                },
            ),
        ),
{
    let k = if n <= all.len() {
        n as int
    } else {
        all.len() as int
    };
    let cut = Take { iter: t, n: n };
    assert forall|s: Seq<I::Item>, done: bool| #[trigger] cut.emits(s, done) implies begins(
        all.take(k),
        s,
        done,
    ) by {
        if s.len() <= n && t.emits(s, done) {
            assert(s =~= all.take(k).take(s.len() as int));
        } else {
            let longer = choose|longer: Seq<I::Item>| #[trigger]
                t.emits(longer, false) && longer.len() == n + 1 && s =~= longer.take(n as int);
            assert(begins(all, longer, false));
            assert(s =~= all.take(k).take(s.len() as int));
        }
    }
}

/// A traversal without end that is cut to `n` items hands out its first `n`.
pub proof fn law_take_streams<I: Traversal>(t: I, n: usize, f: spec_fn(int) -> I::Item)
    requires
        streams(t, f),
    ensures
        yields(Take { iter: t, n: n }, Seq::new(n as nat, f)),
{
    let cut = Take { iter: t, n: n };
    assert forall|s: Seq<I::Item>, done: bool| #[trigger] cut.emits(s, done) implies begins(
        Seq::new(n as nat, f),
        s,
        done,
    ) by {
        if s.len() <= n && t.emits(s, done) {
        } else {
            let longer = choose|longer: Seq<I::Item>| #[trigger]
                t.emits(longer, false) && longer.len() == n + 1 && s =~= longer.take(n as int);
        }
    }
}

/// A traversal without its first `n` items hands out what follows them.
pub proof fn law_skip_yields<I: Traversal>(t: I, n: usize, all: Seq<I::Item>)
    requires
        yields(t, all),
    ensures
        yields(Skip { iter: t, n: n }, beyond(all, n as nat)),
{
    let sk = Skip { iter: t, n: n };
    assert forall|s: Seq<I::Item>, done: bool| #[trigger] sk.emits(s, done) implies begins(
        beyond(all, n as nat),
        s,
        done,
    ) by {
        let inner = choose|inner: Seq<I::Item>| #[trigger]
            t.emits(inner, done) && s =~= beyond(inner, n as nat);
        assert(begins(all, inner, done));
        assert(s =~= beyond(all, n as nat).take(s.len() as int));
    }
}

/// The number of leading values of `all` of which `p` holds.
pub open spec fn lead<T>(all: Seq<T>, p: spec_fn(T) -> bool) -> nat
    decreases all.len(),
{
    if all.len() == 0 || !p(all[0]) {
        0
    } else {
        1 + lead(all.drop_first(), p)
    }
}

/// `p` holds of the first `lead` values, and fails of the next, if there is
/// one.
pub proof fn lemma_lead_bounds<T>(all: Seq<T>, p: spec_fn(T) -> bool)
    ensures
        lead(all, p) <= all.len(),
        forall|i: int| 0 <= i < lead(all, p) ==> p(#[trigger] all[i]),
        lead(all, p) < all.len() ==> !p(all[lead(all, p) as int]),
    decreases all.len(),
{
    if all.len() == 0 || !p(all[0]) {
    } else {
        let rest = all.drop_first();
        lemma_lead_bounds(rest, p);
        assert forall|i: int| 0 <= i < lead(all, p) implies p(#[trigger] all[i]) by {
            if i > 0 {
                assert(rest[i - 1] == all[i]);
            }
        }
        if lead(all, p) < all.len() {
            assert(rest[lead(rest, p) as int] == all[lead(all, p) as int]);
        }
    }
}

/// `lead` is the one `k` such that `p` holds of the first `k` values and
/// fails of the next, if there is one.
pub proof fn lemma_lead_is<T>(all: Seq<T>, p: spec_fn(T) -> bool, k: int)
    requires
        0 <= k <= all.len(),
        forall|i: int| 0 <= i < k ==> p(#[trigger] all[i]),
        k < all.len() ==> !p(all[k]),
    ensures
        lead(all, p) == k,
    decreases all.len(),
{
    if all.len() == 0 || !p(all[0]) {
        if k > 0 {
            assert(p(all[0]));
        }
    } else {
        assert(k > 0);
        let rest = all.drop_first();
        assert forall|i: int| 0 <= i < k - 1 implies p(#[trigger] rest[i]) by {
            assert(rest[i] == all[i + 1]);
        }
        lemma_lead_is(rest, p, k - 1);
    }
}

/// Where the closure decides the predicate `p`, a traversal taken while `p`
/// holds hands out the leading items of which `p` holds.
pub proof fn law_take_while_yields<I: Traversal, F: FnMut(&I::Item) -> bool>(
    t: I,
    pred: F,
    p: spec_fn(I::Item) -> bool,
    all: Seq<I::Item>,
)
    requires
        yields(t, all),
        forall|x: I::Item, b: bool| #[trigger] call_ensures(pred, (&x,), b) ==> b == p(x),
    ensures
        yields(TakeWhile { iter: t, predicate: pred }, all.take(lead(all, p) as int)),
        lead(all, p) <= all.len(),
{
    let tw = TakeWhile { iter: t, predicate: pred };
    lemma_lead_bounds(all, p);
    let k = lead(all, p) as int;
    assert forall|s: Seq<I::Item>, done: bool| #[trigger] tw.emits(s, done) implies begins(
        all.take(k),
        s,
        done,
    ) by {
        assert forall|i: int| 0 <= i < s.len() implies p(#[trigger] s[i]) by {
            assert(call_ensures(pred, (&s[i],), true));
        }
        if t.emits(s, done) {
            assert(begins(all, s, done));
            if s.len() > k {
                assert(s[k] == all[k]);
            }
            if done {
                lemma_lead_is(all, p, all.len() as int);
            }
            assert(s =~= all.take(k).take(s.len() as int));
        } else {
            let longer = choose|longer: Seq<I::Item>| #[trigger]
                t.emits(longer, false) && longer.len() > 0 && s =~= longer.drop_last()
                    && call_ensures(pred, (&longer.last(),), false);
            assert(begins(all, longer, false));
            assert(longer[s.len() as int] == all[s.len() as int]);
            assert forall|i: int| 0 <= i < s.len() implies p(#[trigger] all[i]) by {
                assert(longer[i] == all[i]);
                assert(p(s[i]));
            }
            lemma_lead_is(all, p, s.len() as int);
            assert(s =~= all.take(k));
        }
    }
}

/// Where the closure decides the predicate `p`, a traversal skipped while `p`
/// holds hands out what follows the leading items of which `p` holds.
pub proof fn law_skip_while_yields<I: Traversal, F: FnMut(&I::Item) -> bool>(
    t: I,
    pred: F,
    p: spec_fn(I::Item) -> bool,
    all: Seq<I::Item>,
)
    requires
        yields(t, all),
        forall|x: I::Item, b: bool| #[trigger] call_ensures(pred, (&x,), b) ==> b == p(x),
    ensures
        yields(SkipWhile { iter: t, predicate: pred }, all.skip(lead(all, p) as int)),
        lead(all, p) <= all.len(),
{
    let sw = SkipWhile { iter: t, predicate: pred };
    lemma_lead_bounds(all, p);
    let k = lead(all, p) as int;
    assert forall|s: Seq<I::Item>, done: bool| #[trigger] sw.emits(s, done) implies begins(
        all.skip(k),
        s,
        done,
    ) by {
        let (inner, j) = choose|inner: Seq<I::Item>, j: nat|
            t.emits(inner, done) && #[trigger] led(pred, inner, j) && s =~= inner.skip(j as int);
        assert(begins(all, inner, done));
        assert forall|i: int| 0 <= i < j implies p(#[trigger] all[i]) by {
            assert(call_ensures(pred, (&inner[i],), true));
            assert(inner[i] == all[i]);
        }
        if j < inner.len() {
            assert(inner[j as int] == all[j as int]);
            lemma_lead_is(all, p, j as int);
            assert(s =~= all.skip(k).take(s.len() as int));
        } else {
            // every item seen so far was skipped
            assert(s.len() == 0);
            if j < k {
            } else if j > k {
                assert(p(all[k]));
            }
            if done {
                assert(inner =~= all);
                lemma_lead_is(all, p, all.len() as int);
            }
            assert(s =~= all.skip(k).take(0));
        }
    }
}

} // verus!
