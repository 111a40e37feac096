//! What the combinators hand out that change or join the items of a traversal.

use vstd::prelude::*;
use std::ops::Deref;
use crate::ext::{copied, copies, numbered, picked, spread};
use crate::traversal::{
    Chain, Cloned, Enumerate, FilterMap, FlatMap, Inspect, Mapped, Traversal, begins,
};
use crate::visit::answered;
use crate::laws::yields;

verus! {

/// Where the closure computes the function `g`, a mapped traversal hands out
/// `g` of each item.
pub proof fn law_map_yields<I: Traversal, O, F: FnMut(I::Item) -> O>(
    t: I,
    f: F,
    g: spec_fn(I::Item) -> O,
    all: Seq<I::Item>,
)
    requires
        yields(t, all),
        forall|x: I::Item, y: O| #[trigger] call_ensures(f, (x,), y) ==> y == g(x),
    ensures
        yields(Mapped { iter: t, closure: f }, all.map_values(g)),
{
    let m = Mapped { iter: t, closure: f };
    assert forall|s: Seq<O>, done: bool| #[trigger] m.emits(s, done) implies begins(
        all.map_values(g),
        s,
        done,
    ) by {
        let inner = choose|inner: Seq<I::Item>| #[trigger]
            t.emits(inner, done) && answered(f, inner, s);
        assert forall|k: int| 0 <= k < s.len() implies s[k] == all.map_values(g)[k] by {
            assert(call_ensures(f, (inner[k],), s[k]));
            assert(inner[k] == all[k]);
        }
    }
}

/// Where the closure computes the function `g`, a filter-mapped traversal
/// hands out the payloads of what `g` makes of the items, in their order.
pub proof fn law_filter_map_yields<I: Traversal, O, F: FnMut(I::Item) -> Option<O>>(
    t: I,
    f: F,
    g: spec_fn(I::Item) -> Option<O>,
    all: Seq<I::Item>,
)
    requires
        yields(t, all),
        forall|x: I::Item, y: Option<O>| #[trigger] call_ensures(f, (x,), y) ==> y == g(x),
    ensures
        yields(FilterMap { iter: t, predicate: f }, picked(all.map_values(g))),
{
    let fm = FilterMap { iter: t, predicate: f };
    assert forall|s: Seq<O>, done: bool| #[trigger] fm.emits(s, done) implies begins(
        picked(all.map_values(g)),
        s,
        done,
    ) by {
        let (inner, outputs) = choose|inner: Seq<I::Item>, outputs: Seq<Option<O>>|
            t.emits(inner, done) && #[trigger] answered(f, inner, outputs) && s =~= picked(
                outputs,
            );
        assert(begins(all, inner, done));
        assert forall|i: int| 0 <= i < inner.len() implies outputs[i] == g(all[i]) by {
            assert(call_ensures(f, (inner[i],), outputs[i]));
            assert(inner[i] == all[i]);
        }
        assert(outputs =~= all.map_values(g).take(inner.len() as int));
        lemma_picked_take(all.map_values(g), inner.len() as int);
        if done {
            assert(inner =~= all);
            assert(outputs =~= all.map_values(g));
        }
    }
}

/// The payloads of the first `n` values are the first payloads.
pub proof fn lemma_picked_take<O>(outputs: Seq<Option<O>>, n: int)
    requires
        0 <= n <= outputs.len(),
    ensures
        picked(outputs.take(n)).len() <= picked(outputs).len(),
        picked(outputs.take(n)) =~= picked(outputs).take(picked(outputs.take(n)).len() as int),
    decreases outputs.len(),
{
    if n == outputs.len() {
        assert(outputs.take(n) =~= outputs);
    } else {
        lemma_picked_take(outputs.drop_last(), n);
        assert(outputs.drop_last().take(n) =~= outputs.take(n));
    }
}

/// An enumerated traversal hands out each item with its position.
pub proof fn law_enumerate_yields<I: Traversal>(t: I, all: Seq<I::Item>)
    requires
        yields(t, all),
    ensures
        yields(Enumerate(t), numbered(all)),
{
    let e = Enumerate(t);
    assert forall|s: Seq<(usize, I::Item)>, done: bool| #[trigger]
        e.emits(s, done) implies begins(numbered(all), s, done) by {
        let inner = choose|inner: Seq<I::Item>| #[trigger]
            t.emits(inner, done) && s =~= numbered(inner);
        assert(begins(all, inner, done));
        assert(s =~= numbered(all).take(s.len() as int));
    }
}

/// An inspected traversal hands out what the traversal hands out.
pub proof fn law_inspect_yields<I: Traversal, F: FnMut(&I::Item)>(t: I, f: F, all: Seq<I::Item>)
    requires
        yields(t, all),
    ensures
        yields(Inspect { iter: t, closure: f }, all),
{
    let ins = Inspect { iter: t, closure: f };
    assert forall|s: Seq<I::Item>, done: bool| #[trigger] ins.emits(s, done) implies begins(
        all,
        s,
        done,
    ) by {
        assert(t.emits(s, done));
    }
}

/// Where cloning what an item refers to gives `g` of the item, a cloned
/// traversal hands out `g` of each item.
pub proof fn law_cloned_yields<I: Traversal>(
    t: I,
    g: spec_fn(I::Item) -> <I::Item as Deref>::Target,
    all: Seq<I::Item>,
) where I::Item: Deref, <I::Item as Deref>::Target: Clone
    requires
        yields(t, all),
        forall|d: I::Item, o: <I::Item as Deref>::Target| #[trigger] copied(d, o) ==> o == g(d),
    ensures
        yields(Cloned { iter: t }, all.map_values(g)),
{
    let c = Cloned { iter: t };
    assert forall|s: Seq<<I::Item as Deref>::Target>, done: bool| #[trigger]
        c.emits(s, done) implies begins(all.map_values(g), s, done) by {
        let refs = choose|refs: Seq<I::Item>| #[trigger] t.emits(refs, done) && copies(refs, s);
        assert(begins(all, refs, done));
        assert forall|k: int| 0 <= k < s.len() implies s[k] == all.map_values(g)[k] by {
            assert(copied(refs[k], s[k]));
            assert(refs[k] == all[k]);
        }
    }
}

/// Two traversals chained hand out the items of the first and then those of
/// the second.
pub proof fn law_chain_yields<T, I: Traversal<Item = T>, O: Traversal<Item = T>>(
    one: I,
    two: O,
    head: Seq<T>,
    tail: Seq<T>,
)
    requires
        yields(one, head),
        yields(two, tail),
    ensures
        yields(Chain { one: one, two: two }, head + tail),
{
    let c = Chain { one: one, two: two };
    assert forall|s: Seq<T>, done: bool| #[trigger] c.emits(s, done) implies begins(
        head + tail,
        s,
        done,
    ) by {
        if !done && one.emits(s, false) {
            assert(begins(head, s, false));
            assert(s =~= (head + tail).take(s.len() as int));
        } else {
            let (a, b) = choose|a: Seq<T>, b: Seq<T>|
                #![trigger one.emits(a, true), two.emits(b, done)]
                one.emits(a, true) && two.emits(b, done) && s =~= a + b;
            assert(begins(head, a, true));
            assert(begins(tail, b, done));
            assert(a =~= head);
            assert(s =~= (head + tail).take(s.len() as int));
        }
    }
}

/// Where the closure computes the function `g`, and the traversal that `g`
/// makes of an item hands out the values of `h` of the item, a flat-mapped
/// traversal hands out the values of `h` of each item, one item after the
/// other.
pub proof fn law_flat_map_yields<I: Traversal, O: Traversal, F: FnMut(I::Item) -> O>(
    t: I,
    f: F,
    g: spec_fn(I::Item) -> O,
    h: spec_fn(I::Item) -> Seq<O::Item>,
    all: Seq<I::Item>,
)
    requires
        yields(t, all),
        forall|x: I::Item, u: O| #[trigger] call_ensures(f, (x,), u) ==> u == g(x),
        forall|i: int| 0 <= i < all.len() ==> yields(g(#[trigger] all[i]), h(all[i])),
    ensures
        yields(FlatMap { iter: t, producer: f }, all.map_values(h).flatten()),
{
    let fm = FlatMap { iter: t, producer: f };
    let full = all.map_values(h);
    assert forall|s: Seq<O::Item>, done: bool| #[trigger] fm.emits(s, done) implies begins(
        full.flatten(),
        s,
        done,
    ) by {
        let (outer, subs, parts) = choose|
            outer: Seq<I::Item>,
            subs: Seq<O>,
            parts: Seq<Seq<O::Item>>,
        |
            t.emits(outer, done) && #[trigger] spread(f, outer, subs, parts, done) && s
                =~= parts.flatten();
        assert(begins(all, outer, done));
        let m = outer.len() as int;
        assert forall|i: int| 0 <= i < m implies begins(
            h(all[i]),
            #[trigger] parts[i],
            done || i < m - 1,
        ) by {
            assert(call_ensures(f, (outer[i],), subs[i]));
            assert(outer[i] == all[i]);
            assert(subs[i].emits(parts[i], done || i < m - 1));
        }
        if done {
            assert(outer =~= all);
            assert(parts =~= full);
        } else {
            let whole = parts.drop_last();
            let cut = parts.last();
            assert(whole =~= full.take(m - 1));
            assert(parts =~= whole.push(cut));
            whole.lemma_flatten_push(cut);
            let rest = full.skip(m);
            let tail = h(all[m - 1]).skip(cut.len() as int);
            assert(h(all[m - 1]) =~= cut + tail);
            assert(full =~= whole.push(h(all[m - 1])) + rest);
            vstd::seq_lib::lemma_flatten_concat(whole.push(h(all[m - 1])), rest);
            whole.lemma_flatten_push(h(all[m - 1]));
            assert(full.flatten() =~= s + (tail + rest.flatten()));
            assert(s =~= full.flatten().take(s.len() as int));
        }
    }
}

} // verus!
