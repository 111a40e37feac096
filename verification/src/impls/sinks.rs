//! Containers of the standard library, built from a traversal.

use vstd::prelude::*;
use vstd::std_specs::hash::{builds_valid_hashers, obeys_key_model};
use std::collections::hash_map::RandomState;
use std::collections::{HashMap, VecDeque};
use std::hash::Hash;
use crate::traversal::{FromTraversal, IntoTraversal, Traversal};
use crate::visit::{Visitor, news};

verus! {

/// The visitor that fills a deque: it appends every item at the back and
/// never stops.
pub struct DequeSink<T> {
    pub deque: VecDeque<T>,
}

impl<T> Visitor<T> for DequeSink<T> {
    open spec fn wf(&self) -> bool {
        true
    }

    open spec fn seen(&self) -> Seq<T> {
        self.deque@
    }

    open spec fn halted(&self) -> bool {
        false
    }

    open spec fn accepts(&self, item: T) -> bool {
        true
    }

    open spec fn patience(&self) -> Option<nat> {
        None
    }

    open spec fn evolves(&self, later: &Self) -> bool {
        true
    }

    proof fn evolves_refl(&self) {
    }

    proof fn evolves_trans(&self, mid: &Self, last: &Self) {
    }

    fn visit(&mut self, item: T) -> (stop: bool) {
        self.deque.push_back(item);
        false
    }
}

impl<T> FromTraversal<T> for VecDeque<T> {
    /// The deque holds the items, front to back in their order.
    open spec fn holds(&self, items: Seq<T>) -> bool {
        self@ == items
    }

    fn from_traversal<I: IntoTraversal<Item = T>>(traversable: I) -> (d: Self) {
        let trav = traversable.into_traversal();
        let new = VecDeque::with_capacity(trav.size_hint().0);
        let first = DequeSink { deque: new };
        let last = trav.foreach(first);
        proof {
            assert(last.deque@ =~= news(&first, &last));
        }
        last.deque
    }
}

/// The map that inserting the pairs of `items` one after the other gives: of
/// two pairs with one key, the later one stays.
pub open spec fn assoc<K, V>(items: Seq<(K, V)>) -> Map<K, V>
    decreases items.len(),
{
    if items.len() == 0 {
        Map::empty()
    } else {
        assoc(items.drop_last()).insert(items.last().0, items.last().1)
    }
}

/// One pair more is one insertion more.
pub proof fn lemma_assoc_push<K, V>(items: Seq<(K, V)>, k: K, v: V)
    ensures
        assoc(items.push((k, v))) == assoc(items).insert(k, v),
{
    assert(items.push((k, v)).drop_last() =~= items);
}

/// The visitor that fills a hash map: it inserts every pair and never stops.
pub struct HashMapSink<K, V> {
    pub map: HashMap<K, V>,
    pub log: Ghost<Seq<(K, V)>>,
}

impl<K: Hash + Eq, V> Visitor<(K, V)> for HashMapSink<K, V> {
    open spec fn wf(&self) -> bool {
        obeys_key_model::<K>() && builds_valid_hashers::<RandomState>() ==> self.map@ == assoc(
            self.log@,
        )
    }

    open spec fn seen(&self) -> Seq<(K, V)> {
        self.log@
    }

    open spec fn halted(&self) -> bool {
        false
    }

    open spec fn accepts(&self, item: (K, V)) -> bool {
        true
    }

    open spec fn patience(&self) -> Option<nat> {
        None
    }

    open spec fn evolves(&self, later: &Self) -> bool {
        true
    }

    proof fn evolves_refl(&self) {
    }

    proof fn evolves_trans(&self, mid: &Self, last: &Self) {
    }

    fn visit(&mut self, item: (K, V)) -> (stop: bool) {
        let (k, v) = item;
        proof {
            lemma_assoc_push(self.log@, k, v);
            self.log@ = self.log@.push((k, v));
        }
        self.map.insert(k, v);
        false
    }
}

impl<K: Hash + Eq, V> FromTraversal<(K, V)> for HashMap<K, V> {
    /// Where the key type hashes and compares as the model of hash maps asks,
    /// the map is what inserting the pairs in their order gives.
    open spec fn holds(&self, items: Seq<(K, V)>) -> bool {
        obeys_key_model::<K>() ==> self@ == assoc(items)
    }

    fn from_traversal<I: IntoTraversal<Item = (K, V)>>(traversable: I) -> (d: Self) {
        broadcast use vstd::std_specs::hash::axiom_random_state_builds_valid_hashers;

        let trav = traversable.into_traversal();
        let new = HashMap::with_capacity(trav.size_hint().0);
        let first = HashMapSink { map: new, log: Ghost(Seq::empty()) };
        let last = trav.foreach(first);
        proof {
            assert(last.log@ =~= news(&first, &last));
        }
        last.map
    }
}

} // verus!
