//! The ordered map of the standard library, built from a traversal.

use vstd::prelude::*;
use vstd::laws_cmp::obeys_cmp;
use std::collections::BTreeMap;
use crate::impls::sinks::{assoc, lemma_assoc_push};
use crate::traversal::{FromTraversal, IntoTraversal, Traversal};
use crate::visit::{Visitor, news};

verus! {

/// The visitor that fills an ordered map: it inserts every pair and never
/// stops.
pub struct BTreeMapSink<K, V> {
    pub map: BTreeMap<K, V>,
    pub log: Ghost<Seq<(K, V)>>,
}

impl<K: Ord, V> Visitor<(K, V)> for BTreeMapSink<K, V> {
    open spec fn wf(&self) -> bool {
        obeys_cmp::<K>() ==> self.map@ == assoc(self.log@)
    }

    open spec fn seen(&self) -> Seq<(K, V)> {
        self.log@
    }

    open spec fn halted(&self) -> bool {
        false
    }

    open spec fn accepts(&self, item: (K, V)) -> bool {
        true
    }

    open spec fn patience(&self) -> Option<nat> {
        None
    }

    open spec fn evolves(&self, later: &Self) -> bool {
        true
    }

    proof fn evolves_refl(&self) {
    }

    proof fn evolves_trans(&self, mid: &Self, last: &Self) {
    }

    fn visit(&mut self, item: (K, V)) -> (stop: bool) {
        let (k, v) = item;
        proof {
            lemma_assoc_push(self.log@, k, v);
            self.log@ = self.log@.push((k, v));
        }
        self.map.insert(k, v);
        false
    }
}

impl<K: Ord, V> FromTraversal<(K, V)> for BTreeMap<K, V> {
    /// Where the key type orders its values as the model of ordered maps
    /// asks, the map is what inserting the pairs in their order gives.
    open spec fn holds(&self, items: Seq<(K, V)>) -> bool {
        obeys_cmp::<K>() ==> self@ == assoc(items)
    }

    fn from_traversal<I: IntoTraversal<Item = (K, V)>>(traversable: I) -> (d: Self) {
        let trav = traversable.into_traversal();
        let new = BTreeMap::new();
        let first = BTreeMapSink { map: new, log: Ghost(Seq::empty()) };
        let last = trav.foreach(first);
        proof {
            assert(last.log@ =~= news(&first, &last));
        }
        last.map
    }
}

} // verus!
