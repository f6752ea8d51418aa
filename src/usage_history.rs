//! The exit watcher's per-peer usage history: a table from tunnel key to the
//! counters last billed for it.
use vstd::prelude::*;

use crate::types::{WgKey, WgUsage};

verus! {

/// Last-seen counters by peer key, one entry per key.
pub struct UsageHistory {
    entries: Vec<(WgKey, WgUsage)>,
    table: Ghost<Map<WgKey, WgUsage>>,
}

impl View for UsageHistory {
    type V = Map<WgKey, WgUsage>;

    closed spec fn view(&self) -> Map<WgKey, WgUsage> {
        self.table@
    }
}

impl UsageHistory {
    /// The entries hold each key once, and exactly the table's pairs.
    pub closed spec fn wf(&self) -> bool {
        &&& forall|i: int, j: int|
            0 <= i < j < self.entries@.len() ==> self.entries@[i].0 != self.entries@[j].0
        &&& forall|i: int|
            0 <= i < self.entries@.len() ==> #[trigger] self.table@.contains_key(self.entries@[i].0)
                && self.table@[self.entries@[i].0] == self.entries@[i].1
        &&& forall|k: WgKey|
            #[trigger] self.table@.contains_key(k) ==> exists|i: int|
                0 <= i < self.entries@.len() && self.entries@[i].0 == k
    }

    /// An empty history.
    pub fn new() -> (r: UsageHistory)
        ensures
            r.wf(),
            r@ == Map::<WgKey, WgUsage>::empty(),
    {
        UsageHistory { entries: Vec::new(), table: Ghost(Map::empty()) }
    }

    /// The number of peers in the history.
    pub fn len(&self) -> (r: usize)
        requires
            self.wf(),
        ensures
            r as nat == self@.dom().len(),
    {
        proof {
            self.lemma_dom_is_keys();
        }
        self.entries.len()
    }

    proof fn lemma_dom_is_keys(&self)
        requires
            self.wf(),
        ensures
            self@.dom().len() == self.entries@.len(),
        decreases self.entries@.len(),
    {
        let keys = Seq::new(self.entries@.len(), |i: int| self.entries@[i].0);
        assert(keys.no_duplicates());
        keys.unique_seq_to_set();
        assert(keys.to_set() =~= self@.dom()) by {
            assert forall|k: WgKey| self@.dom().contains(k) implies keys.to_set().contains(k) by {
                let i = choose|i: int| 0 <= i < self.entries@.len() && self.entries@[i].0 == k;
                assert(keys[i] == k);
            }
        }
    }

    fn index_of(&self, k: &WgKey) -> (r: Option<usize>)
        requires
            self.wf(),
        ensures
            match r {
                Some(i) => i < self.entries@.len() && self.entries@[i as int].0 == *k,
                None => !self@.contains_key(*k),
            },
    {
        let mut i: usize = 0;
        while i < self.entries.len()
            invariant
                self.wf(),
                i <= self.entries@.len(),
                forall|j: int| 0 <= j < i ==> self.entries@[j].0 != *k,
            decreases self.entries@.len() - i,
        {
            if self.entries[i].0 == *k {
                return Some(i);
            }
            i = i + 1;
        }
        None
    }

    /// The counters last recorded for `k`.
    pub fn get(&self, k: &WgKey) -> (r: Option<WgUsage>)
        requires
            self.wf(),
        ensures
            r == (if self@.contains_key(*k) { Some(self@[*k]) } else { None::<WgUsage> }),
    {
        match self.index_of(k) {
            Some(i) => Some(self.entries[i].1),
            None => None,
        }
    }

    /// Records `v` as the counters of `k`.
    pub fn insert(&mut self, k: WgKey, v: WgUsage)
        requires
            old(self).wf(),
        ensures
            final(self).wf(),
            final(self)@ == old(self)@.insert(k, v),
    {
        let ghost pre = self.entries@;
        match self.index_of(&k) {
            Some(i) => {
                self.entries.set(i, (k, v));
                self.table = Ghost(self.table@.insert(k, v));
                assert forall|kk: WgKey| #[trigger] self.table@.contains_key(kk) implies exists|j: int|
                    0 <= j < self.entries@.len() && self.entries@[j].0 == kk by {
                    if kk != k {
                        let j = choose|j: int| 0 <= j < pre.len() && pre[j].0 == kk;
                        assert(self.entries@[j].0 == kk);
                    } else {
                        assert(self.entries@[i as int].0 == kk);
                    }
                }
            },
            None => {
                self.entries.push((k, v));
                self.table = Ghost(self.table@.insert(k, v));
                assert forall|kk: WgKey| #[trigger] self.table@.contains_key(kk) implies exists|j: int|
                    0 <= j < self.entries@.len() && self.entries@[j].0 == kk by {
                    if kk != k {
                        let j = choose|j: int| 0 <= j < pre.len() && pre[j].0 == kk;
                        assert(self.entries@[j].0 == kk);
                    } else {
                        assert(self.entries@[pre.len() as int].0 == kk);
                    }
                }
            },
        }
    }
}

} // verus!
