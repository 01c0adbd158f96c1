//! The time-bucketed expiration index.
//!
//! For every future tick with at least one pending expiration there is a
//! bucket: a slot counter and one entry per slot, keyed by the packed
//! `(tick, slot)` pair. Scheduling appends at slot `count + 1` in constant
//! time; draining a tick walks exactly that tick's slots in ascending
//! order. The counter is taken out before the walk, so a second drain of
//! the same tick is a no-op.

use vstd::prelude::*;
use std::collections::HashMap;
use crate::keys::{pair_key, key_hi, key_lo, make_key, lemma_pair_key_parts};

verus! {

broadcast use vstd::std_specs::hash::group_hash_axioms;

/// Maps each pending tick to its filled slot count, and each packed
/// `(tick, slot)` pair to the `(account, club_id)` expiring there.
pub struct ExpirationScheduler {
    counts: HashMap<u64, u64>,
    entries: HashMap<u128, (u64, u64)>,
}

impl ExpirationScheduler {
    /// The slot counters, one per tick that has a bucket.
    pub closed spec fn spec_counts(self) -> Map<u64, u64> {
        self.counts@
    }

    /// The bucket entries, keyed by the packed `(tick, slot)` pair.
    pub closed spec fn spec_entries(self) -> Map<u128, (u64, u64)> {
        self.entries@
    }

    /// Buckets are well formed: a bucket's counter is at least one, its
    /// slots `1..=count` are all filled, and every entry sits in a slot
    /// `1..=count` of a tick that has a counter.
    pub open spec fn wf(self) -> bool {
        &&& forall|t: u64| #[trigger]
            self.spec_counts().contains_key(t) ==> 1 <= self.spec_counts()[t]
        &&& forall|t: u64, i: u64|
            self.spec_counts().contains_key(t) && 1 <= i <= self.spec_counts()[t]
                ==> self.spec_entries().contains_key(#[trigger] pair_key(t, i))
        &&& forall|k: u128| #[trigger]
            self.spec_entries().contains_key(k) ==> self.spec_counts().contains_key(key_hi(k))
                && 1 <= key_lo(k) <= self.spec_counts()[key_hi(k)]
    }

    /// An empty index: no bucket for any tick.
    pub fn new() -> (s: ExpirationScheduler)
        ensures
            s.wf(),
            s.spec_counts() == Map::<u64, u64>::empty(),
            s.spec_entries() == Map::<u128, (u64, u64)>::empty(),
    {
        ExpirationScheduler { counts: HashMap::new(), entries: HashMap::new() }
    }

    /// The slot counter of `tick`'s bucket, if the bucket exists.
    pub fn count_of(&self, tick: u64) -> (count: Option<u64>)
        ensures
            match count {
                Some(c) => self.spec_counts().contains_key(tick) && c == self.spec_counts()[tick],
                None => !self.spec_counts().contains_key(tick),
            },
    {
        match self.counts.get(&tick) {
            Some(c) => Some(*c),
            None => None,
        }
    }

    /// The entry in slot `slot` of `tick`'s bucket, if present.
    pub fn entry_at(&self, tick: u64, slot: u64) -> (entry: Option<(u64, u64)>)
        ensures
            match entry {
                Some(e) => self.spec_entries().contains_key(pair_key(tick, slot)) && e
                    == self.spec_entries()[pair_key(tick, slot)],
                None => !self.spec_entries().contains_key(pair_key(tick, slot)),
            },
    {
        let k = make_key(tick, slot);
        match self.entries.get(&k) {
            Some(e) => Some(*e),
            None => None,
        }
    }

    /// Appends `(account, club_id)` to `tick`'s bucket in the next slot,
    /// creating the bucket at slot one if none exists. Returns the slot,
    /// or `None` when the slot counter has reached its width.
    pub fn schedule(&mut self, tick: u64, account: u64, club_id: u64) -> (slot: Option<u64>)
        requires
            old(self).wf(),
        ensures
            final(self).wf(),
            match slot {
                Some(i) => {
                    &&& i == if old(self).spec_counts().contains_key(tick) {
                        old(self).spec_counts()[tick] + 1
                    } else {
                        1int
                    }
                    &&& final(self).spec_counts() == old(self).spec_counts().insert(tick, i)
                    &&& final(self).spec_entries() == old(self).spec_entries().insert(
                        pair_key(tick, i),
                        (account, club_id),
                    )
                },
                None => {
                    &&& old(self).spec_counts().contains_key(tick)
                    &&& old(self).spec_counts()[tick] == u64::MAX
                    &&& final(self).spec_counts() == old(self).spec_counts()
                    &&& final(self).spec_entries() == old(self).spec_entries()
                },
            },
    {
        let prior: u64 = match self.counts.get(&tick) {
            Some(c) => *c,
            None => 0,
        };
        if prior == u64::MAX {
            return None;
        }
        let next: u64 = prior + 1;
        self.counts.insert(tick, next);
        let k = make_key(tick, next);
        self.entries.insert(k, (account, club_id));
        proof {
            lemma_pair_key_parts(tick, next);
            assert forall|t: u64, i: u64|
                self.spec_counts().contains_key(t) && 1 <= i <= self.spec_counts()[t]
                    implies self.spec_entries().contains_key(#[trigger] pair_key(t, i)) by {
                if t == tick && i == next {
                } else if t == tick {
                    assert(old(self).spec_counts().contains_key(t) && i <= prior);
                } else {
                    assert(old(self).spec_counts().contains_key(t));
                }
            }
            assert forall|k2: u128| #[trigger]
                self.spec_entries().contains_key(k2)
                    implies self.spec_counts().contains_key(key_hi(k2)) && 1 <= key_lo(k2)
                    <= self.spec_counts()[key_hi(k2)] by {
                if k2 == k {
                } else {
                    assert(old(self).spec_entries().contains_key(k2));
                }
            }
        }
        Some(next)
    }

    /// Removes and returns `tick`'s slot counter; the entries stay put.
    pub fn take_count(&mut self, tick: u64) -> (count: Option<u64>)
        ensures
            final(self).spec_entries() == old(self).spec_entries(),
            match count {
                Some(c) => {
                    &&& old(self).spec_counts().contains_key(tick)
                    &&& c == old(self).spec_counts()[tick]
                    &&& final(self).spec_counts() == old(self).spec_counts().remove(tick)
                },
                None => {
                    &&& !old(self).spec_counts().contains_key(tick)
                    &&& final(self).spec_counts() == old(self).spec_counts()
                },
            },
    {
        let taken = self.counts.remove(&tick);
        proof {
            if taken is None {
                assert(self.spec_counts() =~= old(self).spec_counts());
            }
        }
        taken
    }

    /// Removes and returns the entry in slot `slot` of `tick`'s bucket;
    /// the counters stay put.
    pub fn take_entry(&mut self, tick: u64, slot: u64) -> (entry: Option<(u64, u64)>)
        ensures
            final(self).spec_counts() == old(self).spec_counts(),
            match entry {
                Some(e) => {
                    &&& old(self).spec_entries().contains_key(pair_key(tick, slot))
                    &&& e == old(self).spec_entries()[pair_key(tick, slot)]
                    &&& final(self).spec_entries() == old(self).spec_entries().remove(
                        pair_key(tick, slot),
                    )
                },
                None => {
                    &&& !old(self).spec_entries().contains_key(pair_key(tick, slot))
                    &&& final(self).spec_entries() == old(self).spec_entries()
                },
            },
    {
        let k = make_key(tick, slot);
        let taken = self.entries.remove(&k);
        proof {
            if taken is None {
                assert(self.spec_entries() =~= old(self).spec_entries());
            }
        }
        taken
    }
}

} // verus!
