use vstd::prelude::*;

use crate::ids::SubImageID;
use crate::keys::{CacheKey, SubImageCacheID};

verus! {

/// Map from cache keys to the sub-image placed for them. Entries are never
/// removed.
pub struct IdentityCache {
    entries: Vec<(SubImageCacheID, SubImageID)>,
    map: Ghost<Map<CacheKey, SubImageID>>,
}

impl View for IdentityCache {
    type V = Map<CacheKey, SubImageID>;

    closed spec fn view(&self) -> Map<CacheKey, SubImageID> {
        self.map@
    }
}

impl IdentityCache {
    pub closed spec fn wf(&self) -> bool {
        &&& forall|i: int|
            0 <= i < self.entries@.len() ==> #[trigger] self.map@.contains_key(
                self.entries@[i].0@,
            ) && self.map@[self.entries@[i].0@] == self.entries@[i].1
        &&& forall|k: CacheKey|
            #[trigger] self.map@.contains_key(k) ==> exists|i: int|
                0 <= i < self.entries@.len() && #[trigger] self.entries@[i].0@ == k
        &&& forall|i: int, j: int|
            0 <= i < j < self.entries@.len() ==> #[trigger] self.entries@[i].0@
                != #[trigger] self.entries@[j].0@
    }

    pub fn new() -> (r: IdentityCache)
        ensures
            r.wf(),
            r@ == Map::<CacheKey, SubImageID>::empty(),
    {
        IdentityCache { entries: Vec::new(), map: Ghost(Map::empty()) }
    }

    /// Index of the entry for `key`, if there is one.
    fn index_of(&self, key: &SubImageCacheID) -> (r: Option<usize>)
        requires
            self.wf(),
        ensures
            r is None <==> !self@.contains_key(key@),
            r matches Some(i) ==> i < self.entries@.len() && self.entries@[i as int].0@ == key@,
    {
        let mut i: usize = 0;
        while i < self.entries.len()
            invariant
                self.wf(),
                i <= self.entries@.len(),
                forall|k: int| 0 <= k < i ==> self.entries@[k].0@ != key@,
            decreases self.entries@.len() - i,
        {
            if self.entries[i].0 == *key {
                return Some(i);
            }
            i = i + 1;
        }
        proof {
            if self@.contains_key(key@) {
                let w = choose|w: int| 0 <= w < self.entries@.len() && self.entries@[w].0@ == key@;
                assert(self.entries@[w].0@ == key@);
            }
        }
        None
    }

    /// Whether `key` has an entry.
    pub fn contains(&self, key: &SubImageCacheID) -> (r: bool)
        requires
            self.wf(),
        ensures
            r == self@.contains_key(key@),
    {
        self.index_of(key).is_some()
    }

    /// The sub-image recorded for `key`.
    pub fn get(&self, key: &SubImageCacheID) -> (r: Option<SubImageID>)
        requires
            self.wf(),
        ensures
            r == (if self@.contains_key(key@) {
                Some(self@[key@])
            } else {
                None
            }),
    {
        match self.index_of(key) {
            Some(i) => Some(self.entries[i].1),
            None => None,
        }
    }

    /// Records `id` for `key`, replacing what was recorded before.
    pub fn insert(&mut self, key: SubImageCacheID, id: SubImageID)
        requires
            old(self).wf(),
        ensures
            final(self).wf(),
            final(self)@ == old(self)@.insert(key@, id),
    {
        let ghost k = key@;
        match self.index_of(&key) {
            Some(i) => {
                self.entries.set(i, (key, id));
                self.map = Ghost(self.map@.insert(k, id));
                assert forall|j: int| 0 <= j < self.entries@.len() implies #[trigger] self.map@.contains_key(
                    self.entries@[j].0@,
                ) && self.map@[self.entries@[j].0@] == self.entries@[j].1 by {
                    if j != i {
                        assert(old(self).entries@[j].0@ != old(self).entries@[i as int].0@);
                    }
                }
                assert forall|c: CacheKey| #[trigger] self.map@.contains_key(c) implies exists|
                    j: int,
                | 0 <= j < self.entries@.len() && #[trigger] self.entries@[j].0@ == c by {
                    if c != k {
                        let w = choose|w: int|
                            0 <= w < old(self).entries@.len() && old(self).entries@[w].0@ == c;
                        assert(self.entries@[w].0@ == c);
                    } else {
                        assert(self.entries@[i as int].0@ == c);
                    }
                }
            },
            None => {
                self.entries.push((key, id));
                self.map = Ghost(self.map@.insert(k, id));
                assert forall|j: int| 0 <= j < old(self).entries@.len() implies #[trigger] self.entries@[j].0@
                    != k by {
                    assert(old(self).map@.contains_key(old(self).entries@[j].0@));
                }
                assert forall|c: CacheKey| #[trigger] self.map@.contains_key(c) implies exists|
                    j: int,
                | 0 <= j < self.entries@.len() && #[trigger] self.entries@[j].0@ == c by {
                    if c != k {
                        let w = choose|w: int|
                            0 <= w < old(self).entries@.len() && old(self).entries@[w].0@ == c;
                        assert(self.entries@[w].0@ == c);
                    } else {
                        assert(self.entries@[self.entries@.len() - 1].0@ == c);
                    }
                }
            },
        }
    }
}

} // verus!
