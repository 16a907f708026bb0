//! The profile store: a mapping from profile key to profile, kept as a
//! vector of entries with pairwise distinct keys.

use vstd::prelude::*;
use crate::chars::str_equal;
use crate::profile::{Profile, ProfileView};

verus! {

/// One stored entry: a key and the profile filed under it.
pub struct StoreEntry {
    pub key: String,
    pub profile: Profile,
}

impl View for StoreEntry {
    type V = (Seq<char>, ProfileView);

    open spec fn view(&self) -> (Seq<char>, ProfileView) {
        (self.key@, self.profile@)
    }
}

/// The mathematical content of a store: its entries in order.
pub type StoreView = Seq<(Seq<char>, ProfileView)>;

/// No two entries share a key.
pub open spec fn keys_unique(s: StoreView) -> bool {
    forall|i: int, j: int|
        0 <= i < s.len() && 0 <= j < s.len() && i != j ==> s[i].0 != s[j].0
}

/// Some entry carries the key `k`.
pub open spec fn has_key(s: StoreView, k: Seq<char>) -> bool {
    exists|i: int| 0 <= i < s.len() && s[i].0 == k
}

/// The position of the entry carrying `k` (meaningful only when
/// `has_key(s, k)` holds and keys are unique).
pub open spec fn key_index(s: StoreView, k: Seq<char>) -> int {
    choose|i: int| 0 <= i < s.len() && s[i].0 == k
}

/// The profile filed under `k`, if any.
pub open spec fn store_lookup(s: StoreView, k: Seq<char>) -> Option<ProfileView> {
    if has_key(s, k) {
        Some(s[key_index(s, k)].1)
    } else {
        None
    }
}

/// The store after filing `p` under `k`: the entry carrying `k` is
/// replaced in place, or a new entry is appended.
pub open spec fn store_insert(s: StoreView, k: Seq<char>, p: ProfileView) -> StoreView {
    if has_key(s, k) {
        s.update(key_index(s, k), (k, p))
    } else {
        s.push((k, p))
    }
}

/// The store after dropping the entry carrying `k`, if any.
pub open spec fn store_remove(s: StoreView, k: Seq<char>) -> StoreView {
    if has_key(s, k) {
        s.remove(key_index(s, k))
    } else {
        s
    }
}

/// Filing a profile makes it the one found under its key.
pub proof fn lemma_store_insert_lookup(s: StoreView, k: Seq<char>, p: ProfileView)
    requires
        keys_unique(s),
    ensures
        store_lookup(store_insert(s, k, p), k) == Some(p),
{
    let t = store_insert(s, k, p);
    if has_key(s, k) {
        let i = key_index(s, k);
        assert(0 <= i < s.len() && s[i].0 == k);
        assert(t[i].0 == k);
        assert(has_key(t, k));
        let j = key_index(t, k);
        assert(0 <= j < t.len() && t[j].0 == k);
        if j != i {
            assert(t[j] == s[j]);
            assert(s[j].0 == s[i].0);
            assert(false);
        }
    } else {
        let i = s.len() as int;
        assert(t[i].0 == k);
        assert(has_key(t, k));
        let j = key_index(t, k);
        assert(0 <= j < t.len() && t[j].0 == k);
        if j != i {
            assert(s[j].0 == k);
            assert(has_key(s, k));
            assert(false);
        }
    }
}

/// Filing a profile leaves every other key's entry as it was.
pub proof fn lemma_store_insert_preserves(s: StoreView, k: Seq<char>, p: ProfileView, k2: Seq<char>)
    requires
        keys_unique(s),
        k2 != k,
    ensures
        store_lookup(store_insert(s, k, p), k2) == store_lookup(s, k2),
{
    let t = store_insert(s, k, p);
    if has_key(s, k) {
        let i = key_index(s, k);
        assert(0 <= i < s.len() && s[i].0 == k);
        assert(forall|j: int| 0 <= j < t.len() && j != i ==> t[j] == s[j]);
        if has_key(s, k2) {
            let j = key_index(s, k2);
            assert(0 <= j < s.len() && s[j].0 == k2);
            assert(j != i);
            assert(t[j].0 == k2);
            assert(has_key(t, k2));
            let j2 = key_index(t, k2);
            assert(0 <= j2 < t.len() && t[j2].0 == k2);
            assert(j2 != i);
            assert(s[j2].0 == k2);
            if j2 != j {
                assert(false);
            }
        } else {
            if has_key(t, k2) {
                let j2 = key_index(t, k2);
                assert(0 <= j2 < t.len() && t[j2].0 == k2);
                assert(j2 != i);
                assert(s[j2].0 == k2);
                assert(has_key(s, k2));
                assert(false);
            }
        }
    } else {
        let n = s.len() as int;
        assert(forall|j: int| 0 <= j < n ==> t[j] == s[j]);
        if has_key(s, k2) {
            let j = key_index(s, k2);
            assert(0 <= j < s.len() && s[j].0 == k2);
            assert(t[j].0 == k2);
            assert(has_key(t, k2));
            let j2 = key_index(t, k2);
            assert(0 <= j2 < t.len() && t[j2].0 == k2);
            assert(j2 != n);
            if j2 != j {
                assert(false);
            }
        } else {
            if has_key(t, k2) {
                let j2 = key_index(t, k2);
                assert(0 <= j2 < t.len() && t[j2].0 == k2);
                assert(j2 != n);
                assert(has_key(s, k2));
                assert(false);
            }
        }
    }
}

/// Filing a profile keeps the keys pairwise distinct.
pub proof fn lemma_store_insert_unique(s: StoreView, k: Seq<char>, p: ProfileView)
    requires
        keys_unique(s),
    ensures
        keys_unique(store_insert(s, k, p)),
{
    let t = store_insert(s, k, p);
    if has_key(s, k) {
        let i = key_index(s, k);
        assert(0 <= i < s.len() && s[i].0 == k);
        assert forall|a: int, b: int|
            0 <= a < t.len() && 0 <= b < t.len() && a != b implies t[a].0 != t[b].0 by {
            assert(a == i ==> t[a].0 == k && t[b] == s[b]);
            assert(b == i ==> t[b].0 == k && t[a] == s[a]);
        }
    } else {
        let n = s.len() as int;
        assert forall|a: int, b: int|
            0 <= a < t.len() && 0 <= b < t.len() && a != b implies t[a].0 != t[b].0 by {
            if a < n && b < n {
                assert(t[a] == s[a] && t[b] == s[b]);
            } else if a == n {
                assert(t[b] == s[b]);
                assert(t[b].0 == k ==> has_key(s, k));
            } else {
                assert(t[a] == s[a]);
                assert(t[a].0 == k ==> has_key(s, k));
            }
        }
    }
}

/// The store of profiles.
pub struct ProfileStore {
    entries: Vec<StoreEntry>,
}

impl View for ProfileStore {
    type V = StoreView;

    closed spec fn view(&self) -> StoreView {
        self.entries@.map_values(|e: StoreEntry| e@)
    }
}

impl ProfileStore {
    /// The store is well formed when no two entries share a key.
    pub open spec fn wf(&self) -> bool {
        keys_unique(self@)
    }

    pub fn new() -> (s: ProfileStore)
        ensures
            s@ == StoreView::empty(),
            s.wf(),
    {
        let s = ProfileStore { entries: Vec::new() };
        proof {
            assert(s@ =~= StoreView::empty());
        }
        s
    }

    pub fn len(&self) -> (n: usize)
        ensures
            n == self@.len(),
    {
        self.entries.len()
    }

    pub fn is_empty(&self) -> (r: bool)
        ensures
            r <==> self@.len() == 0,
    {
        self.entries.len() == 0
    }

    /// The key of the entry at position `i`.
    pub fn key_at(&self, i: usize) -> (k: &String)
        requires
            i < self@.len(),
        ensures
            k@ == self@[i as int].0,
    {
        &self.entries[i].key
    }

    /// The profile of the entry at position `i`.
    pub fn profile_at(&self, i: usize) -> (p: &Profile)
        requires
            i < self@.len(),
        ensures
            p@ == self@[i as int].1,
    {
        &self.entries[i].profile
    }

    /// The position of the entry carrying `key`, if any.
    fn find(&self, key: &str) -> (r: Option<usize>)
        ensures
            match r {
                Some(i) => i < self@.len() && self@[i as int].0 == key@,
                None => !has_key(self@, key@),
            },
    {
        let mut i: usize = 0;
        while i < self.entries.len()
            invariant
                i <= self.entries@.len(),
                self@.len() == self.entries@.len(),
                forall|j: int| 0 <= j < i ==> self@[j].0 != key@,
            decreases self.entries@.len() - i,
        {
            if str_equal(self.entries[i].key.as_str(), key) {
                return Some(i);
            }
            i += 1;
        }
        None
    }

    /// The profile filed under `key`, if any.
    pub fn get(&self, key: &str) -> (r: Option<&Profile>)
        requires
            self.wf(),
        ensures
            match r {
                Some(p) => store_lookup(self@, key@) == Some(p@),
                None => store_lookup(self@, key@) is None,
            },
    {
        match self.find(key) {
            Some(i) => {
                proof {
                    assert(has_key(self@, key@));
                    let j = key_index(self@, key@);
                    assert(0 <= j < self@.len() && self@[j].0 == key@);
                    assert(j == i);
                }
                Some(&self.entries[i].profile)
            }
            None => None,
        }
    }

    /// Whether some entry carries `key`.
    pub fn contains_key(&self, key: &str) -> (r: bool)
        ensures
            r <==> has_key(self@, key@),
    {
        match self.find(key) {
            Some(_) => true,
            None => false,
        }
    }

    /// Files `profile` under `key`, replacing the entry that carried
    /// `key` before, if any.
    pub fn insert(&mut self, key: String, profile: Profile)
        requires
            old(self).wf(),
        ensures
            final(self).wf(),
            final(self)@ == store_insert(old(self)@, key@, profile@),
    {
        let ghost s0 = self@;
        proof {
            lemma_store_insert_unique(s0, key@, profile@);
        }
        match self.find(key.as_str()) {
            Some(i) => {
                proof {
                    assert(has_key(s0, key@));
                    let j = key_index(s0, key@);
                    assert(0 <= j < s0.len() && s0[j].0 == key@);
                    assert(j == i);
                }
                self.entries.remove(i);
                self.entries.insert(i, StoreEntry { key, profile });
                proof {
                    assert(self@ =~= s0.update(i as int, (key@, profile@)));
                }
            }
            None => {
                self.entries.push(StoreEntry { key, profile });
                proof {
                    assert(self@ =~= s0.push((key@, profile@)));
                }
            }
        }
    }

    /// Drops the entry carrying `key`; reports whether one was there.
    pub fn remove(&mut self, key: &str) -> (r: bool)
        requires
            old(self).wf(),
        ensures
            final(self).wf(),
            final(self)@ == store_remove(old(self)@, key@),
            r <==> has_key(old(self)@, key@),
    {
        let ghost s0 = self@;
        match self.find(key) {
            Some(i) => {
                proof {
                    assert(has_key(s0, key@));
                    let j = key_index(s0, key@);
                    assert(0 <= j < s0.len() && s0[j].0 == key@);
                    assert(j == i);
                }
                self.entries.remove(i);
                proof {
                    assert(self@ =~= s0.remove(i as int));
                    assert forall|a: int, b: int|
                        0 <= a < self@.len() && 0 <= b < self@.len() && a != b
                        implies self@[a].0 != self@[b].0 by {
                        let a0 = if a < i { a } else { a + 1 };
                        let b0 = if b < i { b } else { b + 1 };
                        assert(self@[a] == s0[a0] && self@[b] == s0[b0]);
                    }
                }
                true
            }
            None => false,
        }
    }

    /// Empties the store.
    pub fn clear(&mut self)
        ensures
            final(self).wf(),
            final(self)@ == StoreView::empty(),
    {
        self.entries.clear();
        proof {
            assert(self@ =~= StoreView::empty());
        }
    }

    /// All keys, in entry order.
    pub fn keys(&self) -> (r: Vec<String>)
        ensures
            r@.len() == self@.len(),
            forall|i: int| 0 <= i < r@.len() ==> r@[i]@ == self@[i].0,
    {
        let mut r: Vec<String> = Vec::new();
        let mut i: usize = 0;
        while i < self.entries.len()
            invariant
                i <= self.entries@.len(),
                self@.len() == self.entries@.len(),
                r@.len() == i,
                forall|j: int| 0 <= j < i ==> r@[j]@ == self@[j].0,
            decreases self.entries@.len() - i,
        {
            r.push(self.entries[i].key.clone());
            i += 1;
        }
        r
    }
}

} // verus!
