//! A map keyed by byte strings, backed by an association list.
//!
//! Organization names and vision documents are opaque byte blobs, so the
//! stores keyed by them use this small verified map. Its abstract value is a
//! `Map<Seq<u8>, V>`; well-formedness says the stored keys are distinct.

use vstd::prelude::*;

verus! {

/// Compare two byte vectors for equality of contents.
pub fn bytes_eq(a: &Vec<u8>, b: &Vec<u8>) -> (r: bool)
    ensures
        r == (a@ == b@),
{
    if a.len() != b.len() {
        return false;
    }
    let mut i: usize = 0;
    while i < a.len()
        invariant
            i <= a@.len(),
            a@.len() == b@.len(),
            forall|j: int| 0 <= j < i ==> a@[j] == b@[j],
        decreases a@.len() - i,
    {
        if a[i] != b[i] {
            return false;
        }
        i = i + 1;
    }
    proof {
        assert(a@ =~= b@);
    }
    true
}

/// The map described by an association list, later entries winning.
pub open spec fn assoc_view<V>(s: Seq<(Vec<u8>, V)>) -> Map<Seq<u8>, V>
    decreases s.len(),
{
    if s.len() == 0 {
        Map::empty()
    } else {
        assoc_view(s.drop_last()).insert(s.last().0@, s.last().1)
    }
}

/// The stored keys are pairwise distinct.
pub open spec fn distinct_keys<V>(s: Seq<(Vec<u8>, V)>) -> bool {
    forall|i: int, j: int|
        0 <= i < s.len() && 0 <= j < s.len() && i != j ==> s[i].0@ != s[j].0@
}

/// The association list contains a key exactly when its map does.
pub proof fn lemma_assoc_contains<V>(s: Seq<(Vec<u8>, V)>, k: Seq<u8>)
    ensures
        assoc_view(s).contains_key(k) <==> exists|i: int| 0 <= i < s.len() && s[i].0@ == k,
    decreases s.len(),
{
    if s.len() > 0 {
        lemma_assoc_contains(s.drop_last(), k);
        if s.last().0@ == k {
            assert(s[s.len() - 1].0@ == k);
        } else if assoc_view(s).contains_key(k) {
            let i = choose|i: int| 0 <= i < s.drop_last().len() && s.drop_last()[i].0@ == k;
            assert(s[i].0@ == k);
        } else {
            assert forall|i: int| 0 <= i < s.len() implies s[i].0@ != k by {
                if i < s.len() - 1 {
                    assert(s.drop_last()[i].0@ == s[i].0@);
                }
            }
        }
    }
}

/// With distinct keys, the value at a stored key is the stored value.
pub proof fn lemma_assoc_at<V>(s: Seq<(Vec<u8>, V)>, i: int)
    requires
        distinct_keys(s),
        0 <= i < s.len(),
    ensures
        assoc_view(s).contains_key(s[i].0@),
        assoc_view(s)[s[i].0@] == s[i].1,
    decreases s.len(),
{
    lemma_assoc_contains(s, s[i].0@);
    if i < s.len() - 1 {
        assert(s.last().0@ != s[i].0@);
        assert(s.drop_last()[i] == s[i]);
        lemma_assoc_at(s.drop_last(), i);
    }
}

/// With distinct keys, removing entry `i` from the list removes exactly
/// its key from the map.
pub proof fn lemma_assoc_remove<V>(s: Seq<(Vec<u8>, V)>, i: int)
    requires
        distinct_keys(s),
        0 <= i < s.len(),
    ensures
        assoc_view(s.remove(i)) == assoc_view(s).remove(s[i].0@),
    decreases s.len(),
{
    let k = s[i].0@;
    if i == s.len() - 1 {
        assert(s.remove(i) =~= s.drop_last());
        lemma_assoc_contains(s.drop_last(), k);
        assert(!assoc_view(s.drop_last()).contains_key(k)) by {
            if assoc_view(s.drop_last()).contains_key(k) {
                let j = choose|j: int|
                    0 <= j < s.drop_last().len() && s.drop_last()[j].0@ == k;
                assert(s[j].0@ == k);
            }
        }
        assert(assoc_view(s.remove(i)) =~= assoc_view(s).remove(k));
    } else {
        let dl = s.drop_last();
        assert(s.remove(i).drop_last() =~= dl.remove(i));
        assert(s.remove(i).last() == s.last());
        assert(dl[i] == s[i]);
        lemma_assoc_remove(dl, i);
        assert(s.last().0@ != k);
        assert(assoc_view(dl).remove(k).insert(s.last().0@, s.last().1) =~= assoc_view(
            dl,
        ).insert(s.last().0@, s.last().1).remove(k));
    }
}

/// Removing an entry keeps the remaining keys distinct.
pub proof fn lemma_remove_distinct<V>(s: Seq<(Vec<u8>, V)>, i: int)
    requires
        distinct_keys(s),
        0 <= i < s.len(),
    ensures
        distinct_keys(s.remove(i)),
        forall|j: int| 0 <= j < s.remove(i).len() ==> #[trigger] s.remove(i)[j].0@ != s[i].0@,
{
    let t = s.remove(i);
    assert forall|a: int, b: int|
        0 <= a < t.len() && 0 <= b < t.len() && a != b implies t[a].0@ != t[b].0@ by {
        let a0: int = if a < i { a } else { a + 1 };
        let b0: int = if b < i { b } else { b + 1 };
        assert(t[a] == s[a0]);
        assert(t[b] == s[b0]);
    }
    assert forall|j: int| 0 <= j < t.len() implies t[j].0@ != s[i].0@ by {
        let j0: int = if j < i { j } else { j + 1 };
        assert(t[j] == s[j0]);
    }
}

/// A map from byte-string keys to values, with map semantics in
/// specifications.
pub struct ByteMap<V> {
    entries: Vec<(Vec<u8>, V)>,
}

impl<V> ByteMap<V> {
    /// The abstract map held by this container.
    pub closed spec fn view(&self) -> Map<Seq<u8>, V> {
        assoc_view(self.entries@)
    }

    /// Stored keys are pairwise distinct.
    pub closed spec fn wf(&self) -> bool {
        distinct_keys(self.entries@)
    }

    /// An empty map.
    pub fn new() -> (r: ByteMap<V>)
        ensures
            r.wf(),
            r.view() == Map::<Seq<u8>, V>::empty(),
    {
        ByteMap { entries: Vec::new() }
    }

    /// The index of `key` among the entries, if present.
    fn find(&self, key: &Vec<u8>) -> (r: Option<usize>)
        ensures
            match r {
                Some(i) => i < self.entries@.len() && self.entries@[i as int].0@ == key@,
                None => forall|j: int|
                    0 <= j < self.entries@.len() ==> self.entries@[j].0@ != key@,
            },
    {
        let mut i: usize = 0;
        while i < self.entries.len()
            invariant
                i <= self.entries@.len(),
                forall|j: int| 0 <= j < i ==> self.entries@[j].0@ != key@,
            decreases self.entries@.len() - i,
        {
            if bytes_eq(&self.entries[i].0, key) {
                return Some(i);
            }
            i = i + 1;
        }
        None
    }

    /// Whether the map holds `key`.
    pub fn contains_key(&self, key: &Vec<u8>) -> (r: bool)
        ensures
            r == self.view().contains_key(key@),
    {
        proof {
            lemma_assoc_contains(self.entries@, key@);
        }
        match self.find(key) {
            Some(_) => true,
            None => false,
        }
    }

    /// The value at `key`, if present.
    pub fn get(&self, key: &Vec<u8>) -> (r: Option<&V>)
        requires
            self.wf(),
        ensures
            match r {
                Some(v) => self.view().contains_key(key@) && *v == self.view()[key@],
                None => !self.view().contains_key(key@),
            },
    {
        proof {
            lemma_assoc_contains(self.entries@, key@);
        }
        match self.find(key) {
            Some(i) => {
                proof {
                    lemma_assoc_at(self.entries@, i as int);
                }
                Some(&self.entries[i].1)
            },
            None => None,
        }
    }

    /// Insert `value` at `key`, replacing any previous value.
    pub fn insert(&mut self, key: Vec<u8>, value: V)
        requires
            old(self).wf(),
        ensures
            final(self).wf(),
            final(self).view() == old(self).view().insert(key@, value),
    {
        let ghost s0 = self.entries@;
        let ghost k = key@;
        match self.find(&key) {
            Some(i) => {
                proof {
                    lemma_assoc_remove(s0, i as int);
                    lemma_remove_distinct(s0, i as int);
                }
                self.entries.remove(i);
                self.entries.push((key, value));
                proof {
                    let s1 = s0.remove(i as int);
                    assert(self.entries@.drop_last() =~= s1);
                    assert(self.entries@.last().0@ == k);
                    assert(assoc_view(self.entries@) =~= assoc_view(s0).insert(k, value));
                    assert forall|a: int, b: int|
                        0 <= a < self.entries@.len() && 0 <= b < self.entries@.len() && a != b
                        implies self.entries@[a].0@ != self.entries@[b].0@ by {
                        if a < s1.len() && b < s1.len() {
                            assert(self.entries@[a] == s1[a]);
                            assert(self.entries@[b] == s1[b]);
                        } else if a < s1.len() {
                            assert(self.entries@[a] == s1[a]);
                            assert(s1[a].0@ != s0[i as int].0@);
                        } else {
                            assert(self.entries@[b] == s1[b]);
                            assert(s1[b].0@ != s0[i as int].0@);
                        }
                    }
                }
            },
            None => {
                self.entries.push((key, value));
                proof {
                    assert(self.entries@.drop_last() =~= s0);
                    assert(self.entries@.last().0@ == k);
                    assert forall|a: int, b: int|
                        0 <= a < self.entries@.len() && 0 <= b < self.entries@.len() && a != b
                        implies self.entries@[a].0@ != self.entries@[b].0@ by {
                        if a < s0.len() && b < s0.len() {
                            assert(self.entries@[a] == s0[a]);
                            assert(self.entries@[b] == s0[b]);
                        } else if a < s0.len() {
                            assert(self.entries@[a] == s0[a]);
                        } else {
                            assert(self.entries@[b] == s0[b]);
                        }
                    }
                }
            },
        }
    }

    /// Remove the entry at `key`, if any; reports whether one was present.
    pub fn remove(&mut self, key: &Vec<u8>) -> (r: bool)
        requires
            old(self).wf(),
        ensures
            final(self).wf(),
            r == old(self).view().contains_key(key@),
            final(self).view() == old(self).view().remove(key@),
    {
        let ghost s0 = self.entries@;
        proof {
            lemma_assoc_contains(s0, key@);
        }
        match self.find(key) {
            Some(i) => {
                proof {
                    lemma_assoc_remove(s0, i as int);
                    lemma_remove_distinct(s0, i as int);
                }
                self.entries.remove(i);
                true
            },
            None => {
                proof {
                    assert(assoc_view(s0).remove(key@) =~= assoc_view(s0));
                }
                false
            },
        }
    }
}

} // verus!
