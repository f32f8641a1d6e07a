use vstd::prelude::*;

verus! {

/// Whether no two entries of `s` share a key.
pub open spec fn distinct_keys<X>(s: Seq<(Seq<char>, X)>) -> bool {
    forall|i: int, j: int|
        0 <= i < s.len() && 0 <= j < s.len() && i != j ==> #[trigger] s[i].0 != #[trigger] s[j].0
}

/// Whether some entry of `s` has the key `k`.
pub open spec fn has_key<X>(s: Seq<(Seq<char>, X)>, k: Seq<char>) -> bool {
    exists|i: int| 0 <= i < s.len() && #[trigger] s[i].0 == k
}

/// The position of an entry of `s` with the key `k` (meaningful when `has_key(s, k)`).
pub open spec fn key_index<X>(s: Seq<(Seq<char>, X)>, k: Seq<char>) -> int {
    choose|i: int| 0 <= i < s.len() && #[trigger] s[i].0 == k
}

/// The value stored under `k`, if any.
pub open spec fn lookup<X>(s: Seq<(Seq<char>, X)>, k: Seq<char>) -> Option<X> {
    if has_key(s, k) {
        Some(s[key_index(s, k)].1)
    } else {
        None
    }
}

/// What a map insertion does to the entries: an entry with the same key is
/// overwritten in place; otherwise the new entry goes at the end.
pub open spec fn insert_entry<X>(s: Seq<(Seq<char>, X)>, k: Seq<char>, v: X) -> Seq<
    (Seq<char>, X),
> {
    if has_key(s, k) {
        s.update(key_index(s, k), (k, v))
    } else {
        s.push((k, v))
    }
}

/// The unique position of a key in a sequence of entries with distinct keys.
pub proof fn lemma_key_index_unique<X>(s: Seq<(Seq<char>, X)>, k: Seq<char>, i: int)
    requires
        distinct_keys(s),
        0 <= i < s.len(),
        s[i].0 == k,
    ensures
        has_key(s, k),
        key_index(s, k) == i,
        lookup(s, k) == Some(s[i].1),
{
    assert(has_key(s, k));
    let j = key_index(s, k);
    assert(s[j].0 == k);
}

/// Inserting keeps keys distinct.
pub proof fn lemma_insert_distinct<X>(s: Seq<(Seq<char>, X)>, k: Seq<char>, v: X)
    requires
        distinct_keys(s),
    ensures
        distinct_keys(insert_entry(s, k, v)),
        has_key(insert_entry(s, k, v), k),
        lookup(insert_entry(s, k, v), k) == Some(v),
        forall|k2: Seq<char>| k2 != k ==> lookup(#[trigger] insert_entry(s, k, v), k2) == lookup(s, k2),
{
    let t = insert_entry(s, k, v);
    if has_key(s, k) {
        let p = key_index(s, k);
        assert(distinct_keys(t)) by {
            assert forall|i: int, j: int|
                0 <= i < t.len() && 0 <= j < t.len() && i != j implies #[trigger] t[i].0
                != #[trigger] t[j].0 by {
                if i != p && j != p {
                    assert(s[i].0 != s[j].0);
                } else if i == p {
                    assert(s[j].0 != s[p].0);
                } else {
                    assert(s[i].0 != s[p].0);
                }
            }
        }
        lemma_key_index_unique(t, k, p);
        assert forall|k2: Seq<char>| k2 != k implies lookup(#[trigger] insert_entry(s, k, v), k2)
            == lookup(s, k2) by {
            if has_key(s, k2) {
                let q = key_index(s, k2);
                assert(q != p);
                lemma_key_index_unique(t, k2, q);
            }
            if has_key(t, k2) {
                let q = key_index(t, k2);
                assert(q != p);
                assert(s[q].0 == k2);
            }
        }
    } else {
        assert(distinct_keys(t)) by {
            assert forall|i: int, j: int|
                0 <= i < t.len() && 0 <= j < t.len() && i != j implies #[trigger] t[i].0
                != #[trigger] t[j].0 by {
                if i < s.len() && j < s.len() {
                    assert(s[i].0 != s[j].0);
                } else if i == s.len() {
                    assert(s[j].0 != k);
                } else {
                    assert(s[i].0 != k);
                }
            }
        }
        lemma_key_index_unique(t, k, s.len() as int);
        assert forall|k2: Seq<char>| k2 != k implies lookup(#[trigger] insert_entry(s, k, v), k2)
            == lookup(s, k2) by {
            if has_key(s, k2) {
                let q = key_index(s, k2);
                lemma_key_index_unique(t, k2, q);
            }
            if has_key(t, k2) {
                let q = key_index(t, k2);
                assert(q != s.len());
                assert(s[q].0 == k2);
            }
        }
    }
}

/// After an insertion, every entry is either the inserted one or an entry
/// that was there before, and every name that was there is still there.
pub proof fn lemma_insert_contents<X>(s: Seq<(Seq<char>, X)>, k: Seq<char>, v: X)
    ensures
        forall|e: (Seq<char>, X)| #[trigger] insert_entry(s, k, v).contains(e) ==> e == (k, v) || s.contains(e),
        forall|k2: Seq<char>| has_key(s, k2) ==> #[trigger] has_key(insert_entry(s, k, v), k2),
        has_key(insert_entry(s, k, v), k),
{
    let t = insert_entry(s, k, v);
    if has_key(s, k) {
        let p = key_index(s, k);
        assert(t[p] == (k, v));
        assert(t[p].0 == k);
        assert forall|e: (Seq<char>, X)| #[trigger] t.contains(e) implies e == (k, v) || s.contains(e) by {
            let m = choose|m: int| 0 <= m < t.len() && t[m] == e;
            if m != p {
                assert(s[m] == e);
            }
        }
        assert forall|k2: Seq<char>| has_key(s, k2) implies #[trigger] has_key(insert_entry(s, k, v), k2) by {
            let q = choose|q: int| 0 <= q < s.len() && #[trigger] s[q].0 == k2;
            if q == p {
                assert(t[p].0 == k2);
            } else {
                assert(t[q].0 == k2);
            }
        }
    } else {
        assert(t[s.len() as int] == (k, v));
        assert(t[s.len() as int].0 == k);
        assert forall|e: (Seq<char>, X)| #[trigger] t.contains(e) implies e == (k, v) || s.contains(e) by {
            let m = choose|m: int| 0 <= m < t.len() && t[m] == e;
            if m < s.len() {
                assert(s[m] == e);
            }
        }
        assert forall|k2: Seq<char>| has_key(s, k2) implies #[trigger] has_key(insert_entry(s, k, v), k2) by {
            let q = choose|q: int| 0 <= q < s.len() && #[trigger] s[q].0 == k2;
            assert(t[q].0 == k2);
        }
    }
}

/// A map from names to values, kept as a list of entries in insertion order
/// with no name occurring twice.
#[derive(Debug)]
pub struct NameMap<V> {
    entries: Vec<(String, V)>,
}

impl<V: View> View for NameMap<V> {
    type V = Seq<(Seq<char>, V::V)>;

    closed spec fn view(&self) -> Seq<(Seq<char>, V::V)> {
        self.entries@.map_values(|e: (String, V)| (e.0@, e.1@))
    }
}

impl<V> NameMap<V> {
    #[verifier::type_invariant]
    closed spec fn keys_distinct(self) -> bool {
        forall|i: int, j: int|
            0 <= i < self.entries@.len() && 0 <= j < self.entries@.len() && i != j
                ==> #[trigger] self.entries@[i].0@ != #[trigger] self.entries@[j].0@
    }
}

impl<V: Clone + View> Clone for NameMap<V> {
    /// A copy with the same names in the same order, each value cloned;
    /// where cloning a value keeps its view, the copy has the same view.
    fn clone(&self) -> (r: Self)
        ensures
            r@.len() == self@.len(),
            forall|i: int| 0 <= i < self@.len() ==> #[trigger] r@[i].0 == self@[i].0,
            (forall|a: V, b: V| cloned::<V>(a, b) ==> a@ == b@) ==> r@ == self@,
    {
        proof {
            use_type_invariant(self);
        }
        let mut entries: Vec<(String, V)> = Vec::new();
        let mut i: usize = 0;
        while i < self.entries.len()
            invariant
                i <= self.entries@.len(),
                entries@.len() == i,
                self.keys_distinct(),
                forall|k: int| 0 <= k < i ==> (#[trigger] entries@[k]).0@ == self.entries@[k].0@ && cloned::<V>(
                    self.entries@[k].1,
                    entries@[k].1,
                ),
            decreases self.entries@.len() - i,
        {
            let e = &self.entries[i];
            let name = e.0.clone();
            let value = e.1.clone();
            assert(cloned::<V>(e.1, value));
            entries.push((name, value));
            i = i + 1;
        }
        assert forall|a: int, b: int|
            0 <= a < entries@.len() && 0 <= b < entries@.len() && a != b implies #[trigger] entries@[a].0@
            != #[trigger] entries@[b].0@ by {
            assert(self.entries@[a].0@ != self.entries@[b].0@);
        }
        let r = NameMap { entries };
        proof {
            if forall|a: V, b: V| cloned::<V>(a, b) ==> a@ == b@ {
                assert forall|k: int| 0 <= k < self@.len() implies #[trigger] r@[k] == self@[k] by {
                    assert(cloned::<V>(self.entries@[k].1, r.entries@[k].1));
                }
                assert(r@ =~= self@);
            }
        }
        r
    }
}

impl<V: View> NameMap<V> {
    proof fn lemma_distinct(&self)
        requires
            self.keys_distinct(),
        ensures
            distinct_keys(self@),
    {
        let s = self@;
        assert forall|i: int, j: int| 0 <= i < s.len() && 0 <= j < s.len() && i != j implies #[trigger] s[i].0
            != #[trigger] s[j].0 by {
            assert(self.entries@[i].0@ != self.entries@[j].0@);
        }
    }

    proof fn lemma_entries_distinct(entries: Seq<(String, V)>, t: Seq<(Seq<char>, V::V)>)
        requires
            entries.map_values(|e: (String, V)| (e.0@, e.1@)) =~= t,
            distinct_keys(t),
        ensures
            forall|i: int, j: int|
                0 <= i < entries.len() && 0 <= j < entries.len() && i != j
                    ==> #[trigger] entries[i].0@ != #[trigger] entries[j].0@,
    {
        assert forall|i: int, j: int|
            0 <= i < entries.len() && 0 <= j < entries.len() && i != j implies #[trigger] entries[i].0@
            != #[trigger] entries[j].0@ by {
            assert(t[i].0 == entries[i].0@);
            assert(t[j].0 == entries[j].0@);
        }
    }

    /// An empty map.
    pub fn new() -> (m: Self)
        ensures
            m@ == Seq::<(Seq<char>, V::V)>::empty(),
            distinct_keys(m@),
    {
        let m = NameMap { entries: Vec::new() };
        assert(m@ =~= Seq::<(Seq<char>, V::V)>::empty());
        m
    }

    /// The number of entries.
    pub fn len(&self) -> (n: usize)
        ensures
            n == self@.len(),
            distinct_keys(self@),
    {
        proof {
            use_type_invariant(self);
            self.lemma_distinct();
        }
        self.entries.len()
    }

    /// The name and value of the entry at position `i`.
    pub fn entry(&self, i: usize) -> (r: (&String, &V))
        requires
            i < self@.len(),
        ensures
            r.0@ == self@[i as int].0,
            r.1@ == self@[i as int].1,
            distinct_keys(self@),
    {
        proof {
            use_type_invariant(self);
            self.lemma_distinct();
        }
        let e = &self.entries[i];
        (&e.0, &e.1)
    }

    /// The value stored under `key`, if any.
    pub fn get(&self, key: &str) -> (r: Option<&V>)
        ensures
            r is Some <==> has_key(self@, key@),
            r matches Some(v) ==> lookup(self@, key@) == Some(v@),
            distinct_keys(self@),
    {
        proof {
            use_type_invariant(self);
            self.lemma_distinct();
        }
        let k = key.to_owned();
        let mut i: usize = 0;
        while i < self.entries.len()
            invariant
                i <= self.entries@.len(),
                k@ == key@,
                distinct_keys(self@),
                forall|j: int| 0 <= j < i ==> #[trigger] self@[j].0 != key@,
            decreases self.entries@.len() - i,
        {
            if self.entries[i].0 == k {
                proof {
                    assert(self@[i as int].0 == key@);
                    lemma_key_index_unique(self@, key@, i as int);
                }
                return Some(&self.entries[i].1);
            }
            assert(self@[i as int].0 != key@);
            i = i + 1;
        }
        proof {
            if has_key(self@, key@) {
                let j = key_index(self@, key@);
                assert(self@[j].0 == key@);
            }
        }
        None
    }

    /// Whether some entry has the name `key`.
    pub fn contains_key(&self, key: &str) -> (r: bool)
        ensures
            r == has_key(self@, key@),
    {
        self.get(key).is_some()
    }

    /// Stores `value` under `key`, replacing the value of an entry with that
    /// name in place, or else appending a new entry.
    pub fn insert(&mut self, key: String, value: V)
        ensures
            final(self)@ == insert_entry(old(self)@, key@, value@),
            distinct_keys(final(self)@),
    {
        proof {
            use_type_invariant(&*self);
            self.lemma_distinct();
        }
        let ghost old_view = self@;
        let mut i: usize = 0;
        while i < self.entries.len()
            invariant
                i <= self.entries@.len(),
                self@ == old_view,
                old_view == old(self)@,
                distinct_keys(old_view),
                forall|j: int| 0 <= j < i ==> #[trigger] old_view[j].0 != key@,
            decreases self.entries@.len() - i,
        {
            if self.entries[i].0 == key {
                proof {
                    lemma_key_index_unique(old_view, key@, i as int);
                    lemma_insert_distinct(old_view, key@, value@);
                }
                let mut entries = Vec::new();
                std::mem::swap(&mut entries, &mut self.entries);
                entries.set(i, (key, value));
                proof {
                    Self::lemma_entries_distinct(entries@, insert_entry(old_view, key@, value@));
                }
                self.entries = entries;
                assert(self@ =~= insert_entry(old_view, key@, value@));
                return;
            }
            assert(old_view[i as int].0 != key@);
            i = i + 1;
        }
        proof {
            if has_key(old_view, key@) {
                let j = key_index(old_view, key@);
                assert(old_view[j].0 == key@);
            }
            lemma_insert_distinct(old_view, key@, value@);
        }
        let mut entries = Vec::new();
        std::mem::swap(&mut entries, &mut self.entries);
        entries.push((key, value));
        proof {
            Self::lemma_entries_distinct(entries@, insert_entry(old_view, key@, value@));
        }
        self.entries = entries;
        assert(self@ =~= insert_entry(old_view, key@, value@));
    }
}

} // verus!
