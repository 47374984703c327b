//! A small map keyed by strings.
use vstd::prelude::*;

verus! {

/// What a list of entries maps each key to: a later entry overrides an
/// earlier one.
spec fn assoc<V>(entries: Seq<(String, V)>) -> Map<Seq<char>, V>
    decreases entries.len(),
{
    if entries.len() == 0 {
        Map::empty()
    } else {
        assoc(entries.drop_last()).insert(entries.last().0@, entries.last().1)
    }
}

/// A map from strings to values, kept as a list of entries.
#[derive(Debug, Clone)]
pub struct StrMap<V> {
    entries: Vec<(String, V)>,
}

impl<V> View for StrMap<V> {
    type V = Map<Seq<char>, V>;

    closed spec fn view(&self) -> Map<Seq<char>, V> {
        assoc(self.entries@)
    }
}

proof fn lemma_assoc_contains<V>(s: Seq<(String, V)>, k: Seq<char>)
    ensures
        assoc(s).contains_key(k) <==> exists|i: int| 0 <= i < s.len() && (#[trigger] s[i]).0@ == k,
    decreases s.len(),
{
    if s.len() > 0 {
        let d = s.drop_last();
        lemma_assoc_contains(d, k);
        if assoc(s).contains_key(k) {
            if s.last().0@ == k {
                assert(s[s.len() - 1].0@ == k);
            } else {
                let i = choose|i: int| 0 <= i < d.len() && (#[trigger] d[i]).0@ == k;
                assert(s[i].0@ == k);
            }
        }
        if exists|i: int| 0 <= i < s.len() && (#[trigger] s[i]).0@ == k {
            let i = choose|i: int| 0 <= i < s.len() && (#[trigger] s[i]).0@ == k;
            if i < d.len() {
                assert(d[i].0@ == k);
            }
        }
    }
}

/// The last entry of a key decides its value.
proof fn lemma_assoc_last<V>(s: Seq<(String, V)>, i: int, k: Seq<char>)
    requires
        0 <= i < s.len(),
        s[i].0@ == k,
        forall|j: int| i < j < s.len() ==> (#[trigger] s[j]).0@ != k,
    ensures
        assoc(s).contains_key(k),
        assoc(s)[k] == s[i].1,
    decreases s.len(),
{
    if i < s.len() - 1 {
        let d = s.drop_last();
        assert(s[s.len() - 1].0@ != k);
        assert forall|j: int| i < j < d.len() implies (#[trigger] d[j]).0@ != k by {
            assert(s[j].0@ != k);
        }
        lemma_assoc_last(d, i, k);
    }
}

proof fn lemma_assoc_update<V>(s: Seq<(String, V)>, i: int, k: Seq<char>, e: (String, V))
    requires
        0 <= i < s.len(),
        s[i].0@ == k,
        e.0@ == k,
        forall|j: int| i < j < s.len() ==> (#[trigger] s[j]).0@ != k,
    ensures
        assoc(s.update(i, e)) =~= assoc(s).insert(k, e.1),
    decreases s.len(),
{
    let t = s.update(i, e);
    if i == s.len() - 1 {
        assert(t.drop_last() =~= s.drop_last());
    } else {
        let d = s.drop_last();
        assert(s[s.len() - 1].0@ != k);
        assert forall|j: int| i < j < d.len() implies (#[trigger] d[j]).0@ != k by {
            assert(s[j].0@ != k);
        }
        lemma_assoc_update(d, i, k, e);
        assert(t.drop_last() =~= d.update(i, e));
        assert(t.last() == s.last());
    }
}

proof fn lemma_assoc_remove<V>(s: Seq<(String, V)>, i: int, k: Seq<char>)
    requires
        0 <= i < s.len(),
        s[i].0@ == k,
    ensures
        assoc(s.remove(i)).remove(k) =~= assoc(s).remove(k),
    decreases s.len(),
{
    let t = s.remove(i);
    if i == s.len() - 1 {
        assert(t =~= s.drop_last());
        assert(assoc(s) == assoc(t).insert(k, s.last().1));
        assert(assoc(s).remove(k) =~= assoc(t).remove(k));
    } else {
        let d = s.drop_last();
        lemma_assoc_remove(d, i, k);
        assert(t.drop_last() =~= d.remove(i));
        assert(t.len() == s.len() - 1);
        assert(t.last() == s.last());
        let a = assoc(t.drop_last());
        let b = assoc(d);
        let l = s.last();
        assert(assoc(t) == a.insert(l.0@, l.1));
        assert(assoc(s) == b.insert(l.0@, l.1));
        assert(a.remove(k) == b.remove(k));
        if l.0@ == k {
            assert(a.insert(k, l.1).remove(k) =~= a.remove(k));
            assert(b.insert(k, l.1).remove(k) =~= b.remove(k));
        } else {
            assert(a.insert(l.0@, l.1).remove(k) =~= a.remove(k).insert(l.0@, l.1));
            assert(b.insert(l.0@, l.1).remove(k) =~= b.remove(k).insert(l.0@, l.1));
        }
    }
}

impl<V: Copy> StrMap<V> {
    /// The empty map.
    pub fn new() -> (r: Self)
        ensures
            r@ == Map::<Seq<char>, V>::empty(),
    {
        StrMap { entries: Vec::new() }
    }

    /// The value under a key.
    pub fn get(&self, key: &String) -> (r: Option<V>)
        ensures
            r is Some <==> self@.contains_key(key@),
            r matches Some(v) ==> v == self@[key@],
    {
        let mut i: usize = self.entries.len();
        while i > 0
            invariant
                i <= self.entries.len(),
                forall|j: int| i <= j < self.entries.len() ==> (#[trigger] self.entries[j]).0@ != key@,
            decreases i,
        {
            i = i - 1;
            if self.entries[i].0 == *key {
                proof {
                    lemma_assoc_last(self.entries@, i as int, key@);
                }
                return Some(self.entries[i].1);
            }
        }
        proof {
            lemma_assoc_contains(self.entries@, key@);
        }
        None
    }

    /// Whether a key is mapped.
    pub fn contains(&self, key: &String) -> (r: bool)
        ensures
            r == self@.contains_key(key@),
    {
        self.get(key).is_some()
    }

    /// Map a key to a value, in place of what it was mapped to.
    pub fn insert(&mut self, key: String, value: V)
        ensures
            final(self)@ == old(self)@.insert(key@, value),
    {
        let mut i: usize = self.entries.len();
        while i > 0
            invariant
                i <= self.entries.len(),
                self.entries@ == old(self).entries@,
                forall|j: int| i <= j < self.entries.len() ==> (#[trigger] self.entries[j]).0@ != key@,
            decreases i,
        {
            i = i - 1;
            if self.entries[i].0 == key {
                proof {
                    lemma_assoc_update(self.entries@, i as int, key@, (key, value));
                }
                self.entries.set(i, (key, value));
                return;
            }
        }
        self.entries.push((key, value));
        proof {
            assert(self.entries@.drop_last() =~= old(self).entries@);
        }
    }

    /// Unmap a key; a key that is not mapped leaves the map as it was.
    /// Returns what the key was mapped to.
    pub fn remove(&mut self, key: &String) -> (r: Option<V>)
        ensures
            final(self)@ == old(self)@.remove(key@),
            r is Some <==> old(self)@.contains_key(key@),
            r matches Some(v) ==> v == old(self)@[key@],
    {
        let found = self.get(key);
        let mut i: usize = 0;
        while i < self.entries.len()
            invariant
                i <= self.entries.len(),
                forall|j: int| 0 <= j < i ==> (#[trigger] self.entries[j]).0@ != key@,
                assoc(self.entries@).remove(key@) == old(self)@.remove(key@),
            decreases self.entries.len() - i,
        {
            if self.entries[i].0 == *key {
                proof {
                    lemma_assoc_remove(self.entries@, i as int, key@);
                }
                self.entries.remove(i);
            } else {
                i = i + 1;
            }
        }
        proof {
            lemma_assoc_contains(self.entries@, key@);
            assert(assoc(self.entries@).remove(key@) =~= assoc(self.entries@));
        }
        found
    }

    /// Whether nothing is mapped.
    pub fn is_empty(&self) -> (r: bool)
        ensures
            r == (self@ == Map::<Seq<char>, V>::empty()),
    {
        proof {
            if self.entries@.len() > 0 {
                assert(self@.contains_key(self.entries@.last().0@));
            }
        }
        self.entries.len() == 0
    }

    /// The keys that are mapped, each once.
    pub fn keys(&self) -> (r: Vec<String>)
        ensures
            forall|k: Seq<char>| #[trigger]
                self@.contains_key(k) <==> exists|i: int| 0 <= i < r@.len() && (#[trigger] r@[i])@ == k,
            forall|i: int, j: int|
                0 <= i < j < r@.len() ==> (#[trigger] r@[i])@ != (#[trigger] r@[j])@,
    {
        let ghost e = self.entries@;
        // Where each entry's key was put, and the entry each was put for.
        let ghost mut place: Seq<int> = Seq::empty();
        let ghost mut entry: Seq<int> = Seq::empty();
        let mut out: Vec<String> = Vec::new();
        let mut i: usize = 0;
        while i < self.entries.len()
            invariant
                e == self.entries@,
                i <= e.len(),
                place.len() == i,
                entry.len() == out@.len(),
                forall|a: int|
                    0 <= a < i ==> 0 <= #[trigger] place[a] < out@.len() && out@[place[a]]@
                        == e[a].0@,
                forall|b: int|
                    0 <= b < out@.len() ==> 0 <= #[trigger] entry[b] < i && e[entry[b]].0@
                        == out@[b]@,
                forall|a: int, b: int|
                    0 <= a < b < out@.len() ==> (#[trigger] out@[a])@ != (#[trigger] out@[b])@,
            decreases e.len() - i,
        {
            let key = &self.entries[i].0;
            let mut k: usize = 0;
            while k < out.len() && out[k] != *key
                invariant
                    k <= out@.len(),
                    forall|b: int| 0 <= b < k ==> (#[trigger] out@[b])@ != key@,
                decreases out@.len() - k,
            {
                k = k + 1;
            }
            let ghost had = out@;
            if k == out.len() {
                out.push(key.clone());
                proof {
                    entry = entry.push(i as int);
                }
            }
            proof {
                place = place.push(k as int);
                assert forall|a: int| 0 <= a < i + 1 implies 0 <= #[trigger] place[a] < out@.len()
                    && out@[place[a]]@ == e[a].0@ by {
                    if a < i {
                        assert(out@[place[a]] == had[place[a]]);
                    }
                }
            }
            i = i + 1;
        }
        proof {
            assert forall|k: Seq<char>| #[trigger] self@.contains_key(k) <==> exists|b: int|
                0 <= b < out@.len() && (#[trigger] out@[b])@ == k by {
                lemma_assoc_contains(e, k);
                if self@.contains_key(k) {
                    let a = choose|a: int| 0 <= a < e.len() && (#[trigger] e[a]).0@ == k;
                    assert(out@[place[a]]@ == k);
                }
                if exists|b: int| 0 <= b < out@.len() && (#[trigger] out@[b])@ == k {
                    let b = choose|b: int| 0 <= b < out@.len() && (#[trigger] out@[b])@ == k;
                    assert(e[entry[b]].0@ == k);
                }
            }
        }
        out
    }

    /// Unmap every key.
    pub fn clear(&mut self)
        ensures
            final(self)@ == Map::<Seq<char>, V>::empty(),
    {
        self.entries.clear();
    }
}

} // verus!
