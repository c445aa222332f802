//! A small map over distinct keys, kept in insertion order.

use vstd::prelude::*;

use crate::text::str_eq;

verus! {

/// A key that can be looked up by a borrowed form of itself.
pub trait MapKey: View + Sized {
    /// What a lookup is made with.
    type Query: ?Sized;

    /// The mathematical key that a query stands for.
    spec fn query_view(q: &Self::Query) -> Self::V;

    /// Whether this key is the one that `q` asks for.
    fn matches(&self, q: &Self::Query) -> (r: bool)
        ensures
            r == (self@ == Self::query_view(q)),
    ;

    /// This key as a query.
    fn as_query(&self) -> (q: &Self::Query)
        ensures
            Self::query_view(q) == self@,
    ;
}

impl MapKey for String {
    type Query = str;

    open spec fn query_view(q: &str) -> Seq<char> {
        q@
    }

    fn matches(&self, q: &str) -> (r: bool) {
        str_eq(self.as_str(), q)
    }

    fn as_query(&self) -> (q: &str) {
        self.as_str()
    }
}

impl MapKey for u16 {
    type Query = u16;

    open spec fn query_view(q: &u16) -> u16 {
        *q
    }

    fn matches(&self, q: &u16) -> (r: bool) {
        *self == *q
    }

    fn as_query(&self) -> (q: &u16) {
        self
    }
}

/// Whether some entry of `s` has the key `k`.
pub open spec fn has_key<K: View, V>(s: Seq<(K, V)>, k: K::V) -> bool {
    exists|i: int| 0 <= i < s.len() && (#[trigger] s[i]).0@ == k
}

/// An index at which `k` stands in `s`.
pub open spec fn key_index<K: View, V>(s: Seq<(K, V)>, k: K::V) -> int {
    choose|i: int| 0 <= i < s.len() && (#[trigger] s[i]).0@ == k
}

/// No key occurs twice.
pub open spec fn distinct_keys<K: View, V>(s: Seq<(K, V)>) -> bool {
    forall|i: int, j: int|
        0 <= i < s.len() && 0 <= j < s.len() && i != j ==> (#[trigger] s[i]).0@ != (
        #[trigger] s[j]).0@
}

/// The map that a sequence of entries with distinct keys stands for.
pub open spec fn entries_map<K: View, V>(s: Seq<(K, V)>) -> Map<K::V, V> {
    Map::new(|k: K::V| has_key(s, k), |k: K::V| s[key_index(s, k)].1)
}

/// The keys of a sequence of entries.
pub open spec fn entry_keys<K: View, V>(s: Seq<(K, V)>) -> Seq<K::V> {
    Seq::new(s.len(), |i: int| s[i].0@)
}

/// A map over distinct keys.
pub struct VecMap<K: MapKey, V> {
    entries: Vec<(K, V)>,
}

/// A map over text keys.
pub type StrMap<V> = VecMap<String, V>;

/// A map over miner uids.
pub type UidMap<V> = VecMap<u16, V>;

proof fn lemma_entry<K: View, V>(s: Seq<(K, V)>, i: int)
    requires
        distinct_keys(s),
        0 <= i < s.len(),
    ensures
        entries_map(s).contains_key(s[i].0@),
        entries_map(s)[s[i].0@] == s[i].1,
        key_index(s, s[i].0@) == i,
{
    let k = s[i].0@;
    assert(has_key(s, k));
    let j = key_index(s, k);
    assert(0 <= j < s.len() && s[j].0@ == k);
    if i != j {
        assert(s[i].0@ != s[j].0@);
    }
}

proof fn lemma_push<K: View, V>(s: Seq<(K, V)>, k: K, v: V)
    requires
        distinct_keys(s),
        !has_key(s, k@),
    ensures
        distinct_keys(s.push((k, v))),
        entries_map(s.push((k, v))) == entries_map(s).insert(k@, v),
{
    let t = s.push((k, v));
    assert(distinct_keys(t)) by {
        assert forall|i: int, j: int| 0 <= i < t.len() && 0 <= j < t.len() && i != j implies (
        #[trigger] t[i]).0@ != (#[trigger] t[j]).0@ by {
            if i < s.len() && j < s.len() {
                assert(s[i].0@ != s[j].0@);
            } else if i < s.len() {
                assert(s[i].0@ != k@);
            } else {
                assert(s[j].0@ != k@);
            }
        }
    }
    let a = entries_map(t);
    let b = entries_map(s).insert(k@, v);
    lemma_entry(t, s.len() as int);
    assert forall|q: K::V| a.contains_key(q) == b.contains_key(q) by {
        if has_key(s, q) {
            let i = key_index(s, q);
            assert(t[i].0@ == q);
        }
        if has_key(t, q) && q != k@ {
            let i = key_index(t, q);
            assert(s[i].0@ == q);
        }
    }
    assert forall|q: K::V| a.contains_key(q) implies a[q] == b[q] by {
        if q != k@ {
            let i = key_index(t, q);
            assert(t[i].0@ == q && i < s.len());
            lemma_entry(s, i);
            lemma_entry(t, i);
        }
    }
    assert(a =~= b);
}

proof fn lemma_update<K: View, V>(s: Seq<(K, V)>, i: int, k: K, v: V)
    requires
        distinct_keys(s),
        0 <= i < s.len(),
        s[i].0@ == k@,
    ensures
        distinct_keys(s.update(i, (k, v))),
        entries_map(s.update(i, (k, v))) == entries_map(s).insert(k@, v),
{
    let t = s.update(i, (k, v));
    assert forall|a: int| 0 <= a < s.len() implies (#[trigger] t[a]).0@ == s[a].0@ by {}
    assert(distinct_keys(t));
    let a = entries_map(t);
    let b = entries_map(s).insert(k@, v);
    lemma_entry(t, i);
    assert forall|q: K::V| a.contains_key(q) == b.contains_key(q) by {
        if has_key(s, q) {
            assert(t[key_index(s, q)].0@ == q);
        }
        if has_key(t, q) {
            assert(s[key_index(t, q)].0@ == q);
        }
    }
    assert forall|q: K::V| a.contains_key(q) implies a[q] == b[q] by {
        if q != k@ {
            let j = key_index(t, q);
            assert(s[j].0@ == q && j != i);
            lemma_entry(s, j);
            lemma_entry(t, j);
        }
    }
    assert(a =~= b);
}

proof fn lemma_remove<K: View, V>(s: Seq<(K, V)>, i: int)
    requires
        distinct_keys(s),
        0 <= i < s.len(),
    ensures
        distinct_keys(s.remove(i)),
        entries_map(s.remove(i)) == entries_map(s).remove(s[i].0@),
{
    let t = s.remove(i);
    assert forall|a: int| 0 <= a < t.len() implies #[trigger] t[a] == s[if a < i { a } else { a + 1 }] by {}
    assert(distinct_keys(t)) by {
        assert forall|a: int, b: int| 0 <= a < t.len() && 0 <= b < t.len() && a != b implies (
        #[trigger] t[a]).0@ != (#[trigger] t[b]).0@ by {
            let a2 = if a < i { a } else { a + 1 };
            let b2 = if b < i { b } else { b + 1 };
            assert(s[a2].0@ != s[b2].0@);
        }
    }
    let a = entries_map(t);
    let b = entries_map(s).remove(s[i].0@);
    assert forall|q: K::V| a.contains_key(q) == b.contains_key(q) by {
        if has_key(t, q) {
            let j = key_index(t, q);
            let j2 = if j < i { j } else { j + 1 };
            assert(s[j2].0@ == q);
            assert(s[j2].0@ != s[i].0@);
        }
        if has_key(s, q) && q != s[i].0@ {
            let j = key_index(s, q);
            let j2 = if j < i { j } else { j - 1 };
            assert(t[j2].0@ == q);
        }
    }
    assert forall|q: K::V| a.contains_key(q) implies a[q] == b[q] by {
        let j = key_index(t, q);
        let j2 = if j < i { j } else { j + 1 };
        assert(s[j2].0@ == q);
        lemma_entry(s, j2);
        lemma_entry(t, j);
    }
    assert(a =~= b);
}

proof fn lemma_len<K: View, V>(s: Seq<(K, V)>)
    requires
        distinct_keys(s),
    ensures
        entries_map(s).dom().finite(),
        entries_map(s).dom().len() == s.len(),
        entries_map(s).dom() == entry_keys(s).to_set(),
        entry_keys(s).no_duplicates(),
{
    let keys = entry_keys(s);
    assert(keys.no_duplicates()) by {
        assert forall|i: int, j: int| 0 <= i < keys.len() && 0 <= j < keys.len() && i != j implies keys[i] != keys[j] by {
            assert(s[i].0@ != s[j].0@);
        }
    }
    keys.unique_seq_to_set();
    assert(entries_map(s).dom() =~= keys.to_set()) by {
        assert forall|q: K::V| entries_map(s).dom().contains(q) == keys.to_set().contains(q) by {
            if has_key(s, q) {
                assert(keys[key_index(s, q)] == q);
            }
            if keys.contains(q) {
                let i = choose|i: int| 0 <= i < keys.len() && keys[i] == q;
                assert(s[i].0@ == q);
            }
        }
    }
}

impl<K: MapKey, V> View for VecMap<K, V> {
    type V = Map<K::V, V>;

    closed spec fn view(&self) -> Map<K::V, V> {
        entries_map(self.entries@)
    }
}

impl<K: MapKey, V> VecMap<K, V> {
    #[verifier::type_invariant]
    spec fn keys_are_distinct(self) -> bool {
        distinct_keys(self.entries@)
    }

    /// The entries in the order in which their keys came in.
    pub closed spec fn entries(&self) -> Seq<(K, V)> {
        self.entries@
    }

    /// A map without entries.
    pub fn new() -> (m: Self)
        ensures
            m@ == Map::<K::V, V>::empty(),
            m.entries().len() == 0,
    {
        let m = VecMap { entries: Vec::new() };
        proof {
            assert(m@ =~= Map::<K::V, V>::empty());
        }
        m
    }

    /// How many entries there are: one for each key, each with the key's value.
    pub fn len(&self) -> (n: usize)
        ensures
            self@.dom().finite(),
            n == self@.dom().len(),
            n == self.entries().len(),
            distinct_keys(self.entries()),
            self@ == entries_map(self.entries()),
            forall|i: int|
                0 <= i < self.entries().len() ==> {
                    &&& self@.contains_key((#[trigger] self.entries()[i]).0@)
                    &&& self@[self.entries()[i].0@] == self.entries()[i].1
                },
            forall|k: K::V|
                self@.contains_key(k) ==> exists|i: int|
                    0 <= i < self.entries().len() && (#[trigger] self.entries()[i]).0@ == k,
    {
        proof {
            use_type_invariant(self);
            let s = self.entries@;
            lemma_len(s);
            assert forall|i: int| 0 <= i < s.len() implies {
                &&& self@.contains_key((#[trigger] s[i]).0@)
                &&& self@[s[i].0@] == s[i].1
            } by {
                lemma_entry(s, i);
            }
            assert forall|k: K::V| self@.contains_key(k) implies exists|i: int|
                0 <= i < s.len() && (#[trigger] s[i]).0@ == k by {
                assert(has_key(s, k));
            }
        }
        self.entries.len()
    }

    /// Whether there are no entries.
    pub fn is_empty(&self) -> (r: bool)
        ensures
            r == (self@ == Map::<K::V, V>::empty()),
            r == (self.entries().len() == 0),
    {
        proof {
            if self.entries@.len() == 0 {
                assert(self@ =~= Map::<K::V, V>::empty());
            } else {
                use_type_invariant(self);
                lemma_entry(self.entries@, 0);
            }
        }
        self.entries.len() == 0
    }

    fn position(&self, q: &K::Query) -> (r: Option<usize>)
        ensures
            match r {
                Some(i) => i < self.entries@.len() && self.entries@[i as int].0@ == K::query_view(q),
                None => !has_key(self.entries@, K::query_view(q)),
            },
    {
        let mut i: usize = 0;
        while i < self.entries.len()
            invariant
                i <= self.entries@.len(),
                forall|j: int| 0 <= j < i ==> (#[trigger] self.entries@[j]).0@ != K::query_view(q),
            decreases self.entries@.len() - i,
        {
            if self.entries[i].0.matches(q) {
                return Some(i);
            }
            i += 1;
        }
        None
    }

    /// Whether the map holds the key.
    pub fn contains_key(&self, q: &K::Query) -> (r: bool)
        ensures
            r == self@.contains_key(K::query_view(q)),
    {
        match self.position(q) {
            Some(i) => {
                proof {
                    use_type_invariant(self);
                    lemma_entry(self.entries@, i as int);
                }
                true
            },
            None => false,
        }
    }

    /// The value under a key, if the map holds it.
    pub fn get(&self, q: &K::Query) -> (r: Option<&V>)
        ensures
            match r {
                Some(v) => self@.contains_key(K::query_view(q)) && *v == self@[K::query_view(q)],
                None => !self@.contains_key(K::query_view(q)),
            },
    {
        match self.position(q) {
            Some(i) => {
                proof {
                    use_type_invariant(self);
                    lemma_entry(self.entries@, i as int);
                }
                Some(&self.entries[i].1)
            },
            None => None,
        }
    }

    /// The key that stands at position `i`.
    pub fn key_at(&self, i: usize) -> (k: &K)
        requires
            i < self.entries().len(),
        ensures
            *k == self.entries()[i as int].0,
    {
        &self.entries[i].0
    }

    /// The value that stands at position `i`.
    pub fn value_at(&self, i: usize) -> (v: &V)
        requires
            i < self.entries().len(),
        ensures
            *v == self.entries()[i as int].1,
    {
        &self.entries[i].1
    }

    /// Puts a value under a key, and hands back the value it replaces.
    pub fn insert(&mut self, k: K, v: V) -> (r: Option<V>)
        ensures
            final(self)@ == old(self)@.insert(k@, v),
            match r {
                Some(x) => old(self)@.contains_key(k@) && x == old(self)@[k@],
                None => !old(self)@.contains_key(k@),
            },
            final(self).entries().len() == old(self).entries().len() + (if r is Some {
                0int
            } else {
                1int
            }),
    {
        proof {
            use_type_invariant(&*self);
        }
        let found = self.position(k.as_query());
        let mut entries: Vec<(K, V)> = Vec::new();
        std::mem::swap(&mut entries, &mut self.entries);
        let ghost before = entries@;
        match found {
            Some(i) => {
                proof {
                    lemma_update(before, i as int, k, v);
                    lemma_entry(before, i as int);
                }
                entries.push((k, v));
                let out = entries.swap_remove(i);
                proof {
                    assert(entries@ =~= before.update(i as int, (k, v)));
                }
                self.entries = entries;
                Some(out.1)
            },
            None => {
                proof {
                    lemma_push(before, k, v);
                }
                entries.push((k, v));
                self.entries = entries;
                None
            },
        }
    }

    /// Takes a key out, and hands back the value that stood under it.
    pub fn remove(&mut self, q: &K::Query) -> (r: Option<V>)
        ensures
            final(self)@ == old(self)@.remove(K::query_view(q)),
            match r {
                Some(x) => old(self)@.contains_key(K::query_view(q)) && x == old(self)@[K::query_view(
                    q,
                )],
                None => !old(self)@.contains_key(K::query_view(q)),
            },
            final(self).entries().len() == old(self).entries().len() - (if r is Some {
                1int
            } else {
                0int
            }),
    {
        proof {
            use_type_invariant(&*self);
        }
        match self.position(q) {
            Some(i) => {
                let mut entries: Vec<(K, V)> = Vec::new();
                std::mem::swap(&mut entries, &mut self.entries);
                let ghost before = entries@;
                proof {
                    lemma_remove(before, i as int);
                    lemma_entry(before, i as int);
                }
                let out = entries.remove(i);
                self.entries = entries;
                Some(out.1)
            },
            None => {
                proof {
                    assert(self@ =~= self@.remove(K::query_view(q)));
                }
                None
            },
        }
    }

    /// Takes the entry at position `i` out.
    pub fn remove_at(&mut self, i: usize) -> (r: (K, V))
        requires
            i < old(self).entries().len(),
        ensures
            r == old(self).entries()[i as int],
            final(self).entries() == old(self).entries().remove(i as int),
            final(self)@ == old(self)@.remove(old(self).entries()[i as int].0@),
    {
        proof {
            use_type_invariant(&*self);
        }
        let mut entries: Vec<(K, V)> = Vec::new();
        std::mem::swap(&mut entries, &mut self.entries);
        proof {
            lemma_remove(entries@, i as int);
        }
        let out = entries.remove(i);
        self.entries = entries;
        out
    }

    /// Puts a value in the place of the one at position `i`.
    pub fn set_at(&mut self, i: usize, v: V) -> (r: V)
        requires
            i < old(self).entries().len(),
        ensures
            r == old(self).entries()[i as int].1,
            final(self).entries() == old(self).entries().update(
                i as int,
                (old(self).entries()[i as int].0, v),
            ),
            final(self)@ == old(self)@.insert(old(self).entries()[i as int].0@, v),
    {
        proof {
            use_type_invariant(&*self);
        }
        let mut entries: Vec<(K, V)> = Vec::new();
        std::mem::swap(&mut entries, &mut self.entries);
        let ghost before = entries@;
        proof {
            lemma_update(before, i as int, before[i as int].0, v);
        }
        let (k, out) = entries.remove(i);
        entries.insert(i, (k, v));
        proof {
            assert(entries@ =~= before.update(i as int, (k, v)));
        }
        self.entries = entries;
        out
    }

    /// Takes every entry out.
    pub fn clear(&mut self)
        ensures
            final(self)@ == Map::<K::V, V>::empty(),
            final(self).entries().len() == 0,
    {
        self.entries = Vec::new();
        proof {
            assert(self@ =~= Map::<K::V, V>::empty());
        }
    }
}

} // verus!
