//! Maps keyed by text, kept in ascending key order: the ordered maps of
//! configuration values, required keys and secret references.
use vstd::prelude::*;
use crate::text::{
    lemma_seq_le_antisym, lemma_seq_le_total, lemma_seq_le_trans, seq_le, seq_lt, str_eq,
    str_le, views,
};

verus! {

/// The value of the first entry whose key is `key`.
pub open spec fn find_entry<V>(s: Seq<(String, V)>, key: Seq<char>) -> Option<V>
    decreases s.len(),
{
    if s.len() == 0 {
        None
    } else if s[0].0@ == key {
        Some(s[0].1)
    } else {
        find_entry(s.drop_first(), key)
    }
}

/// No two entries share a key.
pub open spec fn keys_distinct<V>(s: Seq<(String, V)>) -> bool {
    forall|i: int, j: int| 0 <= i < j < s.len() ==> s[i].0@ != s[j].0@
}

/// The keys of the entries.
pub open spec fn entry_keys<V>(s: Seq<(String, V)>) -> Seq<Seq<char>> {
    s.map_values(|e: (String, V)| e.0@)
}

/// Texts in strictly ascending order.
pub open spec fn sorted_strict(s: Seq<Seq<char>>) -> bool {
    forall|i: int, j: int| 0 <= i < j < s.len() ==> seq_lt(s[i], s[j])
}

/// Keys strictly ascending.
pub open spec fn keys_ascending<V>(s: Seq<(String, V)>) -> bool {
    forall|i: int, j: int| 0 <= i < j < s.len() ==> seq_lt(s[i].0@, s[j].0@)
}

/// Ascending keys are distinct.
pub proof fn lemma_ascending_distinct<V>(s: Seq<(String, V)>)
    requires
        keys_ascending(s),
    ensures
        keys_distinct(s),
{
    assert forall|i: int, j: int| 0 <= i < j < s.len() implies s[i].0@ != s[j].0@ by {
        assert(seq_lt(s[i].0@, s[j].0@));
    }
}

/// With distinct keys, the entry at `i` is the one found under its key.
pub proof fn lemma_find_entry_at<V>(s: Seq<(String, V)>, i: int)
    requires
        keys_distinct(s),
        0 <= i < s.len(),
    ensures
        find_entry(s, s[i].0@) == Some(s[i].1),
    decreases s.len(),
{
    if i > 0 {
        assert(s[0].0@ != s[i].0@);
        let t = s.drop_first();
        assert(keys_distinct(t)) by {
            assert forall|a: int, b: int| 0 <= a < b < t.len() implies t[a].0@ != t[b].0@ by {
                assert(t[a] == s[a + 1] && t[b] == s[b + 1]);
            }
        }
        assert(t[i - 1] == s[i]);
        lemma_find_entry_at(t, i - 1);
    }
}

/// A key that no entry carries is not found.
pub proof fn lemma_find_entry_absent<V>(s: Seq<(String, V)>, key: Seq<char>)
    requires
        forall|i: int| 0 <= i < s.len() ==> s[i].0@ != key,
    ensures
        find_entry(s, key) is None,
    decreases s.len(),
{
    if s.len() > 0 {
        let t = s.drop_first();
        assert forall|i: int| 0 <= i < t.len() implies t[i].0@ != key by {
            assert(t[i] == s[i + 1]);
        }
        lemma_find_entry_absent(t, key);
    }
}

/// A found value sits at some entry with that key.
pub proof fn lemma_find_entry_some<V>(s: Seq<(String, V)>, key: Seq<char>)
    requires
        find_entry(s, key) is Some,
    ensures
        exists|i: int| 0 <= i < s.len() && s[i].0@ == key && find_entry(s, key) == Some(s[i].1),
    decreases s.len(),
{
    if s[0].0@ != key {
        lemma_find_entry_some(s.drop_first(), key);
        let i = choose|i: int|
            0 <= i < s.drop_first().len() && s.drop_first()[i].0@ == key && find_entry(
                s.drop_first(),
                key,
            ) == Some(s.drop_first()[i].1);
        assert(s[i + 1] == s.drop_first()[i]);
    }
}

/// Finding a key after appending an entry: an earlier entry wins.
pub proof fn lemma_find_entry_push<V>(s: Seq<(String, V)>, e: (String, V), key: Seq<char>)
    ensures
        find_entry(s.push(e), key) == match find_entry(s, key) {
            Some(v) => Some(v),
            None => if e.0@ == key {
                Some(e.1)
            } else {
                None
            },
        },
    decreases s.len(),
{
    if s.len() > 0 {
        assert(s.push(e)[0] == s[0]);
        assert(s.push(e).drop_first() =~= s.drop_first().push(e));
        lemma_find_entry_push(s.drop_first(), e, key);
    } else {
        reveal_with_fuel(find_entry, 2);
        assert(s.push(e)[0] == e);
        assert(s.push(e).drop_first() =~= Seq::<(String, V)>::empty());
    }
}

/// A map from text keys to values, its entries in ascending key order.
#[derive(Debug, PartialEq, Eq)]
pub struct StrMap<V> {
    pub(crate) entries: Vec<(String, V)>,
}

impl<V> StrMap<V> {
    #[verifier::type_invariant]
    spec fn inv(self) -> bool {
        keys_ascending(self.entries@)
    }

    /// The entries, in ascending key order.
    pub closed spec fn items(self) -> Seq<(String, V)> {
        self.entries@
    }

    /// The value under a key.
    pub open spec fn lookup(self, key: Seq<char>) -> Option<V> {
        find_entry(self.items(), key)
    }

    /// The empty map.
    pub fn new() -> (m: Self)
        ensures
            m.items().len() == 0,
            forall|k: Seq<char>| m.lookup(k) is None,
    {
        StrMap { entries: Vec::new() }
    }

    /// A map holding these entries, which are in ascending key order.
    pub(crate) fn from_ascending(entries: Vec<(String, V)>) -> (m: Self)
        requires
            keys_ascending(entries@),
        ensures
            m.entries@ == entries@,
    {
        StrMap { entries }
    }

    /// The entries of the map are its items.
    pub(crate) proof fn lemma_items_are_entries(self)
        ensures
            self.items() == self.entries@,
    {
    }

    /// The entries, in ascending key order.
    pub fn entries(&self) -> (r: &Vec<(String, V)>)
        ensures
            r@ == self.items(),
            keys_ascending(r@),
    {
        proof {
            use_type_invariant(self);
        }
        &self.entries
    }

    /// Number of entries.
    pub fn len(&self) -> (r: usize)
        ensures
            r == self.items().len(),
    {
        self.entries.len()
    }

    /// Whether the map has no entry.
    pub fn is_empty(&self) -> (r: bool)
        ensures
            r == (self.items().len() == 0),
    {
        self.entries.len() == 0
    }

    /// The value under `key`.
    pub fn get(&self, key: &str) -> (r: Option<&V>)
        ensures
            match self.lookup(key@) {
                Some(v) => r matches Some(x) && *x == v,
                None => r is None,
            },
    {
        let s = &self.entries;
        proof {
            assert(s@.skip(0) =~= s@);
        }
        for i in 0..s.len()
            invariant
                s@ == self.items(),
                find_entry(s@, key@) == find_entry(s@.skip(i as int), key@),
        {
            proof {
                assert(s@.skip(i as int).drop_first() =~= s@.skip(i + 1));
                assert(s@.skip(i as int)[0] == s@[i as int]);
            }
            if str_eq(s[i].0.as_str(), key) {
                return Some(&s[i].1);
            }
        }
        proof {
            assert(s@.skip(s.len() as int).len() == 0);
        }
        None
    }

    /// Whether a value is stored under `key`.
    pub fn contains_key(&self, key: &str) -> (r: bool)
        ensures
            r == (self.lookup(key@) is Some),
    {
        self.get(key).is_some()
    }

    /// The keys, ascending; a text is among them exactly when the map holds
    /// a value under it.
    pub fn keys(&self) -> (r: Vec<String>)
        ensures
            views(r@) == entry_keys(self.items()),
            sorted_strict(views(r@)),
            forall|k: Seq<char>| #[trigger] views(r@).contains(k) <==> self.lookup(k) is Some,
    {
        proof {
            use_type_invariant(self);
        }
        let mut out: Vec<String> = Vec::new();
        for i in 0..self.entries.len()
            invariant
                views(out@) == entry_keys(self.entries@).take(i as int),
        {
            let ghost before = out@;
            let k = self.entries[i].0.clone();
            out.push(k);
            proof {
                assert(views(out@) =~= views(before).push(self.entries@[i as int].0@));
                assert(views(out@) =~= entry_keys(self.entries@).take(i + 1));
            }
        }
        proof {
            let es = self.entries@;
            assert(entry_keys(es).take(es.len() as int) =~= entry_keys(es));
            assert(views(out@) =~= entry_keys(es));
            lemma_ascending_distinct(es);
            assert forall|a: int, b: int| 0 <= a < b < views(out@).len() implies seq_lt(
                views(out@)[a],
                views(out@)[b],
            ) by {
                assert(seq_lt(es[a].0@, es[b].0@));
            }
            assert forall|k: Seq<char>| #[trigger] views(out@).contains(k) <==> self.lookup(k) is Some by {
                if views(out@).contains(k) {
                    let i = choose|i: int| 0 <= i < views(out@).len() && views(out@)[i] == k;
                    lemma_find_entry_at(es, i);
                }
                if self.lookup(k) is Some {
                    lemma_find_entry_some(es, k);
                    let i = choose|i: int|
                        0 <= i < es.len() && es[i].0@ == k && find_entry(es, k) == Some(es[i].1);
                    assert(views(out@)[i] == k);
                }
            }
        }
        out
    }

    /// Removes the value under `key` and returns it; the other keys keep
    /// their values.
    pub fn remove(&mut self, key: &str) -> (r: Option<V>)
        ensures
            r == old(self).lookup(key@),
            final(self).lookup(key@) is None,
            forall|k: Seq<char>| k != key@ ==> final(self).lookup(k) == old(self).lookup(k),
    {
        proof {
            use_type_invariant(&*self);
        }
        let ghost s = self.entries@;
        let mut found: Option<usize> = None;
        for i in 0..self.entries.len()
            invariant
                self.entries@ == s,
                found is None ==> forall|t: int| 0 <= t < i ==> s[t].0@ != key@,
                found matches Some(j) ==> j < s.len() && s[j as int].0@ == key@,
        {
            if found.is_none() && str_eq(self.entries[i].0.as_str(), key) {
                found = Some(i);
            }
        }
        match found {
            None => {
                proof {
                    lemma_find_entry_absent(s, key@);
                }
                None
            },
            Some(j) => {
                let ghost s2 = s.remove(j as int);
                proof {
                    lemma_ascending_distinct(s);
                    assert forall|a: int, b: int| 0 <= a < b < s2.len() implies seq_lt(
                        s2[a].0@,
                        s2[b].0@,
                    ) by {
                        let a0 = if a < j { a } else { a + 1 };
                        let b0 = if b < j { b } else { b + 1 };
                        assert(s2[a] == s[a0] && s2[b] == s[b0]);
                        assert(seq_lt(s[a0].0@, s[b0].0@));
                    }
                    lemma_ascending_distinct(s2);
                    assert forall|i: int| 0 <= i < s2.len() implies s2[i].0@ != key@ by {
                        let i0 = if i < j { i } else { i + 1 };
                        assert(s2[i] == s[i0]);
                    }
                    lemma_find_entry_absent(s2, key@);
                    assert forall|k: Seq<char>| k != key@ implies find_entry(s2, k) == find_entry(
                        s,
                        k,
                    ) by {
                        if exists|i: int| 0 <= i < s.len() && s[i].0@ == k {
                            let i = choose|i: int| 0 <= i < s.len() && s[i].0@ == k;
                            lemma_find_entry_at(s, i);
                            assert(i != j);
                            let i2 = if i < j { i } else { i - 1 };
                            assert(s2[i2] == s[i]);
                            lemma_find_entry_at(s2, i2);
                        } else {
                            lemma_find_entry_absent(s, k);
                            assert forall|i: int| 0 <= i < s2.len() implies s2[i].0@ != k by {
                                let i0 = if i < j { i } else { i + 1 };
                                assert(s2[i] == s[i0]);
                            }
                            lemma_find_entry_absent(s2, k);
                        }
                    }
                }
                let mut es: Vec<(String, V)> = Vec::new();
                std::mem::swap(&mut es, &mut self.entries);
                let e = es.remove(j);
                proof {
                    assert(es@ == s2);
                    lemma_find_entry_at(s, j as int);
                }
                self.entries = es;
                Some(e.1)
            },
        }
    }

    /// The entries, in ascending key order, taken out of the map.
    pub fn into_entries(self) -> (r: Vec<(String, V)>)
        ensures
            r@ == self.items(),
            keys_ascending(r@),
    {
        proof {
            use_type_invariant(&self);
        }
        self.entries
    }

    /// Stores `value` under `key`, replacing an earlier value; the other
    /// keys keep their values.
    pub fn insert(&mut self, key: String, value: V)
        ensures
            final(self).lookup(key@) == Some(value),
            forall|k: Seq<char>| k != key@ ==> final(self).lookup(k) == old(self).lookup(k),
            forall|k: Seq<char>|
                #![trigger final(self).lookup(k)]
                (final(self).lookup(k) is Some) <==> (k == key@ || old(self).lookup(k) is Some),
    {
        proof {
            use_type_invariant(&*self);
        }
        let ghost s = self.entries@;
        let mut j: usize = 0;
        while j < self.entries.len() && str_le(self.entries[j].0.as_str(), key.as_str())
            && !str_eq(self.entries[j].0.as_str(), key.as_str())
            invariant
                self.entries@ == s,
                keys_ascending(s),
                j <= s.len(),
                forall|t: int| 0 <= t < j ==> seq_lt(#[trigger] s[t].0@, key@),
            decreases s.len() - j,
        {
            j = j + 1;
        }
        if j < self.entries.len() && str_eq(self.entries[j].0.as_str(), key.as_str()) {
            let ghost s2 = s.update(j as int, (key, value));
            proof {
                assert forall|a: int, b: int| 0 <= a < b < s2.len() implies seq_lt(
                    s2[a].0@,
                    s2[b].0@,
                ) by {
                    assert(seq_lt(s[a].0@, s[b].0@));
                }
                lemma_ascending_distinct(s2);
                lemma_ascending_distinct(s);
                lemma_find_entry_at(s2, j as int);
                assert forall|k: Seq<char>| k != key@ implies find_entry(s2, k) == find_entry(
                    s,
                    k,
                ) by {
                    if exists|i: int| 0 <= i < s.len() && s[i].0@ == k {
                        let i = choose|i: int| 0 <= i < s.len() && s[i].0@ == k;
                        lemma_find_entry_at(s, i);
                        assert(s2[i] == s[i]);
                        lemma_find_entry_at(s2, i);
                    } else {
                        lemma_find_entry_absent(s, k);
                        assert forall|i: int| 0 <= i < s2.len() implies s2[i].0@ != k by {
                            if i != j {
                                assert(s2[i] == s[i]);
                            }
                        }
                        lemma_find_entry_absent(s2, k);
                    }
                }
            }
            let mut es: Vec<(String, V)> = Vec::new();
            std::mem::swap(&mut es, &mut self.entries);
            es.set(j, (key, value));
            proof {
                assert(es@ == s2);
            }
            self.entries = es;
        } else {
            let ghost s2 = s.insert(j as int, (key, value));
            proof {
                if j < s.len() {
                    lemma_seq_le_total(s[j as int].0@, key@);
                    if seq_le(s[j as int].0@, key@) {
                        assert(s[j as int].0@ == key@);
                    }
                }
                assert forall|a: int, b: int| 0 <= a < b < s2.len() implies seq_lt(
                    s2[a].0@,
                    s2[b].0@,
                ) by {
                    if a < j && b < j {
                        assert(seq_lt(s[a].0@, s[b].0@));
                    } else if a < j && b == j {
                    } else if a < j {
                        assert(seq_lt(s[a].0@, s[b - 1].0@));
                    } else if a == j {
                        assert(s2[b] == s[b - 1]);
                        if b - 1 > j {
                            assert(seq_lt(s[j as int].0@, s[b - 1].0@));
                            lemma_seq_le_trans(key@, s[j as int].0@, s[b - 1].0@);
                            if key@ == s[b - 1].0@ {
                                lemma_seq_le_antisym(s[j as int].0@, key@);
                            }
                        }
                    } else {
                        assert(seq_lt(s[a - 1].0@, s[b - 1].0@));
                    }
                }
                lemma_ascending_distinct(s2);
                lemma_ascending_distinct(s);
                assert(s2[j as int] == (key, value));
                lemma_find_entry_at(s2, j as int);
                assert forall|k: Seq<char>| k != key@ implies find_entry(s2, k) == find_entry(
                    s,
                    k,
                ) by {
                    if exists|i: int| 0 <= i < s.len() && s[i].0@ == k {
                        let i = choose|i: int| 0 <= i < s.len() && s[i].0@ == k;
                        lemma_find_entry_at(s, i);
                        let i2 = if i < j { i } else { i + 1 };
                        assert(s2[i2] == s[i]);
                        lemma_find_entry_at(s2, i2);
                    } else {
                        lemma_find_entry_absent(s, k);
                        assert forall|i: int| 0 <= i < s2.len() implies s2[i].0@ != k by {
                            if i < j {
                                assert(s2[i] == s[i]);
                            } else if i > j {
                                assert(s2[i] == s[i - 1]);
                            }
                        }
                        lemma_find_entry_absent(s2, k);
                    }
                }
            }
            let mut es: Vec<(String, V)> = Vec::new();
            std::mem::swap(&mut es, &mut self.entries);
            es.insert(j, (key, value));
            proof {
                assert(es@ == s2);
            }
            self.entries = es;
        }
    }
}

impl<V: Clone> Clone for StrMap<V> {
    /// A copy with the same keys, each value cloned.
    fn clone(&self) -> (r: Self)
        ensures
            entry_keys(r.items()) == entry_keys(self.items()),
    {
        proof {
            use_type_invariant(self);
        }
        let mut out: Vec<(String, V)> = Vec::new();
        for i in 0..self.entries.len()
            invariant
                keys_ascending(self.entries@),
                out@.len() == i,
                forall|t: int| 0 <= t < i ==> (#[trigger] out@[t]).0@ == self.entries@[t].0@,
        {
            let k = self.entries[i].0.clone();
            let v = self.entries[i].1.clone();
            out.push((k, v));
        }
        proof {
            assert forall|a: int, b: int| 0 <= a < b < out@.len() implies seq_lt(
                out@[a].0@,
                out@[b].0@,
            ) by {
                assert(seq_lt(self.entries@[a].0@, self.entries@[b].0@));
            }
            assert(entry_keys(out@) =~= entry_keys(self.entries@));
        }
        StrMap { entries: out }
    }
}

} // verus!
