//! A map from feature names to feature values, kept as a list of
//! `(name, value)` pairs in insertion order with no name twice. Its pairs
//! can be listed (the properties pane shows them sorted by name), which
//! vstd's `StringHashMap` does not offer.

use vstd::prelude::*;

use crate::sorting::{chars_le, sort_strings, sorted_by_chars, string_views};

verus! {

/// The map that a list of pairs denotes: each pair in turn overrides the
/// earlier value of its name.
pub open spec fn map_of(entries: Seq<(String, String)>) -> Map<Seq<char>, Seq<char>>
    decreases entries.len(),
{
    if entries.len() == 0 {
        Map::empty()
    } else {
        map_of(entries.drop_last()).insert(entries.last().0@, entries.last().1@)
    }
}

/// No name occurs twice in `entries`.
pub open spec fn keys_distinct(entries: Seq<(String, String)>) -> bool {
    forall|i: int, j: int|
        0 <= i < entries.len() && 0 <= j < entries.len() && i != j ==> entries[i].0@
            != entries[j].0@
}

/// The names of `entries`, in order.
pub open spec fn names_of(entries: Seq<(String, String)>) -> Seq<Seq<char>> {
    entries.map_values(|p: (String, String)| p.0@)
}

/// Feature name to feature value (`Case` to `Nom`, say).
#[derive(Debug)]
pub struct FeatureMap {
    entries: Vec<(String, String)>,
}

impl View for FeatureMap {
    type V = Map<Seq<char>, Seq<char>>;

    closed spec fn view(&self) -> Map<Seq<char>, Seq<char>> {
        map_of(self.entries@)
    }
}

proof fn lemma_map_of_lookup(e: Seq<(String, String)>, k: Seq<char>)
    requires
        keys_distinct(e),
    ensures
        map_of(e).contains_key(k) <==> exists|i: int| 0 <= i < e.len() && e[i].0@ == k,
        forall|i: int| 0 <= i < e.len() && e[i].0@ == k ==> map_of(e)[k] == e[i].1@,
    decreases e.len(),
{
    if e.len() > 0 {
        let p = e.drop_last();
        assert(keys_distinct(p));
        lemma_map_of_lookup(p, k);
        if map_of(e).contains_key(k) && e.last().0@ != k {
            let i = choose|i: int| 0 <= i < p.len() && p[i].0@ == k;
            assert(e[i].0@ == k);
        }
        assert forall|i: int| 0 <= i < e.len() && e[i].0@ == k implies map_of(e)[k] == e[i].1@ by {
            if i < e.len() - 1 {
                assert(p[i] == e[i]);
                assert(e.last().0@ != k);
            }
        }
        if exists|i: int| 0 <= i < e.len() && e[i].0@ == k {
            let i = choose|i: int| 0 <= i < e.len() && e[i].0@ == k;
            if i < e.len() - 1 {
                assert(p[i] == e[i]);
            }
        }
    }
}

proof fn lemma_map_of_update(e: Seq<(String, String)>, j: int, x: (String, String))
    requires
        keys_distinct(e),
        0 <= j < e.len(),
        e[j].0@ == x.0@,
    ensures
        map_of(e.update(j, x)) == map_of(e).insert(x.0@, x.1@),
        keys_distinct(e.update(j, x)),
    decreases e.len(),
{
    let u = e.update(j, x);
    if j == e.len() - 1 {
        assert(u.drop_last() =~= e.drop_last());
        assert(map_of(e).insert(x.0@, x.1@) =~= map_of(e.drop_last()).insert(x.0@, x.1@));
    } else {
        let p = e.drop_last();
        assert(keys_distinct(p));
        lemma_map_of_update(p, j, x);
        assert(u.drop_last() =~= p.update(j, x));
        assert(e.last().0@ != x.0@);
        assert(map_of(u) =~= map_of(e).insert(x.0@, x.1@));
    }
}

impl FeatureMap {
    #[verifier::type_invariant]
    spec fn wf(self) -> bool {
        keys_distinct(self.entries@)
    }

    /// The empty map.
    pub fn new() -> (m: FeatureMap)
        ensures
            m@ == Map::<Seq<char>, Seq<char>>::empty(),
    {
        FeatureMap { entries: Vec::new() }
    }

    /// The pairs of the map, each name once, in the order in which the
    /// names were first inserted.
    pub fn entries(&self) -> (r: &Vec<(String, String)>)
        ensures
            map_of(r@) == self@,
            keys_distinct(r@),
            r@.len() == self@.len(),
    {
        proof {
            use_type_invariant(self);
            lemma_len(self.entries@);
        }
        &self.entries
    }

    /// Number of names in the map.
    pub fn len(&self) -> (n: usize)
        ensures
            n == self@.len(),
    {
        proof {
            use_type_invariant(self);
            lemma_len(self.entries@);
        }
        self.entries.len()
    }

    /// Whether the map holds no name.
    pub fn is_empty(&self) -> (b: bool)
        ensures
            b == (self@.len() == 0),
            b == (self@ == Map::<Seq<char>, Seq<char>>::empty()),
    {
        proof {
            use_type_invariant(self);
            lemma_len(self.entries@);
            if self@.len() == 0 {
                assert(self@ =~= Map::<Seq<char>, Seq<char>>::empty());
            }
        }
        self.entries.len() == 0
    }

    fn position(&self, key: &str) -> (r: Option<usize>)
        ensures
            match r {
                Some(j) => j < self.entries@.len() && self.entries@[j as int].0@ == key@,
                None => forall|i: int|
                    0 <= i < self.entries@.len() ==> self.entries@[i].0@ != key@,
            },
    {
        let k = String::from_str(key);
        let mut i: usize = 0;
        while i < self.entries.len()
            invariant
                i <= self.entries@.len(),
                k@ == key@,
                forall|t: int| 0 <= t < i ==> self.entries@[t].0@ != key@,
            decreases self.entries@.len() - i,
        {
            if self.entries[i].0 == k {
                return Some(i);
            }
            i = i + 1;
        }
        None
    }

    /// The value of `key`, if the map holds that name.
    pub fn get(&self, key: &str) -> (r: Option<&String>)
        ensures
            r is Some <==> self@.contains_key(key@),
            r matches Some(v) ==> v@ == self@[key@],
    {
        proof {
            use_type_invariant(self);
            lemma_map_of_lookup(self.entries@, key@);
        }
        match self.position(key) {
            Some(j) => Some(&self.entries[j].1),
            None => None,
        }
    }

    /// Whether the map holds the name `key`.
    pub fn contains_key(&self, key: &str) -> (b: bool)
        ensures
            b == self@.contains_key(key@),
    {
        proof {
            use_type_invariant(self);
            lemma_map_of_lookup(self.entries@, key@);
        }
        self.position(key).is_some()
    }

    /// Sets the value of `key` to `value`, replacing an earlier value.
    pub fn insert(&mut self, key: String, value: String)
        ensures
            final(self)@ == old(self)@.insert(key@, value@),
    {
        proof {
            use_type_invariant(&*self);
        }
        let pos = self.position(key.as_str());
        match pos {
            Some(j) => {
                let ghost e = self.entries@;
                let ghost x = (key, value);
                proof {
                    lemma_map_of_update(e, j as int, x);
                }
                let mut entries: Vec<(String, String)> = Vec::new();
                std::mem::swap(&mut entries, &mut self.entries);
                entries.set(j, (key, value));
                proof {
                    assert(entries@ == e.update(j as int, x));
                }
                self.entries = entries;
            },
            None => {
                let ghost e = self.entries@;
                let mut entries: Vec<(String, String)> = Vec::new();
                std::mem::swap(&mut entries, &mut self.entries);
                entries.push((key, value));
                proof {
                    assert(entries@.drop_last() =~= e);
                    assert(keys_distinct(entries@));
                }
                self.entries = entries;
            },
        }
    }

    /// A copy of the map.
    pub fn duplicate(&self) -> (m: FeatureMap)
        ensures
            m@ == self@,
    {
        proof {
            use_type_invariant(self);
        }
        let mut entries: Vec<(String, String)> = Vec::new();
        let mut i: usize = 0;
        while i < self.entries.len()
            invariant
                i <= self.entries@.len(),
                entries@ == self.entries@.take(i as int),
            decreases self.entries@.len() - i,
        {
            let k = self.entries[i].0.clone();
            let v = self.entries[i].1.clone();
            entries.push((k, v));
            proof {
                assert(entries@ =~= self.entries@.take(i + 1));
            }
            i = i + 1;
        }
        proof {
            assert(entries@ =~= self.entries@);
        }
        FeatureMap { entries }
    }

    /// The pairs of the map ordered by name, each name once.
    pub fn sorted_entries(&self) -> (r: Vec<(String, String)>)
        ensures
            map_of(r@) == self@,
            keys_distinct(r@),
            r@.len() == self@.len(),
            forall|i: int, j: int|
                0 <= i < j < r@.len() ==> chars_le(#[trigger] r@[i].0@, #[trigger] r@[j].0@),
    {
        proof {
            use_type_invariant(self);
            lemma_len(self.entries@);
        }
        let ghost ks = names_of(self.entries@);
        let mut names: Vec<String> = Vec::new();
        let mut i: usize = 0;
        while i < self.entries.len()
            invariant
                i <= self.entries@.len(),
                ks == names_of(self.entries@),
                string_views(names@) == ks.take(i as int),
            decreases self.entries@.len() - i,
        {
            let name = self.entries[i].0.clone();
            let ghost before = names@;
            names.push(name);
            proof {
                assert(ks[i as int] == self.entries@[i as int].0@);
                assert(names@ == before.push(name));
                assert(string_views(names@) =~= string_views(before).push(name@));
                assert(ks.take(i + 1) =~= ks.take(i as int).push(ks[i as int]));
            }
            i = i + 1;
        }
        proof {
            assert(ks.take(self.entries@.len() as int) =~= ks);
        }
        let sorted = sort_strings(names);
        let ghost sv = string_views(sorted@);
        proof {
            assert(ks.no_duplicates()) by {
                assert forall|a: int, b: int|
                    0 <= a < ks.len() && 0 <= b < ks.len() && a != b implies ks[a] != ks[b] by {
                    assert(ks[a] == self.entries@[a].0@);
                    assert(ks[b] == self.entries@[b].0@);
                }
            }
            ks.lemma_multiset_has_no_duplicates();
            assert forall|x: Seq<char>| sv.to_multiset().contains(x) implies sv.to_multiset().count(
                x,
            ) == 1 by {
                assert(ks.to_multiset().contains(x));
            }
            sv.lemma_multiset_has_no_duplicates_conv();
        }
        let mut r: Vec<(String, String)> = Vec::new();
        let mut j: usize = 0;
        while j < sorted.len()
            invariant
                j <= sorted@.len(),
                sv == string_views(sorted@),
                sv.to_multiset() == ks.to_multiset(),
                sv.no_duplicates(),
                sorted_by_chars(sorted@),
                ks == names_of(self.entries@),
                keys_distinct(self.entries@),
                self@ == map_of(self.entries@),
                r@.len() == j,
                forall|t: int| 0 <= t < j ==> #[trigger] r@[t].0@ == sv[t],
                forall|t: int| 0 <= t < j ==> #[trigger] r@[t].1@ == self@[sv[t]],
                forall|t: int| 0 <= t < j ==> self@.contains_key(#[trigger] sv[t]),
            decreases sorted@.len() - j,
        {
            let k = &sorted[j];
            proof {
                broadcast use vstd::seq_lib::group_to_multiset_ensures;

                assert(sv[j as int] == k@);
                assert(sv.contains(k@));
                assert(sv.to_multiset().count(k@) > 0);
                assert(ks.contains(k@));
                let t = choose|t: int| 0 <= t < ks.len() && ks[t] == k@;
                assert(self.entries@[t].0@ == k@);
                lemma_map_of_lookup(self.entries@, k@);
            }
            match self.get(k.as_str()) {
                Some(v) => {
                    r.push((k.clone(), v.clone()));
                },
                None => {},
            }
            j = j + 1;
        }
        proof {
            broadcast use vstd::seq_lib::group_to_multiset_ensures;

            assert(sv.len() == sv.to_multiset().len());
            assert(ks.len() == ks.to_multiset().len());
            assert forall|a: int, b: int|
                0 <= a < r@.len() && 0 <= b < r@.len() && a != b implies r@[a].0@ != r@[b].0@ by {
                assert(r@[a].0@ == sv[a]);
                assert(r@[b].0@ == sv[b]);
            }
            assert forall|a: int, b: int| 0 <= a < b < r@.len() implies chars_le(
                #[trigger] r@[a].0@,
                #[trigger] r@[b].0@,
            ) by {
                assert(chars_le(sorted@[a]@, sorted@[b]@));
                assert(r@[a].0@ == sv[a]);
                assert(r@[b].0@ == sv[b]);
            }
            assert forall|k: Seq<char>| #[trigger] map_of(r@).contains_key(k) == self@.contains_key(
                k,
            ) by {
                broadcast use vstd::seq_lib::group_to_multiset_ensures;

                lemma_map_of_lookup(r@, k);
                lemma_map_of_lookup(self.entries@, k);
                if self@.contains_key(k) {
                    let t = choose|t: int| 0 <= t < self.entries@.len() && self.entries@[t].0@ == k;
                    assert(ks[t] == k);
                    assert(ks.contains(k));
                    assert(ks.to_multiset().count(k) > 0);
                    assert(sv.contains(k));
                    let u = choose|u: int| 0 <= u < sv.len() && sv[u] == k;
                    assert(r@[u].0@ == k);
                }
            }
            assert forall|k: Seq<char>| #[trigger] map_of(r@).contains_key(k) implies map_of(r@)[k]
                == self@[k] by {
                lemma_map_of_lookup(r@, k);
                let u = choose|u: int| 0 <= u < r@.len() && r@[u].0@ == k;
                assert(r@[u].1@ == self@[sv[u]]);
            }
            assert(map_of(r@) =~= self@);
        }
        r
    }

    /// Removes every name.
    pub fn clear(&mut self)
        ensures
            final(self)@ == Map::<Seq<char>, Seq<char>>::empty(),
    {
        self.entries = Vec::new();
    }
}

impl Clone for FeatureMap {
    fn clone(&self) -> (m: FeatureMap)
        ensures
            m@ == self@,
    {
        self.duplicate()
    }
}

proof fn lemma_len(e: Seq<(String, String)>)
    requires
        keys_distinct(e),
    ensures
        map_of(e).dom().finite(),
        map_of(e).len() == e.len(),
    decreases e.len(),
{
    if e.len() > 0 {
        let p = e.drop_last();
        assert(keys_distinct(p));
        lemma_len(p);
        lemma_map_of_lookup(p, e.last().0@);
        assert(!map_of(p).contains_key(e.last().0@));
    }
}

} // verus!
