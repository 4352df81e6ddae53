//! Maps keyed by part aliases, where two aliases name the same entry when
//! their normal forms agree.

use vstd::prelude::*;

use crate::alias::PartAlias;

verus! {

/// No two entries of `s` have the same key.
pub open spec fn distinct_keys<V>(s: Seq<(PartAlias, V)>) -> bool {
    forall|i: int, j: int| 0 <= i < j < s.len() ==> #[trigger] s[i].0.key() != #[trigger] s[j].0.key()
}

/// The map from keys to values that a sequence of entries describes; a later
/// entry wins over an earlier one with the same key.
pub open spec fn entries_map<V>(s: Seq<(PartAlias, V)>) -> Map<Seq<char>, V>
    decreases s.len(),
{
    if s.len() == 0 {
        Map::empty()
    } else {
        entries_map(s.drop_last()).insert(s.last().0.key(), s.last().1)
    }
}

/// A key is in the map of `s` exactly when some entry of `s` has it.
pub proof fn lemma_entries_map_contains<V>(s: Seq<(PartAlias, V)>, k: Seq<char>)
    ensures
        entries_map(s).contains_key(k) <==> exists|i: int| 0 <= i < s.len() && #[trigger] s[i].0.key() == k,
    decreases s.len(),
{
    if s.len() > 0 {
        lemma_entries_map_contains(s.drop_last(), k);
        if entries_map(s.drop_last()).contains_key(k) {
            let i = choose|i: int| 0 <= i < s.drop_last().len() && #[trigger] s.drop_last()[i].0.key() == k;
            assert(s[i].0.key() == k);
        }
        if exists|i: int| 0 <= i < s.len() && #[trigger] s[i].0.key() == k {
            let i = choose|i: int| 0 <= i < s.len() && #[trigger] s[i].0.key() == k;
            if i < s.len() - 1 {
                assert(s.drop_last()[i].0.key() == k);
            }
        }
    }
}

/// In a sequence without repeated keys, the map of `s` takes the key of each
/// entry to that entry's value.
pub proof fn lemma_entries_map_index<V>(s: Seq<(PartAlias, V)>, i: int)
    requires
        distinct_keys(s),
        0 <= i < s.len(),
    ensures
        entries_map(s).contains_key(s[i].0.key()),
        entries_map(s)[s[i].0.key()] == s[i].1,
    decreases s.len(),
{
    if i < s.len() - 1 {
        let t = s.drop_last();
        assert(distinct_keys(t)) by {
            assert forall|a: int, b: int| 0 <= a < b < t.len() implies #[trigger] t[a].0.key()
                != #[trigger] t[b].0.key() by {
                assert(s[a].0.key() != s[b].0.key());
            }
        }
        assert(t[i] == s[i]);
        lemma_entries_map_index(t, i);
        assert(s[i].0.key() != s[s.len() - 1].0.key());
    }
}

/// Every sequence of entries describes a map with finitely many keys.
pub proof fn lemma_entries_map_finite<V>(s: Seq<(PartAlias, V)>)
    ensures
        entries_map(s).dom().finite(),
    decreases s.len(),
{
    if s.len() > 0 {
        lemma_entries_map_finite(s.drop_last());
    }
}

/// A sequence without repeated keys describes a map with as many keys as it
/// has entries.
pub proof fn lemma_entries_map_len<V>(s: Seq<(PartAlias, V)>)
    requires
        distinct_keys(s),
    ensures
        entries_map(s).dom().finite(),
        entries_map(s).dom().len() == s.len(),
    decreases s.len(),
{
    if s.len() > 0 {
        let t = s.drop_last();
        assert(distinct_keys(t)) by {
            assert forall|a: int, b: int| 0 <= a < b < t.len() implies #[trigger] t[a].0.key()
                != #[trigger] t[b].0.key() by {
                assert(s[a].0.key() != s[b].0.key());
            }
        }
        lemma_entries_map_len(t);
        lemma_entries_map_contains(t, s.last().0.key());
        if entries_map(t).contains_key(s.last().0.key()) {
            let i = choose|i: int| 0 <= i < t.len() && #[trigger] t[i].0.key() == s.last().0.key();
            assert(s[i].0.key() != s[s.len() - 1].0.key());
        }
    }
}

/// The entries of `s` whose mark in `keep` is set, in order.
pub open spec fn marked_entries<V>(s: Seq<(PartAlias, V)>, keep: Seq<bool>) -> Seq<(PartAlias, V)>
    decreases s.len(),
{
    if s.len() == 0 {
        Seq::empty()
    } else {
        let rest = marked_entries(s.drop_last(), keep.take(s.len() - 1));
        if keep[s.len() - 1] {
            rest.push(s.last())
        } else {
            rest
        }
    }
}

/// `s` after `value` is inserted under `key`: the entry with that key, if
/// any, takes the value and keeps its alias as first written; else a new
/// entry comes last.
#[verifier::opaque]
pub open spec fn inserted<V>(s: Seq<(PartAlias, V)>, key: PartAlias, value: V) -> Seq<(PartAlias, V)> {
    if exists|i: int| 0 <= i < s.len() && #[trigger] s[i].0.key() == key.key() {
        let i = choose|i: int| 0 <= i < s.len() && #[trigger] s[i].0.key() == key.key();
        s.update(i, (s[i].0, value))
    } else {
        s.push((key, value))
    }
}

/// Every entry kept by a mask is a marked entry of `s`, and the kept entries
/// never repeat a key when `s` does not.
pub proof fn lemma_marked_entries<V>(s: Seq<(PartAlias, V)>, keep: Seq<bool>)
    requires
        keep.len() == s.len(),
    ensures
        marked_entries(s, keep).len() <= s.len(),
        forall|i: int| 0 <= i < marked_entries(s, keep).len() ==> exists|j: int|
            0 <= j < s.len() && keep[j] && #[trigger] marked_entries(s, keep)[i] == s[j],
        forall|j: int| 0 <= j < s.len() && keep[j] ==> #[trigger] marked_entries(s, keep).contains(s[j]),
        distinct_keys(s) ==> distinct_keys(marked_entries(s, keep)),
    decreases s.len(),
{
    if s.len() > 0 {
        let t = s.drop_last();
        let kt = keep.take(s.len() - 1);
        lemma_marked_entries(t, kt);
        let rest = marked_entries(t, kt);
        assert forall|i: int| 0 <= i < marked_entries(s, keep).len() implies exists|j: int|
            0 <= j < s.len() && keep[j] && #[trigger] marked_entries(s, keep)[i] == s[j] by {
            if i < rest.len() {
                let j = choose|j: int| 0 <= j < t.len() && kt[j] && #[trigger] rest[i] == t[j];
                assert(s[j] == t[j]);
            } else {
                assert(marked_entries(s, keep)[i] == s[s.len() - 1]);
            }
        }
        assert forall|j: int| 0 <= j < s.len() && keep[j] implies #[trigger] marked_entries(
            s,
            keep,
        ).contains(s[j]) by {
            if j < s.len() - 1 {
                assert(kt[j]);
                assert(rest.contains(t[j]));
                let m = choose|m: int| 0 <= m < rest.len() && rest[m] == t[j];
                assert(marked_entries(s, keep)[m] == s[j]);
            } else {
                assert(marked_entries(s, keep)[rest.len() as int] == s[j]);
            }
        }
        if distinct_keys(s) {
            assert(distinct_keys(t)) by {
                assert forall|a: int, b: int| 0 <= a < b < t.len() implies #[trigger] t[a].0.key()
                    != #[trigger] t[b].0.key() by {
                    assert(s[a].0.key() != s[b].0.key());
                }
            }
            if keep[s.len() - 1] {
                let r = marked_entries(s, keep);
                assert forall|a: int, b: int| 0 <= a < b < r.len() implies #[trigger] r[a].0.key()
                    != #[trigger] r[b].0.key() by {
                    if b < rest.len() {
                        assert(rest[a].0.key() != rest[b].0.key());
                    } else {
                        let ja = choose|ja: int| 0 <= ja < t.len() && kt[ja] && #[trigger] rest[a] == t[ja];
                        assert(s[ja].0.key() != s[s.len() - 1].0.key());
                    }
                }
            }
        }
    }
}

/// A map keyed by part aliases. An entry keeps the alias under which it was
/// first inserted; inserting under an equal alias replaces only the value.
#[derive(Debug, PartialEq)]
pub struct AliasMap<V> {
    entries: Vec<(PartAlias, V)>,
}

impl<V> AliasMap<V> {
    /// No key occurs twice among the entries.
    #[verifier::type_invariant]
    pub open spec fn inv(self) -> bool {
        distinct_keys(self.seq())
    }

    /// The entries, in the order in which they were first inserted.
    pub closed spec fn seq(&self) -> Seq<(PartAlias, V)> {
        self.entries@
    }

    /// The map from keys to values.
    pub open spec fn view(&self) -> Map<Seq<char>, V> {
        entries_map(self.seq())
    }

    /// Facts that tie the entries to the map.
    pub proof fn lemma_view(&self)
        requires
            self.inv(),
        ensures
            distinct_keys(self.seq()),
            self@.dom().finite(),
            self@.dom().len() == self.seq().len(),
            forall|k: Seq<char>| #[trigger] self@.contains_key(k) <==> exists|i: int|
                0 <= i < self.seq().len() && #[trigger] self.seq()[i].0.key() == k,
            forall|i: int|
                0 <= i < self.seq().len() ==> self@.contains_key(#[trigger] self.seq()[i].0.key())
                    && self@[self.seq()[i].0.key()] == self.seq()[i].1,
    {
        lemma_entries_map_len(self.seq());
        assert forall|k: Seq<char>| #[trigger] self@.contains_key(k) <==> exists|i: int|
            0 <= i < self.seq().len() && #[trigger] self.seq()[i].0.key() == k by {
            lemma_entries_map_contains(self.seq(), k);
        }
        assert forall|i: int| 0 <= i < self.seq().len() implies self@.contains_key(
            #[trigger] self.seq()[i].0.key(),
        ) && self@[self.seq()[i].0.key()] == self.seq()[i].1 by {
            lemma_entries_map_index(self.seq(), i);
        }
    }

    /// An empty map.
    pub fn new() -> (r: Self)
        ensures
            r.seq() == Seq::<(PartAlias, V)>::empty(),
            r@ == Map::<Seq<char>, V>::empty(),
    {
        AliasMap { entries: Vec::new() }
    }

    /// The number of entries.
    pub fn len(&self) -> (r: usize)
        ensures
            r == self.seq().len(),
            r == self@.dom().len(),
    {
        proof {
            use_type_invariant(self);
            self.lemma_view();
        }
        self.entries.len()
    }

    /// The map has no entries.
    pub fn is_empty(&self) -> (r: bool)
        ensures
            r == (self.seq().len() == 0),
            r == self@.is_empty(),
    {
        proof {
            use_type_invariant(self);
            self.lemma_view();
            if self.seq().len() > 0 {
                assert(self@.contains_key(self.seq()[0].0.key()));
            }
        }
        self.entries.len() == 0
    }

    /// The entry at position `i`.
    pub fn entry(&self, i: usize) -> (r: &(PartAlias, V))
        requires
            i < self.seq().len(),
        ensures
            *r == self.seq()[i as int],
    {
        &self.entries[i]
    }

    /// The position of the entry whose key is that of `key`, if any.
    pub fn index_of(&self, key: &PartAlias) -> (r: Option<usize>)
        ensures
            match r {
                Some(i) => i < self.seq().len() && self.seq()[i as int].0.key() == key.key(),
                None => forall|i: int| 0 <= i < self.seq().len() ==> #[trigger] self.seq()[i].0.key() != key.key(),
            },
    {
        let mut i: usize = 0;
        while i < self.entries.len()
            invariant
                i <= self.entries@.len(),
                forall|j: int| 0 <= j < i ==> #[trigger] self.entries@[j].0.key() != key.key(),
            decreases self.entries@.len() - i,
        {
            if self.entries[i].0.same_as(key) {
                return Some(i);
            }
            i = i + 1;
        }
        None
    }

    /// The map has an entry for the key of `key`.
    pub fn contains_key(&self, key: &PartAlias) -> (r: bool)
        ensures
            r == self@.contains_key(key.key()),
    {
        proof {
            use_type_invariant(self);
            self.lemma_view();
        }
        self.index_of(key).is_some()
    }

    /// The value for the key of `key`, if any.
    pub fn get(&self, key: &PartAlias) -> (r: Option<&V>)
        ensures
            match r {
                Some(v) => self@.contains_key(key.key()) && *v == self@[key.key()],
                None => !self@.contains_key(key.key()),
            },
    {
        proof {
            use_type_invariant(self);
            self.lemma_view();
        }
        match self.index_of(key) {
            Some(i) => Some(&self.entries[i].1),
            None => None,
        }
    }

    /// Sets the value for the key of `key`. An entry that already has that key
    /// keeps its alias and its position; otherwise the entry goes last.
    pub fn insert(&mut self, key: PartAlias, value: V)
        ensures
            final(self)@ == old(self)@.insert(key.key(), value),
            old(self)@.contains_key(key.key()) ==> exists|i: int|
                0 <= i < old(self).seq().len() && old(self).seq()[i].0.key() == key.key()
                    && final(self).seq() == old(self).seq().update(i, (old(self).seq()[i].0, value)),
            !old(self)@.contains_key(key.key()) ==> final(self).seq() == old(self).seq().push(
                (key, value),
            ),
            final(self).seq() == inserted(old(self).seq(), key, value),
    {
        proof {
            use_type_invariant(&*self);
            self.lemma_view();
        }
        match self.index_of(&key) {
            Some(i) => {
                let ghost before = self.entries@;
                let mut entries: Vec<(PartAlias, V)> = Vec::new();
                std::mem::swap(&mut entries, &mut self.entries);
                let (existing, _previous) = entries.remove(i);
                entries.insert(i, (existing, value));
                proof {
                    assert(entries@ =~= before.update(i as int, (before[i as int].0, value)));
                    assert(distinct_keys(entries@)) by {
                        assert forall|a: int, b: int| 0 <= a < b < entries@.len() implies
                            #[trigger] entries@[a].0.key()
                            != #[trigger] entries@[b].0.key() by {
                            assert(before[a].0.key() != before[b].0.key());
                        }
                    }
                }
                self.entries = entries;
                proof {
                    assert(distinct_keys(self.entries@)) by {
                        assert forall|a: int, b: int| 0 <= a < b < self.entries@.len() implies
                            #[trigger] self.entries@[a].0.key()
                            != #[trigger] self.entries@[b].0.key() by {
                            assert(before[a].0.key() != before[b].0.key());
                        }
                    }
                    assert(entries_map(self.entries@) =~= entries_map(before).insert(key.key(), value)) by {
                        lemma_entries_map_len(before);
                        assert forall|k: Seq<char>| #[trigger] entries_map(self.entries@).contains_key(k)
                            <==> entries_map(before).insert(key.key(), value).contains_key(k) by {
                            lemma_entries_map_contains(self.entries@, k);
                            lemma_entries_map_contains(before, k);
                            if exists|j: int| 0 <= j < before.len() && #[trigger] before[j].0.key() == k {
                                let j = choose|j: int| 0 <= j < before.len() && #[trigger] before[j].0.key() == k;
                                assert(self.entries@[j].0.key() == k);
                            }
                            if exists|j: int| 0 <= j < self.entries@.len() && #[trigger] self.entries@[j].0.key() == k {
                                let j = choose|j: int| 0 <= j < self.entries@.len() && #[trigger] self.entries@[j].0.key() == k;
                                assert(before[j].0.key() == k);
                            }
                        }
                        assert forall|k: Seq<char>| #[trigger] entries_map(self.entries@).contains_key(k)
                            implies entries_map(self.entries@)[k] == entries_map(before).insert(key.key(), value)[k] by {
                            lemma_entries_map_contains(self.entries@, k);
                            let j = choose|j: int| 0 <= j < self.entries@.len() && #[trigger] self.entries@[j].0.key() == k;
                            lemma_entries_map_index(self.entries@, j);
                            lemma_entries_map_index(before, j);
                        }
                    }
                }
                proof {
                    assert(old(self).seq()[i as int].0.key() == key.key());
                    reveal(inserted);
                    let j = choose|j: int| 0 <= j < before.len() && #[trigger] before[j].0.key() == key.key();
                    if j < i {
                        assert(before[j].0.key() != before[i as int].0.key());
                    } else if j > i {
                        assert(before[i as int].0.key() != before[j].0.key());
                    }
                    assert(self.entries@ == inserted(before, key, value));
                }
            },
            None => {
                let ghost before = self.entries@;
                let mut entries: Vec<(PartAlias, V)> = Vec::new();
                std::mem::swap(&mut entries, &mut self.entries);
                let ghost key_view = key.key();
                entries.push((key, value));
                proof {
                    assert(entries@.drop_last() =~= before);
                    assert(distinct_keys(entries@)) by {
                        assert forall|a: int, b: int| 0 <= a < b < entries@.len() implies
                            #[trigger] entries@[a].0.key()
                            != #[trigger] entries@[b].0.key() by {
                            if b < before.len() {
                                assert(before[a].0.key() != before[b].0.key());
                            } else {
                                assert(before[a].0.key() != key_view);
                            }
                        }
                    }
                }
                self.entries = entries;
                proof {
                    reveal(inserted);
                    assert(!(exists|j: int| 0 <= j < before.len() && #[trigger] before[j].0.key() == key_view));
                }
            },
        }
    }

    /// Removes the entry with the key of `key`, handing back its value.
    pub fn remove(&mut self, key: &PartAlias) -> (r: Option<V>)
        ensures
            final(self)@ == old(self)@.remove(key.key()),
            match r {
                Some(v) => old(self)@.contains_key(key.key()) && v == old(self)@[key.key()],
                None => !old(self)@.contains_key(key.key()),
            },
            old(self)@.contains_key(key.key()) ==> exists|i: int|
                0 <= i < old(self).seq().len() && old(self).seq()[i].0.key() == key.key()
                    && final(self).seq() == old(self).seq().remove(i),
            !old(self)@.contains_key(key.key()) ==> final(self).seq() == old(self).seq(),
    {
        proof {
            use_type_invariant(&*self);
            self.lemma_view();
        }
        match self.index_of(key) {
            Some(i) => {
                let ghost before = self.entries@;
                proof {
                    lemma_entries_map_index(before, i as int);
                }
                let mut entries: Vec<(PartAlias, V)> = Vec::new();
                std::mem::swap(&mut entries, &mut self.entries);
                let (_existing, value) = entries.remove(i);
                proof {
                    assert(entries@ =~= before.remove(i as int));
                    assert(distinct_keys(entries@)) by {
                        assert forall|a: int, b: int| 0 <= a < b < entries@.len() implies
                            #[trigger] entries@[a].0.key()
                            != #[trigger] entries@[b].0.key() by {
                            if a < i && b < i {
                                assert(before[a].0.key() != before[b].0.key());
                            } else if a < i {
                                assert(before[a].0.key() != before[b + 1].0.key());
                            } else {
                                assert(before[a + 1].0.key() != before[b + 1].0.key());
                            }
                        }
                    }
                }
                self.entries = entries;
                proof {
                    assert(entries_map(self.entries@) =~= entries_map(before).remove(key.key())) by {
                        assert forall|k: Seq<char>| #[trigger] entries_map(self.entries@).contains_key(k)
                            <==> entries_map(before).remove(key.key()).contains_key(k) by {
                            lemma_entries_map_contains(self.entries@, k);
                            lemma_entries_map_contains(before, k);
                            if exists|j: int| 0 <= j < before.len() && #[trigger] before[j].0.key() == k {
                                let j = choose|j: int| 0 <= j < before.len() && #[trigger] before[j].0.key() == k;
                                if j < i {
                                    assert(self.entries@[j].0.key() == k);
                                } else if j > i {
                                    assert(self.entries@[j - 1].0.key() == k);
                                } else {
                                    assert(k == key.key());
                                }
                            }
                            if exists|j: int| 0 <= j < self.entries@.len() && #[trigger] self.entries@[j].0.key() == k {
                                let j = choose|j: int| 0 <= j < self.entries@.len() && #[trigger] self.entries@[j].0.key() == k;
                                if j < i {
                                    assert(before[j].0.key() == k);
                                    assert(before[j].0.key() != before[i as int].0.key());
                                } else {
                                    assert(before[j + 1].0.key() == k);
                                    assert(before[j + 1].0.key() != before[i as int].0.key());
                                }
                            }
                        }
                        assert forall|k: Seq<char>| #[trigger] entries_map(self.entries@).contains_key(k)
                            implies entries_map(self.entries@)[k] == entries_map(before).remove(key.key())[k] by {
                            lemma_entries_map_contains(self.entries@, k);
                            let j = choose|j: int| 0 <= j < self.entries@.len() && #[trigger] self.entries@[j].0.key() == k;
                            lemma_entries_map_index(self.entries@, j);
                            if j < i {
                                lemma_entries_map_index(before, j);
                            } else {
                                lemma_entries_map_index(before, j + 1);
                            }
                        }
                    }
                }
                assert(before[i as int].0.key() == key.key());
                assert(self.entries@ == before.remove(i as int));
                Some(value)
            },
            None => {
                proof {
                    assert(!self@.contains_key(key.key()));
                    assert(self@.remove(key.key()) =~= self@);
                }
                None
            },
        }
    }

    /// Removes every entry.
    pub fn clear(&mut self)
        ensures
            final(self).seq() == Seq::<(PartAlias, V)>::empty(),
            final(self)@ == Map::<Seq<char>, V>::empty(),
    {
        self.entries = Vec::new();
    }

    /// Keeps the entries whose mark in `keep` is set and drops the others,
    /// keeping the order of those that stay.
    pub fn retain_marked(&mut self, keep: &Vec<bool>)
        requires
            keep.len() == old(self).seq().len(),
        ensures
            final(self).seq() == marked_entries(old(self).seq(), keep@),
            final(self)@.submap_of(old(self)@),
            forall|i: int|
                0 <= i < old(self).seq().len() ==> (keep@[i] <==> final(self)@.contains_key(
                    #[trigger] old(self).seq()[i].0.key(),
                )),
    {
        proof {
            use_type_invariant(&*self);
            self.lemma_view();
        }
        let ghost before = self.entries@;
        let mut entries: Vec<(PartAlias, V)> = Vec::new();
        std::mem::swap(&mut entries, &mut self.entries);
        let mut rev: Vec<(PartAlias, V)> = Vec::new();
        let n = entries.len();
        proof {
            assert(before.take(n as int) =~= before);
            assert(keep@.take(n as int) =~= keep@);
            assert(marked_entries(before, keep@) =~= marked_entries(before, keep@) + rev@.reverse());
        }
        while entries.len() > 0
            invariant
                entries.len() <= n == before.len() == keep@.len(),
                entries@ == before.take(entries.len() as int),
                marked_entries(before, keep@) == marked_entries(
                    before.take(entries.len() as int),
                    keep@.take(entries.len() as int),
                ) + rev@.reverse(),
            decreases entries.len(),
        {
            let ghost m = entries.len() as int;
            let e = entries.pop().unwrap();
            proof {
                assert(before.take(m).drop_last() =~= before.take(m - 1));
                assert(keep@.take(m).take(m - 1) =~= keep@.take(m - 1));
            }
            if keep[entries.len()] {
                let ghost r0 = rev@;
                rev.push(e);
                proof {
                    assert(rev@.reverse() =~= seq![before[m - 1]] + r0.reverse());
                    assert(marked_entries(before.take(m - 1), keep@.take(m - 1)).push(before[m - 1])
                        + r0.reverse() =~= marked_entries(before.take(m - 1), keep@.take(m - 1))
                        + rev@.reverse());
                }
            }
        }
        proof {
            assert(before.take(0) =~= Seq::<(PartAlias, V)>::empty());
            assert(marked_entries(before, keep@) =~= rev@.reverse());
        }
        let mut kept: Vec<(PartAlias, V)> = Vec::new();
        while rev.len() > 0
            invariant
                marked_entries(before, keep@) == kept@ + rev@.reverse(),
            decreases rev.len(),
        {
            let ghost r0 = rev@;
            let e = rev.pop().unwrap();
            let ghost k0 = kept@;
            kept.push(e);
            proof {
                assert(r0.reverse() =~= seq![e] + rev@.reverse());
                assert(k0 + r0.reverse() =~= kept@ + rev@.reverse());
            }
        }
        proof {
            assert(kept@ =~= marked_entries(before, keep@));
            lemma_marked_entries(before, keep@);
        }
        self.entries = kept;
        proof {
            let after = self.entries@;
            lemma_entries_map_len(after);
            assert forall|k: Seq<char>| #[trigger] entries_map(after).contains_key(k) implies entries_map(
                before,
            ).contains_key(k) && entries_map(after)[k] == entries_map(before)[k] by {
                lemma_entries_map_contains(after, k);
                let i = choose|i: int| 0 <= i < after.len() && #[trigger] after[i].0.key() == k;
                let j = choose|j: int| 0 <= j < before.len() && keep@[j] && #[trigger] after[i] == before[j];
                lemma_entries_map_index(after, i);
                lemma_entries_map_index(before, j);
            }
            assert forall|i: int| 0 <= i < before.len() implies (keep@[i] <==> entries_map(
                after,
            ).contains_key(#[trigger] before[i].0.key())) by {
                lemma_entries_map_contains(after, before[i].0.key());
                if keep@[i] {
                    assert(marked_entries(before, keep@).contains(before[i]));
                    let m = choose|m: int| 0 <= m < after.len() && after[m] == before[i];
                    assert(after[m].0.key() == before[i].0.key());
                } else if entries_map(after).contains_key(before[i].0.key()) {
                    let m = choose|m: int| 0 <= m < after.len() && #[trigger] after[m].0.key()
                        == before[i].0.key();
                    let j = choose|j: int| 0 <= j < before.len() && keep@[j] && #[trigger] after[m] == before[j];
                    assert(before[j].0.key() == before[i].0.key());
                    if i != j {
                        if i < j {
                            assert(before[i].0.key() != before[j].0.key());
                        } else {
                            assert(before[j].0.key() != before[i].0.key());
                        }
                    }
                }
            }
        }
    }

    /// Hands over the entries, in order.
    pub fn into_entries(self) -> (r: Vec<(PartAlias, V)>)
        ensures
            r@ == self.seq(),
    {
        self.entries
    }
}

} // verus!
