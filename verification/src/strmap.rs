//! A small string-to-string map that keeps its entries in insertion order.

use vstd::prelude::*;
use crate::text::{str_chars, chars_eq};

verus! {

/// The map that a list of entries denotes; a later entry for a key wins.
pub open spec fn entries_map(es: Seq<(String, String)>) -> Map<Seq<char>, Seq<char>>
    decreases es.len(),
{
    if es.len() == 0 {
        Map::empty()
    } else {
        entries_map(es.drop_last()).insert(es.last().0@, es.last().1@)
    }
}

/// The keys of a list of entries, in order.
pub open spec fn entries_keys(es: Seq<(String, String)>) -> Seq<Seq<char>> {
    es.map_values(|e: (String, String)| e.0@)
}

/// The entries of a list as pairs of character sequences.
pub open spec fn pairs_view(es: Seq<(String, String)>) -> Seq<(Seq<char>, Seq<char>)> {
    es.map_values(|e: (String, String)| (e.0@, e.1@))
}

/// Index of the first pair whose key is `k`.
pub open spec fn pair_index(ps: Seq<(Seq<char>, Seq<char>)>, k: Seq<char>) -> Option<int>
    decreases ps.len(),
{
    if ps.len() == 0 {
        None
    } else if ps[0].0 == k {
        Some(0)
    } else {
        match pair_index(ps.drop_first(), k) {
            Some(i) => Some(i + 1),
            None => None,
        }
    }
}

/// Insertion into a list of pairs: the value of an existing key is replaced
/// in place, a new key is appended.
pub open spec fn list_insert(ps: Seq<(Seq<char>, Seq<char>)>, k: Seq<char>, v: Seq<char>) -> Seq<
    (Seq<char>, Seq<char>),
> {
    match pair_index(ps, k) {
        Some(i) => ps.update(i, (k, v)),
        None => ps.push((k, v)),
    }
}

/// The first pair with key `k` is at `i` when no pair before `i` has it.
pub proof fn lemma_pair_index(ps: Seq<(Seq<char>, Seq<char>)>, k: Seq<char>, i: int)
    requires
        0 <= i <= ps.len(),
        forall|j: int| 0 <= j < i ==> #[trigger] ps[j].0 != k,
    ensures
        i < ps.len() && ps[i].0 == k ==> pair_index(ps, k) == Some(i),
        i == ps.len() ==> pair_index(ps, k) is None,
    decreases i,
{
    if i > 0 {
        lemma_pair_index(ps.drop_first(), k, i - 1);
    }
}

/// String-keyed map in insertion order, as the dictionary tables use it.
pub struct StrMap {
    pub entries: Vec<(String, String)>,
}

impl View for StrMap {
    type V = Map<Seq<char>, Seq<char>>;

    open spec fn view(&self) -> Map<Seq<char>, Seq<char>> {
        entries_map(self.entries@)
    }
}

/// A key is in the map of a list of entries exactly when some entry has it.
pub proof fn lemma_entries_map_dom(es: Seq<(String, String)>, k: Seq<char>)
    ensures
        entries_map(es).contains_key(k) <==> exists|i: int| 0 <= i < es.len() && #[trigger] es[i].0@
            == k,
    decreases es.len(),
{
    if es.len() > 0 {
        lemma_entries_map_dom(es.drop_last(), k);
        if entries_map(es.drop_last()).contains_key(k) {
            let i = choose|i: int| 0 <= i < es.drop_last().len() && #[trigger] es.drop_last()[i].0@
                == k;
            assert(es[i].0@ == k);
        }
        if exists|i: int| 0 <= i < es.len() && #[trigger] es[i].0@ == k {
            let i = choose|i: int| 0 <= i < es.len() && #[trigger] es[i].0@ == k;
            if i < es.len() - 1 {
                assert(es.drop_last()[i].0@ == k);
            }
        }
    }
}

/// The map of a list of entries gives a key the value of the key's last entry.
pub proof fn lemma_entries_map_last_index(es: Seq<(String, String)>, k: Seq<char>, i: int)
    requires
        0 <= i < es.len(),
        es[i].0@ == k,
        forall|j: int| i < j < es.len() ==> #[trigger] es[j].0@ != k,
    ensures
        entries_map(es).contains_key(k),
        entries_map(es)[k] == es[i].1@,
    decreases es.len(),
{
    if i < es.len() - 1 {
        assert(es.last().0@ != k);
        lemma_entries_map_last_index(es.drop_last(), k, i);
    }
}

proof fn lemma_entries_map_update(es: Seq<(String, String)>, i: int, e: (String, String))
    requires
        0 <= i < es.len(),
        es[i].0@ == e.0@,
    ensures
        entries_map(es.update(i, e)) == entries_map(es).insert(e.0@, e.1@) || exists|j: int|
            i < j < es.len() && #[trigger] es[j].0@ == e.0@,
    decreases es.len(),
{
    if i == es.len() - 1 {
        assert(es.update(i, e).drop_last() =~= es.drop_last());
        assert(entries_map(es.update(i, e)) =~= entries_map(es).insert(e.0@, e.1@));
    } else {
        lemma_entries_map_update(es.drop_last(), i, e);
        assert(es.update(i, e).drop_last() =~= es.drop_last().update(i, e));
        if exists|j: int| i < j < es.drop_last().len() && #[trigger] es.drop_last()[j].0@ == e.0@ {
            let j = choose|j: int| i < j < es.drop_last().len() && #[trigger] es.drop_last()[j].0@
                == e.0@;
            assert(es[j].0@ == e.0@);
        } else if es.last().0@ == e.0@ {
        } else {
            assert(entries_map(es.update(i, e)) =~= entries_map(es).insert(e.0@, e.1@));
        }
    }
}

impl StrMap {
    /// An empty map.
    pub fn new() -> (m: StrMap)
        ensures
            m@ == Map::<Seq<char>, Seq<char>>::empty(),
            m.wf(),
            m.entries@.len() == 0,
    {
        StrMap { entries: Vec::new() }
    }

    /// No key occurs twice among the entries.
    pub open spec fn wf(&self) -> bool {
        forall|i: int, j: int|
            0 <= i < j < self.entries@.len() ==> #[trigger] self.entries@[i].0@
                != #[trigger] self.entries@[j].0@
    }

    /// Position of the entry for `key`, if there is one.
    pub fn index_of(&self, key: &str) -> (r: Option<usize>)
        requires
            self.wf(),
        ensures
            match r {
                Some(i) => i < self.entries.len() && self.entries@[i as int].0@ == key@
                    && self@.contains_key(key@) && self@[key@] == self.entries@[i as int].1@,
                None => !self@.contains_key(key@),
            },
    {
        let kc = str_chars(key);
        let mut i: usize = 0;
        while i < self.entries.len()
            invariant
                i <= self.entries.len(),
                kc@ == key@,
                self.wf(),
                forall|j: int| 0 <= j < i ==> #[trigger] self.entries@[j].0@ != key@,
            decreases self.entries.len() - i,
        {
            let ec = str_chars(self.entries[i].0.as_str());
            if chars_eq(&ec, &kc) {
                proof {
                    assert forall|j: int| i < j < self.entries@.len() implies #[trigger] self.entries@[j].0@
                        != key@ by {
                        assert(self.entries@[i as int].0@ != self.entries@[j].0@);
                    }
                    lemma_entries_map_last_index(self.entries@, key@, i as int);
                }
                return Some(i);
            }
            i = i + 1;
        }
        proof {
            lemma_entries_map_dom(self.entries@, key@);
        }
        None
    }

    /// The value stored for `key`, if any.
    pub fn get(&self, key: &str) -> (r: Option<&String>)
        requires
            self.wf(),
        ensures
            match r {
                Some(v) => self@.contains_key(key@) && self@[key@] == v@,
                None => !self@.contains_key(key@),
            },
    {
        match self.index_of(key) {
            Some(i) => Some(&self.entries[i].1),
            None => None,
        }
    }

    /// Whether the map holds `key`.
    pub fn contains_key(&self, key: &str) -> (r: bool)
        requires
            self.wf(),
        ensures
            r == self@.contains_key(key@),
    {
        self.index_of(key).is_some()
    }

    /// Stores `value` for `key`, replacing any earlier value.
    pub fn insert(&mut self, key: String, value: String)
        requires
            old(self).wf(),
        ensures
            final(self).wf(),
            final(self)@ == old(self)@.insert(key@, value@),
            old(self)@.contains_key(key@) ==> final(self).entries@.len() == old(self).entries@.len(),
            !old(self)@.contains_key(key@) ==> final(self).entries@ == old(self).entries@.push(
                (key, value),
            ),
            pairs_view(final(self).entries@) == list_insert(pairs_view(old(self).entries@), key@, value@),
    {
        let ghost kv = key@;
        let ghost vv = value@;
        let ghost ps = pairs_view(self.entries@);
        match self.index_of(key.as_str()) {
            Some(i) => {
                let ghost es = self.entries@;
                self.entries.set(i, (key, value));
                proof {
                    assert forall|j: int| 0 <= j < i implies #[trigger] ps[j].0 != kv by {
                        assert(es[j].0@ != es[i as int].0@);
                    }
                    lemma_pair_index(ps, kv, i as int);
                    assert(pairs_view(self.entries@) =~= ps.update(i as int, (kv, vv)));
                    lemma_entries_map_update(es, i as int, self.entries@[i as int]);
                    assert(self.entries@ == es.update(i as int, self.entries@[i as int]));
                    assert forall|a: int, b: int|
                        0 <= a < b < self.entries@.len() implies #[trigger] self.entries@[a].0@
                        != #[trigger] self.entries@[b].0@ by {
                        if a != i && b != i {
                            assert(es[a].0@ != es[b].0@);
                        } else if a == i {
                            assert(es[a].0@ != es[b].0@);
                        } else {
                            assert(es[a].0@ != es[b].0@);
                        }
                    }
                    if exists|j: int| i < j < es.len() && #[trigger] es[j].0@ == kv {
                        let j = choose|j: int| i < j < es.len() && #[trigger] es[j].0@ == kv;
                        assert(es[i as int].0@ != es[j].0@);
                    }
                }
            },
            None => {
                let ghost es = self.entries@;
                self.entries.push((key, value));
                proof {
                    lemma_entries_map_dom(es, kv);
                    assert forall|j: int| 0 <= j < ps.len() implies #[trigger] ps[j].0 != kv by {
                        assert(es[j].0@ == ps[j].0);
                    }
                    lemma_pair_index(ps, kv, ps.len() as int);
                    assert(pairs_view(self.entries@) =~= ps.push((kv, vv)));
                    assert(self.entries@.drop_last() =~= es);
                    lemma_entries_map_dom(es, self.entries@.last().0@);
                    assert forall|a: int, b: int|
                        0 <= a < b < self.entries@.len() implies #[trigger] self.entries@[a].0@
                        != #[trigger] self.entries@[b].0@ by {
                        if b == es.len() {
                            assert(es[a].0@ != self.entries@.last().0@);
                        } else {
                            assert(es[a].0@ != es[b].0@);
                        }
                    }
                }
            },
        }
    }

    /// Number of entries.
    pub fn len(&self) -> (n: usize)
        requires
            self.wf(),
        ensures
            n == self.entries@.len(),
    {
        self.entries.len()
    }
}


impl StrMap {
    /// A copy of the map.
    pub fn copy(&self) -> (m: StrMap)
        ensures
            m@ == self@,
            self.wf() ==> m.wf(),
            m.entries@.len() == self.entries@.len(),
            forall|i: int| 0 <= i < self.entries@.len() ==> (#[trigger] m.entries@[i]).0@ == self.entries@[i].0@
                && m.entries@[i].1@ == self.entries@[i].1@,
    {
        let mut v: Vec<(String, String)> = Vec::new();
        let mut k: usize = 0;
        while k < self.entries.len()
            invariant
                k <= self.entries@.len(),
                v@.len() == k,
                forall|i: int| 0 <= i < k ==> (#[trigger] v@[i]).0@ == self.entries@[i].0@
                    && v@[i].1@ == self.entries@[i].1@,
                entries_map(v@) == entries_map(self.entries@.take(k as int)),
            decreases self.entries@.len() - k,
        {
            let (a, b) = &self.entries[k];
            let ghost prev = v@;
            v.push((a.clone(), b.clone()));
            assert(self.entries@.take(k as int + 1).drop_last() =~= self.entries@.take(k as int));
            assert(v@.drop_last() =~= prev);
            k = k + 1;
        }
        assert(self.entries@.take(k as int) =~= self.entries@);
        let m = StrMap { entries: v };
        proof {
            if self.wf() {
                assert forall|i: int, j: int| 0 <= i < j < m.entries@.len() implies m.entries@[i].0@ != m.entries@[j].0@ by {
                    assert(self.entries@[i].0@ != self.entries@[j].0@);
                }
            }
        }
        m
    }

    /// Inserts every entry of `other`, in order; the entries of `other` win.
    pub fn merge_from(&mut self, other: &StrMap)
        requires
            old(self).wf(),
        ensures
            final(self).wf(),
            final(self)@ == old(self)@.union_prefer_right(other@),
    {
        let ghost base = self@;
        let mut k: usize = 0;
        while k < other.entries.len()
            invariant
                k <= other.entries@.len(),
                self.wf(),
                self@ == base.union_prefer_right(entries_map(other.entries@.take(k as int))),
            decreases other.entries@.len() - k,
        {
            let (a, b) = &other.entries[k];
            self.insert(a.clone(), b.clone());
            assert(other.entries@.take(k as int + 1).drop_last() =~= other.entries@.take(k as int));
            assert(self@ =~= base.union_prefer_right(entries_map(other.entries@.take(k as int + 1))));
            k = k + 1;
        }
        assert(other.entries@.take(k as int) =~= other.entries@);
    }
}

} // verus!
