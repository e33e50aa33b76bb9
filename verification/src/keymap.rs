//! Maps keyed by strings or tuples of strings, kept in insertion order.

use vstd::prelude::*;
use crate::text::{str_chars, chars_eq};

verus! {

/// A key made of strings, compared by their characters.
pub trait TextKey: Sized {
    /// The characters of each component of the key.
    spec fn text_key(&self) -> Seq<Seq<char>>;

    /// Whether two keys have the same characters.
    fn same_key(&self, other: &Self) -> (r: bool)
        ensures
            r == (self.text_key() == other.text_key()),
    ;
}

fn strings_equal(a: &String, b: &String) -> (r: bool)
    ensures
        r == (a@ == b@),
{
    let ac = str_chars(a.as_str());
    let bc = str_chars(b.as_str());
    chars_eq(&ac, &bc)
}

impl TextKey for String {
    open spec fn text_key(&self) -> Seq<Seq<char>> {
        seq![self@]
    }

    fn same_key(&self, other: &Self) -> (r: bool) {
        let r = strings_equal(self, other);
        proof {
            if !r {
                assert(self.text_key()[0] != other.text_key()[0]);
            }
        }
        r
    }
}

impl TextKey for (String, String, String) {
    open spec fn text_key(&self) -> Seq<Seq<char>> {
        seq![self.0@, self.1@, self.2@]
    }

    fn same_key(&self, other: &Self) -> (r: bool) {
        let r = strings_equal(&self.0, &other.0) && strings_equal(&self.1, &other.1)
            && strings_equal(&self.2, &other.2);
        proof {
            if !r {
                if self.0@ != other.0@ {
                    assert(self.text_key()[0] != other.text_key()[0]);
                } else if self.1@ != other.1@ {
                    assert(self.text_key()[1] != other.text_key()[1]);
                } else {
                    assert(self.text_key()[2] != other.text_key()[2]);
                }
            } else {
                assert(self.text_key() =~= other.text_key());
            }
        }
        r
    }
}

/// The map that a list of entries denotes; a later entry for a key wins.
pub open spec fn keyed_map<K: TextKey, V>(es: Seq<(K, V)>) -> Map<Seq<Seq<char>>, V>
    decreases es.len(),
{
    if es.len() == 0 {
        Map::empty()
    } else {
        keyed_map(es.drop_last()).insert(es.last().0.text_key(), es.last().1)
    }
}

proof fn lemma_keyed_map_dom<K: TextKey, V>(es: Seq<(K, V)>, k: Seq<Seq<char>>)
    ensures
        keyed_map(es).contains_key(k) <==> exists|i: int| 0 <= i < es.len() && #[trigger] es[i].0.text_key() == k,
    decreases es.len(),
{
    if es.len() > 0 {
        lemma_keyed_map_dom(es.drop_last(), k);
        if keyed_map(es.drop_last()).contains_key(k) {
            let i = choose|i: int| 0 <= i < es.drop_last().len() && #[trigger] es.drop_last()[i].0.text_key() == k;
            assert(es[i].0.text_key() == k);
        }
        if exists|i: int| 0 <= i < es.len() && #[trigger] es[i].0.text_key() == k {
            let i = choose|i: int| 0 <= i < es.len() && #[trigger] es[i].0.text_key() == k;
            if i < es.len() - 1 {
                assert(es.drop_last()[i].0.text_key() == k);
            }
        }
    }
}

proof fn lemma_keyed_map_last_index<K: TextKey, V>(es: Seq<(K, V)>, k: Seq<Seq<char>>, i: int)
    requires
        0 <= i < es.len(),
        es[i].0.text_key() == k,
        forall|j: int| i < j < es.len() ==> #[trigger] es[j].0.text_key() != k,
    ensures
        keyed_map(es).contains_key(k),
        keyed_map(es)[k] == es[i].1,
    decreases es.len(),
{
    if i < es.len() - 1 {
        lemma_keyed_map_last_index(es.drop_last(), k, i);
    }
}

proof fn lemma_keyed_map_update<K: TextKey, V>(es: Seq<(K, V)>, i: int, e: (K, V))
    requires
        0 <= i < es.len(),
        es[i].0.text_key() == e.0.text_key(),
        forall|j: int| i < j < es.len() ==> #[trigger] es[j].0.text_key() != e.0.text_key(),
    ensures
        keyed_map(es.update(i, e)) == keyed_map(es).insert(e.0.text_key(), e.1),
    decreases es.len(),
{
    if i == es.len() - 1 {
        assert(es.update(i, e).drop_last() =~= es.drop_last());
        assert(keyed_map(es.update(i, e)) =~= keyed_map(es).insert(e.0.text_key(), e.1));
    } else {
        lemma_keyed_map_update(es.drop_last(), i, e);
        assert(es.update(i, e).drop_last() =~= es.drop_last().update(i, e));
        assert(keyed_map(es.update(i, e)) =~= keyed_map(es).insert(e.0.text_key(), e.1));
    }
}

/// Map keyed by strings or tuples of strings, in insertion order.
pub struct KeyMap<K, V> {
    pub entries: Vec<(K, V)>,
}

impl<K: TextKey, V> KeyMap<K, V> {
    /// The map the entries denote.
    pub open spec fn view(&self) -> Map<Seq<Seq<char>>, V> {
        keyed_map(self.entries@)
    }

    /// No key occurs twice among the entries.
    pub open spec fn wf(&self) -> bool {
        forall|i: int, j: int|
            0 <= i < j < self.entries@.len() ==> #[trigger] self.entries@[i].0.text_key()
                != #[trigger] self.entries@[j].0.text_key()
    }

    /// An empty map.
    pub fn new() -> (m: Self)
        ensures
            m.view() == Map::<Seq<Seq<char>>, V>::empty(),
            m.wf(),
            m.entries@.len() == 0,
    {
        KeyMap { entries: Vec::new() }
    }

    /// Position of the entry for `key`, if there is one.
    pub fn index_of(&self, key: &K) -> (r: Option<usize>)
        requires
            self.wf(),
        ensures
            match r {
                Some(i) => i < self.entries.len() && self.entries@[i as int].0.text_key()
                    == key.text_key() && self.view().contains_key(key.text_key())
                    && self.view()[key.text_key()] == self.entries@[i as int].1,
                None => !self.view().contains_key(key.text_key()),
            },
    {
        let mut i: usize = 0;
        while i < self.entries.len()
            invariant
                i <= self.entries.len(),
                self.wf(),
                forall|j: int| 0 <= j < i ==> #[trigger] self.entries@[j].0.text_key() != key.text_key(),
            decreases self.entries.len() - i,
        {
            if self.entries[i].0.same_key(key) {
                proof {
                    assert forall|j: int| i < j < self.entries@.len() implies #[trigger] self.entries@[j].0.text_key()
                        != key.text_key() by {
                        assert(self.entries@[i as int].0.text_key() != self.entries@[j].0.text_key());
                    }
                    lemma_keyed_map_last_index(self.entries@, key.text_key(), i as int);
                }
                return Some(i);
            }
            i = i + 1;
        }
        proof {
            lemma_keyed_map_dom(self.entries@, key.text_key());
        }
        None
    }

    /// The value stored for `key`, if any.
    pub fn get(&self, key: &K) -> (r: Option<&V>)
        requires
            self.wf(),
        ensures
            match r {
                Some(v) => self.view().contains_key(key.text_key()) && self.view()[key.text_key()] == *v,
                None => !self.view().contains_key(key.text_key()),
            },
    {
        match self.index_of(key) {
            Some(i) => Some(&self.entries[i].1),
            None => None,
        }
    }

    /// Stores `value` for `key`, replacing any earlier value.
    pub fn insert(&mut self, key: K, value: V)
        requires
            old(self).wf(),
        ensures
            final(self).wf(),
            final(self).view() == old(self).view().insert(key.text_key(), value),
    {
        let ghost kv = key.text_key();
        match self.index_of(&key) {
            Some(i) => {
                let ghost es = self.entries@;
                self.entries.set(i, (key, value));
                proof {
                    assert forall|j: int| i < j < es.len() implies #[trigger] es[j].0.text_key() != kv by {
                        assert(es[i as int].0.text_key() != es[j].0.text_key());
                    }
                    lemma_keyed_map_update(es, i as int, self.entries@[i as int]);
                    assert(self.entries@ == es.update(i as int, self.entries@[i as int]));
                    assert forall|a: int, b: int|
                        0 <= a < b < self.entries@.len() implies #[trigger] self.entries@[a].0.text_key()
                        != #[trigger] self.entries@[b].0.text_key() by {
                        assert(es[a].0.text_key() != es[b].0.text_key());
                    }
                }
            },
            None => {
                let ghost es = self.entries@;
                self.entries.push((key, value));
                proof {
                    assert(self.entries@.drop_last() =~= es);
                    lemma_keyed_map_dom(es, kv);
                    assert forall|a: int, b: int|
                        0 <= a < b < self.entries@.len() implies #[trigger] self.entries@[a].0.text_key()
                        != #[trigger] self.entries@[b].0.text_key() by {
                        if b == es.len() {
                            assert(es[a].0.text_key() != kv);
                        } else {
                            assert(es[a].0.text_key() != es[b].0.text_key());
                        }
                    }
                }
            },
        }
    }

    /// Removes every entry.
    /// Inserts every entry of `other`, in order; the entries of `other` win.
    pub fn merge_from(&mut self, other: KeyMap<K, V>)
        requires
            old(self).wf(),
        ensures
            final(self).wf(),
            final(self).view() == old(self).view().union_prefer_right(other.view()),
    {
        let ghost base = self.view();
        let ghost orig = other.entries@;
        let mut rest = other.entries;
        let ghost mut k: int = 0;
        while rest.len() > 0
            invariant
                0 <= k <= orig.len(),
                rest@ == orig.skip(k),
                self.wf(),
                self.view() == base.union_prefer_right(keyed_map(orig.take(k))),
            decreases rest@.len(),
        {
            let e = rest.remove(0);
            assert(e == orig[k]);
            self.insert(e.0, e.1);
            proof {
                assert(orig.take(k + 1).drop_last() =~= orig.take(k));
                assert(self.view() =~= base.union_prefer_right(keyed_map(orig.take(k + 1))));
                k = k + 1;
                assert(rest@ =~= orig.skip(k));
            }
        }
        assert(orig.take(k) =~= orig);
    }

    pub fn clear(&mut self)
        ensures
            final(self).wf(),
            final(self).view() == Map::<Seq<Seq<char>>, V>::empty(),
    {
        self.entries = Vec::new();
    }

    /// Number of entries.
    pub fn len(&self) -> (n: usize)
        requires
            self.wf(),
        ensures
            n == self.entries@.len(),
            n == self.view().dom().len(),
    {
        proof {
            lemma_keyed_map_len(self.entries@);
        }
        self.entries.len()
    }
}

proof fn lemma_keyed_map_len<K: TextKey, V>(es: Seq<(K, V)>)
    requires
        forall|i: int, j: int|
            0 <= i < j < es.len() ==> #[trigger] es[i].0.text_key() != #[trigger] es[j].0.text_key(),
    ensures
        keyed_map(es).dom().finite(),
        keyed_map(es).dom().len() == es.len(),
    decreases es.len(),
{
    if es.len() > 0 {
        lemma_keyed_map_len(es.drop_last());
        lemma_keyed_map_dom(es.drop_last(), es.last().0.text_key());
        if keyed_map(es.drop_last()).contains_key(es.last().0.text_key()) {
            let i = choose|i: int| 0 <= i < es.drop_last().len() && #[trigger] es.drop_last()[i].0.text_key() == es.last().0.text_key();
            assert(es[i].0.text_key() != es[es.len() - 1].0.text_key());
        }
    }
}

} // verus!
