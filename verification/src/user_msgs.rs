//! The registry of user message ids: which id the engine gave each user
//! message name. Only usable ids are kept: an id must be positive and not
//! 255, which the engine uses for a failed registration.

use vstd::prelude::*;
use crate::text::{str_chars, chars_eq};
use crate::placeholder_registry::{pos, pos_from, distinct};

verus! {

/// Whether the engine's answer is a usable user message id.
pub open spec fn valid_msg_id(id: i32) -> bool {
    id > 0 && id != 255
}

/// The names of a list of registrations.
pub open spec fn msg_names(v: Seq<(Seq<char>, i32)>) -> Seq<Seq<char>> {
    v.map_values(|e: (Seq<char>, i32)| e.0)
}

/// The id registered for `name`, if any.
pub open spec fn msg_lookup(v: Seq<(Seq<char>, i32)>, name: Seq<char>) -> Option<i32> {
    match pos(msg_names(v), name) {
        Some(i) => Some(v[i].1),
        None => None,
    }
}

/// The registrations after recording `id` for `name`: a usable id replaces
/// the name's earlier one or is added; any other answer changes nothing.
pub open spec fn msg_after_register(v: Seq<(Seq<char>, i32)>, name: Seq<char>, id: i32) -> Seq<(Seq<char>, i32)> {
    if !valid_msg_id(id) {
        v
    } else {
        match pos(msg_names(v), name) {
            Some(i) => v.update(i, (name, id)),
            None => v.push((name, id)),
        }
    }
}

/// Known user message ids, by message name.
pub struct UserMsgRegistry {
    pub ids: Vec<(String, i32)>,
}

impl View for UserMsgRegistry {
    type V = Seq<(Seq<char>, i32)>;

    open spec fn view(&self) -> Seq<(Seq<char>, i32)> {
        self.ids@.map_values(|e: (String, i32)| (e.0@, e.1))
    }
}

proof fn lemma_pos_props<K>(ks: Seq<K>, k: K, i: int)
    requires
        0 <= i,
    ensures
        pos_from(ks, k, i) matches Some(j) ==> i <= j < ks.len() && ks[j] == k,
        pos_from(ks, k, i) is None ==> forall|j: int| i <= j < ks.len() ==> ks[j] != k,
    decreases ks.len() - i,
{
    if i < ks.len() {
        lemma_pos_props(ks, k, i + 1);
    }
}

proof fn lemma_pos_first<K>(ks: Seq<K>, k: K, from: int, i: int)
    requires
        0 <= from <= i < ks.len(),
        ks[i] == k,
        forall|j: int| 0 <= j < i ==> ks[j] != k,
    ensures
        pos_from(ks, k, from) == Some(i),
    decreases i - from,
{
    if from < i {
        lemma_pos_first(ks, k, from + 1, i);
    }
}

/// Recording a usable id for a name makes it the name's id; recording any
/// other answer leaves every name's id as it was.
pub proof fn lemma_register_then_lookup(v: Seq<(Seq<char>, i32)>, name: Seq<char>, id: i32, other: Seq<char>)
    requires
        distinct(msg_names(v)),
    ensures
        valid_msg_id(id) ==> msg_lookup(msg_after_register(v, name, id), name) == Some(id),
        !valid_msg_id(id) ==> msg_lookup(msg_after_register(v, name, id), other) == msg_lookup(v, other),
        other != name ==> msg_lookup(msg_after_register(v, name, id), other) == msg_lookup(v, other),
{
    let w = msg_after_register(v, name, id);
    lemma_pos_props(msg_names(v), name, 0);
    lemma_pos_props(msg_names(v), other, 0);
    if valid_msg_id(id) {
        match pos(msg_names(v), name) {
            Some(i) => {
                assert(msg_names(w) =~= msg_names(v).update(i, name));
                assert(msg_names(w) =~= msg_names(v));
                lemma_pos_first(msg_names(w), name, 0, i);
                if other != name {
                    lemma_pos_props(msg_names(w), other, 0);
                    match pos(msg_names(v), other) {
                        Some(j) => {
                            lemma_pos_first(msg_names(w), other, 0, j);
                        },
                        None => {},
                    }
                }
            },
            None => {
                assert(msg_names(w) =~= msg_names(v).push(name));
                assert forall|j: int| 0 <= j < v.len() implies msg_names(w)[j] != name by {
                    assert(msg_names(w)[j] == msg_names(v)[j]);
                }
                lemma_pos_first(msg_names(w), name, 0, v.len() as int);
                if other != name {
                    lemma_pos_props(msg_names(w), other, 0);
                    match pos(msg_names(v), other) {
                        Some(j) => {
                            assert(msg_names(w)[j] == other);
                            assert forall|t: int| 0 <= t < j implies msg_names(w)[t] != other by {
                                assert(msg_names(w)[t] == msg_names(v)[t]);
                            }
                            lemma_pos_first(msg_names(w), other, 0, j);
                        },
                        None => {
                            assert forall|t: int| 0 <= t < w.len() implies msg_names(w)[t] != other by {
                                if t < v.len() {
                                    assert(msg_names(w)[t] == msg_names(v)[t]);
                                }
                            }
                            lemma_pos_props(msg_names(w), other, 0);
                        },
                    }
                }
            },
        }
    }
}

impl UserMsgRegistry {
    /// No name occurs twice and every id is usable.
    pub open spec fn wf(&self) -> bool {
        &&& distinct(msg_names(self@))
        &&& forall|i: int| 0 <= i < self@.len() ==> valid_msg_id(#[trigger] self@[i].1)
    }

    /// A registry with no ids.
    pub fn new() -> (r: Self)
        ensures
            r.wf(),
            r@.len() == 0,
    {
        let r = UserMsgRegistry { ids: Vec::new() };
        assert(msg_names(r@) =~= Seq::<Seq<char>>::empty());
        r
    }

    fn index_of(&self, name: &Vec<char>) -> (r: Option<usize>)
        ensures
            match r {
                Some(i) => i < self.ids@.len() && pos(msg_names(self@), name@) == Some(i as int),
                None => pos(msg_names(self@), name@) is None,
            },
    {
        let mut i: usize = 0;
        while i < self.ids.len()
            invariant
                i <= self.ids@.len(),
                pos(msg_names(self@), name@) == pos_from(msg_names(self@), name@, i as int),
            decreases self.ids@.len() - i,
        {
            let c = str_chars(self.ids[i].0.as_str());
            assert(msg_names(self@)[i as int] == self.ids@[i as int].0@);
            if chars_eq(&c, name) {
                return Some(i);
            }
            i = i + 1;
        }
        None
    }

    /// Records the id the engine gave a user message, if it is usable.
    pub fn register_user_msg_id(&mut self, name: &str, id: i32)
        requires
            old(self).wf(),
        ensures
            final(self).wf(),
            final(self)@ == msg_after_register(old(self)@, name@, id),
    {
        if id > 0 && id != 255 {
            let nc = str_chars(name);
            proof {
                lemma_pos_props(msg_names(self@), name@, 0);
            }
            let ghost before = self@;
            match self.index_of(&nc) {
                Some(i) => {
                    self.ids.set(i, (name.to_string(), id));
                    assert(self@ =~= before.update(i as int, (name@, id)));
                    assert(msg_names(self@) =~= msg_names(before).update(i as int, name@));
                    assert(msg_names(self@) =~= msg_names(before));
                },
                None => {
                    self.ids.push((name.to_string(), id));
                    assert(self@ =~= before.push((name@, id)));
                    assert(msg_names(self@) =~= msg_names(before).push(name@));
                },
            }
        }
    }

    /// The usable id registered for a user message, if any.
    pub fn registered_id(&self, name: &str) -> (r: Option<i32>)
        requires
            self.wf(),
        ensures
            r == msg_lookup(self@, name@),
            r matches Some(id) ==> valid_msg_id(id),
    {
        let nc = str_chars(name);
        proof {
            lemma_pos_props(msg_names(self@), name@, 0);
        }
        match self.index_of(&nc) {
            Some(i) => {
                let id = self.ids[i].1;
                assert(self@[i as int].1 == id);
                if id > 0 && id != 255 {
                    Some(id)
                } else {
                    None
                }
            },
            None => None,
        }
    }

    /// Takes an id found for a user message (by the backend's resolver or
    /// the engine): a usable one is recorded and returned.
    pub fn accept_user_msg_id(&mut self, name: &str, id: i32) -> (r: Option<i32>)
        requires
            old(self).wf(),
        ensures
            final(self).wf(),
            final(self)@ == msg_after_register(old(self)@, name@, id),
            r == (if valid_msg_id(id) { Some(id) } else { None::<i32> }),
    {
        self.register_user_msg_id(name, id);
        if id > 0 && id != 255 {
            Some(id)
        } else {
            None
        }
    }
}

} // verus!
