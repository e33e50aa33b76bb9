//! What the engine backend decides from the values it reads out of the
//! engine: whether an edict is a live entity or a connected client, a
//! player's team, name and language, a cvar's value, the number of active
//! players, and the strings it writes into a network message.
//!
//! The engine calls that read those values stay with the backend; each
//! function here takes what was read, `None` where a read gave nothing.

use vstd::prelude::*;
use crate::text::{
    str_chars, chars_to_string, trim, trim_chars, eq_ignore_ascii_case, eq_ignore_ascii_case_chars, len_utf8,
    utf8_len, lowercase_chars, unicode_lowercase,
};
use crate::print::{byte_prefix, lemma_byte_prefix};

verus! {

/// The edict flag of a connected client (`FL_CLIENT`, bit 3).
pub const FL_CLIENT: i32 = 8;

/// The highest player slot.
pub const MAX_PLAYERS: i32 = 32;

/// The most bytes of a string written into a network message.
pub const MAX_MESSAGE_STRING_BYTES: usize = 500;

/// A `String` option viewed as an option of its characters.
pub open spec fn view_opt_spec(o: Option<String>) -> Option<Seq<char>> {
    match o {
        Some(s) => Some(s@),
        None => None,
    }
}

fn has_text(s: &String) -> (r: bool)
    ensures
        r == (s@.len() > 0),
{
    str_chars(s.as_str()).len() > 0
}

/// The fields of an edict the backend reads.
#[derive(Debug, Clone, Copy, PartialEq, Eq, Structural)]
pub struct EdictFields {
    /// Non-zero when the edict slot is free.
    pub free: i32,
    /// `pev->flags`.
    pub flags: i32,
    /// `pev->netname`, a string table offset (0 for none).
    pub netname: i32,
    /// `pev->team`.
    pub team: i32,
}

/// Whether `index` is a player slot.
pub open spec fn is_player_slot(index: i32) -> bool {
    1 <= index <= MAX_PLAYERS
}

/// Whether the edict at `index` is a live entity: it exists and is in use,
/// and a player slot also holds a connected client (`FL_CLIENT`) that has a
/// name: a `netname`, else a `name` info key that is not blank (when the
/// key could not be read, the client counts as named).
pub open spec fn entity_valid(index: i32, edict: Option<EdictFields>, info_name: Option<Seq<char>>) -> bool {
    match edict {
        None => false,
        Some(e) => if e.free != 0 {
            false
        } else if !is_player_slot(index) {
            true
        } else if e.flags & FL_CLIENT == 0 {
            false
        } else if e.netname != 0 {
            true
        } else {
            match info_name {
                Some(n) => trim(n).len() > 0,
                None => true,
            }
        },
    }
}

/// Decides whether the edict at `index` is a live entity, from its fields
/// and its `name` info key.
pub fn entity_is_valid(index: i32, edict: Option<EdictFields>, info_name: Option<String>) -> (r: bool)
    ensures
        r == entity_valid(index, edict, view_opt_spec(info_name)),
{
    match edict {
        None => false,
        Some(e) => {
            if e.free != 0 {
                false
            } else if !(1 <= index && index <= MAX_PLAYERS) {
                true
            } else if e.flags & FL_CLIENT == 0 {
                false
            } else if e.netname != 0 {
                true
            } else {
                match info_name {
                    Some(n) => {
                        let cs = str_chars(n.as_str());
                        let t = trim_chars(&cs);
                        t.len() > 0
                    },
                    None => true,
                }
            }
        },
    }
}

/// Whether the edict at `index` is handed out as a player: it exists and is
/// in use, and in a player slot it holds a connected client.
pub open spec fn player_edict(index: i32, edict: Option<EdictFields>) -> bool {
    match edict {
        None => false,
        Some(e) => e.free == 0 && (!is_player_slot(index) || e.flags & FL_CLIENT != 0),
    }
}

/// Decides whether the edict at `index` is handed out as a player.
pub fn is_player_edict(index: i32, edict: Option<EdictFields>) -> (r: bool)
    ensures
        r == player_edict(index, edict),
{
    match edict {
        None => false,
        Some(e) => e.free == 0 && (!(1 <= index && index <= MAX_PLAYERS) || e.flags & FL_CLIENT != 0),
    }
}

/// Player models of the terrorist team.
pub open spec fn terrorist_model(m: Seq<char>) -> bool {
    eq_ignore_ascii_case(m, "terror"@) || eq_ignore_ascii_case(m, "leet"@) || eq_ignore_ascii_case(m, "arctic"@)
        || eq_ignore_ascii_case(m, "guerilla"@)
}

/// Player models of the counter-terrorist team.
pub open spec fn counter_terrorist_model(m: Seq<char>) -> bool {
    eq_ignore_ascii_case(m, "urban"@) || eq_ignore_ascii_case(m, "gsg9"@) || eq_ignore_ascii_case(m, "gign"@)
        || eq_ignore_ascii_case(m, "sas"@) || eq_ignore_ascii_case(m, "vip"@)
}

/// A player's team number (1 terrorist, 2 counter-terrorist, 3 spectator,
/// 0 unassigned): the edict's team when it is one of those, else the team
/// its `model` info key belongs to.
pub open spec fn team_number(edict: Option<EdictFields>, model: Option<Seq<char>>) -> i32 {
    match edict {
        None => 0,
        Some(e) => if 1 <= e.team <= 3 {
            e.team
        } else {
            match model {
                Some(m) => if terrorist_model(m) {
                    1
                } else if counter_terrorist_model(m) {
                    2
                } else {
                    0
                },
                None => 0,
            }
        },
    }
}

fn any_of(m: &Vec<char>, names: &Vec<&'static str>) -> (r: bool)
    ensures
        r == exists|k: int| 0 <= k < names@.len() && eq_ignore_ascii_case(m@, (#[trigger] names@[k])@),
{
    let mut k: usize = 0;
    while k < names.len()
        invariant
            k <= names@.len(),
            forall|j: int| 0 <= j < k ==> !eq_ignore_ascii_case(m@, (#[trigger] names@[j])@),
        decreases names@.len() - k,
    {
        let n = str_chars(names[k]);
        if eq_ignore_ascii_case_chars(m, &n) {
            return true;
        }
        k = k + 1;
    }
    false
}

/// Decides a player's team number from the edict and its `model` info key.
pub fn player_team(edict: Option<EdictFields>, model: Option<String>) -> (r: i32)
    ensures
        r == team_number(edict, view_opt_spec(model)),
{
    match edict {
        None => 0,
        Some(e) => {
            if 1 <= e.team && e.team <= 3 {
                return e.team;
            }
            match model {
                None => 0,
                Some(m) => {
                    let mc = str_chars(m.as_str());
                    let t: Vec<&'static str> = vec!["terror", "leet", "arctic", "guerilla"];
                    let ct: Vec<&'static str> = vec!["urban", "gsg9", "gign", "sas", "vip"];
                    let is_t = any_of(&mc, &t);
                    let is_ct = any_of(&mc, &ct);
                    proof {
                        assert(terrorist_model(m@) ==> exists|k: int|
                            0 <= k < t@.len() && eq_ignore_ascii_case(mc@, (#[trigger] t@[k])@)) by {
                            if eq_ignore_ascii_case(m@, "terror"@) {
                                assert(t@[0]@ == "terror"@);
                            } else if eq_ignore_ascii_case(m@, "leet"@) {
                                assert(t@[1]@ == "leet"@);
                            } else if eq_ignore_ascii_case(m@, "arctic"@) {
                                assert(t@[2]@ == "arctic"@);
                            } else if eq_ignore_ascii_case(m@, "guerilla"@) {
                                assert(t@[3]@ == "guerilla"@);
                            }
                        }
                        assert(counter_terrorist_model(m@) ==> exists|k: int|
                            0 <= k < ct@.len() && eq_ignore_ascii_case(mc@, (#[trigger] ct@[k])@)) by {
                            if eq_ignore_ascii_case(m@, "urban"@) {
                                assert(ct@[0]@ == "urban"@);
                            } else if eq_ignore_ascii_case(m@, "gsg9"@) {
                                assert(ct@[1]@ == "gsg9"@);
                            } else if eq_ignore_ascii_case(m@, "gign"@) {
                                assert(ct@[2]@ == "gign"@);
                            } else if eq_ignore_ascii_case(m@, "sas"@) {
                                assert(ct@[3]@ == "sas"@);
                            } else if eq_ignore_ascii_case(m@, "vip"@) {
                                assert(ct@[4]@ == "vip"@);
                            }
                        }
                    }
                    if is_t {
                        1
                    } else if is_ct {
                        2
                    } else {
                        0
                    }
                },
            }
        },
    }
}

/// The first value that is present and not empty.
pub open spec fn first_non_empty(a: Option<Seq<char>>, b: Option<Seq<char>>) -> Option<Seq<char>> {
    if a matches Some(x) && x.len() > 0 {
        a
    } else if b matches Some(y) && y.len() > 0 {
        b
    } else {
        None
    }
}

/// A player's name: the `name` info key, else the edict's `netname`
/// string, whichever is first present and not empty.
pub fn player_name(info_name: Option<String>, netname: Option<String>) -> (r: Option<String>)
    ensures
        match r {
            Some(s) => first_non_empty(view_opt_spec(info_name), view_opt_spec(netname)) == Some(s@),
            None => first_non_empty(view_opt_spec(info_name), view_opt_spec(netname)) is None,
        },
{
    match info_name {
        Some(n) => {
            if has_text(&n) {
                return Some(n);
            }
        },
        None => {},
    }
    match netname {
        Some(n) => {
            if has_text(&n) {
                return Some(n);
            }
        },
        None => {},
    }
    None
}

/// A player's language from the values of its `_lang`, `_cl_lang`, `lang`
/// and `cl_lang` info keys, in that order: the first that is not blank,
/// trimmed and lowercased.
pub open spec fn lang_from_keys(values: Seq<Option<Seq<char>>>) -> Option<Seq<char>>
    decreases values.len(),
{
    if values.len() == 0 {
        None
    } else {
        match values[0] {
            Some(v) => if trim(v).len() > 0 {
                Some(unicode_lowercase(trim(v)))
            } else {
                lang_from_keys(values.drop_first())
            },
            None => lang_from_keys(values.drop_first()),
        }
    }
}

/// A player's language: from its info keys (`key_values`, read in key
/// order), else the server's `server_language` cvar. `None` when the player
/// has no edict.
pub fn player_lang(has_edict: bool, key_values: &Vec<Option<String>>, server_language: Option<String>) -> (r: Option<String>)
    ensures
        !has_edict ==> r is None,
        has_edict ==> match lang_from_keys(key_values@.map_values(|o: Option<String>| view_opt_spec(o))) {
            Some(l) => r matches Some(s) && s@ == l,
            None => match server_language {
                Some(sl) => r matches Some(s) && s@ == sl@,
                None => r is None,
            },
        },
{
    if !has_edict {
        return None;
    }
    let ghost vs = key_values@.map_values(|o: Option<String>| view_opt_spec(o));
    let mut k: usize = 0;
    assert(vs.skip(0) =~= vs);
    while k < key_values.len()
        invariant
            has_edict,
            k <= key_values@.len(),
            vs == key_values@.map_values(|o: Option<String>| view_opt_spec(o)),
            lang_from_keys(vs) == lang_from_keys(vs.skip(k as int)),
        decreases key_values@.len() - k,
    {
        assert(vs.skip(k as int).drop_first() =~= vs.skip(k as int + 1));
        match &key_values[k] {
            Some(v) => {
                let cs = str_chars(v.as_str());
                let t = trim_chars(&cs);
                if t.len() > 0 {
                    let lo = lowercase_chars(&t);
                    return Some(chars_to_string(&lo));
                }
            },
            None => {},
        }
        k = k + 1;
    }
    assert(vs.skip(k as int).len() == 0);
    server_language
}

/// A cvar's value: the engine's string for it, else the string behind its
/// cvar pointer, else, for `mapname`, the map name the resolver gives;
/// whichever is first present and not empty.
pub open spec fn cvar_value(name: Seq<char>, direct: Option<Seq<char>>, pointed: Option<Seq<char>>, map: Option<Seq<char>>) -> Option<Seq<char>> {
    match first_non_empty(direct, pointed) {
        Some(v) => Some(v),
        None => if name == "mapname"@ {
            first_non_empty(map, None)
        } else {
            None
        },
    }
}

/// Decides a cvar's value from what the engine's two lookups gave and,
/// for `mapname`, from the map name resolver.
pub fn cvar_string(name: &str, direct: Option<String>, pointed: Option<String>, map: Option<String>) -> (r: Option<String>)
    ensures
        match r {
            Some(s) => cvar_value(name@, view_opt_spec(direct), view_opt_spec(pointed), view_opt_spec(map)) == Some(s@),
            None => cvar_value(name@, view_opt_spec(direct), view_opt_spec(pointed), view_opt_spec(map)) is None,
        },
{
    match direct {
        Some(v) => {
            if has_text(&v) {
                return Some(v);
            }
        },
        None => {},
    }
    match pointed {
        Some(v) => {
            if has_text(&v) {
                return Some(v);
            }
        },
        None => {},
    }
    let nc = str_chars(name);
    let is_map = crate::text::chars_eq_str(&nc, "mapname");
    if is_map {
        match map {
            Some(m) => {
                if has_text(&m) {
                    return Some(m);
                }
            },
            None => {},
        }
    }
    None
}

/// The number of active players: the count the authentication layer
/// keeps, when it keeps any; else the number of player slots that have a
/// name (`named[k]` for slot `k + 1`).
pub open spec fn active_players(auth_count: nat, named: Seq<bool>) -> nat {
    if auth_count > 0 {
        auth_count
    } else {
        named.filter(|b: bool| b).len()
    }
}

/// Counts the active players.
pub fn count_active_players(auth_count: usize, named: &Vec<bool>) -> (r: usize)
    ensures
        r == active_players(auth_count as nat, named@),
{
    if auth_count > 0 {
        return auth_count;
    }
    let mut count: usize = 0;
    let mut k: usize = 0;
    proof {
        reveal(Seq::filter);
    }
    while k < named.len()
        invariant
            k <= named@.len(),
            count == named@.take(k as int).filter(|b: bool| b).len(),
            count <= k,
        decreases named@.len() - k,
    {
        proof {
            reveal(Seq::filter);
            assert(named@.take(k as int + 1).drop_last() =~= named@.take(k as int));
        }
        if named[k] {
            count = count + 1;
        }
        k = k + 1;
    }
    assert(named@.take(k as int) =~= named@);
    count
}

/// The characters of `s` without its NUL characters.
pub open spec fn without_nul(s: Seq<char>) -> Seq<char> {
    s.filter(|c: char| c != '\0')
}

/// The string written into a network message: NUL characters removed and
/// cut to 500 bytes at a character boundary.
pub open spec fn message_string(s: Seq<char>) -> Seq<char> {
    byte_prefix(without_nul(s), MAX_MESSAGE_STRING_BYTES as nat)
}

/// Prepares a string for a network message.
pub fn message_safe_string(s: &str) -> (r: String)
    ensures
        r@ == message_string(s@),
{
    let cs = str_chars(s);
    let mut clean: Vec<char> = Vec::new();
    let mut i: usize = 0;
    proof {
        reveal(Seq::filter);
    }
    while i < cs.len()
        invariant
            cs@ == s@,
            i <= cs@.len(),
            clean@ == without_nul(cs@.take(i as int)),
        decreases cs@.len() - i,
    {
        proof {
            reveal(Seq::filter);
            assert(cs@.take(i as int + 1).drop_last() =~= cs@.take(i as int));
        }
        if cs[i] != '\0' {
            clean.push(cs[i]);
        }
        i = i + 1;
    }
    assert(cs@.take(i as int) =~= s@);
    let mut k: usize = 0;
    let mut used: usize = 0;
    while k < clean.len() && used + len_utf8(clean[k]) <= MAX_MESSAGE_STRING_BYTES
        invariant
            k <= clean@.len(),
            used <= MAX_MESSAGE_STRING_BYTES,
            used as nat == utf8_len(clean@.take(k as int)),
        decreases clean@.len() - k,
    {
        assert(clean@.take(k as int + 1).drop_last() =~= clean@.take(k as int));
        used = used + len_utf8(clean[k]);
        k = k + 1;
    }
    proof {
        if k < clean@.len() {
            assert(clean@.take(k as int + 1).drop_last() =~= clean@.take(k as int));
        }
        lemma_byte_prefix(clean@, MAX_MESSAGE_STRING_BYTES as nat, k as int);
    }
    let mut out: Vec<char> = Vec::new();
    let mut j: usize = 0;
    while j < k
        invariant
            j <= k <= clean@.len(),
            out@ == clean@.take(j as int),
        decreases k - j,
    {
        out.push(clean[j]);
        assert(out@ =~= clean@.take(j as int + 1));
        j = j + 1;
    }
    chars_to_string(&out)
}

} // verus!
