//! The placeholder registry: providers registered per plugin, looked up by
//! a fully qualified `{plugin:name}` call or by a short name or alias.
//!
//! Names and plugin names are keyed by their lowercase form. A short name
//! (or alias) that several registrations claim is ambiguous and must be
//! qualified. The registry only decides which provider answers a call; the
//! provider itself (`H`) is run by its caller.

use vstd::prelude::*;
use crate::text::{
    str_chars, chars_eq, chars_to_string, extend_str, extend_chars, to_lowercase, unicode_lowercase,
    eq_ignore_ascii_case, eq_ignore_ascii_case_str, parse_usize, parse_usize_chars,
};

verus! {

/// Description of a placeholder provider.
pub struct PlaceholderMetadata {
    /// The placeholder's name.
    pub name: String,
    /// What it returns.
    pub description: String,
    /// How it is written.
    pub usage: String,
    /// Other short names that resolve to it.
    pub aliases: Vec<String>,
    /// A capability the caller must hold, if any.
    pub capability: Option<String>,
}

/// A placeholder call: `{ident}` or `{domain:ident}`.
pub struct PlaceholderCall {
    /// The plugin the call names, if it is qualified.
    pub domain: Option<String>,
    /// The placeholder's name.
    pub ident: String,
}

/// A registered provider.
pub struct RegistryEntry<H> {
    /// The plugin that registered it, as it was given.
    pub plugin_name: String,
    /// Its description.
    pub metadata: PlaceholderMetadata,
    /// The provider.
    pub handler: H,
}

/// The placeholder registry.
pub struct PlaceholderRegistry<H> {
    /// The providers, keyed by (lowercase plugin, lowercase name).
    pub entries: Vec<(String, String, RegistryEntry<H>)>,
    /// For each lowercase short name or alias, the lowercase plugins that
    /// registered it, once per registration.
    pub short_lookup: Vec<(String, Vec<String>)>,
}

/// The characters of each string.
pub open spec fn texts(v: Seq<String>) -> Seq<Seq<char>> {
    v.map_values(|s: String| s@)
}

/// The first position from `i` on at which `ks` holds `k`.
pub open spec fn pos_from<K>(ks: Seq<K>, k: K, i: int) -> Option<int>
    decreases ks.len() - i,
{
    if i < 0 || i >= ks.len() {
        None
    } else if ks[i] == k {
        Some(i)
    } else {
        pos_from(ks, k, i + 1)
    }
}

/// The first position at which `ks` holds `k`.
pub open spec fn pos<K>(ks: Seq<K>, k: K) -> Option<int> {
    pos_from(ks, k, 0)
}

/// No value occurs twice in `ks`.
pub open spec fn distinct<K>(ks: Seq<K>) -> bool {
    forall|i: int, j: int| 0 <= i < j < ks.len() ==> ks[i] != ks[j]
}

/// The keys of the short-name table.
pub open spec fn short_keys(s: Seq<(Seq<char>, Seq<Seq<char>>)>) -> Seq<Seq<char>> {
    s.map_values(|e: (Seq<char>, Seq<Seq<char>>)| e.0)
}

/// Records one more registration of short name `k` by plugin `p`.
pub open spec fn short_push(s: Seq<(Seq<char>, Seq<Seq<char>>)>, k: Seq<char>, p: Seq<char>) -> Seq<
    (Seq<char>, Seq<Seq<char>>),
> {
    match pos(short_keys(s), k) {
        Some(i) => s.update(i, (k, s[i].1.push(p))),
        None => s.push((k, seq![p])),
    }
}

/// Records registrations of the short names `ks`, in order, by plugin `p`.
pub open spec fn short_push_all(s: Seq<(Seq<char>, Seq<Seq<char>>)>, ks: Seq<Seq<char>>, p: Seq<char>) -> Seq<
    (Seq<char>, Seq<Seq<char>>),
>
    decreases ks.len(),
{
    if ks.len() == 0 {
        s
    } else {
        short_push_all(short_push(s, ks[0], p), ks.drop_first(), p)
    }
}

/// The short names a registration claims: its lowercase name, then its
/// lowercase aliases.
pub open spec fn short_names(m: PlaceholderMetadata) -> Seq<Seq<char>> {
    seq![unicode_lowercase(m.name@)] + texts(m.aliases@).map_values(|a: Seq<char>| unicode_lowercase(a))
}

/// The registry state: entry keys, entries (plugin name as given,
/// metadata, provider) and the short-name table.
pub open spec fn after_register<H>(
    st: (Seq<(Seq<char>, Seq<char>)>, Seq<(Seq<char>, PlaceholderMetadata, H)>, Seq<(Seq<char>, Seq<Seq<char>>)>),
    plugin: Seq<char>,
    m: PlaceholderMetadata,
    h: H,
) -> (Seq<(Seq<char>, Seq<char>)>, Seq<(Seq<char>, PlaceholderMetadata, H)>, Seq<(Seq<char>, Seq<Seq<char>>)>) {
    let k = (unicode_lowercase(plugin), unicode_lowercase(m.name@));
    let shorts = short_push_all(st.2, short_names(m), unicode_lowercase(plugin));
    match pos(st.0, k) {
        Some(i) => (st.0, st.1.update(i, (plugin, m, h)), shorts),
        None => (st.0.push(k), st.1.push((plugin, m, h)), shorts),
    }
}

/// The state after registering each of `ms` with its provider from `hs`,
/// in order, all under plugin `plugin`.
pub open spec fn after_registers<H>(
    st: (Seq<(Seq<char>, Seq<char>)>, Seq<(Seq<char>, PlaceholderMetadata, H)>, Seq<(Seq<char>, Seq<Seq<char>>)>),
    plugin: Seq<char>,
    ms: Seq<PlaceholderMetadata>,
    hs: Seq<H>,
) -> (Seq<(Seq<char>, Seq<char>)>, Seq<(Seq<char>, PlaceholderMetadata, H)>, Seq<(Seq<char>, Seq<Seq<char>>)>)
    decreases ms.len(),
{
    if ms.len() == 0 || hs.len() == 0 {
        st
    } else {
        after_registers(after_register(st, plugin, ms[0], hs[0]), plugin, ms.drop_first(), hs.drop_first())
    }
}

/// Whether a registered entry answers short name `il` for plugin `p` by
/// ASCII case-insensitive comparison of its plugin, its name or an alias.
pub open spec fn entry_answers<H>(e: (Seq<char>, PlaceholderMetadata, H), p: Seq<char>, il: Seq<char>) -> bool {
    &&& eq_ignore_ascii_case(e.0, p)
    &&& (eq_ignore_ascii_case(e.1.name@, il) || exists|j: int|
        0 <= j < e.1.aliases@.len() && eq_ignore_ascii_case(#[trigger] e.1.aliases@[j]@, il))
}

/// The first entry from position `k` on that answers `il` for `p`.
pub open spec fn answer_from<H>(es: Seq<(Seq<char>, PlaceholderMetadata, H)>, p: Seq<char>, il: Seq<char>, k: int) -> Option<int>
    decreases es.len() - k,
{
    if k < 0 || k >= es.len() {
        None
    } else if entry_answers(es[k], p, il) {
        Some(k)
    } else {
        answer_from(es, p, il, k + 1)
    }
}

/// What `format!("{:?}", items)` gives for a list of strings.
pub uninterp spec fn debug_text_list(items: Seq<Seq<char>>) -> Seq<char>;

/// The error for a short name that no registration answers.
pub open spec fn unknown_message(ident: Seq<char>) -> Seq<char> {
    "Unknown placeholder '{"@ + ident + "}'"@
}

/// The error for a qualified call that its plugin does not provide.
pub open spec fn not_found_message(domain: Seq<char>, ident: Seq<char>) -> Seq<char> {
    "Placeholder '{"@ + domain + ": "@ + ident + "}' not found in plugin '"@ + domain + "'"@
}

/// The error for a short name that several registrations claim.
pub open spec fn ambiguous_message(ident: Seq<char>, plugins: Seq<Seq<char>>) -> Seq<char> {
    "Ambiguous placeholder '{"@ + ident + "}' registered by multiple plugins: "@ + debug_text_list(plugins)
        + ". Use fully-qualified format '{"@ + plugins[0] + ": ...}'"@
}

/// Which entry answers a call, or the error: a qualified call is looked up
/// by its lowercase key; a short one through the short-name table, which
/// must name exactly one plugin.
pub open spec fn resolution<H>(
    st: (Seq<(Seq<char>, Seq<char>)>, Seq<(Seq<char>, PlaceholderMetadata, H)>, Seq<(Seq<char>, Seq<Seq<char>>)>),
    domain: Option<Seq<char>>,
    ident: Seq<char>,
) -> Result<int, Seq<char>> {
    let il = unicode_lowercase(ident);
    match domain {
        Some(d) => match pos(st.0, (unicode_lowercase(d), il)) {
            Some(i) => Ok(i),
            None => Err(not_found_message(d, ident)),
        },
        None => match pos(short_keys(st.2), il) {
            Some(s) => {
                let ps = st.2[s].1;
                if ps.len() == 1 {
                    match pos(st.0, (ps[0], il)) {
                        Some(i) => Ok(i),
                        None => match answer_from(st.1, ps[0], il, 0) {
                            Some(i) => Ok(i),
                            None => Err(unknown_message(ident)),
                        },
                    }
                } else if ps.len() > 1 {
                    Err(ambiguous_message(ident, ps))
                } else {
                    Err(unknown_message(ident))
                }
            },
            None => Err(unknown_message(ident)),
        },
    }
}

proof fn lemma_pos_from<K>(ks: Seq<K>, k: K, i: int)
    requires
        0 <= i,
    ensures
        pos_from(ks, k, i) matches Some(j) ==> i <= j < ks.len() && ks[j] == k,
        pos_from(ks, k, i) is None ==> forall|j: int| i <= j < ks.len() ==> ks[j] != k,
    decreases ks.len() - i,
{
    if i < ks.len() {
        lemma_pos_from(ks, k, i + 1);
    }
}

proof fn lemma_pos_distinct<K>(ks: Seq<K>, i: int)
    requires
        distinct(ks),
        0 <= i < ks.len(),
    ensures
        pos(ks, ks[i]) == Some(i),
{
    lemma_pos_prefix(ks, ks[i], 0, i);
}

proof fn lemma_pos_prefix<K>(ks: Seq<K>, k: K, from: int, i: int)
    requires
        0 <= from <= i < ks.len(),
        ks[i] == k,
        forall|j: int| 0 <= j < i ==> ks[j] != k,
    ensures
        pos_from(ks, k, from) == Some(i),
    decreases i - from,
{
    if from < i {
        lemma_pos_prefix(ks, k, from + 1, i);
    }
}

proof fn lemma_answer_from<H>(es: Seq<(Seq<char>, PlaceholderMetadata, H)>, p: Seq<char>, il: Seq<char>, k: int)
    requires
        0 <= k,
    ensures
        answer_from(es, p, il, k) matches Some(j) ==> k <= j < es.len(),
    decreases es.len() - k,
{
    if k < es.len() {
        lemma_answer_from(es, p, il, k + 1);
    }
}

proof fn lemma_short_push_distinct(s: Seq<(Seq<char>, Seq<Seq<char>>)>, k: Seq<char>, p: Seq<char>)
    requires
        distinct(short_keys(s)),
    ensures
        distinct(short_keys(short_push(s, k, p))),
{
    lemma_pos_from(short_keys(s), k, 0);
    let r = short_push(s, k, p);
    match pos(short_keys(s), k) {
        Some(i) => {
            assert(short_keys(r) =~= short_keys(s));
        },
        None => {
            assert(short_keys(r) =~= short_keys(s).push(k));
        },
    }
}

proof fn lemma_short_push_all_snoc(s: Seq<(Seq<char>, Seq<Seq<char>>)>, ks: Seq<Seq<char>>, k: Seq<char>, p: Seq<char>)
    ensures
        short_push_all(s, ks.push(k), p) == short_push(short_push_all(s, ks, p), k, p),
    decreases ks.len(),
{
    if ks.len() == 0 {
        assert(ks.push(k).drop_first() =~= Seq::<Seq<char>>::empty());
        assert(ks.push(k)[0] == k);
        assert(short_push_all(s, ks.push(k), p) == short_push_all(short_push(s, k, p), ks.push(k).drop_first(), p));
    } else {
        assert(ks.push(k).drop_first() =~= ks.drop_first().push(k));
        assert(ks.push(k)[0] == ks[0]);
        lemma_short_push_all_snoc(short_push(s, ks[0], p), ks.drop_first(), k, p);
    }
}

/// The built-in providers' descriptions, registered under `engine`:
/// `name`, `ip`, `authid`, `health` and `armor`.
pub open spec fn is_builtin_metadata(ms: Seq<PlaceholderMetadata>) -> bool {
    &&& ms.len() == 5
    &&& ms[0].name@ == "name"@ && ms[0].description@ == "Returns player display name"@
        && ms[0].usage@ == "{name} or {name(target=1..32)}"@ && texts(ms[0].aliases@) == seq!["player_name"@]
        && ms[0].capability is None
    &&& ms[1].name@ == "ip"@ && ms[1].description@ == "Returns player IP address"@
        && ms[1].usage@ == "{ip} or {ip(target=1..32)}"@ && texts(ms[1].aliases@) == seq!["player_ip"@]
        && ms[1].capability is None
    &&& ms[2].name@ == "authid"@ && ms[2].description@ == "Returns player SteamID / AuthID"@
        && ms[2].usage@ == "{authid} or {id}"@ && texts(ms[2].aliases@) == seq!["id"@, "steamid"@]
        && ms[2].capability is None
    &&& ms[3].name@ == "health"@ && ms[3].description@ == "Returns player current health points"@
        && ms[3].usage@ == "{health} or {hp}"@ && texts(ms[3].aliases@) == seq!["hp"@]
        && ms[3].capability is None
    &&& ms[4].name@ == "armor"@ && ms[4].description@ == "Returns player current armor points"@
        && ms[4].usage@ == "{armor} or {ap}"@ && texts(ms[4].aliases@) == seq!["ap"@]
        && ms[4].capability is None
}

/// The empty registry state.
pub open spec fn empty_state<H>() -> (Seq<(Seq<char>, Seq<char>)>, Seq<(Seq<char>, PlaceholderMetadata, H)>, Seq<(Seq<char>, Seq<Seq<char>>)>) {
    (Seq::empty(), Seq::empty(), Seq::empty())
}

proof fn lemma_after_registers_snoc<H>(
    st: (Seq<(Seq<char>, Seq<char>)>, Seq<(Seq<char>, PlaceholderMetadata, H)>, Seq<(Seq<char>, Seq<Seq<char>>)>),
    p: Seq<char>,
    ms: Seq<PlaceholderMetadata>,
    hs: Seq<H>,
    m: PlaceholderMetadata,
    h: H,
)
    requires
        ms.len() == hs.len(),
    ensures
        after_registers(st, p, ms.push(m), hs.push(h)) == after_register(after_registers(st, p, ms, hs), p, m, h),
    decreases ms.len(),
{
    if ms.len() == 0 {
        assert(ms.push(m).drop_first() =~= Seq::<PlaceholderMetadata>::empty());
        assert(hs.push(h).drop_first() =~= Seq::<H>::empty());
        assert(ms.push(m)[0] == m);
        assert(hs.push(h)[0] == h);
        let st1 = after_register(st, p, m, h);
        assert(after_registers(st1, p, Seq::<PlaceholderMetadata>::empty(), Seq::<H>::empty()) == st1);
    } else {
        assert(ms.push(m).drop_first() =~= ms.drop_first().push(m));
        assert(hs.push(h).drop_first() =~= hs.drop_first().push(h));
        assert(ms.push(m)[0] == ms[0]);
        assert(hs.push(h)[0] == hs[0]);
        lemma_after_registers_snoc(after_register(st, p, ms[0], hs[0]), p, ms.drop_first(), hs.drop_first(), m, h);
    }
}

fn one_string(a: &str) -> (v: Vec<String>)
    ensures
        texts(v@) == seq![a@],
{
    let mut v: Vec<String> = Vec::new();
    v.push(a.to_string());
    assert(texts(v@) =~= seq![a@]);
    v
}

fn metadata(name: &str, description: &str, usage: &str, aliases: Vec<String>) -> (m: PlaceholderMetadata)
    ensures
        m.name@ == name@,
        m.description@ == description@,
        m.usage@ == usage@,
        m.aliases == aliases,
        m.capability is None,
{
    PlaceholderMetadata {
        name: name.to_string(),
        description: description.to_string(),
        usage: usage.to_string(),
        aliases,
        capability: None,
    }
}

/// The descriptions of the built-in providers.
pub fn builtin_metadata() -> (r: Vec<PlaceholderMetadata>)
    ensures
        is_builtin_metadata(r@),
{
    let mut r: Vec<PlaceholderMetadata> = Vec::new();
    r.push(metadata("name", "Returns player display name", "{name} or {name(target=1..32)}", one_string("player_name")));
    r.push(metadata("ip", "Returns player IP address", "{ip} or {ip(target=1..32)}", one_string("player_ip")));
    let mut ids: Vec<String> = Vec::new();
    ids.push("id".to_string());
    ids.push("steamid".to_string());
    assert(texts(ids@) =~= seq!["id"@, "steamid"@]);
    r.push(metadata("authid", "Returns player SteamID / AuthID", "{authid} or {id}", ids));
    r.push(metadata("health", "Returns player current health points", "{health} or {hp}", one_string("hp")));
    r.push(metadata("armor", "Returns player current armor points", "{armor} or {ap}", one_string("ap")));
    r
}

/// The player a provider reads: the `target` parameter when it parses as a
/// slot from 1 to 32, else the caller.
pub fn resolve_target(caller: i32, target: Option<&str>) -> (r: i32)
    ensures
        r == (match target {
            Some(t) => match parse_usize(t@) {
                Some(v) => if 1 <= v <= 32 { v as int } else { caller as int },
                None => caller as int,
            },
            None => caller as int,
        }),
{
    match target {
        Some(t) => {
            let tc = str_chars(t);
            match parse_usize_chars(&tc) {
                Some(v) => {
                    if 1 <= v && v <= 32 {
                        v as i32
                    } else {
                        caller
                    }
                },
                None => caller,
            }
        },
        None => caller,
    }
}

proof fn lemma_short_push_keeps(s: Seq<(Seq<char>, Seq<Seq<char>>)>, k: Seq<char>, p: Seq<char>, i: int)
    requires
        0 <= i < s.len(),
    ensures
        short_push(s, k, p).len() >= s.len(),
        short_push(s, k, p)[i].0 == s[i].0,
        short_push(s, k, p)[i].1.len() >= s[i].1.len(),
        s[i].0 == k && distinct(short_keys(s)) ==> short_push(s, k, p)[i].1.len() == s[i].1.len() + 1,
{
    lemma_pos_from(short_keys(s), k, 0);
    match pos(short_keys(s), k) {
        Some(j) => {
            if s[i].0 == k && distinct(short_keys(s)) {
                assert(short_keys(s)[i] == k);
                assert(short_keys(s)[j] == k);
                assert(i == j);
            }
        },
        None => {
            assert(short_keys(s)[i] == s[i].0);
        },
    }
}

proof fn lemma_short_push_all_keeps(s: Seq<(Seq<char>, Seq<Seq<char>>)>, ks: Seq<Seq<char>>, p: Seq<char>, i: int)
    requires
        0 <= i < s.len(),
        distinct(short_keys(s)),
    ensures
        short_push_all(s, ks, p).len() >= s.len(),
        short_push_all(s, ks, p)[i].0 == s[i].0,
        short_push_all(s, ks, p)[i].1.len() >= s[i].1.len(),
        distinct(short_keys(short_push_all(s, ks, p))),
    decreases ks.len(),
{
    if ks.len() > 0 {
        lemma_short_push_keeps(s, ks[0], p, i);
        lemma_short_push_distinct(s, ks[0], p);
        lemma_short_push_all_keeps(short_push(s, ks[0], p), ks.drop_first(), p, i);
    }
}

/// What a registration stores is what a qualified call of it (by its
/// plugin and its name, in any case that lowercases alike) resolves to.
pub proof fn lemma_register_then_resolve_qualified<H>(
    st: (Seq<(Seq<char>, Seq<char>)>, Seq<(Seq<char>, PlaceholderMetadata, H)>, Seq<(Seq<char>, Seq<Seq<char>>)>),
    plugin: Seq<char>,
    m: PlaceholderMetadata,
    h: H,
    domain: Seq<char>,
    ident: Seq<char>,
)
    requires
        distinct(st.0),
        st.0.len() == st.1.len(),
        unicode_lowercase(domain) == unicode_lowercase(plugin),
        unicode_lowercase(ident) == unicode_lowercase(m.name@),
    ensures
        resolution(after_register(st, plugin, m, h), Some(domain), ident) matches Ok(i)
            && after_register(st, plugin, m, h).1[i] == (plugin, m, h),
{
    let k = (unicode_lowercase(plugin), unicode_lowercase(m.name@));
    let nst = after_register(st, plugin, m, h);
    lemma_pos_from(st.0, k, 0);
    match pos(st.0, k) {
        Some(i) => {
            assert(nst.0 == st.0);
        },
        None => {
            assert(nst.0 == st.0.push(k));
            assert forall|j: int| 0 <= j < st.0.len() implies nst.0[j] != k by {
                assert(nst.0[j] == st.0[j]);
            }
            lemma_pos_prefix(nst.0, k, 0, st.0.len() as int);
        },
    }
}

/// Once a short name is claimed, a further registration of that name makes
/// an unqualified call of it ambiguous.
pub proof fn lemma_second_claim_is_ambiguous<H>(
    st: (Seq<(Seq<char>, Seq<char>)>, Seq<(Seq<char>, PlaceholderMetadata, H)>, Seq<(Seq<char>, Seq<Seq<char>>)>),
    plugin: Seq<char>,
    m: PlaceholderMetadata,
    h: H,
    ident: Seq<char>,
)
    requires
        distinct(short_keys(st.2)),
        unicode_lowercase(ident) == unicode_lowercase(m.name@),
        pos(short_keys(st.2), unicode_lowercase(ident)) matches Some(s) && st.2[s].1.len() > 0,
    ensures
        resolution(after_register(st, plugin, m, h), None, ident) matches Err(msg)
            && exists|ps: Seq<Seq<char>>| ps.len() > 1 && msg == ambiguous_message(ident, ps),
{
    let il = unicode_lowercase(ident);
    let lp = unicode_lowercase(plugin);
    let names = short_names(m);
    let nst = after_register(st, plugin, m, h);
    let s = pos(short_keys(st.2), il)->0;
    lemma_pos_from(short_keys(st.2), il, 0);
    assert(st.2[s].0 == short_keys(st.2)[s]);
    assert(names[0] == il);
    let first = short_push(st.2, il, lp);
    lemma_short_push_keeps(st.2, il, lp, s);
    lemma_short_push_distinct(st.2, il, lp);
    lemma_short_push_all_keeps(first, names.drop_first(), lp, s);
    assert(nst.2 == short_push_all(first, names.drop_first(), lp));
    let fin = nst.2;
    assert(short_keys(fin)[s] == il);
    lemma_pos_distinct(short_keys(fin), s);
    assert(fin[s].1.len() > 1);
    assert(resolution(nst, None, ident) == Err::<int, Seq<char>>(ambiguous_message(ident, fin[s].1)));
}

/// Renders a list of strings as `format!("{:?}", v)` does.
#[verifier::external_body]
fn debug_list(v: &Vec<String>) -> (r: String)
    ensures
        r@ == debug_text_list(texts(v@)),
{
    format!("{:?}", v)
}

impl<H> View for PlaceholderRegistry<H> {
    type V = (Seq<(Seq<char>, Seq<char>)>, Seq<(Seq<char>, PlaceholderMetadata, H)>, Seq<(Seq<char>, Seq<Seq<char>>)>);

    open spec fn view(&self) -> Self::V {
        (
            self.entries@.map_values(|e: (String, String, RegistryEntry<H>)| (e.0@, e.1@)),
            self.entries@.map_values(|e: (String, String, RegistryEntry<H>)| (e.2.plugin_name@, e.2.metadata, e.2.handler)),
            self.short_lookup@.map_values(|e: (String, Vec<String>)| (e.0@, texts(e.1@))),
        )
    }
}

impl<H> PlaceholderRegistry<H> {
    /// No entry key and no short name occurs twice.
    pub open spec fn wf(&self) -> bool {
        distinct(self@.0) && distinct(short_keys(self@.2))
    }

    /// A registry with no providers.
    pub fn empty() -> (r: Self)
        ensures
            r.wf(),
            r@.0.len() == 0,
            r@.1.len() == 0,
            r@.2.len() == 0,
    {
        let r = PlaceholderRegistry { entries: Vec::new(), short_lookup: Vec::new() };
        assert(r@.0 =~= Seq::<(Seq<char>, Seq<char>)>::empty());
        assert(r@.2 =~= Seq::<(Seq<char>, Seq<Seq<char>>)>::empty());
        r
    }

    /// A registry holding the built-in providers, each with its provider
    /// from `builtin_handlers` in the order of `builtin_metadata`.
    pub fn new(builtin_handlers: Vec<H>) -> (r: Self)
        requires
            builtin_handlers@.len() == 5,
        ensures
            r.wf(),
            exists|ms: Seq<PlaceholderMetadata>| is_builtin_metadata(ms)
                && r@ == after_registers(empty_state::<H>(), "engine"@, ms, builtin_handlers@),
    {
        let mut reg = Self::empty();
        let mut ms = builtin_metadata();
        let mut hs = builtin_handlers;
        let ghost all_ms = ms@;
        let ghost all_hs = hs@;
        let ghost mut k: int = 0;
        assert(reg@ =~= empty_state::<H>());
        assert(all_ms.take(0) =~= Seq::<PlaceholderMetadata>::empty());
        assert(all_hs.take(0) =~= Seq::<H>::empty());
        while ms.len() > 0 && hs.len() > 0
            invariant
                0 <= k <= 5,
                all_ms.len() == 5,
                all_hs.len() == 5,
                is_builtin_metadata(all_ms),
                all_hs == builtin_handlers@,
                ms@ == all_ms.skip(k),
                hs@ == all_hs.skip(k),
                reg.wf(),
                reg@ == after_registers(empty_state::<H>(), "engine"@, all_ms.take(k), all_hs.take(k)),
            decreases ms@.len(),
        {
            let m = ms.remove(0);
            let h = hs.remove(0);
            proof {
                lemma_after_registers_snoc(empty_state::<H>(), "engine"@, all_ms.take(k), all_hs.take(k), m, h);
                assert(all_ms.take(k).push(m) =~= all_ms.take(k + 1));
                assert(all_hs.take(k).push(h) =~= all_hs.take(k + 1));
                assert(ms@ =~= all_ms.skip(k + 1));
                assert(hs@ =~= all_hs.skip(k + 1));
            }
            reg.register("engine", m, h);
            proof {
                k = k + 1;
            }
        }
        assert(all_ms.take(5) =~= all_ms);
        assert(all_hs.take(5) =~= all_hs);
        reg
    }

    fn entry_index(&self, p: &Vec<char>, n: &Vec<char>) -> (r: Option<usize>)
        ensures
            match r {
                Some(i) => i < self.entries@.len() && pos(self@.0, (p@, n@)) == Some(i as int),
                None => pos(self@.0, (p@, n@)) is None,
            },
    {
        let mut i: usize = 0;
        while i < self.entries.len()
            invariant
                i <= self.entries@.len(),
                pos(self@.0, (p@, n@)) == pos_from(self@.0, (p@, n@), i as int),
            decreases self.entries@.len() - i,
        {
            let a = str_chars(self.entries[i].0.as_str());
            let b = str_chars(self.entries[i].1.as_str());
            assert(self@.0[i as int] == (self.entries@[i as int].0@, self.entries@[i as int].1@));
            if chars_eq(&a, p) && chars_eq(&b, n) {
                return Some(i);
            }
            i = i + 1;
        }
        None
    }

    fn short_index(&self, k: &Vec<char>) -> (r: Option<usize>)
        ensures
            match r {
                Some(i) => i < self.short_lookup@.len() && pos(short_keys(self@.2), k@) == Some(i as int),
                None => pos(short_keys(self@.2), k@) is None,
            },
    {
        let mut i: usize = 0;
        while i < self.short_lookup.len()
            invariant
                i <= self.short_lookup@.len(),
                pos(short_keys(self@.2), k@) == pos_from(short_keys(self@.2), k@, i as int),
            decreases self.short_lookup@.len() - i,
        {
            let a = str_chars(self.short_lookup[i].0.as_str());
            assert(short_keys(self@.2)[i as int] == self.short_lookup@[i as int].0@);
            if chars_eq(&a, k) {
                return Some(i);
            }
            i = i + 1;
        }
        None
    }

    fn push_short(&mut self, k: &String, p: &String)
        requires
            old(self).wf(),
        ensures
            final(self).wf(),
            final(self)@.0 == old(self)@.0,
            final(self)@.1 == old(self)@.1,
            final(self)@.2 == short_push(old(self)@.2, k@, p@),
    {
        let kc = str_chars(k.as_str());
        proof {
            lemma_pos_from(short_keys(self@.2), k@, 0);
            lemma_short_push_distinct(self@.2, k@, p@);
        }
        match self.short_index(&kc) {
            Some(i) => {
                let ghost before = self.short_lookup@;
                let (name, mut plugins) = self.short_lookup.remove(i);
                plugins.push(p.clone());
                self.short_lookup.insert(i, (name, plugins));
                assert(self@.2 =~= short_push(old(self)@.2, k@, p@)) by {
                    assert(self.short_lookup@ =~= before.update(i as int, self.short_lookup@[i as int]));
                    assert(texts(self.short_lookup@[i as int].1@) =~= texts(before[i as int].1@).push(p@));
                }
            },
            None => {
                let mut plugins: Vec<String> = Vec::new();
                plugins.push(p.clone());
                self.short_lookup.push((k.clone(), plugins));
                assert(texts(plugins@) =~= seq![p@]);
                assert(self@.2 =~= short_push(old(self)@.2, k@, p@));
            },
        }
    }

    /// Registers a provider of `plugin_name`. A provider with the same
    /// lowercase plugin and name replaces the earlier one; its name and
    /// each alias are recorded as short names of the plugin.
    pub fn register(&mut self, plugin_name: &str, metadata: PlaceholderMetadata, handler: H)
        requires
            old(self).wf(),
        ensures
            final(self).wf(),
            final(self)@ == after_register(old(self)@, plugin_name@, metadata, handler),
    {
        let name_lower = to_lowercase(metadata.name.as_str());
        let plugin_lower = to_lowercase(plugin_name);
        let ghost names = short_names(metadata);
        self.push_short(&name_lower, &plugin_lower);
        assert(names[0] == name_lower@);
        assert(names.take(1) =~= seq![name_lower@]);
        assert(self@.2 == short_push_all(old(self)@.2, names.take(1), plugin_lower@)) by {
            let t = names.take(1);
            assert(t.drop_first() =~= Seq::<Seq<char>>::empty());
            assert(t[0] == name_lower@);
            assert(short_push_all(short_push(old(self)@.2, name_lower@, plugin_lower@), t.drop_first(), plugin_lower@)
                == short_push(old(self)@.2, name_lower@, plugin_lower@));
        }
        let mut a: usize = 0;
        while a < metadata.aliases.len()
            invariant
                a <= metadata.aliases@.len(),
                self.wf(),
                names == short_names(metadata),
                names.len() == metadata.aliases@.len() + 1,
                self@.0 == old(self)@.0,
                self@.1 == old(self)@.1,
                self@.2 == short_push_all(old(self)@.2, names.take(a + 1), plugin_lower@),
                plugin_lower@ == unicode_lowercase(plugin_name@),
            decreases metadata.aliases@.len() - a,
        {
            let al = to_lowercase(metadata.aliases[a].as_str());
            self.push_short(&al, &plugin_lower);
            proof {
                assert(names[a + 1] == al@);
                assert(names.take(a + 2) =~= names.take(a + 1).push(al@));
                lemma_short_push_all_snoc(old(self)@.2, names.take(a + 1), al@, plugin_lower@);
            }
            a = a + 1;
        }
        assert(names.take(a + 1) =~= names);
        let pc = str_chars(plugin_lower.as_str());
        let nc = str_chars(name_lower.as_str());
        proof {
            lemma_pos_from(self@.0, (pc@, nc@), 0);
        }
        let ghost mid = self@;
        let entry = RegistryEntry { plugin_name: plugin_name.to_string(), metadata, handler };
        match self.entry_index(&pc, &nc) {
            Some(i) => {
                assert(mid.0[i as int] == (pc@, nc@));
                let ghost before = self.entries@;
                self.entries.set(i, (plugin_lower, name_lower, entry));
                assert(self.entries@ == before.update(i as int, self.entries@[i as int]));
                assert(self@.0 =~= mid.0);
                assert(self@.1 =~= mid.1.update(i as int, (plugin_name@, metadata, handler)));
                assert(self@.2 =~= mid.2);
            },
            None => {
                self.entries.push((plugin_lower, name_lower, entry));
                assert(self@.0 =~= mid.0.push((pc@, nc@)));
                assert(self@.1 =~= mid.1.push((plugin_name@, metadata, handler)));
                assert(self@.2 =~= mid.2);
            },
        }
    }

    fn answering_entry(&self, p: &str, il: &str) -> (r: Option<usize>)
        ensures
            match r {
                Some(i) => i < self.entries@.len() && answer_from(self@.1, p@, il@, 0) == Some(i as int),
                None => answer_from(self@.1, p@, il@, 0) is None,
            },
    {
        let mut i: usize = 0;
        while i < self.entries.len()
            invariant
                i <= self.entries@.len(),
                answer_from(self@.1, p@, il@, 0) == answer_from(self@.1, p@, il@, i as int),
            decreases self.entries@.len() - i,
        {
            let e = &self.entries[i].2;
            assert(self@.1[i as int] == (e.plugin_name@, e.metadata, e.handler));
            if eq_ignore_ascii_case_str(e.plugin_name.as_str(), p) {
                let mut hit = eq_ignore_ascii_case_str(e.metadata.name.as_str(), il);
                let mut j: usize = 0;
                while j < e.metadata.aliases.len() && !hit
                    invariant
                        j <= e.metadata.aliases@.len(),
                        hit == (eq_ignore_ascii_case(e.metadata.name@, il@) || exists|t: int|
                            0 <= t < j && eq_ignore_ascii_case(#[trigger] e.metadata.aliases@[t]@, il@)),
                    decreases e.metadata.aliases@.len() - j,
                {
                    hit = eq_ignore_ascii_case_str(e.metadata.aliases[j].as_str(), il);
                    j = j + 1;
                }
                assert(hit == entry_answers(self@.1[i as int], p@, il@));
                if hit {
                    return Some(i);
                }
            }
            i = i + 1;
        }
        None
    }

    /// The provider that answers a call, or why none does.
    pub fn resolve_call(&self, call: &PlaceholderCall) -> (r: Result<&RegistryEntry<H>, String>)
        requires
            self.wf(),
        ensures
            match resolution(self@, match call.domain {
                Some(d) => Some(d@),
                None => None,
            }, call.ident@) {
                Ok(i) => r matches Ok(e) && 0 <= i < self.entries@.len() && *e == self.entries@[i].2,
                Err(m) => r matches Err(s) && s@ == m,
            },
    {
        let il = to_lowercase(call.ident.as_str());
        let ilc = str_chars(il.as_str());
        match &call.domain {
            Some(d) => {
                let dl = to_lowercase(d.as_str());
                let dc = str_chars(dl.as_str());
                proof {
                    lemma_pos_from(self@.0, (dc@, ilc@), 0);
                }
                match self.entry_index(&dc, &ilc) {
                    Some(i) => Ok(&self.entries[i].2),
                    None => {
                        let mut m: Vec<char> = Vec::new();
                        extend_str(&mut m, "Placeholder '{");
                        extend_str(&mut m, d.as_str());
                        extend_str(&mut m, ": ");
                        extend_str(&mut m, call.ident.as_str());
                        extend_str(&mut m, "}' not found in plugin '");
                        extend_str(&mut m, d.as_str());
                        extend_str(&mut m, "'");
                        Err(chars_to_string(&m))
                    },
                }
            },
            None => {
                proof {
                    lemma_pos_from(short_keys(self@.2), ilc@, 0);
                }
                match self.short_index(&ilc) {
                    Some(s) => {
                        let plugins = &self.short_lookup[s].1;
                        assert(self@.2[s as int].1 == texts(plugins@));
                        if plugins.len() == 1 {
                            let pcs = str_chars(plugins[0].as_str());
                            proof {
                                lemma_pos_from(self@.0, (pcs@, ilc@), 0);
                                lemma_answer_from(self@.1, pcs@, ilc@, 0);
                            }
                            match self.entry_index(&pcs, &ilc) {
                                Some(i) => {
                                    return Ok(&self.entries[i].2);
                                },
                                None => {},
                            }
                            match self.answering_entry(plugins[0].as_str(), il.as_str()) {
                                Some(i) => {
                                    return Ok(&self.entries[i].2);
                                },
                                None => {},
                            }
                            Err(self.unknown(call))
                        } else if plugins.len() > 1 {
                            let listed = debug_list(plugins);
                            let mut m: Vec<char> = Vec::new();
                            extend_str(&mut m, "Ambiguous placeholder '{");
                            extend_str(&mut m, call.ident.as_str());
                            extend_str(&mut m, "}' registered by multiple plugins: ");
                            extend_str(&mut m, listed.as_str());
                            extend_str(&mut m, ". Use fully-qualified format '{");
                            extend_str(&mut m, plugins[0].as_str());
                            extend_str(&mut m, ": ...}'");
                            Err(chars_to_string(&m))
                        } else {
                            Err(self.unknown(call))
                        }
                    },
                    None => Err(self.unknown(call)),
                }
            },
        }
    }

    fn unknown(&self, call: &PlaceholderCall) -> (r: String)
        ensures
            r@ == unknown_message(call.ident@),
    {
        let mut m: Vec<char> = Vec::new();
        extend_str(&mut m, "Unknown placeholder '{");
        extend_str(&mut m, call.ident.as_str());
        extend_str(&mut m, "}'");
        chars_to_string(&m)
    }
}

} // verus!
