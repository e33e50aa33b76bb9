//! Compiling a parsed TOML dictionary into flat runtime entries:
//! `(dictionary, language, key) -> compiled text`.
//!
//! A dictionary either lists its languages under `[translations]`, or (flat
//! form) as top-level tables next to `[config]`, `[templates]` and `[vars]`.
//! Each language sees the dictionary's variables and templates, shadowed by
//! its own; variables are expanded first, then templates (with the expanded
//! variables), then the entries (with both).

use vstd::prelude::*;
use crate::i18n::toml_doc::{
    TomlValue, TomlTable, get_value, get_table, get_string, string_map, table_get, string_entries,
};
use crate::i18n::dict::{DictAccess, access_from_toml, reads_as_access, access_read_as};
use crate::i18n::compiler::{Compiler, expand_entry_spec};
use crate::strmap::{StrMap, entries_map, lemma_entries_map_dom, lemma_entries_map_last_index};
use crate::keymap::{KeyMap, TextKey};
use crate::text::{to_lowercase, unicode_lowercase, split_once, split_once_chars, str_chars, chars_eq_str};

verus! {

/// A table name that is not a language in a flat dictionary.
pub open spec fn is_reserved(s: Seq<char>) -> bool {
    s == "config"@ || s == "templates"@ || s == "vars"@
}

/// The string entries of an optional table.
pub open spec fn strings_of_table(t: Option<TomlTable>) -> Map<Seq<char>, Seq<char>> {
    match t {
        Some(x) => string_map(x, Seq::empty()),
        None => Map::empty(),
    }
}

/// The dictionary-wide variables.
pub open spec fn global_vars(t: TomlTable) -> Map<Seq<char>, Seq<char>> {
    strings_of_table(get_table(t, "vars"@))
}

/// The dictionary-wide templates.
pub open spec fn global_templates(t: TomlTable) -> Map<Seq<char>, Seq<char>> {
    strings_of_table(get_table(t, "templates"@))
}

/// The fallback language of `[config]`.
pub open spec fn config_fallback(t: TomlTable) -> Option<Seq<char>> {
    match get_table(t, "config"@) {
        Some(c) => get_string(c, "fallback"@),
        None => None,
    }
}

/// The `access` value of `[config]`, when it reads as a policy.
pub open spec fn config_access_value(t: TomlTable) -> Option<TomlValue> {
    match get_table(t, "config"@) {
        Some(c) => match get_value(c, "access"@) {
            Some(v) => if reads_as_access(v) { Some(v) } else { None },
            None => None,
        },
        None => None,
    }
}

/// The languages of a `[translations]` table and their entries, from the
/// first `n` of its entries.
pub open spec fn translation_sources_upto(tr: TomlTable, n: int) -> Seq<(Seq<char>, Map<Seq<char>, Seq<char>>)>
    decreases n,
{
    if n <= 0 || n > tr.entries@.len() {
        Seq::empty()
    } else {
        let prev = translation_sources_upto(tr, n - 1);
        let e = tr.entries@[n - 1];
        match e.1 {
            TomlValue::Table(lt) => prev.push((e.0@, string_map(lt, seq!["vars"@, "templates"@]))),
            _ => prev,
        }
    }
}

/// The languages of a flat dictionary and their entries, from the first `n`
/// top-level entries.
pub open spec fn flat_sources_upto(t: TomlTable, n: int) -> Seq<(Seq<char>, Map<Seq<char>, Seq<char>>)>
    decreases n,
{
    if n <= 0 || n > t.entries@.len() {
        Seq::empty()
    } else {
        let prev = flat_sources_upto(t, n - 1);
        let e = t.entries@[n - 1];
        match e.1 {
            TomlValue::Table(x) => if !is_reserved(e.0@) && split_once(e.0@, '.') is None {
                prev.push((e.0@, string_map(x, Seq::empty())))
            } else {
                prev
            },
            _ => prev,
        }
    }
}

/// The languages of a dictionary and their entries, in document order.
pub open spec fn lang_sources(t: TomlTable) -> Seq<(Seq<char>, Map<Seq<char>, Seq<char>>)> {
    match get_table(t, "translations"@) {
        Some(tr) => translation_sources_upto(tr, tr.entries@.len() as int),
        None => flat_sources_upto(t, t.entries@.len() as int),
    }
}

/// The per-language tables named `which` (`vars` or `templates`) of a
/// `[translations]` table, from the first `n` of its entries.
pub open spec fn translation_scoped_upto(tr: TomlTable, which: Seq<char>, n: int) -> Map<Seq<char>, Map<Seq<char>, Seq<char>>>
    decreases n,
{
    if n <= 0 || n > tr.entries@.len() {
        Map::empty()
    } else {
        let prev = translation_scoped_upto(tr, which, n - 1);
        let e = tr.entries@[n - 1];
        match e.1 {
            TomlValue::Table(lt) => match get_table(lt, which) {
                Some(x) => prev.insert(e.0@, string_map(x, Seq::empty())),
                None => prev,
            },
            _ => prev,
        }
    }
}

/// The per-language tables named `which` of a flat dictionary: the tables
/// whose name is `<lang>.<which>`, from the first `n` top-level entries.
pub open spec fn flat_scoped_upto(t: TomlTable, which: Seq<char>, n: int) -> Map<Seq<char>, Map<Seq<char>, Seq<char>>>
    decreases n,
{
    if n <= 0 || n > t.entries@.len() {
        Map::empty()
    } else {
        let prev = flat_scoped_upto(t, which, n - 1);
        let e = t.entries@[n - 1];
        match e.1 {
            TomlValue::Table(x) => if !is_reserved(e.0@) {
                match split_once(e.0@, '.') {
                    Some((lang, sub)) => if sub == which { prev.insert(lang, string_map(x, Seq::empty())) } else { prev },
                    None => prev,
                }
            } else {
                prev
            },
            _ => prev,
        }
    }
}

/// The per-language tables named `which` of a dictionary.
pub open spec fn scoped_tables(t: TomlTable, which: Seq<char>) -> Map<Seq<char>, Map<Seq<char>, Seq<char>>> {
    match get_table(t, "translations"@) {
        Some(tr) => translation_scoped_upto(tr, which, tr.entries@.len() as int),
        None => flat_scoped_upto(t, which, t.entries@.len() as int),
    }
}

/// `base` shadowed by the table of `lang` in `scoped`, if any.
pub open spec fn shadowed(base: Map<Seq<char>, Seq<char>>, scoped: Map<Seq<char>, Map<Seq<char>, Seq<char>>>, lang: Seq<char>) -> Map<Seq<char>, Seq<char>> {
    if scoped.contains_key(lang) {
        base.union_prefer_right(scoped[lang])
    } else {
        base
    }
}

/// The variables a language sees.
pub open spec fn lang_vars(t: TomlTable, lang: Seq<char>) -> Map<Seq<char>, Seq<char>> {
    shadowed(global_vars(t), scoped_tables(t, "vars"@), lang)
}

/// The templates a language sees.
pub open spec fn lang_templates(t: TomlTable, lang: Seq<char>) -> Map<Seq<char>, Seq<char>> {
    shadowed(global_templates(t), scoped_tables(t, "templates"@), lang)
}

/// The text of a successful expansion.
pub open spec fn ok_text(r: Result<Seq<char>, Seq<char>>) -> Seq<char> {
    match r {
        Ok(v) => v,
        Err(_) => Seq::empty(),
    }
}

/// Every value of `src`, expanded with `vars` and `tmpls`.
pub open spec fn expanded(dict: Seq<char>, src: Map<Seq<char>, Seq<char>>, vars: Map<Seq<char>, Seq<char>>, tmpls: Map<Seq<char>, Seq<char>>) -> Map<Seq<char>, Seq<char>> {
    Map::new(|k: Seq<char>| src.contains_key(k), |k: Seq<char>| ok_text(expand_entry_spec(dict, src[k], vars, tmpls, 0)))
}

/// Every value of `src` expands without error.
pub open spec fn all_expand(dict: Seq<char>, src: Map<Seq<char>, Seq<char>>, vars: Map<Seq<char>, Seq<char>>, tmpls: Map<Seq<char>, Seq<char>>) -> bool {
    forall|k: Seq<char>| src.contains_key(k) ==> (#[trigger] expand_entry_spec(dict, src[k], vars, tmpls, 0)) is Ok
}

/// Some value of `src` fails to expand with error `e`.
pub open spec fn fails_with(dict: Seq<char>, src: Map<Seq<char>, Seq<char>>, vars: Map<Seq<char>, Seq<char>>, tmpls: Map<Seq<char>, Seq<char>>, e: Seq<char>) -> bool {
    exists|k: Seq<char>| src.contains_key(k) && #[trigger] expand_entry_spec(dict, src[k], vars, tmpls, 0) == Err::<Seq<char>, Seq<char>>(e)
}

/// The expanded variables of a language.
pub open spec fn exp_vars(dict: Seq<char>, t: TomlTable, lang: Seq<char>) -> Map<Seq<char>, Seq<char>> {
    expanded(dict, lang_vars(t, lang), lang_vars(t, lang), lang_templates(t, lang))
}

/// The expanded templates of a language.
pub open spec fn exp_templates(dict: Seq<char>, t: TomlTable, lang: Seq<char>) -> Map<Seq<char>, Seq<char>> {
    expanded(dict, lang_templates(t, lang), exp_vars(dict, t, lang), lang_templates(t, lang))
}

/// The compiled entries of a language, by key.
pub open spec fn exp_entries(dict: Seq<char>, t: TomlTable, lang: Seq<char>, entries: Map<Seq<char>, Seq<char>>) -> Map<Seq<char>, Seq<char>> {
    expanded(dict, entries, exp_vars(dict, t, lang), exp_templates(dict, t, lang))
}

/// Whether every variable, template and entry of a language expands.
pub open spec fn lang_ok(dict: Seq<char>, t: TomlTable, lang: Seq<char>, entries: Map<Seq<char>, Seq<char>>) -> bool {
    &&& all_expand(dict, lang_vars(t, lang), lang_vars(t, lang), lang_templates(t, lang))
    &&& all_expand(dict, lang_templates(t, lang), exp_vars(dict, t, lang), lang_templates(t, lang))
    &&& all_expand(dict, entries, exp_vars(dict, t, lang), exp_templates(dict, t, lang))
}

/// Whether some variable, template or entry of a language fails with `e`.
pub open spec fn lang_fails_with(dict: Seq<char>, t: TomlTable, lang: Seq<char>, entries: Map<Seq<char>, Seq<char>>, e: Seq<char>) -> bool {
    ||| fails_with(dict, lang_vars(t, lang), lang_vars(t, lang), lang_templates(t, lang), e)
    ||| fails_with(dict, lang_templates(t, lang), exp_vars(dict, t, lang), lang_templates(t, lang), e)
    ||| fails_with(dict, entries, exp_vars(dict, t, lang), exp_templates(dict, t, lang), e)
}

/// The runtime entries of one language: `[dict, lang, key]` (dictionary and
/// language in lowercase) to compiled text.
pub open spec fn lang_output(dict: Seq<char>, lang: Seq<char>, ee: Map<Seq<char>, Seq<char>>) -> Map<Seq<Seq<char>>, Seq<char>> {
    Map::new(
        |k: Seq<Seq<char>>| k.len() == 3 && k[0] == unicode_lowercase(dict) && k[1] == unicode_lowercase(lang) && ee.contains_key(k[2]),
        |k: Seq<Seq<char>>| ee[k[2]],
    )
}

/// The runtime entries of the first `n` languages; a later language wins.
pub open spec fn compiled_upto(dict: Seq<char>, t: TomlTable, n: int) -> Map<Seq<Seq<char>>, Seq<char>>
    decreases n,
{
    let src = lang_sources(t);
    if n <= 0 || n > src.len() {
        Map::empty()
    } else {
        compiled_upto(dict, t, n - 1).union_prefer_right(lang_output(dict, src[n - 1].0,
            exp_entries(dict, t, src[n - 1].0, src[n - 1].1)))
    }
}

/// The runtime entries of a dictionary.
pub open spec fn compiled(dict: Seq<char>, t: TomlTable) -> Map<Seq<Seq<char>>, Seq<char>> {
    compiled_upto(dict, t, lang_sources(t).len() as int)
}

/// Whether every language of the dictionary compiles.
pub open spec fn compile_ok(dict: Seq<char>, t: TomlTable) -> bool {
    forall|i: int| 0 <= i < lang_sources(t).len() ==> lang_ok(dict, t, #[trigger] lang_sources(t)[i].0, lang_sources(t)[i].1)
}

/// A map of strings holds exactly the texts of `n`.
pub open spec fn texts_match<K>(m: Map<K, String>, n: Map<K, Seq<char>>) -> bool {
    &&& m.dom() == n.dom()
    &&& forall|k: K| #[trigger] m.contains_key(k) ==> m[k]@ == n[k]
}

/// What a dictionary compiles to.
pub struct CompileOutput {
    /// The runtime entries, keyed by (dictionary, language, key).
    pub entries: KeyMap<(String, String, String), String>,
    /// The access policy of `[config]`, if it has one.
    pub access: Option<DictAccess>,
    /// The fallback language of `[config]`, if it has one.
    pub fallback: Option<String>,
}

/// Expands every value of `src` with `vars` and `tmpls`.
fn expand_map(compiler: &Compiler, src: &StrMap, vars: &StrMap, tmpls: &StrMap) -> (r: Result<StrMap, String>)
    requires
        src.wf(),
        vars.wf(),
        tmpls.wf(),
    ensures
        r is Ok <==> all_expand(compiler.dict_name@, src@, vars@, tmpls@),
        r matches Ok(m) ==> m.wf() && m@ == expanded(compiler.dict_name@, src@, vars@, tmpls@),
        r matches Err(e) ==> fails_with(compiler.dict_name@, src@, vars@, tmpls@, e@),
{
    let ghost d = compiler.dict_name@;
    let mut out = StrMap::new();
    let mut j: usize = 0;
    while j < src.entries.len()
        invariant
            j <= src.entries@.len(),
            src.wf(),
            vars.wf(),
            tmpls.wf(),
            d == compiler.dict_name@,
            out.wf(),
            forall|i: int| 0 <= i < j ==> (#[trigger] expand_entry_spec(d, src@[src.entries@[i].0@], vars@, tmpls@, 0)) is Ok,
            out@ == Map::new(|k: Seq<char>| exists|i: int| 0 <= i < j && #[trigger] src.entries@[i].0@ == k,
                |k: Seq<char>| ok_text(expand_entry_spec(d, src@[k], vars@, tmpls@, 0))),
        decreases src.entries@.len() - j,
    {
        let (key, value) = &src.entries[j];
        proof {
            lemma_entries_map_last_index(src.entries@, key@, j as int);
        }
        let ghost before = out@;
        match compiler.expand_entry(value.as_str(), vars, tmpls, 0) {
            Ok(x) => {
                out.insert(key.clone(), x);
                assert(out@ =~= Map::new(|k: Seq<char>| exists|i: int| 0 <= i < j + 1 && #[trigger] src.entries@[i].0@ == k,
                    |k: Seq<char>| ok_text(expand_entry_spec(d, src@[k], vars@, tmpls@, 0))));
            },
            Err(e) => {
                assert(src@.contains_key(key@));
                return Err(e);
            },
        }
        j = j + 1;
    }
    proof {
        assert forall|k: Seq<char>| src@.contains_key(k) implies (#[trigger] expand_entry_spec(d, src@[k], vars@, tmpls@, 0)) is Ok by {
            lemma_entries_map_dom(src.entries@, k);
            let i = choose|i: int| 0 <= i < src.entries@.len() && #[trigger] src.entries@[i].0@ == k;
            assert(expand_entry_spec(d, src@[src.entries@[i].0@], vars@, tmpls@, 0) is Ok);
        }
        assert forall|k: Seq<char>| (exists|i: int| 0 <= i < j && #[trigger] src.entries@[i].0@ == k) <==> src@.contains_key(k) by {
            lemma_entries_map_dom(src.entries@, k);
        }
        assert(out@ =~= expanded(d, src@, vars@, tmpls@));
    }
    Ok(out)
}


/// The collected languages hold exactly the given names and entries.
pub open spec fn sources_match(v: Seq<(String, StrMap)>, s: Seq<(Seq<char>, Map<Seq<char>, Seq<char>>)>) -> bool {
    &&& v.len() == s.len()
    &&& forall|i: int| 0 <= i < v.len() ==> (#[trigger] v[i]).0@ == s[i].0 && v[i].1@ == s[i].1 && v[i].1.wf()
}

/// The collected per-language tables hold exactly the given maps.
pub open spec fn scoped_match(km: KeyMap<String, StrMap>, m: Map<Seq<char>, Map<Seq<char>, Seq<char>>>) -> bool {
    &&& km.wf()
    &&& forall|lang: Seq<char>| #![trigger m.contains_key(lang)] #![trigger km.view().contains_key(seq![lang])]
        m.contains_key(lang) == km.view().contains_key(seq![lang])
    &&& forall|lang: Seq<char>| #[trigger] m.contains_key(lang) ==> km.view()[seq![lang]]@ == m[lang]
        && km.view()[seq![lang]].wf()
}

proof fn lemma_scoped_insert(km: KeyMap<String, StrMap>, m: Map<Seq<char>, Map<Seq<char>, Seq<char>>>,
    km2: KeyMap<String, StrMap>, lang: String, tbl: StrMap)
    requires
        scoped_match(km, m),
        km2.wf(),
        km2.view() == km.view().insert(seq![lang@], tbl),
        tbl.wf(),
    ensures
        scoped_match(km2, m.insert(lang@, tbl@)),
{
    assert forall|l: Seq<char>| #![trigger m.insert(lang@, tbl@).contains_key(l)] #![trigger km2.view().contains_key(seq![l])]
        m.insert(lang@, tbl@).contains_key(l) == km2.view().contains_key(seq![l]) by {
        if l != lang@ {
            assert(seq![l][0] != seq![lang@][0]);
            assert(km.view().contains_key(seq![l]) == m.contains_key(l));
        }
    }
    assert forall|l: Seq<char>| #[trigger] m.insert(lang@, tbl@).contains_key(l) implies km2.view()[seq![l]]@
        == m.insert(lang@, tbl@)[l] && km2.view()[seq![l]].wf() by {
        if l != lang@ {
            assert(seq![l][0] != seq![lang@][0]);
            assert(m.contains_key(l));
        }
    }
}

fn no_skip() -> (v: Vec<&'static str>)
    ensures
        v@.map_values(|s: &str| s@) == Seq::<Seq<char>>::empty(),
{
    let v: Vec<&'static str> = Vec::new();
    assert(v@.map_values(|s: &str| s@) =~= Seq::<Seq<char>>::empty());
    v
}

/// The languages of a `[translations]` table, with their scoped variables
/// and templates.
fn translation_sources(tr: &TomlTable) -> (r: (Vec<(String, StrMap)>, KeyMap<String, StrMap>, KeyMap<String, StrMap>))
    ensures
        sources_match(r.0@, translation_sources_upto(*tr, tr.entries@.len() as int)),
        scoped_match(r.1, translation_scoped_upto(*tr, "vars"@, tr.entries@.len() as int)),
        scoped_match(r.2, translation_scoped_upto(*tr, "templates"@, tr.entries@.len() as int)),
{
    let mut sources: Vec<(String, StrMap)> = Vec::new();
    let mut lvars: KeyMap<String, StrMap> = KeyMap::new();
    let mut ltmpls: KeyMap<String, StrMap> = KeyMap::new();
    let skip: Vec<&'static str> = vec!["vars", "templates"];
    proof {
        reveal_strlit("vars");
        reveal_strlit("templates");
    }
    assert(skip@.map_values(|s: &str| s@) =~= seq!["vars"@, "templates"@]);
    let mut k: usize = 0;
    while k < tr.entries.len()
        invariant
            k <= tr.entries@.len(),
            skip@.map_values(|s: &str| s@) == seq!["vars"@, "templates"@],
            sources_match(sources@, translation_sources_upto(*tr, k as int)),
            scoped_match(lvars, translation_scoped_upto(*tr, "vars"@, k as int)),
            scoped_match(ltmpls, translation_scoped_upto(*tr, "templates"@, k as int)),
        decreases tr.entries@.len() - k,
    {
        let (lang, v) = &tr.entries[k];
        match v {
            TomlValue::Table(lt) => {
                let entries = string_entries(lt, &skip);
                let ghost prev = sources@;
                sources.push((lang.clone(), entries));
                assert(sources_match(sources@, translation_sources_upto(*tr, k as int + 1))) by {
                    assert forall|i: int| 0 <= i < sources@.len() implies (#[trigger] sources@[i]).0@
                        == translation_sources_upto(*tr, k as int + 1)[i].0 && sources@[i].1@
                        == translation_sources_upto(*tr, k as int + 1)[i].1 && sources@[i].1.wf() by {
                        if i < prev.len() {
                            assert(sources@[i] == prev[i]);
                        }
                    }
                }
                match table_get(lt, "vars") {
                    Some(TomlValue::Table(x)) => {
                        let m = string_entries(x, &no_skip());
                        let ghost old_km = lvars;
                        lvars.insert(lang.clone(), m);
                        proof {
                            lemma_scoped_insert(old_km, translation_scoped_upto(*tr, "vars"@, k as int), lvars, *lang, m);
                        }
                    },
                    _ => {},
                }
                match table_get(lt, "templates") {
                    Some(TomlValue::Table(x)) => {
                        let m = string_entries(x, &no_skip());
                        let ghost old_km = ltmpls;
                        ltmpls.insert(lang.clone(), m);
                        proof {
                            lemma_scoped_insert(old_km, translation_scoped_upto(*tr, "templates"@, k as int), ltmpls, *lang, m);
                        }
                    },
                    _ => {},
                }
            },
            _ => {},
        }
        k = k + 1;
    }
    (sources, lvars, ltmpls)
}

fn is_reserved_name(s: &Vec<char>) -> (r: bool)
    ensures
        r == is_reserved(s@),
{
    chars_eq_str(s, "config") || chars_eq_str(s, "templates") || chars_eq_str(s, "vars")
}

/// The languages of a flat dictionary, with their scoped variables and
/// templates.
fn flat_sources(t: &TomlTable) -> (r: (Vec<(String, StrMap)>, KeyMap<String, StrMap>, KeyMap<String, StrMap>))
    ensures
        sources_match(r.0@, flat_sources_upto(*t, t.entries@.len() as int)),
        scoped_match(r.1, flat_scoped_upto(*t, "vars"@, t.entries@.len() as int)),
        scoped_match(r.2, flat_scoped_upto(*t, "templates"@, t.entries@.len() as int)),
{
    let mut sources: Vec<(String, StrMap)> = Vec::new();
    let mut lvars: KeyMap<String, StrMap> = KeyMap::new();
    let mut ltmpls: KeyMap<String, StrMap> = KeyMap::new();
    proof {
        reveal_strlit("vars");
        reveal_strlit("templates");
        assert("vars"@[0] != "templates"@[0]);
    }
    let mut k: usize = 0;
    while k < t.entries.len()
        invariant
            k <= t.entries@.len(),
            "vars"@ != "templates"@,
            sources_match(sources@, flat_sources_upto(*t, k as int)),
            scoped_match(lvars, flat_scoped_upto(*t, "vars"@, k as int)),
            scoped_match(ltmpls, flat_scoped_upto(*t, "templates"@, k as int)),
        decreases t.entries@.len() - k,
    {
        let (section, v) = &t.entries[k];
        match v {
            TomlValue::Table(x) => {
                let sc = str_chars(section.as_str());
                if !is_reserved_name(&sc) {
                    match split_once_chars(&sc, '.') {
                        Some((lang, sub)) => {
                            if chars_eq_str(&sub, "vars") {
                                let m = string_entries(x, &no_skip());
                                let ls = crate::text::chars_to_string(&lang);
                                let ghost old_km = lvars;
                                lvars.insert(ls, m);
                                proof {
                                    lemma_scoped_insert(old_km, flat_scoped_upto(*t, "vars"@, k as int), lvars, ls, m);
                                }
                            } else if chars_eq_str(&sub, "templates") {
                                let m = string_entries(x, &no_skip());
                                let ls = crate::text::chars_to_string(&lang);
                                let ghost old_km = ltmpls;
                                ltmpls.insert(ls, m);
                                proof {
                                    lemma_scoped_insert(old_km, flat_scoped_upto(*t, "templates"@, k as int), ltmpls, ls, m);
                                }
                            }
                        },
                        None => {
                            let entries = string_entries(x, &no_skip());
                            let ghost prev = sources@;
                            sources.push((section.clone(), entries));
                            assert(sources_match(sources@, flat_sources_upto(*t, k as int + 1))) by {
                                assert forall|i: int| 0 <= i < sources@.len() implies (#[trigger] sources@[i]).0@
                                    == flat_sources_upto(*t, k as int + 1)[i].0 && sources@[i].1@
                                    == flat_sources_upto(*t, k as int + 1)[i].1 && sources@[i].1.wf() by {
                                    if i < prev.len() {
                                        assert(sources@[i] == prev[i]);
                                    }
                                }
                            }
                        },
                    }
                }
            },
            _ => {},
        }
        k = k + 1;
    }
    (sources, lvars, ltmpls)
}


proof fn lemma_texts_insert<K>(m: Map<K, String>, n: Map<K, Seq<char>>, k: K, s: String)
    requires
        texts_match(m, n),
    ensures
        texts_match(m.insert(k, s), n.insert(k, s@)),
{
    assert(m.insert(k, s).dom() =~= n.insert(k, s@).dom());
}

/// The runtime entries of a language from its first `j` compiled entries.
pub open spec fn partial_output(dict: Seq<char>, lang: Seq<char>, ee: StrMap, j: int) -> Map<Seq<Seq<char>>, Seq<char>> {
    Map::new(
        |k: Seq<Seq<char>>| k.len() == 3 && k[0] == unicode_lowercase(dict) && k[1] == unicode_lowercase(lang)
            && exists|i: int| 0 <= i < j && #[trigger] ee.entries@[i].0@ == k[2],
        |k: Seq<Seq<char>>| ee@[k[2]],
    )
}

impl<'a> Compiler<'a> {
    /// Compiles a parsed dictionary into its runtime entries, keyed by
    /// (dictionary, language, key) with the dictionary and language in
    /// lowercase, and reads the fallback language and the access policy of
    /// `[config]`. Fails with an expansion error of the first language, in
    /// table order, that does not compile.
    pub fn compile(dict_name: &'a str, table: &TomlTable) -> (r: Result<CompileOutput, String>)
        ensures
            r is Ok <==> compile_ok(dict_name@, *table),
            r matches Ok(out) ==> {
                &&& out.entries.wf()
                &&& texts_match(out.entries.view(), compiled(dict_name@, *table))
                &&& match config_fallback(*table) {
                    Some(f) => out.fallback matches Some(x) && x@ == f,
                    None => out.fallback is None,
                }
                &&& match config_access_value(*table) {
                    Some(v) => out.access matches Some(a) && access_read_as(v, a),
                    None => out.access is None,
                }
            },
            r matches Err(e) ==> exists|i: int|
                0 <= i < lang_sources(*table).len() && lang_fails_with(dict_name@, *table, #[trigger] lang_sources(*table)[i].0,
                    lang_sources(*table)[i].1, e@) && forall|j: int| 0 <= j < i ==> lang_ok(dict_name@, *table,
                    #[trigger] lang_sources(*table)[j].0, lang_sources(*table)[j].1),
    {
        let ghost d = dict_name@;
        let ghost t = *table;
        let compiler = Compiler::new(dict_name);
        let mut fallback: Option<String> = None;
        let mut access: Option<DictAccess> = None;
        match table_get(table, "config") {
            Some(TomlValue::Table(cfg)) => {
                match table_get(cfg, "fallback") {
                    Some(TomlValue::Str(fb)) => {
                        fallback = Some(fb.clone());
                    },
                    _ => {},
                }
                match table_get(cfg, "access") {
                    Some(v) => {
                        access = access_from_toml(v);
                    },
                    None => {},
                }
            },
            _ => {},
        }
        let base_templates = match table_get(table, "templates") {
            Some(TomlValue::Table(x)) => string_entries(x, &no_skip()),
            _ => StrMap::new(),
        };
        let base_vars = match table_get(table, "vars") {
            Some(TomlValue::Table(x)) => string_entries(x, &no_skip()),
            _ => StrMap::new(),
        };
        assert(base_templates@ == global_templates(t));
        assert(base_vars@ == global_vars(t));
        let (sources, lvars, ltmpls) = match table_get(table, "translations") {
            Some(TomlValue::Table(tr)) => translation_sources(tr),
            _ => flat_sources(table),
        };
        assert(sources_match(sources@, lang_sources(t)));
        assert(scoped_match(lvars, scoped_tables(t, "vars"@)));
        assert(scoped_match(ltmpls, scoped_tables(t, "templates"@)));
        let dict_l = to_lowercase(dict_name);
        let mut out: KeyMap<(String, String, String), String> = KeyMap::new();
        assert(texts_match(out.view(), compiled_upto(d, t, 0)));
        let mut i: usize = 0;
        while i < sources.len()
            invariant
                d == dict_name@,
                t == *table,
                compiler.dict_name == dict_name,
                dict_l@ == unicode_lowercase(d),
                i <= sources@.len(),
                sources_match(sources@, lang_sources(t)),
                scoped_match(lvars, scoped_tables(t, "vars"@)),
                scoped_match(ltmpls, scoped_tables(t, "templates"@)),
                base_templates.wf() && base_templates@ == global_templates(t),
                base_vars.wf() && base_vars@ == global_vars(t),
                out.wf(),
                texts_match(out.view(), compiled_upto(d, t, i as int)),
                forall|j: int| 0 <= j < i ==> lang_ok(d, t, #[trigger] lang_sources(t)[j].0, lang_sources(t)[j].1),
            decreases sources@.len() - i,
        {
            let (lang, entries) = &sources[i];
            let ghost lg = lang@;
            assert(lg == lang_sources(t)[i as int].0 && entries@ == lang_sources(t)[i as int].1 && entries.wf());
            let mut sv = base_vars.copy();
            match lvars.get(lang) {
                Some(lv) => sv.merge_from(lv),
                None => {},
            }
            assert(sv@ == lang_vars(t, lg));
            let mut st = base_templates.copy();
            match ltmpls.get(lang) {
                Some(lt) => st.merge_from(lt),
                None => {},
            }
            assert(st@ == lang_templates(t, lg));
            let ev = match expand_map(&compiler, &sv, &sv, &st) {
                Ok(m) => m,
                Err(e) => {
                    assert(lang_fails_with(d, t, lang_sources(t)[i as int].0, lang_sources(t)[i as int].1, e@));
                    assert(!lang_ok(d, t, lang_sources(t)[i as int].0, lang_sources(t)[i as int].1));
                    return Err(e);
                },
            };
            assert(ev@ == exp_vars(d, t, lg));
            let et = match expand_map(&compiler, &st, &ev, &st) {
                Ok(m) => m,
                Err(e) => {
                    assert(lang_fails_with(d, t, lang_sources(t)[i as int].0, lang_sources(t)[i as int].1, e@));
                    assert(!lang_ok(d, t, lang_sources(t)[i as int].0, lang_sources(t)[i as int].1));
                    return Err(e);
                },
            };
            assert(et@ == exp_templates(d, t, lg));
            let ee = match expand_map(&compiler, entries, &ev, &et) {
                Ok(m) => m,
                Err(e) => {
                    assert(lang_fails_with(d, t, lang_sources(t)[i as int].0, lang_sources(t)[i as int].1, e@));
                    assert(!lang_ok(d, t, lang_sources(t)[i as int].0, lang_sources(t)[i as int].1));
                    return Err(e);
                },
            };
            assert(ee@ == exp_entries(d, t, lg, entries@));
            assert(lang_ok(d, t, lang_sources(t)[i as int].0, lang_sources(t)[i as int].1));
            let lang_l = to_lowercase(lang.as_str());
            let ghost base = compiled_upto(d, t, i as int);
            assert(partial_output(d, lg, ee, 0) =~= Map::<Seq<Seq<char>>, Seq<char>>::empty());
            assert(base.union_prefer_right(partial_output(d, lg, ee, 0)) =~= base);
            let mut j: usize = 0;
            while j < ee.entries.len()
                invariant
                    j <= ee.entries@.len(),
                    ee.wf(),
                    dict_l@ == unicode_lowercase(d),
                    lang_l@ == unicode_lowercase(lg),
                    out.wf(),
                    texts_match(out.view(), base.union_prefer_right(partial_output(d, lg, ee, j as int))),
                decreases ee.entries@.len() - j,
            {
                let (k, v) = &ee.entries[j];
                proof {
                    lemma_entries_map_last_index(ee.entries@, k@, j as int);
                }
                let key = (dict_l.clone(), lang_l.clone(), k.clone());
                let ghost kt = seq![dict_l@, lang_l@, k@];
                assert(key.text_key() == kt);
                let ghost before = out.view();
                out.insert(key, v.clone());
                proof {
                    lemma_texts_insert(before, base.union_prefer_right(partial_output(d, lg, ee, j as int)), kt, *v);
                    assert(kt.len() == 3 && kt[0] == dict_l@ && kt[1] == lang_l@ && kt[2] == k@);
                    assert(ee.entries@[j as int].0@ == kt[2]);
                    assert forall|k3: Seq<Seq<char>>| #[trigger] partial_output(d, lg, ee, j as int + 1).contains_key(k3)
                        implies k3 == kt || partial_output(d, lg, ee, j as int).contains_key(k3) by {
                        let x = choose|x: int| 0 <= x < j + 1 && #[trigger] ee.entries@[x].0@ == k3[2];
                        if x == j {
                            assert(k3 =~= kt);
                        }
                    }
                    assert(base.union_prefer_right(partial_output(d, lg, ee, j as int)).insert(kt, v@) =~= base.union_prefer_right(
                        partial_output(d, lg, ee, j as int + 1)));
                }
                j = j + 1;
            }
            proof {
                assert forall|k: Seq<char>| (exists|x: int| 0 <= x < j && #[trigger] ee.entries@[x].0@ == k) <==> ee@.contains_key(k) by {
                    lemma_entries_map_dom(ee.entries@, k);
                }
                assert(partial_output(d, lg, ee, j as int) =~= lang_output(d, lg, exp_entries(d, t, lg, entries@)));
                assert(compiled_upto(d, t, i as int + 1) == base.union_prefer_right(lang_output(d, lg, exp_entries(d, t, lg, entries@))));
            }
            i = i + 1;
        }
        Ok(CompileOutput { entries: out, access, fallback })
    }
}

} // verus!
