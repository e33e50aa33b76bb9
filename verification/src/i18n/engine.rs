//! The translation engine: loaded dictionaries, their fallback languages and
//! access policies, and the lookup of a key for a caller.

use vstd::prelude::*;
use crate::keymap::{KeyMap, TextKey};
use crate::i18n::dict::{DictAccess, access_allows, same_access};
use crate::i18n::toml_doc::{parse_toml_table, toml_table_of, TomlTable};
use crate::i18n::compile::{CompileOutput, compiled, compile_ok, texts_match, config_fallback, config_access_value, lang_sources, lang_fails_with};
use crate::i18n::compiler::Compiler;
use crate::i18n::dict::access_read_as;
use crate::placeholders::{format_placeholders, format_spec, named_view, pos_view, format_by_replace, replace_named, replace_positional};
use crate::text::{str_chars, chars_eq_str, chars_eq, to_lowercase, unicode_lowercase, extend_str, chars_to_string};

verus! {

/// The text stored under `[d, l, k]`.
pub open spec fn text_at(m: Map<Seq<Seq<char>>, String>, d: Seq<char>, l: Seq<char>, k: Seq<char>) -> Option<Seq<char>> {
    if m.contains_key(seq![d, l, k]) {
        Some(m[seq![d, l, k]]@)
    } else {
        None
    }
}

/// The fallback language of a dictionary: its own, or `en`.
pub open spec fn fallback_lang(fb: Map<Seq<Seq<char>>, String>, d: Seq<char>) -> Seq<char> {
    if fb.contains_key(seq![d]) {
        fb[seq![d]]@
    } else {
        "en"@
    }
}

/// The text of key `k` in dictionary `d` for language `l`: in that language,
/// else in the dictionary's fallback language, else in English.
pub open spec fn resolve(m: Map<Seq<Seq<char>>, String>, fb: Map<Seq<Seq<char>>, String>, d: Seq<char>, l: Seq<char>, k: Seq<char>) -> Option<Seq<char>> {
    match text_at(m, d, l, k) {
        Some(t) => Some(t),
        None => match text_at(m, d, unicode_lowercase(fallback_lang(fb, d)), k) {
            Some(t) => Some(t),
            None => text_at(m, d, "en"@, k),
        },
    }
}

/// Whether `caller` may read dictionary `d` when it has no policy: the
/// default policy is `private`.
pub open spec fn default_allows(d: Seq<char>, caller: Seq<char>) -> bool {
    let dl = unicode_lowercase(d);
    let c = unicode_lowercase(caller);
    if dl == "common"@ {
        true
    } else if dl == c || c.len() == 0 {
        true
    } else {
        unicode_lowercase("private"@) == "public"@
    }
}

/// Whether `caller` may read dictionary `d` under the registered policies.
pub open spec fn policy_allows(acc: Map<Seq<Seq<char>>, DictAccess>, d: Seq<char>, caller: Seq<char>) -> bool {
    if acc.contains_key(seq![d]) {
        access_allows(acc[seq![d]], d, caller)
    } else {
        default_allows(d, caller)
    }
}

/// `new` is `old` with the value under `key` set, and nothing else changed.
pub open spec fn updated_at<V>(old: Map<Seq<Seq<char>>, V>, new: Map<Seq<Seq<char>>, V>, key: Seq<Seq<char>>) -> bool {
    &&& new.dom() == old.dom().insert(key)
    &&& forall|k: Seq<Seq<char>>| k != key && #[trigger] old.contains_key(k) ==> new[k] == old[k]
}

/// Loaded dictionaries, their fallback languages and access policies.
pub struct I18nEngine {
    dictionaries: KeyMap<(String, String, String), String>,
    fallbacks: KeyMap<String, String>,
    access: KeyMap<String, DictAccess>,
}

impl I18nEngine {
    /// The loaded texts, by `[dictionary, language, key]`.
    pub closed spec fn texts(&self) -> Map<Seq<Seq<char>>, String> {
        self.dictionaries.view()
    }

    /// The fallback languages, by `[dictionary]`.
    pub closed spec fn fallbacks(&self) -> Map<Seq<Seq<char>>, String> {
        self.fallbacks.view()
    }

    /// The access policies, by `[dictionary]`.
    pub closed spec fn policies(&self) -> Map<Seq<Seq<char>>, DictAccess> {
        self.access.view()
    }

    /// The engine's internal maps are consistent.
    pub closed spec fn wf(&self) -> bool {
        self.dictionaries.wf() && self.fallbacks.wf() && self.access.wf()
    }

    /// The raw text that `translate_with_caller` formats.
    pub open spec fn raw_translation(&self, caller: Seq<char>, dict: Seq<char>, lang: Seq<char>, key: Seq<char>) -> Seq<char> {
        let d = unicode_lowercase(dict);
        let l = unicode_lowercase(lang);
        let common = match resolve(self.texts(), self.fallbacks(), "common"@, l, key) {
            Some(t) => t,
            None => key,
        };
        if !policy_allows(self.policies(), d, caller) {
            common
        } else {
            match resolve(self.texts(), self.fallbacks(), d, l, key) {
                Some(t) => t,
                None => if d != "common"@ { common } else { key },
            }
        }
    }

    /// An engine with nothing loaded.
    pub fn new() -> (e: Self)
        ensures
            e.wf(),
            e.texts() == Map::<Seq<Seq<char>>, String>::empty(),
            e.fallbacks() == Map::<Seq<Seq<char>>, String>::empty(),
            e.policies() == Map::<Seq<Seq<char>>, DictAccess>::empty(),
    {
        I18nEngine { dictionaries: KeyMap::new(), fallbacks: KeyMap::new(), access: KeyMap::new() }
    }

    /// Sets the access policy of a dictionary (named in any case). The
    /// `common` dictionary stays public whatever is asked.
    pub fn set_access(&mut self, dict_name: &str, access: DictAccess, from_disk_config: bool)
        requires
            old(self).wf(),
        ensures
            final(self).wf(),
            final(self).texts() == old(self).texts(),
            final(self).fallbacks() == old(self).fallbacks(),
            updated_at(old(self).policies(), final(self).policies(), seq![unicode_lowercase(dict_name@)]),
            unicode_lowercase(dict_name@) == "common"@ ==> (final(self).policies()[seq!["common"@]] matches DictAccess::Simple(s)
                && s@ == "public"@),
            unicode_lowercase(dict_name@) != "common"@ ==> final(self).policies()[seq![unicode_lowercase(dict_name@)]]
                == access,
    {
        let clean = to_lowercase(dict_name);
        let cc = str_chars(clean.as_str());
        let ghost key = seq![clean@];
        if chars_eq_str(&cc, "common") {
            let k = "common".to_string();
            assert(k.text_key() == key);
            self.access.insert(k, DictAccess::public());
        } else {
            assert(clean.text_key() == key);
            self.access.insert(clean, access);
        }
        assert(self.policies().dom() =~= old(self).policies().dom().insert(key));
    }

    /// Registers a compiled dictionary: its fallback language, its access
    /// policy (`common` is made public when it has none), and its entries.
    /// Returns the number of entries. The policy is filed under the
    /// lowercased name lowercased once more, as `set_access` lowercases the
    /// name it is given.
    pub fn register(&mut self, dict_name: &str, out: CompileOutput) -> (n: usize)
        requires
            old(self).wf(),
            out.entries.wf(),
        ensures
            final(self).wf(),
            n == out.entries.view().dom().len(),
            final(self).texts() == old(self).texts().union_prefer_right(out.entries.view()),
            match out.fallback {
                Some(f) => updated_at(old(self).fallbacks(), final(self).fallbacks(), seq![unicode_lowercase(dict_name@)])
                    && final(self).fallbacks()[seq![unicode_lowercase(dict_name@)]] == f,
                None => final(self).fallbacks() == old(self).fallbacks(),
            },
            (out.access is Some || unicode_lowercase(dict_name@) == "common"@) ==> updated_at(old(self).policies(),
                final(self).policies(), seq![unicode_lowercase(unicode_lowercase(dict_name@))]),
            (out.access is None && unicode_lowercase(dict_name@) != "common"@) ==> final(self).policies()
                == old(self).policies(),
            unicode_lowercase(unicode_lowercase(dict_name@)) != "common"@ ==> (out.access matches Some(a) ==> final(
                self).policies()[seq![unicode_lowercase(unicode_lowercase(dict_name@))]] == a),
            (out.access is Some || unicode_lowercase(dict_name@) == "common"@) && unicode_lowercase(unicode_lowercase(
                dict_name@)) == "common"@ ==> (final(self).policies()[seq!["common"@]] matches DictAccess::Simple(s)
                && s@ == "public"@),
            out.access is None && unicode_lowercase(dict_name@) == "common"@ && unicode_lowercase(unicode_lowercase(
                dict_name@)) != "common"@ ==> (final(self).policies()[seq![unicode_lowercase(unicode_lowercase(dict_name@))]]
                matches DictAccess::Simple(s) && s@ == "public"@),
    {
        let n = out.entries.len();
        let clean = to_lowercase(dict_name);
        let cc = str_chars(clean.as_str());
        match out.fallback {
            Some(fb) => {
                assert(clean.text_key() == seq![clean@]);
                self.fallbacks.insert(clean.clone(), fb);
                assert(self.fallbacks().dom() =~= old(self).fallbacks().dom().insert(seq![clean@]));
            },
            None => {},
        }
        match out.access {
            Some(a) => {
                self.set_access(clean.as_str(), a, true);
            },
            None => {
                if chars_eq_str(&cc, "common") {
                    self.set_access(clean.as_str(), DictAccess::public(), true);
                }
            },
        }
        self.dictionaries.merge_from(out.entries);
        n
    }
}


impl I18nEngine {
    fn text_lookup(&self, d: &String, l: &String, k: &str) -> (r: Option<String>)
        requires
            self.wf(),
        ensures
            match text_at(self.texts(), d@, l@, k@) {
                Some(t) => r matches Some(s) && s@ == t,
                None => r is None,
            },
    {
        let key = (d.clone(), l.clone(), k.to_string());
        assert(key.text_key() == seq![d@, l@, k@]);
        match self.dictionaries.get(&key) {
            Some(s) => Some(s.clone()),
            None => None,
        }
    }

    fn fallback_of(&self, d: &String) -> (r: String)
        requires
            self.wf(),
        ensures
            r@ == fallback_lang(self.fallbacks(), d@),
    {
        assert(d.text_key() == seq![d@]);
        match self.fallbacks.get(d) {
            Some(f) => f.clone(),
            None => "en".to_string(),
        }
    }

    fn resolve_exec(&self, d: &String, l: &String, k: &str) -> (r: Option<String>)
        requires
            self.wf(),
        ensures
            match resolve(self.texts(), self.fallbacks(), d@, l@, k@) {
                Some(t) => r matches Some(s) && s@ == t,
                None => r is None,
            },
    {
        match self.text_lookup(d, l, k) {
            Some(t) => Some(t),
            None => {
                let fb = self.fallback_of(d);
                let fbl = to_lowercase(fb.as_str());
                match self.text_lookup(d, &fbl, k) {
                    Some(t) => Some(t),
                    None => {
                        let en = "en".to_string();
                        self.text_lookup(d, &en, k)
                    },
                }
            },
        }
    }

    fn lookup_common(&self, lang_key: &String, key: &str, named_args: &[(&str, &str)], pos_args: &[&str]) -> (r: String)
        requires
            self.wf(),
        ensures
            r@ == format_spec(match resolve(self.texts(), self.fallbacks(), "common"@, lang_key@, key@) {
                Some(t) => t,
                None => key@,
            }, named_view(named_args@), pos_view(pos_args@)),
    {
        let common = "common".to_string();
        match self.resolve_exec(&common, lang_key, key) {
            Some(raw) => format_placeholders(raw.as_str(), named_args, pos_args),
            None => format_placeholders(key, named_args, pos_args),
        }
    }

    /// Translates `key` of dictionary `dict_name` for `lang` on behalf of
    /// `caller_plugin`, then formats the placeholders. A caller that may not
    /// read the dictionary gets the `common` translation; a key missing from
    /// the dictionary (in the language, its fallback language and English)
    /// falls back to `common`, and in the end to the key itself.
    pub fn translate_with_caller(
        &self,
        caller_plugin: &str,
        dict_name: &str,
        lang: &str,
        key: &str,
        named_args: &[(&str, &str)],
        pos_args: &[&str],
    ) -> (r: String)
        requires
            self.wf(),
        ensures
            r@ == format_spec(self.raw_translation(caller_plugin@, dict_name@, lang@, key@), named_view(named_args@),
                pos_view(pos_args@)),
    {
        let dict_key = to_lowercase(dict_name);
        let lang_key = to_lowercase(lang);
        assert(dict_key.text_key() == seq![dict_key@]);
        let allowed = match self.access.get(&dict_key) {
            Some(a) => a.is_allowed(dict_key.as_str(), caller_plugin),
            None => {
                let a = DictAccess::default();
                a.is_allowed(dict_key.as_str(), caller_plugin)
            },
        };
        if !allowed {
            return self.lookup_common(&lang_key, key, named_args, pos_args);
        }
        match self.resolve_exec(&dict_key, &lang_key, key) {
            Some(raw) => format_placeholders(raw.as_str(), named_args, pos_args),
            None => {
                let dk = str_chars(dict_key.as_str());
                if !chars_eq_str(&dk, "common") {
                    self.lookup_common(&lang_key, key, named_args, pos_args)
                } else {
                    format_placeholders(key, named_args, pos_args)
                }
            },
        }
    }

    /// Translates `key` of dictionary `dict_name` for `lang`, the dictionary
    /// reading itself.
    pub fn translate(&self, dict_name: &str, lang: &str, key: &str, named_args: &[(&str, &str)], pos_args: &[&str]) -> (r: String)
        requires
            self.wf(),
        ensures
            r@ == format_spec(self.raw_translation(dict_name@, dict_name@, lang@, key@), named_view(named_args@),
                pos_view(pos_args@)),
    {
        self.translate_with_caller(dict_name, dict_name, lang, key, named_args, pos_args)
    }

    /// The server's language: the `server_language` setting if it is set,
    /// else `en`.
    pub fn server_lang(server_language: Option<String>) -> (r: String)
        ensures
            match server_language {
                Some(s) => r@ == s@,
                None => r@ == "en"@,
            },
    {
        match server_language {
            Some(s) => s,
            None => "en".to_string(),
        }
    }

    /// Unloads every dictionary, fallback language and policy.
    pub fn clear(&mut self)
        ensures
            final(self).wf(),
            final(self).texts() == Map::<Seq<Seq<char>>, String>::empty(),
            final(self).fallbacks() == Map::<Seq<Seq<char>>, String>::empty(),
            final(self).policies() == Map::<Seq<Seq<char>>, DictAccess>::empty(),
    {
        self.dictionaries.clear();
        self.fallbacks.clear();
        self.access.clear();
    }

    /// Replaces `{name}` and `{0}` placeholders by plain string replacement,
    /// named arguments first, in order.
    pub fn format_placeholders(template: &str, named_args: &[(&str, &str)], pos_args: &[&str]) -> (r: String)
        ensures
            r@ == replace_positional(replace_named(template@, named_view(named_args@), named_args@.len() as int),
                pos_view(pos_args@), pos_args@.len() as int),
    {
        format_by_replace(template, named_args, pos_args)
    }
}


/// `after` holds the texts of `loaded` over those of `before`.
pub open spec fn loaded_over(after: Map<Seq<Seq<char>>, String>, before: Map<Seq<Seq<char>>, String>, loaded: Map<Seq<Seq<char>>, Seq<char>>) -> bool {
    &&& after.dom() == before.dom().union(loaded.dom())
    &&& forall|k: Seq<Seq<char>>| #[trigger] loaded.contains_key(k) ==> after[k]@ == loaded[k]
    &&& forall|k: Seq<Seq<char>>| #[trigger] before.contains_key(k) && !loaded.contains_key(k) ==> after[k] == before[k]
}

/// The message of a dictionary that does not parse.
pub open spec fn parse_error_message(dict: Seq<char>, e: Seq<char>) -> Seq<char> {
    "Failed to parse lang TOML for '"@ + dict + "': "@ + e
}

impl I18nEngine {
    /// Parses, compiles and registers a dictionary written in TOML. Returns
    /// the number of compiled entries.
    pub fn load_toml_string(&mut self, dict_name: &str, toml_str: &str) -> (r: Result<usize, String>)
        requires
            old(self).wf(),
        ensures
            final(self).wf(),
            r is Err ==> final(self).texts() == old(self).texts() && final(self).fallbacks() == old(self).fallbacks()
                && final(self).policies() == old(self).policies(),
            match toml_table_of(toml_str@) {
                Err(e) => r matches Err(m) && m@ == parse_error_message(dict_name@, e),
                Ok(t) => {
                    &&& (r is Ok <==> compile_ok(dict_name@, t))
                    &&& (r matches Err(e) ==> exists|i: int| 0 <= i < lang_sources(t).len() && lang_fails_with(
                        dict_name@, t, #[trigger] lang_sources(t)[i].0, lang_sources(t)[i].1, e@))
                    &&& (r matches Ok(n) ==> {
                        &&& n == compiled(dict_name@, t).dom().len()
                        &&& loaded_over(final(self).texts(), old(self).texts(), compiled(dict_name@, t))
                        &&& match config_fallback(t) {
                            Some(f) => updated_at(old(self).fallbacks(), final(self).fallbacks(), seq![unicode_lowercase(dict_name@)])
                                && final(self).fallbacks()[seq![unicode_lowercase(dict_name@)]]@ == f,
                            None => final(self).fallbacks() == old(self).fallbacks(),
                        }
                        &&& (config_access_value(t) is Some || unicode_lowercase(dict_name@) == "common"@) ==> updated_at(
                            old(self).policies(), final(self).policies(), seq![unicode_lowercase(unicode_lowercase(dict_name@))])
                        &&& (config_access_value(t) is None && unicode_lowercase(dict_name@) != "common"@) ==> final(self).policies()
                            == old(self).policies()
                        &&& unicode_lowercase(unicode_lowercase(dict_name@)) != "common"@ ==> (config_access_value(t) matches Some(v)
                            ==> access_read_as(v, final(self).policies()[seq![unicode_lowercase(unicode_lowercase(dict_name@))]]))
                    })
                },
            },
    {
        let table = match parse_toml_table(toml_str) {
            Ok(t) => t,
            Err(e) => {
                let mut m: Vec<char> = Vec::new();
                extend_str(&mut m, "Failed to parse lang TOML for '");
                extend_str(&mut m, dict_name);
                extend_str(&mut m, "': ");
                extend_str(&mut m, e.as_str());
                assert(m@ =~= parse_error_message(dict_name@, e@));
                return Err(chars_to_string(&m));
            },
        };
        let out = match Compiler::compile(dict_name, &table) {
            Ok(o) => o,
            Err(e) => {
                return Err(e);
            },
        };
        let ghost cv = out.entries.view();
        let n = self.register(dict_name, out);
        proof {
            assert(self.texts().dom() =~= old(self).texts().dom().union(compiled(dict_name@, table).dom()));
            assert(cv.dom() =~= compiled(dict_name@, table).dom());
        }
        Ok(n)
    }
}

/// A caller that may read a dictionary gets the dictionary's own text for a
/// key present in the requested language.
pub proof fn lemma_allowed_reads_entry(e: I18nEngine, caller: Seq<char>, dict: Seq<char>, lang: Seq<char>, key: Seq<char>)
    requires
        policy_allows(e.policies(), unicode_lowercase(dict), caller),
        text_at(e.texts(), unicode_lowercase(dict), unicode_lowercase(lang), key) is Some,
    ensures
        e.raw_translation(caller, dict, lang, key) == text_at(e.texts(), unicode_lowercase(dict), unicode_lowercase(lang), key)->0,
{
}

/// What a load writes is what a translation reads: after loading a
/// dictionary, an allowed caller asking for a compiled key in its language
/// gets the compiled text.
pub proof fn lemma_load_then_translate(before: I18nEngine, after: I18nEngine, dict: Seq<char>, t: TomlTable,
    caller: Seq<char>, lang: Seq<char>, key: Seq<char>)
    requires
        loaded_over(after.texts(), before.texts(), compiled(dict, t)),
        policy_allows(after.policies(), unicode_lowercase(dict), caller),
        compiled(dict, t).contains_key(seq![unicode_lowercase(dict), unicode_lowercase(lang), key]),
    ensures
        after.raw_translation(caller, dict, lang, key) == compiled(dict, t)[seq![unicode_lowercase(dict), unicode_lowercase(lang), key]],
{
}

/// For a caller allowed to read a dictionary, a translation is the first
/// text the dictionary has for the key in this order: the requested
/// language, the dictionary's fallback language (English when it names
/// none), then English.
pub proof fn lemma_language_fallback_order(e: I18nEngine, caller: Seq<char>, dict: Seq<char>, lang: Seq<char>, key: Seq<char>)
    requires
        policy_allows(e.policies(), unicode_lowercase(dict), caller),
    ensures
        ({
            let d = unicode_lowercase(dict);
            let l = unicode_lowercase(lang);
            let fl = unicode_lowercase(
                if e.fallbacks().contains_key(seq![d]) { e.fallbacks()[seq![d]]@ } else { "en"@ },
            );
            let m = e.texts();
            &&& m.contains_key(seq![d, l, key]) ==> e.raw_translation(caller, dict, lang, key) == m[seq![d, l, key]]@
            &&& !m.contains_key(seq![d, l, key]) && m.contains_key(seq![d, fl, key]) ==> e.raw_translation(
                caller,
                dict,
                lang,
                key,
            ) == m[seq![d, fl, key]]@
            &&& !m.contains_key(seq![d, l, key]) && !m.contains_key(seq![d, fl, key]) && m.contains_key(seq![d, "en"@, key])
                ==> e.raw_translation(caller, dict, lang, key) == m[seq![d, "en"@, key]]@
        }),
{
}

/// The last resorts of a translation: when the dictionary has no text for
/// the key in the requested language, its fallback language or English
/// (or the caller may not read it), the `common` dictionary's text in the
/// requested language is taken; with no text for the key anywhere, the key
/// itself is the translation.
pub proof fn lemma_common_then_key(e: I18nEngine, caller: Seq<char>, dict: Seq<char>, lang: Seq<char>, key: Seq<char>)
    ensures
        ({
            let d = unicode_lowercase(dict);
            let l = unicode_lowercase(lang);
            let fl = unicode_lowercase(
                if e.fallbacks().contains_key(seq![d]) { e.fallbacks()[seq![d]]@ } else { "en"@ },
            );
            let cfl = unicode_lowercase(
                if e.fallbacks().contains_key(seq!["common"@]) { e.fallbacks()[seq!["common"@]]@ } else { "en"@ },
            );
            let m = e.texts();
            let dict_has_none = !m.contains_key(seq![d, l, key]) && !m.contains_key(seq![d, fl, key])
                && !m.contains_key(seq![d, "en"@, key]);
            &&& (dict_has_none || !policy_allows(e.policies(), d, caller)) && m.contains_key(seq!["common"@, l, key])
                ==> e.raw_translation(caller, dict, lang, key) == m[seq!["common"@, l, key]]@
            &&& dict_has_none && !m.contains_key(seq!["common"@, l, key]) && !m.contains_key(seq!["common"@, cfl, key])
                && !m.contains_key(seq!["common"@, "en"@, key]) ==> e.raw_translation(caller, dict, lang, key) == key
        }),
{
    let d = unicode_lowercase(dict);
    let l = unicode_lowercase(lang);
    let m = e.texts();
    if m.contains_key(seq!["common"@, l, key]) {
        assert(text_at(m, "common"@, l, key) == Some(m[seq!["common"@, l, key]]@));
    }
}

/// A caller that may not read a dictionary gets what the `common`
/// dictionary says, or the key itself.
pub proof fn lemma_denied_reads_common(e: I18nEngine, caller: Seq<char>, dict: Seq<char>, lang: Seq<char>, key: Seq<char>)
    requires
        !policy_allows(e.policies(), unicode_lowercase(dict), caller),
    ensures
        e.raw_translation(caller, dict, lang, key) == match resolve(e.texts(), e.fallbacks(), "common"@, unicode_lowercase(lang), key) {
            Some(t) => t,
            None => key,
        },
{
}

/// With nothing loaded, every translation is the key itself.
pub proof fn lemma_empty_translates_to_key(e: I18nEngine, caller: Seq<char>, dict: Seq<char>, lang: Seq<char>, key: Seq<char>)
    requires
        e.texts() == Map::<Seq<Seq<char>>, String>::empty(),
    ensures
        e.raw_translation(caller, dict, lang, key) == key,
{
}

} // verus!
