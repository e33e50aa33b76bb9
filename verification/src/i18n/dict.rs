//! Dictionary data and the access policies of dictionaries.

use vstd::prelude::*;
use crate::strmap::StrMap;
use crate::keymap::KeyMap;
use crate::text::{str_chars, chars_eq_str, to_lowercase, unicode_lowercase, chars_eq};
use crate::i18n::toml_doc::{TomlValue, TomlTable, get_value, table_get};

verus! {

/// Access policy of a dictionary.
pub enum DictAccess {
    /// A named policy: `"public"` or `"private"`.
    Simple(String),
    /// A policy with an explicit list of plugins, e.g. `{ type = "shared",
    /// allowed = ["plugin1", "plugin2"] }`.
    Structured { kind: String, allowed: Vec<String> },
}

impl Default for DictAccess {
    fn default() -> (a: Self)
        ensures
            a matches DictAccess::Simple(s) && s@ == "private"@,
    {
        DictAccess::Simple("private".to_string())
    }
}

impl Clone for DictAccess {
    fn clone(&self) -> (a: Self)
        ensures
            same_access(a, *self),
    {
        match self {
            DictAccess::Simple(s) => DictAccess::Simple(s.clone()),
            DictAccess::Structured { kind, allowed } => {
                let mut v: Vec<String> = Vec::new();
                let mut k: usize = 0;
                while k < allowed.len()
                    invariant
                        k <= allowed@.len(),
                        v@.len() == k,
                        forall|j: int| 0 <= j < k ==> (#[trigger] v@[j])@ == allowed@[j]@,
                    decreases allowed@.len() - k,
                {
                    v.push(allowed[k].clone());
                    k = k + 1;
                }
                assert(strings_of(v@) =~= strings_of(allowed@));
                DictAccess::Structured { kind: kind.clone(), allowed: v }
            },
        }
    }
}

/// The characters of each string.
pub open spec fn strings_of(v: Seq<String>) -> Seq<Seq<char>> {
    v.map_values(|s: String| s@)
}

/// Two policies with the same text.
pub open spec fn same_access(a: DictAccess, b: DictAccess) -> bool {
    match (a, b) {
        (DictAccess::Simple(x), DictAccess::Simple(y)) => x@ == y@,
        (DictAccess::Structured { kind: k1, allowed: a1 }, DictAccess::Structured { kind: k2, allowed: a2 }) =>
            k1@ == k2@ && strings_of(a1@) == strings_of(a2@),
        _ => false,
    }
}

/// Whether `caller` may read dictionary `dict` under policy `a`: everyone
/// may read `common`; a plugin may read its own dictionary, and so may an
/// anonymous caller; otherwise the policy must be public, or shared with the
/// caller. Names are compared in lowercase.
pub open spec fn access_allows(a: DictAccess, dict: Seq<char>, caller: Seq<char>) -> bool {
    let d = unicode_lowercase(dict);
    let c = unicode_lowercase(caller);
    if d == "common"@ {
        true
    } else if d == c || c.len() == 0 {
        true
    } else {
        match a {
            DictAccess::Simple(s) => unicode_lowercase(s@) == "public"@,
            DictAccess::Structured { kind, allowed } => {
                let k = unicode_lowercase(kind@);
                k == "public"@ || (k == "shared"@ && exists|i: int| 0 <= i < allowed@.len()
                    && unicode_lowercase(#[trigger] allowed@[i]@) == c)
            },
        }
    }
}

/// Whether a policy is public (its name or kind is `public` in any case).
pub open spec fn is_public(a: DictAccess) -> bool {
    match a {
        DictAccess::Simple(s) => unicode_lowercase(s@) == "public"@,
        DictAccess::Structured { kind, .. } => unicode_lowercase(kind@) == "public"@,
    }
}

fn lower_eq(s: &str, lit: &str) -> (r: bool)
    ensures
        r == (unicode_lowercase(s@) == lit@),
{
    let l = to_lowercase(s);
    let lc = str_chars(l.as_str());
    chars_eq_str(&lc, lit)
}

impl DictAccess {
    /// The public policy.
    pub fn public() -> (a: Self)
        ensures
            a matches DictAccess::Simple(s) && s@ == "public"@,
    {
        DictAccess::Simple("public".to_string())
    }

    /// The private policy.
    pub fn private() -> (a: Self)
        ensures
            a matches DictAccess::Simple(s) && s@ == "private"@,
    {
        DictAccess::Simple("private".to_string())
    }

    /// A policy shared with the named plugins.
    pub fn shared(allowed: Vec<String>) -> (a: Self)
        ensures
            a matches DictAccess::Structured { kind, allowed: al } && kind@ == "shared"@ && al@ == allowed@,
    {
        DictAccess::Structured { kind: "shared".to_string(), allowed }
    }

    /// Whether the policy is public.
    pub fn is_public_policy(&self) -> (r: bool)
        ensures
            r == is_public(*self),
    {
        match self {
            DictAccess::Simple(s) => lower_eq(s.as_str(), "public"),
            DictAccess::Structured { kind, .. } => lower_eq(kind.as_str(), "public"),
        }
    }

    /// Whether `caller_plugin` may read dictionary `dict_name`.
    #[verifier::loop_isolation(false)]
    pub fn is_allowed(&self, dict_name: &str, caller_plugin: &str) -> (r: bool)
        ensures
            r == access_allows(*self, dict_name@, caller_plugin@),
    {
        let clean_dict = to_lowercase(dict_name);
        let clean_caller = to_lowercase(caller_plugin);
        let d = str_chars(clean_dict.as_str());
        let c = str_chars(clean_caller.as_str());
        if chars_eq_str(&d, "common") {
            return true;
        }
        if chars_eq(&d, &c) || c.len() == 0 {
            return true;
        }
        match self {
            DictAccess::Simple(s) => lower_eq(s.as_str(), "public"),
            DictAccess::Structured { kind, allowed } => {
                if lower_eq(kind.as_str(), "public") {
                    return true;
                }
                if lower_eq(kind.as_str(), "shared") {
                    let mut k: usize = 0;
                    while k < allowed.len()
                        invariant
                            k <= allowed@.len(),
                            c@ == unicode_lowercase(caller_plugin@),
                            d@ == unicode_lowercase(dict_name@),
                            d@ != "common"@,
                            d@ != c@ && c@.len() != 0,
                            unicode_lowercase(kind@) == "shared"@,
                            unicode_lowercase(kind@) != "public"@,
                            forall|j: int| 0 <= j < k ==> unicode_lowercase(#[trigger] allowed@[j]@) != c@,
                        decreases allowed@.len() - k,
                    {
                        let p = to_lowercase(allowed[k].as_str());
                        let pc = str_chars(p.as_str());
                        if chars_eq(&pc, &c) {
                            assert(unicode_lowercase(allowed@[k as int]@) == c@);
                            return true;
                        }
                        k = k + 1;
                    }
                    return false;
                }
                false
            },
        }
    }
}

// ---------------------------------------------------------------------------
// Reading a policy from TOML
// ---------------------------------------------------------------------------

/// `v` is an array of strings, and `out` holds them in order.
pub open spec fn strings_array_is(v: TomlValue, out: Seq<Seq<char>>) -> bool {
    match v {
        TomlValue::Array(items) => items@.len() == out.len() && forall|i: int| 0 <= i < out.len() ==> (
            #[trigger] items@[i] matches TomlValue::Str(s) && s@ == out[i]),
        _ => false,
    }
}

/// Whether `v` is an array of strings.
pub open spec fn is_strings_array(v: TomlValue) -> bool {
    match v {
        TomlValue::Array(items) => forall|i: int| 0 <= i < items@.len() ==> (#[trigger] items@[i]) is Str,
        _ => false,
    }
}

/// Whether a TOML value reads as a policy: a string; a table with a string
/// `type` and, if present, an array of strings `allowed`; or an array of a
/// string kind optionally followed by an array of strings.
pub open spec fn reads_as_access(v: TomlValue) -> bool {
    match v {
        TomlValue::Str(_) => true,
        TomlValue::Table(t) => (get_value(t, "type"@) matches Some(TomlValue::Str(_)))
            && (get_value(t, "allowed"@) matches Some(a) ==> is_strings_array(a)),
        TomlValue::Array(items) => (items@.len() == 1 || items@.len() == 2) && items@[0] is Str
            && (items@.len() == 2 ==> is_strings_array(items@[1])),
        TomlValue::Other => false,
    }
}

/// `a` is the policy that `v` reads as.
pub open spec fn access_read_as(v: TomlValue, a: DictAccess) -> bool {
    match v {
        TomlValue::Str(s) => a matches DictAccess::Simple(x) && x@ == s@,
        TomlValue::Table(t) => a matches DictAccess::Structured { kind, allowed } && (get_value(t, "type"@)
            matches Some(TomlValue::Str(k)) && kind@ == k@) && (match get_value(t, "allowed"@) {
            Some(arr) => strings_array_is(arr, strings_of(allowed@)),
            None => allowed@.len() == 0,
        }),
        TomlValue::Array(items) => a matches DictAccess::Structured { kind, allowed } && (items@[0]
            matches TomlValue::Str(k) && kind@ == k@) && (if items@.len() == 2 {
            strings_array_is(items@[1], strings_of(allowed@))
        } else {
            allowed@.len() == 0
        }),
        TomlValue::Other => false,
    }
}

#[verifier::loop_isolation(false)]
fn read_strings(v: &TomlValue) -> (r: Option<Vec<String>>)
    ensures
        r is Some <==> is_strings_array(*v),
        r matches Some(out) ==> strings_array_is(*v, strings_of(out@)),
{
    match v {
        TomlValue::Array(items) => {
            let mut out: Vec<String> = Vec::new();
            let mut k: usize = 0;
            while k < items.len()
                invariant
                    k <= items@.len(),
                    out@.len() == k,
                    forall|j: int| 0 <= j < k ==> (#[trigger] items@[j] matches TomlValue::Str(s) && s@
                        == out@[j]@),
                decreases items@.len() - k,
            {
                match &items[k] {
                    TomlValue::Str(s) => out.push(s.clone()),
                    _ => {
                        assert(!(items@[k as int] is Str));
                        return None;
                    },
                }
                k = k + 1;
            }
            assert(strings_array_is(*v, strings_of(out@)));
            Some(out)
        },
        _ => None,
    }
}

/// Reads an access policy from a TOML value.
pub fn access_from_toml(v: &TomlValue) -> (r: Option<DictAccess>)
    ensures
        r is Some <==> reads_as_access(*v),
        r matches Some(a) ==> access_read_as(*v, a),
{
    match v {
        TomlValue::Str(s) => Some(DictAccess::Simple(s.clone())),
        TomlValue::Table(t) => {
            let kind = match table_get(t, "type") {
                Some(TomlValue::Str(k)) => k.clone(),
                _ => {
                    return None;
                },
            };
            let allowed = match table_get(t, "allowed") {
                Some(a) => match read_strings(a) {
                    Some(out) => out,
                    None => {
                        return None;
                    },
                },
                None => Vec::new(),
            };
            Some(DictAccess::Structured { kind, allowed })
        },
        TomlValue::Array(items) => {
            if items.len() != 1 && items.len() != 2 {
                return None;
            }
            let kind = match &items[0] {
                TomlValue::Str(k) => k.clone(),
                _ => {
                    return None;
                },
            };
            let allowed = if items.len() == 2 {
                match read_strings(&items[1]) {
                    Some(out) => out,
                    None => {
                        return None;
                    },
                }
            } else {
                Vec::new()
            };
            Some(DictAccess::Structured { kind, allowed })
        },
        TomlValue::Other => None,
    }
}

// ---------------------------------------------------------------------------
// Dictionary data
// ---------------------------------------------------------------------------

/// Metadata and behavior settings of a dictionary.
pub struct DictConfig {
    /// Version of the dictionary contents (e.g. `"1.0.0"`).
    pub version: Option<String>,
    /// Author or maintainer of the translations.
    pub author: Option<String>,
    /// Fallback language code (e.g. `"en"`).
    pub fallback: String,
    /// Access control policy.
    pub access: DictAccess,
    /// Whether missing keys or parameters are reported.
    pub strict_mode: bool,
}

impl Default for DictConfig {
    fn default() -> (c: Self)
        ensures
            c.version is None,
            c.author is None,
            c.fallback@ == "en"@,
            c.access matches DictAccess::Simple(s) && s@ == "private"@,
            !c.strict_mode,
    {
        DictConfig {
            version: None,
            author: None,
            fallback: "en".to_string(),
            access: DictAccess::default(),
            strict_mode: false,
        }
    }
}

/// The translations of one language, with its scoped variables and templates.
pub struct LangTable {
    /// Variables that shadow the dictionary's variables for this language.
    pub vars: StrMap,
    /// Templates that shadow the dictionary's templates for this language.
    pub templates: StrMap,
    /// Key-value translation strings.
    pub entries: StrMap,
}

impl Default for LangTable {
    fn default() -> (t: Self)
        ensures
            t.vars@ == Map::<Seq<char>, Seq<char>>::empty() && t.vars.wf(),
            t.templates@ == Map::<Seq<char>, Seq<char>>::empty() && t.templates.wf(),
            t.entries@ == Map::<Seq<char>, Seq<char>>::empty() && t.entries.wf(),
    {
        LangTable { vars: StrMap::new(), templates: StrMap::new(), entries: StrMap::new() }
    }
}

/// A language dictionary.
pub struct LangDict {
    /// Configuration and metadata.
    pub config: DictConfig,
    /// Dictionary-wide macro templates.
    pub templates: StrMap,
    /// Dictionary-wide variables.
    pub vars: StrMap,
    /// The tables of the languages, by language code.
    pub translations: KeyMap<String, LangTable>,
}

impl Default for LangDict {
    fn default() -> (d: Self)
        ensures
            d.config.fallback@ == "en"@,
            d.templates@ == Map::<Seq<char>, Seq<char>>::empty() && d.templates.wf(),
            d.vars@ == Map::<Seq<char>, Seq<char>>::empty() && d.vars.wf(),
            d.translations.view() == Map::<Seq<Seq<char>>, LangTable>::empty() && d.translations.wf(),
    {
        LangDict {
            config: DictConfig::default(),
            templates: StrMap::new(),
            vars: StrMap::new(),
            translations: KeyMap::new(),
        }
    }
}


/// The `common` dictionary (in any case) is readable by every caller under
/// every policy.
pub proof fn lemma_common_always_allowed(a: DictAccess, dict: Seq<char>, caller: Seq<char>)
    requires
        unicode_lowercase(dict) == "common"@,
    ensures
        access_allows(a, dict, caller),
{
}

/// A plugin may always read its own dictionary, and an anonymous caller may
/// read any dictionary.
pub proof fn lemma_owner_always_allowed(a: DictAccess, dict: Seq<char>, caller: Seq<char>)
    requires
        unicode_lowercase(dict) == unicode_lowercase(caller) || unicode_lowercase(caller).len() == 0,
    ensures
        access_allows(a, dict, caller),
{
}

} // verus!
