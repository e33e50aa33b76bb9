//! Directory layout of the framework and lexical path normalization.
//!
//! Paths are strings with `/` separators. Which candidate directories exist
//! on disk is found by the caller and handed in as flags, one per candidate.

use vstd::prelude::*;
use crate::text::{str_chars, chars_to_string, extend_str, extend_chars};

verus! {

/// The game directory the server runs.
pub const DEFAULT_MOD_DIR: &'static str = "cstrike";
/// The Metamod addons directory.
pub const ADDONS_DIR_NAME: &'static str = "addons";
/// The framework's own directory.
pub const FRAMEWORK_NAME: &'static str = "goldsrc";
/// Plugin binaries.
pub const PLUGINS_DIR_NAME: &'static str = "plugins";
/// Plugin configurations.
pub const CONFIGS_DIR_NAME: &'static str = "configs";
/// Log files.
pub const LOGS_DIR_NAME: &'static str = "logs";
/// Persistent data.
pub const DATA_DIR_NAME: &'static str = "data";
/// Translation dictionaries, under the data directory.
pub const LANG_DIR_NAME: &'static str = "lang";
/// Databases, under the data directory.
pub const DB_DIR_NAME: &'static str = "db";
/// The default database file.
pub const DEFAULT_DB_FILE_NAME: &'static str = "goldsrc.db";
/// The main configuration file.
pub const DEFAULT_CONFIG_FILE_NAME: &'static str = "goldsrc.toml";
/// The extension of plugin binaries.
pub const WASM_EXT: &'static str = "wasm";

/// How the framework is loaded into the server.
#[derive(Debug, Clone, Copy, PartialEq, Eq, Structural, Hash)]
pub enum BackendType {
    /// As a Metamod plugin, under `addons/`.
    Metamod,
    /// As a GameDLL proxy, directly in the game directory.
    Standalone,
}

/// `a` joined with the relative path `b` (`Path::join`).
pub open spec fn join(a: Seq<char>, b: Seq<char>) -> Seq<char> {
    if a.len() == 0 {
        b
    } else if a.last() == '/' {
        a + b
    } else {
        a + seq!['/'] + b
    }
}

/// Joins two paths.
pub fn join_path(a: &str, b: &str) -> (r: String)
    ensures
        r@ == join(a@, b@),
{
    let mut v = str_chars(a);
    if v.len() > 0 && v[v.len() - 1] != '/' {
        v.push('/');
    }
    extend_str(&mut v, b);
    chars_to_string(&v)
}

/// The framework directory relative to the server root, without the game
/// directory in front.
pub open spec fn framework_rel(backend: BackendType) -> Seq<char> {
    if backend == BackendType::Metamod {
        "addons/goldsrc"@
    } else {
        "goldsrc"@
    }
}

/// The framework directory: `cstrike/addons/goldsrc` under Metamod,
/// `cstrike/goldsrc` standalone.
pub open spec fn framework_dir_spec(backend: BackendType) -> Seq<char> {
    join("cstrike"@, framework_rel(backend))
}

/// The candidate locations of a framework subdirectory, in order of
/// preference: under the executable's directory, then under it without the
/// game directory, then relative to the working directory.
pub open spec fn candidate_dirs(backend: BackendType, exe_dir: Option<Seq<char>>, sub: Seq<char>) -> Seq<Seq<char>> {
    let rel = join(framework_dir_spec(backend), sub);
    match exe_dir {
        Some(base) => seq![join(base, rel), join(base, join(framework_rel(backend), sub)), rel],
        None => seq![rel],
    }
}

/// The candidate locations of the data directory, in order of preference:
/// under the executable's directory, relative to the working directory, then
/// under the executable's directory without the game directory.
pub open spec fn data_candidate_dirs(backend: BackendType, exe_dir: Option<Seq<char>>) -> Seq<Seq<char>> {
    let rel = join(framework_dir_spec(backend), "data"@);
    match exe_dir {
        Some(base) => seq![join(base, rel), rel, join(base, join(framework_rel(backend), "data"@))],
        None => seq![rel],
    }
}

/// The first candidate from position `k` on whose flag is set, or `fallback`.
pub open spec fn first_existing_from(cands: Seq<Seq<char>>, exists: Seq<bool>, fallback: Seq<char>, k: int) -> Seq<char>
    decreases cands.len() - k,
{
    if k < 0 || k >= cands.len() {
        fallback
    } else if k < exists.len() && exists[k] {
        cands[k]
    } else {
        first_existing_from(cands, exists, fallback, k + 1)
    }
}

/// The first candidate whose flag is set, or `fallback`; a candidate without
/// a flag does not exist.
pub open spec fn first_existing(cands: Seq<Seq<char>>, exists: Seq<bool>, fallback: Seq<char>) -> Seq<char> {
    first_existing_from(cands, exists, fallback, 0)
}

fn first_existing_exec(cands: &Vec<String>, exists: &Vec<bool>, fallback: String) -> (r: String)
    ensures
        r@ == first_existing(cands@.map_values(|c: String| c@), exists@, fallback@),
{
    let ghost cs = cands@.map_values(|c: String| c@);
    let mut k: usize = 0;
    while k < cands.len()
        invariant
            k <= cands@.len(),
            cs == cands@.map_values(|c: String| c@),
            first_existing(cs, exists@, fallback@) == first_existing_from(cs, exists@, fallback@, k as int),
        decreases cands@.len() - k,
    {
        if k < exists.len() && exists[k] {
            return cands[k].clone();
        }
        k = k + 1;
    }
    fallback
}


/// Whether a character separates path components (`/`, or `\` as written on
/// Windows).
pub open spec fn is_sep(c: char) -> bool {
    c == '/' || c == '\\'
}

/// The component stack after one more component: `.` and empty components
/// are dropped, `..` drops the last component (if any), and anything else is
/// kept.
pub open spec fn push_component(stack: Seq<Seq<char>>, seg: Seq<char>) -> Seq<Seq<char>> {
    if seg.len() == 0 || seg == "."@ {
        stack
    } else if seg == ".."@ {
        if stack.len() > 0 { stack.drop_last() } else { stack }
    } else {
        stack.push(seg)
    }
}

/// The components kept so far and the component being read, after reading `s`.
pub open spec fn scan_path(s: Seq<char>) -> (Seq<Seq<char>>, Seq<char>)
    decreases s.len(),
{
    if s.len() == 0 {
        (Seq::empty(), Seq::empty())
    } else {
        let (st, cur) = scan_path(s.drop_last());
        if is_sep(s.last()) {
            (push_component(st, cur), Seq::empty())
        } else {
            (st, cur.push(s.last()))
        }
    }
}

/// Components joined by `/`.
pub open spec fn join_components(cs: Seq<Seq<char>>) -> Seq<char>
    decreases cs.len(),
{
    if cs.len() == 0 {
        Seq::empty()
    } else if cs.len() == 1 {
        cs[0]
    } else {
        join_components(cs.drop_last()) + seq!['/'] + cs.last()
    }
}

/// The lexically normalized form of a path: backslashes become `/`, `.` and
/// empty components vanish, `..` removes the component before it (and is
/// dropped where there is none), and a leading separator is kept as the root.
pub open spec fn normalized(s: Seq<char>) -> Seq<char> {
    let (st, cur) = scan_path(s);
    let cs = push_component(st, cur);
    if s.len() > 0 && is_sep(s[0]) {
        seq!['/'] + join_components(cs)
    } else {
        join_components(cs)
    }
}

/// A component a normalized path keeps: not empty, not `.` or `..`, and
/// without a separator.
pub open spec fn kept_component(c: Seq<char>) -> bool {
    &&& c.len() > 0
    &&& c != "."@
    &&& c != ".."@
    &&& forall|i: int| 0 <= i < c.len() ==> !is_sep(#[trigger] c[i])
}

/// Every component is one a normalized path keeps.
pub open spec fn all_kept(cs: Seq<Seq<char>>) -> bool {
    forall|k: int| 0 <= k < cs.len() ==> kept_component(#[trigger] cs[k])
}

proof fn lemma_push_component_kept(st: Seq<Seq<char>>, cur: Seq<char>)
    requires
        all_kept(st),
        forall|i: int| 0 <= i < cur.len() ==> !is_sep(#[trigger] cur[i]),
    ensures
        all_kept(push_component(st, cur)),
        kept_component(cur) ==> push_component(st, cur) == st.push(cur),
{
    if cur.len() == 0 || cur == "."@ {
    } else if cur == ".."@ {
    } else {
        assert forall|k: int| 0 <= k < st.push(cur).len() implies kept_component(#[trigger] st.push(cur)[k]) by {
            if k < st.len() {
                assert(st.push(cur)[k] == st[k]);
            }
        }
    }
}

proof fn lemma_scan_kept(s: Seq<char>)
    ensures
        all_kept(scan_path(s).0),
        forall|i: int| 0 <= i < scan_path(s).1.len() ==> !is_sep(#[trigger] scan_path(s).1[i]),
    decreases s.len(),
{
    if s.len() > 0 {
        lemma_scan_kept(s.drop_last());
        let (st, cur) = scan_path(s.drop_last());
        lemma_push_component_kept(st, cur);
        if !is_sep(s.last()) {
            assert forall|i: int| 0 <= i < cur.push(s.last()).len() implies !is_sep(#[trigger] cur.push(s.last())[i]) by {
                if i < cur.len() {
                    assert(cur.push(s.last())[i] == cur[i]);
                }
            }
        }
    }
}

proof fn lemma_scan_no_sep(a: Seq<char>, b: Seq<char>)
    requires
        forall|i: int| 0 <= i < b.len() ==> !is_sep(#[trigger] b[i]),
    ensures
        scan_path(a + b) == (scan_path(a).0, scan_path(a).1 + b),
    decreases b.len(),
{
    if b.len() == 0 {
        assert(a + b =~= a);
        assert(scan_path(a).1 + b =~= scan_path(a).1);
    } else {
        lemma_scan_no_sep(a, b.drop_last());
        assert((a + b).drop_last() =~= a + b.drop_last());
        assert((a + b).last() == b.last());
        assert(!is_sep(b[b.len() - 1]));
        assert((scan_path(a).1 + b.drop_last()).push(b.last()) =~= scan_path(a).1 + b);
    }
}

proof fn lemma_scan_join(a: Seq<char>, cs: Seq<Seq<char>>)
    requires
        scan_path(a).1.len() == 0,
        all_kept(cs),
    ensures
        push_component(scan_path(a + join_components(cs)).0, scan_path(a + join_components(cs)).1)
            == scan_path(a).0 + cs,
    decreases cs.len(),
{
    let st = scan_path(a).0;
    lemma_scan_kept(a);
    if cs.len() == 0 {
        assert(a + join_components(cs) =~= a);
        assert(st + cs =~= st);
    } else {
        let last = cs.last();
        assert(kept_component(cs[cs.len() - 1]));
        if cs.len() == 1 {
            lemma_scan_no_sep(a, last);
            assert(join_components(cs) == cs[0]);
            assert(scan_path(a).1 + last =~= last);
            lemma_push_component_kept(st, last);
            assert(st.push(last) =~= st + cs);
        } else {
            let init = cs.drop_last();
            assert(all_kept(init)) by {
                assert forall|k: int| 0 <= k < init.len() implies kept_component(#[trigger] init[k]) by {
                    assert(init[k] == cs[k]);
                }
            }
            lemma_scan_join(a, init);
            let j = a + join_components(init);
            let js = j + seq!['/'];
            assert(js.drop_last() =~= j);
            assert(scan_path(js) == (push_component(scan_path(j).0, scan_path(j).1), Seq::<char>::empty()));
            lemma_scan_no_sep(js, last);
            assert(a + join_components(cs) =~= js + last);
            assert(Seq::<char>::empty() + last =~= last);
            lemma_scan_kept(js);
            lemma_push_component_kept(st + init, last);
            assert((st + init).push(last) =~= st + cs);
        }
    }
}

proof fn lemma_join_first(cs: Seq<Seq<char>>)
    requires
        cs.len() > 0,
        all_kept(cs),
    ensures
        join_components(cs).len() > 0,
        join_components(cs)[0] == cs[0][0],
    decreases cs.len(),
{
    assert(kept_component(cs[0]));
    if cs.len() > 1 {
        let init = cs.drop_last();
        assert(all_kept(init)) by {
            assert forall|k: int| 0 <= k < init.len() implies kept_component(#[trigger] init[k]) by {
                assert(init[k] == cs[k]);
            }
        }
        lemma_join_first(init);
    }
}

proof fn lemma_join_no_backslash(cs: Seq<Seq<char>>)
    requires
        all_kept(cs),
    ensures
        forall|i: int| 0 <= i < join_components(cs).len() ==> #[trigger] join_components(cs)[i] != '\\',
    decreases cs.len(),
{
    if cs.len() > 0 {
        assert(kept_component(cs[cs.len() - 1]));
        if cs.len() == 1 {
            assert(kept_component(cs[0]));
        } else {
            let init = cs.drop_last();
            assert(all_kept(init)) by {
                assert forall|k: int| 0 <= k < init.len() implies kept_component(#[trigger] init[k]) by {
                    assert(init[k] == cs[k]);
                }
            }
            lemma_join_no_backslash(init);
            let j = join_components(init) + seq!['/'] + cs.last();
            assert forall|i: int| 0 <= i < j.len() implies #[trigger] j[i] != '\\' by {
                if i < join_components(init).len() {
                    assert(j[i] == join_components(init)[i]);
                } else if i > join_components(init).len() {
                    assert(j[i] == cs.last()[i - join_components(init).len() - 1]);
                }
            }
        }
    }
}

/// A normalized path has no backslash; it is its components joined by
/// `/`, none of them empty, `.` or `..`, after a `/` exactly when the path
/// starts with a separator; so a relative path stays relative.
pub proof fn lemma_normalized_shape(s: Seq<char>)
    ensures
        forall|i: int| 0 <= i < normalized(s).len() ==> #[trigger] normalized(s)[i] != '\\',
        exists|cs: Seq<Seq<char>>|
            all_kept(cs) && normalized(s) == (if s.len() > 0 && is_sep(s[0]) {
                seq!['/'] + join_components(cs)
            } else {
                join_components(cs)
            }),
        !(s.len() > 0 && is_sep(s[0])) ==> normalized(s).len() == 0 || normalized(s)[0] != '/',
{
    let (st, cur) = scan_path(s);
    lemma_scan_kept(s);
    lemma_push_component_kept(st, cur);
    let cs = push_component(st, cur);
    lemma_join_no_backslash(cs);
    let j = join_components(cs);
    if s.len() > 0 && is_sep(s[0]) {
        let r = seq!['/'] + j;
        assert forall|i: int| 0 <= i < r.len() implies #[trigger] r[i] != '\\' by {
            if i > 0 {
                assert(r[i] == j[i - 1]);
            }
        }
    } else if cs.len() > 0 {
        lemma_join_first(cs);
        assert(kept_component(cs[0]));
        assert(!is_sep(cs[0][0]));
    }
}

/// Normalizing is idempotent: a normalized path is its own normal form.
pub proof fn lemma_normalize_idempotent(s: Seq<char>)
    ensures
        normalized(normalized(s)) == normalized(s),
{
    let (st, cur) = scan_path(s);
    lemma_scan_kept(s);
    lemma_push_component_kept(st, cur);
    let cs = push_component(st, cur);
    let j = join_components(cs);
    let empty = Seq::<char>::empty();
    assert(scan_path(empty) == (Seq::<Seq<char>>::empty(), empty));
    if s.len() > 0 && is_sep(s[0]) {
        let root = seq!['/'];
        assert(root.drop_last() =~= empty);
        assert(scan_path(root) == (push_component(Seq::<Seq<char>>::empty(), empty), empty));
        lemma_scan_join(root, cs);
        assert(Seq::<Seq<char>>::empty() + cs =~= cs);
        assert((root + j)[0] == '/');
    } else {
        lemma_scan_join(empty, cs);
        assert(empty + j =~= j);
        assert(Seq::<Seq<char>>::empty() + cs =~= cs);
        if cs.len() > 0 {
            lemma_join_first(cs);
            assert(kept_component(cs[0]));
            assert(!is_sep(cs[0][0]));
        }
    }
}

fn push_component_exec(stack: &mut Vec<Vec<char>>, seg: Vec<char>)
    ensures
        final(stack)@.map_values(|c: Vec<char>| c@) == push_component(old(stack)@.map_values(|c: Vec<char>| c@), seg@),
{
    let ghost before = stack@.map_values(|c: Vec<char>| c@);
    proof {
        reveal_strlit(".");
        reveal_strlit("..");
    }
    let dot = seg.len() == 1 && seg[0] == '.';
    let dotdot = seg.len() == 2 && seg[0] == '.' && seg[1] == '.';
    assert(dot == (seg@ == "."@)) by {
        if seg@ == "."@ {
            assert(seg@[0] == "."@[0]);
        }
        if dot {
            assert(seg@ =~= "."@);
        }
    }
    assert(dotdot == (seg@ == ".."@)) by {
        if seg@ == ".."@ {
            assert(seg@[0] == ".."@[0]);
            assert(seg@[1] == ".."@[1]);
        }
        if dotdot {
            assert(seg@ =~= ".."@);
        }
    }
    if seg.len() == 0 || dot {
    } else if dotdot {
        if stack.len() > 0 {
            stack.pop();
            assert(stack@.map_values(|c: Vec<char>| c@) =~= before.drop_last());
        }
    } else {
        stack.push(seg);
        assert(stack@.map_values(|c: Vec<char>| c@) =~= before.push(seg@));
    }
}

fn join_components_exec(cs: &Vec<Vec<char>>, dst: &mut Vec<char>)
    ensures
        final(dst)@ == old(dst)@ + join_components(cs@.map_values(|c: Vec<char>| c@)),
{
    let ghost base = dst@;
    let mut k: usize = 0;
    while k < cs.len()
        invariant
            k <= cs@.len(),
            dst@ == base + join_components(cs@.take(k as int).map_values(|c: Vec<char>| c@)),
        decreases cs@.len() - k,
    {
        let ghost prev = cs@.take(k as int).map_values(|c: Vec<char>| c@);
        let ghost next = cs@.take(k as int + 1).map_values(|c: Vec<char>| c@);
        assert(next.drop_last() =~= prev);
        if k > 0 {
            dst.push('/');
        }
        extend_chars(dst, &cs[k]);
        proof {
            if k > 0 {
                assert(dst@ =~= base + (join_components(prev) + seq!['/'] + next.last()));
            } else {
                assert(dst@ =~= base + next[0]);
            }
        }
        k = k + 1;
    }
    assert(cs@.take(k as int) =~= cs@);
}

/// Resolves the framework's directories.
pub struct PathResolver;

impl PathResolver {
    /// Normalizes a path lexically, with forward slashes on all platforms;
    /// the path need not exist, and a relative path stays relative.
    pub fn normalize(path: &str) -> (r: String)
        ensures
            r@ == normalized(path@),
    {
        let s = str_chars(path);
        let mut stack: Vec<Vec<char>> = Vec::new();
        let mut cur: Vec<char> = Vec::new();
        let mut i: usize = 0;
        while i < s.len()
            invariant
                s@ == path@,
                i <= s@.len(),
                stack@.map_values(|c: Vec<char>| c@) == scan_path(s@.take(i as int)).0,
                cur@ == scan_path(s@.take(i as int)).1,
            decreases s@.len() - i,
        {
            let c = s[i];
            assert(s@.take(i as int + 1).drop_last() =~= s@.take(i as int));
            if c == '/' || c == '\\' {
                let seg = cur;
                push_component_exec(&mut stack, seg);
                cur = Vec::new();
            } else {
                cur.push(c);
            }
            i = i + 1;
        }
        assert(s@.take(i as int) =~= s@);
        push_component_exec(&mut stack, cur);
        let mut out: Vec<char> = Vec::new();
        if s.len() > 0 && (s[0] == '/' || s[0] == '\\') {
            out.push('/');
        }
        join_components_exec(&stack, &mut out);
        chars_to_string(&out)
    }

    /// The framework directory for the backend.
    pub fn framework_dir(backend: BackendType) -> (r: String)
        ensures
            r@ == framework_dir_spec(backend),
    {
        let rel = Self::framework_rel_exec(backend);
        join_path(DEFAULT_MOD_DIR, &rel)
    }

    fn framework_rel_exec(backend: BackendType) -> (r: String)
        ensures
            r@ == framework_rel(backend),
    {
        proof {
            reveal_strlit("addons");
            reveal_strlit("goldsrc");
            reveal_strlit("addons/goldsrc");
        }
        if backend == BackendType::Metamod {
            let r = join_path(ADDONS_DIR_NAME, FRAMEWORK_NAME);
            assert(r@ =~= "addons/goldsrc"@);
            r
        } else {
            FRAMEWORK_NAME.to_string()
        }
    }

    fn candidates(backend: BackendType, exe_dir: Option<&str>, sub: &str) -> (r: Vec<String>)
        ensures
            r@.map_values(|c: String| c@) == candidate_dirs(backend, match exe_dir { Some(e) => Some(e@), None => None }, sub@),
    {
        let fw = Self::framework_dir(backend);
        let rel = join_path(&fw, sub);
        let mut dirs: Vec<String> = Vec::new();
        match exe_dir {
            Some(base) => {
                dirs.push(join_path(base, &rel));
                let fr = Self::framework_rel_exec(backend);
                let alt = join_path(&fr, sub);
                dirs.push(join_path(base, &alt));
            },
            None => {},
        }
        dirs.push(rel);
        let ghost e = match exe_dir { Some(e) => Some(e@), None => None::<Seq<char>> };
        assert(dirs@.map_values(|c: String| c@) =~= candidate_dirs(backend, e, sub@));
        dirs
    }

    /// The candidate plugin directories, in order of preference.
    pub fn plugin_dirs(backend: BackendType, exe_dir: Option<&str>) -> (r: Vec<String>)
        ensures
            r@.map_values(|c: String| c@) == candidate_dirs(backend, match exe_dir { Some(e) => Some(e@), None => None }, "plugins"@),
    {
        Self::candidates(backend, exe_dir, PLUGINS_DIR_NAME)
    }

    /// The candidate config directories, in order of preference.
    pub fn config_dirs(backend: BackendType, exe_dir: Option<&str>) -> (r: Vec<String>)
        ensures
            r@.map_values(|c: String| c@) == candidate_dirs(backend, match exe_dir { Some(e) => Some(e@), None => None }, "configs"@),
    {
        Self::candidates(backend, exe_dir, CONFIGS_DIR_NAME)
    }

    /// The candidate log directories, in order of preference.
    pub fn log_dirs(backend: BackendType, exe_dir: Option<&str>) -> (r: Vec<String>)
        ensures
            r@.map_values(|c: String| c@) == candidate_dirs(backend, match exe_dir { Some(e) => Some(e@), None => None }, "logs"@),
    {
        Self::candidates(backend, exe_dir, LOGS_DIR_NAME)
    }

    /// The candidate data directories, in order of preference.
    pub fn data_dirs(backend: BackendType, exe_dir: Option<&str>) -> (r: Vec<String>)
        ensures
            r@.map_values(|c: String| c@) == data_candidate_dirs(backend, match exe_dir { Some(e) => Some(e@), None => None }),
    {
        let fw = Self::framework_dir(backend);
        let rel = join_path(&fw, DATA_DIR_NAME);
        let mut dirs: Vec<String> = Vec::new();
        match exe_dir {
            Some(base) => {
                dirs.push(join_path(base, &rel));
                dirs.push(rel);
                let fr = Self::framework_rel_exec(backend);
                let alt = join_path(&fr, DATA_DIR_NAME);
                dirs.push(join_path(base, &alt));
            },
            None => {
                dirs.push(rel);
            },
        }
        let ghost e = match exe_dir { Some(e) => Some(e@), None => None::<Seq<char>> };
        assert(dirs@.map_values(|c: String| c@) =~= data_candidate_dirs(backend, e));
        dirs
    }

    /// The first plugin directory whose flag in `exists` is set, or the
    /// default `framework_dir/plugins`.
    pub fn existing_plugin_dir(backend: BackendType, exe_dir: Option<&str>, exists: &Vec<bool>) -> (r: String)
        ensures
            r@ == first_existing(candidate_dirs(backend, match exe_dir { Some(e) => Some(e@), None => None }, "plugins"@),
                exists@, join(framework_dir_spec(backend), "plugins"@)),
    {
        let dirs = Self::plugin_dirs(backend, exe_dir);
        let fw = Self::framework_dir(backend);
        let fallback = join_path(&fw, PLUGINS_DIR_NAME);
        first_existing_exec(&dirs, exists, fallback)
    }

    /// The first config directory whose flag in `exists` is set, or the most
    /// preferred candidate.
    pub fn existing_config_dir(backend: BackendType, exe_dir: Option<&str>, exists: &Vec<bool>) -> (r: String)
        ensures
            r@ == first_existing(candidate_dirs(backend, match exe_dir { Some(e) => Some(e@), None => None }, "configs"@),
                exists@, candidate_dirs(backend, match exe_dir { Some(e) => Some(e@), None => None }, "configs"@)[0]),
    {
        let dirs = Self::config_dirs(backend, exe_dir);
        assert(dirs@.map_values(|c: String| c@).len() == dirs@.len());
        let fallback = dirs[0].clone();
        first_existing_exec(&dirs, exists, fallback)
    }

    /// The first log directory whose flag in `exists` is set, or the most
    /// preferred candidate.
    pub fn existing_log_dir(backend: BackendType, exe_dir: Option<&str>, exists: &Vec<bool>) -> (r: String)
        ensures
            r@ == first_existing(candidate_dirs(backend, match exe_dir { Some(e) => Some(e@), None => None }, "logs"@),
                exists@, candidate_dirs(backend, match exe_dir { Some(e) => Some(e@), None => None }, "logs"@)[0]),
    {
        let dirs = Self::log_dirs(backend, exe_dir);
        assert(dirs@.map_values(|c: String| c@).len() == dirs@.len());
        let fallback = dirs[0].clone();
        first_existing_exec(&dirs, exists, fallback)
    }

    /// The first data directory whose flag in `exists` is set, or the most
    /// preferred candidate.
    pub fn existing_data_dir(backend: BackendType, exe_dir: Option<&str>, exists: &Vec<bool>) -> (r: String)
        ensures
            r@ == first_existing(data_candidate_dirs(backend, match exe_dir { Some(e) => Some(e@), None => None }),
                exists@, data_candidate_dirs(backend, match exe_dir { Some(e) => Some(e@), None => None })[0]),
    {
        let dirs = Self::data_dirs(backend, exe_dir);
        assert(dirs@.map_values(|c: String| c@).len() == dirs@.len());
        let fallback = dirs[0].clone();
        first_existing_exec(&dirs, exists, fallback)
    }

    /// The localization directory: `lang` under the data directory.
    pub fn lang_dir(backend: BackendType, exe_dir: Option<&str>, exists: &Vec<bool>) -> (r: String)
        ensures
            r@ == join(first_existing(data_candidate_dirs(backend, match exe_dir { Some(e) => Some(e@), None => None }),
                exists@, data_candidate_dirs(backend, match exe_dir { Some(e) => Some(e@), None => None })[0]), "lang"@),
    {
        let d = Self::existing_data_dir(backend, exe_dir, exists);
        join_path(&d, LANG_DIR_NAME)
    }

    /// The database path: `db/goldsrc.db` under the data directory.
    pub fn db_path(backend: BackendType, exe_dir: Option<&str>, exists: &Vec<bool>) -> (r: String)
        ensures
            r@ == join(join(first_existing(data_candidate_dirs(backend, match exe_dir { Some(e) => Some(e@), None => None }),
                exists@, data_candidate_dirs(backend, match exe_dir { Some(e) => Some(e@), None => None })[0]), "db"@),
                "goldsrc.db"@),
    {
        let d = Self::existing_data_dir(backend, exe_dir, exists);
        let db = join_path(&d, DB_DIR_NAME);
        join_path(&db, DEFAULT_DB_FILE_NAME)
    }

    /// The main configuration file: under the executable's directory when it
    /// exists there (`exists_under_exe`), else relative to the working
    /// directory.
    pub fn main_config_path(backend: BackendType, exe_dir: Option<&str>, exists_under_exe: bool) -> (r: String)
        ensures
            r@ == match exe_dir {
                Some(base) => if exists_under_exe {
                    join(base@, join(framework_dir_spec(backend), "goldsrc.toml"@))
                } else {
                    join(framework_dir_spec(backend), "goldsrc.toml"@)
                },
                None => join(framework_dir_spec(backend), "goldsrc.toml"@),
            },
    {
        let fw = Self::framework_dir(backend);
        let rel = join_path(&fw, DEFAULT_CONFIG_FILE_NAME);
        match exe_dir {
            Some(base) => if exists_under_exe {
                join_path(base, &rel)
            } else {
                rel
            },
            None => rel,
        }
    }
}

} // verus!
