//! The table of loaded plugins of the WASM host: lookup by index or name,
//! pausing, and the records the management CLI shows.
//!
//! The instance of each plugin (its store and exported callbacks) is held as
//! an opaque `P`; the host runs it.

use vstd::prelude::*;
use crate::mrs_cli::{padded, push_padded};
use crate::host_cli::{ListOptions, list_page, list_header, list_page_size, list_total_pages, list_start};
use crate::text::{split_once, split_once_chars, chars_lt, chars_lt_exec, lemma_chars_lt_order, str_chars, chars_to_string, chars_eq, extend_str, eq_ignore_ascii_case, eq_ignore_ascii_case_chars, parse_usize, parse_usize_chars, push_decimal, decimal};

verus! {

/// The state a plugin instance's host functions see.
pub struct HostState;

/// A loaded plugin.
pub struct LoadedPlugin<P> {
    /// The plugin's name (its file name).
    pub name: String,
    /// The plugin file.
    pub path: String,
    /// Whether the plugin is paused.
    pub is_paused: bool,
    /// Whether it exports `on_load`.
    pub has_on_load: bool,
    /// Whether it exports `on_unload`.
    pub has_on_unload: bool,
    /// Whether it exports `on_frame`.
    pub has_on_frame: bool,
    /// The running instance.
    pub instance: P,
}

/// What the management CLI shows of a loaded plugin.
#[derive(Debug, Clone, PartialEq, Eq)]
pub struct PluginInfo {
    /// 1-based position.
    pub index: usize,
    pub name: String,
    pub path: String,
    pub is_paused: bool,
    pub has_on_load: bool,
    pub has_on_unload: bool,
    pub has_on_frame: bool,
}

/// `s` without its trailing `.wasm` suffixes (`trim_end_matches(".wasm")`).
pub open spec fn strip_wasm(s: Seq<char>) -> Seq<char>
    decreases s.len(),
{
    if s.len() >= 5 && s.subrange(s.len() - 5, s.len() as int) == ".wasm"@ {
        strip_wasm(s.subrange(0, s.len() - 5))
    } else {
        s
    }
}

/// The position of the first plugin from `k` on whose name matches `q`,
/// ignoring ASCII case and `.wasm` suffixes.
pub open spec fn name_match_from(names: Seq<Seq<char>>, q: Seq<char>, k: int) -> Option<int>
    decreases names.len() - k,
{
    if k < 0 || k >= names.len() {
        None
    } else if eq_ignore_ascii_case(strip_wasm(names[k]), strip_wasm(q)) {
        Some(k)
    } else {
        name_match_from(names, q, k + 1)
    }
}

/// The plugin a query names: a 1-based index, else a name.
pub open spec fn find_index(names: Seq<Seq<char>>, query: Seq<char>) -> Option<int> {
    match parse_usize(query) {
        Some(i) if 1 <= i <= names.len() => Some(i - 1),
        _ => name_match_from(names, query, 0),
    }
}

/// A plugin a query names is one of the loaded plugins.
pub proof fn lemma_find_index_in_range(names: Seq<Seq<char>>, query: Seq<char>)
    ensures
        find_index(names, query) matches Some(i) ==> 0 <= i < names.len(),
{
    lemma_name_match_in_range(names, query, 0);
}

proof fn lemma_name_match_in_range(names: Seq<Seq<char>>, q: Seq<char>, k: int)
    ensures
        name_match_from(names, q, k) matches Some(i) ==> k <= i < names.len(),
    decreases names.len() - k,
{
    if 0 <= k < names.len() {
        lemma_name_match_in_range(names, q, k + 1);
    }
}

fn strip_wasm_chars(s: &Vec<char>) -> (r: Vec<char>)
    ensures
        r@ == strip_wasm(s@),
{
    proof {
        reveal_strlit(".wasm");
    }
    let mut end: usize = s.len();
    assert(s@.subrange(0, end as int) =~= s@);
    while end >= 5 && s[end - 5] == '.' && s[end - 4] == 'w' && s[end - 3] == 'a' && s[end - 2] == 's' && s[end - 1] == 'm'
        invariant
            end <= s@.len(),
            strip_wasm(s@) == strip_wasm(s@.subrange(0, end as int)),
            ".wasm"@ == seq!['.', 'w', 'a', 's', 'm'],
        decreases end,
    {
        let ghost t = s@.subrange(0, end as int);
        assert(t.subrange(t.len() - 5, t.len() as int) =~= ".wasm"@);
        assert(t.subrange(0, t.len() - 5) =~= s@.subrange(0, end - 5));
        end = end - 5;
    }
    let ghost t = s@.subrange(0, end as int);
    if end >= 5 {
        assert(t.subrange(t.len() - 5, t.len() as int) != ".wasm"@) by {
            if t.subrange(t.len() - 5, t.len() as int) == ".wasm"@ {
                assert(t.subrange(t.len() - 5, t.len() as int)[0] == s@[end - 5]);
                assert(t.subrange(t.len() - 5, t.len() as int)[1] == s@[end - 4]);
                assert(t.subrange(t.len() - 5, t.len() as int)[2] == s@[end - 3]);
                assert(t.subrange(t.len() - 5, t.len() as int)[3] == s@[end - 2]);
                assert(t.subrange(t.len() - 5, t.len() as int)[4] == s@[end - 1]);
            }
        }
    }
    let mut r: Vec<char> = Vec::new();
    let mut i: usize = 0;
    while i < end
        invariant
            i <= end <= s@.len(),
            r@ == s@.subrange(0, i as int),
        decreases end - i,
    {
        r.push(s[i]);
        assert(r@ =~= s@.subrange(0, i as int + 1));
        i = i + 1;
    }
    r
}

/// The loaded plugins, in load order.
pub struct PluginTable<P> {
    pub plugins: Vec<LoadedPlugin<P>>,
}

impl<P> PluginTable<P> {
    /// The names of the loaded plugins.
    pub open spec fn names(&self) -> Seq<Seq<char>> {
        self.plugins@.map_values(|p: LoadedPlugin<P>| p.name@)
    }

    /// An empty table.
    pub fn new() -> (t: Self)
        ensures
            t.plugins@.len() == 0,
    {
        PluginTable { plugins: Vec::new() }
    }

    /// The position of the plugin a query names: a 1-based index in range,
    /// else the first plugin whose name matches, ignoring ASCII case and
    /// `.wasm` suffixes.
    pub fn find_plugin_index(&self, query: &str) -> (r: Option<usize>)
        ensures
            match r {
                Some(i) => i < self.plugins@.len() && find_index(self.names(), query@) == Some(i as int),
                None => find_index(self.names(), query@) is None,
            },
    {
        let q = str_chars(query);
        match parse_usize_chars(&q) {
            Some(i) => {
                if 1 <= i && i <= self.plugins.len() {
                    return Some(i - 1);
                }
            },
            None => {},
        }
        let qs = strip_wasm_chars(&q);
        let mut k: usize = 0;
        while k < self.plugins.len()
            invariant
                k <= self.plugins@.len(),
                qs@ == strip_wasm(query@),
                find_index(self.names(), query@) == name_match_from(self.names(), query@, k as int),
            decreases self.plugins@.len() - k,
        {
            let n = str_chars(self.plugins[k].name.as_str());
            let ns = strip_wasm_chars(&n);
            assert(self.names()[k as int] == self.plugins@[k as int].name@);
            if eq_ignore_ascii_case_chars(&ns, &qs) {
                return Some(k);
            }
            k = k + 1;
        }
        None
    }

    /// Pauses or resumes the plugin a query names.
    pub fn pause_plugin(&mut self, query: &str, pause: bool) -> (r: Result<String, String>)
        ensures
            final(self).plugins@.len() == old(self).plugins@.len(),
            match find_index(old(self).names(), query@) {
                Some(i) => r matches Ok(m) && m@ == (if pause { "[GoldSrc.rs WASM Host] Paused plugin '"@ } else {
                    "[GoldSrc.rs WASM Host] Unpaused plugin '"@ }) + old(self).plugins@[i].name@ + "'\n"@
                    && final(self).plugins@ == old(self).plugins@.update(i, LoadedPlugin { is_paused: pause, ..old(self).plugins@[i] }),
                None => r matches Err(m) && m@ == "[GoldSrc.rs WASM Host] Plugin '"@ + query@ + "' not found.\n"@
                    && final(self).plugins@ == old(self).plugins@,
            },
    {
        proof {
            lemma_find_index_in_range(self.names(), query@);
        }
        match self.find_plugin_index(query) {
            Some(idx) => {
                let ghost before = self.plugins@;
                let mut p = self.plugins.remove(idx);
                p.is_paused = pause;
                let mut m: Vec<char> = Vec::new();
                if pause {
                    extend_str(&mut m, "[GoldSrc.rs WASM Host] Paused plugin '");
                } else {
                    extend_str(&mut m, "[GoldSrc.rs WASM Host] Unpaused plugin '");
                }
                let ghost head = m@;
                extend_str(&mut m, p.name.as_str());
                extend_str(&mut m, "'\n");
                assert(m@ =~= head + before[idx as int].name@ + "'\n"@);
                self.plugins.insert(idx, p);
                assert(self.plugins@ =~= before.update(idx as int, LoadedPlugin { is_paused: pause, ..before[idx as int] }));
                assert(find_index(old(self).names(), query@) == Some(idx as int));
                let out = chars_to_string(&m);
                assert(out@ == (if pause { "[GoldSrc.rs WASM Host] Paused plugin '"@ } else {
                    "[GoldSrc.rs WASM Host] Unpaused plugin '"@ }) + old(self).plugins@[idx as int].name@ + "'\n"@);
                Ok(out)
            },
            None => {
                let mut m: Vec<char> = Vec::new();
                extend_str(&mut m, "[GoldSrc.rs WASM Host] Plugin '");
                extend_str(&mut m, query);
                extend_str(&mut m, "' not found.\n");
                Err(chars_to_string(&m))
            },
        }
    }

    /// Pauses or resumes every plugin; returns the report line.
    pub fn pause_all_plugins(&mut self, pause: bool) -> (r: String)
        ensures
            final(self).plugins@.len() == old(self).plugins@.len(),
            forall|j: int| 0 <= j < final(self).plugins@.len() ==> #[trigger] final(self).plugins@[j] == (LoadedPlugin {
                is_paused: pause,
                ..old(self).plugins@[j]
            }),
            r@ == (if pause { "[GoldSrc.rs WASM Host] Paused all plugins ("@ } else {
                "[GoldSrc.rs WASM Host] Unpaused all plugins ("@ }) + crate::text::decimal(old(self).plugins@.len() as nat) + ")\n"@,
    {
        let count = self.plugins.len();
        let mut k: usize = 0;
        while k < self.plugins.len()
            invariant
                k <= self.plugins@.len(),
                self.plugins@.len() == old(self).plugins@.len(),
                forall|j: int| 0 <= j < k ==> #[trigger] self.plugins@[j] == (LoadedPlugin {
                    is_paused: pause,
                    ..old(self).plugins@[j]
                }),
                forall|j: int| k <= j < self.plugins@.len() ==> #[trigger] self.plugins@[j] == old(self).plugins@[j],
            decreases self.plugins@.len() - k,
        {
            let mut p = self.plugins.remove(k);
            p.is_paused = pause;
            self.plugins.insert(k, p);
            k = k + 1;
        }
        let mut m: Vec<char> = Vec::new();
        if pause {
            extend_str(&mut m, "[GoldSrc.rs WASM Host] Paused all plugins (");
        } else {
            extend_str(&mut m, "[GoldSrc.rs WASM Host] Unpaused all plugins (");
        }
        push_decimal(&mut m, count);
        extend_str(&mut m, ")\n");
        chars_to_string(&m)
    }

    /// The records of the loaded plugins, numbered from 1.
    pub fn get_plugins_info(&self) -> (r: Vec<PluginInfo>)
        ensures
            r@.len() == self.plugins@.len(),
            forall|j: int| 0 <= j < r@.len() ==> {
                &&& (#[trigger] r@[j]).index == j + 1
                &&& r@[j].name@ == self.plugins@[j].name@
                &&& r@[j].path@ == self.plugins@[j].path@
                &&& r@[j].is_paused == self.plugins@[j].is_paused
                &&& r@[j].has_on_load == self.plugins@[j].has_on_load
                &&& r@[j].has_on_unload == self.plugins@[j].has_on_unload
                &&& r@[j].has_on_frame == self.plugins@[j].has_on_frame
            },
    {
        let mut out: Vec<PluginInfo> = Vec::new();
        let mut k: usize = 0;
        while k < self.plugins.len()
            invariant
                k <= self.plugins@.len(),
                out@.len() == k,
                forall|j: int| 0 <= j < k ==> {
                    &&& (#[trigger] out@[j]).index == j + 1
                    &&& out@[j].name@ == self.plugins@[j].name@
                    &&& out@[j].path@ == self.plugins@[j].path@
                    &&& out@[j].is_paused == self.plugins@[j].is_paused
                    &&& out@[j].has_on_load == self.plugins@[j].has_on_load
                    &&& out@[j].has_on_unload == self.plugins@[j].has_on_unload
                    &&& out@[j].has_on_frame == self.plugins@[j].has_on_frame
                },
            decreases self.plugins@.len() - k,
        {
            let p = &self.plugins[k];
            out.push(PluginInfo {
                index: k + 1,
                name: p.name.clone(),
                path: p.path.clone(),
                is_paused: p.is_paused,
                has_on_load: p.has_on_load,
                has_on_unload: p.has_on_unload,
                has_on_frame: p.has_on_frame,
            });
            k = k + 1;
        }
        out
    }

    /// Takes out the plugin a query names, for the host to run its
    /// `on_unload`; answers with the report line.
    pub fn unload_plugin_by_query(&mut self, query: &str) -> (r: Result<(LoadedPlugin<P>, String), String>)
        ensures
            match find_index(old(self).names(), query@) {
                Some(i) => r matches Ok((p, m)) && p == old(self).plugins@[i]
                    && m@ == "[GoldSrc.rs WASM Host] Unloaded plugin '"@ + old(self).plugins@[i].name@ + "'\n"@
                    && final(self).plugins@ == old(self).plugins@.remove(i),
                None => r matches Err(m) && m@ == "[GoldSrc.rs WASM Host] Plugin '"@ + query@ + "' not found.\n"@
                    && final(self).plugins@ == old(self).plugins@,
            },
    {
        proof {
            lemma_find_index_in_range(self.names(), query@);
        }
        match self.find_plugin_index(query) {
            Some(idx) => {
                let _n = self.plugins.len();
                assert(find_index(old(self).names(), query@) == Some(idx as int));
                let p = self.plugins.remove(idx);
                let mut m: Vec<char> = Vec::new();
                extend_str(&mut m, "[GoldSrc.rs WASM Host] Unloaded plugin '");
                let ghost head = m@;
                extend_str(&mut m, p.name.as_str());
                extend_str(&mut m, "'\n");
                assert(m@ =~= head + old(self).plugins@[idx as int].name@ + "'\n"@);
                let out = chars_to_string(&m);
                Ok((p, out))
            },
            None => {
                let mut m: Vec<char> = Vec::new();
                extend_str(&mut m, "[GoldSrc.rs WASM Host] Plugin '");
                extend_str(&mut m, query);
                extend_str(&mut m, "' not found.\n");
                Err(chars_to_string(&m))
            },
        }
    }

    /// Takes out every plugin, in load order, for the host to run their
    /// `on_unload`; answers with the report line.
    pub fn unload_all_plugins(&mut self) -> (r: (Vec<LoadedPlugin<P>>, String))
        ensures
            final(self).plugins@.len() == 0,
            r.0@ == old(self).plugins@,
            r.1@ == "[GoldSrc.rs WASM Host] Unloaded all plugins ("@ + crate::text::decimal(old(self).plugins@.len() as nat) + ")\n"@,
    {
        let count = self.plugins.len();
        let mut taken: Vec<LoadedPlugin<P>> = Vec::new();
        std::mem::swap(&mut taken, &mut self.plugins);
        let mut m: Vec<char> = Vec::new();
        extend_str(&mut m, "[GoldSrc.rs WASM Host] Unloaded all plugins (");
        push_decimal(&mut m, count);
        extend_str(&mut m, ")\n");
        (taken, chars_to_string(&m))
    }

    /// The position of the plugin loaded from `path`, if any.
    pub fn position_of_path(&self, path: &str) -> (r: Option<usize>)
        ensures
            match r {
                Some(i) => i < self.plugins@.len() && self.plugins@[i as int].path@ == path@
                    && forall|j: int| 0 <= j < i ==> #[trigger] self.plugins@[j].path@ != path@,
                None => forall|j: int| 0 <= j < self.plugins@.len() ==> #[trigger] self.plugins@[j].path@ != path@,
            },
    {
        let target = str_chars(path);
        let mut k: usize = 0;
        while k < self.plugins.len()
            invariant
                k <= self.plugins@.len(),
                target@ == path@,
                forall|j: int| 0 <= j < k ==> #[trigger] self.plugins@[j].path@ != path@,
            decreases self.plugins@.len() - k,
        {
            let c = str_chars(self.plugins[k].path.as_str());
            if chars_eq(&c, &target) {
                return Some(k);
            }
            k = k + 1;
        }
        None
    }

    /// The number of loaded plugins and of active watchers.
    pub fn get_status_info(&self, watchers: usize) -> (r: (usize, usize))
        ensures
            r == (self.plugins@.len() as usize, watchers),
    {
        (self.plugins.len(), watchers)
    }
}

/// The records of paused plugins among `s`, in order.
pub open spec fn paused_filter(s: Seq<PluginInfo>) -> Seq<PluginInfo> {
    s.filter(|p: PluginInfo| p.is_paused)
}

/// The records of the paused plugins only, in order (`grs list --paused`).
pub fn paused_only(infos: Vec<PluginInfo>) -> (r: Vec<PluginInfo>)
    ensures
        r@ == paused_filter(infos@),
{
    let ghost all = infos@;
    let mut r: Vec<PluginInfo> = Vec::new();
    let mut rest = infos;
    let mut i: usize = 0;
    let n = rest.len();
    proof {
        reveal(Seq::filter);
        assert(all.take(0) =~= Seq::<PluginInfo>::empty());
    }
    while rest.len() > 0
        invariant
            i + rest@.len() == n,
            n == all.len(),
            rest@ == all.skip(i as int),
            r@ == paused_filter(all.take(i as int)),
        decreases rest@.len(),
    {
        let p = rest.remove(0);
        let ghost before = r@;
        proof {
            assert(all.take(i as int + 1).drop_last() =~= all.take(i as int));
            assert(all.take(i as int + 1).last() == p);
            assert(rest@ =~= all.skip(i as int + 1));
        }
        if p.is_paused {
            r.push(p);
        }
        proof {
            reveal(Seq::filter);
            let t = all.take(i as int + 1);
            assert(paused_filter(t) == (if t.last().is_paused {
                paused_filter(t.drop_last()).push(t.last())
            } else {
                paused_filter(t.drop_last())
            }));
        }
        i = i + 1;
    }
    proof {
        assert(all.take(i as int) =~= all);
    }
    r
}

/// The report line of a reload of every plugin.
pub fn reload_all_report(reloaded: usize, count: usize) -> (r: String)
    ensures
        r@ == "[GoldSrc.rs WASM Host] Reloaded "@ + crate::text::decimal(reloaded as nat) + "/"@
            + crate::text::decimal(count as nat) + " plugins\n"@,
{
    let mut m: Vec<char> = Vec::new();
    extend_str(&mut m, "[GoldSrc.rs WASM Host] Reloaded ");
    push_decimal(&mut m, reloaded);
    extend_str(&mut m, "/");
    push_decimal(&mut m, count);
    extend_str(&mut m, " plugins\n");
    chars_to_string(&m)
}

/// The file a plugin name loads: the name itself when it ends in `.wasm`,
/// else the name with `.wasm` appended.
pub fn plugin_file_name(name: &str) -> (r: String)
    ensures
        r@ == (if name@.len() >= 5 && name@.subrange(name@.len() - 5, name@.len() as int) == ".wasm"@ {
            name@
        } else {
            name@ + ".wasm"@
        }),
{
    let n = str_chars(name);
    proof {
        reveal_strlit(".wasm");
    }
    let len = n.len();
    let ends = len >= 5 && n[len - 5] == '.' && n[len - 4] == 'w' && n[len - 3] == 'a' && n[len - 2] == 's' && n[len - 1] == 'm';
    assert(ends == (name@.len() >= 5 && name@.subrange(name@.len() - 5, name@.len() as int) == ".wasm"@)) by {
        if name@.len() >= 5 && name@.subrange(name@.len() - 5, name@.len() as int) == ".wasm"@ {
            let t = name@.subrange(name@.len() - 5, name@.len() as int);
            assert(t[0] == n@[len - 5]);
            assert(t[1] == n@[len - 4]);
            assert(t[2] == n@[len - 3]);
            assert(t[3] == n@[len - 2]);
            assert(t[4] == n@[len - 1]);
        }
        if ends {
            assert(name@.subrange(name@.len() - 5, name@.len() as int) =~= ".wasm"@);
        }
    }
    if ends {
        name.to_string()
    } else {
        let mut v = n;
        extend_str(&mut v, ".wasm");
        chars_to_string(&v)
    }
}

/// The bundle of a plugin: its name up to the first `/`, if it has one.
pub open spec fn bundle_of(name: Seq<char>) -> Option<Seq<char>> {
    match split_once(name, '/') {
        Some((b, _)) => Some(b),
        None => None,
    }
}

/// Positions, in order, of the first `n` plugins whose bundle is `b`.
pub open spec fn positions_in(plugins: Seq<PluginInfo>, n: int, b: Option<Seq<char>>) -> Seq<usize>
    decreases n,
{
    if n <= 0 {
        Seq::empty()
    } else {
        let r = positions_in(plugins, n - 1, b);
        if bundle_of(plugins[n - 1].name@) == b {
            r.push((n - 1) as usize)
        } else {
            r
        }
    }
}

/// The first `n` plugins grouped for the tree view: the plugins outside any
/// bundle, then the bundles by name, each with its plugins in order.
pub open spec fn is_grouping(plugins: Seq<PluginInfo>, n: int, roots: Seq<usize>, bundles: Seq<(String, Vec<usize>)>) -> bool {
    &&& roots == positions_in(plugins, n, None)
    &&& forall|g: int, h: int| 0 <= g < h < bundles.len() ==> chars_lt(#[trigger] bundles[g].0@, #[trigger] bundles[h].0@)
    &&& forall|g: int| 0 <= g < bundles.len() ==> (#[trigger] bundles[g]).1@ == positions_in(plugins, n, Some(bundles[g].0@))
        && bundles[g].1@.len() > 0
    &&& forall|j: int| 0 <= j < n && (#[trigger] bundle_of(plugins[j].name@)) is Some ==> exists|g: int|
        0 <= g < bundles.len() && Some(#[trigger] bundles[g].0@) == bundle_of(plugins[j].name@)
}

/// The plugins of `grs list` grouped into bundles.
pub struct BundleLayout {
    /// Positions of the plugins outside any bundle, in order.
    pub roots: Vec<usize>,
    /// Each bundle's name and the positions of its plugins, in order; the
    /// bundles by name.
    pub bundles: Vec<(String, Vec<usize>)>,
}

proof fn lemma_positions_nonempty(plugins: Seq<PluginInfo>, n: int, b: Option<Seq<char>>)
    requires
        positions_in(plugins, n, b).len() > 0,
    ensures
        exists|j: int| 0 <= j < n && #[trigger] bundle_of(plugins[j].name@) == b,
    decreases n,
{
    if n > 0 && bundle_of(plugins[n - 1].name@) != b {
        lemma_positions_nonempty(plugins, n - 1, b);
    }
}

/// Whether some plugin belongs to a bundle (the tree view of `grs list`).
pub fn has_bundles(plugins: &Vec<PluginInfo>) -> (r: bool)
    ensures
        r == exists|j: int| 0 <= j < plugins.len() && (#[trigger] bundle_of(plugins@[j].name@)) is Some,
{
    let mut i: usize = 0;
    while i < plugins.len()
        invariant
            i <= plugins.len(),
            forall|j: int| 0 <= j < i ==> (#[trigger] bundle_of(plugins@[j].name@)) is None,
        decreases plugins.len() - i,
    {
        let name = str_chars(plugins[i].name.as_str());
        if split_once_chars(&name, '/').is_some() {
            assert(bundle_of(plugins@[i as int].name@) is Some);
            return true;
        }
        i = i + 1;
    }
    false
}

proof fn lemma_group_extended(
    ps: Seq<PluginInfo>,
    n: int,
    roots: Seq<usize>,
    old_b: Seq<(String, Vec<usize>)>,
    new_b: Seq<(String, Vec<usize>)>,
    j: int,
    bv: Seq<char>,
)
    requires
        0 <= n < ps.len(),
        n < usize::MAX,
        is_grouping(ps, n, roots, old_b),
        bundle_of(ps[n].name@) == Some(bv),
        0 <= j < old_b.len(),
        old_b[j].0@ == bv,
        new_b.len() == old_b.len(),
        forall|k: int| 0 <= k < old_b.len() && k != j ==> new_b[k] == old_b[k],
        new_b[j].0 == old_b[j].0,
        new_b[j].1@ == old_b[j].1@.push(n as usize),
    ensures
        forall|g: int| 0 <= g < new_b.len() ==> (#[trigger] new_b[g]).1@ == positions_in(ps, n + 1, Some(new_b[g].0@))
            && new_b[g].1@.len() > 0,
        forall|g: int, h: int| 0 <= g < h < new_b.len() ==> chars_lt(#[trigger] new_b[g].0@, #[trigger] new_b[h].0@),
        forall|k: int| 0 <= k < n + 1 && (#[trigger] bundle_of(ps[k].name@)) is Some ==> exists|g: int|
            0 <= g < new_b.len() && Some(#[trigger] new_b[g].0@) == bundle_of(ps[k].name@),
{
    assert forall|g: int| 0 <= g < new_b.len() implies (#[trigger] new_b[g]).1@ == positions_in(ps, n + 1, Some(new_b[g].0@))
        && new_b[g].1@.len() > 0 by {
        if g != j {
            assert(old_b[g].1@ == positions_in(ps, n, Some(old_b[g].0@)));
            if g < j {
                lemma_chars_lt_order(old_b[g].0@, old_b[j].0@, old_b[j].0@);
            } else {
                lemma_chars_lt_order(old_b[j].0@, old_b[g].0@, old_b[g].0@);
            }
        } else {
            assert(old_b[j].1@ == positions_in(ps, n, Some(old_b[j].0@)));
        }
    }
    assert forall|g: int, h: int| 0 <= g < h < new_b.len() implies chars_lt(#[trigger] new_b[g].0@, #[trigger] new_b[h].0@) by {
        assert(chars_lt(old_b[g].0@, old_b[h].0@));
    }
    assert forall|k: int| 0 <= k < n + 1 && (#[trigger] bundle_of(ps[k].name@)) is Some implies exists|g: int|
        0 <= g < new_b.len() && Some(#[trigger] new_b[g].0@) == bundle_of(ps[k].name@) by {
        if k == n {
            assert(Some(new_b[j].0@) == bundle_of(ps[k].name@));
        } else {
            let g = choose|g: int| 0 <= g < old_b.len() && Some(#[trigger] old_b[g].0@) == bundle_of(ps[k].name@);
            assert(Some(new_b[g].0@) == bundle_of(ps[k].name@));
        }
    }
}

proof fn lemma_group_added(
    ps: Seq<PluginInfo>,
    n: int,
    roots: Seq<usize>,
    old_b: Seq<(String, Vec<usize>)>,
    new_b: Seq<(String, Vec<usize>)>,
    j: int,
    bv: Seq<char>,
)
    requires
        0 <= n < ps.len(),
        n < usize::MAX,
        is_grouping(ps, n, roots, old_b),
        bundle_of(ps[n].name@) == Some(bv),
        0 <= j <= old_b.len(),
        forall|k: int| 0 <= k < j ==> chars_lt(#[trigger] old_b[k].0@, bv),
        j < old_b.len() ==> chars_lt(bv, old_b[j].0@),
        new_b.len() == old_b.len() + 1,
        forall|k: int| 0 <= k < j ==> new_b[k] == old_b[k],
        forall|k: int| j < k < new_b.len() ==> new_b[k] == old_b[k - 1],
        new_b[j].0@ == bv,
        new_b[j].1@ == seq![n as usize],
    ensures
        forall|g: int| 0 <= g < new_b.len() ==> (#[trigger] new_b[g]).1@ == positions_in(ps, n + 1, Some(new_b[g].0@))
            && new_b[g].1@.len() > 0,
        forall|g: int, h: int| 0 <= g < h < new_b.len() ==> chars_lt(#[trigger] new_b[g].0@, #[trigger] new_b[h].0@),
        forall|k: int| 0 <= k < n + 1 && (#[trigger] bundle_of(ps[k].name@)) is Some ==> exists|g: int|
            0 <= g < new_b.len() && Some(#[trigger] new_b[g].0@) == bundle_of(ps[k].name@),
{
    // No bundle of the first `n` plugins is named `bv`.
    assert forall|g: int| 0 <= g < old_b.len() implies (#[trigger] old_b[g]).0@ != bv by {
        if g < j {
            lemma_chars_lt_order(old_b[g].0@, bv, bv);
        } else {
            if g > j {
                assert(chars_lt(old_b[j].0@, old_b[g].0@));
                lemma_chars_lt_order(bv, old_b[j].0@, old_b[g].0@);
            }
            lemma_chars_lt_order(bv, old_b[g].0@, bv);
        }
    }
    if positions_in(ps, n, Some(bv)).len() > 0 {
        lemma_positions_nonempty(ps, n, Some(bv));
        let k = choose|k: int| 0 <= k < n && #[trigger] bundle_of(ps[k].name@) == Some(bv);
        let g = choose|g: int| 0 <= g < old_b.len() && Some(#[trigger] old_b[g].0@) == bundle_of(ps[k].name@);
        assert(old_b[g].0@ == bv);
    }
    assert(positions_in(ps, n, Some(bv)) =~= Seq::<usize>::empty());
    assert forall|g: int| 0 <= g < new_b.len() implies (#[trigger] new_b[g]).1@ == positions_in(ps, n + 1, Some(new_b[g].0@))
        && new_b[g].1@.len() > 0 by {
        if g < j {
            assert(old_b[g].1@ == positions_in(ps, n, Some(old_b[g].0@)));
            assert(old_b[g].0@ != bv);
        } else if g > j {
            assert(old_b[g - 1].1@ == positions_in(ps, n, Some(old_b[g - 1].0@)));
            assert(old_b[g - 1].0@ != bv);
        } else {
            assert(positions_in(ps, n + 1, Some(bv)) =~= seq![n as usize]);
        }
    }
    assert forall|g: int, h: int| 0 <= g < h < new_b.len() implies chars_lt(#[trigger] new_b[g].0@, #[trigger] new_b[h].0@) by {
        if h < j {
            assert(chars_lt(old_b[g].0@, old_b[h].0@));
        } else if h == j {
        } else if g > j {
            assert(chars_lt(old_b[g - 1].0@, old_b[h - 1].0@));
        } else if g == j {
            if h - 1 > j {
                assert(chars_lt(old_b[j].0@, old_b[h - 1].0@));
                lemma_chars_lt_order(bv, old_b[j].0@, old_b[h - 1].0@);
            }
        } else {
            if h - 1 > j {
                assert(chars_lt(old_b[j].0@, old_b[h - 1].0@));
                lemma_chars_lt_order(bv, old_b[j].0@, old_b[h - 1].0@);
            }
            lemma_chars_lt_order(old_b[g].0@, bv, old_b[h - 1].0@);
        }
    }
    assert forall|k: int| 0 <= k < n + 1 && (#[trigger] bundle_of(ps[k].name@)) is Some implies exists|g: int|
        0 <= g < new_b.len() && Some(#[trigger] new_b[g].0@) == bundle_of(ps[k].name@) by {
        if k == n {
            assert(Some(new_b[j].0@) == bundle_of(ps[k].name@));
        } else {
            let g = choose|g: int| 0 <= g < old_b.len() && Some(#[trigger] old_b[g].0@) == bundle_of(ps[k].name@);
            if g < j {
                assert(Some(new_b[g].0@) == bundle_of(ps[k].name@));
            } else {
                assert(Some(new_b[g + 1].0@) == bundle_of(ps[k].name@));
            }
        }
    }
}

/// Groups the plugins for the tree view of `grs list`: those whose name has
/// no `/` stay at the root; the others go to the bundle named by the part
/// before their first `/`, the bundles ordered by name.
pub fn group_by_bundle(plugins: &Vec<PluginInfo>) -> (r: BundleLayout)
    ensures
        is_grouping(plugins@, plugins.len() as int, r.roots@, r.bundles@),
{
    let mut roots: Vec<usize> = Vec::new();
    let mut bundles: Vec<(String, Vec<usize>)> = Vec::new();
    let mut i: usize = 0;
    while i < plugins.len()
        invariant
            i <= plugins.len(),
            is_grouping(plugins@, i as int, roots@, bundles@),
        decreases plugins.len() - i,
    {
        let ghost ps = plugins@;
        let ghost n = i as int;
        let name = str_chars(plugins[i].name.as_str());
        let split = split_once_chars(&name, '/');
        match split {
            None => {
                roots.push(i);
                proof {
                    assert forall|g: int| 0 <= g < bundles@.len() implies (#[trigger] bundles@[g]).1@ == positions_in(
                        ps, n + 1, Some(bundles@[g].0@)) by {}
                }
            },
            Some((b, _)) => {
                let ghost bv = b@;
                assert(bundle_of(ps[n].name@) == Some(bv));
                let bs = chars_to_string(&b);
                let mut j: usize = 0;
                let mut found = false;
                let mut before = false;
                while j < bundles.len()
                    invariant_except_break
                        !found,
                        !before,
                    invariant
                        j <= bundles.len(),
                        forall|k: int| 0 <= k < j ==> chars_lt(#[trigger] bundles@[k].0@, bv),
                        bv == b@,
                    ensures
                        found || before || j == bundles.len(),
                        found ==> j < bundles.len() && bundles@[j as int].0@ == bv,
                        before ==> j < bundles.len() && chars_lt(bv, bundles@[j as int].0@),
                        !(found && before),
                        forall|k: int| 0 <= k < j ==> chars_lt(#[trigger] bundles@[k].0@, bv),
                    decreases bundles.len() - j,
                {
                    let nc = str_chars(bundles[j].0.as_str());
                    if chars_eq(&nc, &b) {
                        found = true;
                        break;
                    }
                    if chars_lt_exec(&b, &nc) {
                        before = true;
                        break;
                    }
                    proof {
                        lemma_chars_lt_order(bv, bundles@[j as int].0@, bv);
                    }
                    j = j + 1;
                }
                let ghost old_b = bundles@;
                if found {
                    let (gname, mut members) = bundles.remove(j);
                    members.push(i);
                    bundles.insert(j, (gname, members));
                    proof {
                        lemma_group_extended(ps, n, roots@, old_b, bundles@, j as int, bv);
                    }
                } else {
                    let mut members: Vec<usize> = Vec::new();
                    members.push(i);
                    bundles.insert(j, (bs, members));
                    proof {
                        lemma_group_added(ps, n, roots@, old_b, bundles@, j as int, bv);
                    }
                }
                proof {
                    assert(roots@ == positions_in(ps, n + 1, None));
                }
            },
        }
        i = i + 1;
    }
    BundleLayout { roots, bundles }
}

/// Every position among the first `n` plugins is below `n`.
proof fn lemma_positions_bound(plugins: Seq<PluginInfo>, n: int, b: Option<Seq<char>>, k: int)
    requires
        0 <= k < positions_in(plugins, n, b).len(),
        n <= plugins.len() <= usize::MAX,
    ensures
        positions_in(plugins, n, b)[k] < n,
    decreases n,
{
    if n > 0 {
        let r = positions_in(plugins, n - 1, b);
        if k < r.len() {
            lemma_positions_bound(plugins, n - 1, b, k);
        }
    }
}

proof fn lemma_positions_in_contains(plugins: Seq<PluginInfo>, n: int, b: Option<Seq<char>>, x: usize)
    requires
        0 <= n <= plugins.len(),
        n <= usize::MAX + 1,
    ensures
        positions_in(plugins, n, b).contains(x) <==> (x < n && bundle_of(plugins[x as int].name@) == b),
    decreases n,
{
    if n > 0 {
        lemma_positions_in_contains(plugins, n - 1, b, x);
        let r = positions_in(plugins, n - 1, b);
        if bundle_of(plugins[n - 1].name@) == b {
            let rp = r.push((n - 1) as usize);
            if rp.contains(x) {
                let k = choose|k: int| 0 <= k < rp.len() && #[trigger] rp[k] == x;
                if k < r.len() {
                    assert(r[k] == x);
                }
            }
            if x == n - 1 {
                assert(r.push((n - 1) as usize)[r.len() as int] == x);
            } else if r.contains(x) {
                let k = choose|k: int| 0 <= k < r.len() && #[trigger] r[k] == x;
                assert(r.push((n - 1) as usize)[k] == x);
            }
        }
    }
}

/// The tree view of `grs list` shows every plugin exactly once: at the root
/// when its name has no `/`, else in the one bundle its name starts with.
pub proof fn lemma_grouping_shows_each_plugin_once(
    plugins: Seq<PluginInfo>,
    roots: Seq<usize>,
    bundles: Seq<(String, Vec<usize>)>,
    x: usize,
)
    requires
        plugins.len() <= usize::MAX,
        is_grouping(plugins, plugins.len() as int, roots, bundles),
        x < plugins.len(),
    ensures
        bundle_of(plugins[x as int].name@) is None ==> roots.contains(x) && forall|g: int|
            0 <= g < bundles.len() ==> !(#[trigger] bundles[g]).1@.contains(x),
        bundle_of(plugins[x as int].name@) is Some ==> !roots.contains(x) && exists|g: int|
            0 <= g < bundles.len() && (#[trigger] bundles[g]).1@.contains(x) && bundle_of(plugins[x as int].name@)
                == Some(bundles[g].0@) && forall|h: int| 0 <= h < bundles.len() && h != g ==> !(
            #[trigger] bundles[h]).1@.contains(x),
{
    let n = plugins.len() as int;
    let bx = bundle_of(plugins[x as int].name@);
    lemma_positions_in_contains(plugins, n, None, x);
    assert forall|g: int| 0 <= g < bundles.len() implies (#[trigger] bundles[g]).1@.contains(x) == (bx == Some(
        bundles[g].0@)) by {
        lemma_positions_in_contains(plugins, n, Some(bundles[g].0@), x);
    }
    if bx is Some {
        let g = choose|g: int| 0 <= g < bundles.len() && Some(#[trigger] bundles[g].0@) == bundle_of(plugins[x as int].name@);
        assert(bundles[g].1@.contains(x));
        assert forall|h: int| 0 <= h < bundles.len() && h != g implies !(#[trigger] bundles[h]).1@.contains(x) by {
            if h < g {
                assert(chars_lt(bundles[h].0@, bundles[g].0@));
            } else {
                assert(chars_lt(bundles[g].0@, bundles[h].0@));
            }
            lemma_chars_lt_order(bundles[h].0@, bundles[g].0@, bundles[g].0@);
        }
    }
}

/// The name shown for a plugin inside its bundle: its name after the first
/// `/`; the whole name when it has none.
pub fn bundle_member_name(name: &str) -> (r: String)
    ensures
        r@ == match split_once(name@, '/') {
            Some((_, rest)) => rest,
            None => name@,
        },
{
    let cs = str_chars(name);
    match split_once_chars(&cs, '/') {
        Some((_, rest)) => chars_to_string(&rest),
        None => chars_to_string(&cs),
    }
}

/// The header of the tree view of `grs list`.
pub fn tree_header(total: usize) -> (r: String)
    ensures
        r@ == "[GoldSrc.rs] WASM plugins ("@ + decimal(total as nat) + " loaded):\n"@,
{
    let mut m: Vec<char> = Vec::new();
    extend_str(&mut m, "[GoldSrc.rs] WASM plugins (");
    push_decimal(&mut m, total);
    extend_str(&mut m, " loaded):\n");
    chars_to_string(&m)
}

/// The line that opens a bundle in the tree view of `grs list`.
pub fn bundle_header(bundle: &str, count: usize) -> (r: String)
    ensures
        r@ == "  ["@ + bundle@ + "/] ("@ + decimal(count as nat) + " plugins)\n"@,
{
    let mut m: Vec<char> = Vec::new();
    extend_str(&mut m, "  [");
    extend_str(&mut m, bundle);
    extend_str(&mut m, "/] (");
    push_decimal(&mut m, count);
    extend_str(&mut m, " plugins)\n");
    chars_to_string(&m)
}

/// The branch drawn before a plugin of a bundle: the last one closes the
/// branch.
pub fn tree_branch(is_last: bool) -> (r: &'static str)
    ensures
        r@ == (if is_last { "└── "@ } else { "├── "@ }),
{
    if is_last { "└── " } else { "├── " }
}

/// The status a row of `grs list` shows for a plugin.
pub open spec fn list_status(p: PluginInfo) -> Seq<char> {
    if p.is_paused { "Paused"@ } else { "Active"@ }
}

/// A row of `grs list`: index, name padded to `width` characters and the
/// status padded to 7.
pub open spec fn list_row_text(p: PluginInfo, width: nat) -> Seq<char> {
    "  [#"@ + decimal(p.index as nat) + "] "@ + padded(p.name@, width) + " | "@ + padded(list_status(p), 7) + "\n"@
}

/// A plugin's row inside its bundle in the tree view of `grs list`: the
/// branch, index, the name inside the bundle padded to 14 characters and the
/// status padded to 7.
pub open spec fn member_row_text(p: PluginInfo, is_last: bool) -> Seq<char> {
    "    "@ + (if is_last { "└── "@ } else { "├── "@ }) + "[#"@ + decimal(p.index as nat) + "] "@ + padded(
        match split_once(p.name@, '/') {
            Some((_, rest)) => rest,
            None => p.name@,
        },
        14,
    ) + " | "@ + padded(list_status(p), 7) + "\n"@
}

fn push_status(v: &mut Vec<char>, p: &PluginInfo)
    ensures
        final(v)@ == old(v)@ + padded(list_status(*p), 7),
{
    let st = if p.is_paused { str_chars("Paused") } else { str_chars("Active") };
    push_padded(v, &st, 7);
}

/// Builds a row of `grs list` with the name padded to `width` characters
/// (24 in the paged list, 16 for a plugin outside any bundle in the tree).
pub fn list_row(p: &PluginInfo, width: usize) -> (r: String)
    ensures
        r@ == list_row_text(*p, width as nat),
{
    let mut v: Vec<char> = Vec::new();
    extend_str(&mut v, "  [#");
    push_decimal(&mut v, p.index);
    extend_str(&mut v, "] ");
    let name = str_chars(p.name.as_str());
    push_padded(&mut v, &name, width);
    extend_str(&mut v, " | ");
    push_status(&mut v, p);
    extend_str(&mut v, "\n");
    assert(v@ =~= list_row_text(*p, width as nat));
    chars_to_string(&v)
}

/// Builds the row of a plugin inside its bundle in the tree view of
/// `grs list`; `is_last` tells whether it closes the bundle.
pub fn member_row(p: &PluginInfo, is_last: bool) -> (r: String)
    ensures
        r@ == member_row_text(*p, is_last),
{
    let mut v: Vec<char> = Vec::new();
    extend_str(&mut v, "    ");
    extend_str(&mut v, tree_branch(is_last));
    extend_str(&mut v, "[#");
    push_decimal(&mut v, p.index);
    extend_str(&mut v, "] ");
    let cs = str_chars(p.name.as_str());
    let member = match split_once_chars(&cs, '/') {
        Some((_, rest)) => rest,
        None => cs,
    };
    push_padded(&mut v, &member, 14);
    extend_str(&mut v, " | ");
    push_status(&mut v, p);
    extend_str(&mut v, "\n");
    assert(v@ =~= member_row_text(*p, is_last));
    chars_to_string(&v)
}

/// The plugins `grs list` shows: only the paused ones when it asks so.
pub open spec fn listed(plugins: Seq<PluginInfo>, opts: ListOptions) -> Seq<PluginInfo> {
    if opts.only_paused { paused_filter(plugins) } else { plugins }
}

/// Whether the tree view is shown: not asked to be flat, and some plugin
/// is in a bundle.
pub open spec fn shows_tree(ps: Seq<PluginInfo>, opts: ListOptions) -> bool {
    !opts.flat_view && exists|j: int| 0 <= j < ps.len() && (#[trigger] bundle_of(ps[j].name@)) is Some
}

/// Whether the page arithmetic of `grs list` fits in a `usize`.
pub open spec fn page_fits(total: int, opts: ListOptions) -> bool {
    &&& total + list_page_size(total, opts) <= usize::MAX
    &&& (if opts.page > 0 { opts.page - 1 } else { 0 }) * list_page_size(total, opts) <= usize::MAX
    &&& list_start(total, opts) + list_page_size(total, opts) <= usize::MAX
}

/// The header of a page of `grs list`.
pub open spec fn page_header_text(total: nat, opts: ListOptions) -> Seq<char> {
    let tp = list_total_pages(total as int, opts);
    "[GoldSrc.rs] WASM plugins ("@ + decimal(total) + ") [Page "@ + decimal(if tp == 0 { 1nat } else { opts.page as nat }) + "/"@
        + decimal(if tp == 0 { 1nat } else { tp as nat }) + "]:\n"@
}

/// The position after the last plugin of the page shown.
pub open spec fn page_end(total: int, opts: ListOptions) -> int {
    let s = list_start(total, opts);
    if s + list_page_size(total, opts) < total { s + list_page_size(total, opts) } else { total }
}

/// The lines of the paged view of `grs list`.
pub open spec fn page_lines(ps: Seq<PluginInfo>, opts: ListOptions) -> Seq<Seq<char>> {
    let s = list_start(ps.len() as int, opts);
    seq![page_header_text(ps.len(), opts)] + Seq::new(
        (page_end(ps.len() as int, opts) - s) as nat,
        |k: int| list_row_text(ps[s + k], 24),
    )
}

/// The rows of the plugins at the given positions.
pub open spec fn row_texts(ps: Seq<PluginInfo>, idx: Seq<usize>, width: nat) -> Seq<Seq<char>> {
    idx.map_values(|i: usize| list_row_text(ps[i as int], width))
}

/// The rows of a bundle's plugins; the last one closes the bundle.
pub open spec fn member_texts(ps: Seq<PluginInfo>, idx: Seq<usize>) -> Seq<Seq<char>> {
    Seq::new(idx.len(), |k: int| member_row_text(ps[idx[k] as int], k == idx.len() - 1))
}

/// The line that opens a bundle.
pub open spec fn bundle_header_text(bundle: Seq<char>, count: nat) -> Seq<char> {
    "  ["@ + bundle + "/] ("@ + decimal(count) + " plugins)\n"@
}

/// The lines of the bundles, in order.
pub open spec fn bundle_texts(ps: Seq<PluginInfo>, bs: Seq<(String, Vec<usize>)>) -> Seq<Seq<char>>
    decreases bs.len(),
{
    if bs.len() == 0 {
        Seq::empty()
    } else {
        bundle_texts(ps, bs.drop_last()) + seq![bundle_header_text(bs.last().0@, bs.last().1@.len())] + member_texts(
            ps,
            bs.last().1@,
        )
    }
}

/// The lines of the tree view of `grs list`.
pub open spec fn tree_lines(ps: Seq<PluginInfo>, roots: Seq<usize>, bs: Seq<(String, Vec<usize>)>) -> Seq<Seq<char>> {
    seq!["[GoldSrc.rs] WASM plugins ("@ + decimal(ps.len()) + " loaded):\n"@] + row_texts(ps, roots, 16) + bundle_texts(ps, bs)
}

/// The lines `grs list` prints: that there is nothing to list; the tree
/// view of the plugins grouped into bundles; or one page of them.
pub open spec fn list_lines_are(lines: Seq<Seq<char>>, plugins: Seq<PluginInfo>, opts: ListOptions) -> bool {
    let ps = listed(plugins, opts);
    if ps.len() == 0 {
        lines == seq!["[GoldSrc.rs] WASM plugins (0):\n  (No plugins found)\n"@]
    } else if shows_tree(ps, opts) {
        exists|roots: Seq<usize>, bs: Seq<(String, Vec<usize>)>|
            is_grouping(ps, ps.len() as int, roots, bs) && lines == tree_lines(ps, roots, bs)
    } else {
        lines == page_lines(ps, opts)
    }
}

/// The lines of `grs list` for the loaded plugins, as `list_lines_are`
/// says. The page arithmetic of the paged view must fit in a `usize`.
pub fn list_output(plugins: Vec<PluginInfo>, opts: &ListOptions) -> (r: Vec<String>)
    requires
        listed(plugins@, *opts).len() > 0 && !shows_tree(listed(plugins@, *opts), *opts) ==> page_fits(
            listed(plugins@, *opts).len() as int,
            *opts,
        ),
    ensures
        list_lines_are(r@.map_values(|s: String| s@), plugins@, *opts),
{
    let ps = if opts.only_paused { paused_only(plugins) } else { plugins };
    let mut out: Vec<String> = Vec::new();
    let total = ps.len();
    if total == 0 {
        out.push("[GoldSrc.rs] WASM plugins (0):\n  (No plugins found)\n".to_string());
        assert(out@.map_values(|s: String| s@) =~= seq!["[GoldSrc.rs] WASM plugins (0):\n  (No plugins found)\n"@]);
        return out;
    }
    if !opts.flat_view && has_bundles(&ps) {
        let layout = group_by_bundle(&ps);
        out.push(tree_header(total));
        let mut k: usize = 0;
        while k < layout.roots.len()
            invariant
                k <= layout.roots@.len(),
                total == ps@.len(),
                is_grouping(ps@, ps@.len() as int, layout.roots@, layout.bundles@),
                out@.map_values(|s: String| s@) == seq!["[GoldSrc.rs] WASM plugins ("@ + decimal(ps@.len()) + " loaded):\n"@]
                    + row_texts(ps@, layout.roots@.take(k as int), 16),
            decreases layout.roots@.len() - k,
        {
            proof {
                lemma_positions_bound(ps@, ps@.len() as int, None, k as int);
            }
            let i = layout.roots[k];
            let ghost before = out@.map_values(|s: String| s@);
            out.push(list_row(&ps[i], 16));
            assert(layout.roots@.take(k as int + 1) =~= layout.roots@.take(k as int).push(i));
            assert(out@.map_values(|s: String| s@) =~= before.push(list_row_text(ps@[i as int], 16)));
            assert(row_texts(ps@, layout.roots@.take(k as int + 1), 16) =~= row_texts(ps@, layout.roots@.take(k as int), 16).push(
                list_row_text(ps@[i as int], 16),
            ));
            k = k + 1;
        }
        assert(layout.roots@.take(k as int) =~= layout.roots@);
        let ghost h = out@.map_values(|s: String| s@);
        let mut g: usize = 0;
        while g < layout.bundles.len()
            invariant
                g <= layout.bundles@.len(),
                total == ps@.len(),
                is_grouping(ps@, ps@.len() as int, layout.roots@, layout.bundles@),
                out@.map_values(|s: String| s@) == h + bundle_texts(ps@, layout.bundles@.take(g as int)),
            decreases layout.bundles@.len() - g,
        {
            let (bundle, members) = &layout.bundles[g];
            assert(layout.bundles@.take(g as int + 1).drop_last() =~= layout.bundles@.take(g as int));
            let ghost b0 = out@.map_values(|s: String| s@);
            out.push(bundle_header(bundle.as_str(), members.len()));
            let ghost b1 = out@.map_values(|s: String| s@);
            assert(b1 =~= b0.push(bundle_header_text(bundle@, members@.len())));
            let mut j: usize = 0;
            while j < members.len()
                invariant
                    j <= members@.len(),
                    members@ == layout.bundles@[g as int].1@,
                    members@ == positions_in(ps@, ps@.len() as int, Some(layout.bundles@[g as int].0@)),
                    out@.map_values(|s: String| s@) == b1 + member_texts(ps@, members@).take(j as int),
                decreases members@.len() - j,
            {
                proof {
                    lemma_positions_bound(ps@, ps@.len() as int, Some(layout.bundles@[g as int].0@), j as int);
                }
                let i = members[j];
                let ghost before = out@.map_values(|s: String| s@);
                out.push(member_row(&ps[i], j + 1 == members.len()));
                assert(member_texts(ps@, members@).take(j as int + 1) =~= member_texts(ps@, members@).take(j as int).push(
                    member_row_text(ps@[i as int], j + 1 == members@.len()),
                ));
                assert(out@.map_values(|s: String| s@) =~= before.push(member_row_text(ps@[i as int], j + 1 == members@.len())));
                j = j + 1;
            }
            assert(member_texts(ps@, members@).take(j as int) =~= member_texts(ps@, members@));
            assert(out@.map_values(|s: String| s@) =~= h + bundle_texts(ps@, layout.bundles@.take(g as int + 1)));
            g = g + 1;
        }
        assert(layout.bundles@.take(g as int) =~= layout.bundles@);
        assert(out@.map_values(|s: String| s@) =~= tree_lines(ps@, layout.roots@, layout.bundles@));
        return out;
    }
    let page = list_page(total, opts);
    out.push(list_header(total, &page));
    let mut k: usize = page.start;
    while k < page.end
        invariant
            page.start <= k <= page.end <= ps@.len(),
            page.start == list_start(ps@.len() as int, *opts),
            out@.map_values(|s: String| s@) == seq![page_header_text(ps@.len(), *opts)] + Seq::new(
                (k - page.start) as nat,
                |x: int| list_row_text(ps@[page.start + x], 24),
            ),
        decreases page.end - k,
    {
        let ghost before = out@.map_values(|s: String| s@);
        out.push(list_row(&ps[k], 24));
        assert(out@.map_values(|s: String| s@) =~= before.push(list_row_text(ps@[k as int], 24)));
        assert(Seq::new((k + 1 - page.start) as nat, |x: int| list_row_text(ps@[page.start + x], 24)) =~= Seq::new(
            (k - page.start) as nat,
            |x: int| list_row_text(ps@[page.start + x], 24),
        ).push(list_row_text(ps@[k as int], 24)));
        assert(out@.map_values(|s: String| s@) =~= seq![page_header_text(ps@.len(), *opts)] + Seq::new(
            (k + 1 - page.start) as nat,
            |x: int| list_row_text(ps@[page.start + x], 24),
        ));
        k = k + 1;
    }
    out
}

} // verus!
