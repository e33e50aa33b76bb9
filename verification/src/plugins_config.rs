//! The `plugins.toml` model: plugin entries, groups, debug settings and
//! rules, and the decisions read from them.

use vstd::prelude::*;
use crate::text::{str_chars, chars_eq};
use crate::i18n::toml_doc::TomlTable;
use crate::schedule::{distinct_below, is_permutation};

verus! {

/// Log level of a plugin's debugging.
#[derive(Debug, Clone, Copy, PartialEq, Eq, Structural)]
pub enum PluginLogLevel {
    Trace,
    Debug,
    Info,
    Warn,
    Error,
}

impl Default for PluginLogLevel {
    fn default() -> (l: Self)
        ensures
            l == PluginLogLevel::Info,
    {
        PluginLogLevel::Info
    }
}

/// Debugging and profiling settings of a plugin.
pub struct PluginDebugConfig {
    /// Logging verbosity.
    pub level: PluginLogLevel,
    /// Whether tick and event execution times are profiled.
    pub profile: bool,
    /// Events to trace.
    pub log_events: Vec<String>,
    /// Whether command invocations are logged.
    pub log_commands: bool,
    /// Watchdog deadline override, in epochs.
    pub epoch_limit: u64,
    /// A dedicated log file for the plugin.
    pub log_file: Option<String>,
}

/// The characters of each string.
pub open spec fn texts_of(v: Seq<String>) -> Seq<Seq<char>> {
    v.map_values(|s: String| s@)
}

/// Two debug settings with the same values.
pub open spec fn same_debug(a: PluginDebugConfig, b: PluginDebugConfig) -> bool {
    &&& a.level == b.level
    &&& a.profile == b.profile
    &&& texts_of(a.log_events@) == texts_of(b.log_events@)
    &&& a.log_commands == b.log_commands
    &&& a.epoch_limit == b.epoch_limit
    &&& match (a.log_file, b.log_file) {
        (Some(x), Some(y)) => x@ == y@,
        (None, None) => true,
        _ => false,
    }
}

/// The default debug settings: level `Info`, no profiling, no traced
/// events, commands logged, a limit of 100 epochs, no dedicated file.
pub open spec fn is_default_debug(c: PluginDebugConfig) -> bool {
    &&& c.level == PluginLogLevel::Info
    &&& !c.profile
    &&& c.log_events@.len() == 0
    &&& c.log_commands
    &&& c.epoch_limit == 100
    &&& c.log_file is None
}

impl Default for PluginDebugConfig {
    fn default() -> (c: Self)
        ensures
            is_default_debug(c),
    {
        PluginDebugConfig {
            level: PluginLogLevel::Info,
            profile: false,
            log_events: Vec::new(),
            log_commands: true,
            epoch_limit: 100,
            log_file: None,
        }
    }
}

impl Clone for PluginDebugConfig {
    fn clone(&self) -> (c: Self)
        ensures
            same_debug(c, *self),
    {
        let mut events: Vec<String> = Vec::new();
        let mut k: usize = 0;
        while k < self.log_events.len()
            invariant
                k <= self.log_events@.len(),
                events@.len() == k,
                forall|j: int| 0 <= j < k ==> (#[trigger] events@[j])@ == self.log_events@[j]@,
            decreases self.log_events@.len() - k,
        {
            events.push(self.log_events[k].clone());
            k = k + 1;
        }
        assert(texts_of(events@) =~= texts_of(self.log_events@));
        let log_file = match &self.log_file {
            Some(f) => Some(f.clone()),
            None => None,
        };
        PluginDebugConfig {
            level: self.level,
            profile: self.profile,
            log_events: events,
            log_commands: self.log_commands,
            epoch_limit: self.epoch_limit,
            log_file,
        }
    }
}

/// A debug setting: a plain switch (`debug = true`) or a full table.
pub enum PluginDebugSetting {
    Simple(bool),
    Detailed(PluginDebugConfig),
}

impl PluginDebugSetting {
    /// The full debug settings: switched on means level `Debug` with
    /// profiling and defaults otherwise, switched off means the defaults.
    pub fn resolve(&self) -> (c: PluginDebugConfig)
        ensures
            match *self {
                PluginDebugSetting::Simple(true) => c.level == PluginLogLevel::Debug && c.profile && c.log_events@.len() == 0
                    && c.log_commands && c.epoch_limit == 100 && c.log_file is None,
                PluginDebugSetting::Simple(false) => is_default_debug(c),
                PluginDebugSetting::Detailed(d) => same_debug(c, d),
            },
    {
        match self {
            PluginDebugSetting::Simple(enabled) => {
                if *enabled {
                    let d = PluginDebugConfig::default();
                    PluginDebugConfig { level: PluginLogLevel::Debug, profile: true, ..d }
                } else {
                    PluginDebugConfig::default()
                }
            },
            PluginDebugSetting::Detailed(cfg) => cfg.clone(),
        }
    }
}

/// One plugin of `plugins.toml`.
pub struct PluginEntry {
    /// Plugin name or relative path (e.g. `test_suite/test_hud`).
    pub name: String,
    /// Whether the plugin is loaded.
    pub enabled: bool,
    /// Load priority; higher loads earlier.
    pub priority: i32,
    /// Debugging settings.
    pub debug: Option<PluginDebugSetting>,
}

/// A named group of plugins (`[groups.<name>]`).
pub struct PluginGroup {
    /// Whether the group is enabled.
    pub enabled: bool,
    /// The plugins of the group.
    pub plugins: Vec<String>,
}

/// A reactive rule: conditions and actions, as TOML tables.
pub struct RuleConfig {
    /// Name of the rule.
    pub name: String,
    /// Condition name to value.
    pub when: TomlTable,
    /// Action name to value.
    pub action: TomlTable,
}

/// The whole of `plugins.toml`.
pub struct PluginsConfig {
    /// Plugin declarations, in order.
    pub plugins: Vec<PluginEntry>,
    /// Named groups.
    pub groups: Vec<(String, PluginGroup)>,
    /// Reactive rules.
    pub rules: Vec<RuleConfig>,
}

impl Default for PluginsConfig {
    fn default() -> (c: Self)
        ensures
            c.plugins@.len() == 0 && c.groups@.len() == 0 && c.rules@.len() == 0,
    {
        PluginsConfig { plugins: Vec::new(), groups: Vec::new(), rules: Vec::new() }
    }
}

/// Whether some disabled group lists the plugin.
pub open spec fn disabled_by_group(groups: Seq<(String, PluginGroup)>, name: Seq<char>) -> bool {
    exists|g: int, p: int| 0 <= g < groups.len() && !groups[g].1.enabled && 0 <= p < groups[g].1.plugins@.len()
        && #[trigger] groups[g].1.plugins@[p]@ == name
}

/// The position of the first entry for the plugin.
pub open spec fn first_entry(plugins: Seq<PluginEntry>, name: Seq<char>) -> Option<int> {
    if exists|i: int| 0 <= i < plugins.len() && #[trigger] plugins[i].name@ == name {
        Some(choose|i: int| 0 <= i < plugins.len() && #[trigger] plugins[i].name@ == name
            && forall|j: int| 0 <= j < i ==> plugins[j].name@ != name)
    } else {
        None
    }
}

/// Whether the plugin is enabled: not when a disabled group lists it; else
/// as its first entry says; else enabled.
pub open spec fn plugin_enabled(c: PluginsConfig, name: Seq<char>) -> bool {
    if disabled_by_group(c.groups@, name) {
        false
    } else {
        match first_entry(c.plugins@, name) {
            Some(i) => c.plugins@[i].enabled,
            None => true,
        }
    }
}

/// A disabled group wins over the plugin's own entry: when some group with
/// `enabled = false` lists the plugin, the plugin is disabled, whatever its
/// entries in `plugins` say.
pub proof fn lemma_disabled_group_wins(c: PluginsConfig, name: Seq<char>, g: int, p: int)
    requires
        0 <= g < c.groups@.len(),
        !c.groups@[g].1.enabled,
        0 <= p < c.groups@[g].1.plugins@.len(),
        c.groups@[g].1.plugins@[p]@ == name,
    ensures
        !plugin_enabled(c, name),
{
    assert(disabled_by_group(c.groups@, name));
}

/// When no disabled group lists a plugin, its first entry in `plugins`
/// decides whether it is enabled; a plugin that nothing mentions is
/// enabled.
pub proof fn lemma_first_entry_decides(c: PluginsConfig, name: Seq<char>)
    requires
        forall|g: int, p: int|
            0 <= g < c.groups@.len() && !c.groups@[g].1.enabled && 0 <= p < c.groups@[g].1.plugins@.len()
                ==> #[trigger] c.groups@[g].1.plugins@[p]@ != name,
    ensures
        forall|i: int|
            0 <= i < c.plugins@.len() && c.plugins@[i].name@ == name && (forall|j: int|
                0 <= j < i ==> #[trigger] c.plugins@[j].name@ != name) ==> plugin_enabled(c, name)
                == (#[trigger] c.plugins@[i]).enabled,
        (forall|i: int| 0 <= i < c.plugins@.len() ==> #[trigger] c.plugins@[i].name@ != name) ==> plugin_enabled(c, name),
{
    assert forall|i: int|
        0 <= i < c.plugins@.len() && c.plugins@[i].name@ == name && (forall|j: int|
            0 <= j < i ==> #[trigger] c.plugins@[j].name@ != name) implies first_entry(c.plugins@, name) == Some(i) by {
        let k = choose|k: int| 0 <= k < c.plugins@.len() && #[trigger] c.plugins@[k].name@ == name
            && forall|j: int| 0 <= j < k ==> c.plugins@[j].name@ != name;
        if k < i {
            assert(c.plugins@[k].name@ != name);
        }
        if i < k {
            assert(c.plugins@[i].name@ != name);
        }
    }
}

/// The load priority of a plugin: that of its first entry, or 100.
pub open spec fn priority_of(c: PluginsConfig, name: Seq<char>) -> int {
    match first_entry(c.plugins@, name) {
        Some(i) => c.plugins@[i].priority as int,
        None => 100,
    }
}

/// A plugin's load priority is that of its first entry in `plugins`
/// (later entries for the same name are ignored), and 100 when it has no
/// entry.
pub proof fn lemma_priority_from_first_entry(c: PluginsConfig, name: Seq<char>)
    ensures
        forall|i: int|
            0 <= i < c.plugins@.len() && c.plugins@[i].name@ == name && (forall|j: int|
                0 <= j < i ==> #[trigger] c.plugins@[j].name@ != name) ==> priority_of(c, name)
                == (#[trigger] c.plugins@[i]).priority as int,
        (forall|i: int| 0 <= i < c.plugins@.len() ==> #[trigger] c.plugins@[i].name@ != name) ==> priority_of(c, name) == 100,
{
    assert forall|i: int|
        0 <= i < c.plugins@.len() && c.plugins@[i].name@ == name && (forall|j: int|
            0 <= j < i ==> #[trigger] c.plugins@[j].name@ != name) implies first_entry(c.plugins@, name) == Some(i) by {
        let k = choose|k: int| 0 <= k < c.plugins@.len() && #[trigger] c.plugins@[k].name@ == name
            && forall|j: int| 0 <= j < k ==> c.plugins@[j].name@ != name;
        if k < i {
            assert(c.plugins@[k].name@ != name);
        }
        if i < k {
            assert(c.plugins@[i].name@ != name);
        }
    }
}

/// Plugin `a` loads before plugin `b` (given their priorities `p`): a
/// higher priority first, and of equal priorities the one discovered first.
pub open spec fn loads_before(p: Seq<i32>, a: usize, b: usize) -> bool {
    p[a as int] > p[b as int] || (p[a as int] == p[b as int] && a < b)
}

/// The positions `o` are in load order.
pub open spec fn in_load_order(o: Seq<usize>, p: Seq<i32>) -> bool {
    forall|a: int, b: int| 0 <= a < b < o.len() ==> loads_before(p, #[trigger] o[a], #[trigger] o[b])
}

/// Sorts the positions `0..p.len()` into load order (an insertion sort that
/// moves a plugin only past plugins of strictly lower priority).
fn sort_by_priority(p: &Vec<i32>) -> (o: Vec<usize>)
    ensures
        is_permutation(o@, p@.len() as int),
        in_load_order(o@, p@),
{
    let n = p.len();
    let mut o: Vec<usize> = Vec::new();
    let mut k: usize = 0;
    while k < n
        invariant
            k <= n,
            n == p@.len(),
            o@.len() == k,
            forall|a: int| 0 <= a < k ==> o@[a] == a,
        decreases n - k,
    {
        o.push(k);
        k = k + 1;
    }
    let mut i: usize = 0;
    while i < n
        invariant
            i <= n,
            n == p@.len(),
            o@.len() == n,
            distinct_below(o@, n as int),
            forall|a: int| i <= a < n ==> o@[a] == a,
            forall|a: int| 0 <= a < i ==> o@[a] < i,
            in_load_order(o@.take(i as int), p@),
        decreases n - i,
    {
        let mut j: usize = i;
        proof {
            assert forall|a: int, b: int| 0 <= a < b < j implies loads_before(p@, #[trigger] o@[a], #[trigger] o@[b]) by {
                assert(o@.take(i as int)[a] == o@[a]);
                assert(o@.take(i as int)[b] == o@[b]);
            }
        }
        while j > 0 && p[o[j - 1]] < p[o[j]]
            invariant
                i < n,
                j <= i,
                n == p@.len(),
                o@.len() == n,
                distinct_below(o@, n as int),
                forall|a: int| i < a < n ==> o@[a] == a,
                o@[j as int] == i,
                forall|a: int| 0 <= a <= i && a != j ==> o@[a] < i,
                forall|a: int, b: int| 0 <= a < b < j ==> loads_before(p@, #[trigger] o@[a], #[trigger] o@[b]),
                forall|a: int, b: int| j < a < b <= i ==> loads_before(p@, #[trigger] o@[a], #[trigger] o@[b]),
                forall|a: int, b: int| 0 <= a < j && j < b <= i ==> loads_before(p@, #[trigger] o@[a], #[trigger] o@[b]),
                forall|b: int| j < b <= i ==> loads_before(p@, o@[j as int], #[trigger] o@[b]),
            decreases j,
        {
            let ghost before = o@;
            let a = o[j - 1];
            let b = o[j];
            o.set(j - 1, b);
            o.set(j, a);
            proof {
                assert(o@ =~= before.update(j - 1, b).update(j as int, a));
            }
            j = j - 1;
        }
        proof {
            if j > 0 {
                assert(o@[j - 1] < i);
                assert(loads_before(p@, o@[j - 1], o@[j as int]));
            }
            assert forall|a: int, b: int| 0 <= a < b < i + 1 implies loads_before(p@, #[trigger] o@.take(i + 1)[a], #[trigger] o@.take(i + 1)[b]) by {
                assert(o@.take(i + 1)[a] == o@[a]);
                assert(o@.take(i + 1)[b] == o@[b]);
                if a < j && j < b {
                    assert(loads_before(p@, o@[a], o@[j - 1]) || a == j - 1);
                }
            }
            assert forall|a: int| 0 <= a < i + 1 implies o@[a] < i + 1 by {
                if a != j {
                    assert(o@[a] < i);
                }
            }
        }
        i = i + 1;
    }
    assert(o@.take(n as int) =~= o@);
    o
}

fn same_text(a: &String, b: &str) -> (r: bool)
    ensures
        r == (a@ == b@),
{
    let x = str_chars(a.as_str());
    let y = str_chars(b);
    chars_eq(&x, &y)
}

proof fn lemma_first_entry(plugins: Seq<PluginEntry>, name: Seq<char>, i: int)
    requires
        0 <= i < plugins.len(),
        plugins[i].name@ == name,
        forall|j: int| 0 <= j < i ==> plugins[j].name@ != name,
    ensures
        first_entry(plugins, name) == Some(i),
{
    let k = choose|k: int| 0 <= k < plugins.len() && #[trigger] plugins[k].name@ == name
        && forall|j: int| 0 <= j < k ==> plugins[j].name@ != name;
    if k < i {
        assert(plugins[k].name@ != name);
    } else if k > i {
        assert(plugins[i].name@ != name);
    }
}

impl PluginsConfig {
    fn entry_index(&self, plugin_name: &str) -> (r: Option<usize>)
        ensures
            r matches Some(i) ==> i < self.plugins@.len() && first_entry(self.plugins@, plugin_name@) == Some(i as int),
            r is None ==> first_entry(self.plugins@, plugin_name@) is None,
    {
        let mut i: usize = 0;
        while i < self.plugins.len()
            invariant
                i <= self.plugins@.len(),
                forall|j: int| 0 <= j < i ==> self.plugins@[j].name@ != plugin_name@,
            decreases self.plugins@.len() - i,
        {
            if same_text(&self.plugins[i].name, plugin_name) {
                proof {
                    lemma_first_entry(self.plugins@, plugin_name@, i as int);
                }
                return Some(i);
            }
            i = i + 1;
        }
        None
    }

    /// Whether a plugin is enabled, taking its groups and its own entry into
    /// account: a disabled group that lists it disables it; otherwise its
    /// first entry decides; an undeclared plugin is enabled.
    #[verifier::loop_isolation(false)]
    pub fn is_plugin_enabled(&self, plugin_name: &str) -> (r: bool)
        ensures
            r == plugin_enabled(*self, plugin_name@),
    {
        let mut g: usize = 0;
        while g < self.groups.len()
            invariant
                g <= self.groups@.len(),
                forall|x: int, p: int| 0 <= x < g && !self.groups@[x].1.enabled && 0 <= p < self.groups@[x].1.plugins@.len()
                    ==> #[trigger] self.groups@[x].1.plugins@[p]@ != plugin_name@,
            decreases self.groups@.len() - g,
        {
            let group = &self.groups[g].1;
            if !group.enabled {
                let mut p: usize = 0;
                while p < group.plugins.len()
                    invariant
                        p <= group.plugins@.len(),
                        forall|q: int| 0 <= q < p ==> #[trigger] group.plugins@[q]@ != plugin_name@,
                    decreases group.plugins@.len() - p,
                {
                    if same_text(&group.plugins[p], plugin_name) {
                        assert(self.groups@[g as int].1.plugins@[p as int]@ == plugin_name@);
                        return false;
                    }
                    p = p + 1;
                }
            }
            g = g + 1;
        }
        assert(!disabled_by_group(self.groups@, plugin_name@));
        match self.entry_index(plugin_name) {
            Some(i) => {
                assert(first_entry(self.plugins@, plugin_name@) == Some(i as int));
                self.plugins[i].enabled
            },
            None => true,
        }
    }

    /// The load priority of a plugin: that of its first entry, or 100.
    pub fn plugin_priority(&self, plugin_name: &str) -> (r: i32)
        ensures
            r as int == priority_of(*self, plugin_name@),
    {
        match self.entry_index(plugin_name) {
            Some(i) => self.plugins[i].priority,
            None => 100,
        }
    }

    /// The order in which discovered plugins load: positions into `names`,
    /// higher priority first, plugins of equal priority in the order they
    /// were discovered.
    pub fn load_order(&self, names: &Vec<String>) -> (o: Vec<usize>)
        ensures
            is_permutation(o@, names@.len() as int),
            forall|a: int, b: int|
                0 <= a < b < o@.len() ==> priority_of(*self, names@[#[trigger] o@[a] as int]@) > priority_of(
                    *self,
                    names@[#[trigger] o@[b] as int]@,
                ) || (priority_of(*self, names@[o@[a] as int]@) == priority_of(*self, names@[o@[b] as int]@)
                    && o@[a] < o@[b]),
    {
        let mut p: Vec<i32> = Vec::new();
        let mut k: usize = 0;
        while k < names.len()
            invariant
                k <= names@.len(),
                p@.len() == k,
                forall|j: int| 0 <= j < k ==> #[trigger] p@[j] as int == priority_of(*self, names@[j]@),
            decreases names@.len() - k,
        {
            let pr = self.plugin_priority(names[k].as_str());
            p.push(pr);
            k = k + 1;
        }
        let o = sort_by_priority(&p);
        proof {
            assert forall|a: int, b: int| 0 <= a < b < o@.len() implies priority_of(*self, names@[#[trigger] o@[a] as int]@)
                > priority_of(*self, names@[#[trigger] o@[b] as int]@) || (priority_of(*self, names@[o@[a] as int]@)
                == priority_of(*self, names@[o@[b] as int]@) && o@[a] < o@[b]) by {
                assert(loads_before(p@, o@[a], o@[b]));
                assert(p@[o@[a] as int] as int == priority_of(*self, names@[o@[a] as int]@));
                assert(p@[o@[b] as int] as int == priority_of(*self, names@[o@[b] as int]@));
            }
        }
        o
    }

    /// The resolved debug settings of a plugin: those of its first entry,
    /// or the defaults.
    pub fn get_debug_config(&self, plugin_name: &str) -> (c: PluginDebugConfig)
        ensures
            match first_entry(self.plugins@, plugin_name@) {
                Some(i) => match self.plugins@[i].debug {
                    Some(PluginDebugSetting::Detailed(d)) => same_debug(c, d),
                    Some(PluginDebugSetting::Simple(true)) => c.level == PluginLogLevel::Debug && c.profile,
                    _ => is_default_debug(c),
                },
                None => is_default_debug(c),
            },
    {
        match self.entry_index(plugin_name) {
            Some(i) => {
                assert(first_entry(self.plugins@, plugin_name@) == Some(i as int));
                match &self.plugins[i].debug {
                    Some(d) => d.resolve(),
                    None => PluginDebugConfig::default(),
                }
            },
            None => PluginDebugConfig::default(),
        }
    }
}

} // verus!
