//! The host configuration (`goldsrc.toml`): its sections, defaults, and the
//! clamping of values into their allowed ranges.

use vstd::prelude::*;
use crate::logging::LogConfig;
use crate::paths::{BackendType, PathResolver, join, framework_dir_spec, normalized, join_path};

verus! {

pub const MIN_DEBOUNCE_MS: u64 = 50;
pub const MAX_DEBOUNCE_MS: u64 = 5000;
pub const DEFAULT_DEBOUNCE_MS: u64 = 500;

pub const MIN_MEMORY_LIMIT_MB: u32 = 16;
pub const MAX_MEMORY_LIMIT_MB: u32 = 512;
pub const DEFAULT_MEMORY_LIMIT_MB: u32 = 64;

pub const MIN_TABLE_ELEMENTS: u32 = 100;
pub const MAX_TABLE_ELEMENTS: u32 = 100000;
pub const DEFAULT_MAX_TABLE_ELEMENTS: u32 = 10000;

pub const MIN_FRAME_EPOCH_DEADLINE: u64 = 1;
pub const MAX_FRAME_EPOCH_DEADLINE: u64 = 100;
pub const DEFAULT_FRAME_EPOCH_DEADLINE: u64 = 5;

pub const DEFAULT_EVENT_EPOCH_DEADLINE: u64 = 10;
pub const DEFAULT_COMMAND_EPOCH_DEADLINE: u64 = 10;
pub const DEFAULT_LOAD_EPOCH_DEADLINE: u64 = 50;

/// What happens when a loaded plugin file is removed from the plugins directory.
#[derive(Debug, Clone, Copy, PartialEq, Eq, Structural)]
pub enum OnFileDeleted {
    /// Keep the plugin running until it is unloaded explicitly.
    Keep,
    /// Unload the plugin.
    Unload,
}

impl Default for OnFileDeleted {
    fn default() -> (r: Self)
        ensures
            r == OnFileDeleted::Keep,
    {
        OnFileDeleted::Keep
    }
}

/// Directory layout.
pub struct CoreConfig {
    /// Directory of the plugin binaries.
    pub plugins_dir: String,
    /// Directory of the plugin configurations.
    pub configs_dir: String,
    /// Directory of the log files.
    pub logs_dir: String,
}

impl CoreConfig {
    /// The default layout of a backend: the normalized `plugins`, `configs`
    /// and `logs` directories of the framework directory.
    pub fn default_for(backend: BackendType) -> (c: Self)
        ensures
            c.plugins_dir@ == normalized(join(framework_dir_spec(backend), "plugins"@)),
            c.configs_dir@ == normalized(join(framework_dir_spec(backend), "configs"@)),
            c.logs_dir@ == normalized(join(framework_dir_spec(backend), "logs"@)),
    {
        let fw = PathResolver::framework_dir(backend);
        let p = join_path(&fw, "plugins");
        let c = join_path(&fw, "configs");
        let l = join_path(&fw, "logs");
        CoreConfig {
            plugins_dir: PathResolver::normalize(&p),
            configs_dir: PathResolver::normalize(&c),
            logs_dir: PathResolver::normalize(&l),
        }
    }
}

/// Hot-reload watcher settings.
pub struct WatcherConfig {
    /// Whether plugins are reloaded when their file changes.
    pub enabled: bool,
    /// Delay before a changed file is read, in milliseconds.
    pub debounce_ms: u64,
    /// What happens when a plugin file is removed.
    pub on_file_deleted: OnFileDeleted,
    /// Whether plugin configuration files are watched too.
    pub watch_configs: bool,
}

impl Default for WatcherConfig {
    fn default() -> (c: Self)
        ensures
            c.enabled,
            c.debounce_ms == DEFAULT_DEBOUNCE_MS,
            c.on_file_deleted == OnFileDeleted::Keep,
            c.watch_configs,
    {
        WatcherConfig { enabled: true, debounce_ms: 500, on_file_deleted: OnFileDeleted::Keep, watch_configs: true }
    }
}

/// WASM runtime limits and execution deadlines.
pub struct RuntimeConfig {
    /// Memory limit per plugin, in megabytes.
    pub default_memory_limit_mb: u32,
    /// Maximum number of table elements of a plugin instance.
    pub max_table_elements: u32,
    /// Deadline of the per-frame callback, in epoch ticks.
    pub frame_epoch_deadline: u64,
    /// Deadline of the event callback, in epoch ticks.
    pub event_epoch_deadline: u64,
    /// Deadline of the command callback, in epoch ticks.
    pub command_epoch_deadline: u64,
    /// Deadline of the load callback, in epoch ticks.
    pub load_epoch_deadline: u64,
}

impl Default for RuntimeConfig {
    fn default() -> (c: Self)
        ensures
            c.default_memory_limit_mb == DEFAULT_MEMORY_LIMIT_MB,
            c.max_table_elements == DEFAULT_MAX_TABLE_ELEMENTS,
            c.frame_epoch_deadline == DEFAULT_FRAME_EPOCH_DEADLINE,
            c.event_epoch_deadline == DEFAULT_EVENT_EPOCH_DEADLINE,
            c.command_epoch_deadline == DEFAULT_COMMAND_EPOCH_DEADLINE,
            c.load_epoch_deadline == DEFAULT_LOAD_EPOCH_DEADLINE,
    {
        RuntimeConfig {
            default_memory_limit_mb: 64,
            max_table_elements: 10000,
            frame_epoch_deadline: 5,
            event_epoch_deadline: 10,
            command_epoch_deadline: 10,
            load_epoch_deadline: 50,
        }
    }
}

/// The whole host configuration (`goldsrc.toml`).
pub struct HostConfig {
    pub core: CoreConfig,
    pub logging: LogConfig,
    pub watcher: WatcherConfig,
    pub runtime: RuntimeConfig,
}

/// `v` moved into `[lo, hi]`.
pub open spec fn clamp(v: int, lo: int, hi: int) -> int {
    if v < lo { lo } else if v > hi { hi } else { v }
}

/// Every clamped value of the configuration lies in its range.
pub open spec fn in_bounds(c: HostConfig) -> bool {
    &&& MIN_DEBOUNCE_MS <= c.watcher.debounce_ms <= MAX_DEBOUNCE_MS
    &&& MIN_MEMORY_LIMIT_MB <= c.runtime.default_memory_limit_mb <= MAX_MEMORY_LIMIT_MB
    &&& MIN_TABLE_ELEMENTS <= c.runtime.max_table_elements <= MAX_TABLE_ELEMENTS
    &&& MIN_FRAME_EPOCH_DEADLINE <= c.runtime.frame_epoch_deadline <= MAX_FRAME_EPOCH_DEADLINE
}

/// `b` is `a` with its bounded values clamped and everything else unchanged.
pub open spec fn sanitized_from(a: HostConfig, b: HostConfig) -> bool {
    &&& b.watcher.debounce_ms == clamp(a.watcher.debounce_ms as int, MIN_DEBOUNCE_MS as int, MAX_DEBOUNCE_MS as int)
    &&& b.runtime.default_memory_limit_mb == clamp(a.runtime.default_memory_limit_mb as int,
        MIN_MEMORY_LIMIT_MB as int, MAX_MEMORY_LIMIT_MB as int)
    &&& b.runtime.max_table_elements == clamp(a.runtime.max_table_elements as int, MIN_TABLE_ELEMENTS as int,
        MAX_TABLE_ELEMENTS as int)
    &&& b.runtime.frame_epoch_deadline == clamp(a.runtime.frame_epoch_deadline as int,
        MIN_FRAME_EPOCH_DEADLINE as int, MAX_FRAME_EPOCH_DEADLINE as int)
    &&& b.watcher.enabled == a.watcher.enabled
    &&& b.watcher.on_file_deleted == a.watcher.on_file_deleted
    &&& b.watcher.watch_configs == a.watcher.watch_configs
    &&& b.runtime.event_epoch_deadline == a.runtime.event_epoch_deadline
    &&& b.runtime.command_epoch_deadline == a.runtime.command_epoch_deadline
    &&& b.runtime.load_epoch_deadline == a.runtime.load_epoch_deadline
    &&& b.core == a.core
    &&& b.logging == a.logging
}

fn clamp_u64(v: u64, lo: u64, hi: u64) -> (r: u64)
    requires
        lo <= hi,
    ensures
        r == clamp(v as int, lo as int, hi as int),
{
    if v < lo { lo } else if v > hi { hi } else { v }
}

fn clamp_u32(v: u32, lo: u32, hi: u32) -> (r: u32)
    requires
        lo <= hi,
    ensures
        r == clamp(v as int, lo as int, hi as int),
{
    if v < lo { lo } else if v > hi { hi } else { v }
}

impl HostConfig {
    /// The default configuration of a backend.
    pub fn default_for(backend: BackendType) -> (c: Self)
        ensures
            c.core.plugins_dir@ == normalized(join(framework_dir_spec(backend), "plugins"@)),
            c.core.configs_dir@ == normalized(join(framework_dir_spec(backend), "configs"@)),
            c.core.logs_dir@ == normalized(join(framework_dir_spec(backend), "logs"@)),
            c.logging.level == crate::logging::LogLevel::Info,
            c.logging.file_output && c.logging.console_output && c.logging.targets@.len() == 0,
            c.watcher.enabled && c.watcher.watch_configs,
            c.watcher.debounce_ms == DEFAULT_DEBOUNCE_MS,
            c.watcher.on_file_deleted == OnFileDeleted::Keep,
            c.runtime.default_memory_limit_mb == DEFAULT_MEMORY_LIMIT_MB,
            c.runtime.max_table_elements == DEFAULT_MAX_TABLE_ELEMENTS,
            c.runtime.frame_epoch_deadline == DEFAULT_FRAME_EPOCH_DEADLINE,
            c.runtime.event_epoch_deadline == DEFAULT_EVENT_EPOCH_DEADLINE,
            c.runtime.command_epoch_deadline == DEFAULT_COMMAND_EPOCH_DEADLINE,
            c.runtime.load_epoch_deadline == DEFAULT_LOAD_EPOCH_DEADLINE,
            in_bounds(c),
    {
        HostConfig {
            core: CoreConfig::default_for(backend),
            logging: LogConfig::default(),
            watcher: WatcherConfig::default(),
            runtime: RuntimeConfig::default(),
        }
    }

    /// Clamps the bounded values (watcher debounce, memory limit, table size,
    /// frame deadline) into their allowed ranges and leaves everything else
    /// as it is.
    pub fn sanitize(&mut self)
        ensures
            sanitized_from(*old(self), *final(self)),
            in_bounds(*final(self)),
    {
        self.watcher.debounce_ms = clamp_u64(self.watcher.debounce_ms, MIN_DEBOUNCE_MS, MAX_DEBOUNCE_MS);
        self.runtime.default_memory_limit_mb = clamp_u32(self.runtime.default_memory_limit_mb,
            MIN_MEMORY_LIMIT_MB, MAX_MEMORY_LIMIT_MB);
        self.runtime.max_table_elements = clamp_u32(self.runtime.max_table_elements, MIN_TABLE_ELEMENTS,
            MAX_TABLE_ELEMENTS);
        self.runtime.frame_epoch_deadline = clamp_u64(self.runtime.frame_epoch_deadline,
            MIN_FRAME_EPOCH_DEADLINE, MAX_FRAME_EPOCH_DEADLINE);
    }
}

/// Sanitizing leaves a configuration whose values are in range unchanged.
pub proof fn lemma_sanitize_keeps_valid(a: HostConfig, b: HostConfig)
    requires
        in_bounds(a),
        sanitized_from(a, b),
    ensures
        b == a,
{
}

/// Sanitizing twice gives what sanitizing once gives.
pub proof fn lemma_sanitize_idempotent(a: HostConfig, b: HostConfig, c: HostConfig)
    requires
        sanitized_from(a, b),
        sanitized_from(b, c),
    ensures
        c == b,
{
}

} // verus!
