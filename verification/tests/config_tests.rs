use goldsrc::config::{CoreConfig, HostConfig, OnFileDeleted, RuntimeConfig, WatcherConfig};
use goldsrc::logging::LogConfig;
use goldsrc::paths::BackendType;

#[test]
fn test_sanitization_clamps_absurd_values() {
    let mut cfg = HostConfig {
        core: CoreConfig::default_for(BackendType::Metamod),
        logging: LogConfig::default(),
        watcher: WatcherConfig {
            enabled: true,
            debounce_ms: 9999999,
            on_file_deleted: OnFileDeleted::Keep,
            watch_configs: true,
        },
        runtime: RuntimeConfig {
            default_memory_limit_mb: 2,
            max_table_elements: 0,
            frame_epoch_deadline: 0,
            event_epoch_deadline: 10,
            command_epoch_deadline: 10,
            load_epoch_deadline: 50,
        },
    };

    cfg.sanitize();

    assert_eq!(cfg.watcher.debounce_ms, 5000);
    assert_eq!(cfg.runtime.default_memory_limit_mb, 16);
    assert_eq!(cfg.runtime.max_table_elements, 100);
    assert_eq!(cfg.runtime.frame_epoch_deadline, 1);
}

#[test]
fn sanitize_clamps_high_values_and_keeps_the_rest() {
    let mut cfg = HostConfig::default_for(BackendType::Standalone);
    cfg.runtime.default_memory_limit_mb = 4096;
    cfg.runtime.max_table_elements = 5_000_000;
    cfg.runtime.frame_epoch_deadline = 1000;
    cfg.watcher.debounce_ms = 10;
    cfg.runtime.load_epoch_deadline = 77;
    cfg.sanitize();
    assert_eq!(cfg.runtime.default_memory_limit_mb, 512);
    assert_eq!(cfg.runtime.max_table_elements, 100_000);
    assert_eq!(cfg.runtime.frame_epoch_deadline, 100);
    assert_eq!(cfg.watcher.debounce_ms, 50);
    assert_eq!(cfg.runtime.load_epoch_deadline, 77);
}

#[test]
fn sanitize_keeps_valid_defaults_and_is_idempotent() {
    let mut cfg = HostConfig::default_for(BackendType::Metamod);
    cfg.sanitize();
    assert_eq!(cfg.watcher.debounce_ms, 500);
    assert_eq!(cfg.runtime.default_memory_limit_mb, 64);
    assert_eq!(cfg.runtime.max_table_elements, 10_000);
    assert_eq!(cfg.runtime.frame_epoch_deadline, 5);
    cfg.runtime.max_table_elements = 1;
    cfg.sanitize();
    let once = cfg.runtime.max_table_elements;
    cfg.sanitize();
    assert_eq!(cfg.runtime.max_table_elements, once);
    assert_eq!(once, 100);
}

#[test]
fn default_core_dirs_per_backend() {
    let m = CoreConfig::default_for(BackendType::Metamod);
    assert_eq!(m.plugins_dir, "cstrike/addons/goldsrc/plugins");
    assert_eq!(m.configs_dir, "cstrike/addons/goldsrc/configs");
    assert_eq!(m.logs_dir, "cstrike/addons/goldsrc/logs");
    let s = CoreConfig::default_for(BackendType::Standalone);
    assert_eq!(s.plugins_dir, "cstrike/goldsrc/plugins");
}

fn entry(name: &str, enabled: bool, priority: i32) -> goldsrc::plugins_config::PluginEntry {
    goldsrc::plugins_config::PluginEntry { name: name.to_string(), enabled, priority, debug: None }
}

#[test]
fn plugins_load_by_priority_then_discovery_order() {
    let mut cfg = goldsrc::plugins_config::PluginsConfig::default();
    cfg.plugins.push(entry("admin_system", true, 150));
    cfg.plugins.push(entry("late", true, 10));
    cfg.plugins.push(entry("admin_system", true, 5));
    let names: Vec<String> = ["x", "late", "admin_system", "y", "vip/core"].iter().map(|s| s.to_string()).collect();
    assert_eq!(cfg.plugin_priority("admin_system"), 150);
    assert_eq!(cfg.plugin_priority("unlisted"), 100);
    assert_eq!(cfg.load_order(&names), vec![2, 0, 3, 4, 1]);
    assert_eq!(cfg.load_order(&Vec::new()), Vec::<usize>::new());
}
