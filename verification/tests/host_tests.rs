use goldsrc::plugin_host::{
    bundle_header, bundle_member_name, group_by_bundle, has_bundles, paused_only, plugin_file_name, reload_all_report,
    tree_branch, tree_header, LoadedPlugin, PluginTable,
};

fn plugin(name: &str, path: &str) -> LoadedPlugin<()> {
    LoadedPlugin {
        name: name.to_string(),
        path: path.to_string(),
        is_paused: false,
        has_on_load: false,
        has_on_unload: false,
        has_on_frame: false,
        instance: (),
    }
}

#[test]
fn test_plugin_manager_creation() {
    let manager: PluginTable<()> = PluginTable::new();
    assert_eq!(manager.plugins.len(), 0);
    assert_eq!(manager.get_status_info(0), (0, 0));
}

#[test]
fn test_find_plugin_index() {
    let mut manager: PluginTable<()> = PluginTable::new();
    manager.plugins.push(plugin("test_plugin.wasm", "plugins/test_plugin.wasm"));

    assert_eq!(manager.find_plugin_index("1"), Some(0));
    assert_eq!(manager.find_plugin_index("test_plugin"), Some(0));
    assert_eq!(manager.find_plugin_index("test_plugin.wasm"), Some(0));
    assert_eq!(manager.find_plugin_index("TEST_PLUGIN"), Some(0));
    assert_eq!(manager.find_plugin_index("2"), None);
    assert_eq!(manager.find_plugin_index("unknown"), None);

    assert!(manager.pause_plugin("1", true).is_ok());
    assert!(manager.plugins[0].is_paused);
    assert!(manager.pause_plugin("1", false).is_ok());
    assert!(!manager.plugins[0].is_paused);

    let info = manager.get_plugins_info();
    assert_eq!(info.len(), 1);
    assert_eq!(info[0].name, "test_plugin.wasm");
    assert_eq!(info[0].index, 1);
}

#[test]
fn find_plugin_index_prefers_index_and_strips_every_suffix() {
    let mut t: PluginTable<()> = PluginTable::new();
    t.plugins.push(plugin("alpha.wasm.wasm", "p/alpha.wasm.wasm"));
    t.plugins.push(plugin("2", "p/2"));
    assert_eq!(t.find_plugin_index("alpha"), Some(0));
    assert_eq!(t.find_plugin_index("ALPHA.wasm"), Some(0));
    assert_eq!(t.find_plugin_index("2"), Some(1));
    assert_eq!(t.find_plugin_index("+1"), Some(0));
    assert_eq!(t.find_plugin_index("0"), None);
    assert_eq!(t.find_plugin_index("3"), None);
}

#[test]
fn pause_messages() {
    let mut t: PluginTable<()> = PluginTable::new();
    t.plugins.push(plugin("a.wasm", "p/a.wasm"));
    assert_eq!(t.pause_plugin("a", true), Ok("[GoldSrc.rs WASM Host] Paused plugin 'a.wasm'\n".to_string()));
    assert_eq!(t.pause_plugin("A", false), Ok("[GoldSrc.rs WASM Host] Unpaused plugin 'a.wasm'\n".to_string()));
    assert_eq!(t.pause_plugin("b", true), Err("[GoldSrc.rs WASM Host] Plugin 'b' not found.\n".to_string()));
    assert!(!t.plugins[0].is_paused);
}

#[test]
fn pause_all_counts_and_sets_every_plugin() {
    let mut t: PluginTable<()> = PluginTable::new();
    t.plugins.push(plugin("a.wasm", "p/a.wasm"));
    t.plugins.push(plugin("b.wasm", "p/b.wasm"));
    assert_eq!(t.pause_all_plugins(true), "[GoldSrc.rs WASM Host] Paused all plugins (2)\n");
    assert!(t.plugins.iter().all(|p| p.is_paused));
    assert_eq!(t.pause_all_plugins(false), "[GoldSrc.rs WASM Host] Unpaused all plugins (2)\n");
    assert!(t.plugins.iter().all(|p| !p.is_paused));
}

#[test]
fn unload_by_query_takes_the_plugin_out() {
    let mut t: PluginTable<()> = PluginTable::new();
    t.plugins.push(plugin("a.wasm", "p/a.wasm"));
    t.plugins.push(plugin("b.wasm", "p/b.wasm"));
    let (p, msg) = t.unload_plugin_by_query("b").unwrap();
    assert_eq!(p.name, "b.wasm");
    assert_eq!(msg, "[GoldSrc.rs WASM Host] Unloaded plugin 'b.wasm'\n");
    assert_eq!(t.plugins.len(), 1);
    assert!(t.unload_plugin_by_query("b").is_err());
    let (all, msg) = t.unload_all_plugins();
    assert_eq!(all.len(), 1);
    assert_eq!(msg, "[GoldSrc.rs WASM Host] Unloaded all plugins (1)\n");
    assert!(t.plugins.is_empty());
}

#[test]
fn lookup_by_path() {
    let mut t: PluginTable<()> = PluginTable::new();
    t.plugins.push(plugin("a.wasm", "p/a.wasm"));
    t.plugins.push(plugin("b.wasm", "p/b.wasm"));
    assert_eq!(t.position_of_path("p/b.wasm"), Some(1));
    assert_eq!(t.position_of_path("p/c.wasm"), None);
}

#[test]
fn file_names_and_reports() {
    assert_eq!(plugin_file_name("admin"), "admin.wasm");
    assert_eq!(plugin_file_name("admin.wasm"), "admin.wasm");
    assert_eq!(reload_all_report(2, 3), "[GoldSrc.rs WASM Host] Reloaded 2/3 plugins\n");
}

#[test]
fn paused_records_are_kept_in_order() {
    let mut t: PluginTable<()> = PluginTable::new();
    t.plugins.push(plugin("a.wasm", "p/a.wasm"));
    t.plugins.push(plugin("b.wasm", "p/b.wasm"));
    t.plugins.push(plugin("c.wasm", "p/c.wasm"));
    t.pause_plugin("c", true).unwrap();
    t.pause_plugin("a", true).unwrap();
    let paused = paused_only(t.get_plugins_info());
    let names: Vec<&str> = paused.iter().map(|p| p.name.as_str()).collect();
    assert_eq!(names, vec!["a.wasm", "c.wasm"]);
    assert_eq!(paused[1].index, 3);
}

#[test]
fn bundles_group_by_name_prefix_in_name_order() {
    let mut t: PluginTable<()> = PluginTable::new();
    for name in ["zeta/one", "solo", "alpha/x", "zeta/two", "other", "alpha/y/z"] {
        t.plugins.push(plugin(name, name));
    }
    let info = t.get_plugins_info();
    assert!(has_bundles(&info));
    let layout = group_by_bundle(&info);
    assert_eq!(layout.roots, vec![1, 4]);
    assert_eq!(layout.bundles.len(), 2);
    assert_eq!(layout.bundles[0].0, "alpha");
    assert_eq!(layout.bundles[0].1, vec![2, 5]);
    assert_eq!(layout.bundles[1].0, "zeta");
    assert_eq!(layout.bundles[1].1, vec![0, 3]);
    assert_eq!(bundle_member_name("alpha/y/z"), "y/z");
    assert_eq!(bundle_member_name("solo"), "solo");
}

#[test]
fn flat_names_have_no_bundles() {
    let mut t: PluginTable<()> = PluginTable::new();
    t.plugins.push(plugin("a.wasm", "p/a.wasm"));
    let info = t.get_plugins_info();
    assert!(!has_bundles(&info));
    let layout = group_by_bundle(&info);
    assert_eq!(layout.roots, vec![0]);
    assert!(layout.bundles.is_empty());
}

#[test]
fn tree_view_lines() {
    assert_eq!(tree_header(3), "[GoldSrc.rs] WASM plugins (3 loaded):\n");
    assert_eq!(bundle_header("admin", 2), "  [admin/] (2 plugins)\n");
    assert_eq!(tree_branch(true), "└── ");
    assert_eq!(tree_branch(false), "├── ");
}
