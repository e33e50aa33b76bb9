use goldsrc::host_cli::ListOptions;
use goldsrc::plugin_host::list_output;
use goldsrc::mrs_cli::{
    mrs_info_report, mrs_list_line, mrs_status_report, print_mrs_help, route_mrs_command, MrsAction, MrsRoute,
};
use goldsrc::plugin_host::{list_row, member_row, PluginInfo};
use goldsrc::task::accept_reply;

fn args(v: &[&str]) -> Vec<String> {
    v.iter().map(|s| s.to_string()).collect()
}

fn info(name: &str, paused: bool, load: bool, frame: bool) -> PluginInfo {
    PluginInfo {
        index: 1,
        name: name.to_string(),
        path: "cstrike\\addons\\x.wasm".to_string(),
        is_paused: paused,
        has_on_load: load,
        has_on_unload: false,
        has_on_frame: frame,
    }
}

#[test]
fn mrs_routes_its_commands() {
    assert!(matches!(route_mrs_command(args(&["mrs"])), MrsRoute::Help));
    assert!(matches!(route_mrs_command(args(&["mrs", "-h"])), MrsRoute::Help));
    assert!(matches!(route_mrs_command(args(&["mrs", "bogus"])), MrsRoute::Help));
    assert!(matches!(route_mrs_command(args(&["mrs", "STATUS"])), MrsRoute::Status));
    assert!(matches!(route_mrs_command(args(&["mrs", "version"])), MrsRoute::Version));
    match route_mrs_command(args(&["mrs", "list", "-p", "2", "--size", "x", "--paused", "--flat", "-h"])) {
        MrsRoute::List(o) => {
            assert_eq!(o.page, 2);
            assert_eq!(o.size, Some(5));
            assert!(o.only_paused && !o.flat_view && !o.all);
        }
        _ => panic!("expected list"),
    }
    match route_mrs_command(args(&["mrs", "load"])) {
        MrsRoute::Usage(m) => assert_eq!(m, "Usage: mrs load <file1> [file2...]\n"),
        _ => panic!("expected usage"),
    }
    match route_mrs_command(args(&["mrs", "load", "a", "b"])) {
        MrsRoute::Load(n) => assert_eq!(n, vec!["a", "b"]),
        _ => panic!("expected load"),
    }
    assert!(matches!(route_mrs_command(args(&["mrs", "pause", "x", "--all"])), MrsRoute::All(MrsAction::Pause)));
    match route_mrs_command(args(&["mrs", "reload", "x"])) {
        MrsRoute::Each(MrsAction::Reload, n) => assert_eq!(n, vec!["x"]),
        _ => panic!("expected names"),
    }
    match route_mrs_command(args(&["mrs", "unpause"])) {
        MrsRoute::Usage(m) => assert_eq!(m, "Usage: mrs unpause <name|index...> or mrs unpause -a/--all\n"),
        _ => panic!("expected usage"),
    }
    match route_mrs_command(args(&["mrs", "info"])) {
        MrsRoute::Usage(m) => assert_eq!(m, "Usage: mrs info <name|index...>\n"),
        _ => panic!("expected usage"),
    }
}

#[test]
fn mrs_rows_and_reports() {
    assert_eq!(
        mrs_list_line(&info("admin", false, true, true)),
        "  [#1] admin                | Status: RUNNING | Exports: on_load, on_frame\n"
    );
    assert_eq!(
        mrs_list_line(&info("a_very_long_plugin_name_x", true, false, false)),
        "  [#1] a_very_long_plugin_name_x | Status: PAUSED  | Exports: none\n"
    );
    assert_eq!(
        mrs_info_report(&info("admin", true, true, false)),
        "--- Plugin Info: admin ---\n  Index:        #1\n  Path:         cstrike/addons/x.wasm\n  Status:       Paused\n  on_load:      true\n  on_unload:    false\n  on_frame:     false\n"
    );
    assert!(mrs_status_report("1.0", "g", "t", 2, 1).contains("  WASM Engine: wasmi (Pure Rust Interpreter)\n"));
    let mut h = String::new();
    print_mrs_help(&mut h);
    assert!(h.starts_with("--- GoldSrc.rs (meta-rs / mrs) Management CLI ---\n"));
    assert!(h.ends_with("  -a, --all                 Target all loaded plugins (for unload/reload/pause)\n"));
}

#[test]
fn replies_are_taken_until_empty_or_full() {
    let mut taken: Vec<u32> = vec![];
    assert!(accept_reply(&mut taken, Some(1), 3));
    assert!(!accept_reply(&mut taken, None, 3));
    assert_eq!(taken, vec![1]);
    assert!(accept_reply(&mut taken, Some(2), 3));
    assert!(!accept_reply(&mut taken, Some(3), 3));
    assert_eq!(taken, vec![1, 2, 3]);
}

#[test]
fn grs_list_rows_pad_name_and_status() {
    let mut p = info("admin.wasm", false, true, false);
    p.index = 3;
    assert_eq!(list_row(&p, 24), format!("  [#3] {:<24} | {:<7}\n", "admin.wasm", "Active"));
    p.is_paused = true;
    assert_eq!(list_row(&p, 16), "  [#3] admin.wasm       | Paused \n");
    let mut m = info("tools/votekick.wasm", false, false, false);
    m.index = 12;
    assert_eq!(member_row(&m, false), "    ├── [#12] votekick.wasm  | Active \n");
    assert_eq!(member_row(&m, true), "    └── [#12] votekick.wasm  | Active \n");
}

#[test]
fn grs_list_output_views() {
    let mk = |i: usize, n: &str, paused: bool| {
        let mut p = info(n, paused, false, false);
        p.index = i;
        p
    };
    let plugins = vec![mk(1, "admin.wasm", false), mk(2, "tools/kick.wasm", true), mk(3, "tools/ban.wasm", false)];
    let opts = ListOptions { page: 1, size: None, only_paused: false, all: false, flat_view: false };
    assert_eq!(
        list_output(plugins.clone(), &opts),
        vec![
            "[GoldSrc.rs] WASM plugins (3 loaded):\n".to_string(),
            "  [#1] admin.wasm       | Active \n".to_string(),
            "  [tools/] (2 plugins)\n".to_string(),
            "    ├── [#2] kick.wasm      | Paused \n".to_string(),
            "    └── [#3] ban.wasm       | Active \n".to_string(),
        ]
    );
    let flat = ListOptions { page: 2, size: Some(2), only_paused: false, all: false, flat_view: true };
    assert_eq!(
        list_output(plugins.clone(), &flat),
        vec![
            "[GoldSrc.rs] WASM plugins (3) [Page 2/2]:\n".to_string(),
            format!("  [#3] {:<24} | Active \n", "tools/ban.wasm"),
        ]
    );
    let paused = ListOptions { page: 1, size: None, only_paused: true, all: false, flat_view: false };
    assert_eq!(list_output(vec![mk(1, "a.wasm", false)], &paused), vec!["[GoldSrc.rs] WASM plugins (0):\n  (No plugins found)\n".to_string()]);
}
