use goldsrc::host_cli::InfoAction;
use goldsrc::plugin_info::{info_report, plugin_not_found_message, PluginDefaults, PluginDetails, PluginMetadata, PluginStatus};
use goldsrc::cli::{builtin_commands, find_command_spec, print_command_help, print_host_help};
use goldsrc::host_cli::{
    dispatch_host_command, list_header, list_page, plan_status, plan_targets, remaining_args, status_report, CliArg,
    HostRoute, ListOptions, StatusAction, TargetAction,
};

#[test]
fn cli_test_find_command_spec() {
    assert!(find_command_spec("list").is_some());
    assert!(find_command_spec("ls").is_some());
    assert!(find_command_spec("ps").is_some());
    assert!(find_command_spec("reload").is_some());
    assert!(find_command_spec("nonexistent").is_none());
}

#[test]
fn cli_test_print_command_help() {
    let spec = find_command_spec("list").unwrap();
    let mut output = String::new();
    print_command_help(&spec, &mut output);
    assert!(output.contains("grs list"));
    assert!(output.contains("--flat"));
    assert!(output.contains("--paused"));
}

#[test]
fn cli_test_print_global_help() {
    let mut output = String::new();
    print_host_help(&mut output);
    assert!(output.contains("GoldSrc.rs Management CLI"));
    assert!(output.contains("Plugin Lifecycle:"));
    assert!(output.contains("Execution Control:"));
    assert!(output.contains("Inspection & Debugging:"));
    assert!(output.contains("System:"));
}

#[test]
fn mod_test_find_command_spec() {
    assert!(find_command_spec("list").is_some());
    assert!(find_command_spec("ls").is_some());
    assert!(find_command_spec("ps").is_some());
    assert!(find_command_spec("reload").is_some());
    assert!(find_command_spec("nonexistent").is_none());
}

#[test]
fn mod_test_print_command_help() {
    let spec = find_command_spec("list").unwrap();
    let mut output = String::new();
    print_command_help(&spec, &mut output);
    assert!(output.contains("grs list"));
    assert!(output.contains("--flat"));
    assert!(output.contains("--paused"));
}

#[test]
fn mod_test_print_global_help() {
    let mut output = String::new();
    print_host_help(&mut output);
    assert!(output.contains("GoldSrc.rs Management CLI"));
    assert!(output.contains("Plugin Lifecycle:"));
    assert!(output.contains("Execution Control:"));
    assert!(output.contains("Inspection & Debugging:"));
    assert!(output.contains("System:"));
}

#[test]
fn find_command_spec_ignores_case_and_resolves_aliases() {
    assert_eq!(find_command_spec("LIST").unwrap().name, "list");
    assert_eq!(find_command_spec("resume").unwrap().name, "unpause");
    assert_eq!(find_command_spec("?").unwrap().name, "help");
    assert_eq!(find_command_spec("Ver").unwrap().name, "version");
    assert!(find_command_spec("").is_none());
}

#[test]
fn command_help_exact_text_for_status() {
    let spec = find_command_spec("status").unwrap();
    let mut output = String::from(">");
    print_command_help(&spec, &mut output);
    assert_eq!(
        output,
        ">--- GoldSrc.rs Help: grs status ---\n\
Show host runtime stats (active plugins, hot-reload watchers, engine)\n\n\
Usage:\n  grs status\n\n\
Options:\n  -h, --help                Show this help message\n\n\
Examples:\n  grs status\n\n"
    );
}

#[test]
fn command_help_pads_option_flags_to_24_columns() {
    let spec = find_command_spec("unload").unwrap();
    let mut output = String::new();
    print_command_help(&spec, &mut output);
    assert!(output.contains("  -a, --all                 Unload all currently loaded plugins\n"));
    assert!(!output.contains("Aliases:"));
}

#[test]
fn global_help_lists_each_command_once_with_aliases() {
    let mut output = String::new();
    print_host_help(&mut output);
    assert!(output.contains("    list                     List loaded WASM plugins in hierarchical tree view or flat list (ls, ps)\n"));
    assert!(output.starts_with("--- GoldSrc.rs Management CLI ---\n"));
    assert!(output.ends_with("for detailed option syntax.\n"));
    for spec in builtin_commands() {
        let line = format!("    {:<24} {}", spec.name, spec.summary);
        assert_eq!(output.matches(&line).count(), 1);
    }
    assert_eq!(builtin_commands().len(), 12);
}

fn args(v: &[&str]) -> Vec<String> {
    v.iter().map(|s| s.to_string()).collect()
}

#[test]
fn host_command_routing() {
    assert!(matches!(dispatch_host_command(args(&["grs", "--help"])), HostRoute::GlobalHelp));
    assert!(matches!(dispatch_host_command(args(&["grs"])), HostRoute::GlobalHelp));
    match dispatch_host_command(args(&["grs", "help", "reload"])) {
        HostRoute::CommandHelp(spec) => assert_eq!(spec.name, "reload"),
        _ => panic!("expected command help"),
    }
    match dispatch_host_command(args(&["grs", "help", "nope"])) {
        HostRoute::Message(m) => assert_eq!(m, "[GoldSrc.rs] Unknown command 'nope'. Run 'grs help' for command list.\n"),
        _ => panic!("expected a message"),
    }
    match dispatch_host_command(args(&["grs", "Bogus"])) {
        HostRoute::Message(m) => assert_eq!(m, "[GoldSrc.rs] Unknown command 'bogus'. Run 'grs help' for available commands.\n"),
        _ => panic!("expected a message"),
    }
    match dispatch_host_command(args(&["grs", "LS", "-p", "2", "--flat", "--size=x", "--paused"])) {
        HostRoute::List(o) => assert_eq!(
            o,
            ListOptions { page: 2, size: Some(5), only_paused: true, all: false, flat_view: true }
        ),
        _ => panic!("expected list"),
    }
    match dispatch_host_command(args(&["grs", "list", "-a", "-h"])) {
        HostRoute::CommandHelp(spec) => assert_eq!(spec.name, "list"),
        _ => panic!("expected list help"),
    }
    match dispatch_host_command(args(&["grs", "reload", "--all"])) {
        HostRoute::Run(spec, _) => assert_eq!(spec.name, "reload"),
        _ => panic!("expected run"),
    }
}

fn routed_help(args: &[&str]) -> String {
    let mut buffer = String::new();
    match dispatch_host_command(args.iter().map(|a| a.to_string()).collect()) {
        HostRoute::CommandHelp(spec) => print_command_help(&spec, &mut buffer),
        HostRoute::GlobalHelp => print_host_help(&mut buffer),
        HostRoute::Message(m) => buffer.push_str(&m),
        _ => {}
    }
    buffer
}

#[test]
fn cli_test_dispatch_command_help() {
    let buffer = routed_help(&["grs", "list", "--help"]);
    assert!(buffer.contains("--- GoldSrc.rs Help: grs list ---"));
    assert!(buffer.contains("-p, --page <N>"));
    assert!(buffer.contains("Examples:"));

    let buffer2 = routed_help(&["grs", "help", "reload"]);
    assert!(buffer2.contains("--- GoldSrc.rs Help: grs reload ---"));
    assert!(buffer2.contains("-a, --all"));
}

#[test]
fn mod_test_dispatch_command_help() {
    let output = routed_help(&["grs", "--help"]);
    assert!(output.contains("GoldSrc.rs Management CLI"));

    let output_cmd = routed_help(&["grs", "help", "reload"]);
    assert!(output_cmd.contains("grs reload"));
}

fn list_opts(page: usize, size: Option<usize>, all: bool) -> ListOptions {
    ListOptions { page, size, only_paused: false, all, flat_view: false }
}

#[test]
fn list_pages_split_the_plugins() {
    let p = list_page(12, &list_opts(1, None, false));
    assert_eq!((p.shown_page, p.shown_pages, p.start, p.end), (1, 3, 0, 5));
    let p = list_page(12, &list_opts(3, None, false));
    assert_eq!((p.shown_page, p.shown_pages, p.start, p.end), (3, 3, 10, 12));
    let p = list_page(12, &list_opts(4, None, false));
    assert_eq!((p.shown_page, p.shown_pages, p.start, p.end), (4, 3, 12, 12));
    let p = list_page(12, &list_opts(2, None, true));
    assert_eq!((p.shown_page, p.shown_pages, p.start, p.end), (2, 1, 12, 12));
    let p = list_page(12, &list_opts(1, Some(4), false));
    assert_eq!((p.shown_page, p.shown_pages, p.start, p.end), (1, 3, 0, 4));
    let p = list_page(1, &list_opts(0, Some(0), false));
    assert_eq!((p.shown_page, p.shown_pages, p.start, p.end), (1, 1, 0, 0));
    assert_eq!(list_header(12, &list_page(12, &list_opts(2, None, false))), "[GoldSrc.rs] WASM plugins (12) [Page 2/3]:\n");
}

fn tokens_of(v: &[&str]) -> Vec<CliArg> {
    match dispatch_host_command(args(v)) {
        HostRoute::Run(_, mut parser) => remaining_args(&mut parser),
        _ => panic!("expected a command to run"),
    }
}

#[test]
fn remaining_args_reads_options_and_values_in_order() {
    let t = tokens_of(&["grs", "unload", "-a", "first", "--help", "second"]);
    assert_eq!(
        t,
        vec![
            CliArg::Short('a'),
            CliArg::Value("first".to_string()),
            CliArg::Long("help".to_string()),
            CliArg::Value("second".to_string()),
        ]
    );
}

#[test]
fn target_commands_follow_help_all_and_names() {
    let names = |a: TargetAction| match a {
        TargetAction::Each(n) => n,
        _ => panic!("expected names"),
    };
    assert!(matches!(plan_targets(&tokens_of(&["grs", "pause", "x", "-h"]), false, true), TargetAction::Help));
    assert!(matches!(plan_targets(&tokens_of(&["grs", "pause", "--all", "x"]), false, true), TargetAction::All));
    assert!(matches!(plan_targets(&tokens_of(&["grs", "pause"]), false, true), TargetAction::Help));
    assert!(matches!(plan_targets(&tokens_of(&["grs", "pause"]), false, false), TargetAction::NotInitialized));
    assert_eq!(names(plan_targets(&tokens_of(&["grs", "reload", "a", "b"]), false, true)), vec!["a", "b"]);
    // `load` knows no `--all`, and wants a name before it asks for the host.
    assert!(matches!(plan_targets(&tokens_of(&["grs", "load"]), true, false), TargetAction::Help));
    assert!(matches!(plan_targets(&tokens_of(&["grs", "load", "x"]), true, false), TargetAction::NotInitialized));
    assert_eq!(names(plan_targets(&tokens_of(&["grs", "load", "-a", "x"]), true, true)), vec!["x"]);
}

#[test]
fn status_command_and_report() {
    assert!(matches!(plan_status(&tokens_of(&["grs", "status", "--help"]), true), StatusAction::Help));
    assert!(matches!(plan_status(&tokens_of(&["grs", "status"]), false), StatusAction::NotInitialized));
    assert!(matches!(plan_status(&tokens_of(&["grs", "status"]), true), StatusAction::Report));
    assert_eq!(
        status_report("0.3.1", "abc123", "x86_64-linux", 2, 10),
        "--- GoldSrc.rs Host Engine Status ---\n  Version:    v0.3.1 (git: abc123)\n  Target:     x86_64-linux\n  WASM Engine: wasmtime (Component Model)\n  Plugins:    2 loaded\n  Watchers:   10 active directory watcher(s)\n"
    );
}

fn info_plan(v: &[&str], initialized: bool) -> InfoAction {
    match dispatch_host_command(args(v)) {
        HostRoute::Run(spec, mut parser) => {
            assert_eq!(spec.name, "info");
            goldsrc::host_cli::plan_info(&mut parser, initialized)
        }
        _ => panic!("expected info to run"),
    }
}

#[test]
fn info_reads_names_and_the_lowercased_field() {
    assert!(matches!(info_plan(&["grs", "info"], true), InfoAction::Help));
    assert!(matches!(info_plan(&["grs", "info", "a", "--help"], true), InfoAction::Help));
    assert!(matches!(info_plan(&["grs", "info", "a"], false), InfoAction::NotInitialized));
    match info_plan(&["grs", "info", "a", "-f", "VERSION", "b"], true) {
        InfoAction::Show(names, field) => {
            assert_eq!(names, vec!["a", "b"]);
            assert_eq!(field.as_deref(), Some("version"));
        }
        _ => panic!("expected names"),
    }
    // `--field=x` gives its value through `Parser::value`.
    match info_plan(&["grs", "show", "--field=Path", "x"], true) {
        InfoAction::Show(names, field) => {
            assert_eq!(names, vec!["x"]);
            assert_eq!(field.as_deref(), Some("path"));
        }
        _ => panic!("expected names"),
    }
}

#[test]
fn info_reports_whole_or_one_field() {
    let defs = PluginDefaults {
        version: "1.0.0".into(),
        author: "Unknown".into(),
        description: "-".into(),
        license: "Not Stated".into(),
        url: "N/A".into(),
        systems: "none".into(),
        require: "none".into(),
    };
    let d = PluginDetails {
        index: 2,
        name: "vip".into(),
        path: "plugins\\./vip.wasm".into(),
        status: PluginStatus::Paused(Some("reactive rule".into())),
        metadata: None,
    };
    assert_eq!(
        info_report(&d, &defs, None),
        "--- Plugin Info: vip ---\n  Index:        #2\n  Path:         \"plugins/vip.wasm\"\n  Status:       Paused (reactive rule)\n  Meta Name:    vip\n  Version:      1.0.0\n  Author:       Unknown\n  Description:  -\n  License:      Not Stated\n  URL:          N/A\n  Systems:      none\n  Require:      none\n"
    );
    assert_eq!(info_report(&d, &defs, Some("index")), "2\n");
    assert_eq!(info_report(&d, &defs, Some("status")), "Paused (reactive rule)\n");
    assert_eq!(
        info_report(&d, &defs, Some("colour")),
        "[GoldSrc.rs] Unknown field 'colour'. Supported: name, version, author, description, license, url, path, status, systems, require, index.\n"
    );
    let m = PluginDetails {
        metadata: Some(PluginMetadata {
            name: "VIP".into(),
            version: "2.0".into(),
            author: "Me".into(),
            description: "d".into(),
            license: "MIT".into(),
            url: "u".into(),
            systems: vec!["a".into(), "b".into()],
            require: vec![],
            commands: vec![],
            command_defs: vec![],
        }),
        status: PluginStatus::Running,
        ..d
    };
    assert_eq!(info_report(&m, &defs, Some("systems")), "a, b\n");
    assert_eq!(info_report(&m, &defs, Some("require")), "none\n");
    assert_eq!(info_report(&m, &defs, Some("name")), "VIP\n");
    assert_eq!(plugin_not_found_message("x"), "[GoldSrc.rs] Plugin 'x' not found.\n");
}

#[test]
fn version_line_names_build() {
    assert_eq!(
        goldsrc::host_cli::version_line("0.11.0", "test", "i686-pc-windows-msvc"),
        "[GoldSrc.rs] meta-rs v0.11.0 (git: test, target: i686-pc-windows-msvc)\n"
    );
}

#[test]
fn list_help_routes_to_the_help_of_list() {
    match dispatch_host_command(args(&["grs", "list", "--help"])) {
        HostRoute::CommandHelp(spec) => {
            let mut buf = String::new();
            print_command_help(&spec, &mut buf);
            assert!(buf.contains("--- GoldSrc.rs Help: grs list ---"));
            assert!(buf.contains("-p, --page <N>"));
        }
        _ => panic!("expected the help of list"),
    }
    match dispatch_host_command(args(&["grs", "list", "--page=3", "-s", "2"])) {
        HostRoute::List(o) => {
            assert_eq!(o.page, 3);
            assert_eq!(o.size, Some(2));
        }
        _ => panic!("expected list options"),
    }
}
