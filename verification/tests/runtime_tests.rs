use goldsrc::hooks::{
    client_command_handled,    join_command_args, unhandled_command_message,
    menu_slot, negotiate_interface_version, pack_two_i32, plan_client_command, player_event_effects,
    player_index_payload, ClientCommandPlan, HookResult,
};
use goldsrc::logging::{
    civil_time, console_line, date_and_time, file_line, log_file_path, plan_emit, should_emit, LogConfig,
    LogLevel, LoggerState, LogTarget,
};
use goldsrc::paths::BackendType;
use goldsrc::print::{escape_server_print, sanitize_client_print, PrintQueue};
use goldsrc::plugins_config::{PluginDebugSetting, PluginEntry, PluginGroup, PluginLogLevel, PluginsConfig};

#[test]
fn hook_results_and_payloads() {
    assert!(HookResult::Supercede(3).is_superceded());
    assert!(HookResult::<()>::Break.is_superceded());
    assert!(!HookResult::<()>::Handled.is_superceded());
    assert_eq!(pack_two_i32(1, -1), [1, 0, 0, 0, 255, 255, 255, 255]);
    assert_eq!(player_index_payload(258), [2, 1, 0, 0]);
    assert_eq!(negotiate_interface_version(Some(140), 140, true), (true, None));
    assert_eq!(negotiate_interface_version(Some(1), 140, false), (true, Some(140)));
    assert_eq!(negotiate_interface_version(None, 140, true), (false, None));
    assert_eq!(player_event_effects("client_disconnect"), (true, true));
    assert_eq!(player_event_effects("client_connect"), (false, true));
    assert_eq!(player_event_effects("spawn"), (false, false));
}

#[test]
fn client_command_plans() {
    assert_eq!(menu_slot(" 3 "), 3);
    assert_eq!(menu_slot("0"), 10);
    assert_eq!(menu_slot("x"), 10);
    assert_eq!(menu_slot("300"), 10);
    match plan_client_command(7, "MenuSelect", "2") {
        ClientCommandPlan::MenuSelect { slot, payload } => {
            assert_eq!(slot, 2);
            assert_eq!(payload, [7, 0, 0, 0, 2, 0, 0, 0]);
        }
        _ => panic!("expected a menu selection"),
    }
    match plan_client_command(1, "say_team", "  \"/vip   gold  now\"  ") {
        ClientCommandPlan::Chat { text, trigger, rest_args, team_only } => {
            assert_eq!(text, "/vip   gold  now");
            assert_eq!(trigger, Some(("vip".to_string(), "/vip".to_string())));
            assert_eq!(rest_args, "gold now");
            assert!(team_only);
        }
        _ => panic!("expected chat"),
    }
    match plan_client_command(1, "say", "   ") {
        ClientCommandPlan::Chat { trigger, team_only, .. } => {
            assert_eq!(trigger, None);
            assert!(!team_only);
        }
        _ => panic!("expected chat"),
    }
    assert!(matches!(plan_client_command(1, "buy", "ak47"), ClientCommandPlan::Console));
}

#[test]
fn log_levels_targets_and_lines() {
    let mut cfg = LogConfig::default();
    assert!(should_emit(&cfg, LogLevel::Info, LogTarget::Wasm));
    assert!(!should_emit(&cfg, LogLevel::Debug, LogTarget::Core));
    cfg.targets = vec![LogTarget::Plugin];
    assert!(!should_emit(&cfg, LogLevel::Error, LogTarget::Core));
    assert!(should_emit(&cfg, LogLevel::Error, LogTarget::Plugin));
    assert_eq!(LogTarget::from_target_str("wasm"), LogTarget::Wasm);
    assert_eq!(LogTarget::from_target_str("goldsrc"), LogTarget::Core);
    assert_eq!(
        file_line("2026-08-28 01:42:00", LogLevel::Info, LogTarget::Core, "hi"),
        "[2026-08-28 01:42:00][INFO ][core] hi\n"
    );
    assert_eq!(
        console_line(LogLevel::Warn, LogTarget::Plugin, "x"),
        "[\x1b[33mWARN \x1b[0m][\x1b[35mplugin\x1b[0m] x\n"
    );
    assert_eq!(log_file_path(BackendType::Standalone, "2026-01-02"), "cstrike/goldsrc/logs/2026-01-02.log");
}

#[test]
fn calendar_dates_from_unix_seconds() {
    assert_eq!(date_and_time(0), ("1970-01-01".to_string(), "1970-01-01 00:00:00".to_string()));
    assert_eq!(date_and_time(951782400).0, "2000-02-29");
    assert_eq!(date_and_time(1787881320), ("2026-08-28".to_string(), "2026-08-28 01:42:00".to_string()));
    let t = civil_time(4102444799);
    assert_eq!((t.year, t.month, t.day, t.hour, t.minute, t.second), (2099, 12, 31, 23, 59, 59));
}

#[test]
fn emit_plan_rotates_files_by_day() {
    let cfg = LogConfig::default();
    let mut state = LoggerState { current_date: String::new(), files_open: false };
    let plan = plan_emit(&cfg, &mut state, "logs", "2026-01-01", "2026-01-01 10:00:00", LogLevel::Error, LogTarget::Core, "boom", true);
    assert_eq!(plan.reopen, Some(("logs/2026-01-01.log".to_string(), "logs/error_2026-01-01.log".to_string())));
    assert_eq!(plan.general_line.as_deref(), Some("[2026-01-01 10:00:00][ERROR][core] boom\n"));
    assert_eq!(plan.error_line, plan.general_line);
    assert!(plan.console_line.is_some());
    let again = plan_emit(&cfg, &mut state, "logs", "2026-01-01", "t", LogLevel::Info, LogTarget::Core, "ok", false);
    assert_eq!(again.reopen, None);
    assert_eq!(again.error_line, None);
    assert_eq!(again.console_line, None);
    let dropped = plan_emit(&cfg, &mut state, "logs", "2026-01-02", "t", LogLevel::Trace, LogTarget::Core, "no", true);
    assert!(dropped.general_line.is_none() && dropped.reopen.is_none());
    assert_eq!(state.current_date, "2026-01-01");
}

#[test]
fn server_print_escaping_and_queue() {
    assert_eq!(escape_server_print("50% {x}\r\nok\0"), "50%% {{x}}ok\n");
    let long = "é".repeat(1500);
    let escaped = escape_server_print(&long);
    assert_eq!(escaped, format!("{}\n", "é".repeat(1024)));
    assert_eq!(escape_server_print(&"é".repeat(600)).chars().count(), 601);
    assert_eq!(sanitize_client_print(b"a%b\0c"), b"a%%bc\0".to_vec());
    let mut q = PrintQueue::new();
    q.push("first {1}");
    q.push("second");
    assert_eq!(q.drain(), vec!["first {{1}}\n".to_string(), "second\n".to_string()]);
    assert!(q.drain().is_empty());
}

#[test]
fn plugins_config_decisions() {
    let cfg = PluginsConfig {
        plugins: vec![
            PluginEntry { name: "admin_system".to_string(), enabled: true, priority: 150, debug: Some(PluginDebugSetting::Simple(true)) },
            PluginEntry { name: "off".to_string(), enabled: false, priority: 100, debug: None },
        ],
        groups: vec![(
            "fun_mods".to_string(),
            PluginGroup { enabled: false, plugins: vec!["gungame".to_string(), "paintball".to_string()] },
        )],
        rules: vec![],
    };
    assert!(cfg.is_plugin_enabled("admin_system"));
    assert!(!cfg.is_plugin_enabled("gungame"));
    assert!(!cfg.is_plugin_enabled("off"));
    assert!(cfg.is_plugin_enabled("unlisted_plugin"));
    let d = cfg.get_debug_config("admin_system");
    assert_eq!(d.level, PluginLogLevel::Debug);
    assert!(d.profile);
    let d2 = cfg.get_debug_config("off");
    assert_eq!(d2.level, PluginLogLevel::Info);
    assert_eq!(d2.epoch_limit, 100);
}

#[test]
fn server_command_arguments_are_joined_by_single_spaces() {
    let v = |a: &[&str]| a.iter().map(|s| s.to_string()).collect::<Vec<String>>();
    assert_eq!(join_command_args(&v(&["kick", "player one"])), "kick player one");
    assert_eq!(join_command_args(&v(&[])), "");
    // No space goes before the first non-empty argument.
    assert_eq!(join_command_args(&v(&["", "x", "", "y"])), "x  y");
    assert_eq!(
        unhandled_command_message("amx_kick"),
        "[GoldSrc.rs] Command 'amx_kick' was not handled by any active plugin.\n"
    );
}

#[test]
fn server_print_cut_keeps_doubled_characters_whole() {
    let msg = format!("{}{{", "a".repeat(1023));
    assert_eq!(escape_server_print(&msg), format!("{}\n", "a".repeat(1023)));
    let msg = format!("{}%", "a".repeat(1022));
    assert_eq!(escape_server_print(&msg), format!("{}%%\n", "a".repeat(1022)));
}

#[test]
fn level_tags_are_five_characters() {
    for l in [LogLevel::Trace, LogLevel::Debug, LogLevel::Info, LogLevel::Warn, LogLevel::Error] {
        assert_eq!(l.as_str().len(), 5);
    }
    assert_eq!(LogLevel::Info.as_str(), "INFO ");
}

#[test]
fn menuselect_counts_as_handled_only_when_its_event_reached_the_plugins() {
    let plan = plan_client_command(3, "menuselect", "2");
    assert!(!client_command_handled(&plan, false, false, false, false, false, false));
    assert!(client_command_handled(&plan, true, true, false, false, false, false));
    let chat = plan_client_command(3, "say", "/vip now");
    assert!(client_command_handled(&chat, true, false, false, true, false, false));
    assert!(!client_command_handled(&chat, false, false, true, true, true, true));
    let console = plan_client_command(3, "vipmenu", "");
    assert!(client_command_handled(&console, true, false, false, false, false, true));
    assert!(!client_command_handled(&console, true, false, false, false, true, false));
}
