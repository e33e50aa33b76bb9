use goldsrc::chat::{chat_final_text, chat_goes_on, chat_pipeline_outcome, ChatMessage};
use goldsrc::host_cli::CliArg;
use goldsrc::manifest::CommandDefInfo;
use goldsrc::plugin_cmds::{
    cmd_not_handled_message, cmds_report, command_query_matches, plan_cmd, plan_cmds, CmdAction, CmdsAction,
};
use goldsrc::plugin_info::PluginMetadata;

fn def(name: &str, description: &str, usage: &str, aliases: &[&str], capability: Option<&str>) -> CommandDefInfo {
    CommandDefInfo {
        name: name.into(),
        description: description.into(),
        usage: usage.into(),
        aliases: aliases.iter().map(|s| s.to_string()).collect(),
        capability: capability.map(|s| s.to_string()),
        requires: vec![],
    }
}

fn meta(name: &str, version: &str, description: &str, commands: &[&str], defs: Vec<CommandDefInfo>) -> PluginMetadata {
    PluginMetadata {
        name: name.into(),
        version: version.into(),
        author: String::new(),
        description: description.into(),
        license: String::new(),
        url: String::new(),
        systems: vec![],
        require: vec![],
        commands: commands.iter().map(|s| s.to_string()).collect(),
        command_defs: defs,
    }
}

fn plugins() -> Vec<Option<PluginMetadata>> {
    vec![
        Some(meta(
            "VIP",
            "2.0",
            "VIP system",
            &[],
            vec![
                def("vip", "Open VIP menu", "", &["v", "/vipmenu"], Some("vip")),
                def("buy", "", "buy <item>", &[], None),
            ],
        )),
        None,
        Some(meta("Legacy", "1.0", "", &["hello"], vec![])),
    ]
}

#[test]
fn cmds_lists_every_plugins_commands() {
    assert_eq!(
        cmds_report(&plugins(), None),
        "--- Registered Plugin Commands (3) ---\n\
         \n[VIP v2.0] - VIP system\n\
         \x20 * vip (aliases: v, /vipmenu)\n\
         \x20   Open VIP menu [requires: vip]\n\
         \x20 * buy <item>\n\
         \n[Legacy v1.0]\n\
         \x20 * hello\n"
    );
    assert_eq!(cmds_report(&vec![None], None), "--- Registered Plugin Commands (0) ---\n  (No commands registered)\n");
}

#[test]
fn cmds_looks_up_by_name_or_alias() {
    assert_eq!(
        cmds_report(&plugins(), Some("  /V ")),
        "--- Command: vip ---\n  Plugin:      VIP v2.0\n  Description: Open VIP menu\n  Usage:       vip\n  Aliases:     v, /vipmenu\n  Access:      vip\n\n"
    );
    assert_eq!(
        cmds_report(&plugins(), Some("BUY")),
        "--- Command: buy ---\n  Plugin:      VIP v2.0\n  Usage:       buy <item>\n  Access:      Public (None)\n\n"
    );
    assert_eq!(
        cmds_report(&plugins(), Some("HELLO")),
        "--- Command: HELLO ---\n  Plugin:      Legacy v1.0\n  Usage:       HELLO\n  Access:      Public (None)\n\n"
    );
    assert_eq!(
        cmds_report(&plugins(), Some("nope")),
        "[GoldSrc.rs] Command 'nope' not found in any active plugin.\nType 'grs cmds' to list all registered commands.\n"
    );
    assert!(command_query_matches("vip", &vec!["v".to_string()], "!V"));
    assert!(command_query_matches("/kick", &vec![], " KICK "));
    assert!(!command_query_matches("kick", &vec!["k".to_string()], "ki"));
}

#[test]
fn cmds_and_cmd_plans() {
    let v = |s: &str| CliArg::Value(s.to_string());
    assert!(matches!(plan_cmds(&vec![v("x"), CliArg::Short('h')], true), CmdsAction::Help));
    assert!(matches!(plan_cmds(&vec![v("x")], false), CmdsAction::NotInitialized));
    assert!(matches!(plan_cmds(&vec![v("x"), v("y")], true), CmdsAction::Query(q) if q == "x"));
    assert!(matches!(plan_cmds(&vec![], true), CmdsAction::ListAll));
    assert!(matches!(plan_cmd(&vec![]), CmdAction::Help));
    assert!(matches!(plan_cmd(&vec![v("vip"), CliArg::Long("help".into())]), CmdAction::Help));
    match plan_cmd(&vec![v("vip"), v("a"), CliArg::Short('q'), v("b")]) {
        CmdAction::Execute(n, a) => assert_eq!((n.as_str(), a.as_str()), ("vip", "a b")),
        _ => panic!("expected a command to run"),
    }
    assert_eq!(cmd_not_handled_message("vip"), "[GoldSrc.rs] Command 'vip' was not handled by any plugin.\n");
}

#[test]
fn chat_pipeline_decisions() {
    let mut m = ChatMessage::new(3, "hello", false);
    assert_eq!(chat_final_text(&m), "hello");
    assert!(chat_goes_on(true, &m));
    assert!(!chat_goes_on(false, &m));
    m.prefix = Some("[VIP] ".to_string());
    m.formatted_text = "hi".to_string();
    assert_eq!(chat_final_text(&m), "[VIP] hi");
    assert_eq!(chat_pipeline_outcome(&vec![(true, false), (true, false)], &m), Some("[VIP] hi".to_string()));
    assert_eq!(chat_pipeline_outcome(&vec![(true, false), (true, true)], &m), None);
    assert_eq!(chat_pipeline_outcome(&vec![], &m), Some("[VIP] hi".to_string()));
    m.is_blocked = true;
    assert!(!chat_goes_on(true, &m));
}
