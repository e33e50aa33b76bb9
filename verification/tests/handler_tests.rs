use goldsrc::handler_attrs::{action_id, parse_command_attr, parse_event_attr, parse_menu_action_attr, parse_system_attr};
use std::hash::{Hash, Hasher};

fn no_refined() -> Vec<String> {
    Vec::new()
}

#[test]
fn system_attribute_forms() {
    let d = parse_system_attr(r#""post_think""#, None, &no_refined(), 0).unwrap();
    assert_eq!((d.stage.as_str(), d.phase.as_str()), ("post_think", "execute"));
    assert!(d.before.is_empty() && d.after.is_empty());
    assert_eq!(d.target_ty_name, "");
    let d = parse_system_attr(r#"stage = "frame", phase = "validate", before = "a", after = ["b", 1, "c"]"#, None, &no_refined(), 2).unwrap();
    assert_eq!((d.stage.as_str(), d.phase.as_str()), ("frame", "validate"));
    assert_eq!(d.before, vec!["a"]);
    assert_eq!(d.after, vec!["b", "c"]);
    assert_eq!(d.inputs_len, 2);
    let d = parse_system_attr("", None, &no_refined(), 0).unwrap();
    assert_eq!((d.stage.as_str(), d.phase.as_str()), ("frame", "execute"));
    assert_eq!(parse_system_attr("stage = frame", None, &no_refined(), 0).err().unwrap(), "expected `,`");
    let d = parse_system_attr(r#"stage = "frame", order = 10"#, None, &no_refined(), 0).unwrap();
    assert_eq!(d.stage, "frame");
    assert_eq!(parse_system_attr("order = x", None, &no_refined(), 0).err().unwrap(), "expected `,`");
    assert_eq!(parse_system_attr("colour = 1", None, &no_refined(), 0).err().unwrap(), "expected `,`");
    assert_eq!(parse_system_attr("before", None, &no_refined(), 0).err().unwrap(), "expected `=`");
    assert!(parse_system_attr("stage = ", None, &no_refined(), 0).is_err());
}

#[test]
fn system_target_from_first_parameter() {
    let d = parse_system_attr("", Some("player : & mut Player"), &no_refined(), 1).unwrap();
    assert_eq!(d.target_ty_name, "Player");
    assert!(!d.takes_refined_directly && d.refined_specs.is_empty());
    let d = parse_system_attr("", Some("e : EntityId"), &no_refined(), 1).unwrap();
    assert_eq!(d.target_ty_name, "");
    let d = parse_system_attr("", Some("e : & mut Entity"), &no_refined(), 1).unwrap();
    assert_eq!(d.target_ty_name, "Entity");
    let d = parse_system_attr("", Some("r : Refined < Client , Alive >"), &no_refined(), 1).unwrap();
    assert_eq!(d.target_ty_name, "Client");
    assert!(d.takes_refined_directly);
    assert_eq!(d.refined_specs, vec!["Alive"]);
    let d = parse_system_attr("", Some("r : Refined < Alive >"), &no_refined(), 1).unwrap();
    assert_eq!(d.target_ty_name, "Player");
    assert_eq!(d.refined_specs, vec!["Alive"]);
    let d = parse_system_attr("", Some("p : & mut Player"), &vec!["Alive, Human".to_string(), "???".to_string()], 1).unwrap();
    assert_eq!(d.refined_specs, vec!["Alive", "Human"]);
    assert!(!d.takes_refined_directly);
}

#[test]
fn command_attribute_forms() {
    let c = parse_command_attr(Some(
        r#"name = "vip", description = "VIP menu", usage = "vip <page>", aliases = ["v", "/vip"], requires = ["vip_core"], capability = "admin""#,
    ))
    .unwrap();
    assert_eq!(c.name, "vip");
    assert_eq!(c.description, "VIP menu");
    assert_eq!(c.usage, "vip <page>");
    assert_eq!(c.aliases, vec!["v", "/vip"]);
    assert_eq!(c.requires, vec!["vip_core"]);
    assert_eq!(c.capability.as_deref(), Some("admin"));
    let c = parse_command_attr(Some(r#"name = "x", requires = "one""#)).unwrap();
    assert_eq!(c.requires, vec!["one"]);
    assert_eq!((c.description.as_str(), c.usage.as_str()), ("", ""));
    assert!(c.capability.is_none() && c.aliases.is_empty());
    assert_eq!(parse_command_attr(Some(r#"description = "x""#)).err().unwrap(), "missing 'name' parameter in #[command]");
    assert_eq!(parse_command_attr(None).err().unwrap(), "expected attribute arguments in parentheses: #[command(...)]");
    assert_eq!(parse_command_attr(Some(r#"name = "x", color = 1"#)).err().unwrap(), "unknown #[command] key 'color'");
    assert_eq!(parse_command_attr(Some(r#"name = "x", aliases = "y""#)).err().unwrap(), "expected `,`");
    assert_eq!(parse_command_attr(Some("name")).err().unwrap(), "expected `=`");
    let c = parse_command_attr(Some(r#""cmd_name""#)).unwrap();
    assert_eq!(c.name, "cmd_name");
    assert!(c.aliases.is_empty() && c.requires.is_empty() && c.capability.is_none());
}

#[test]
fn event_attribute_forms() {
    assert_eq!(parse_event_attr(r#""round_start""#, 1).unwrap().name.as_deref(), Some("round_start"));
    assert_eq!(parse_event_attr(r#"name = "x""#, 2).unwrap().name.as_deref(), Some("x"));
    assert_eq!(parse_event_attr("", 0).unwrap().name, None);
    assert_eq!(parse_event_attr(r#"name = "a", other = 1, name = "b""#, 0).unwrap().name.as_deref(), Some("a"));
    assert_eq!(
        parse_event_attr("x", 3).err().unwrap(),
        "handler for 'event' must take 0 or 1 or 2 arguments, but takes 3"
    );
}

fn expected_id(s: &str) -> u32 {
    let mut h = std::collections::hash_map::DefaultHasher::new();
    s.hash(&mut h);
    (h.finish() & 0x7FFF_FFFF) as u32
}

#[test]
fn menu_action_attribute_forms() {
    assert_eq!(action_id("buy_m4"), expected_id("buy_m4"));
    let m = parse_menu_action_attr("5", "on_buy", 1).unwrap();
    assert_eq!((m.id, m.action_name), (Some(5), None));
    let m = parse_menu_action_attr(r#"action = "buy_m4""#, "on_buy", 0).unwrap();
    assert_eq!((m.id, m.action_name.as_deref()), (Some(expected_id("buy_m4")), Some("buy_m4")));
    let m = parse_menu_action_attr("", "on_buy", 2).unwrap();
    assert_eq!((m.id, m.action_name.as_deref(), m.inputs_len), (Some(expected_id("on_buy")), Some("on_buy"), 2));
    let m = parse_menu_action_attr(r#"id = 7, name = "x""#, "m", 0).unwrap();
    assert_eq!((m.id, m.action_name), (Some(7), None));
    let m = parse_menu_action_attr(r#""sell""#, "m", 0).unwrap();
    assert_eq!(m.action_name.as_deref(), Some("sell"));
    assert_eq!(parse_menu_action_attr("id = x", "m", 0).err().unwrap(), "expected `,`");
    assert_eq!(parse_menu_action_attr("id", "m", 0).err().unwrap(), "expected `=`");
}
