use goldsrc::placeholder_registry::{
    builtin_metadata, resolve_target, PlaceholderCall, PlaceholderMetadata, PlaceholderRegistry,
};

fn call(domain: Option<&str>, ident: &str) -> PlaceholderCall {
    PlaceholderCall { domain: domain.map(|d| d.to_string()), ident: ident.to_string() }
}

fn registry() -> PlaceholderRegistry<&'static str> {
    PlaceholderRegistry::new(vec!["name", "ip", "authid", "health", "armor"])
}

fn meta(name: &str, aliases: &[&str]) -> PlaceholderMetadata {
    PlaceholderMetadata {
        name: name.to_string(),
        description: String::new(),
        usage: String::new(),
        aliases: aliases.iter().map(|a| a.to_string()).collect(),
        capability: None,
    }
}

#[test]
fn builtins_resolve_by_name_alias_and_qualified_call() {
    let reg = registry();
    assert_eq!(reg.resolve_call(&call(None, "name")).unwrap().handler, "name");
    assert_eq!(reg.resolve_call(&call(None, "NAME")).unwrap().handler, "name");
    assert_eq!(reg.resolve_call(&call(None, "hp")).unwrap().handler, "health");
    assert_eq!(reg.resolve_call(&call(None, "steamid")).unwrap().handler, "authid");
    assert_eq!(reg.resolve_call(&call(None, "id")).unwrap().handler, "authid");
    assert_eq!(reg.resolve_call(&call(None, "ap")).unwrap().handler, "armor");
    assert_eq!(reg.resolve_call(&call(Some("engine"), "health")).unwrap().handler, "health");
    assert_eq!(reg.resolve_call(&call(Some("ENGINE"), "Ip")).unwrap().handler, "ip");
    assert_eq!(reg.resolve_call(&call(None, "ip")).unwrap().plugin_name, "engine");
}

#[test]
fn unresolvable_calls_report_why() {
    let reg = registry();
    assert_eq!(
        reg.resolve_call(&call(None, "rank")).err(),
        Some("Unknown placeholder '{rank}'".to_string())
    );
    assert_eq!(
        reg.resolve_call(&call(Some("stats"), "rank")).err(),
        Some("Placeholder '{stats: rank}' not found in plugin 'stats'".to_string())
    );
    // Aliases are not entry keys: a qualified call needs the name itself.
    assert!(reg.resolve_call(&call(Some("engine"), "hp")).is_err());
}

#[test]
fn a_second_claim_makes_a_short_name_ambiguous() {
    let mut reg = registry();
    reg.register("Stats", meta("rank", &["hp"]), "rank");
    assert_eq!(reg.resolve_call(&call(None, "rank")).unwrap().handler, "rank");
    assert_eq!(reg.resolve_call(&call(Some("stats"), "RANK")).unwrap().handler, "rank");
    assert_eq!(
        reg.resolve_call(&call(None, "hp")).err(),
        Some(
            "Ambiguous placeholder '{hp}' registered by multiple plugins: [\"engine\", \"stats\"]. Use fully-qualified format '{engine: ...}'"
                .to_string()
        )
    );
    assert_eq!(reg.resolve_call(&call(Some("engine"), "health")).unwrap().handler, "health");
}

#[test]
fn a_registration_replaces_the_same_key() {
    let mut reg = registry();
    reg.register("ENGINE", meta("Name", &[]), "custom");
    assert_eq!(reg.resolve_call(&call(Some("engine"), "name")).unwrap().handler, "custom");
    assert_eq!(reg.resolve_call(&call(Some("engine"), "name")).unwrap().plugin_name, "ENGINE");
    // `name` is now claimed twice by `engine`.
    assert!(reg.resolve_call(&call(None, "name")).is_err());
    assert_eq!(reg.entries.len(), 5);
}

#[test]
fn builtin_descriptions() {
    let ms = builtin_metadata();
    let names: Vec<&str> = ms.iter().map(|m| m.name.as_str()).collect();
    assert_eq!(names, vec!["name", "ip", "authid", "health", "armor"]);
    assert_eq!(ms[2].aliases, vec!["id".to_string(), "steamid".to_string()]);
    assert_eq!(ms[0].usage, "{name} or {name(target=1..32)}");
    assert_eq!(ms[3].description, "Returns player current health points");
}

#[test]
fn target_parameter_selects_a_player_slot() {
    assert_eq!(resolve_target(5, Some("3")), 3);
    assert_eq!(resolve_target(5, Some("+7")), 7);
    assert_eq!(resolve_target(5, Some("32")), 32);
    assert_eq!(resolve_target(5, Some("33")), 5);
    assert_eq!(resolve_target(5, Some("0")), 5);
    assert_eq!(resolve_target(5, Some("-1")), 5);
    assert_eq!(resolve_target(5, Some("abc")), 5);
    assert_eq!(resolve_target(5, None), 5);
}
