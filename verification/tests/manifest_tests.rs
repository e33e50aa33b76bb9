use goldsrc::plugin_attr::{parse_plugin_and_helpers, parse_plugin_attr};
use goldsrc::handler_attrs::apply_helper_attrs;
use goldsrc::manifest::{
    add_plugin_list, apply_plugin_kv, generate_manifest_toml, plugin_attr_from_package, toml_escape, CommandDefInfo,
    PluginAttr,
};

#[test]
fn toml_escape_quotes_and_slashes() {
    assert_eq!(toml_escape("a\"b\\c"), "a\\\"b\\\\c");
    assert_eq!(toml_escape("line\nbreak"), "line\\nbreak");
}

fn attr() -> PluginAttr {
    PluginAttr {
        name: "vip".to_string(),
        version: "2.0".to_string(),
        author: "Me \"X\"".to_string(),
        description: "Test Desc".to_string(),
        url: "https://github.com".to_string(),
        license: "MIT".to_string(),
        bundle: None,
        requires: vec![],
        permissions: vec![],
        load_time: "anytime".to_string(),
        unload_time: "anytime".to_string(),
    }
}

#[test]
fn manifest_without_commands() {
    let text = generate_manifest_toml(&attr(), &[]);
    assert_eq!(
        text,
        "[plugin]\nname = \"vip\"\nversion = \"2.0\"\nauthor = \"Me \\\"X\\\"\"\ndescription = \"Test Desc\"\nurl = \"https://github.com\"\nlicense = \"MIT\"\n[lifecycle]\nload = \"anytime\"\nunload = \"anytime\"\n"
    );
}

#[test]
fn manifest_with_bundle_lists_and_commands() {
    let mut a = attr();
    a.bundle = Some("pack".to_string());
    a.requires = vec!["plugin:b@>=1".to_string(), "plugin:c@1.0".to_string()];
    a.permissions = vec!["fs:read".to_string()];
    let cmds = vec![
        CommandDefInfo {
            name: "vip".to_string(),
            description: "".to_string(),
            usage: "vip <id>".to_string(),
            aliases: vec!["v".to_string()],
            capability: Some("admin".to_string()),
            requires: vec![],
        },
        CommandDefInfo {
            name: "x".to_string(),
            description: "d".to_string(),
            usage: "".to_string(),
            aliases: vec![],
            capability: None,
            requires: vec!["r".to_string()],
        },
    ];
    let text = generate_manifest_toml(&a, &cmds);
    assert!(text.contains("license = \"MIT\"\nbundle = \"pack\"\nrequires = [\"plugin:b@>=1\", \"plugin:c@1.0\"]\npermissions = [\"fs:read\"]\n[lifecycle]\n"));
    assert!(text.ends_with(
        "unload = \"anytime\"\n\n[[commands]]\nname = \"vip\"\nusage = \"vip <id>\"\naliases = [\"v\"]\ncapability = \"admin\"\n\n[[commands]]\nname = \"x\"\ndescription = \"d\"\nrequires = [\"r\"]\n\n"
    ));
}

fn o(v: &str) -> Option<String> {
    Some(v.to_string())
}

#[test]
fn package_metadata_fills_the_defaults() {
    let a = plugin_attr_from_package(None, None, o("  "), None, o(""), None, None, None);
    assert_eq!(a.name, "Unknown");
    assert_eq!(a.version, "1.0.0");
    assert_eq!(a.author, "Unknown");
    assert_eq!(a.description, "No description provided");
    assert_eq!(a.license, "Not Stated");
    assert_eq!(a.url, "N/A");
    assert_eq!(a.load_time, "anytime");
    assert_eq!(a.unload_time, "anytime");
    assert!(a.bundle.is_none() && a.requires.is_empty() && a.permissions.is_empty());

    let b = plugin_attr_from_package(o("vip"), o("2.1"), o("Me"), o("VIP"), o("MIT"), None, o("https://r"), o("https://d"));
    assert_eq!((b.name.as_str(), b.version.as_str(), b.author.as_str()), ("vip", "2.1", "Me"));
    assert_eq!((b.description.as_str(), b.license.as_str()), ("VIP", "MIT"));
    assert_eq!(b.url, "https://r");
    // A homepage that is set but blank wins over the repository and gives N/A.
    let c = plugin_attr_from_package(o("x"), None, None, None, None, o(" "), o("https://r"), None);
    assert_eq!(c.url, "N/A");
}

#[test]
fn plugin_keys_set_their_values() {
    let mut a = attr();
    assert!(apply_plugin_kv(&mut a, "name", "other".to_string()).is_ok());
    assert!(apply_plugin_kv(&mut a, "authors", "Team".to_string()).is_ok());
    assert!(apply_plugin_kv(&mut a, "homepage", "https://h".to_string()).is_ok());
    assert!(apply_plugin_kv(&mut a, "bundle", "admin/tools-2".to_string()).is_ok());
    assert_eq!(a.name, "other");
    assert_eq!(a.author, "Team");
    assert_eq!(a.url, "https://h");
    assert_eq!(a.bundle.as_deref(), Some("admin/tools-2"));
    assert_eq!(
        apply_plugin_kv(&mut a, "colour", "red".to_string()),
        Err("unknown #[plugin] attribute 'colour'; supported: name, version, author, description, url/repository, license, bundle, require, permissions".to_string())
    );
}

#[test]
fn bundle_names_must_be_relative_and_plain() {
    for bad in ["", "/abs", "a/../b", "c:d", "has space", "\\x"] {
        let mut a = attr();
        let r = apply_plugin_kv(&mut a, "bundle", bad.to_string());
        assert_eq!(
            r,
            Err(format!(
                "invalid #[plugin(bundle = \"{bad}\")]: must be non-empty, relative path without '..' or ':', using only [a-zA-Z0-9_/-]"
            ))
        );
        assert!(a.bundle.is_none());
    }
}

#[test]
fn plugin_lists_append_in_order() {
    let mut a = attr();
    assert!(add_plugin_list(&mut a, "require", vec!["plugin:b@>=1".to_string(), "plugin:c@1.0".to_string()]));
    assert!(add_plugin_list(&mut a, "permission", vec!["fs:read".to_string()]));
    assert!(add_plugin_list(&mut a, "permissions", vec!["chat:broadcast".to_string()]));
    assert!(!add_plugin_list(&mut a, "name", vec!["x".to_string()]));
    assert_eq!(a.requires, vec!["plugin:b@>=1", "plugin:c@1.0"]);
    assert_eq!(a.permissions, vec!["fs:read", "chat:broadcast"]);
    assert_eq!(a.name, "vip");
}

#[test]
fn applies_all_plugin_keys() {
    let mut a = plugin_attr_from_package(None, None, None, None, None, None, None, None);
    for (k, v) in [
        ("name", "x"),
        ("version", "2.0"),
        ("author", "A"),
        ("description", "Test Desc"),
        ("license", "MIT"),
        ("url", "https://github.com"),
    ] {
        assert!(apply_plugin_kv(&mut a, k, v.to_string()).is_ok());
    }
    assert!(add_plugin_list(&mut a, "require", vec!["plugin:b@>=1".to_string(), "plugin:c@1.0".to_string()]));
    assert!(add_plugin_list(&mut a, "permissions", vec!["fs:read".to_string(), "chat:broadcast".to_string()]));
    assert_eq!(a.name, "x");
    assert_eq!(a.version, "2.0");
    assert_eq!(a.author, "A");
    assert_eq!(a.description, "Test Desc");
    assert_eq!(a.license, "MIT");
    assert_eq!(a.url, "https://github.com");
    assert_eq!(a.requires, vec!["plugin:b@>=1", "plugin:c@1.0"]);
    assert_eq!(a.permissions, vec!["fs:read", "chat:broadcast"]);
}

#[test]
fn unknown_plugin_key_is_rejected() {
    let mut a = attr();
    assert!(apply_plugin_kv(&mut a, "banana", "1".to_string()).is_err());
    assert_eq!(a.name, "vip");
}

fn package() -> PluginAttr {
    plugin_attr_from_package(None, None, None, None, None, None, None, None)
}

#[test]
fn parses_all_attrs() {
    let a = parse_plugin_and_helpers(
        r#"name = "x", version = "2.0", author = "A", description = "Test Desc", license = "MIT", url = "https://github.com", require = ["plugin:b@>=1", "plugin:c@1.0"], permissions = ["fs:read", "chat:broadcast"]"#, &Vec::new(),
        package(),
    )
    .unwrap();
    assert_eq!(a.name, "x");
    assert_eq!(a.version, "2.0");
    assert_eq!(a.author, "A");
    assert_eq!(a.description, "Test Desc");
    assert_eq!(a.license, "MIT");
    assert_eq!(a.url, "https://github.com");
    assert_eq!(a.requires, vec!["plugin:b@>=1", "plugin:c@1.0"]);
    assert_eq!(a.permissions, vec!["fs:read", "chat:broadcast"]);
}

#[test]
fn rejects_unknown_attr() {
    assert!(parse_plugin_and_helpers("banana = 1", &Vec::new(), package()).is_err());
}

#[test]
fn rejects_non_string_value() {
    assert!(parse_plugin_and_helpers("name = 42", &Vec::new(), package()).is_err());
}

#[test]
fn plugin_attribute_grammar_messages() {
    assert_eq!(
        parse_plugin_and_helpers("name = 42", &Vec::new(), package()).err().unwrap(),
        "#[plugin(name = ...)] expects a string literal"
    );
    assert_eq!(
        parse_plugin_and_helpers("colour = \"red\"", &Vec::new(), package()).err().unwrap(),
        "unknown #[plugin] attribute 'colour'; supported: name, version, author, description, url/repository, license, bundle, require, permissions"
    );
    assert_eq!(
        parse_plugin_and_helpers("require = [\"a\", 1]", &Vec::new(), package()).err().unwrap(),
        "expects an array of string literals"
    );
    assert_eq!(
        parse_plugin_and_helpers("require = 1", &Vec::new(), package()).err().unwrap(),
        "expects an array of string literals or single string"
    );
    assert_eq!(
        parse_plugin_and_helpers("a::b = \"x\"", &Vec::new(), package()).err().unwrap(),
        "unsupported #[plugin] attribute"
    );
    assert!(parse_plugin_and_helpers("name", &Vec::new(), package()).err().unwrap().starts_with("unsupported #[plugin] attribute; supported:"));
    let a = parse_plugin_and_helpers("permission = \"fs:read\", bundle = \"vip\"", &Vec::new(), package()).unwrap();
    assert_eq!(a.permissions, vec!["fs:read"]);
    assert_eq!(a.bundle.as_deref(), Some("vip"));
    assert!(parse_plugin_and_helpers("name = ", &Vec::new(), package()).is_err());
    assert_eq!(parse_plugin_and_helpers("", &Vec::new(), package()).unwrap().name, "Unknown");
}

#[test]
fn plugin_attr_grammar_without_permissions() {
    let a = parse_plugin_attr(r#"name = "x", authors = "A", homepage = "h", require = ["plugin:b@>=1"], bundle = "tools/vip""#, package()).unwrap();
    assert_eq!(a.name, "x");
    assert_eq!(a.author, "A");
    assert_eq!(a.url, "h");
    assert_eq!(a.requires, vec!["plugin:b@>=1"]);
    assert_eq!(a.bundle.as_deref(), Some("tools/vip"));
    assert!(a.permissions.is_empty());
    assert_eq!(
        parse_plugin_attr("require = \"a\"", package()).err().unwrap(),
        "#[plugin(require = ...)] expects an array of string literals"
    );
    assert_eq!(
        parse_plugin_attr("require = [\"a\", 1]", package()).err().unwrap(),
        "require expects a list of string literals like \"plugin:name@>=1.0\""
    );
    assert_eq!(
        parse_plugin_attr("permissions = \"fs:read\"", package()).err().unwrap(),
        "unknown #[plugin] attribute 'permissions'; supported: name, version, author, description, url/repository, license, bundle, require"
    );
    assert_eq!(
        parse_plugin_attr("version = 2", package()).err().unwrap(),
        "#[plugin(version = ...)] expects a string literal"
    );
    assert_eq!(
        parse_plugin_attr("name", package()).err().unwrap(),
        "unsupported #[plugin] attribute; supported: name, version, author, description, url/repository, license, bundle, require"
    );
    assert_eq!(parse_plugin_attr("x::y = \"1\"", package()).err().unwrap(), "unsupported #[plugin] attribute");
    assert!(parse_plugin_attr("bundle = \"../up\"", package()).err().unwrap().starts_with("invalid #[plugin(bundle = \"../up\")]"));
}

fn helper(name: &str, args: Option<&str>) -> (String, Option<String>) {
    (name.to_string(), args.map(|a| a.to_string()))
}

#[test]
fn parses_stacked_helper_attributes() {
    let helpers = vec![
        helper("bundle", Some(r#""vip_system""#)),
        helper("require", Some(r#""vip_core""#)),
        helper("require", Some(r#""cstrike@^1.0""#)),
        helper("permissions", Some(r#""fs:read('configs/*.toml')", "storage:wal""#)),
        helper("lifecycle", Some("load = anytime, unload = never")),
    ];
    let a = parse_plugin_and_helpers("", &helpers, package()).unwrap();
    assert_eq!(a.bundle, Some("vip_system".to_string()));
    assert_eq!(a.requires, vec!["vip_core", "cstrike@^1.0"]);
    assert_eq!(a.permissions, vec!["fs:read('configs/*.toml')", "storage:wal"]);
    assert_eq!(a.load_time, "anytime");
    assert_eq!(a.unload_time, "never");
}

#[test]
fn helper_attributes_forms_and_errors() {
    let helpers = vec![
        helper("description", Some(r#""Desc""#)),
        helper("url", Some(r#""https://x""#)),
        helper("license", Some("42")),
        helper("bundle", Some(r#"name = "nested""#)),
        helper("permission", Some(r#""chat:broadcast", 7"#)),
        helper("lifecycle", Some(r#"load = "map_start", other"#)),
        helper("serde", Some("whatever")),
        helper("require", None),
    ];
    let a = apply_helper_attrs(&helpers, package()).unwrap();
    assert_eq!(a.description, "Desc");
    assert_eq!(a.url, "https://x");
    assert_eq!(a.license, "Not Stated");
    assert_eq!(a.bundle.as_deref(), Some("nested"));
    assert_eq!(a.permissions, vec!["chat:broadcast"]);
    assert_eq!(a.load_time, "map_start");
    assert_eq!(a.unload_time, "anytime");
    let bad = vec![helper("lifecycle", Some("load(x)"))];
    assert_eq!(apply_helper_attrs(&bad, package()).err().unwrap(), "expected `,`");
    let attr_err = parse_plugin_and_helpers("name = 1", &bad, package()).err().unwrap();
    assert_eq!(attr_err, "#[plugin(name = ...)] expects a string literal");
}
