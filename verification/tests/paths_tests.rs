use goldsrc::paths::{BackendType, PathResolver};

#[test]
fn normalize_forward_slashes_unchanged() {
    assert_eq!(PathResolver::normalize("cstrike/addons/goldsrc/plugins"), "cstrike/addons/goldsrc/plugins");
}

#[test]
fn normalize_backslashes_converted() {
    assert_eq!(PathResolver::normalize(r"cstrike\addons\goldsrc\plugins"), "cstrike/addons/goldsrc/plugins");
}

#[test]
fn normalize_strips_cur_dir() {
    assert_eq!(PathResolver::normalize("cstrike/./addons/./goldsrc"), "cstrike/addons/goldsrc");
}

#[test]
fn normalize_resolves_parent_dir() {
    assert_eq!(PathResolver::normalize("cstrike/addons/../goldsrc"), "cstrike/goldsrc");
}

#[test]
fn normalize_mixed_separators() {
    assert_eq!(
        PathResolver::normalize(r"cstrike\addons/goldsrc\..\goldsrc\plugins"),
        "cstrike/addons/goldsrc/plugins"
    );
}

#[test]
fn normalize_windows_absolute_path() {
    assert_eq!(
        PathResolver::normalize(r"C:\Users\Administrator\Desktop\server\goldsrc.toml"),
        "C:/Users/Administrator/Desktop/server/goldsrc.toml"
    );
}

#[test]
fn normalize_edge_cases() {
    assert_eq!(PathResolver::normalize(""), "");
    assert_eq!(PathResolver::normalize("/a//b/"), "/a/b");
    assert_eq!(PathResolver::normalize("../x"), "x");
    assert_eq!(PathResolver::normalize("/.."), "/");
    assert_eq!(PathResolver::normalize("./a/b/../../.."), "");
}

#[test]
fn framework_dirs_per_backend() {
    assert_eq!(PathResolver::framework_dir(BackendType::Metamod), "cstrike/addons/goldsrc");
    assert_eq!(PathResolver::framework_dir(BackendType::Standalone), "cstrike/goldsrc");
}

#[test]
fn candidate_dirs_and_first_existing() {
    let dirs = PathResolver::plugin_dirs(BackendType::Metamod, Some("/srv"));
    assert_eq!(
        dirs,
        vec![
            "/srv/cstrike/addons/goldsrc/plugins".to_string(),
            "/srv/addons/goldsrc/plugins".to_string(),
            "cstrike/addons/goldsrc/plugins".to_string(),
        ]
    );
    assert_eq!(
        PathResolver::existing_plugin_dir(BackendType::Metamod, Some("/srv"), &vec![false, true, true]),
        "/srv/addons/goldsrc/plugins"
    );
    assert_eq!(
        PathResolver::existing_plugin_dir(BackendType::Standalone, None, &vec![]),
        "cstrike/goldsrc/plugins"
    );
    assert_eq!(
        PathResolver::existing_config_dir(BackendType::Standalone, Some("/srv"), &vec![false, false, false]),
        "/srv/cstrike/goldsrc/configs"
    );
    let data = PathResolver::data_dirs(BackendType::Standalone, Some("/srv"));
    assert_eq!(data[1], "cstrike/goldsrc/data");
    assert_eq!(
        PathResolver::lang_dir(BackendType::Standalone, Some("/srv"), &vec![false, true]),
        "cstrike/goldsrc/data/lang"
    );
    assert_eq!(
        PathResolver::db_path(BackendType::Metamod, None, &vec![]),
        "cstrike/addons/goldsrc/data/db/goldsrc.db"
    );
    assert_eq!(
        PathResolver::main_config_path(BackendType::Metamod, Some("/srv"), true),
        "/srv/cstrike/addons/goldsrc/goldsrc.toml"
    );
    assert_eq!(
        PathResolver::main_config_path(BackendType::Metamod, Some("/srv"), false),
        "cstrike/addons/goldsrc/goldsrc.toml"
    );
}
