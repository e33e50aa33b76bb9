use goldsrc::engine_bridge::{
    count_active_players, cvar_string, entity_is_valid, is_player_edict, message_safe_string, player_lang, player_name, player_team,
    EdictFields, FL_CLIENT,
};

fn edict(free: i32, flags: i32, netname: i32, team: i32) -> Option<EdictFields> {
    Some(EdictFields { free, flags, netname, team })
}

fn s(v: &str) -> Option<String> {
    Some(v.to_string())
}

#[test]
fn entity_validity_follows_client_flag_and_name() {
    assert!(!entity_is_valid(5, None, None));
    assert!(!entity_is_valid(40, edict(1, 0, 0, 0), None));
    // Beyond the player slots any used edict is valid.
    assert!(entity_is_valid(40, edict(0, 0, 0, 0), None));
    // A player slot needs FL_CLIENT.
    assert!(!entity_is_valid(3, edict(0, 0, 7, 0), None));
    assert!(entity_is_valid(3, edict(0, FL_CLIENT, 7, 0), None));
    assert!(entity_is_valid(3, edict(0, FL_CLIENT | 1, 0, 0), s("Player")));
    assert!(!entity_is_valid(3, edict(0, FL_CLIENT, 0, 0), s("   ")));
    assert!(entity_is_valid(3, edict(0, FL_CLIENT, 0, 0), None));
    assert!(entity_is_valid(32, edict(0, FL_CLIENT, 1, 0), None));
}

#[test]
fn team_from_edict_or_model() {
    assert_eq!(player_team(None, s("sas")), 0);
    assert_eq!(player_team(edict(0, 0, 0, 3), s("terror")), 3);
    assert_eq!(player_team(edict(0, 0, 0, 0), s("Leet")), 1);
    assert_eq!(player_team(edict(0, 0, 0, 0), s("GIGN")), 2);
    assert_eq!(player_team(edict(0, 0, 0, 7), s("vip")), 2);
    assert_eq!(player_team(edict(0, 0, 0, 0), s("zombie")), 0);
    assert_eq!(player_team(edict(0, 0, 0, 0), None), 0);
}

#[test]
fn player_name_prefers_the_info_key() {
    assert_eq!(player_name(s("Alice"), s("net")), s("Alice"));
    assert_eq!(player_name(s(""), s("net")), s("net"));
    assert_eq!(player_name(None, s("")), None);
}

#[test]
fn player_language_from_info_keys_or_server() {
    let keys = vec![None, s("  "), s(" DE "), s("fr")];
    assert_eq!(player_lang(true, &keys, s("en")), s("de"));
    assert_eq!(player_lang(true, &vec![None, s(""), None, None], s("en")), s("en"));
    assert_eq!(player_lang(true, &vec![], None), None);
    assert_eq!(player_lang(false, &keys, s("en")), None);
}

#[test]
fn cvar_values_fall_back_in_order() {
    assert_eq!(cvar_string("sv_gravity", s("800"), s("900"), None), s("800"));
    assert_eq!(cvar_string("sv_gravity", s(""), s("900"), None), s("900"));
    assert_eq!(cvar_string("sv_gravity", None, None, s("de_dust2")), None);
    assert_eq!(cvar_string("mapname", None, s(""), s("de_dust2")), s("de_dust2"));
}

#[test]
fn active_players_counts_named_slots_without_auth() {
    assert_eq!(count_active_players(4, &vec![true, false]), 4);
    assert_eq!(count_active_players(0, &vec![true, false, true]), 2);
    assert_eq!(count_active_players(0, &vec![]), 0);
}

#[test]
fn message_strings_drop_nul_and_stop_at_500_bytes() {
    assert_eq!(message_safe_string("a\0b"), "ab");
    let long = "x".repeat(600);
    assert_eq!(message_safe_string(&long).len(), 500);
    // A two-byte character that would cross the limit is left out.
    let mixed = format!("{}é", "x".repeat(499));
    assert_eq!(message_safe_string(&mixed), "x".repeat(499));
}

#[test]
fn player_edicts_need_the_client_flag_in_player_slots() {
    assert!(!is_player_edict(1, None));
    assert!(!is_player_edict(1, edict(1, FL_CLIENT, 0, 0)));
    assert!(!is_player_edict(1, edict(0, 0, 0, 0)));
    assert!(is_player_edict(1, edict(0, FL_CLIENT, 0, 0)));
    assert!(is_player_edict(33, edict(0, 0, 0, 0)));
}
