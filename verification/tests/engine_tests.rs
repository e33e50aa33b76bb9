use goldsrc::hooks::edict_index;
use goldsrc::metamod::{PLUG_LOADTIME, PL_UNLOAD_REASON};
use goldsrc::user_msgs::UserMsgRegistry;

#[test]
fn user_msg_ids_keep_only_usable_answers() {
    let mut reg = UserMsgRegistry::new();
    reg.register_user_msg_id("TextMsg", 77);
    reg.register_user_msg_id("ShowMenu", 0);
    reg.register_user_msg_id("HudText", 255);
    reg.register_user_msg_id("SayText", -3);
    assert_eq!(reg.registered_id("TextMsg"), Some(77));
    assert_eq!(reg.registered_id("ShowMenu"), None);
    assert_eq!(reg.registered_id("HudText"), None);
    assert_eq!(reg.registered_id("SayText"), None);
    assert_eq!(reg.ids.len(), 1);
}

#[test]
fn user_msg_id_is_replaced_by_a_later_usable_one() {
    let mut reg = UserMsgRegistry::new();
    reg.register_user_msg_id("TextMsg", 77);
    reg.register_user_msg_id("TextMsg", 255);
    assert_eq!(reg.registered_id("TextMsg"), Some(77));
    reg.register_user_msg_id("TextMsg", 78);
    assert_eq!(reg.registered_id("TextMsg"), Some(78));
    assert_eq!(reg.registered_id("textmsg"), None);
    assert_eq!(reg.accept_user_msg_id("ShowMenu", 96), Some(96));
    assert_eq!(reg.accept_user_msg_id("BarTime", 255), None);
    assert_eq!(reg.registered_id("ShowMenu"), Some(96));
    assert_eq!(reg.ids.len(), 2);
}

#[test]
fn metamod_codes_round_trip() {
    assert_eq!(PLUG_LOADTIME::PT_NEVER.code(), 0);
    assert_eq!(PLUG_LOADTIME::PT_ANYTIME.code(), 3);
    assert_eq!(PLUG_LOADTIME::from_code(4), Some(PLUG_LOADTIME::PT_ANYPAUSE));
    assert_eq!(PLUG_LOADTIME::from_code(5), None);
    assert_eq!(PL_UNLOAD_REASON::PNL_RELOAD.code(), 8);
    assert_eq!(PL_UNLOAD_REASON::from_code(3), Some(PL_UNLOAD_REASON::PNL_COMMAND));
    assert_eq!(PL_UNLOAD_REASON::from_code(-1), None);
}

#[test]
fn edict_addresses_resolve_to_indices_in_bounds() {
    let base = 0x1000usize;
    let size = 804usize;
    assert_eq!(edict_index(base, base, 32, size), 0);
    assert_eq!(edict_index(base + 5 * size, base, 32, size), 5);
    assert_eq!(edict_index(base + 31 * size, base, 32, size), 31);
    assert_eq!(edict_index(base + 32 * size, base, 32, size), 0);
    assert_eq!(edict_index(base + 5 * size + 1, base, 32, size), 0);
    assert_eq!(edict_index(base - size, base, 32, size), 0);
    assert_eq!(edict_index(0, base, 32, size), 0);
    assert_eq!(edict_index(base + size, 0, 32, size), 0);
    assert_eq!(edict_index(base + size, base, 0, size), 0);
}
