use goldsrc::menu::{clear_menu_packet, show_menu_msg_id, show_menu_packets};
use goldsrc::cstrike::{can_give, cs_team_str, CsWeapon, Team, WeaponSlot};
use goldsrc::task::TaskQueue;
use std::sync::atomic::{AtomicUsize, Ordering};
use std::sync::Arc;

#[test]
fn test_cs_weapon_properties() {
    assert_eq!(CsWeapon::M4a1.classname(), "weapon_m4a1");
    assert_eq!(CsWeapon::M4a1.slot(), Some(WeaponSlot::Primary));
    assert_eq!(CsWeapon::Deagle.slot(), Some(WeaponSlot::Secondary));
    assert_eq!(CsWeapon::Knife.slot(), Some(WeaponSlot::Knife));
    assert_eq!(CsWeapon::HeGrenade.slot(), Some(WeaponSlot::Grenade));
    assert_eq!(CsWeapon::C4.slot(), Some(WeaponSlot::C4));
}

#[test]
fn weapon_ids_and_empty_weapon() {
    assert_eq!(CsWeapon::Galil.id(), 140);
    assert_eq!(CsWeapon::P90.id(), 26);
    assert_eq!(CsWeapon::Glock.classname(), "weapon_glock18");
    assert_eq!(CsWeapon::NoWeapon.slot(), None);
    assert!(!can_give(CsWeapon::NoWeapon));
    assert!(can_give(CsWeapon::Ak47));
    assert_eq!(WeaponSlot::C4.id(), 5);
}

#[test]
fn test_task_dispatch_and_drain() {
    let hit_counter = Arc::new(AtomicUsize::new(0));
    let queue: TaskQueue<Box<dyn FnOnce() + Send>> = TaskQueue::new();

    let c1 = hit_counter.clone();
    queue.dispatch(Box::new(move || {
        c1.fetch_add(1, Ordering::SeqCst);
    }));
    let c2 = hit_counter.clone();
    queue.dispatch(Box::new(move || {
        c2.fetch_add(10, Ordering::SeqCst);
    }));

    let tasks = queue.drain_main_tasks(10);
    let drained = tasks.len();
    for task in tasks {
        task();
    }
    assert_eq!(drained, 2);
    assert_eq!(hit_counter.load(Ordering::SeqCst), 11);
}

#[test]
fn drain_respects_the_per_frame_limit() {
    let queue: TaskQueue<u32> = TaskQueue::new();
    for i in 0..5 {
        queue.dispatch(i);
    }
    assert_eq!(queue.drain_main_tasks(3), vec![0, 1, 2]);
    assert_eq!(queue.drain_main_tasks(3), vec![3, 4]);
    assert!(queue.drain_main_tasks(3).is_empty());
}

#[test]
fn show_menu_text_is_sent_in_chunks() {
    let empty = show_menu_packets(0x3ff, -1, "");
    assert_eq!(empty.len(), 1);
    assert_eq!((empty[0].keys_mask, empty[0].timeout, empty[0].more, empty[0].text.as_str()), (0x3ff, -1, false, ""));

    let short = show_menu_packets(3, 10, "1. Buy\n2. Sell");
    assert_eq!(short.len(), 1);
    assert_eq!(short[0].text, "1. Buy\n2. Sell");
    assert!(!short[0].more);

    let long: String = "a".repeat(200);
    let parts = show_menu_packets(1, 0, &long);
    assert_eq!(parts.len(), 2);
    assert_eq!(parts[0].text.len(), 150);
    assert!(parts[0].more);
    assert_eq!(parts[1].text.len(), 50);
    assert!(!parts[1].more);

    let text = format!("{}é", "b".repeat(149));
    let parts = show_menu_packets(1, 0, &text);
    assert_eq!(parts.len(), 2);
    assert_eq!(parts[0].text, "b".repeat(149));
    assert_eq!(parts[1].text, "é");

    let c = clear_menu_packet();
    assert_eq!((c.keys_mask, c.timeout, c.more, c.text.as_str()), (0, 0, false, ""));
    assert_eq!(show_menu_msg_id(-1), 9);
    assert_eq!(show_menu_msg_id(0), 9);
    assert_eq!(show_menu_msg_id(42), 42);
}

#[test]
fn team_abbreviations() {
    assert_eq!(cs_team_str(Team::Terrorist), "TERRORIST");
    assert_eq!(cs_team_str(Team::CounterTerrorist), "CT");
    assert_eq!(cs_team_str(Team::Spectator), "SPECTATOR");
    assert_eq!(cs_team_str(Team::Unassigned), "UNASSIGNED");
}
