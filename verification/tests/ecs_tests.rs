use goldsrc::ecs::{ComponentStorage, EntityId, Stage, SystemPhase};
use goldsrc::schedule::{SystemDescriptor, SystemRegistry};

type Runner = fn(&mut Vec<&'static str>);

fn sys_validate(log: &mut Vec<&'static str>) {
    log.push("validate");
}
fn sys_modify(log: &mut Vec<&'static str>) {
    log.push("modify");
}
fn sys_exec_1(log: &mut Vec<&'static str>) {
    log.push("exec_1");
}
fn sys_exec_2(log: &mut Vec<&'static str>) {
    log.push("exec_2");
}
fn sys_monitor(log: &mut Vec<&'static str>) {
    log.push("monitor");
}

fn system(name: &'static str, stage: Stage, phase: SystemPhase, before: Vec<&'static str>, after: Vec<&'static str>, run: Runner) -> SystemDescriptor<Runner> {
    SystemDescriptor { name, stage, phase, before, after, run }
}

#[test]
fn test_system_stages_and_order() {
    let mut registry: SystemRegistry<Runner> = SystemRegistry::new();
    registry.register(system("monitor_sys", Stage::Frame, SystemPhase::Monitor, vec![], vec![], sys_monitor));
    registry.register(system("exec_2", Stage::Frame, SystemPhase::Execute, vec![], vec!["exec_1"], sys_exec_2));
    registry.register(system("exec_1", Stage::Frame, SystemPhase::Execute, vec![], vec![], sys_exec_1));
    registry.register(system("validate_sys", Stage::Frame, SystemPhase::Validate, vec![], vec![], sys_validate));
    registry.register(system("modify_sys", Stage::Frame, SystemPhase::Modify, vec![], vec![], sys_modify));

    let mut log = Vec::new();
    for run in registry.run_stage(Stage::Frame) {
        run(&mut log);
    }
    assert_eq!(log, vec!["validate", "modify", "exec_1", "exec_2", "monitor"]);
}

#[test]
fn test_five_phase_all_stages_execution() {
    let mut registry: SystemRegistry<SystemPhase> = SystemRegistry::new();
    let phases = [
        SystemPhase::Monitor,
        SystemPhase::React,
        SystemPhase::Execute,
        SystemPhase::Modify,
        SystemPhase::Validate,
    ];
    for phase in phases {
        registry.register(SystemDescriptor {
            name: "phase_test",
            stage: Stage::TakeDamage,
            phase,
            before: vec![],
            after: vec![],
            run: phase,
        });
    }
    let hits: Vec<SystemPhase> = registry.run_stage(Stage::TakeDamage).into_iter().copied().collect();
    assert_eq!(hits.len(), 5);
    assert_eq!(
        hits,
        vec![
            SystemPhase::Validate,
            SystemPhase::Modify,
            SystemPhase::Execute,
            SystemPhase::React,
            SystemPhase::Monitor,
        ]
    );
    assert!(registry.run_stage(Stage::Frame).is_empty());
}

#[test]
fn before_constraint_and_cycle_fallback() {
    let mut registry: SystemRegistry<&'static str> = SystemRegistry::new();
    registry.register(SystemDescriptor { name: "b", stage: Stage::Startup, phase: SystemPhase::Execute, before: vec![], after: vec![], run: "b" });
    registry.register(SystemDescriptor { name: "a", stage: Stage::Startup, phase: SystemPhase::Execute, before: vec!["b"], after: vec![], run: "a" });
    let order: Vec<&str> = registry.run_stage(Stage::Startup).into_iter().copied().collect();
    assert_eq!(order, vec!["a", "b"]);

    let mut cyclic: SystemRegistry<&'static str> = SystemRegistry::new();
    cyclic.register(SystemDescriptor { name: "x", stage: Stage::Frame, phase: SystemPhase::React, before: vec![], after: vec!["y"], run: "x" });
    cyclic.register(SystemDescriptor { name: "y", stage: Stage::Frame, phase: SystemPhase::React, before: vec![], after: vec!["x"], run: "y" });
    cyclic.register(SystemDescriptor { name: "z", stage: Stage::Frame, phase: SystemPhase::React, before: vec![], after: vec![], run: "z" });
    let order: Vec<&str> = cyclic.run_stage(Stage::Frame).into_iter().copied().collect();
    assert_eq!(order, vec!["z", "x", "y"]);
}

#[test]
fn constraints_chain_and_repeat_without_changing_the_order() {
    let mut registry: SystemRegistry<&'static str> = SystemRegistry::new();
    registry.register(SystemDescriptor { name: "d", stage: Stage::Frame, phase: SystemPhase::Modify, before: vec![], after: vec!["c", "c"], run: "d" });
    registry.register(SystemDescriptor { name: "c", stage: Stage::Frame, phase: SystemPhase::Modify, before: vec!["d"], after: vec!["b"], run: "c" });
    registry.register(SystemDescriptor { name: "b", stage: Stage::Frame, phase: SystemPhase::Modify, before: vec!["c", "missing"], after: vec!["a"], run: "b" });
    registry.register(SystemDescriptor { name: "a", stage: Stage::Frame, phase: SystemPhase::Modify, before: vec![], after: vec![], run: "a" });
    registry.register(SystemDescriptor { name: "v", stage: Stage::Frame, phase: SystemPhase::Validate, before: vec![], after: vec!["d"], run: "v" });
    let order: Vec<&str> = registry.run_stage(Stage::Frame).into_iter().copied().collect();
    assert_eq!(order, vec!["v", "a", "b", "c", "d"]);
}

#[test]
fn stages_run_only_their_own_systems_in_stage_order() {
    let mut registry: SystemRegistry<u32> = SystemRegistry::new();
    registry.register(SystemDescriptor { name: "late", stage: Stage::RoundEnd, phase: SystemPhase::Validate, before: vec![], after: vec![], run: 2 });
    registry.register(SystemDescriptor { name: "early", stage: Stage::Startup, phase: SystemPhase::Monitor, before: vec![], after: vec![], run: 1 });
    assert_eq!(registry.run_stage(Stage::RoundEnd), vec![&2]);
    assert_eq!(registry.run_stage(Stage::Startup), vec![&1]);
}

#[test]
fn entity_id_ranges() {
    assert!(EntityId(1).is_player());
    assert!(EntityId(32).is_player());
    assert!(!EntityId(33).is_player());
    assert!(!EntityId(0).is_player());
    assert!(EntityId(0).is_world());
    assert!(EntityId::world().is_world());
    assert!(!EntityId(1).is_world());
}

#[derive(Debug, PartialEq, Eq)]
struct VipData {
    level: u8,
}

#[test]
fn component_storage_insert_get_remove() {
    let mut storage: ComponentStorage<VipData> = ComponentStorage::new();
    let player = EntityId(1);
    assert_eq!(storage.get(player), None);
    storage.insert(player, VipData { level: 3 });
    storage.insert(EntityId(200), VipData { level: 9 });
    assert_eq!(storage.get(player), Some(&VipData { level: 3 }));
    if let Some(v) = storage.get_mut(player) {
        v.level = 4;
    }
    assert_eq!(storage.get(player), Some(&VipData { level: 4 }));
    assert_eq!(storage.get(EntityId(5)), None);
    assert_eq!(storage.remove(player), Some(VipData { level: 4 }));
    assert_eq!(storage.get(player), None);
    assert_eq!(storage.remove(EntityId(1000)), None);
    assert_eq!(storage.get(EntityId(200)), Some(&VipData { level: 9 }));
}

#[test]
fn phase_and_stage_names_round_trip() {
    for p in SystemPhase::all() {
        assert_eq!(SystemPhase::parse(p.as_str()), Ok(p));
    }
    for s in Stage::all() {
        assert_eq!(Stage::parse(&s.as_str().to_uppercase()), Ok(s));
    }
    assert_eq!(SystemPhase::default(), SystemPhase::Execute);
    assert_eq!(
        SystemPhase::parse("later"),
        Err("Unknown system phase: 'later'. Expected: validate, modify, execute, react, monitor".to_string())
    );
    assert!(Stage::parse("frames").is_err());
    assert_eq!(Stage::TakeDamage.code(), 70);
    assert_eq!(SystemPhase::Monitor.code(), 40);
}

#[test]
fn component_storage_entries_in_entity_order() {
    let mut s: ComponentStorage<&'static str> = ComponentStorage::new();
    s.insert(EntityId(40), "door");
    s.insert(EntityId(3), "player");
    s.insert(EntityId(0), "world");
    s.insert(EntityId(12), "gone");
    let _ = s.remove(EntityId(12));
    let e: Vec<(u16, &str)> = s.entries().into_iter().map(|(id, c)| (id.0, *c)).collect();
    assert_eq!(e, vec![(0, "world"), (3, "player"), (40, "door")]);
    let empty: ComponentStorage<u8> = ComponentStorage::new();
    assert!(empty.entries().is_empty());
}
