//! Flat entity component storage and the ordering of ECS systems.
//!
//! GoldSrc entities have a fixed index range: 0 is the world, 1..=32 are the
//! players, and the indices above are map entities and edicts.

use vstd::prelude::*;
use crate::text::{str_chars, chars_eq_str, extend_str, to_ascii_lower, ascii_lower, chars_to_string};

verus! {

/// Number of player slots of a GoldSrc server.
pub const MAX_PLAYERS: u16 = 32;

/// Entity identifier mapping to GoldSrc edict indices.
#[derive(Debug, Clone, Copy, PartialEq, Eq, Structural, Hash, PartialOrd, Ord)]
pub struct EntityId(pub u16);

impl EntityId {
    /// The world entity (index 0).
    pub fn world() -> (e: EntityId)
        ensures
            e.0 == 0,
    {
        EntityId(0)
    }

    /// Whether the entity is a player (index 1 to 32).
    pub fn is_player(self) -> (r: bool)
        ensures
            r == (1 <= self.0 && self.0 <= MAX_PLAYERS),
    {
        1 <= self.0 && self.0 <= MAX_PLAYERS
    }

    /// Whether the entity is the world (index 0).
    pub fn is_world(self) -> (r: bool)
        ensures
            r == (self.0 == 0),
    {
        self.0 == 0
    }
}

/// Component storage indexed directly by entity index.
pub struct ComponentStorage<T> {
    dense: Vec<Option<T>>,
}

/// An insert or a remove of an entity's component.
pub enum StorageOp<T> {
    Insert(u16, T),
    Remove(u16),
}

/// The components a storage holds after `ops`, starting from `m`.
pub open spec fn after_ops<T>(m: Map<u16, T>, ops: Seq<StorageOp<T>>) -> Map<u16, T>
    decreases ops.len(),
{
    if ops.len() == 0 {
        m
    } else {
        let before = after_ops(m, ops.drop_last());
        match ops.last() {
            StorageOp::Insert(e, c) => before.insert(e, c),
            StorageOp::Remove(e) => before.remove(e),
        }
    }
}

/// The component of the last of `ops` that concerns entity `e`: the one it
/// inserts, or none when it removes or there is no such op.
pub open spec fn last_write<T>(ops: Seq<StorageOp<T>>, e: u16) -> Option<T>
    decreases ops.len(),
{
    if ops.len() == 0 {
        None
    } else {
        match ops.last() {
            StorageOp::Insert(x, c) => if x == e { Some(c) } else { last_write(ops.drop_last(), e) },
            StorageOp::Remove(x) => if x == e { None } else { last_write(ops.drop_last(), e) },
        }
    }
}

/// A storage made by `new` that then goes through inserts and removes
/// (`insert` and `remove` change its view as `after_ops` does) gives, for
/// every entity, the component of the last insert for it, unless a remove
/// for it came after; for an entity never touched it gives nothing.
pub proof fn lemma_storage_last_write<T>(ops: Seq<StorageOp<T>>, e: u16)
    ensures
        after_ops(Map::<u16, T>::empty(), ops).contains_key(e) == last_write(ops, e) is Some,
        last_write(ops, e) matches Some(c) ==> after_ops(Map::<u16, T>::empty(), ops)[e] == c,
    decreases ops.len(),
{
    if ops.len() > 0 {
        lemma_storage_last_write(ops.drop_last(), e);
    }
}

impl<T> View for ComponentStorage<T> {
    type V = Map<u16, T>;

    /// The components present, by entity index.
    closed spec fn view(&self) -> Map<u16, T> {
        Map::new(
            |e: u16| (e as int) < self.dense@.len() && self.dense@[e as int] is Some,
            |e: u16| self.dense@[e as int]->0,
        )
    }
}

impl<T> Default for ComponentStorage<T> {
    fn default() -> (s: Self)
        ensures
            s@ == Map::<u16, T>::empty(),
    {
        Self::new()
    }
}

impl<T> ComponentStorage<T> {
    /// Creates an empty storage pre-sized for the player range.
    pub fn new() -> (s: Self)
        ensures
            s@ == Map::<u16, T>::empty(),
    {
        let s = ComponentStorage { dense: Vec::with_capacity(33) };
        assert(s@ =~= Map::<u16, T>::empty());
        s
    }

    /// Inserts `component` for `entity`, growing the backing storage as needed.
    pub fn insert(&mut self, entity: EntityId, component: T)
        ensures
            final(self)@ == old(self)@.insert(entity.0, component),
    {
        let idx = entity.0 as usize;
        let ghost before = self.dense@;
        while self.dense.len() <= idx
            invariant
                self.dense@.len() >= before.len(),
                forall|i: int| 0 <= i < before.len() ==> self.dense@[i] == before[i],
                forall|i: int| before.len() <= i < self.dense@.len() ==> self.dense@[i] is None,
                idx == entity.0 as usize,
            decreases idx + 1 - self.dense.len(),
        {
            self.dense.push(None);
        }
        self.dense[idx] = Some(component);
        assert(self@ =~= old(self)@.insert(entity.0, component));
    }

    /// Returns a shared reference to `entity`'s component, if present.
    pub fn get(&self, entity: EntityId) -> (r: Option<&T>)
        ensures
            r == (if self@.contains_key(entity.0) { Some(&self@[entity.0]) } else { None }),
    {
        let idx = entity.0 as usize;
        if idx < self.dense.len() {
            self.dense[idx].as_ref()
        } else {
            None
        }
    }

    /// Returns a mutable reference to `entity`'s component, if present.
    pub fn get_mut(&mut self, entity: EntityId) -> (r: Option<&mut T>)
        ensures
            old(self)@.contains_key(entity.0) ==> {
                &&& r is Some
                &&& *r.unwrap() == old(self)@[entity.0]
                &&& final(self)@ == old(self)@.insert(entity.0, *final(r.unwrap()))
            },
            !old(self)@.contains_key(entity.0) ==> r is None && final(self)@ == old(self)@,
    {
        let idx = entity.0 as usize;
        if idx < self.dense.len() {
            let slot = &mut self.dense[idx];
            slot.as_mut()
        } else {
            None
        }
    }

    /// Removes and returns `entity`'s component, if present.
    pub fn remove(&mut self, entity: EntityId) -> (r: Option<T>)
        ensures
            r == (if old(self)@.contains_key(entity.0) { Some(old(self)@[entity.0]) } else { None }),
            final(self)@ == old(self)@.remove(entity.0),
    {
        let idx = entity.0 as usize;
        if idx < self.dense.len() {
            let r = self.dense[idx].take();
            assert(self@ =~= old(self)@.remove(entity.0));
            r
        } else {
            assert(self@ =~= old(self)@.remove(entity.0));
            None
        }
    }

    /// The entities that have a component, in ascending entity order, each
    /// with its component.
    pub fn entries(&self) -> (r: Vec<(EntityId, &T)>)
        ensures
            forall|k: int|
                0 <= k < r@.len() ==> self@.contains_key((#[trigger] r@[k]).0.0) && *r@[k].1 == self@[r@[k].0.0],
            forall|j: int, k: int| 0 <= j < k < r@.len() ==> (#[trigger] r@[j]).0.0 < (#[trigger] r@[k]).0.0,
            forall|e: u16| #[trigger] self@.contains_key(e) ==> exists|k: int| 0 <= k < r@.len() && (#[trigger] r@[k]).0.0 == e,
    {
        let mut out: Vec<(EntityId, &T)> = Vec::new();
        let n: usize = if self.dense.len() < 65536 { self.dense.len() } else { 65536 };
        let mut i: usize = 0;
        while i < n
            invariant
                n <= self.dense@.len(),
                n <= 65536,
                n == self.dense@.len() || n == 65536,
                i <= n,
                forall|k: int|
                    0 <= k < out@.len() ==> (#[trigger] out@[k]).0.0 < i && self@.contains_key(out@[k].0.0) && *out@[k].1
                        == self@[out@[k].0.0],
                forall|j: int, k: int| 0 <= j < k < out@.len() ==> (#[trigger] out@[j]).0.0 < (#[trigger] out@[k]).0.0,
                forall|e: u16|
                    #[trigger] self@.contains_key(e) && (e as int) < i ==> exists|k: int|
                        0 <= k < out@.len() && (#[trigger] out@[k]).0.0 == e,
            decreases n - i,
        {
            let idx: u16 = i as u16;
            match &self.dense[i] {
                Some(c) => {
                    let ghost before = out@;
                    out.push((EntityId(idx), c));
                    proof {
                        assert(self@.contains_key(idx));
                        assert forall|e: u16| #[trigger] self@.contains_key(e) && (e as int) < i + 1 implies exists|k: int|
                            0 <= k < out@.len() && (#[trigger] out@[k]).0.0 == e by {
                            if e == idx {
                                assert(out@[out@.len() - 1].0.0 == e);
                            } else {
                                let k = choose|k: int| 0 <= k < before.len() && (#[trigger] before[k]).0.0 == e;
                                assert(out@[k] == before[k]);
                            }
                        }
                    }
                },
                None => {
                    proof {
                        assert(!self@.contains_key(idx));
                    }
                },
            }
            i = i + 1;
        }
        proof {
            assert forall|e: u16| #[trigger] self@.contains_key(e) implies exists|k: int|
                0 <= k < out@.len() && (#[trigger] out@[k]).0.0 == e by {
                assert((e as int) < i);
            }
        }
        out
    }
}


/// The rank of a phase within a stage; phases run in increasing rank.
pub open spec fn phase_rank(p: SystemPhase) -> int {
    match p {
        SystemPhase::Validate => 0,
        SystemPhase::Modify => 10,
        SystemPhase::Execute => 20,
        SystemPhase::React => 30,
        SystemPhase::Monitor => 40,
    }
}

/// The name of a phase.
pub open spec fn phase_name(p: SystemPhase) -> Seq<char> {
    match p {
        SystemPhase::Validate => "validate"@,
        SystemPhase::Modify => "modify"@,
        SystemPhase::Execute => "execute"@,
        SystemPhase::React => "react"@,
        SystemPhase::Monitor => "monitor"@,
    }
}

/// A string with its ASCII letters lowered.
pub open spec fn lower_ascii(s: Seq<char>) -> Seq<char> {
    s.map_values(|c: char| ascii_lower(c))
}

/// Semantic intent phase of a system within a stage:
/// `Validate` -> `Modify` -> `Execute` -> `React` -> `Monitor`.
#[derive(Debug, Clone, Copy, PartialEq, Eq, Structural, Hash, PartialOrd, Ord)]
pub enum SystemPhase {
    /// Early sanity checks, anti-cheat, authorization preconditions.
    Validate,
    /// Data and parameter mutations, multipliers, buffs, discounts.
    Modify,
    /// The core execution step (the default).
    Execute,
    /// Post-execution side effects, rewards, sounds, animations.
    React,
    /// Read-only logging, analytics, telemetry.
    Monitor,
}

impl Default for SystemPhase {
    fn default() -> (p: Self)
        ensures
            p == SystemPhase::Execute,
    {
        SystemPhase::Execute
    }
}

/// Lowers the ASCII letters of a string.
fn lower_ascii_chars(s: &str) -> (r: Vec<char>)
    ensures
        r@ == lower_ascii(s@),
{
    let cs = str_chars(s);
    let mut r: Vec<char> = Vec::new();
    let mut i: usize = 0;
    while i < cs.len()
        invariant
            cs@ == s@,
            i <= cs.len(),
            r@ == lower_ascii(s@.take(i as int)),
        decreases cs.len() - i,
    {
        let c = to_ascii_lower(cs[i]);
        r.push(c);
        assert(lower_ascii(s@.take(i as int + 1)) =~= lower_ascii(s@.take(i as int)).push(c));
        i = i + 1;
    }
    assert(s@.take(cs.len() as int) =~= s@);
    r
}

impl SystemPhase {
    /// The phase's rank: 0, 10, 20, 30 or 40.
    pub fn code(&self) -> (c: u8)
        ensures
            c == phase_rank(*self),
    {
        match self {
            SystemPhase::Validate => 0,
            SystemPhase::Modify => 10,
            SystemPhase::Execute => 20,
            SystemPhase::React => 30,
            SystemPhase::Monitor => 40,
        }
    }

    /// All phases in execution order.
    pub fn all() -> (v: Vec<SystemPhase>)
        ensures
            v@ == seq![SystemPhase::Validate, SystemPhase::Modify, SystemPhase::Execute,
                SystemPhase::React, SystemPhase::Monitor],
    {
        let v = vec![SystemPhase::Validate, SystemPhase::Modify, SystemPhase::Execute,
            SystemPhase::React, SystemPhase::Monitor];
        v
    }

    /// The phase's name.
    pub fn as_str(&self) -> (r: &'static str)
        ensures
            r@ == phase_name(*self),
    {
        match self {
            SystemPhase::Validate => "validate",
            SystemPhase::Modify => "modify",
            SystemPhase::Execute => "execute",
            SystemPhase::React => "react",
            SystemPhase::Monitor => "monitor",
        }
    }

    /// Parses a phase name, ignoring ASCII case.
    pub fn parse(s: &str) -> (r: Result<SystemPhase, String>)
        ensures
            r matches Ok(p) ==> phase_name(p) == lower_ascii(s@),
            r is Err ==> (forall|p: SystemPhase| phase_name(p) != lower_ascii(s@)),
            r matches Err(e) ==> e@ == "Unknown system phase: '"@ + s@
                + "'. Expected: validate, modify, execute, react, monitor"@,
    {
        let l = lower_ascii_chars(s);
        if chars_eq_str(&l, "validate") {
            Ok(SystemPhase::Validate)
        } else if chars_eq_str(&l, "modify") {
            Ok(SystemPhase::Modify)
        } else if chars_eq_str(&l, "execute") {
            Ok(SystemPhase::Execute)
        } else if chars_eq_str(&l, "react") {
            Ok(SystemPhase::React)
        } else if chars_eq_str(&l, "monitor") {
            Ok(SystemPhase::Monitor)
        } else {
            let mut m: Vec<char> = Vec::new();
            extend_str(&mut m, "Unknown system phase: '");
            extend_str(&mut m, s);
            extend_str(&mut m, "'. Expected: validate, modify, execute, react, monitor");
            proof {
                assert forall|p: SystemPhase| phase_name(p) != lower_ascii(s@) by {
                    match p {
                        SystemPhase::Validate => {},
                        SystemPhase::Modify => {},
                        SystemPhase::Execute => {},
                        SystemPhase::React => {},
                        SystemPhase::Monitor => {},
                    }
                }
            }
            Err(chars_to_string(&m))
        }
    }
}

impl std::str::FromStr for SystemPhase {
    type Err = String;

    fn from_str(s: &str) -> (r: Result<Self, Self::Err>)
        ensures
            r matches Ok(p) ==> phase_name(p) == lower_ascii(s@),
            r is Err ==> (forall|p: SystemPhase| phase_name(p) != lower_ascii(s@)),
            r matches Err(e) ==> e@ == "Unknown system phase: '"@ + s@
                + "'. Expected: validate, modify, execute, react, monitor"@,
    {
        SystemPhase::parse(s)
    }
}

/// The rank of a stage; stages are ordered by rank.
pub open spec fn stage_rank(s: Stage) -> int {
    match s {
        Stage::Startup => 0,
        Stage::ServerActivate => 10,
        Stage::Frame => 20,
        Stage::PostThink => 30,
        Stage::PlayerConnect => 40,
        Stage::PlayerDisconnect => 50,
        Stage::EntitySpawn => 60,
        Stage::TakeDamage => 70,
        Stage::EntityKilled => 80,
        Stage::RoundStart => 90,
        Stage::RoundEnd => 100,
        Stage::RoundFreezeEnd => 110,
    }
}

/// The name of a stage.
pub open spec fn stage_name(s: Stage) -> Seq<char> {
    match s {
        Stage::Startup => "startup"@,
        Stage::ServerActivate => "server_activate"@,
        Stage::Frame => "frame"@,
        Stage::PostThink => "post_think"@,
        Stage::PlayerConnect => "player_connect"@,
        Stage::PlayerDisconnect => "player_disconnect"@,
        Stage::EntitySpawn => "entity_spawn"@,
        Stage::TakeDamage => "take_damage"@,
        Stage::EntityKilled => "entity_killed"@,
        Stage::RoundStart => "round_start"@,
        Stage::RoundEnd => "round_end"@,
        Stage::RoundFreezeEnd => "round_freeze_end"@,
    }
}

/// Execution stage for ECS systems in the GoldSrc lifecycle.
#[derive(Debug, Clone, Copy, PartialEq, Eq, Structural, Hash, PartialOrd, Ord)]
pub enum Stage {
    /// Plugin initialization (`on_load`).
    Startup,
    /// The map or server activates (`on_server_activate`).
    ServerActivate,
    /// Every server frame (`on_server_frame`).
    Frame,
    /// The player post-think physics step (`player_post_think`).
    PostThink,
    /// A player connects (`client_connect`).
    PlayerConnect,
    /// A player disconnects (`client_disconnect`).
    PlayerDisconnect,
    /// An entity spawns (`entity_spawn`).
    EntitySpawn,
    /// An entity takes damage (`entity_take_damage`).
    TakeDamage,
    /// An entity is killed (`entity_killed`).
    EntityKilled,
    /// A new round starts (`round_start`).
    RoundStart,
    /// A round ends (`round_end`).
    RoundEnd,
    /// The freeze period ends and players can move (`round_freeze_end`).
    RoundFreezeEnd,
}

impl Stage {
    /// The stage's rank: 0, 10, ..., 110 in order of declaration.
    pub fn code(&self) -> (c: u8)
        ensures
            c == stage_rank(*self),
    {
        match self {
            Stage::Startup => 0,
            Stage::ServerActivate => 10,
            Stage::Frame => 20,
            Stage::PostThink => 30,
            Stage::PlayerConnect => 40,
            Stage::PlayerDisconnect => 50,
            Stage::EntitySpawn => 60,
            Stage::TakeDamage => 70,
            Stage::EntityKilled => 80,
            Stage::RoundStart => 90,
            Stage::RoundEnd => 100,
            Stage::RoundFreezeEnd => 110,
        }
    }

    /// All stages in order of declaration.
    pub fn all() -> (v: Vec<Stage>)
        ensures
            v@ == seq![Stage::Startup, Stage::ServerActivate, Stage::Frame, Stage::PostThink,
                Stage::PlayerConnect, Stage::PlayerDisconnect, Stage::EntitySpawn,
                Stage::TakeDamage, Stage::EntityKilled, Stage::RoundStart, Stage::RoundEnd,
                Stage::RoundFreezeEnd],
    {
        let v = vec![Stage::Startup, Stage::ServerActivate, Stage::Frame, Stage::PostThink,
            Stage::PlayerConnect, Stage::PlayerDisconnect, Stage::EntitySpawn,
            Stage::TakeDamage, Stage::EntityKilled, Stage::RoundStart, Stage::RoundEnd,
            Stage::RoundFreezeEnd];
        v
    }

    /// The stage's name.
    pub fn as_str(&self) -> (r: &'static str)
        ensures
            r@ == stage_name(*self),
    {
        match self {
            Stage::Startup => "startup",
            Stage::ServerActivate => "server_activate",
            Stage::Frame => "frame",
            Stage::PostThink => "post_think",
            Stage::PlayerConnect => "player_connect",
            Stage::PlayerDisconnect => "player_disconnect",
            Stage::EntitySpawn => "entity_spawn",
            Stage::TakeDamage => "take_damage",
            Stage::EntityKilled => "entity_killed",
            Stage::RoundStart => "round_start",
            Stage::RoundEnd => "round_end",
            Stage::RoundFreezeEnd => "round_freeze_end",
        }
    }

    /// Parses a stage name, ignoring ASCII case.
    pub fn parse(s: &str) -> (r: Result<Stage, String>)
        ensures
            r matches Ok(st) ==> stage_name(st) == lower_ascii(s@),
            r is Err ==> (forall|st: Stage| stage_name(st) != lower_ascii(s@)),
            r matches Err(e) ==> e@ == "Unknown stage: '"@ + s@
                + "'. Expected: startup, server_activate, frame, post_think, player_connect, player_disconnect, entity_spawn, take_damage, entity_killed, round_start, round_end, round_freeze_end"@,
    {
        let l = lower_ascii_chars(s);
        if chars_eq_str(&l, "startup") {
            Ok(Stage::Startup)
        } else if chars_eq_str(&l, "server_activate") {
            Ok(Stage::ServerActivate)
        } else if chars_eq_str(&l, "frame") {
            Ok(Stage::Frame)
        } else if chars_eq_str(&l, "post_think") {
            Ok(Stage::PostThink)
        } else if chars_eq_str(&l, "player_connect") {
            Ok(Stage::PlayerConnect)
        } else if chars_eq_str(&l, "player_disconnect") {
            Ok(Stage::PlayerDisconnect)
        } else if chars_eq_str(&l, "entity_spawn") {
            Ok(Stage::EntitySpawn)
        } else if chars_eq_str(&l, "take_damage") {
            Ok(Stage::TakeDamage)
        } else if chars_eq_str(&l, "entity_killed") {
            Ok(Stage::EntityKilled)
        } else if chars_eq_str(&l, "round_start") {
            Ok(Stage::RoundStart)
        } else if chars_eq_str(&l, "round_end") {
            Ok(Stage::RoundEnd)
        } else if chars_eq_str(&l, "round_freeze_end") {
            Ok(Stage::RoundFreezeEnd)
        } else {
            let mut m: Vec<char> = Vec::new();
            extend_str(&mut m, "Unknown stage: '");
            extend_str(&mut m, s);
            extend_str(&mut m, "'. Expected: startup, server_activate, frame, post_think, player_connect, player_disconnect, entity_spawn, take_damage, entity_killed, round_start, round_end, round_freeze_end");
            proof {
                assert forall|st: Stage| stage_name(st) != lower_ascii(s@) by {
                    match st {
                        Stage::Startup => {},
                        Stage::ServerActivate => {},
                        Stage::Frame => {},
                        Stage::PostThink => {},
                        Stage::PlayerConnect => {},
                        Stage::PlayerDisconnect => {},
                        Stage::EntitySpawn => {},
                        Stage::TakeDamage => {},
                        Stage::EntityKilled => {},
                        Stage::RoundStart => {},
                        Stage::RoundEnd => {},
                        Stage::RoundFreezeEnd => {},
                    }
                }
            }
            Err(chars_to_string(&m))
        }
    }
}

impl std::str::FromStr for Stage {
    type Err = String;

    fn from_str(s: &str) -> (r: Result<Self, Self::Err>)
        ensures
            r matches Ok(st) ==> stage_name(st) == lower_ascii(s@),
            r is Err ==> (forall|st: Stage| stage_name(st) != lower_ascii(s@)),
            r matches Err(e) ==> e@ == "Unknown stage: '"@ + s@
                + "'. Expected: startup, server_activate, frame, post_think, player_connect, player_disconnect, entity_spawn, take_damage, entity_killed, round_start, round_end, round_freeze_end"@,
    {
        Stage::parse(s)
    }
}


/// Every phase's name parses back to the phase (`SystemPhase::parse` of
/// `as_str`, in any ASCII case): the name is already lowercase and no other
/// phase has it.
pub proof fn lemma_phase_name_parses_back(p: SystemPhase)
    ensures
        lower_ascii(phase_name(p)) == phase_name(p),
        forall|q: SystemPhase| #[trigger] phase_name(q) == phase_name(p) ==> q == p,
{
    reveal_strlit("validate");
    reveal_strlit("modify");
    reveal_strlit("execute");
    reveal_strlit("react");
    reveal_strlit("monitor");
    match p {
        SystemPhase::Validate => {
            assert forall|i: int| 0 <= i < "validate"@.len() implies ascii_lower(#[trigger] "validate"@[i]) == "validate"@[i] by {
                if i == 0 {} else if i == 1 {} else if i == 2 {} else if i == 3 {} else if i == 4 {} else if i == 5 {} else if i == 6 {} else if i == 7 {}
            }
            assert(lower_ascii("validate"@) =~= "validate"@);
            assert forall|q: SystemPhase| #[trigger] phase_name(q) == phase_name(p) implies q == p by {
                match q {
                    SystemPhase::Validate => {},
                    SystemPhase::Modify => { assert("modify"@.len() != "validate"@.len()); },
                    SystemPhase::Execute => { assert("execute"@.len() != "validate"@.len()); },
                    SystemPhase::React => { assert("react"@.len() != "validate"@.len()); },
                    SystemPhase::Monitor => { assert("monitor"@.len() != "validate"@.len()); },
                }
            }
        },
        SystemPhase::Modify => {
            assert forall|i: int| 0 <= i < "modify"@.len() implies ascii_lower(#[trigger] "modify"@[i]) == "modify"@[i] by {
                if i == 0 {} else if i == 1 {} else if i == 2 {} else if i == 3 {} else if i == 4 {} else if i == 5 {}
            }
            assert(lower_ascii("modify"@) =~= "modify"@);
            assert forall|q: SystemPhase| #[trigger] phase_name(q) == phase_name(p) implies q == p by {
                match q {
                    SystemPhase::Validate => { assert("validate"@.len() != "modify"@.len()); },
                    SystemPhase::Modify => {},
                    SystemPhase::Execute => { assert("execute"@.len() != "modify"@.len()); },
                    SystemPhase::React => { assert("react"@.len() != "modify"@.len()); },
                    SystemPhase::Monitor => { assert("monitor"@.len() != "modify"@.len()); },
                }
            }
        },
        SystemPhase::Execute => {
            assert forall|i: int| 0 <= i < "execute"@.len() implies ascii_lower(#[trigger] "execute"@[i]) == "execute"@[i] by {
                if i == 0 {} else if i == 1 {} else if i == 2 {} else if i == 3 {} else if i == 4 {} else if i == 5 {} else if i == 6 {}
            }
            assert(lower_ascii("execute"@) =~= "execute"@);
            assert forall|q: SystemPhase| #[trigger] phase_name(q) == phase_name(p) implies q == p by {
                match q {
                    SystemPhase::Validate => { assert("validate"@.len() != "execute"@.len()); },
                    SystemPhase::Modify => { assert("modify"@.len() != "execute"@.len()); },
                    SystemPhase::Execute => {},
                    SystemPhase::React => { assert("react"@.len() != "execute"@.len()); },
                    SystemPhase::Monitor => { assert("monitor"@[0] != "execute"@[0]); },
                }
            }
        },
        SystemPhase::React => {
            assert forall|i: int| 0 <= i < "react"@.len() implies ascii_lower(#[trigger] "react"@[i]) == "react"@[i] by {
                if i == 0 {} else if i == 1 {} else if i == 2 {} else if i == 3 {} else if i == 4 {}
            }
            assert(lower_ascii("react"@) =~= "react"@);
            assert forall|q: SystemPhase| #[trigger] phase_name(q) == phase_name(p) implies q == p by {
                match q {
                    SystemPhase::Validate => { assert("validate"@.len() != "react"@.len()); },
                    SystemPhase::Modify => { assert("modify"@.len() != "react"@.len()); },
                    SystemPhase::Execute => { assert("execute"@.len() != "react"@.len()); },
                    SystemPhase::React => {},
                    SystemPhase::Monitor => { assert("monitor"@.len() != "react"@.len()); },
                }
            }
        },
        SystemPhase::Monitor => {
            assert forall|i: int| 0 <= i < "monitor"@.len() implies ascii_lower(#[trigger] "monitor"@[i]) == "monitor"@[i] by {
                if i == 0 {} else if i == 1 {} else if i == 2 {} else if i == 3 {} else if i == 4 {} else if i == 5 {} else if i == 6 {}
            }
            assert(lower_ascii("monitor"@) =~= "monitor"@);
            assert forall|q: SystemPhase| #[trigger] phase_name(q) == phase_name(p) implies q == p by {
                match q {
                    SystemPhase::Validate => { assert("validate"@.len() != "monitor"@.len()); },
                    SystemPhase::Modify => { assert("modify"@.len() != "monitor"@.len()); },
                    SystemPhase::Execute => { assert("execute"@[0] != "monitor"@[0]); },
                    SystemPhase::React => { assert("react"@.len() != "monitor"@.len()); },
                    SystemPhase::Monitor => {},
                }
            }
        },
    }
}


/// Every stage's name parses back to the stage (`Stage::parse` of
/// `as_str`, in any ASCII case): the name is already lowercase and no other
/// stage has it.
pub proof fn lemma_stage_name_parses_back(st: Stage)
    ensures
        lower_ascii(stage_name(st)) == stage_name(st),
        forall|q: Stage| #[trigger] stage_name(q) == stage_name(st) ==> q == st,
{
    reveal_strlit("startup");
    reveal_strlit("server_activate");
    reveal_strlit("frame");
    reveal_strlit("post_think");
    reveal_strlit("player_connect");
    reveal_strlit("player_disconnect");
    reveal_strlit("entity_spawn");
    reveal_strlit("take_damage");
    reveal_strlit("entity_killed");
    reveal_strlit("round_start");
    reveal_strlit("round_end");
    reveal_strlit("round_freeze_end");
    match st {
        Stage::Startup => {
            assert forall|i: int| 0 <= i < "startup"@.len() implies ascii_lower(#[trigger] "startup"@[i]) == "startup"@[i] by {
                if i == 0 {} else if i == 1 {} else if i == 2 {} else if i == 3 {} else if i == 4 {} else if i == 5 {} else if i == 6 {}
            }
            assert(lower_ascii("startup"@) =~= "startup"@);
            assert forall|q: Stage| #[trigger] stage_name(q) == stage_name(st) implies q == st by {
                match q {
                    Stage::Startup => {},
                    Stage::ServerActivate => { assert("server_activate"@.len() != "startup"@.len()); },
                    Stage::Frame => { assert("frame"@.len() != "startup"@.len()); },
                    Stage::PostThink => { assert("post_think"@.len() != "startup"@.len()); },
                    Stage::PlayerConnect => { assert("player_connect"@.len() != "startup"@.len()); },
                    Stage::PlayerDisconnect => { assert("player_disconnect"@.len() != "startup"@.len()); },
                    Stage::EntitySpawn => { assert("entity_spawn"@.len() != "startup"@.len()); },
                    Stage::TakeDamage => { assert("take_damage"@.len() != "startup"@.len()); },
                    Stage::EntityKilled => { assert("entity_killed"@.len() != "startup"@.len()); },
                    Stage::RoundStart => { assert("round_start"@.len() != "startup"@.len()); },
                    Stage::RoundEnd => { assert("round_end"@.len() != "startup"@.len()); },
                    Stage::RoundFreezeEnd => { assert("round_freeze_end"@.len() != "startup"@.len()); },
                }
            }
        },
        Stage::ServerActivate => {
            assert forall|i: int| 0 <= i < "server_activate"@.len() implies ascii_lower(#[trigger] "server_activate"@[i]) == "server_activate"@[i] by {
                if i == 0 {} else if i == 1 {} else if i == 2 {} else if i == 3 {} else if i == 4 {} else if i == 5 {} else if i == 6 {} else if i == 7 {} else if i == 8 {} else if i == 9 {} else if i == 10 {} else if i == 11 {} else if i == 12 {} else if i == 13 {} else if i == 14 {}
            }
            assert(lower_ascii("server_activate"@) =~= "server_activate"@);
            assert forall|q: Stage| #[trigger] stage_name(q) == stage_name(st) implies q == st by {
                match q {
                    Stage::Startup => { assert("startup"@.len() != "server_activate"@.len()); },
                    Stage::ServerActivate => {},
                    Stage::Frame => { assert("frame"@.len() != "server_activate"@.len()); },
                    Stage::PostThink => { assert("post_think"@.len() != "server_activate"@.len()); },
                    Stage::PlayerConnect => { assert("player_connect"@.len() != "server_activate"@.len()); },
                    Stage::PlayerDisconnect => { assert("player_disconnect"@.len() != "server_activate"@.len()); },
                    Stage::EntitySpawn => { assert("entity_spawn"@.len() != "server_activate"@.len()); },
                    Stage::TakeDamage => { assert("take_damage"@.len() != "server_activate"@.len()); },
                    Stage::EntityKilled => { assert("entity_killed"@.len() != "server_activate"@.len()); },
                    Stage::RoundStart => { assert("round_start"@.len() != "server_activate"@.len()); },
                    Stage::RoundEnd => { assert("round_end"@.len() != "server_activate"@.len()); },
                    Stage::RoundFreezeEnd => { assert("round_freeze_end"@.len() != "server_activate"@.len()); },
                }
            }
        },
        Stage::Frame => {
            assert forall|i: int| 0 <= i < "frame"@.len() implies ascii_lower(#[trigger] "frame"@[i]) == "frame"@[i] by {
                if i == 0 {} else if i == 1 {} else if i == 2 {} else if i == 3 {} else if i == 4 {}
            }
            assert(lower_ascii("frame"@) =~= "frame"@);
            assert forall|q: Stage| #[trigger] stage_name(q) == stage_name(st) implies q == st by {
                match q {
                    Stage::Startup => { assert("startup"@.len() != "frame"@.len()); },
                    Stage::ServerActivate => { assert("server_activate"@.len() != "frame"@.len()); },
                    Stage::Frame => {},
                    Stage::PostThink => { assert("post_think"@.len() != "frame"@.len()); },
                    Stage::PlayerConnect => { assert("player_connect"@.len() != "frame"@.len()); },
                    Stage::PlayerDisconnect => { assert("player_disconnect"@.len() != "frame"@.len()); },
                    Stage::EntitySpawn => { assert("entity_spawn"@.len() != "frame"@.len()); },
                    Stage::TakeDamage => { assert("take_damage"@.len() != "frame"@.len()); },
                    Stage::EntityKilled => { assert("entity_killed"@.len() != "frame"@.len()); },
                    Stage::RoundStart => { assert("round_start"@.len() != "frame"@.len()); },
                    Stage::RoundEnd => { assert("round_end"@.len() != "frame"@.len()); },
                    Stage::RoundFreezeEnd => { assert("round_freeze_end"@.len() != "frame"@.len()); },
                }
            }
        },
        Stage::PostThink => {
            assert forall|i: int| 0 <= i < "post_think"@.len() implies ascii_lower(#[trigger] "post_think"@[i]) == "post_think"@[i] by {
                if i == 0 {} else if i == 1 {} else if i == 2 {} else if i == 3 {} else if i == 4 {} else if i == 5 {} else if i == 6 {} else if i == 7 {} else if i == 8 {} else if i == 9 {}
            }
            assert(lower_ascii("post_think"@) =~= "post_think"@);
            assert forall|q: Stage| #[trigger] stage_name(q) == stage_name(st) implies q == st by {
                match q {
                    Stage::Startup => { assert("startup"@.len() != "post_think"@.len()); },
                    Stage::ServerActivate => { assert("server_activate"@.len() != "post_think"@.len()); },
                    Stage::Frame => { assert("frame"@.len() != "post_think"@.len()); },
                    Stage::PostThink => {},
                    Stage::PlayerConnect => { assert("player_connect"@.len() != "post_think"@.len()); },
                    Stage::PlayerDisconnect => { assert("player_disconnect"@.len() != "post_think"@.len()); },
                    Stage::EntitySpawn => { assert("entity_spawn"@.len() != "post_think"@.len()); },
                    Stage::TakeDamage => { assert("take_damage"@.len() != "post_think"@.len()); },
                    Stage::EntityKilled => { assert("entity_killed"@.len() != "post_think"@.len()); },
                    Stage::RoundStart => { assert("round_start"@.len() != "post_think"@.len()); },
                    Stage::RoundEnd => { assert("round_end"@.len() != "post_think"@.len()); },
                    Stage::RoundFreezeEnd => { assert("round_freeze_end"@.len() != "post_think"@.len()); },
                }
            }
        },
        Stage::PlayerConnect => {
            assert forall|i: int| 0 <= i < "player_connect"@.len() implies ascii_lower(#[trigger] "player_connect"@[i]) == "player_connect"@[i] by {
                if i == 0 {} else if i == 1 {} else if i == 2 {} else if i == 3 {} else if i == 4 {} else if i == 5 {} else if i == 6 {} else if i == 7 {} else if i == 8 {} else if i == 9 {} else if i == 10 {} else if i == 11 {} else if i == 12 {} else if i == 13 {}
            }
            assert(lower_ascii("player_connect"@) =~= "player_connect"@);
            assert forall|q: Stage| #[trigger] stage_name(q) == stage_name(st) implies q == st by {
                match q {
                    Stage::Startup => { assert("startup"@.len() != "player_connect"@.len()); },
                    Stage::ServerActivate => { assert("server_activate"@.len() != "player_connect"@.len()); },
                    Stage::Frame => { assert("frame"@.len() != "player_connect"@.len()); },
                    Stage::PostThink => { assert("post_think"@.len() != "player_connect"@.len()); },
                    Stage::PlayerConnect => {},
                    Stage::PlayerDisconnect => { assert("player_disconnect"@.len() != "player_connect"@.len()); },
                    Stage::EntitySpawn => { assert("entity_spawn"@.len() != "player_connect"@.len()); },
                    Stage::TakeDamage => { assert("take_damage"@.len() != "player_connect"@.len()); },
                    Stage::EntityKilled => { assert("entity_killed"@.len() != "player_connect"@.len()); },
                    Stage::RoundStart => { assert("round_start"@.len() != "player_connect"@.len()); },
                    Stage::RoundEnd => { assert("round_end"@.len() != "player_connect"@.len()); },
                    Stage::RoundFreezeEnd => { assert("round_freeze_end"@.len() != "player_connect"@.len()); },
                }
            }
        },
        Stage::PlayerDisconnect => {
            assert forall|i: int| 0 <= i < "player_disconnect"@.len() implies ascii_lower(#[trigger] "player_disconnect"@[i]) == "player_disconnect"@[i] by {
                if i == 0 {} else if i == 1 {} else if i == 2 {} else if i == 3 {} else if i == 4 {} else if i == 5 {} else if i == 6 {} else if i == 7 {} else if i == 8 {} else if i == 9 {} else if i == 10 {} else if i == 11 {} else if i == 12 {} else if i == 13 {} else if i == 14 {} else if i == 15 {} else if i == 16 {}
            }
            assert(lower_ascii("player_disconnect"@) =~= "player_disconnect"@);
            assert forall|q: Stage| #[trigger] stage_name(q) == stage_name(st) implies q == st by {
                match q {
                    Stage::Startup => { assert("startup"@.len() != "player_disconnect"@.len()); },
                    Stage::ServerActivate => { assert("server_activate"@.len() != "player_disconnect"@.len()); },
                    Stage::Frame => { assert("frame"@.len() != "player_disconnect"@.len()); },
                    Stage::PostThink => { assert("post_think"@.len() != "player_disconnect"@.len()); },
                    Stage::PlayerConnect => { assert("player_connect"@.len() != "player_disconnect"@.len()); },
                    Stage::PlayerDisconnect => {},
                    Stage::EntitySpawn => { assert("entity_spawn"@.len() != "player_disconnect"@.len()); },
                    Stage::TakeDamage => { assert("take_damage"@.len() != "player_disconnect"@.len()); },
                    Stage::EntityKilled => { assert("entity_killed"@.len() != "player_disconnect"@.len()); },
                    Stage::RoundStart => { assert("round_start"@.len() != "player_disconnect"@.len()); },
                    Stage::RoundEnd => { assert("round_end"@.len() != "player_disconnect"@.len()); },
                    Stage::RoundFreezeEnd => { assert("round_freeze_end"@.len() != "player_disconnect"@.len()); },
                }
            }
        },
        Stage::EntitySpawn => {
            assert forall|i: int| 0 <= i < "entity_spawn"@.len() implies ascii_lower(#[trigger] "entity_spawn"@[i]) == "entity_spawn"@[i] by {
                if i == 0 {} else if i == 1 {} else if i == 2 {} else if i == 3 {} else if i == 4 {} else if i == 5 {} else if i == 6 {} else if i == 7 {} else if i == 8 {} else if i == 9 {} else if i == 10 {} else if i == 11 {}
            }
            assert(lower_ascii("entity_spawn"@) =~= "entity_spawn"@);
            assert forall|q: Stage| #[trigger] stage_name(q) == stage_name(st) implies q == st by {
                match q {
                    Stage::Startup => { assert("startup"@.len() != "entity_spawn"@.len()); },
                    Stage::ServerActivate => { assert("server_activate"@.len() != "entity_spawn"@.len()); },
                    Stage::Frame => { assert("frame"@.len() != "entity_spawn"@.len()); },
                    Stage::PostThink => { assert("post_think"@.len() != "entity_spawn"@.len()); },
                    Stage::PlayerConnect => { assert("player_connect"@.len() != "entity_spawn"@.len()); },
                    Stage::PlayerDisconnect => { assert("player_disconnect"@.len() != "entity_spawn"@.len()); },
                    Stage::EntitySpawn => {},
                    Stage::TakeDamage => { assert("take_damage"@.len() != "entity_spawn"@.len()); },
                    Stage::EntityKilled => { assert("entity_killed"@.len() != "entity_spawn"@.len()); },
                    Stage::RoundStart => { assert("round_start"@.len() != "entity_spawn"@.len()); },
                    Stage::RoundEnd => { assert("round_end"@.len() != "entity_spawn"@.len()); },
                    Stage::RoundFreezeEnd => { assert("round_freeze_end"@.len() != "entity_spawn"@.len()); },
                }
            }
        },
        Stage::TakeDamage => {
            assert forall|i: int| 0 <= i < "take_damage"@.len() implies ascii_lower(#[trigger] "take_damage"@[i]) == "take_damage"@[i] by {
                if i == 0 {} else if i == 1 {} else if i == 2 {} else if i == 3 {} else if i == 4 {} else if i == 5 {} else if i == 6 {} else if i == 7 {} else if i == 8 {} else if i == 9 {} else if i == 10 {}
            }
            assert(lower_ascii("take_damage"@) =~= "take_damage"@);
            assert forall|q: Stage| #[trigger] stage_name(q) == stage_name(st) implies q == st by {
                match q {
                    Stage::Startup => { assert("startup"@.len() != "take_damage"@.len()); },
                    Stage::ServerActivate => { assert("server_activate"@.len() != "take_damage"@.len()); },
                    Stage::Frame => { assert("frame"@.len() != "take_damage"@.len()); },
                    Stage::PostThink => { assert("post_think"@.len() != "take_damage"@.len()); },
                    Stage::PlayerConnect => { assert("player_connect"@.len() != "take_damage"@.len()); },
                    Stage::PlayerDisconnect => { assert("player_disconnect"@.len() != "take_damage"@.len()); },
                    Stage::EntitySpawn => { assert("entity_spawn"@.len() != "take_damage"@.len()); },
                    Stage::TakeDamage => {},
                    Stage::EntityKilled => { assert("entity_killed"@.len() != "take_damage"@.len()); },
                    Stage::RoundStart => { assert("round_start"@[0] != "take_damage"@[0]); },
                    Stage::RoundEnd => { assert("round_end"@.len() != "take_damage"@.len()); },
                    Stage::RoundFreezeEnd => { assert("round_freeze_end"@.len() != "take_damage"@.len()); },
                }
            }
        },
        Stage::EntityKilled => {
            assert forall|i: int| 0 <= i < "entity_killed"@.len() implies ascii_lower(#[trigger] "entity_killed"@[i]) == "entity_killed"@[i] by {
                if i == 0 {} else if i == 1 {} else if i == 2 {} else if i == 3 {} else if i == 4 {} else if i == 5 {} else if i == 6 {} else if i == 7 {} else if i == 8 {} else if i == 9 {} else if i == 10 {} else if i == 11 {} else if i == 12 {}
            }
            assert(lower_ascii("entity_killed"@) =~= "entity_killed"@);
            assert forall|q: Stage| #[trigger] stage_name(q) == stage_name(st) implies q == st by {
                match q {
                    Stage::Startup => { assert("startup"@.len() != "entity_killed"@.len()); },
                    Stage::ServerActivate => { assert("server_activate"@.len() != "entity_killed"@.len()); },
                    Stage::Frame => { assert("frame"@.len() != "entity_killed"@.len()); },
                    Stage::PostThink => { assert("post_think"@.len() != "entity_killed"@.len()); },
                    Stage::PlayerConnect => { assert("player_connect"@.len() != "entity_killed"@.len()); },
                    Stage::PlayerDisconnect => { assert("player_disconnect"@.len() != "entity_killed"@.len()); },
                    Stage::EntitySpawn => { assert("entity_spawn"@.len() != "entity_killed"@.len()); },
                    Stage::TakeDamage => { assert("take_damage"@.len() != "entity_killed"@.len()); },
                    Stage::EntityKilled => {},
                    Stage::RoundStart => { assert("round_start"@.len() != "entity_killed"@.len()); },
                    Stage::RoundEnd => { assert("round_end"@.len() != "entity_killed"@.len()); },
                    Stage::RoundFreezeEnd => { assert("round_freeze_end"@.len() != "entity_killed"@.len()); },
                }
            }
        },
        Stage::RoundStart => {
            assert forall|i: int| 0 <= i < "round_start"@.len() implies ascii_lower(#[trigger] "round_start"@[i]) == "round_start"@[i] by {
                if i == 0 {} else if i == 1 {} else if i == 2 {} else if i == 3 {} else if i == 4 {} else if i == 5 {} else if i == 6 {} else if i == 7 {} else if i == 8 {} else if i == 9 {} else if i == 10 {}
            }
            assert(lower_ascii("round_start"@) =~= "round_start"@);
            assert forall|q: Stage| #[trigger] stage_name(q) == stage_name(st) implies q == st by {
                match q {
                    Stage::Startup => { assert("startup"@.len() != "round_start"@.len()); },
                    Stage::ServerActivate => { assert("server_activate"@.len() != "round_start"@.len()); },
                    Stage::Frame => { assert("frame"@.len() != "round_start"@.len()); },
                    Stage::PostThink => { assert("post_think"@.len() != "round_start"@.len()); },
                    Stage::PlayerConnect => { assert("player_connect"@.len() != "round_start"@.len()); },
                    Stage::PlayerDisconnect => { assert("player_disconnect"@.len() != "round_start"@.len()); },
                    Stage::EntitySpawn => { assert("entity_spawn"@.len() != "round_start"@.len()); },
                    Stage::TakeDamage => { assert("take_damage"@[0] != "round_start"@[0]); },
                    Stage::EntityKilled => { assert("entity_killed"@.len() != "round_start"@.len()); },
                    Stage::RoundStart => {},
                    Stage::RoundEnd => { assert("round_end"@.len() != "round_start"@.len()); },
                    Stage::RoundFreezeEnd => { assert("round_freeze_end"@.len() != "round_start"@.len()); },
                }
            }
        },
        Stage::RoundEnd => {
            assert forall|i: int| 0 <= i < "round_end"@.len() implies ascii_lower(#[trigger] "round_end"@[i]) == "round_end"@[i] by {
                if i == 0 {} else if i == 1 {} else if i == 2 {} else if i == 3 {} else if i == 4 {} else if i == 5 {} else if i == 6 {} else if i == 7 {} else if i == 8 {}
            }
            assert(lower_ascii("round_end"@) =~= "round_end"@);
            assert forall|q: Stage| #[trigger] stage_name(q) == stage_name(st) implies q == st by {
                match q {
                    Stage::Startup => { assert("startup"@.len() != "round_end"@.len()); },
                    Stage::ServerActivate => { assert("server_activate"@.len() != "round_end"@.len()); },
                    Stage::Frame => { assert("frame"@.len() != "round_end"@.len()); },
                    Stage::PostThink => { assert("post_think"@.len() != "round_end"@.len()); },
                    Stage::PlayerConnect => { assert("player_connect"@.len() != "round_end"@.len()); },
                    Stage::PlayerDisconnect => { assert("player_disconnect"@.len() != "round_end"@.len()); },
                    Stage::EntitySpawn => { assert("entity_spawn"@.len() != "round_end"@.len()); },
                    Stage::TakeDamage => { assert("take_damage"@.len() != "round_end"@.len()); },
                    Stage::EntityKilled => { assert("entity_killed"@.len() != "round_end"@.len()); },
                    Stage::RoundStart => { assert("round_start"@.len() != "round_end"@.len()); },
                    Stage::RoundEnd => {},
                    Stage::RoundFreezeEnd => { assert("round_freeze_end"@.len() != "round_end"@.len()); },
                }
            }
        },
        Stage::RoundFreezeEnd => {
            assert forall|i: int| 0 <= i < "round_freeze_end"@.len() implies ascii_lower(#[trigger] "round_freeze_end"@[i]) == "round_freeze_end"@[i] by {
                if i == 0 {} else if i == 1 {} else if i == 2 {} else if i == 3 {} else if i == 4 {} else if i == 5 {} else if i == 6 {} else if i == 7 {} else if i == 8 {} else if i == 9 {} else if i == 10 {} else if i == 11 {} else if i == 12 {} else if i == 13 {} else if i == 14 {} else if i == 15 {}
            }
            assert(lower_ascii("round_freeze_end"@) =~= "round_freeze_end"@);
            assert forall|q: Stage| #[trigger] stage_name(q) == stage_name(st) implies q == st by {
                match q {
                    Stage::Startup => { assert("startup"@.len() != "round_freeze_end"@.len()); },
                    Stage::ServerActivate => { assert("server_activate"@.len() != "round_freeze_end"@.len()); },
                    Stage::Frame => { assert("frame"@.len() != "round_freeze_end"@.len()); },
                    Stage::PostThink => { assert("post_think"@.len() != "round_freeze_end"@.len()); },
                    Stage::PlayerConnect => { assert("player_connect"@.len() != "round_freeze_end"@.len()); },
                    Stage::PlayerDisconnect => { assert("player_disconnect"@.len() != "round_freeze_end"@.len()); },
                    Stage::EntitySpawn => { assert("entity_spawn"@.len() != "round_freeze_end"@.len()); },
                    Stage::TakeDamage => { assert("take_damage"@.len() != "round_freeze_end"@.len()); },
                    Stage::EntityKilled => { assert("entity_killed"@.len() != "round_freeze_end"@.len()); },
                    Stage::RoundStart => { assert("round_start"@.len() != "round_freeze_end"@.len()); },
                    Stage::RoundEnd => { assert("round_end"@.len() != "round_freeze_end"@.len()); },
                    Stage::RoundFreezeEnd => {},
                }
            }
        },
    }
}

} // verus!
