//! Counter-Strike 1.6 weapons, inventory slots and round rules.

use vstd::prelude::*;

verus! {

/// Counter-Strike 1.6 weapon identifiers (the game's `CSW_*` constants).
#[derive(Debug, Clone, Copy, PartialEq, Eq, Structural, Hash)]
pub enum CsWeapon {
    NoWeapon,
    P228,
    Glock,
    Scout,
    HeGrenade,
    Xm1014,
    C4,
    Mac10,
    Aug,
    SmokeGrenade,
    Elite,
    Fiveseven,
    Usp,
    Glock18,
    AwP,
    Mp5Navy,
    M249,
    M3,
    M4a1,
    Tmp,
    G3sg1,
    Flashbang,
    Deagle,
    Sg552,
    Ak47,
    Knife,
    P90,
    Galil,
    Famas,
    Ump45,
    Sg550,
}

/// Weapon slot inventory classification.
#[derive(Debug, Clone, Copy, PartialEq, Eq, Structural, Hash)]
pub enum WeaponSlot {
    Primary,
    Secondary,
    Knife,
    Grenade,
    C4,
}

/// The `CSW_*` number of a weapon.
pub open spec fn weapon_id(w: CsWeapon) -> int {
    match w {
        CsWeapon::NoWeapon => 0,
        CsWeapon::P228 => 1,
        CsWeapon::Glock => 2,
        CsWeapon::Scout => 3,
        CsWeapon::HeGrenade => 4,
        CsWeapon::Xm1014 => 5,
        CsWeapon::C4 => 6,
        CsWeapon::Mac10 => 7,
        CsWeapon::Aug => 8,
        CsWeapon::SmokeGrenade => 9,
        CsWeapon::Elite => 10,
        CsWeapon::Fiveseven => 11,
        CsWeapon::Usp => 12,
        CsWeapon::Glock18 => 13,
        CsWeapon::AwP => 14,
        CsWeapon::Mp5Navy => 15,
        CsWeapon::M249 => 16,
        CsWeapon::M3 => 17,
        CsWeapon::M4a1 => 18,
        CsWeapon::Tmp => 19,
        CsWeapon::G3sg1 => 20,
        CsWeapon::Flashbang => 21,
        CsWeapon::Deagle => 22,
        CsWeapon::Sg552 => 23,
        CsWeapon::Ak47 => 24,
        CsWeapon::Knife => 25,
        CsWeapon::P90 => 26,
        CsWeapon::Galil => 140,
        CsWeapon::Famas => 141,
        CsWeapon::Ump45 => 142,
        CsWeapon::Sg550 => 143,
    }
}

/// The entity classname that spawns a weapon; empty for no weapon.
pub open spec fn weapon_classname(w: CsWeapon) -> Seq<char> {
    match w {
        CsWeapon::NoWeapon => ""@,
        CsWeapon::P228 => "weapon_p228"@,
        CsWeapon::Glock => "weapon_glock18"@,
        CsWeapon::Scout => "weapon_scout"@,
        CsWeapon::HeGrenade => "weapon_hegrenade"@,
        CsWeapon::Xm1014 => "weapon_xm1014"@,
        CsWeapon::C4 => "weapon_c4"@,
        CsWeapon::Mac10 => "weapon_mac10"@,
        CsWeapon::Aug => "weapon_aug"@,
        CsWeapon::SmokeGrenade => "weapon_smokegrenade"@,
        CsWeapon::Elite => "weapon_elite"@,
        CsWeapon::Fiveseven => "weapon_fiveseven"@,
        CsWeapon::Usp => "weapon_usp"@,
        CsWeapon::Glock18 => "weapon_glock18"@,
        CsWeapon::AwP => "weapon_awp"@,
        CsWeapon::Mp5Navy => "weapon_mp5navy"@,
        CsWeapon::M249 => "weapon_m249"@,
        CsWeapon::M3 => "weapon_m3"@,
        CsWeapon::M4a1 => "weapon_m4a1"@,
        CsWeapon::Tmp => "weapon_tmp"@,
        CsWeapon::G3sg1 => "weapon_g3sg1"@,
        CsWeapon::Flashbang => "weapon_flashbang"@,
        CsWeapon::Deagle => "weapon_deagle"@,
        CsWeapon::Sg552 => "weapon_sg552"@,
        CsWeapon::Ak47 => "weapon_ak47"@,
        CsWeapon::Knife => "weapon_knife"@,
        CsWeapon::P90 => "weapon_p90"@,
        CsWeapon::Galil => "weapon_galil"@,
        CsWeapon::Famas => "weapon_famas"@,
        CsWeapon::Ump45 => "weapon_ump45"@,
        CsWeapon::Sg550 => "weapon_sg550"@,
    }
}

/// The inventory slot a weapon occupies.
pub open spec fn weapon_slot(w: CsWeapon) -> Option<WeaponSlot> {
    match w {
        CsWeapon::NoWeapon => None,
        CsWeapon::P228 => Some(WeaponSlot::Secondary),
        CsWeapon::Glock => Some(WeaponSlot::Secondary),
        CsWeapon::Scout => Some(WeaponSlot::Primary),
        CsWeapon::HeGrenade => Some(WeaponSlot::Grenade),
        CsWeapon::Xm1014 => Some(WeaponSlot::Primary),
        CsWeapon::C4 => Some(WeaponSlot::C4),
        CsWeapon::Mac10 => Some(WeaponSlot::Primary),
        CsWeapon::Aug => Some(WeaponSlot::Primary),
        CsWeapon::SmokeGrenade => Some(WeaponSlot::Grenade),
        CsWeapon::Elite => Some(WeaponSlot::Secondary),
        CsWeapon::Fiveseven => Some(WeaponSlot::Secondary),
        CsWeapon::Usp => Some(WeaponSlot::Secondary),
        CsWeapon::Glock18 => Some(WeaponSlot::Secondary),
        CsWeapon::AwP => Some(WeaponSlot::Primary),
        CsWeapon::Mp5Navy => Some(WeaponSlot::Primary),
        CsWeapon::M249 => Some(WeaponSlot::Primary),
        CsWeapon::M3 => Some(WeaponSlot::Primary),
        CsWeapon::M4a1 => Some(WeaponSlot::Primary),
        CsWeapon::Tmp => Some(WeaponSlot::Primary),
        CsWeapon::G3sg1 => Some(WeaponSlot::Primary),
        CsWeapon::Flashbang => Some(WeaponSlot::Grenade),
        CsWeapon::Deagle => Some(WeaponSlot::Secondary),
        CsWeapon::Sg552 => Some(WeaponSlot::Primary),
        CsWeapon::Ak47 => Some(WeaponSlot::Primary),
        CsWeapon::Knife => Some(WeaponSlot::Knife),
        CsWeapon::P90 => Some(WeaponSlot::Primary),
        CsWeapon::Galil => Some(WeaponSlot::Primary),
        CsWeapon::Famas => Some(WeaponSlot::Primary),
        CsWeapon::Ump45 => Some(WeaponSlot::Primary),
        CsWeapon::Sg550 => Some(WeaponSlot::Primary),
    }
}

impl CsWeapon {
    /// The weapon's `CSW_*` number.
    pub fn id(&self) -> (r: i32)
        ensures
            r == weapon_id(*self),
    {
        match self {
            CsWeapon::NoWeapon => 0,
            CsWeapon::P228 => 1,
            CsWeapon::Glock => 2,
            CsWeapon::Scout => 3,
            CsWeapon::HeGrenade => 4,
            CsWeapon::Xm1014 => 5,
            CsWeapon::C4 => 6,
            CsWeapon::Mac10 => 7,
            CsWeapon::Aug => 8,
            CsWeapon::SmokeGrenade => 9,
            CsWeapon::Elite => 10,
            CsWeapon::Fiveseven => 11,
            CsWeapon::Usp => 12,
            CsWeapon::Glock18 => 13,
            CsWeapon::AwP => 14,
            CsWeapon::Mp5Navy => 15,
            CsWeapon::M249 => 16,
            CsWeapon::M3 => 17,
            CsWeapon::M4a1 => 18,
            CsWeapon::Tmp => 19,
            CsWeapon::G3sg1 => 20,
            CsWeapon::Flashbang => 21,
            CsWeapon::Deagle => 22,
            CsWeapon::Sg552 => 23,
            CsWeapon::Ak47 => 24,
            CsWeapon::Knife => 25,
            CsWeapon::P90 => 26,
            CsWeapon::Galil => 140,
            CsWeapon::Famas => 141,
            CsWeapon::Ump45 => 142,
            CsWeapon::Sg550 => 143,
        }
    }

    /// The canonical entity classname for spawning (e.g. `"weapon_m4a1"`).
    pub fn classname(&self) -> (r: &'static str)
        ensures
            r@ == weapon_classname(*self),
    {
        match self {
            CsWeapon::NoWeapon => "",
            CsWeapon::P228 => "weapon_p228",
            CsWeapon::Glock => "weapon_glock18",
            CsWeapon::Scout => "weapon_scout",
            CsWeapon::HeGrenade => "weapon_hegrenade",
            CsWeapon::Xm1014 => "weapon_xm1014",
            CsWeapon::C4 => "weapon_c4",
            CsWeapon::Mac10 => "weapon_mac10",
            CsWeapon::Aug => "weapon_aug",
            CsWeapon::SmokeGrenade => "weapon_smokegrenade",
            CsWeapon::Elite => "weapon_elite",
            CsWeapon::Fiveseven => "weapon_fiveseven",
            CsWeapon::Usp => "weapon_usp",
            CsWeapon::Glock18 => "weapon_glock18",
            CsWeapon::AwP => "weapon_awp",
            CsWeapon::Mp5Navy => "weapon_mp5navy",
            CsWeapon::M249 => "weapon_m249",
            CsWeapon::M3 => "weapon_m3",
            CsWeapon::M4a1 => "weapon_m4a1",
            CsWeapon::Tmp => "weapon_tmp",
            CsWeapon::G3sg1 => "weapon_g3sg1",
            CsWeapon::Flashbang => "weapon_flashbang",
            CsWeapon::Deagle => "weapon_deagle",
            CsWeapon::Sg552 => "weapon_sg552",
            CsWeapon::Ak47 => "weapon_ak47",
            CsWeapon::Knife => "weapon_knife",
            CsWeapon::P90 => "weapon_p90",
            CsWeapon::Galil => "weapon_galil",
            CsWeapon::Famas => "weapon_famas",
            CsWeapon::Ump45 => "weapon_ump45",
            CsWeapon::Sg550 => "weapon_sg550",
        }
    }

    /// The inventory slot of the weapon.
    pub fn slot(&self) -> (r: Option<WeaponSlot>)
        ensures
            r == weapon_slot(*self),
    {
        match self {
            CsWeapon::NoWeapon => None,
            CsWeapon::P228 => Some(WeaponSlot::Secondary),
            CsWeapon::Glock => Some(WeaponSlot::Secondary),
            CsWeapon::Scout => Some(WeaponSlot::Primary),
            CsWeapon::HeGrenade => Some(WeaponSlot::Grenade),
            CsWeapon::Xm1014 => Some(WeaponSlot::Primary),
            CsWeapon::C4 => Some(WeaponSlot::C4),
            CsWeapon::Mac10 => Some(WeaponSlot::Primary),
            CsWeapon::Aug => Some(WeaponSlot::Primary),
            CsWeapon::SmokeGrenade => Some(WeaponSlot::Grenade),
            CsWeapon::Elite => Some(WeaponSlot::Secondary),
            CsWeapon::Fiveseven => Some(WeaponSlot::Secondary),
            CsWeapon::Usp => Some(WeaponSlot::Secondary),
            CsWeapon::Glock18 => Some(WeaponSlot::Secondary),
            CsWeapon::AwP => Some(WeaponSlot::Primary),
            CsWeapon::Mp5Navy => Some(WeaponSlot::Primary),
            CsWeapon::M249 => Some(WeaponSlot::Primary),
            CsWeapon::M3 => Some(WeaponSlot::Primary),
            CsWeapon::M4a1 => Some(WeaponSlot::Primary),
            CsWeapon::Tmp => Some(WeaponSlot::Primary),
            CsWeapon::G3sg1 => Some(WeaponSlot::Primary),
            CsWeapon::Flashbang => Some(WeaponSlot::Grenade),
            CsWeapon::Deagle => Some(WeaponSlot::Secondary),
            CsWeapon::Sg552 => Some(WeaponSlot::Primary),
            CsWeapon::Ak47 => Some(WeaponSlot::Primary),
            CsWeapon::Knife => Some(WeaponSlot::Knife),
            CsWeapon::P90 => Some(WeaponSlot::Primary),
            CsWeapon::Galil => Some(WeaponSlot::Primary),
            CsWeapon::Famas => Some(WeaponSlot::Primary),
            CsWeapon::Ump45 => Some(WeaponSlot::Primary),
            CsWeapon::Sg550 => Some(WeaponSlot::Primary),
        }
    }
}

impl WeaponSlot {
    /// The slot's number (1 to 5).
    pub fn id(&self) -> (r: u8)
        ensures
            r == match *self {
                WeaponSlot::Primary => 1u8,
                WeaponSlot::Secondary => 2u8,
                WeaponSlot::Knife => 3u8,
                WeaponSlot::Grenade => 4u8,
                WeaponSlot::C4 => 5u8,
            },
    {
        match self {
            WeaponSlot::Primary => 1,
            WeaponSlot::Secondary => 2,
            WeaponSlot::Knife => 3,
            WeaponSlot::Grenade => 4,
            WeaponSlot::C4 => 5,
        }
    }
}

/// Current Counter-Strike round state.
#[derive(Debug, Clone, Copy, PartialEq, Eq, Structural)]
pub enum RoundState {
    /// Freeze period before the round starts.
    FreezePeriod,
    /// Active gameplay in progress.
    Active,
    /// Round concluded, waiting for the reset.
    RoundEnded,
}

/// Round termination reason.
#[derive(Debug, Clone, Copy, PartialEq, Eq, Structural)]
pub enum RoundEndReason {
    TargetBombed,
    VipEscaped,
    VipAssassinated,
    TerroristsEscaped,
    CtPreventEscape,
    TerroristsStopped,
    BombDefused,
    CtWin,
    TerroristWin,
    RoundDraw,
    AllHostagesRescued,
    TargetSaved,
    HostagesNotRescued,
    TerroristsNotEscaped,
}

/// Whether a weapon can be given to a player at all: only a weapon with a
/// classname can be spawned.
pub fn can_give(weapon: CsWeapon) -> (r: bool)
    ensures
        r == (weapon_classname(weapon).len() > 0),
{
    let cls = weapon.classname();
    proof {
        reveal_strlit("");
    }
    let r = cls.unicode_len() > 0;
    r
}

/// A player's team.
#[derive(Debug, Clone, Copy, PartialEq, Eq, Structural)]
pub enum Team {
    Unassigned,
    Terrorist,
    CounterTerrorist,
    Spectator,
}

/// The Counter-Strike name of a team.
pub open spec fn team_name(t: Team) -> Seq<char> {
    match t {
        Team::Terrorist => "TERRORIST"@,
        Team::CounterTerrorist => "CT"@,
        Team::Spectator => "SPECTATOR"@,
        Team::Unassigned => "UNASSIGNED"@,
    }
}

/// A team formatted as the standard Counter-Strike abbreviation
/// (`TERRORIST`, `CT`, `SPECTATOR`, `UNASSIGNED`).
pub fn cs_team_str(team: Team) -> (r: &'static str)
    ensures
        r@ == team_name(team),
{
    match team {
        Team::Terrorist => "TERRORIST",
        Team::CounterTerrorist => "CT",
        Team::Spectator => "SPECTATOR",
        Team::Unassigned => "UNASSIGNED",
    }
}

} // verus!
