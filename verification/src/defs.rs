//! Buildables, hostiles, targeting modes, strikes and the integer constants of a match.

use vstd::prelude::*;

verus! {

pub const STARTING_CREDITS: i32 = 1000;

pub const STARTING_INTEGRITY: i32 = 20;

pub const MAX_TIER: u8 = 3;

pub const HELIOS_CONVERT_COST: i32 = 1;

/// Interest paid on leftover scrap when the field clears, in basis points.
pub const INTEREST_BPS: u32 = 400;

pub const INTEREST_CAP: i32 = 48;

pub const REPAIR_COST: i32 = 35;

pub const MOVE_COST: i32 = 6;

/// How many tiles a Flicker hops along the walk.
pub const FLICKER_STEPS: u32 = 3;

pub const OVERCHARGE_COST: i32 = 40;

/// What the commander has in hand: nothing (inspect), a barricade, or one of the guns.
#[derive(Clone, Copy, Debug, PartialEq, Eq, Hash, Structural)]
pub enum BuildKind {
    Inspect,
    Barricade,
    Autocannon,
    Howitzer,
    Skystinger,
    Inferno,
    ArcLance,
    PulseArray,
    Helios,
    SwarmRack,
    SiegeRail,
}

impl BuildKind {
    /// The wire code of a buildable: 0 for inspect, 1 for the barricade, 2..=10 for the guns.
    pub open spec fn code(self) -> u8 {
        match self {
            BuildKind::Inspect => 0,
            BuildKind::Barricade => 1,
            BuildKind::Autocannon => 2,
            BuildKind::Howitzer => 3,
            BuildKind::Skystinger => 4,
            BuildKind::Inferno => 5,
            BuildKind::ArcLance => 6,
            BuildKind::PulseArray => 7,
            BuildKind::Helios => 8,
            BuildKind::SwarmRack => 9,
            BuildKind::SiegeRail => 10,
        }
    }

    pub open spec fn hotkey_text(self) -> Seq<char> {
        match self {
            BuildKind::Inspect => "Esc"@,
            BuildKind::Barricade => "1"@,
            BuildKind::Autocannon => "2"@,
            BuildKind::Howitzer => "3"@,
            BuildKind::Skystinger => "4"@,
            BuildKind::Inferno => "5"@,
            BuildKind::ArcLance => "6"@,
            BuildKind::PulseArray => "7"@,
            BuildKind::Helios => "8"@,
            BuildKind::SwarmRack => "9"@,
            BuildKind::SiegeRail => "0"@,
        }
    }

    /// The buildable with wire code `v`; unknown codes mean inspect.
    pub open spec fn decoded(v: u8) -> BuildKind {
        match v {
            1 => BuildKind::Barricade,
            2 => BuildKind::Autocannon,
            3 => BuildKind::Howitzer,
            4 => BuildKind::Skystinger,
            5 => BuildKind::Inferno,
            6 => BuildKind::ArcLance,
            7 => BuildKind::PulseArray,
            8 => BuildKind::Helios,
            9 => BuildKind::SwarmRack,
            10 => BuildKind::SiegeRail,
            _ => BuildKind::Inspect,
        }
    }

    /// Unknown codes fall back to inspect.
    pub fn from_u8(v: u8) -> (r: Self)
        ensures
            r == Self::decoded(v),
            1 <= v <= 10 ==> r.code() == v,
            (v == 0 || v > 10) ==> r == BuildKind::Inspect,
    {
        match v {
            1 => BuildKind::Barricade,
            2 => BuildKind::Autocannon,
            3 => BuildKind::Howitzer,
            4 => BuildKind::Skystinger,
            5 => BuildKind::Inferno,
            6 => BuildKind::ArcLance,
            7 => BuildKind::PulseArray,
            8 => BuildKind::Helios,
            9 => BuildKind::SwarmRack,
            10 => BuildKind::SiegeRail,
            _ => BuildKind::Inspect,
        }
    }

    pub fn id(self) -> (r: u8)
        ensures
            r == self.code(),
    {
        match self {
            BuildKind::Inspect => 0,
            BuildKind::Barricade => 1,
            BuildKind::Autocannon => 2,
            BuildKind::Howitzer => 3,
            BuildKind::Skystinger => 4,
            BuildKind::Inferno => 5,
            BuildKind::ArcLance => 6,
            BuildKind::PulseArray => 7,
            BuildKind::Helios => 8,
            BuildKind::SwarmRack => 9,
            BuildKind::SiegeRail => 10,
        }
    }

    pub fn is_structure(self) -> (r: bool)
        ensures
            r == (self != BuildKind::Inspect),
    {
        !matches!(self, BuildKind::Inspect)
    }

    pub fn is_turret(self) -> (r: bool)
        ensures
            r == (self != BuildKind::Inspect && self != BuildKind::Barricade),
    {
        !matches!(self, BuildKind::Inspect | BuildKind::Barricade)
    }

    /// Camo hulls are skipped unless the shooter detects. Packs cannot override this.
    pub fn detects(self) -> (r: bool)
        ensures
            r == (self == BuildKind::Skystinger || self == BuildKind::ArcLance || self
                == BuildKind::PulseArray || self == BuildKind::Helios || self
                == BuildKind::SwarmRack),
    {
        matches!(
            self,
            BuildKind::Skystinger | BuildKind::ArcLance | BuildKind::PulseArray | BuildKind::Helios
                | BuildKind::SwarmRack
        )
    }

    pub fn hotkey(self) -> (r: &'static str)
        ensures
            r@ == self.hotkey_text(),
    {
        match self {
            BuildKind::Inspect => "Esc",
            BuildKind::Barricade => "1",
            BuildKind::Autocannon => "2",
            BuildKind::Howitzer => "3",
            BuildKind::Skystinger => "4",
            BuildKind::Inferno => "5",
            BuildKind::ArcLance => "6",
            BuildKind::PulseArray => "7",
            BuildKind::Helios => "8",
            BuildKind::SwarmRack => "9",
            BuildKind::SiegeRail => "0",
        }
    }
}

/// The hostile roster.
#[derive(Clone, Copy, Debug, PartialEq, Eq, Structural)]
pub enum CreepKind {
    Runner,
    Lorry,
    Bulwark,
    Wasp,
    Colossus,
    Mite,
    Medic,
    Shade,
    Flicker,
}

impl CreepKind {
    /// Position of a hull in the roster, used to index per-kind tallies.
    pub open spec fn slot(self) -> int {
        match self {
            CreepKind::Runner => 0,
            CreepKind::Lorry => 1,
            CreepKind::Bulwark => 2,
            CreepKind::Wasp => 3,
            CreepKind::Colossus => 4,
            CreepKind::Mite => 5,
            CreepKind::Medic => 6,
            CreepKind::Shade => 7,
            CreepKind::Flicker => 8,
        }
    }

    pub open spec fn name_text(self) -> Seq<char> {
        match self {
            CreepKind::Runner => "Runner"@,
            CreepKind::Lorry => "Lorry"@,
            CreepKind::Bulwark => "Bulwark"@,
            CreepKind::Wasp => "Wasp"@,
            CreepKind::Colossus => "Colossus"@,
            CreepKind::Mite => "Mite"@,
            CreepKind::Medic => "Medic"@,
            CreepKind::Shade => "Shade"@,
            CreepKind::Flicker => "Flicker"@,
        }
    }

    /// The roster in slot order.
    pub open spec fn at_slot(i: int) -> CreepKind {
        if i == 0 {
            CreepKind::Runner
        } else if i == 1 {
            CreepKind::Lorry
        } else if i == 2 {
            CreepKind::Bulwark
        } else if i == 3 {
            CreepKind::Wasp
        } else if i == 4 {
            CreepKind::Colossus
        } else if i == 5 {
            CreepKind::Mite
        } else if i == 6 {
            CreepKind::Medic
        } else if i == 7 {
            CreepKind::Shade
        } else {
            CreepKind::Flicker
        }
    }

    /// The whole roster, in slot order.
    pub fn all() -> (r: [CreepKind; 9])
        ensures
            forall|i: int| 0 <= i < 9 ==> #[trigger] r@[i] == CreepKind::at_slot(i),
    {
        [
            CreepKind::Runner,
            CreepKind::Lorry,
            CreepKind::Bulwark,
            CreepKind::Wasp,
            CreepKind::Colossus,
            CreepKind::Mite,
            CreepKind::Medic,
            CreepKind::Shade,
            CreepKind::Flicker,
        ]
    }

    pub fn name(self) -> (r: &'static str)
        ensures
            r@ == self.name_text(),
    {
        match self {
            CreepKind::Runner => "Runner",
            CreepKind::Lorry => "Lorry",
            CreepKind::Bulwark => "Bulwark",
            CreepKind::Wasp => "Wasp",
            CreepKind::Colossus => "Colossus",
            CreepKind::Mite => "Mite",
            CreepKind::Medic => "Medic",
            CreepKind::Shade => "Shade",
            CreepKind::Flicker => "Flicker",
        }
    }

    pub fn index(self) -> (r: usize)
        ensures
            r == self.slot(),
            r < 9,
    {
        match self {
            CreepKind::Runner => 0,
            CreepKind::Lorry => 1,
            CreepKind::Bulwark => 2,
            CreepKind::Wasp => 3,
            CreepKind::Colossus => 4,
            CreepKind::Mite => 5,
            CreepKind::Medic => 6,
            CreepKind::Shade => 7,
            CreepKind::Flicker => 8,
        }
    }
}

/// Every slot names the kind that sits there, and every kind sits at its own slot.
pub proof fn lemma_roster_slots()
    ensures
        forall|k: CreepKind| #[trigger] CreepKind::at_slot(k.slot()) == k,
        forall|i: int| 0 <= i < 9 ==> (#[trigger] CreepKind::at_slot(i)).slot() == i,
{
}

/// How a gun delivers damage.
#[derive(Clone, Copy, Debug, PartialEq, Eq, Structural)]
pub enum FireMode {
    Shell,
    Cone,
    Line,
    Pulse,
    Beam,
}

/// Which hull a gun prefers among those in range.
#[derive(Clone, Copy, Debug, PartialEq, Eq, Structural)]
pub enum TargetMode {
    First,
    Last,
    Strong,
    Weak,
    Flying,
    Camo,
}

impl TargetMode {
    pub open spec fn cycled(self) -> TargetMode {
        match self {
            TargetMode::First => TargetMode::Last,
            TargetMode::Last => TargetMode::Strong,
            TargetMode::Strong => TargetMode::Weak,
            TargetMode::Weak => TargetMode::Flying,
            TargetMode::Flying => TargetMode::Camo,
            TargetMode::Camo => TargetMode::First,
        }
    }

    pub open spec fn label_text(self) -> Seq<char> {
        match self {
            TargetMode::First => "First"@,
            TargetMode::Last => "Last"@,
            TargetMode::Strong => "Strong"@,
            TargetMode::Weak => "Weak"@,
            TargetMode::Flying => "Flying"@,
            TargetMode::Camo => "Camo"@,
        }
    }

    pub fn next(self) -> (r: Self)
        ensures
            r == self.cycled(),
    {
        match self {
            TargetMode::First => TargetMode::Last,
            TargetMode::Last => TargetMode::Strong,
            TargetMode::Strong => TargetMode::Weak,
            TargetMode::Weak => TargetMode::Flying,
            TargetMode::Flying => TargetMode::Camo,
            TargetMode::Camo => TargetMode::First,
        }
    }

    pub fn label(self) -> (r: &'static str)
        ensures
            r@ == self.label_text(),
    {
        match self {
            TargetMode::First => "First",
            TargetMode::Last => "Last",
            TargetMode::Strong => "Strong",
            TargetMode::Weak => "Weak",
            TargetMode::Flying => "Flying",
            TargetMode::Camo => "Camo",
        }
    }
}

/// Cycling the targeting mode six times comes back to where it started.
pub proof fn lemma_targeting_cycle(m: TargetMode)
    ensures
        m.cycled().cycled().cycled().cycled().cycled().cycled() == m,
        m.cycled() != m,
{
}

impl Default for TargetMode {
    fn default() -> (r: Self)
        ensures
            r == TargetMode::First,
    {
        TargetMode::First
    }
}

/// The consumable strikes; `Unarmed` means no strike is armed.
#[derive(Clone, Copy, Debug, PartialEq, Eq, Structural)]
pub enum StrikeKind {
    Unarmed,
    Satchel,
    Overload,
    Orbital,
}

impl StrikeKind {
    pub open spec fn code(self) -> u8 {
        match self {
            StrikeKind::Unarmed => 0,
            StrikeKind::Satchel => 1,
            StrikeKind::Overload => 2,
            StrikeKind::Orbital => 3,
        }
    }

    /// The strike with wire code `v`; unknown codes mean none is armed.
    pub open spec fn decoded(v: u8) -> StrikeKind {
        match v {
            1 => StrikeKind::Satchel,
            2 => StrikeKind::Overload,
            3 => StrikeKind::Orbital,
            _ => StrikeKind::Unarmed,
        }
    }

    /// Unknown codes disarm.
    pub fn from_u8(v: u8) -> (r: Self)
        ensures
            r == Self::decoded(v),
            1 <= v <= 3 ==> r.code() == v,
            (v == 0 || v > 3) ==> r == StrikeKind::Unarmed,
    {
        match v {
            1 => StrikeKind::Satchel,
            2 => StrikeKind::Overload,
            3 => StrikeKind::Orbital,
            _ => StrikeKind::Unarmed,
        }
    }

    pub fn id(self) -> (r: u8)
        ensures
            r == self.code(),
    {
        match self {
            StrikeKind::Unarmed => 0,
            StrikeKind::Satchel => 1,
            StrikeKind::Overload => 2,
            StrikeKind::Orbital => 3,
        }
    }
}

/// `from_u8` and `id` undo each other on the codes of buildables and strikes.
pub proof fn lemma_codes_round_trip(b: BuildKind, s: StrikeKind)
    ensures
        b.code() <= 10,
        s.code() <= 3,
        forall|c: BuildKind| #![trigger c.code()] c.code() == b.code() ==> c == b,
        forall|c: StrikeKind| #![trigger c.code()] c.code() == s.code() ==> c == s,
{
}

pub open spec fn tier_text(tier: u8) -> Seq<char> {
    if tier == 0 {
        "Mark I"@
    } else if tier == 1 {
        "Mark II"@
    } else if tier == 2 {
        "Mark III"@
    } else {
        "Apex"@
    }
}

/// Name of an upgrade tier; anything past the last tier reads as the last.
pub fn tier_name(tier: u8) -> (r: &'static str)
    ensures
        r@ == tier_text(tier),
{
    let names: [&'static str; 4] = ["Mark I", "Mark II", "Mark III", "Apex"];
    let t: u8 = if tier < MAX_TIER {
        tier
    } else {
        MAX_TIER
    };
    let r = names[t as usize];
    r
}

} // verus!
