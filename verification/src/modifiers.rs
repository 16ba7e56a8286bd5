//! Match modifiers: one rule change per match, the daily assignment, and the rules each
//! modifier sets.

use vstd::prelude::*;
use crate::defs::{INTEREST_BPS, INTEREST_CAP, STARTING_CREDITS};
use crate::maps::{theater_by_id, theater_hazard, theater_name, theater_seed, theaters, THEATER_COUNT};
use crate::rng::{draw, in_range, Rng};

verus! {

pub const FIXED_SCRAP: i32 = 10_000;

#[derive(Clone, Copy, Debug, PartialEq, Eq, Structural)]
pub enum Modifier {
    Standard,
    GroundOnly,
    Accelerated,
    RichBounties,
    FixedScrap,
    Cap10,
    Cap20,
}

impl Modifier {
    pub open spec fn code(self) -> u8 {
        match self {
            Modifier::Standard => 0,
            Modifier::GroundOnly => 1,
            Modifier::Accelerated => 2,
            Modifier::RichBounties => 3,
            Modifier::FixedScrap => 4,
            Modifier::Cap10 => 5,
            Modifier::Cap20 => 6,
        }
    }

    pub open spec fn slug_text(self) -> Seq<char> {
        match self {
            Modifier::Standard => "standard"@,
            Modifier::GroundOnly => "ground"@,
            Modifier::Accelerated => "accelerated"@,
            Modifier::RichBounties => "rich"@,
            Modifier::FixedScrap => "fixed"@,
            Modifier::Cap10 => "cap10"@,
            Modifier::Cap20 => "cap20"@,
        }
    }

    pub open spec fn name_text(self) -> Seq<char> {
        match self {
            Modifier::Standard => "Standard"@,
            Modifier::GroundOnly => "Ground only"@,
            Modifier::Accelerated => "Accelerated"@,
            Modifier::RichBounties => "Rich bounties"@,
            Modifier::FixedScrap => "Fixed scrap"@,
            Modifier::Cap10 => "Ten guns"@,
            Modifier::Cap20 => "Twenty guns"@,
        }
    }

    pub open spec fn blurb_text(self) -> Seq<char> {
        match self {
            Modifier::Standard => "Default rules. Invent the maze, cover the sky. Unspent scrap pays interest."@,
            Modifier::GroundOnly => "No air. The walk is the whole war."@,
            Modifier::Accelerated => "Thin hulls, long gait. They close before barrels settle."@,
            Modifier::RichBounties => "Kills pay extra. Leaks still cost the relay."@,
            Modifier::FixedScrap => "Ten thousand scrap. Kills pay nothing. No interest."@,
            Modifier::Cap10 => "At most ten turrets. Barricades ignore the ceiling."@,
            Modifier::Cap20 => "Twenty turret ceiling. Still a ceiling."@,
        }
    }

    pub open spec fn hazard_text(self) -> Seq<char> {
        match self {
            Modifier::Standard => "No extra hazard."@,
            Modifier::GroundOnly => "Skystinger and Helios-air have nothing to hunt."@,
            Modifier::Accelerated => "Dwell beams and slow matter more than raw DPS."@,
            Modifier::RichBounties => "The economy is drunk. Don't get greedy and leak."@,
            Modifier::FixedScrap => "Every placement is a vow. Sell-back is the only refund."@,
            Modifier::Cap10 => "Quality over spray. Apex a few, wall the rest."@,
            Modifier::Cap20 => "Enough guns to get sloppy. The cap still bites late."@,
        }
    }

    pub open spec fn banner_text(self) -> Seq<char> {
        match self {
            Modifier::Standard => "FORTIFY THE RELAY"@,
            Modifier::GroundOnly => "GROUND ONLY — NO AIR"@,
            Modifier::Accelerated => "ACCELERATED INGRESS"@,
            Modifier::RichBounties => "RICH BOUNTIES"@,
            Modifier::FixedScrap => "FIXED SCRAP — KILLS PAY NOTHING"@,
            Modifier::Cap10 => "TEN GUNS"@,
            Modifier::Cap20 => "TWENTY GUNS"@,
        }
    }

    /// The modifier with a code; unknown codes name the standard rules.
    pub open spec fn from_code(v: u8) -> Modifier {
        if v <= 6 {
            modifier_at(v as int)
        } else {
            Modifier::Standard
        }
    }

    /// Unknown codes fall back to the standard rules.
    pub fn from_u8(v: u8) -> (r: Self)
        ensures
            v <= 6 ==> r.code() == v,
            v > 6 ==> r == Modifier::Standard,
            r == Modifier::from_code(v),
    {
        match v {
            1 => Modifier::GroundOnly,
            2 => Modifier::Accelerated,
            3 => Modifier::RichBounties,
            4 => Modifier::FixedScrap,
            5 => Modifier::Cap10,
            6 => Modifier::Cap20,
            _ => Modifier::Standard,
        }
    }

    pub fn id(self) -> (r: u8)
        ensures
            r == self.code(),
    {
        match self {
            Modifier::Standard => 0,
            Modifier::GroundOnly => 1,
            Modifier::Accelerated => 2,
            Modifier::RichBounties => 3,
            Modifier::FixedScrap => 4,
            Modifier::Cap10 => 5,
            Modifier::Cap20 => 6,
        }
    }

    pub fn slug(self) -> (r: &'static str)
        ensures
            r@ == self.slug_text(),
    {
        match self {
            Modifier::Standard => "standard",
            Modifier::GroundOnly => "ground",
            Modifier::Accelerated => "accelerated",
            Modifier::RichBounties => "rich",
            Modifier::FixedScrap => "fixed",
            Modifier::Cap10 => "cap10",
            Modifier::Cap20 => "cap20",
        }
    }

    pub fn name(self) -> (r: &'static str)
        ensures
            r@ == self.name_text(),
    {
        match self {
            Modifier::Standard => "Standard",
            Modifier::GroundOnly => "Ground only",
            Modifier::Accelerated => "Accelerated",
            Modifier::RichBounties => "Rich bounties",
            Modifier::FixedScrap => "Fixed scrap",
            Modifier::Cap10 => "Ten guns",
            Modifier::Cap20 => "Twenty guns",
        }
    }

    pub fn blurb(self) -> (r: &'static str)
        ensures
            r@ == self.blurb_text(),
    {
        match self {
            Modifier::Standard => "Default rules. Invent the maze, cover the sky. Unspent scrap pays interest.",
            Modifier::GroundOnly => "No air. The walk is the whole war.",
            Modifier::Accelerated => "Thin hulls, long gait. They close before barrels settle.",
            Modifier::RichBounties => "Kills pay extra. Leaks still cost the relay.",
            Modifier::FixedScrap => "Ten thousand scrap. Kills pay nothing. No interest.",
            Modifier::Cap10 => "At most ten turrets. Barricades ignore the ceiling.",
            Modifier::Cap20 => "Twenty turret ceiling. Still a ceiling.",
        }
    }

    pub fn hazard(self) -> (r: &'static str)
        ensures
            r@ == self.hazard_text(),
    {
        match self {
            Modifier::Standard => "No extra hazard.",
            Modifier::GroundOnly => "Skystinger and Helios-air have nothing to hunt.",
            Modifier::Accelerated => "Dwell beams and slow matter more than raw DPS.",
            Modifier::RichBounties => "The economy is drunk. Don't get greedy and leak.",
            Modifier::FixedScrap => "Every placement is a vow. Sell-back is the only refund.",
            Modifier::Cap10 => "Quality over spray. Apex a few, wall the rest.",
            Modifier::Cap20 => "Enough guns to get sloppy. The cap still bites late.",
        }
    }

    pub fn opening_banner(self) -> (r: &'static str)
        ensures
            r@ == self.banner_text(),
    {
        match self {
            Modifier::Standard => "FORTIFY THE RELAY",
            Modifier::GroundOnly => "GROUND ONLY — NO AIR",
            Modifier::Accelerated => "ACCELERATED INGRESS",
            Modifier::RichBounties => "RICH BOUNTIES",
            Modifier::FixedScrap => "FIXED SCRAP — KILLS PAY NOTHING",
            Modifier::Cap10 => "TEN GUNS",
            Modifier::Cap20 => "TWENTY GUNS",
        }
    }

    pub open spec fn ruled(self) -> MatchRules {
        let s = standard_rules();
        match self {
            Modifier::Standard => s,
            Modifier::GroundOnly => MatchRules { ground_only: true, ..s },
            Modifier::Accelerated => MatchRules { hp_mul_pct: 55, speed_mul_pct: 185, ..s },
            Modifier::RichBounties => MatchRules { bounty_mul_pct: 225, ..s },
            Modifier::FixedScrap => MatchRules {
                kill_income: false,
                bounty_mul_pct: 0,
                starting_credits: FIXED_SCRAP,
                interest_bps: 0,
                interest_cap: 0,
                ..s
            },
            Modifier::Cap10 => MatchRules { turret_cap: Some(10), ..s },
            Modifier::Cap20 => MatchRules { turret_cap: Some(20), ..s },
        }
    }

    pub fn rules(self) -> (r: MatchRules)
        ensures
            r == self.ruled(),
    {
        match self {
            Modifier::Standard => MatchRules::standard(),
            Modifier::GroundOnly => MatchRules { ground_only: true, ..MatchRules::standard() },
            Modifier::Accelerated => MatchRules {
                hp_mul_pct: 55,
                speed_mul_pct: 185,
                ..MatchRules::standard()
            },
            Modifier::RichBounties => MatchRules { bounty_mul_pct: 225, ..MatchRules::standard() },
            Modifier::FixedScrap => MatchRules {
                kill_income: false,
                bounty_mul_pct: 0,
                starting_credits: FIXED_SCRAP,
                interest_bps: 0,
                interest_cap: 0,
                ..MatchRules::standard()
            },
            Modifier::Cap10 => MatchRules { turret_cap: Some(10), ..MatchRules::standard() },
            Modifier::Cap20 => MatchRules { turret_cap: Some(20), ..MatchRules::standard() },
        }
    }
}

/// The rules a modifier sets. Hull, gait and bounty multipliers are in percent.
#[derive(Clone, Copy, Debug, PartialEq, Eq, Structural)]
pub struct MatchRules {
    pub ground_only: bool,
    pub hp_mul_pct: u32,
    pub speed_mul_pct: u32,
    pub bounty_mul_pct: u32,
    pub kill_income: bool,
    pub turret_cap: Option<u32>,
    pub starting_credits: i32,
    pub interest_bps: u32,
    pub interest_cap: i32,
}

pub open spec fn standard_rules() -> MatchRules {
    MatchRules {
        ground_only: false,
        hp_mul_pct: 100,
        speed_mul_pct: 100,
        bounty_mul_pct: 100,
        kill_income: true,
        turret_cap: None,
        starting_credits: STARTING_CREDITS,
        interest_bps: INTEREST_BPS,
        interest_cap: INTEREST_CAP,
    }
}

impl MatchRules {
    pub fn standard() -> (r: Self)
        ensures
            r == standard_rules(),
    {
        MatchRules {
            ground_only: false,
            hp_mul_pct: 100,
            speed_mul_pct: 100,
            bounty_mul_pct: 100,
            kill_income: true,
            turret_cap: None,
            starting_credits: STARTING_CREDITS,
            interest_bps: INTEREST_BPS,
            interest_cap: INTEREST_CAP,
        }
    }
}

/// Law: a modifier changes one thing. Only Ground only drops the air, only the caps cap
/// turrets, and only Fixed scrap stops kill income and interest.
pub proof fn law_one_rule_per_modifier(m: Modifier)
    ensures
        m.ruled().ground_only <==> m == Modifier::GroundOnly,
        m.ruled().turret_cap is Some <==> (m == Modifier::Cap10 || m == Modifier::Cap20),
        !m.ruled().kill_income <==> m == Modifier::FixedScrap,
        m.ruled().interest_bps == 0 <==> m == Modifier::FixedScrap,
        m.ruled().starting_credits == if m == Modifier::FixedScrap {
            FIXED_SCRAP
        } else {
            STARTING_CREDITS
        },
{
}

/// Law: the standard rules leave hulls, gait and bounties at their base (100 percent), with
/// 1000 scrap, 4% interest capped at 48 and no turret ceiling. Only Accelerated thins hulls
/// (55%) and lengthens the gait (185%); only Rich bounties (225%) and Fixed scrap (nothing)
/// change what a kill pays; every other rule a modifier leaves alone stays standard.
pub proof fn law_standard_creeps_are_unchanged(m: Modifier)
    ensures
        standard_rules().hp_mul_pct == 100,
        standard_rules().speed_mul_pct == 100,
        standard_rules().bounty_mul_pct == 100,
        !standard_rules().ground_only,
        standard_rules().kill_income,
        standard_rules().turret_cap is None,
        standard_rules().starting_credits == 1000,
        standard_rules().interest_bps == 400,
        standard_rules().interest_cap == 48,
        m.ruled().hp_mul_pct == if m == Modifier::Accelerated { 55u32 } else { 100u32 },
        m.ruled().speed_mul_pct == if m == Modifier::Accelerated { 185u32 } else { 100u32 },
        m.ruled().bounty_mul_pct == if m == Modifier::RichBounties {
            225u32
        } else if m == Modifier::FixedScrap {
            0u32
        } else {
            100u32
        },
        m != Modifier::FixedScrap ==> m.ruled().interest_bps == 400 && m.ruled().interest_cap == 48
            && m.ruled().starting_credits == 1000,
        m == Modifier::FixedScrap ==> m.ruled().starting_credits == 10_000 && m.ruled().interest_cap
            == 0,
        m.ruled().turret_cap == if m == Modifier::Cap10 {
            Some(10u32)
        } else if m == Modifier::Cap20 {
            Some(20u32)
        } else {
            None::<u32>
        },
{
}

/// Every code names a modifier and every modifier has its own code.
pub proof fn law_modifier_codes(m: Modifier)
    ensures
        m.code() <= 6,
        forall|n: Modifier| #![trigger n.code()] n.code() == m.code() ==> n == m,
{
}

#[derive(Clone, Debug)]
pub struct ModifierInfo {
    pub id: u8,
    pub slug: String,
    pub name: String,
    pub blurb: String,
    pub hazard: String,
}

pub open spec fn modifier_at(i: int) -> Modifier {
    if i == 0 {
        Modifier::Standard
    } else     if i == 1 {
        Modifier::GroundOnly
    } else     if i == 2 {
        Modifier::Accelerated
    } else     if i == 3 {
        Modifier::RichBounties
    } else     if i == 4 {
        Modifier::FixedScrap
    } else     if i == 5 {
        Modifier::Cap10
    } else {
        Modifier::Cap20
    }
}

/// The briefing list of every modifier, in code order.
pub fn modifiers() -> (r: Vec<ModifierInfo>)
    ensures
        r@.len() == 7,
        forall|i: int|
            0 <= i < 7 ==> {
                &&& (#[trigger] r@[i]).id == i
                &&& r@[i].slug@ == modifier_at(i).slug_text()
                &&& r@[i].name@ == modifier_at(i).name_text()
                &&& r@[i].blurb@ == modifier_at(i).blurb_text()
                &&& r@[i].hazard@ == modifier_at(i).hazard_text()
            },
{
    let mut r: Vec<ModifierInfo> = Vec::new();
    let mut id: u8 = 0;
    while id <= 6
        invariant
            id <= 7,
            r@.len() == id,
            forall|i: int|
                0 <= i < id ==> {
                    &&& (#[trigger] r@[i]).id == i
                    &&& r@[i].slug@ == modifier_at(i).slug_text()
                    &&& r@[i].name@ == modifier_at(i).name_text()
                    &&& r@[i].blurb@ == modifier_at(i).blurb_text()
                    &&& r@[i].hazard@ == modifier_at(i).hazard_text()
                },
        decreases 7 - id,
    {
        let m = Modifier::from_u8(id);
        assert(m == modifier_at(id as int));
        r.push(
            ModifierInfo {
                id: m.id(),
                slug: m.slug().to_owned(),
                name: m.name().to_owned(),
                blurb: m.blurb().to_owned(),
                hazard: m.hazard().to_owned(),
            },
        );
        id = id + 1;
    }
    r
}

#[derive(Clone, Debug)]
pub struct DailyPick {
    pub utc_day: u32,
    pub map_id: u8,
    pub modifier_id: u8,
    pub map_name: String,
    pub map_hazard: String,
    pub modifier_name: String,
    pub modifier_hazard: String,
    pub seed: u64,
}

/// Seed of the generator behind the daily assignment of a UTC day.
pub open spec fn daily_rng_seed(utc_day: u32) -> u64 {
    0xD411u64.wrapping_mul((utc_day as u64) ^ 0x0D7Du64)
}

/// Theater of the day: the first draw picks one of the built-in theaters.
pub open spec fn daily_map(utc_day: u32) -> int {
    in_range(draw(daily_rng_seed(utc_day), 0), 0, THEATER_COUNT as i32) as int
}

/// Modifier of the day: one day in five (by the second draw) plays standard rules; the
/// others take one of the six rule changes by the third draw.
pub open spec fn daily_modifier(utc_day: u32) -> int {
    if in_range(draw(daily_rng_seed(utc_day), 1), 0, 5) == 0 {
        0
    } else {
        in_range(draw(daily_rng_seed(utc_day), 2), 1, 7) as int
    }
}

/// Deterministic theater + modifier for a UTC day number (`unix_ms / 86400000`).
pub fn daily_pick(utc_day: u32) -> (r: DailyPick)
    ensures
        r.utc_day == utc_day,
        r.map_id == daily_map(utc_day),
        r.modifier_id == daily_modifier(utc_day),
        r.map_name@ == theater_name(daily_map(utc_day)),
        r.map_hazard@ == theater_hazard(daily_map(utc_day)),
        r.modifier_name@ == modifier_at(daily_modifier(utc_day)).name_text(),
        r.modifier_hazard@ == modifier_at(daily_modifier(utc_day)).hazard_text(),
        r.seed == theater_seed(daily_map(utc_day)) ^ (utc_day as u64).wrapping_mul(0x9E37_79B9_7F4A_7C15u64),
{
    let mut rng = Rng::new(0xD411u64.wrapping_mul((utc_day as u64) ^ 0x0D7Du64));
    let ghost s0 = rng.state();
    proof {
        reveal_with_fuel(crate::rng::advanced_by, 4);
    }
    let list = theaters();
    let pick = rng.range_i32(0, list.len() as i32);
    assert(draw(s0, 0) == crate::rng::mixed(crate::rng::advanced(s0)));
    let map = &list[pick as usize];
    let modifier = if rng.range_i32(0, 5) == 0 {
        Modifier::Standard
    } else {
        let m = rng.range_i32(1, 7);
        Modifier::from_u8(m as u8)
    };
    proof {
        assert(crate::rng::advanced_by(s0, 1) == crate::rng::advanced(s0));
        assert(crate::rng::advanced_by(s0, 2) == crate::rng::advanced(crate::rng::advanced_by(s0, 1)));
        assert(crate::rng::advanced_by(s0, 3) == crate::rng::advanced(crate::rng::advanced_by(s0, 2)));
        assert(modifier == modifier_at(daily_modifier(utc_day)));
    }
    let base = match theater_by_id(map.id) {
        Some((_, _, seed)) => seed,
        None => 0xA11CE5,
    };
    let seed = base ^ (utc_day as u64).wrapping_mul(0x9E37_79B9_7F4A_7C15u64);
    DailyPick {
        utc_day,
        map_id: map.id,
        modifier_id: modifier.id(),
        map_name: map.name.clone(),
        map_hazard: map.hazard.clone(),
        modifier_name: modifier.name().to_owned(),
        modifier_hazard: modifier.hazard().to_owned(),
        seed,
    }
}

} // verus!
