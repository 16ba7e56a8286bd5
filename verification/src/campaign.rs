//! The campaign (missions in order, each a theater, a modifier, a seed and a wave to hold)
//! and the public challenge seeds.

use vstd::prelude::*;
use crate::maps::{theaters, THEATER_COUNT};
use crate::modifiers::{modifier_at, modifiers, Modifier};

verus! {

#[derive(Clone, Debug)]
pub struct Mission {
    pub id: u8,
    pub slug: String,
    pub name: String,
    pub briefing: String,
    pub objective: String,
    pub hold_until_wave: u32,
    pub map_id: u8,
    pub map_name: String,
    pub modifier_id: u8,
    pub modifier_name: String,
    pub hazard: String,
    pub seed: u64,
}

#[derive(Clone, Debug)]
pub struct Challenge {
    pub id: u8,
    pub slug: String,
    pub name: String,
    pub blurb: String,
    pub map_id: u8,
    pub map_name: String,
    pub modifier_id: u8,
    pub modifier_name: String,
    pub seed: u64,
    pub hold_until_wave: Option<u32>,
}

pub const MISSION_COUNT: u8 = 8;

pub const CHALLENGE_COUNT: u8 = 6;

/// Name of a theater for a briefing; "Unknown" for an id with no theater.
pub open spec fn theater_label(id: int) -> Seq<char> {
    if 0 <= id < THEATER_COUNT {
        crate::maps::theater_name(id)
    } else {
        "Unknown"@
    }
}

/// The theater's hazard and the modifier's, joined by a space; a missing one is left out.
pub open spec fn joined_hazard(map_id: int, modifier_id: int) -> Seq<char> {
    let a = if 0 <= map_id < THEATER_COUNT {
        crate::maps::theater_hazard(map_id)
    } else {
        Seq::empty()
    };
    let b = if 0 <= modifier_id <= 6 {
        modifier_at(modifier_id).hazard_text()
    } else {
        Seq::empty()
    };
    if a.len() == 0 {
        b
    } else if b.len() == 0 {
        a
    } else {
        a + " "@ + b
    }
}

/// Mission `i`: slug, name, briefing, objective, wave to hold, theater, modifier, seed.
pub open spec fn mission_row(i: int) -> (Seq<char>, Seq<char>, Seq<char>, Seq<char>, u32, u8, u8, u64) {
    if i == 0 {
        ("open-ground"@, "Open Ground"@, "Wide scrub. Two ingresses. Build a kill corridor before the sky learns your name."@, "Hold through wave 8"@, 8, 0, 0, 0xC010_0001)
    } else if i == 1 {
        ("yard-doors"@, "Yard Doors"@, "The courtyard has two doors and no Wasps. The walk is the whole war."@, "Hold through wave 10"@, 10, 1, 1, 0xC010_0002)
    } else if i == 2 {
        ("pinch"@, "The Pinch"@, "Dust Cut already pinched the field. You get ten guns. Make them count."@, "Hold through wave 10"@, 10, 2, 5, 0xC010_0003)
    } else if i == 3 {
        ("split-attention"@, "Split Attention"@, "A spine splits the walk. They are thin and they are fast. Cover both corridors."@, "Hold through wave 12"@, 12, 3, 2, 0xC010_0004)
    } else if i == 4 {
        ("pocket"@, "Pocket Change"@, "Tight yard. Ten thousand scrap. Kills pay nothing. Every turret is a vow."@, "Hold through wave 10"@, 10, 4, 4, 0xC010_0005)
    } else if i == 5 {
        ("twin-watch"@, "Twin Watch"@, "Two relays, one integrity pool. Twenty guns. Air still picks the nearest core."@, "Hold through wave 12"@, 12, 5, 6, 0xC010_0006)
    } else if i == 6 {
        ("three-gates"@, "Three Gates"@, "North, west, east. Shades walk past guns that cannot see them. Pulse, Arc, and Helios can."@, "Hold through wave 10"@, 10, 6, 0, 0xC010_0007)
    } else {
        ("the-bend"@, "The Bend"@, "The oxbow already folded the walk. Seal the banks and the cup is the killbox. The Colossus will silence guns that stand too close."@, "Hold through wave 12"@, 12, 7, 0, 0xC010_0008)
    }
}

/// Challenge `i`: slug, name, blurb, theater, modifier, seed, wave to hold.
pub open spec fn challenge_row(i: int) -> (Seq<char>, Seq<char>, Seq<char>, u8, u8, u64, Option<u32>) {
    if i == 0 {
        ("dry-season"@, "Dry Season"@, "Kilo, standard rules, a known seed. Same walk if you issue the same orders."@, 0, 0, 0xD00D_5EED, Some(10))
    } else if i == 1 {
        ("night-watch"@, "Night Watch"@, "Twin Cores, accelerated. The sky will split. Hold ten."@, 5, 2, 0xA11_0B17, Some(10))
    } else if i == 2 {
        ("iron-budget"@, "Iron Budget"@, "Enclave, fixed scrap. You do not get a second economy."@, 4, 4, 0xC0DE_B10C, Some(8))
    } else if i == 3 {
        ("three-doors"@, "Three Doors"@, "Tri-Gate, ten guns. Three walks, one budget."@, 6, 5, 0x7116_A7E1, Some(10))
    } else if i == 4 {
        ("blind-spot"@, "Blind Spot"@, "Dust Cut, standard. Shades and Flickers in a pinched walk. Hold ten."@, 2, 0, 0x5A1D_E0, Some(10))
    } else {
        ("the-fold"@, "The Fold"@, "Oxbow, ten guns. Seal the banks or they go around. Hold twelve."@, 7, 5, 0x0B50_12, Some(12))
    }
}

/// Mission `m` is row `i` of the campaign, with its theater and modifier named.
pub open spec fn is_mission(m: Mission, i: int) -> bool {
    let row = mission_row(i);
    &&& m.id == i
    &&& m.slug@ == row.0
    &&& m.name@ == row.1
    &&& m.briefing@ == row.2
    &&& m.objective@ == row.3
    &&& m.hold_until_wave == row.4
    &&& m.map_id == row.5
    &&& m.modifier_id == row.6
    &&& m.seed == row.7
    &&& m.map_name@ == theater_label(row.5 as int)
    &&& m.modifier_name@ == Modifier::from_code(row.6).name_text()
    &&& m.hazard@ == joined_hazard(row.5 as int, row.6 as int)
}

/// Challenge `c` is row `i` of the board, with its theater and modifier named.
pub open spec fn is_challenge(c: Challenge, i: int) -> bool {
    let row = challenge_row(i);
    &&& c.id == i
    &&& c.slug@ == row.0
    &&& c.name@ == row.1
    &&& c.blurb@ == row.2
    &&& c.map_id == row.3
    &&& c.modifier_id == row.4
    &&& c.seed == row.5
    &&& c.hold_until_wave == row.6
    &&& c.map_name@ == theater_label(row.3 as int)
    &&& c.modifier_name@ == Modifier::from_code(row.4).name_text()
}

fn theater_name(id: u8) -> (r: String)
    ensures
        r@ == theater_label(id as int),
{
    let list = theaters();
    let mut i: usize = 0;
    while i < list.len()
        invariant
            list@.len() == THEATER_COUNT,
            i <= list@.len(),
            forall|k: int|
                0 <= k < list@.len() ==> (#[trigger] list@[k]).id == k && list@[k].name@
                    == crate::maps::theater_name(k),
            forall|k: int| 0 <= k < i ==> (#[trigger] list@[k]).id != id,
        decreases list@.len() - i,
    {
        if list[i].id == id {
            return list[i].name.clone();
        }
        i = i + 1;
    }
    proof {
        if id < THEATER_COUNT {
            assert(list@[id as int].id == id);
        }
    }
    "Unknown".to_owned()
}

fn mod_name(id: u8) -> (r: String)
    ensures
        r@ == Modifier::from_code(id).name_text(),
{
    Modifier::from_u8(id).name().to_owned()
}

fn hazard(map_id: u8, modifier_id: u8) -> (r: String)
    ensures
        r@ == joined_hazard(map_id as int, modifier_id as int),
{
    let list = theaters();
    let mut a = String::new();
    let mut i: usize = 0;
    while i < list.len()
        invariant
            list@.len() == THEATER_COUNT,
            i <= list@.len(),
            forall|k: int|
                0 <= k < list@.len() ==> (#[trigger] list@[k]).id == k && list@[k].hazard@
                    == crate::maps::theater_hazard(k),
            a@ == (if map_id < i {
                crate::maps::theater_hazard(map_id as int)
            } else {
                Seq::<char>::empty()
            }),
            forall|k: int| 0 <= k < i ==> (#[trigger] list@[k]).id == k,
        decreases list@.len() - i,
    {
        if list[i].id == map_id {
            a = list[i].hazard.clone();
        }
        i = i + 1;
    }
    let mods = modifiers();
    let mut b = String::new();
    let mut j: usize = 0;
    while j < mods.len()
        invariant
            mods@.len() == 7,
            j <= mods@.len(),
            forall|k: int|
                0 <= k < 7 ==> (#[trigger] mods@[k]).id == k && mods@[k].hazard@
                    == modifier_at(k).hazard_text(),
            b@ == (if modifier_id < j {
                modifier_at(modifier_id as int).hazard_text()
            } else {
                Seq::<char>::empty()
            }),
        decreases mods@.len() - j,
    {
        if mods[j].id == modifier_id {
            b = mods[j].hazard.clone();
        }
        j = j + 1;
    }
    if a.as_str().is_empty() {
        return b;
    }
    if b.as_str().is_empty() {
        return a;
    }
    let mut out = a;
    out.append(" ");
    out.append(b.as_str());
    out
}

/// The campaign, in mission order.
pub fn campaign() -> (r: Vec<Mission>)
    ensures
        r@.len() == MISSION_COUNT,
        forall|i: int| 0 <= i < r@.len() ==> is_mission(#[trigger] r@[i], i),
{
    let mut r: Vec<Mission> = Vec::new();
    r.push(
        Mission {
            id: 0,
            slug: "open-ground".to_owned(),
            name: "Open Ground".to_owned(),
            briefing: "Wide scrub. Two ingresses. Build a kill corridor before the sky learns your name.".to_owned(),
            objective: "Hold through wave 8".to_owned(),
            hold_until_wave: 8,
            map_id: 0,
            map_name: theater_name(0),
            modifier_id: 0,
            modifier_name: mod_name(0),
            hazard: hazard(0, 0),
            seed: 0xC010_0001,
        },
    );
    r.push(
        Mission {
            id: 1,
            slug: "yard-doors".to_owned(),
            name: "Yard Doors".to_owned(),
            briefing: "The courtyard has two doors and no Wasps. The walk is the whole war.".to_owned(),
            objective: "Hold through wave 10".to_owned(),
            hold_until_wave: 10,
            map_id: 1,
            map_name: theater_name(1),
            modifier_id: 1,
            modifier_name: mod_name(1),
            hazard: hazard(1, 1),
            seed: 0xC010_0002,
        },
    );
    r.push(
        Mission {
            id: 2,
            slug: "pinch".to_owned(),
            name: "The Pinch".to_owned(),
            briefing: "Dust Cut already pinched the field. You get ten guns. Make them count.".to_owned(),
            objective: "Hold through wave 10".to_owned(),
            hold_until_wave: 10,
            map_id: 2,
            map_name: theater_name(2),
            modifier_id: 5,
            modifier_name: mod_name(5),
            hazard: hazard(2, 5),
            seed: 0xC010_0003,
        },
    );
    r.push(
        Mission {
            id: 3,
            slug: "split-attention".to_owned(),
            name: "Split Attention".to_owned(),
            briefing: "A spine splits the walk. They are thin and they are fast. Cover both corridors.".to_owned(),
            objective: "Hold through wave 12".to_owned(),
            hold_until_wave: 12,
            map_id: 3,
            map_name: theater_name(3),
            modifier_id: 2,
            modifier_name: mod_name(2),
            hazard: hazard(3, 2),
            seed: 0xC010_0004,
        },
    );
    r.push(
        Mission {
            id: 4,
            slug: "pocket".to_owned(),
            name: "Pocket Change".to_owned(),
            briefing: "Tight yard. Ten thousand scrap. Kills pay nothing. Every turret is a vow.".to_owned(),
            objective: "Hold through wave 10".to_owned(),
            hold_until_wave: 10,
            map_id: 4,
            map_name: theater_name(4),
            modifier_id: 4,
            modifier_name: mod_name(4),
            hazard: hazard(4, 4),
            seed: 0xC010_0005,
        },
    );
    r.push(
        Mission {
            id: 5,
            slug: "twin-watch".to_owned(),
            name: "Twin Watch".to_owned(),
            briefing: "Two relays, one integrity pool. Twenty guns. Air still picks the nearest core.".to_owned(),
            objective: "Hold through wave 12".to_owned(),
            hold_until_wave: 12,
            map_id: 5,
            map_name: theater_name(5),
            modifier_id: 6,
            modifier_name: mod_name(6),
            hazard: hazard(5, 6),
            seed: 0xC010_0006,
        },
    );
    r.push(
        Mission {
            id: 6,
            slug: "three-gates".to_owned(),
            name: "Three Gates".to_owned(),
            briefing: "North, west, east. Shades walk past guns that cannot see them. Pulse, Arc, and Helios can.".to_owned(),
            objective: "Hold through wave 10".to_owned(),
            hold_until_wave: 10,
            map_id: 6,
            map_name: theater_name(6),
            modifier_id: 0,
            modifier_name: mod_name(0),
            hazard: hazard(6, 0),
            seed: 0xC010_0007,
        },
    );
    r.push(
        Mission {
            id: 7,
            slug: "the-bend".to_owned(),
            name: "The Bend".to_owned(),
            briefing: "The oxbow already folded the walk. Seal the banks and the cup is the killbox. The Colossus will silence guns that stand too close.".to_owned(),
            objective: "Hold through wave 12".to_owned(),
            hold_until_wave: 12,
            map_id: 7,
            map_name: theater_name(7),
            modifier_id: 0,
            modifier_name: mod_name(0),
            hazard: hazard(7, 0),
            seed: 0xC010_0008,
        },
    );
    r
}

pub fn mission_by_id(id: u8) -> (r: Option<Mission>)
    ensures
        id < MISSION_COUNT ==> (r matches Some(m) && is_mission(m, id as int)),
        id >= MISSION_COUNT ==> r is None,
{
    let mut list = campaign();
    let mut i: usize = 0;
    while i < list.len()
        invariant
            list@.len() == MISSION_COUNT,
            i <= list@.len(),
            forall|k: int| 0 <= k < list@.len() ==> is_mission(#[trigger] list@[k], k),
            forall|k: int| 0 <= k < i ==> (#[trigger] list@[k]).id != id,
        decreases list@.len() - i,
    {
        if list[i].id == id {
            let found = list.remove(i);
            return Some(found);
        }
        i = i + 1;
    }
    proof {
        if id < MISSION_COUNT {
            assert(is_mission(list@[id as int], id as int));
        }
    }
    None
}

/// The public challenge seeds.
pub fn challenges() -> (r: Vec<Challenge>)
    ensures
        r@.len() == CHALLENGE_COUNT,
        forall|i: int| 0 <= i < r@.len() ==> is_challenge(#[trigger] r@[i], i),
{
    let mut r: Vec<Challenge> = Vec::new();
    r.push(
        Challenge {
            id: 0,
            slug: "dry-season".to_owned(),
            name: "Dry Season".to_owned(),
            blurb: "Kilo, standard rules, a known seed. Same walk if you issue the same orders.".to_owned(),
            map_id: 0,
            map_name: theater_name(0),
            modifier_id: 0,
            modifier_name: mod_name(0),
            seed: 0xD00D_5EED,
            hold_until_wave: Some(10),
        },
    );
    r.push(
        Challenge {
            id: 1,
            slug: "night-watch".to_owned(),
            name: "Night Watch".to_owned(),
            blurb: "Twin Cores, accelerated. The sky will split. Hold ten.".to_owned(),
            map_id: 5,
            map_name: theater_name(5),
            modifier_id: 2,
            modifier_name: mod_name(2),
            seed: 0xA11_0B17,
            hold_until_wave: Some(10),
        },
    );
    r.push(
        Challenge {
            id: 2,
            slug: "iron-budget".to_owned(),
            name: "Iron Budget".to_owned(),
            blurb: "Enclave, fixed scrap. You do not get a second economy.".to_owned(),
            map_id: 4,
            map_name: theater_name(4),
            modifier_id: 4,
            modifier_name: mod_name(4),
            seed: 0xC0DE_B10C,
            hold_until_wave: Some(8),
        },
    );
    r.push(
        Challenge {
            id: 3,
            slug: "three-doors".to_owned(),
            name: "Three Doors".to_owned(),
            blurb: "Tri-Gate, ten guns. Three walks, one budget.".to_owned(),
            map_id: 6,
            map_name: theater_name(6),
            modifier_id: 5,
            modifier_name: mod_name(5),
            seed: 0x7116_A7E1,
            hold_until_wave: Some(10),
        },
    );
    r.push(
        Challenge {
            id: 4,
            slug: "blind-spot".to_owned(),
            name: "Blind Spot".to_owned(),
            blurb: "Dust Cut, standard. Shades and Flickers in a pinched walk. Hold ten.".to_owned(),
            map_id: 2,
            map_name: theater_name(2),
            modifier_id: 0,
            modifier_name: mod_name(0),
            seed: 0x5A1D_E0,
            hold_until_wave: Some(10),
        },
    );
    r.push(
        Challenge {
            id: 5,
            slug: "the-fold".to_owned(),
            name: "The Fold".to_owned(),
            blurb: "Oxbow, ten guns. Seal the banks or they go around. Hold twelve.".to_owned(),
            map_id: 7,
            map_name: theater_name(7),
            modifier_id: 5,
            modifier_name: mod_name(5),
            seed: 0x0B50_12,
            hold_until_wave: Some(12),
        },
    );
    r
}

pub fn challenge_by_id(id: u8) -> (r: Option<Challenge>)
    ensures
        id < CHALLENGE_COUNT ==> (r matches Some(c) && is_challenge(c, id as int)),
        id >= CHALLENGE_COUNT ==> r is None,
{
    let mut list = challenges();
    let mut i: usize = 0;
    while i < list.len()
        invariant
            list@.len() == CHALLENGE_COUNT,
            i <= list@.len(),
            forall|k: int| 0 <= k < list@.len() ==> is_challenge(#[trigger] list@[k], k),
            forall|k: int| 0 <= k < i ==> (#[trigger] list@[k]).id != id,
        decreases list@.len() - i,
    {
        if list[i].id == id {
            let found = list.remove(i);
            return Some(found);
        }
        i = i + 1;
    }
    proof {
        if id < CHALLENGE_COUNT {
            assert(is_challenge(list@[id as int], id as int));
        }
    }
    None
}

/// Law: every mission and challenge is played on a built-in theater under a real
/// modifier, and every mission asks to hold a wave.
pub proof fn law_campaign_names_real_theaters(i: int, j: int)
    requires
        0 <= i < MISSION_COUNT,
        0 <= j < CHALLENGE_COUNT,
    ensures
        mission_row(i).5 < THEATER_COUNT,
        mission_row(i).6 <= 6,
        mission_row(i).4 > 0,
        challenge_row(j).3 < THEATER_COUNT,
        challenge_row(j).4 <= 6,
{
}

} // verus!
