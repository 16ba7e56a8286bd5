//! The rules of building: which cells take a structure, and the maze rule — no structure may
//! cut a spawn off from the relay or leave a walking creep with nowhere to go.

use vstd::prelude::*;
use crate::defs::BuildKind;
use crate::grid::{Grid, Occupant, Terrain};
use crate::path::{is_walk, reachable, shortest, FlowField};

verus! {

/// Why an order on the field was refused.
#[derive(Clone, Copy, Debug, PartialEq, Eq, Structural)]
pub enum PlaceError {
    OutOfBounds,
    Occupied,
    CantAfford,
    BlocksPath,
    TrapsCreeps,
    NotATurret,
    MaxTier,
    NotHelios,
    AlreadyAir,
    TurretCap,
    NotInLoadout,
    Intact,
    RelayDown,
    NothingToMove,
}

impl PlaceError {
    pub open spec fn text(self) -> Seq<char> {
        match self {
            PlaceError::OutOfBounds => "Off the grid"@,
            PlaceError::Occupied => "Can't build there"@,
            PlaceError::CantAfford => "Not enough scrap"@,
            PlaceError::BlocksPath => "That would cut off the relay"@,
            PlaceError::TrapsCreeps => "That would trap someone with nowhere to walk"@,
            PlaceError::NotATurret => "Nothing to upgrade"@,
            PlaceError::MaxTier => "Already maxed"@,
            PlaceError::NotHelios => "Only Helios converts"@,
            PlaceError::AlreadyAir => "Already air-tuned"@,
            PlaceError::TurretCap => "Turret ceiling reached"@,
            PlaceError::NotInLoadout => "Not in this loadout"@,
            PlaceError::Intact => "Relay is intact"@,
            PlaceError::RelayDown => "Relay is down"@,
            PlaceError::NothingToMove => "Select a structure first"@,
        }
    }

    /// The line shown to the commander.
    pub fn message(self) -> (r: &'static str)
        ensures
            r@ == self.text(),
    {
        match self {
            PlaceError::OutOfBounds => "Off the grid",
            PlaceError::Occupied => "Can't build there",
            PlaceError::CantAfford => "Not enough scrap",
            PlaceError::BlocksPath => "That would cut off the relay",
            PlaceError::TrapsCreeps => "That would trap someone with nowhere to walk",
            PlaceError::NotATurret => "Nothing to upgrade",
            PlaceError::MaxTier => "Already maxed",
            PlaceError::NotHelios => "Only Helios converts",
            PlaceError::AlreadyAir => "Already air-tuned",
            PlaceError::TurretCap => "Turret ceiling reached",
            PlaceError::NotInLoadout => "Not in this loadout",
            PlaceError::Intact => "Relay is intact",
            PlaceError::RelayDown => "Relay is down",
            PlaceError::NothingToMove => "Select a structure first",
        }
    }
}

/// Every spawn cell of `g` can walk to a relay.
pub open spec fn spawns_ok(g: Grid) -> bool {
    forall|x: int, y: int|
        g.inside(x, y) && #[trigger] g.terrain_of(x, y) == Terrain::Spawn ==> reachable(g, x, y)
}

/// Every walking creep, standing on the given cells, is on open ground and can walk to a
/// relay.
pub open spec fn creeps_ok(g: Grid, creeps: Seq<(i32, i32)>) -> bool {
    forall|k: int|
        0 <= k < creeps.len() ==> !g.blocked((#[trigger] creeps[k]).0 as int, creeps[k].1 as int)
            && reachable(g, creeps[k].0 as int, creeps[k].1 as int)
}

/// `g2` is `g1` with `o` standing on `(x, y)`.
pub open spec fn built_from(g2: Grid, g1: Grid, x: int, y: int, o: Occupant) -> bool {
    &&& g2.wf()
    &&& g2.same_terrain(&g1)
    &&& forall|cx: int, cy: int|
        g2.inside(cx, cy) ==> #[trigger] g2.occ_of(cx, cy) == if cx == x && cy == y {
            o
        } else {
            g1.occ_of(cx, cy)
        }
}

/// `g2` is `g1` with the structure on `(ox, oy)` moved to `(x, y)`, standing there as `o`.
pub open spec fn moved_from(
    g2: Grid,
    g1: Grid,
    ox: int,
    oy: int,
    x: int,
    y: int,
    o: Occupant,
) -> bool {
    &&& g2.wf()
    &&& g2.same_terrain(&g1)
    &&& forall|cx: int, cy: int|
        g2.inside(cx, cy) ==> #[trigger] g2.occ_of(cx, cy) == if cx == x && cy == y {
            o
        } else if cx == ox && cy == oy {
            Occupant::Vacant
        } else {
            g1.occ_of(cx, cy)
        }
}

/// Grids that agree on terrain and occupants agree on who can walk where.
pub proof fn lemma_same_field(g1: Grid, g2: Grid, creeps: Seq<(i32, i32)>)
    requires
        g1.same_terrain(&g2),
        g1.same_occupants(&g2),
    ensures
        spawns_ok(g1) == spawns_ok(g2),
        creeps_ok(g1, creeps) == creeps_ok(g2, creeps),
        forall|x: int, y: int| #[trigger] reachable(g1, x, y) == reachable(g2, x, y),
{
    assert forall|p: Seq<(int, int)>| #[trigger] is_walk(g1, p) == is_walk(g2, p) by {
        if p.len() >= 1 {
            if g1.inside(p[0].0, p[0].1) {
                assert(g1.terrain_of(p[0].0, p[0].1) == g2.terrain_of(p[0].0, p[0].1));
            }
            assert forall|k: int| 1 <= k < p.len() implies g1.blocked(p[k].0, p[k].1) == g2.blocked(
                p[k].0,
                p[k].1,
            ) by {
                if g1.inside(p[k].0, p[k].1) {
                    assert(g1.terrain_of(p[k].0, p[k].1) == g2.terrain_of(p[k].0, p[k].1));
                    assert(g1.occ_of(p[k].0, p[k].1) == g2.occ_of(p[k].0, p[k].1));
                }
            }
        }
    }
    assert forall|x: int, y: int| #[trigger] reachable(g1, x, y) == reachable(g2, x, y) by {
        if reachable(g1, x, y) {
            let p = choose|p: Seq<(int, int)>| #[trigger] is_walk(g1, p) && p.last() == (x, y);
            assert(is_walk(g2, p));
        }
        if reachable(g2, x, y) {
            let p = choose|p: Seq<(int, int)>| #[trigger] is_walk(g2, p) && p.last() == (x, y);
            assert(is_walk(g1, p));
        }
    }
    assert forall|x: int, y: int| g1.inside(x, y) implies #[trigger] g1.terrain_of(x, y) == g2.terrain_of(x, y)
        && g1.blocked(x, y) == g2.blocked(x, y) by {
        assert(g1.occ_of(x, y) == g2.occ_of(x, y));
    }
    assert(spawns_ok(g1) == spawns_ok(g2)) by {
        if spawns_ok(g1) {
            assert forall|x: int, y: int|
                g2.inside(x, y) && #[trigger] g2.terrain_of(x, y) == Terrain::Spawn implies reachable(g2, x, y) by {
                assert(g1.terrain_of(x, y) == Terrain::Spawn);
                assert(reachable(g1, x, y));
            }
        }
        if spawns_ok(g2) {
            assert forall|x: int, y: int|
                g1.inside(x, y) && #[trigger] g1.terrain_of(x, y) == Terrain::Spawn implies reachable(g1, x, y) by {
                assert(g2.terrain_of(x, y) == Terrain::Spawn);
                assert(reachable(g2, x, y));
            }
        }
    }
    assert(creeps_ok(g1, creeps) == creeps_ok(g2, creeps)) by {
        assert forall|k: int| 0 <= k < creeps.len() implies g1.blocked(
            (#[trigger] creeps[k]).0 as int,
            creeps[k].1 as int,
        ) == g2.blocked(creeps[k].0 as int, creeps[k].1 as int) && reachable(
            g1,
            creeps[k].0 as int,
            creeps[k].1 as int,
        ) == reachable(g2, creeps[k].0 as int, creeps[k].1 as int) by {
            if g1.inside(creeps[k].0 as int, creeps[k].1 as int) {
                assert(g1.occ_of(creeps[k].0 as int, creeps[k].1 as int) == g2.occ_of(
                    creeps[k].0 as int,
                    creeps[k].1 as int,
                ));
            }
        }
    }
}

/// Can every walking creep, standing on the given cells, still walk to a relay?
pub fn creeps_reachable(grid: &Grid, flow: &FlowField, creeps: &Vec<(i32, i32)>) -> (r: bool)
    requires
        flow.is_flow_of(*grid),
    ensures
        r == creeps_ok(*grid, creeps@),
{
    let mut k: usize = 0;
    while k < creeps.len()
        invariant
            flow.is_flow_of(*grid),
            k <= creeps@.len(),
            forall|j: int|
                0 <= j < k ==> !grid.blocked((#[trigger] creeps@[j]).0 as int, creeps@[j].1 as int)
                    && reachable(*grid, creeps@[j].0 as int, creeps@[j].1 as int),
        decreases creeps@.len() - k,
    {
        let (x, y) = creeps[k];
        if grid.blocks_ground(x, y) {
            return false;
        }
        if !flow.cell_reachable(grid, x, y) {
            return false;
        }
        k = k + 1;
    }
    true
}

/// Tries `o` on the open cell `(x, y)`. The structure stays, and the new flow field comes
/// back, only if every spawn can still walk to a relay and no walking creep is trapped;
/// otherwise the cell is cleared again and the reason comes back.
pub fn try_build(grid: &mut Grid, x: i32, y: i32, o: Occupant, creeps: &Vec<(i32, i32)>) -> (r:
    Result<FlowField, PlaceError>)
    requires
        old(grid).wf(),
        old(grid).flow_sized(),
        old(grid).open_ground(x as int, y as int),
    ensures
        final(grid).wf(),
        final(grid).same_terrain(old(grid)),
        match r {
            Ok(f) => built_from(*final(grid), *old(grid), x as int, y as int, o) && f.is_flow_of(
                *final(grid),
            ) && spawns_ok(*final(grid)) && creeps_ok(*final(grid), creeps@),
            Err(_) => final(grid).same_occupants(old(grid)),
        },
        forall|g2: Grid| #[trigger]
            built_from(g2, *old(grid), x as int, y as int, o) ==> {
                &&& (r is Ok <==> spawns_ok(g2) && creeps_ok(g2, creeps@))
                &&& (r == Err::<FlowField, PlaceError>(PlaceError::BlocksPath) <==> !spawns_ok(g2))
                &&& (r == Err::<FlowField, PlaceError>(PlaceError::TrapsCreeps) <==> spawns_ok(g2)
                    && !creeps_ok(g2, creeps@))
            },
{
    let ghost g0 = *grid;
    grid.set_occ(x, y, o);
    let ghost mid = *grid;
    let flow = FlowField::compute(grid);
    let path_ok = flow.spawns_reachable(grid);
    let creeps_fine = creeps_reachable(grid, &flow, creeps);
    proof {
        assert(path_ok == spawns_ok(mid));
        assert(built_from(mid, g0, x as int, y as int, o));
        assert forall|g2: Grid| #[trigger] built_from(g2, g0, x as int, y as int, o) implies spawns_ok(g2)
            == spawns_ok(mid) && creeps_ok(g2, creeps@) == creeps_ok(mid, creeps@) by {
            assert forall|cx: int, cy: int| g2.inside(cx, cy) implies #[trigger] g2.occ_of(cx, cy)
                == mid.occ_of(cx, cy) by {
            }
            lemma_same_field(g2, mid, creeps@);
        }
    }
    if !path_ok || !creeps_fine {
        grid.set_occ(x, y, Occupant::Vacant);
        if !path_ok {
            return Err(PlaceError::BlocksPath);
        } else {
            return Err(PlaceError::TrapsCreeps);
        }
    }
    Ok(flow)
}

/// Tries moving the structure on `(ox, oy)` to the open cell `(x, y)`, where it stands as
/// `o`. The move stays, and the new flow field comes back, only if every spawn can still
/// walk to a relay and no walking creep is trapped; otherwise both cells are put back.
pub fn try_move(
    grid: &mut Grid,
    ox: i32,
    oy: i32,
    x: i32,
    y: i32,
    o: Occupant,
    creeps: &Vec<(i32, i32)>,
) -> (r: Result<FlowField, PlaceError>)
    requires
        old(grid).wf(),
        old(grid).flow_sized(),
        old(grid).inside(ox as int, oy as int),
        old(grid).open_ground(x as int, y as int),
        ox != x || oy != y,
    ensures
        final(grid).wf(),
        final(grid).same_terrain(old(grid)),
        match r {
            Ok(f) => moved_from(*final(grid), *old(grid), ox as int, oy as int, x as int, y as int, o)
                && f.is_flow_of(*final(grid)) && spawns_ok(*final(grid)) && creeps_ok(
                *final(grid),
                creeps@,
            ),
            Err(_) => final(grid).same_occupants(old(grid)),
        },
        forall|g2: Grid| #[trigger]
            moved_from(g2, *old(grid), ox as int, oy as int, x as int, y as int, o) ==> {
                &&& (r is Ok <==> spawns_ok(g2) && creeps_ok(g2, creeps@))
                &&& (r == Err::<FlowField, PlaceError>(PlaceError::BlocksPath) <==> !spawns_ok(g2))
                &&& (r == Err::<FlowField, PlaceError>(PlaceError::TrapsCreeps) <==> spawns_ok(g2)
                    && !creeps_ok(g2, creeps@))
            },
{
    let ghost g0 = *grid;
    let old_occ = grid.occupant(ox, oy);
    grid.set_occ(ox, oy, Occupant::Vacant);
    grid.set_occ(x, y, o);
    let ghost mid = *grid;
    let flow = FlowField::compute(grid);
    let path_ok = flow.spawns_reachable(grid);
    let creeps_fine = creeps_reachable(grid, &flow, creeps);
    proof {
        assert(moved_from(mid, g0, ox as int, oy as int, x as int, y as int, o));
        assert forall|g2: Grid| #[trigger]
            moved_from(g2, g0, ox as int, oy as int, x as int, y as int, o) implies spawns_ok(g2)
            == spawns_ok(mid) && creeps_ok(g2, creeps@) == creeps_ok(mid, creeps@) by {
            assert forall|cx: int, cy: int| g2.inside(cx, cy) implies #[trigger] g2.occ_of(cx, cy)
                == mid.occ_of(cx, cy) by {
            }
            lemma_same_field(g2, mid, creeps@);
        }
    }
    if !path_ok || !creeps_fine {
        grid.set_occ(ox, oy, old_occ);
        grid.set_occ(x, y, Occupant::Vacant);
        if !path_ok {
            return Err(PlaceError::BlocksPath);
        } else {
            return Err(PlaceError::TrapsCreeps);
        }
    }
    Ok(flow)
}

/// What a structure of kind `kind` stands on its cell as: a barricade is a wall, anything
/// else the turret with the given id.
pub open spec fn occupant_for(kind: BuildKind, id: u32) -> Occupant {
    if kind == BuildKind::Barricade {
        Occupant::Wall
    } else {
        Occupant::Tower(id)
    }
}

pub fn structure_occupant(kind: BuildKind, id: u32) -> (r: Occupant)
    ensures
        r == occupant_for(kind, id),
{
    if kind == BuildKind::Barricade {
        Occupant::Wall
    } else {
        Occupant::Tower(id)
    }
}

/// The checks a placement must pass before the maze rule is tried, in the order the field
/// makes them.
pub open spec fn site_verdict_of(
    g: Grid,
    x: int,
    y: int,
    kind: BuildKind,
    defeated: bool,
    enabled: bool,
    cost: int,
    credits: int,
    turret_cap: Option<u32>,
    turrets: u32,
) -> Result<(), PlaceError> {
    if defeated || kind == BuildKind::Inspect {
        Err(PlaceError::Occupied)
    } else if !g.inside(x, y) {
        Err(PlaceError::OutOfBounds)
    } else if !g.open_ground(x, y) {
        Err(PlaceError::Occupied)
    } else if !enabled {
        Err(PlaceError::NotInLoadout)
    } else if credits < cost {
        Err(PlaceError::CantAfford)
    } else if kind != BuildKind::Barricade && (turret_cap matches Some(cap) && turrets >= cap) {
        Err(PlaceError::TurretCap)
    } else {
        Ok(())
    }
}

/// May a structure of kind `kind`, costing `cost`, go on `(x, y)`? `enabled` says whether
/// the loadout offers it, `turrets` counts the turrets standing, `turret_cap` is the match's
/// ceiling on them, if any.
pub fn site_verdict(
    grid: &Grid,
    x: i32,
    y: i32,
    kind: BuildKind,
    defeated: bool,
    enabled: bool,
    cost: i32,
    credits: i32,
    turret_cap: Option<u32>,
    turrets: u32,
) -> (r: Result<(), PlaceError>)
    requires
        grid.wf(),
    ensures
        r == site_verdict_of(
            *grid,
            x as int,
            y as int,
            kind,
            defeated,
            enabled,
            cost as int,
            credits as int,
            turret_cap,
            turrets,
        ),
{
    if defeated {
        return Err(PlaceError::Occupied);
    }
    if !kind.is_structure() {
        return Err(PlaceError::Occupied);
    }
    if !grid.in_bounds(x, y) {
        return Err(PlaceError::OutOfBounds);
    }
    if !grid.buildable(x, y) {
        return Err(PlaceError::Occupied);
    }
    if !enabled {
        return Err(PlaceError::NotInLoadout);
    }
    if credits < cost {
        return Err(PlaceError::CantAfford);
    }
    if kind.is_turret() {
        if let Some(cap) = turret_cap {
            if turrets >= cap {
                return Err(PlaceError::TurretCap);
            }
        }
    }
    Ok(())
}

/// The checks a move must pass before the maze rule is tried, in the order the field makes
/// them; a move onto its own cell is already done.
pub open spec fn move_verdict_of(
    g: Grid,
    ox: int,
    oy: int,
    x: int,
    y: int,
    defeated: bool,
    credits: int,
    move_cost: int,
) -> Option<Result<(), PlaceError>> {
    if defeated {
        Some(Err(PlaceError::Occupied))
    } else if ox == x && oy == y {
        Some(Ok(()))
    } else if !g.inside(x, y) {
        Some(Err(PlaceError::OutOfBounds))
    } else if !g.open_ground(x, y) {
        Some(Err(PlaceError::Occupied))
    } else if credits < move_cost {
        Some(Err(PlaceError::CantAfford))
    } else {
        None
    }
}

/// Settles a move of the structure on `(ox, oy)` to `(x, y)` without the maze rule where it
/// can: `Some` with the outcome, or `None` when the maze rule must decide.
pub fn move_verdict(
    grid: &Grid,
    ox: i32,
    oy: i32,
    x: i32,
    y: i32,
    defeated: bool,
    credits: i32,
    move_cost: i32,
) -> (r: Option<Result<(), PlaceError>>)
    requires
        grid.wf(),
    ensures
        r == move_verdict_of(*grid, ox as int, oy as int, x as int, y as int, defeated, credits as int, move_cost as int),
{
    if defeated {
        return Some(Err(PlaceError::Occupied));
    }
    if ox == x && oy == y {
        return Some(Ok(()));
    }
    if !grid.in_bounds(x, y) {
        return Some(Err(PlaceError::OutOfBounds));
    }
    if !grid.buildable(x, y) {
        return Some(Err(PlaceError::Occupied));
    }
    if credits < move_cost {
        return Some(Err(PlaceError::CantAfford));
    }
    None
}

/// Law: barricades ignore the turret ceiling — a barricade is never refused for the cap.
pub proof fn law_barricades_ignore_the_cap(
    g: Grid,
    x: int,
    y: int,
    defeated: bool,
    enabled: bool,
    cost: int,
    credits: int,
    turret_cap: Option<u32>,
    turrets: u32,
)
    ensures
        site_verdict_of(g, x, y, BuildKind::Barricade, defeated, enabled, cost, credits, turret_cap, turrets)
            != Err::<(), PlaceError>(PlaceError::TurretCap),
{
}

/// Law: building never shortens the walk. With a structure added, every cell is at least as
/// far from the relay as before, and a cell that can still reach it could before.
pub proof fn law_building_never_shortens_the_walk(
    g1: Grid,
    g2: Grid,
    f1: FlowField,
    f2: FlowField,
    bx: int,
    by: int,
    o: Occupant,
    x: int,
    y: int,
)
    requires
        built_from(g2, g1, bx, by, o),
        o != Occupant::Vacant,
        f1.is_flow_of(g1),
        f2.is_flow_of(g2),
        g1.inside(x, y),
    ensures
        reachable(g2, x, y) ==> reachable(g1, x, y),
        f1.dist_of(g1, x, y) <= f2.dist_of(g2, x, y),
{
    assert forall|p: Seq<(int, int)>| #[trigger] is_walk(g2, p) implies is_walk(g1, p) by {
        if g2.inside(p[0].0, p[0].1) {
            assert(g2.terrain_of(p[0].0, p[0].1) == g1.terrain_of(p[0].0, p[0].1));
        }
        assert forall|k: int| 1 <= k < p.len() implies !g1.blocked(p[k].0, p[k].1) by {
            assert(!g2.blocked(p[k].0, p[k].1));
            assert(g2.terrain_of(p[k].0, p[k].1) == g1.terrain_of(p[k].0, p[k].1));
            assert(g2.occ_of(p[k].0, p[k].1) != Occupant::Vacant || !(p[k].0 == bx && p[k].1 == by));
        }
    }
    if reachable(g2, x, y) {
        let p = choose|p: Seq<(int, int)>| #[trigger] is_walk(g2, p) && p.last() == (x, y);
        assert(is_walk(g1, p));
        assert(g2.inside(x, y));
        let d2 = f2.dist_of(g2, x, y);
        assert(shortest(g2, x, y, d2 as int));
        let q = choose|q: Seq<(int, int)>| #[trigger] is_walk(g2, q) && q.last() == (x, y) && q.len() == d2 + 1;
        assert(is_walk(g1, q));
        assert(reachable(g1, x, y));
        let d1 = f1.dist_of(g1, x, y);
        assert(shortest(g1, x, y, d1 as int));
        assert(q.len() >= d1 + 1);
    }
}


/// Law: a structure is allowed only on a cell of the battlefield with empty terrain and
/// nothing built on it, in a match still running, when the loadout offers it, the scrap
/// covers it, and a turret (not a barricade) would not pass the match's ceiling.
pub proof fn law_building_needs_open_ground(
    g: Grid,
    x: int,
    y: int,
    kind: BuildKind,
    defeated: bool,
    enabled: bool,
    cost: int,
    credits: int,
    turret_cap: Option<u32>,
    turrets: u32,
)
    requires
        site_verdict_of(g, x, y, kind, defeated, enabled, cost, credits, turret_cap, turrets) is Ok,
    ensures
        0 <= x < g.w && 0 <= y < g.h,
        g.terrain_of(x, y) == Terrain::Empty,
        g.occ_of(x, y) == Occupant::Vacant,
        !defeated,
        kind != BuildKind::Inspect,
        enabled,
        cost <= credits,
        kind != BuildKind::Barricade ==> (turret_cap matches Some(cap) ==> turrets < cap),
{
}

/// Law: a structure already standing on a cell, or rock, or an edge of the map, refuses a
/// new structure there.
pub proof fn law_no_building_on_a_taken_cell(
    g: Grid,
    x: int,
    y: int,
    kind: BuildKind,
    defeated: bool,
    enabled: bool,
    cost: int,
    credits: int,
    turret_cap: Option<u32>,
    turrets: u32,
)
    requires
        0 <= x < g.w && 0 <= y < g.h,
        g.occ_of(x, y) != Occupant::Vacant || g.terrain_of(x, y) != Terrain::Empty,
    ensures
        site_verdict_of(g, x, y, kind, defeated, enabled, cost, credits, turret_cap, turrets)
            == Err::<(), PlaceError>(PlaceError::Occupied),
{
}

/// Law: a move goes on to the maze rule only toward a cell of the battlefield with empty
/// terrain and nothing built on it, in a running match, with the scrap for the move; staying
/// put always succeeds while the match runs.
pub proof fn law_moving_needs_open_ground(
    g: Grid,
    ox: int,
    oy: int,
    x: int,
    y: int,
    defeated: bool,
    credits: int,
    move_cost: int,
)
    ensures
        move_verdict_of(g, ox, oy, x, y, defeated, credits, move_cost) is None ==> {
            &&& 0 <= x < g.w && 0 <= y < g.h
            &&& g.terrain_of(x, y) == Terrain::Empty
            &&& g.occ_of(x, y) == Occupant::Vacant
            &&& !defeated
            &&& move_cost <= credits
            &&& (ox != x || oy != y)
        },
        !defeated && ox == x && oy == y ==> move_verdict_of(g, ox, oy, x, y, defeated, credits, move_cost)
            == Some(Ok::<(), PlaceError>(())),
        defeated ==> move_verdict_of(g, ox, oy, x, y, defeated, credits, move_cost) matches Some(Err(_)),
{
}


/// Law: when several checks fail, the first in this order names the refusal: a finished
/// match or no structure in hand, a cell off the map, a taken cell, a structure the loadout
/// does not offer, a short purse, then the turret ceiling.
pub proof fn law_site_refusals_in_order(
    g: Grid,
    x: int,
    y: int,
    kind: BuildKind,
    defeated: bool,
    enabled: bool,
    cost: int,
    credits: int,
    turret_cap: Option<u32>,
    turrets: u32,
)
    ensures
        ({
            let r = site_verdict_of(g, x, y, kind, defeated, enabled, cost, credits, turret_cap, turrets);
            let inside = 0 <= x < g.w && 0 <= y < g.h;
            let open = g.terrain_of(x, y) == Terrain::Empty && g.occ_of(x, y) == Occupant::Vacant;
            let capped = kind != BuildKind::Barricade && turret_cap is Some && turrets >= turret_cap->0;
            &&& (defeated || kind == BuildKind::Inspect) ==> r == Err::<(), PlaceError>(PlaceError::Occupied)
            &&& (!defeated && kind != BuildKind::Inspect && !inside) ==> r == Err::<(), PlaceError>(
                PlaceError::OutOfBounds,
            )
            &&& (!defeated && kind != BuildKind::Inspect && inside && !open) ==> r == Err::<
                (),
                PlaceError,
            >(PlaceError::Occupied)
            &&& (!defeated && kind != BuildKind::Inspect && inside && open && !enabled) ==> r == Err::<
                (),
                PlaceError,
            >(PlaceError::NotInLoadout)
            &&& (!defeated && kind != BuildKind::Inspect && inside && open && enabled && credits < cost)
                ==> r == Err::<(), PlaceError>(PlaceError::CantAfford)
            &&& (!defeated && kind != BuildKind::Inspect && inside && open && enabled && credits >= cost
                && capped) ==> r == Err::<(), PlaceError>(PlaceError::TurretCap)
            &&& (!defeated && kind != BuildKind::Inspect && inside && open && enabled && credits >= cost
                && !capped) ==> r == Ok::<(), PlaceError>(())
        }),
{
}

} // verus!
