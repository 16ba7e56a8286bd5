//! The built-in theaters: each map is painted from rectangles (and, for Mossfold, organic
//! blobs) onto an empty grid.

use vstd::prelude::*;
use crate::grid::{blob_covers, blob_hi, blob_lo, in_rect, Grid, Occupant, Terrain};

verus! {
pub open spec fn kilo_outpost_terrain(x: int, y: int) -> Terrain {
    if false {
        Terrain::Rock
    } else if false {
        Terrain::Empty
    } else if in_rect(10, 4, 4, 2, x, y) || in_rect(11, 6, 1, 3, x, y) || in_rect(4, 11, 3, 2, x, y) || in_rect(5, 13, 1, 2, x, y) || in_rect(18, 8, 5, 2, x, y) || in_rect(18, 10, 2, 2, x, y) || in_rect(21, 10, 2, 2, x, y) || in_rect(31, 5, 3, 2, x, y) || in_rect(33, 7, 1, 3, x, y) || in_rect(28, 14, 4, 2, x, y) || in_rect(29, 16, 1, 2, x, y) || in_rect(8, 18, 2, 2, x, y) || in_rect(14, 21, 3, 1, x, y) {
        Terrain::Rock
    } else if in_rect(8, 0, 12, 1, x, y) || in_rect(27, 0, 11, 1, x, y) || in_rect(39, 1, 1, 8, x, y) {
        Terrain::Spawn
    } else if in_rect(2, 20, 2, 2, x, y) {
        Terrain::Core
    } else {
        Terrain::Empty
    }
}

/// Kilo Outpost — wide scrub, two ingresses, south-west relay.
pub fn kilo_outpost() -> (g: Grid)
    ensures
        g.wf(),
        g.w == 40,
        g.h == 24,
        forall|x: int, y: int| g.inside(x, y) ==> #[trigger] g.terrain_of(x, y) == kilo_outpost_terrain(x, y),
        forall|x: int, y: int| g.inside(x, y) ==> #[trigger] g.occ_of(x, y) == Occupant::Vacant,
{
    let mut g = Grid::new(40, 24);
    g.fill_rect(2, 20, 2, 2, Terrain::Core);
    g.fill_rect(8, 0, 12, 1, Terrain::Spawn);
    g.fill_rect(27, 0, 11, 1, Terrain::Spawn);
    g.fill_rect(39, 1, 1, 8, Terrain::Spawn);
    g.stamp_rock(10, 4, 4, 2);
    g.stamp_rock(11, 6, 1, 3);
    g.stamp_rock(4, 11, 3, 2);
    g.stamp_rock(5, 13, 1, 2);
    g.stamp_rock(18, 8, 5, 2);
    g.stamp_rock(18, 10, 2, 2);
    g.stamp_rock(21, 10, 2, 2);
    g.stamp_rock(31, 5, 3, 2);
    g.stamp_rock(33, 7, 1, 3);
    g.stamp_rock(28, 14, 4, 2);
    g.stamp_rock(29, 16, 1, 2);
    g.stamp_rock(8, 18, 2, 2);
    g.stamp_rock(14, 21, 3, 1);
    g
}

pub open spec fn redoubt_terrain(x: int, y: int) -> Terrain {
    if in_rect(4, 10, 3, 2, x, y) || in_rect(29, 12, 3, 2, x, y) || in_rect(16, 3, 4, 1, x, y) || in_rect(16, 20, 4, 1, x, y) {
        Terrain::Rock
    } else if in_rect(12, 8, 1, 1, x, y) || in_rect(12, 9, 1, 1, x, y) || in_rect(23, 14, 1, 1, x, y) || in_rect(23, 15, 1, 1, x, y) {
        Terrain::Empty
    } else if in_rect(12, 7, 12, 1, x, y) || in_rect(12, 16, 12, 1, x, y) || in_rect(12, 8, 1, 8, x, y) || in_rect(23, 8, 1, 8, x, y) {
        Terrain::Rock
    } else if in_rect(1, 0, 7, 1, x, y) || in_rect(0, 1, 1, 5, x, y) || in_rect(28, 23, 7, 1, x, y) || in_rect(35, 18, 1, 5, x, y) {
        Terrain::Spawn
    } else if in_rect(17, 11, 2, 2, x, y) {
        Terrain::Core
    } else {
        Terrain::Empty
    }
}

/// Courtyard core with two opposite doors.
pub fn redoubt() -> (g: Grid)
    ensures
        g.wf(),
        g.w == 36,
        g.h == 24,
        forall|x: int, y: int| g.inside(x, y) ==> #[trigger] g.terrain_of(x, y) == redoubt_terrain(x, y),
        forall|x: int, y: int| g.inside(x, y) ==> #[trigger] g.occ_of(x, y) == Occupant::Vacant,
{
    let mut g = Grid::new(36, 24);
    g.fill_rect(17, 11, 2, 2, Terrain::Core);
    g.fill_rect(1, 0, 7, 1, Terrain::Spawn);
    g.fill_rect(0, 1, 1, 5, Terrain::Spawn);
    g.fill_rect(28, 23, 7, 1, Terrain::Spawn);
    g.fill_rect(35, 18, 1, 5, Terrain::Spawn);
    g.stamp_rock(12, 7, 12, 1);
    g.stamp_rock(12, 16, 12, 1);
    g.stamp_rock(12, 8, 1, 8);
    g.stamp_rock(23, 8, 1, 8);
    g.set_terrain(12, 8, Terrain::Empty);
    g.set_terrain(12, 9, Terrain::Empty);
    g.set_terrain(23, 14, Terrain::Empty);
    g.set_terrain(23, 15, Terrain::Empty);
    g.stamp_rock(4, 10, 3, 2);
    g.stamp_rock(29, 12, 3, 2);
    g.stamp_rock(16, 3, 4, 1);
    g.stamp_rock(16, 20, 4, 1);
    g
}

pub open spec fn dust_cut_terrain(x: int, y: int) -> Terrain {
    if false {
        Terrain::Rock
    } else if false {
        Terrain::Empty
    } else if in_rect(8, 4, 6, 3, x, y) || in_rect(10, 7, 2, 4, x, y) || in_rect(16, 2, 3, 5, x, y) || in_rect(22, 6, 8, 2, x, y) || in_rect(24, 8, 2, 5, x, y) || in_rect(6, 14, 10, 2, x, y) || in_rect(8, 16, 3, 4, x, y) || in_rect(18, 14, 5, 4, x, y) || in_rect(28, 12, 4, 3, x, y) || in_rect(30, 16, 2, 4, x, y) || in_rect(33, 8, 3, 6, x, y) || in_rect(14, 20, 8, 2, x, y) {
        Terrain::Rock
    } else if in_rect(2, 0, 12, 1, x, y) || in_rect(0, 2, 1, 10, x, y) {
        Terrain::Spawn
    } else if in_rect(36, 20, 2, 2, x, y) {
        Terrain::Core
    } else {
        Terrain::Empty
    }
}

/// Rocky pass, core in the south-east, pinched approaches.
pub fn dust_cut() -> (g: Grid)
    ensures
        g.wf(),
        g.w == 40,
        g.h == 24,
        forall|x: int, y: int| g.inside(x, y) ==> #[trigger] g.terrain_of(x, y) == dust_cut_terrain(x, y),
        forall|x: int, y: int| g.inside(x, y) ==> #[trigger] g.occ_of(x, y) == Occupant::Vacant,
{
    let mut g = Grid::new(40, 24);
    g.fill_rect(36, 20, 2, 2, Terrain::Core);
    g.fill_rect(2, 0, 12, 1, Terrain::Spawn);
    g.fill_rect(0, 2, 1, 10, Terrain::Spawn);
    g.stamp_rock(8, 4, 6, 3);
    g.stamp_rock(10, 7, 2, 4);
    g.stamp_rock(16, 2, 3, 5);
    g.stamp_rock(22, 6, 8, 2);
    g.stamp_rock(24, 8, 2, 5);
    g.stamp_rock(6, 14, 10, 2);
    g.stamp_rock(8, 16, 3, 4);
    g.stamp_rock(18, 14, 5, 4);
    g.stamp_rock(28, 12, 4, 3);
    g.stamp_rock(30, 16, 2, 4);
    g.stamp_rock(33, 8, 3, 6);
    g.stamp_rock(14, 20, 8, 2);
    g
}

pub open spec fn split_relay_terrain(x: int, y: int) -> Terrain {
    if false {
        Terrain::Rock
    } else if false {
        Terrain::Empty
    } else if in_rect(19, 0, 2, 17, x, y) || in_rect(6, 5, 4, 2, x, y) || in_rect(9, 11, 3, 3, x, y) || in_rect(4, 16, 3, 2, x, y) || in_rect(30, 4, 4, 2, x, y) || in_rect(27, 10, 3, 3, x, y) || in_rect(33, 15, 3, 2, x, y) || in_rect(14, 18, 4, 1, x, y) || in_rect(22, 18, 4, 1, x, y) {
        Terrain::Rock
    } else if in_rect(1, 0, 11, 1, x, y) || in_rect(28, 0, 11, 1, x, y) {
        Terrain::Spawn
    } else if in_rect(19, 20, 2, 2, x, y) {
        Terrain::Core
    } else {
        Terrain::Empty
    }
}

/// Two long corridors split by a rock spine; they merge only at the southern relay.
pub fn split_relay() -> (g: Grid)
    ensures
        g.wf(),
        g.w == 40,
        g.h == 24,
        forall|x: int, y: int| g.inside(x, y) ==> #[trigger] g.terrain_of(x, y) == split_relay_terrain(x, y),
        forall|x: int, y: int| g.inside(x, y) ==> #[trigger] g.occ_of(x, y) == Occupant::Vacant,
{
    let mut g = Grid::new(40, 24);
    g.fill_rect(19, 20, 2, 2, Terrain::Core);
    g.fill_rect(1, 0, 11, 1, Terrain::Spawn);
    g.fill_rect(28, 0, 11, 1, Terrain::Spawn);
    g.stamp_rock(19, 0, 2, 17);
    g.stamp_rock(6, 5, 4, 2);
    g.stamp_rock(9, 11, 3, 3);
    g.stamp_rock(4, 16, 3, 2);
    g.stamp_rock(30, 4, 4, 2);
    g.stamp_rock(27, 10, 3, 3);
    g.stamp_rock(33, 15, 3, 2);
    g.stamp_rock(14, 18, 4, 1);
    g.stamp_rock(22, 18, 4, 1);
    g
}

pub open spec fn enclave_terrain(x: int, y: int) -> Terrain {
    if false {
        Terrain::Rock
    } else if false {
        Terrain::Empty
    } else if in_rect(11, 1, 6, 1, x, y) || in_rect(3, 3, 3, 2, x, y) || in_rect(22, 3, 3, 2, x, y) || in_rect(8, 13, 4, 2, x, y) || in_rect(16, 12, 4, 2, x, y) || in_rect(2, 13, 2, 2, x, y) || in_rect(24, 13, 2, 2, x, y) || in_rect(6, 7, 2, 2, x, y) || in_rect(20, 7, 2, 2, x, y) {
        Terrain::Rock
    } else if in_rect(3, 0, 7, 1, x, y) || in_rect(18, 0, 7, 1, x, y) || in_rect(0, 6, 1, 6, x, y) {
        Terrain::Spawn
    } else if in_rect(13, 8, 2, 2, x, y) {
        Terrain::Core
    } else {
        Terrain::Empty
    }
}

/// Small yard. Hostiles are already close.
pub fn enclave() -> (g: Grid)
    ensures
        g.wf(),
        g.w == 28,
        g.h == 18,
        forall|x: int, y: int| g.inside(x, y) ==> #[trigger] g.terrain_of(x, y) == enclave_terrain(x, y),
        forall|x: int, y: int| g.inside(x, y) ==> #[trigger] g.occ_of(x, y) == Occupant::Vacant,
{
    let mut g = Grid::new(28, 18);
    g.fill_rect(13, 8, 2, 2, Terrain::Core);
    g.fill_rect(3, 0, 7, 1, Terrain::Spawn);
    g.fill_rect(18, 0, 7, 1, Terrain::Spawn);
    g.fill_rect(0, 6, 1, 6, Terrain::Spawn);
    g.stamp_rock(11, 1, 6, 1);
    g.stamp_rock(3, 3, 3, 2);
    g.stamp_rock(22, 3, 3, 2);
    g.stamp_rock(8, 13, 4, 2);
    g.stamp_rock(16, 12, 4, 2);
    g.stamp_rock(2, 13, 2, 2);
    g.stamp_rock(24, 13, 2, 2);
    g.stamp_rock(6, 7, 2, 2);
    g.stamp_rock(20, 7, 2, 2);
    g
}

pub open spec fn twin_cores_terrain(x: int, y: int) -> Terrain {
    if false {
        Terrain::Rock
    } else if false {
        Terrain::Empty
    } else if in_rect(20, 4, 2, 16, x, y) || in_rect(7, 5, 3, 2, x, y) || in_rect(6, 16, 4, 2, x, y) || in_rect(32, 5, 3, 2, x, y) || in_rect(32, 16, 4, 2, x, y) || in_rect(14, 8, 2, 2, x, y) || in_rect(26, 8, 2, 2, x, y) || in_rect(12, 20, 4, 1, x, y) || in_rect(26, 20, 4, 1, x, y) {
        Terrain::Rock
    } else if in_rect(0, 2, 1, 8, x, y) || in_rect(41, 2, 1, 8, x, y) || in_rect(16, 0, 10, 1, x, y) {
        Terrain::Spawn
    } else if in_rect(1, 11, 2, 2, x, y) || in_rect(39, 11, 2, 2, x, y) {
        Terrain::Core
    } else {
        Terrain::Empty
    }
}

/// Two relays, one integrity pool. West and east basins, north can choose.
pub fn twin_cores() -> (g: Grid)
    ensures
        g.wf(),
        g.w == 42,
        g.h == 24,
        forall|x: int, y: int| g.inside(x, y) ==> #[trigger] g.terrain_of(x, y) == twin_cores_terrain(x, y),
        forall|x: int, y: int| g.inside(x, y) ==> #[trigger] g.occ_of(x, y) == Occupant::Vacant,
{
    let mut g = Grid::new(42, 24);
    g.fill_rect(1, 11, 2, 2, Terrain::Core);
    g.fill_rect(39, 11, 2, 2, Terrain::Core);
    g.fill_rect(0, 2, 1, 8, Terrain::Spawn);
    g.fill_rect(41, 2, 1, 8, Terrain::Spawn);
    g.fill_rect(16, 0, 10, 1, Terrain::Spawn);
    g.stamp_rock(20, 4, 2, 16);
    g.stamp_rock(7, 5, 3, 2);
    g.stamp_rock(6, 16, 4, 2);
    g.stamp_rock(32, 5, 3, 2);
    g.stamp_rock(32, 16, 4, 2);
    g.stamp_rock(14, 8, 2, 2);
    g.stamp_rock(26, 8, 2, 2);
    g.stamp_rock(12, 20, 4, 1);
    g.stamp_rock(26, 20, 4, 1);
    g
}

pub open spec fn tri_gate_terrain(x: int, y: int) -> Terrain {
    if false {
        Terrain::Rock
    } else if false {
        Terrain::Empty
    } else if in_rect(8, 5, 8, 2, x, y) || in_rect(24, 5, 8, 2, x, y) || in_rect(10, 10, 2, 7, x, y) || in_rect(28, 10, 2, 7, x, y) || in_rect(4, 18, 4, 2, x, y) || in_rect(32, 18, 4, 2, x, y) || in_rect(17, 12, 2, 2, x, y) || in_rect(21, 12, 2, 2, x, y) || in_rect(6, 2, 3, 2, x, y) || in_rect(31, 2, 3, 2, x, y) {
        Terrain::Rock
    } else if in_rect(16, 0, 8, 1, x, y) || in_rect(0, 8, 1, 9, x, y) || in_rect(39, 8, 1, 9, x, y) {
        Terrain::Spawn
    } else if in_rect(19, 20, 2, 2, x, y) {
        Terrain::Core
    } else {
        Terrain::Empty
    }
}

/// Three ingresses, one southern relay. You cannot cover a single door.
pub fn tri_gate() -> (g: Grid)
    ensures
        g.wf(),
        g.w == 40,
        g.h == 24,
        forall|x: int, y: int| g.inside(x, y) ==> #[trigger] g.terrain_of(x, y) == tri_gate_terrain(x, y),
        forall|x: int, y: int| g.inside(x, y) ==> #[trigger] g.occ_of(x, y) == Occupant::Vacant,
{
    let mut g = Grid::new(40, 24);
    g.fill_rect(19, 20, 2, 2, Terrain::Core);
    g.fill_rect(16, 0, 8, 1, Terrain::Spawn);
    g.fill_rect(0, 8, 1, 9, Terrain::Spawn);
    g.fill_rect(39, 8, 1, 9, Terrain::Spawn);
    g.stamp_rock(8, 5, 8, 2);
    g.stamp_rock(24, 5, 8, 2);
    g.stamp_rock(10, 10, 2, 7);
    g.stamp_rock(28, 10, 2, 7);
    g.stamp_rock(4, 18, 4, 2);
    g.stamp_rock(32, 18, 4, 2);
    g.stamp_rock(17, 12, 2, 2);
    g.stamp_rock(21, 12, 2, 2);
    g.stamp_rock(6, 2, 3, 2);
    g.stamp_rock(31, 2, 3, 2);
    g
}

pub open spec fn oxbow_terrain(x: int, y: int) -> Terrain {
    if false {
        Terrain::Rock
    } else if false {
        Terrain::Empty
    } else if in_rect(0, 0, 5, 22, x, y) || in_rect(31, 0, 5, 22, x, y) || in_rect(12, 4, 2, 12, x, y) || in_rect(22, 4, 2, 12, x, y) || in_rect(12, 15, 12, 2, x, y) || in_rect(6, 8, 2, 2, x, y) || in_rect(28, 10, 2, 2, x, y) || in_rect(8, 17, 3, 1, x, y) || in_rect(25, 17, 3, 1, x, y) {
        Terrain::Rock
    } else if in_rect(10, 0, 16, 1, x, y) {
        Terrain::Spawn
    } else if in_rect(16, 19, 2, 2, x, y) {
        Terrain::Core
    } else {
        Terrain::Empty
    }
}

/// Rock U opening north. Side banks are short; the cup is the long walk if you seal them.
pub fn oxbow() -> (g: Grid)
    ensures
        g.wf(),
        g.w == 36,
        g.h == 22,
        forall|x: int, y: int| g.inside(x, y) ==> #[trigger] g.terrain_of(x, y) == oxbow_terrain(x, y),
        forall|x: int, y: int| g.inside(x, y) ==> #[trigger] g.occ_of(x, y) == Occupant::Vacant,
{
    let mut g = Grid::new(36, 22);
    g.fill_rect(16, 19, 2, 2, Terrain::Core);
    g.fill_rect(10, 0, 16, 1, Terrain::Spawn);
    g.stamp_rock(0, 0, 5, 22);
    g.stamp_rock(31, 0, 5, 22);
    g.stamp_rock(12, 4, 2, 12);
    g.stamp_rock(22, 4, 2, 12);
    g.stamp_rock(12, 15, 12, 2);
    g.stamp_rock(6, 8, 2, 2);
    g.stamp_rock(28, 10, 2, 2);
    g.stamp_rock(8, 17, 3, 1);
    g.stamp_rock(25, 17, 3, 1);
    g
}

/// Terrain after one blob: empty cells under the blob turn to rock.
pub open spec fn after_blob(prev: Terrain, cx: int, cy: int, rx: int, ry: int, x: int, y: int) -> Terrain {
    if rx > 0 && ry > 0 && blob_lo(cx, rx) <= x <= blob_hi(cx, rx, 42) && blob_lo(cy, ry) <= y
        <= blob_hi(cy, ry, 24) && prev == Terrain::Empty && blob_covers(cx, cy, rx, ry, x, y) {
        Terrain::Rock
    } else {
        prev
    }
}

/// Mossfold before its passes are carved: relay, ingress, then the plateaus, in order.
pub open spec fn mossfold_plateaus(x: int, y: int) -> Terrain {
    let t0 = if in_rect(0, 5, 1, 15, x, y) {
        Terrain::Spawn
    } else if in_rect(38, 1, 2, 2, x, y) {
        Terrain::Core
    } else {
        Terrain::Empty
    };
    let t1 = after_blob(t0, 410, 0, 36, 28, x, y);
    let t2 = after_blob(t1, 342, 4, 44, 24, x, y);
    let t3 = after_blob(t2, 410, 72, 48, 36, x, y);
    let t4 = after_blob(t3, 182, 54, 66, 40, x, y);
    let t5 = after_blob(t4, 216, 80, 42, 30, x, y);
    let t6 = after_blob(t5, 150, 72, 34, 26, x, y);
    let t7 = after_blob(t6, 152, 196, 40, 25, x, y);
    let t8 = after_blob(t7, 232, 174, 31, 24, x, y);
    let t9 = after_blob(t8, 406, 228, 80, 50, x, y);
    let t10 = after_blob(t9, 364, 216, 40, 30, x, y);
    let t11 = after_blob(t10, 292, 112, 44, 35, x, y);
    let t12 = after_blob(t11, 314, 136, 30, 24, x, y);
    let t13 = after_blob(t12, 80, 72, 27, 23, x, y);
    let t14 = after_blob(t13, 64, 152, 25, 22, x, y);
    let t15 = after_blob(t14, 122, 120, 22, 19, x, y);
    let t16 = after_blob(t15, 104, 206, 19, 16, x, y);
    let t17 = after_blob(t16, 252, 36, 23, 18, x, y);
    let t18 = after_blob(t17, 272, 206, 18, 15, x, y);
    let t19 = after_blob(t18, 148, 32, 20, 16, x, y);
    t19
}

pub open spec fn mossfold_terrain(x: int, y: int) -> Terrain {
    let t = mossfold_plateaus(x, y);
    if (in_rect(13, 20, 2, 1, x, y) || in_rect(19, 21, 2, 1, x, y) || in_rect(22, 18, 2, 1, x, y) || in_rect(31, 20, 2, 1, x, y) || in_rect(35, 18, 2, 1, x, y) || in_rect(38, 14, 1, 4, x, y) || in_rect(11, 5, 1, 2, x, y) || in_rect(13, 9, 2, 1, x, y) || in_rect(25, 8, 2, 1, x, y) || in_rect(24, 9, 2, 1, x, y)) && t == Terrain::Rock {
        Terrain::Empty
    } else {
        t
    }
}

/// Forested enclaves: organic plateaus pinch a west-to-north-east walk. Blob centres and
/// radii are in tenths of a cell.
pub fn mossfold() -> (g: Grid)
    ensures
        g.wf(),
        g.w == 42,
        g.h == 24,
        forall|x: int, y: int| g.inside(x, y) ==> #[trigger] g.terrain_of(x, y) == mossfold_terrain(x, y),
        forall|x: int, y: int| g.inside(x, y) ==> #[trigger] g.occ_of(x, y) == Occupant::Vacant,
{
    let mut g = Grid::new(42, 24);
    g.fill_rect(38, 1, 2, 2, Terrain::Core);
    g.fill_rect(0, 5, 1, 15, Terrain::Spawn);
    // Relay nest in the north-east canopy.
    g.stamp_blob(410, 0, 36, 28);
    g.stamp_blob(342, 4, 44, 24);
    g.stamp_blob(410, 72, 48, 36);
    // Upper-middle plateau.
    g.stamp_blob(182, 54, 66, 40);
    g.stamp_blob(216, 80, 42, 30);
    g.stamp_blob(150, 72, 34, 26);
    // Lower plateaus as separate enclaves, not one fused wall.
    g.stamp_blob(152, 196, 40, 25);
    g.stamp_blob(232, 174, 31, 24);
    // Bottom-right mass, held off the west so a south corridor can exist.
    g.stamp_blob(406, 228, 80, 50);
    g.stamp_blob(364, 216, 40, 30);
    // Mid-right bottleneck island.
    g.stamp_blob(292, 112, 44, 35);
    g.stamp_blob(314, 136, 30, 24);
    // Scattered islets.
    g.stamp_blob(80, 72, 27, 23);
    g.stamp_blob(64, 152, 25, 22);
    g.stamp_blob(122, 120, 22, 19);
    g.stamp_blob(104, 206, 19, 16);
    g.stamp_blob(252, 36, 23, 18);
    g.stamp_blob(272, 206, 18, 15);
    g.stamp_blob(148, 32, 20, 16);
    // Narrow bottom passes (1–2 cells). Keep the plateaus as killboxes.
    g.carve_gap(13, 20, 2, 1);
    g.carve_gap(19, 21, 2, 1);
    g.carve_gap(22, 18, 2, 1);
    g.carve_gap(31, 20, 2, 1);
    g.carve_gap(35, 18, 2, 1);
    g.carve_gap(38, 14, 1, 4);
    // Trim the ragged spurs the blobs left on the upper plateau's west lip and along
    // its southern edge, so the approach reads as a clean shelf rather than a fringe.
    g.carve_gap(11, 5, 1, 2);
    g.carve_gap(13, 9, 2, 1);
    g.carve_gap(25, 8, 2, 1);
    g.carve_gap(24, 9, 2, 1);
    g
}

pub open spec fn labyrinth_terrain(x: int, y: int) -> Terrain {
    if (x == 11 && y == 2) || (x == 21 && y == 3) || (x == 14 && y == 8) || (x == 25 && y == 7) || (x == 10 && y == 13) || (x == 22 && y == 12) || (x == 16 && y == 18) || (x == 28 && y == 17) || (x == 20 && y == 22) {
        Terrain::Rock
    } else if in_rect(38, 21, 2, 2, x, y) {
        Terrain::Core
    } else if in_rect(0, 2, 1, 2, x, y) {
        Terrain::Spawn
    } else if in_rect(1, 2, 37, 2, x, y) || in_rect(36, 4, 2, 4, x, y) || in_rect(3, 7, 35, 2, x, y) || in_rect(3, 9, 2, 4, x, y) || in_rect(3, 12, 35, 2, x, y) || in_rect(36, 14, 2, 5, x, y) || in_rect(3, 17, 35, 2, x, y) || in_rect(3, 19, 2, 4, x, y) || in_rect(3, 21, 37, 2, x, y) {
        Terrain::Empty
    } else if in_rect(4, 0, 2, 2, x, y) || in_rect(4, 4, 2, 2, x, y) || in_rect(12, 0, 2, 2, x, y) || in_rect(12, 4, 2, 2, x, y) || in_rect(20, 0, 2, 2, x, y) || in_rect(20, 4, 2, 2, x, y) || in_rect(28, 0, 2, 2, x, y) || in_rect(28, 4, 2, 2, x, y) || in_rect(8, 5, 2, 2, x, y) || in_rect(8, 9, 2, 2, x, y) || in_rect(16, 5, 2, 2, x, y) || in_rect(16, 9, 2, 2, x, y) || in_rect(24, 5, 2, 2, x, y) || in_rect(24, 9, 2, 2, x, y) || in_rect(32, 5, 2, 2, x, y) || in_rect(32, 9, 2, 2, x, y) || in_rect(6, 14, 2, 2, x, y) || in_rect(14, 14, 2, 2, x, y) || in_rect(22, 14, 2, 2, x, y) || in_rect(30, 14, 2, 2, x, y) || in_rect(10, 15, 2, 2, x, y) || in_rect(18, 15, 2, 2, x, y) || in_rect(26, 15, 2, 2, x, y) || in_rect(8, 23, 2, 1, x, y) || in_rect(16, 23, 2, 1, x, y) || in_rect(24, 23, 2, 1, x, y) || in_rect(32, 23, 2, 1, x, y) {
        Terrain::Empty
    } else {
        Terrain::Rock
    }
}

/// Four switchbacks. Spawn north-west; the relay is the last cell in the south-east corner.
#[verifier::spinoff_prover]
#[verifier::rlimit(100)]
pub fn labyrinth() -> (g: Grid)
    ensures
        g.wf(),
        g.w == 40,
        g.h == 24,
        forall|x: int, y: int| g.inside(x, y) ==> #[trigger] g.terrain_of(x, y) == labyrinth_terrain(x, y),
        forall|x: int, y: int| g.inside(x, y) ==> #[trigger] g.occ_of(x, y) == Occupant::Vacant,
{
    let mut g = Grid::new(40, 24);
    g.stamp_rock(0, 0, 40, 24);
    g.fill_rect(0, 2, 1, 2, Terrain::Spawn);
    // Lane 1 east, drop south on the east wall.
    g.carve_gap(1, 2, 37, 2);
    g.carve_gap(36, 4, 2, 4);
    // Lane 2 west, drop south on the west wall.
    g.carve_gap(3, 7, 35, 2);
    g.carve_gap(3, 9, 2, 4);
    // Lane 3 east, drop into lane 4 on the east wall.
    g.carve_gap(3, 12, 35, 2);
    g.carve_gap(36, 14, 2, 5);
    // Lane 4 west, drop into the floor on the west wall, then east to the corner.
    g.carve_gap(3, 17, 35, 2);
    g.carve_gap(3, 19, 2, 4);
    g.carve_gap(3, 21, 37, 2);
    g.fill_rect(38, 21, 2, 2, Terrain::Core);
    // Gun pockets. Staggered so they never join two lanes.
    g.carve_gap(4, 0, 2, 2);
    g.carve_gap(4, 4, 2, 2);
    g.carve_gap(12, 0, 2, 2);
    g.carve_gap(12, 4, 2, 2);
    g.carve_gap(20, 0, 2, 2);
    g.carve_gap(20, 4, 2, 2);
    g.carve_gap(28, 0, 2, 2);
    g.carve_gap(28, 4, 2, 2);
    g.carve_gap(8, 5, 2, 2);
    g.carve_gap(8, 9, 2, 2);
    g.carve_gap(16, 5, 2, 2);
    g.carve_gap(16, 9, 2, 2);
    g.carve_gap(24, 5, 2, 2);
    g.carve_gap(24, 9, 2, 2);
    g.carve_gap(32, 5, 2, 2);
    g.carve_gap(32, 9, 2, 2);
    g.carve_gap(6, 14, 2, 2);
    g.carve_gap(14, 14, 2, 2);
    g.carve_gap(22, 14, 2, 2);
    g.carve_gap(30, 14, 2, 2);
    g.carve_gap(10, 15, 2, 2);
    g.carve_gap(18, 15, 2, 2);
    g.carve_gap(26, 15, 2, 2);
    g.carve_gap(8, 23, 2, 1);
    g.carve_gap(16, 23, 2, 1);
    g.carve_gap(24, 23, 2, 1);
    g.carve_gap(32, 23, 2, 1);
    g.stamp_rock(11, 2, 1, 1);
    g.stamp_rock(21, 3, 1, 1);
    g.stamp_rock(14, 8, 1, 1);
    g.stamp_rock(25, 7, 1, 1);
    g.stamp_rock(10, 13, 1, 1);
    g.stamp_rock(22, 12, 1, 1);
    g.stamp_rock(16, 18, 1, 1);
    g.stamp_rock(28, 17, 1, 1);
    g.stamp_rock(20, 22, 1, 1);
    g
}


/// Briefing card of a theater.
#[derive(Clone, Debug)]
pub struct TheaterInfo {
    pub id: u8,
    pub slug: String,
    pub name: String,
    pub blurb: String,
    pub hazard: String,
}

/// Number of built-in theaters.
pub const THEATER_COUNT: u8 = 10;

pub open spec fn theater_slug(id: int) -> Seq<char> {
    if id == 0 {
        "kilo"@
    } else if id == 1 {
        "redoubt"@
    } else if id == 2 {
        "dust"@
    } else if id == 3 {
        "split"@
    } else if id == 4 {
        "enclave"@
    } else if id == 5 {
        "twin"@
    } else if id == 6 {
        "trigate"@
    } else if id == 7 {
        "oxbow"@
    } else if id == 8 {
        "mossfold"@
    } else {
        "labyrinth"@
    }
}

pub open spec fn theater_name(id: int) -> Seq<char> {
    if id == 0 {
        "Kilo Outpost"@
    } else if id == 1 {
        "Redoubt"@
    } else if id == 2 {
        "Dust Cut"@
    } else if id == 3 {
        "Split Relay"@
    } else if id == 4 {
        "Enclave"@
    } else if id == 5 {
        "Twin Cores"@
    } else if id == 6 {
        "Tri-Gate"@
    } else if id == 7 {
        "Oxbow"@
    } else if id == 8 {
        "Mossfold"@
    } else {
        "Labyrinth"@
    }
}

pub open spec fn theater_blurb(id: int) -> Seq<char> {
    if id == 0 {
        "Wide scrub. Ingress from the north and the east. Two fronts are the lesson."@
    } else if id == 1 {
        "Courtyard core. Hostiles enter from the north-west and the south-east."@
    } else if id == 2 {
        "Rock pass. The stones already pinched the walk — you finish the job."@
    } else if id == 3 {
        "A stone spine splits the field. Two walks. One merge. One core."@
    } else if id == 4 {
        "Tight yard. Ingress is already in your pocket."@
    } else if id == 5 {
        "Two relays, one integrity pool. Ground takes the nearest. Air does too."@
    } else if id == 6 {
        "Three doors. North, west, and east all walk south to one relay."@
    } else if id == 7 {
        "A rock U already folded the walk. Force them through the cup, or they go around."@
    } else if id == 8 {
        "Forest enclaves. West ingress, relay nested in the north-east canopy."@
    } else {
        "The coil ends in the south-east. Ground walks every switchback to the relay."@
    }
}

pub open spec fn theater_hazard(id: int) -> Seq<char> {
    if id == 0 {
        "Open field — you must invent the maze."@
    } else if id == 1 {
        "Two doors into the same yard. Merge them or die covering both."@
    } else if id == 2 {
        "Less room to dream. Every tile is a fight."@
    } else if id == 3 {
        "Cover both corridors or they leak while you admire the other."@
    } else if id == 4 {
        "Every tile is a fight. Waste one and the relay hears it."@
    } else if id == 5 {
        "Abandon a core and the sky still finds it."@
    } else if id == 6 {
        "Wall one door and the other two teach you manners."@
    } else if id == 7 {
        "The sides are short. The cup is the killbox if you seal the banks."@
    } else if id == 8 {
        "The plateaus already pinch the walk. Finish the maze in the moss."@
    } else {
        "The relay is the last cell of the maze. Air still cuts the short way."@
    }
}

pub open spec fn theater_seed(id: int) -> u64 {
    if id == 0 {
        0xA11CE5
    } else if id == 1 {
        0xBEEF42
    } else if id == 2 {
        0xC0FFEE
    } else if id == 3 {
        0x5B117
    } else if id == 4 {
        0xE4C1A4
    } else if id == 5 {
        0x7C0DE
    } else if id == 6 {
        0x7116_A7E0
    } else if id == 7 {
        0x000B_5011
    } else if id == 8 {
        0xF01E57
    } else {
        0x1AB7_1175
    }
}

pub open spec fn theater_width(id: int) -> int {
    if id == 0 {
        40
    } else if id == 1 {
        36
    } else if id == 2 {
        40
    } else if id == 3 {
        40
    } else if id == 4 {
        28
    } else if id == 5 {
        42
    } else if id == 6 {
        40
    } else if id == 7 {
        36
    } else if id == 8 {
        42
    } else {
        40
    }
}

pub open spec fn theater_height(id: int) -> int {
    if id == 0 {
        24
    } else if id == 1 {
        24
    } else if id == 2 {
        24
    } else if id == 3 {
        24
    } else if id == 4 {
        18
    } else if id == 5 {
        24
    } else if id == 6 {
        24
    } else if id == 7 {
        22
    } else if id == 8 {
        24
    } else {
        24
    }
}

/// Terrain of cell `(x, y)` of the built-in theater `id`.
#[verifier::opaque]
pub open spec fn theater_terrain(id: int, x: int, y: int) -> Terrain {
    if id == 0 {
        kilo_outpost_terrain(x, y)
    } else if id == 1 {
        redoubt_terrain(x, y)
    } else if id == 2 {
        dust_cut_terrain(x, y)
    } else if id == 3 {
        split_relay_terrain(x, y)
    } else if id == 4 {
        enclave_terrain(x, y)
    } else if id == 5 {
        twin_cores_terrain(x, y)
    } else if id == 6 {
        tri_gate_terrain(x, y)
    } else if id == 7 {
        oxbow_terrain(x, y)
    } else if id == 8 {
        mossfold_terrain(x, y)
    } else {
        labyrinth_terrain(x, y)
    }
}

/// `g` is the freshly painted battlefield of theater `id`: its size and terrain, nothing built.
pub open spec fn is_theater(g: Grid, id: int) -> bool {
    &&& g.wf()
    &&& g.w == theater_width(id)
    &&& g.h == theater_height(id)
    &&& forall|x: int, y: int| g.inside(x, y) ==> #[trigger] g.terrain_of(x, y) == theater_terrain(id, x, y)
    &&& forall|x: int, y: int| g.inside(x, y) ==> #[trigger] g.occ_of(x, y) == Occupant::Vacant
}

/// The briefing cards of every built-in theater, in id order.
pub fn theaters() -> (r: Vec<TheaterInfo>)
    ensures
        r@.len() == THEATER_COUNT,
        forall|i: int|
            0 <= i < r@.len() ==> {
                &&& (#[trigger] r@[i]).id == i
                &&& r@[i].slug@ == theater_slug(i)
                &&& r@[i].name@ == theater_name(i)
                &&& r@[i].blurb@ == theater_blurb(i)
                &&& r@[i].hazard@ == theater_hazard(i)
            },
{
    let mut r: Vec<TheaterInfo> = Vec::new();
    r.push(
        TheaterInfo {
            id: 0,
            slug: "kilo".to_owned(),
            name: "Kilo Outpost".to_owned(),
            blurb: "Wide scrub. Ingress from the north and the east. Two fronts are the lesson.".to_owned(),
            hazard: "Open field — you must invent the maze.".to_owned(),
        },
    );
    r.push(
        TheaterInfo {
            id: 1,
            slug: "redoubt".to_owned(),
            name: "Redoubt".to_owned(),
            blurb: "Courtyard core. Hostiles enter from the north-west and the south-east.".to_owned(),
            hazard: "Two doors into the same yard. Merge them or die covering both.".to_owned(),
        },
    );
    r.push(
        TheaterInfo {
            id: 2,
            slug: "dust".to_owned(),
            name: "Dust Cut".to_owned(),
            blurb: "Rock pass. The stones already pinched the walk — you finish the job.".to_owned(),
            hazard: "Less room to dream. Every tile is a fight.".to_owned(),
        },
    );
    r.push(
        TheaterInfo {
            id: 3,
            slug: "split".to_owned(),
            name: "Split Relay".to_owned(),
            blurb: "A stone spine splits the field. Two walks. One merge. One core.".to_owned(),
            hazard: "Cover both corridors or they leak while you admire the other.".to_owned(),
        },
    );
    r.push(
        TheaterInfo {
            id: 4,
            slug: "enclave".to_owned(),
            name: "Enclave".to_owned(),
            blurb: "Tight yard. Ingress is already in your pocket.".to_owned(),
            hazard: "Every tile is a fight. Waste one and the relay hears it.".to_owned(),
        },
    );
    r.push(
        TheaterInfo {
            id: 5,
            slug: "twin".to_owned(),
            name: "Twin Cores".to_owned(),
            blurb: "Two relays, one integrity pool. Ground takes the nearest. Air does too.".to_owned(),
            hazard: "Abandon a core and the sky still finds it.".to_owned(),
        },
    );
    r.push(
        TheaterInfo {
            id: 6,
            slug: "trigate".to_owned(),
            name: "Tri-Gate".to_owned(),
            blurb: "Three doors. North, west, and east all walk south to one relay.".to_owned(),
            hazard: "Wall one door and the other two teach you manners.".to_owned(),
        },
    );
    r.push(
        TheaterInfo {
            id: 7,
            slug: "oxbow".to_owned(),
            name: "Oxbow".to_owned(),
            blurb: "A rock U already folded the walk. Force them through the cup, or they go around.".to_owned(),
            hazard: "The sides are short. The cup is the killbox if you seal the banks.".to_owned(),
        },
    );
    r.push(
        TheaterInfo {
            id: 8,
            slug: "mossfold".to_owned(),
            name: "Mossfold".to_owned(),
            blurb: "Forest enclaves. West ingress, relay nested in the north-east canopy.".to_owned(),
            hazard: "The plateaus already pinch the walk. Finish the maze in the moss.".to_owned(),
        },
    );
    r.push(
        TheaterInfo {
            id: 9,
            slug: "labyrinth".to_owned(),
            name: "Labyrinth".to_owned(),
            blurb: "The coil ends in the south-east. Ground walks every switchback to the relay.".to_owned(),
            hazard: "The relay is the last cell of the maze. Air still cuts the short way.".to_owned(),
        },
    );
    r
}

/// The battlefield, display name and default seed of a built-in theater.
pub fn theater_by_id(id: u8) -> (r: Option<(Grid, &'static str, u64)>)
    ensures
        id < THEATER_COUNT ==> (r matches Some((g, name, seed)) && is_theater(g, id as int) && name@
            == theater_name(id as int) && seed == theater_seed(id as int)),
        id >= THEATER_COUNT ==> r is None,
{
    proof {
        reveal(theater_terrain);
    }
    match id {
        0 => Some((kilo_outpost(), "Kilo Outpost", 0xA11CE5)),
        1 => Some((redoubt(), "Redoubt", 0xBEEF42)),
        2 => Some((dust_cut(), "Dust Cut", 0xC0FFEE)),
        3 => Some((split_relay(), "Split Relay", 0x5B117)),
        4 => Some((enclave(), "Enclave", 0xE4C1A4)),
        5 => Some((twin_cores(), "Twin Cores", 0x7C0DE)),
        6 => Some((tri_gate(), "Tri-Gate", 0x7116_A7E0)),
        7 => Some((oxbow(), "Oxbow", 0x000B_5011)),
        8 => Some((mossfold(), "Mossfold", 0xF01E57)),
        9 => Some((labyrinth(), "Labyrinth", 0x1AB7_1175)),
        _ => None,
    }
}

/// Id of the theater with the given slug.
pub fn theater_by_slug(slug: &str) -> (r: Option<u8>)
    ensures
        r matches Some(id) ==> id < THEATER_COUNT && theater_slug(id as int) == slug@ && forall|j: int|
            0 <= j < id ==> #[trigger] theater_slug(j) != slug@,
        r is None ==> forall|j: int| 0 <= j < THEATER_COUNT ==> #[trigger] theater_slug(j) != slug@,
{
    let list = theaters();
    let want: String = slug.to_owned();
    let mut i: usize = 0;
    while i < list.len()
        invariant
            list@.len() == THEATER_COUNT,
            want@ == slug@,
            i <= list@.len(),
            forall|k: int|
                0 <= k < list@.len() ==> {
                    &&& (#[trigger] list@[k]).id == k
                    &&& list@[k].slug@ == theater_slug(k)
                },
            forall|j: int| 0 <= j < i ==> #[trigger] theater_slug(j) != slug@,
        decreases list@.len() - i,
    {
        if list[i].slug == want {
            return Some(list[i].id);
        }
        i = i + 1;
    }
    None
}

} // verus!
