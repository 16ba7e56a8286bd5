//! The battlefield: terrain painted by the theater, and what the commander has built on it.

use vstd::prelude::*;
use crate::clusters::{cell_clusters, cells_of, is_clustering};

verus! {

/// The largest battlefield, in cells, on which walking distances are measured: every
/// distance stays below the flow field's mark for an unreachable cell.
pub const MAX_CELLS: i32 = 536_870_912;

#[derive(Clone, Copy, Debug, PartialEq, Eq, Structural)]
pub enum Terrain {
    Empty,
    Rock,
    Spawn,
    Core,
}

/// What stands on a cell: nothing, a barricade, or the turret with the given id.
#[derive(Clone, Copy, Debug, PartialEq, Eq, Structural)]
pub enum Occupant {
    Vacant,
    Wall,
    Tower(u32),
}

/// A battlefield `w` cells wide and `h` tall. Terrain and occupants are stored row by row.
#[derive(Clone, Debug)]
pub struct Grid {
    pub w: i32,
    pub h: i32,
    pub terrain: Vec<Terrain>,
    pub occ: Vec<Occupant>,
}

/// Row-major position of cell `(x, y)` on a grid `w` cells wide.
pub open spec fn cell_key(w: int, x: int, y: int) -> int {
    y * w + x
}

/// `a` comes before `b` in row-major order.
pub open spec fn row_before(a: (i32, i32), b: (i32, i32)) -> bool {
    a.1 < b.1 || (a.1 == b.1 && a.0 < b.0)
}

pub proof fn lemma_cell_key_range(w: int, h: int, x: int, y: int)
    requires
        0 <= x < w,
        0 <= y < h,
    ensures
        0 <= cell_key(w, x, y) < w * h,
{
    assert(0 <= y * w) by (nonlinear_arith)
        requires
            0 <= y,
            0 <= w,
    ;
    assert(y * w + x < w * h) by (nonlinear_arith)
        requires
            0 <= x < w,
            0 <= y < h,
    ;
}

pub proof fn lemma_cell_key_injective(w: int, x1: int, y1: int, x2: int, y2: int)
    requires
        0 <= x1 < w,
        0 <= x2 < w,
        cell_key(w, x1, y1) == cell_key(w, x2, y2),
    ensures
        x1 == x2,
        y1 == y2,
{
    if y1 < y2 {
        assert(y1 * w + w <= y2 * w) by (nonlinear_arith)
            requires
                y1 < y2,
                0 <= w,
        ;
    } else if y2 < y1 {
        assert(y2 * w + w <= y1 * w) by (nonlinear_arith)
            requires
                y2 < y1,
                0 <= w,
        ;
    }
}

/// Two cells touch along an edge.
pub open spec fn adjacent(a: (int, int), b: (int, int)) -> bool {
    (a.0 == b.0 && (a.1 == b.1 + 1 || a.1 + 1 == b.1)) || (a.1 == b.1 && (a.0 == b.0 + 1 || a.0
        + 1 == b.0))
}

impl Grid {
    pub open spec fn dims_ok(&self) -> bool {
        0 <= self.w && 0 <= self.h && self.w * self.h <= i32::MAX
    }

    /// Small enough for the flow field: at most `MAX_CELLS` cells.
    pub open spec fn flow_sized(&self) -> bool {
        self.cell_count() <= MAX_CELLS
    }

    /// Terrain and occupancy both cover exactly `w * h` cells.
    pub open spec fn wf(&self) -> bool {
        &&& self.dims_ok()
        &&& self.terrain@.len() == self.w * self.h
        &&& self.occ@.len() == self.w * self.h
    }

    pub open spec fn inside(&self, x: int, y: int) -> bool {
        0 <= x < self.w && 0 <= y < self.h
    }

    pub open spec fn cell_count(&self) -> int {
        self.w * self.h
    }

    pub closed spec fn terrain_of(&self, x: int, y: int) -> Terrain {
        self.terrain@[cell_key(self.w as int, x, y)]
    }

    pub closed spec fn occ_of(&self, x: int, y: int) -> Occupant {
        self.occ@[cell_key(self.w as int, x, y)]
    }

    /// Ground cannot stand here: off the grid, rock, or built on.
    pub open spec fn blocked(&self, x: int, y: int) -> bool {
        !self.inside(x, y) || self.terrain_of(x, y) == Terrain::Rock || self.occ_of(x, y)
            != Occupant::Vacant
    }

    /// A structure may go here: empty terrain with nothing on it.
    pub open spec fn open_ground(&self, x: int, y: int) -> bool {
        self.inside(x, y) && self.terrain_of(x, y) == Terrain::Empty && self.occ_of(x, y)
            == Occupant::Vacant
    }

    /// Same dimensions and the same terrain everywhere.
    pub open spec fn same_terrain(&self, other: &Grid) -> bool {
        &&& self.w == other.w
        &&& self.h == other.h
        &&& forall|x: int, y: int|
            self.inside(x, y) ==> #[trigger] self.terrain_of(x, y) == other.terrain_of(x, y)
    }

    /// Same dimensions and the same occupants everywhere.
    pub open spec fn same_occupants(&self, other: &Grid) -> bool {
        &&& self.w == other.w
        &&& self.h == other.h
        &&& forall|x: int, y: int|
            self.inside(x, y) ==> #[trigger] self.occ_of(x, y) == other.occ_of(x, y)
    }

    pub proof fn lemma_wf(&self)
        requires
            self.wf(),
        ensures
            self.dims_ok(),
    {
    }

    pub fn new(w: i32, h: i32) -> (g: Self)
        requires
            0 <= w,
            0 <= h,
            w * h <= i32::MAX,
        ensures
            g.wf(),
            g.w == w,
            g.h == h,
            forall|x: int, y: int|
                g.inside(x, y) ==> #[trigger] g.terrain_of(x, y) == Terrain::Empty,
            forall|x: int, y: int| g.inside(x, y) ==> #[trigger] g.occ_of(x, y) == Occupant::Vacant,
    {
        let n = (w * h) as usize;
        let mut terrain: Vec<Terrain> = Vec::new();
        let mut occ: Vec<Occupant> = Vec::new();
        let mut i: usize = 0;
        while i < n
            invariant
                i <= n,
                n == w * h,
                terrain@.len() == i,
                occ@.len() == i,
                forall|k: int| 0 <= k < i ==> terrain@[k] == Terrain::Empty,
                forall|k: int| 0 <= k < i ==> occ@[k] == Occupant::Vacant,
            decreases n - i,
        {
            terrain.push(Terrain::Empty);
            occ.push(Occupant::Vacant);
            i = i + 1;
        }
        let g = Grid { w, h, terrain, occ };
        proof {
            assert forall|x: int, y: int| g.inside(x, y) implies #[trigger] g.terrain_of(x, y)
                == Terrain::Empty && g.occ_of(x, y) == Occupant::Vacant by {
                lemma_cell_key_range(w as int, h as int, x, y);
            }
            assert forall|x: int, y: int| g.inside(x, y) implies #[trigger] g.occ_of(x, y)
                == Occupant::Vacant by {
                lemma_cell_key_range(w as int, h as int, x, y);
            }
        }
        g
    }

    /// Row-major index of an in-range position.
    pub fn idx(&self, x: i32, y: i32) -> (i: usize)
        requires
            0 <= cell_key(self.w as int, x as int, y as int) <= i32::MAX,
        ensures
            i == cell_key(self.w as int, x as int, y as int),
    {
        (y as i64 * self.w as i64 + x as i64) as usize
    }

    pub fn in_bounds(&self, x: i32, y: i32) -> (r: bool)
        ensures
            r == self.inside(x as int, y as int),
    {
        x >= 0 && y >= 0 && x < self.w && y < self.h
    }

    pub fn try_idx(&self, x: i32, y: i32) -> (r: Option<usize>)
        requires
            self.wf(),
        ensures
            self.inside(x as int, y as int) ==> (r matches Some(i) && i as int == cell_key(
                self.w as int,
                x as int,
                y as int,
            )),
            !self.inside(x as int, y as int) ==> r is None,
            r matches Some(i) ==> i < self.cell_count(),
    {
        if self.in_bounds(x, y) {
            proof {
                lemma_cell_key_range(self.w as int, self.h as int, x as int, y as int);
            }
            Some(self.idx(x, y))
        } else {
            None
        }
    }

    pub fn terrain_at(&self, x: i32, y: i32) -> (r: Option<Terrain>)
        requires
            self.wf(),
        ensures
            self.inside(x as int, y as int) ==> r == Some(self.terrain_of(x as int, y as int)),
            !self.inside(x as int, y as int) ==> r is None,
    {
        match self.try_idx(x, y) {
            Some(i) => Some(self.terrain[i]),
            None => None,
        }
    }

    /// Off the grid nothing stands.
    pub fn occupant(&self, x: i32, y: i32) -> (r: Occupant)
        requires
            self.wf(),
        ensures
            self.inside(x as int, y as int) ==> r == self.occ_of(x as int, y as int),
            !self.inside(x as int, y as int) ==> r == Occupant::Vacant,
    {
        match self.try_idx(x, y) {
            Some(i) => self.occ[i],
            None => Occupant::Vacant,
        }
    }

    /// Paints one cell; a position off the grid changes nothing.
    pub fn set_terrain(&mut self, x: i32, y: i32, t: Terrain)
        requires
            old(self).wf(),
        ensures
            final(self).wf(),
            final(self).same_occupants(old(self)),
            final(self).w == old(self).w,
            final(self).h == old(self).h,
            forall|cx: int, cy: int|
                final(self).inside(cx, cy) ==> #[trigger] final(self).terrain_of(cx, cy) == if cx
                    == x && cy == y {
                    t
                } else {
                    old(self).terrain_of(cx, cy)
                },
    {
        if let Some(i) = self.try_idx(x, y) {
            self.terrain.set(i, t);
            proof {
                let w = self.w as int;
                assert forall|cx: int, cy: int| self.inside(cx, cy) implies #[trigger] self.terrain_of(
                    cx,
                    cy,
                ) == if cx == x && cy == y {
                    t
                } else {
                    old(self).terrain_of(cx, cy)
                } by {
                    lemma_cell_key_range(w, self.h as int, cx, cy);
                    if cell_key(w, cx, cy) == cell_key(w, x as int, y as int) {
                        lemma_cell_key_injective(w, cx, cy, x as int, y as int);
                    }
                }
            }
        }
    }

    /// Builds on (or clears) one cell; a position off the grid changes nothing.
    pub fn set_occ(&mut self, x: i32, y: i32, o: Occupant)
        requires
            old(self).wf(),
        ensures
            final(self).wf(),
            final(self).same_terrain(old(self)),
            final(self).w == old(self).w,
            final(self).h == old(self).h,
            forall|cx: int, cy: int|
                final(self).inside(cx, cy) ==> #[trigger] final(self).occ_of(cx, cy) == if cx == x
                    && cy == y {
                    o
                } else {
                    old(self).occ_of(cx, cy)
                },
    {
        if let Some(i) = self.try_idx(x, y) {
            self.occ.set(i, o);
            proof {
                let w = self.w as int;
                assert forall|cx: int, cy: int| self.inside(cx, cy) implies #[trigger] self.occ_of(
                    cx,
                    cy,
                ) == if cx == x && cy == y {
                    o
                } else {
                    old(self).occ_of(cx, cy)
                } by {
                    lemma_cell_key_range(w, self.h as int, cx, cy);
                    if cell_key(w, cx, cy) == cell_key(w, x as int, y as int) {
                        lemma_cell_key_injective(w, cx, cy, x as int, y as int);
                    }
                }
            }
        }
    }

    pub fn blocks_ground(&self, x: i32, y: i32) -> (r: bool)
        requires
            self.wf(),
        ensures
            r == self.blocked(x as int, y as int),
    {
        if !self.in_bounds(x, y) {
            return true;
        }
        proof {
            lemma_cell_key_range(self.w as int, self.h as int, x as int, y as int);
        }
        let i = self.idx(x, y);
        self.terrain[i] == Terrain::Rock || !matches!(self.occ[i], Occupant::Vacant)
    }

    pub fn buildable(&self, x: i32, y: i32) -> (r: bool)
        requires
            self.wf(),
        ensures
            r == self.open_ground(x as int, y as int),
    {
        if !self.in_bounds(x, y) {
            return false;
        }
        proof {
            lemma_cell_key_range(self.w as int, self.h as int, x as int, y as int);
        }
        let i = self.idx(x, y);
        self.terrain[i] == Terrain::Empty && matches!(self.occ[i], Occupant::Vacant)
    }
}


/// Cell `(cx, cy)` lies in the `w`-by-`h` rectangle whose top-left corner is `(x, y)`.
pub open spec fn in_rect(x: int, y: int, w: int, h: int, cx: int, cy: int) -> bool {
    x <= cx < x + w && y <= cy < y + h
}

/// Largest value of the blob noise, `u32::MAX >> 11`.
pub const NOISE_MAX: i64 = 2_097_151;

/// Per-cell noise that roughens a blob's edge: a hash of the position, top 21 bits.
pub open spec fn blob_noise(x: i32, y: i32) -> u32 {
    ((x.wrapping_mul(374_761_393i32).wrapping_add(y.wrapping_mul(668_265_263i32))) as u32) >> 11u32
}

/// Bounding box of a blob centred on `(cx, cy)` with radii `(rx, ry)`, all in tenths of a
/// cell, clipped to the grid: from `floor((c - r) / 10)` to `ceil((c + r) / 10)`.
pub open spec fn blob_lo(c: int, r: int) -> int {
    let v = (c - r) / 10;
    if v < 0 { 0 } else { v }
}

pub open spec fn blob_hi(c: int, r: int, limit: int) -> int {
    let v = -((-(c + r)) / 10);
    if v < limit - 1 { v } else { limit - 1 }
}

/// The noisy ellipse test of a blob, in tenths of a cell. With `dx = (x + 0.5 - cx) / rx`,
/// `dy = (y + 0.5 - cy) / ry` and `n = noise / NOISE_MAX * 2 - 1`, a cell is inside when
/// `dx^2 + dy^2 <= max(1 + 0.16 n, 0.48)`; both sides are scaled here to whole numbers.
#[verifier::opaque]
pub open spec fn blob_covers(cx: int, cy: int, rx: int, ry: int, x: int, y: int) -> bool {
    let ax = 10 * x + 5 - cx;
    let ay = 10 * y + 5 - cy;
    let m = NOISE_MAX as int;
    let edge = 84 * m + 32 * blob_noise(x as i32, y as i32);
    let t = if edge < 48 * m { 48 * m } else { edge };
    100 * m * (ax * ax * (ry * ry) + ay * ay * (rx * rx)) <= t * (rx * rx) * (ry * ry)
}

/// The blob noise never exceeds `NOISE_MAX`.
pub proof fn lemma_noise_bound(x: i32, y: i32)
    ensures
        blob_noise(x, y) <= NOISE_MAX,
{
    let v: u32 = (x.wrapping_mul(374_761_393i32).wrapping_add(y.wrapping_mul(668_265_263i32))) as u32;
    assert(v >> 11u32 <= 2_097_151u32) by (bit_vector);
}

/// A cell outside the widest ellipse that any noise allows is never covered by the blob.
pub proof fn lemma_beyond_blob(cx: int, cy: int, rx: int, ry: int, x: int, y: int)
    requires
        rx > 0,
        ry > 0,
        100 * ((10 * x + 5 - cx) * (10 * x + 5 - cx) * (ry * ry) + (10 * y + 5 - cy) * (10 * y
            + 5 - cy) * (rx * rx)) > 116 * (rx * rx) * (ry * ry),
    ensures
        !blob_covers(cx, cy, rx, ry, x, y),
{
    reveal(blob_covers);
    lemma_noise_bound(x as i32, y as i32);
    let ax = 10 * x + 5 - cx;
    let ay = 10 * y + 5 - cy;
    let m = NOISE_MAX as int;
    let edge = 84 * m + 32 * blob_noise(x as i32, y as i32);
    let t = if edge < 48 * m { 48 * m } else { edge };
    let k = (rx * rx) * (ry * ry);
    let s = ax * ax * (ry * ry) + ay * ay * (rx * rx);
    assert(t <= 116 * m);
    assert(116 * (rx * rx) * (ry * ry) == 116 * k) by (nonlinear_arith)
        requires
            k == (rx * rx) * (ry * ry),
    ;
    assert(t * (rx * rx) * (ry * ry) == t * k) by (nonlinear_arith)
        requires
            k == (rx * rx) * (ry * ry),
    ;
    assert(100 * m * s == 100 * m * (ax * ax * (ry * ry) + ay * ay * (rx * rx)));
    assert(k > 0) by (nonlinear_arith)
        requires
            rx > 0,
            ry > 0,
            k == (rx * rx) * (ry * ry),
    ;
    assert(t * k <= 116 * m * k) by (nonlinear_arith)
        requires
            t <= 116 * m,
            k > 0,
    ;
    assert(116 * m * k < 100 * m * s) by (nonlinear_arith)
        requires
            100 * s > 116 * k,
            m > 0,
    ;
}

proof fn lemma_mul_le(a: int, b: int, ma: nat, mb: nat)
    requires
        0 <= a <= ma,
        0 <= b <= mb,
    ensures
        0 <= a * b <= ma * mb,
{
    assert(0 <= a * b <= ma * mb) by (nonlinear_arith)
        requires
            0 <= a <= ma,
            0 <= b <= mb,
    ;
}

proof fn lemma_square_le(a: int, m: int)
    requires
        -m <= a <= m,
    ensures
        0 <= a * a <= m * m,
{
    assert(0 <= a * a <= m * m) by (nonlinear_arith)
        requires
            -m <= a <= m,
    ;
}

fn blob_cell(cx: i64, cy: i64, rx: i64, ry: i64, x: i32, y: i32) -> (r: bool)
    requires
        0 < rx <= 1_000_000,
        0 < ry <= 1_000_000,
        -(rx + 15) <= 10 * x + 5 - cx <= rx + 15,
        -(ry + 15) <= 10 * y + 5 - cy <= ry + 15,
    ensures
        r == blob_covers(cx as int, cy as int, rx as int, ry as int, x as int, y as int),
{
    proof {
        reveal(blob_covers);
    }
    let hh: u32 = (x.wrapping_mul(374_761_393i32).wrapping_add(y.wrapping_mul(668_265_263i32))) as u32;
    let noise: u32 = hh >> 11u32;
    assert(hh >> 11u32 <= 2_097_151u32) by (bit_vector);
    let ax: i128 = 10 * (x as i128) + 5 - cx as i128;
    let ay: i128 = 10 * (y as i128) + 5 - cy as i128;
    proof {
        lemma_square_le(rx as int, 1_000_000);
        lemma_square_le(ry as int, 1_000_000);
        lemma_square_le(ax as int, 1_000_015);
        lemma_square_le(ay as int, 1_000_015);
    }
    let rx2: i128 = rx as i128 * rx as i128;
    let ry2: i128 = ry as i128 * ry as i128;
    let axx: i128 = ax * ax;
    let ayy: i128 = ay * ay;
    proof {
        lemma_mul_le(axx as int, ry2 as int, 1_000_015 * 1_000_015, 1_000_000 * 1_000_000);
        lemma_mul_le(ayy as int, rx2 as int, 1_000_015 * 1_000_015, 1_000_000 * 1_000_000);
    }
    let inner: i128 = axx * ry2 + ayy * rx2;
    let m: i128 = 2_097_151;
    let edge: i128 = 84 * m + 32 * (noise as i128);
    let t: i128 = if edge < 48 * m { 48 * m } else { edge };
    proof {
        lemma_mul_le(
            inner as int,
            100int * 2_097_151,
            2 * (1_000_015 * 1_000_015 * (1_000_000 * 1_000_000)),
            100 * 2_097_151,
        );
        lemma_mul_le(t as int, rx2 as int, 116 * 2_097_151, 1_000_000 * 1_000_000);
        lemma_mul_le(
            (t * rx2) as int,
            ry2 as int,
            116 * 2_097_151 * (1_000_000 * 1_000_000),
            1_000_000 * 1_000_000,
        );
    }
    let lhs: i128 = inner * (100 * m);
    let trx: i128 = t * rx2;
    let rhs: i128 = trx * ry2;
    proof {
        assert(lhs == 100 * m * inner) by (nonlinear_arith)
            requires
                lhs == inner * (100 * m),
        ;
    }
    lhs <= rhs
}

impl Grid {
    /// Paints `t` over a rectangle; the part off the grid is ignored.
    pub fn fill_rect(&mut self, x: i32, y: i32, w: i32, h: i32, t: Terrain)
        requires
            old(self).wf(),
            i32::MIN <= x + w <= i32::MAX,
            i32::MIN <= y + h <= i32::MAX,
        ensures
            final(self).wf(),
            final(self).same_occupants(old(self)),
            forall|cx: int, cy: int|
                final(self).inside(cx, cy) ==> #[trigger] final(self).terrain_of(cx, cy) == if in_rect(
                    x as int,
                    y as int,
                    w as int,
                    h as int,
                    cx,
                    cy,
                ) {
                    t
                } else {
                    old(self).terrain_of(cx, cy)
                },
    {
        let ghost start = *self;
        let mut yy = y;
        while yy < y + h
            invariant
                self.wf(),
                self.same_occupants(&start),
                start.wf(),
                y <= yy,
                i32::MIN <= x + w <= i32::MAX,
                i32::MIN <= y + h <= i32::MAX,
                forall|cx: int, cy: int|
                    self.inside(cx, cy) ==> #[trigger] self.terrain_of(cx, cy) == if in_rect(
                        x as int,
                        y as int,
                        w as int,
                        h as int,
                        cx,
                        cy,
                    ) && cy < yy {
                        t
                    } else {
                        start.terrain_of(cx, cy)
                    },
            decreases y + h - yy,
        {
            let mut xx = x;
            while xx < x + w
                invariant
                    self.wf(),
                    self.same_occupants(&start),
                    start.wf(),
                    y <= yy < y + h,
                    x <= xx,
                    i32::MIN <= x + w <= i32::MAX,
                    forall|cx: int, cy: int|
                        self.inside(cx, cy) ==> #[trigger] self.terrain_of(cx, cy) == if in_rect(
                            x as int,
                            y as int,
                            w as int,
                            h as int,
                            cx,
                            cy,
                        ) && (cy < yy || (cy == yy && cx < xx)) {
                            t
                        } else {
                            start.terrain_of(cx, cy)
                        },
                decreases x + w - xx,
            {
                self.set_terrain(xx, yy, t);
                xx = xx + 1;
            }
            yy = yy + 1;
        }
    }

    pub fn stamp_rock(&mut self, x: i32, y: i32, w: i32, h: i32)
        requires
            old(self).wf(),
            i32::MIN <= x + w <= i32::MAX,
            i32::MIN <= y + h <= i32::MAX,
        ensures
            final(self).wf(),
            final(self).same_occupants(old(self)),
            forall|cx: int, cy: int|
                final(self).inside(cx, cy) ==> #[trigger] final(self).terrain_of(cx, cy) == if in_rect(
                    x as int,
                    y as int,
                    w as int,
                    h as int,
                    cx,
                    cy,
                ) {
                    Terrain::Rock
                } else {
                    old(self).terrain_of(cx, cy)
                },
    {
        self.fill_rect(x, y, w, h, Terrain::Rock);
    }

    /// Punches a pass through rock over a rectangle. Leaves cores and spawns alone.
    pub fn carve_gap(&mut self, x: i32, y: i32, w: i32, h: i32)
        requires
            old(self).wf(),
            i32::MIN <= x + w <= i32::MAX,
            i32::MIN <= y + h <= i32::MAX,
        ensures
            final(self).wf(),
            final(self).same_occupants(old(self)),
            forall|cx: int, cy: int|
                final(self).inside(cx, cy) ==> #[trigger] final(self).terrain_of(cx, cy) == if in_rect(
                    x as int,
                    y as int,
                    w as int,
                    h as int,
                    cx,
                    cy,
                ) && old(self).terrain_of(cx, cy) == Terrain::Rock {
                    Terrain::Empty
                } else {
                    old(self).terrain_of(cx, cy)
                },
    {
        let ghost start = *self;
        let mut yy = y;
        while yy < y + h
            invariant
                self.wf(),
                self.same_occupants(&start),
                start.wf(),
                y <= yy,
                i32::MIN <= x + w <= i32::MAX,
                i32::MIN <= y + h <= i32::MAX,
                forall|cx: int, cy: int|
                    self.inside(cx, cy) ==> #[trigger] self.terrain_of(cx, cy) == if in_rect(
                        x as int,
                        y as int,
                        w as int,
                        h as int,
                        cx,
                        cy,
                    ) && cy < yy && start.terrain_of(cx, cy) == Terrain::Rock {
                        Terrain::Empty
                    } else {
                        start.terrain_of(cx, cy)
                    },
            decreases y + h - yy,
        {
            let mut xx = x;
            while xx < x + w
                invariant
                    self.wf(),
                    self.same_occupants(&start),
                    start.wf(),
                    y <= yy < y + h,
                    x <= xx,
                    i32::MIN <= x + w <= i32::MAX,
                    forall|cx: int, cy: int|
                        self.inside(cx, cy) ==> #[trigger] self.terrain_of(cx, cy) == if in_rect(
                            x as int,
                            y as int,
                            w as int,
                            h as int,
                            cx,
                            cy,
                        ) && (cy < yy || (cy == yy && cx < xx)) && start.terrain_of(cx, cy)
                            == Terrain::Rock {
                            Terrain::Empty
                        } else {
                            start.terrain_of(cx, cy)
                        },
                decreases x + w - xx,
            {
                if matches!(self.terrain_at(xx, yy), Some(Terrain::Rock)) {
                    self.set_terrain(xx, yy, Terrain::Empty);
                }
                xx = xx + 1;
            }
            yy = yy + 1;
        }
    }

    /// Organic plateau centred on `(cx, cy)` with radii `(rx, ry)`, all given in tenths of
    /// a cell. Only paints empty cells so cores and spawns stay intact; a blob with a radius
    /// that is not positive paints nothing.
    pub fn stamp_blob(&mut self, cx: i32, cy: i32, rx: i32, ry: i32)
        requires
            old(self).wf(),
            rx <= 1_000_000,
            ry <= 1_000_000,
        ensures
            final(self).wf(),
            final(self).same_occupants(old(self)),
            forall|x: int, y: int|
                final(self).inside(x, y) ==> #[trigger] final(self).terrain_of(x, y) == if rx > 0
                    && ry > 0 && blob_lo(cx as int, rx as int) <= x <= blob_hi(
                    cx as int,
                    rx as int,
                    old(self).w as int,
                ) && blob_lo(cy as int, ry as int) <= y <= blob_hi(
                    cy as int,
                    ry as int,
                    old(self).h as int,
                ) && old(self).terrain_of(x, y) == Terrain::Empty && blob_covers(
                    cx as int,
                    cy as int,
                    rx as int,
                    ry as int,
                    x,
                    y,
                ) {
                    Terrain::Rock
                } else {
                    old(self).terrain_of(x, y)
                },
    {
        if rx <= 0 || ry <= 0 {
            return ;
        }
        let cx = cx as i64;
        let cy = cy as i64;
        let rx = rx as i64;
        let ry = ry as i64;
        let x0: i64 = if cx - rx <= 0 { 0 } else { (cx - rx) / 10 };
        let y0: i64 = if cy - ry <= 0 { 0 } else { (cy - ry) / 10 };
        let xs: i64 = if cx + rx <= 0 { -((-(cx + rx)) / 10) } else { (cx + rx + 9) / 10 };
        let ys: i64 = if cy + ry <= 0 { -((-(cy + ry)) / 10) } else { (cy + ry + 9) / 10 };
        let x1: i64 = if xs < self.w as i64 - 1 { xs } else { self.w as i64 - 1 };
        let y1: i64 = if ys < self.h as i64 - 1 { ys } else { self.h as i64 - 1 };
        assert(x0 == blob_lo(cx as int, rx as int));
        assert(y0 == blob_lo(cy as int, ry as int));
        assert(x1 == blob_hi(cx as int, rx as int, self.w as int));
        assert(y1 == blob_hi(cy as int, ry as int, self.h as int));
        let ghost start = *self;
        let mut y = y0;
        while y <= y1
            invariant
                self.wf(),
                start.wf(),
                self.same_occupants(&start),
                0 <= y0 <= y,
                y1 < self.h,
                x1 < self.w,
                0 <= x0,
                0 < rx <= 1_000_000,
                0 < ry <= 1_000_000,
                x0 == blob_lo(cx as int, rx as int),
                y0 == blob_lo(cy as int, ry as int),
                x1 == blob_hi(cx as int, rx as int, self.w as int),
                y1 == blob_hi(cy as int, ry as int, self.h as int),
                y <= y1 + 1 || y == y0,
                forall|px: int, py: int|
                    self.inside(px, py) ==> #[trigger] self.terrain_of(px, py) == if x0 <= px <= x1
                        && y0 <= py <= y1 && py < y && start.terrain_of(px, py) == Terrain::Empty
                        && blob_covers(cx as int, cy as int, rx as int, ry as int, px, py) {
                        Terrain::Rock
                    } else {
                        start.terrain_of(px, py)
                    },
            decreases y1 + 1 - y,
        {
            let mut x = x0;
            while x <= x1
                invariant
                    self.wf(),
                    start.wf(),
                    self.same_occupants(&start),
                    0 <= y0 <= y <= y1,
                    y1 < self.h,
                    x1 < self.w,
                    0 <= x0 <= x,
                    x <= x1 + 1 || x == x0,
                    0 < rx <= 1_000_000,
                    0 < ry <= 1_000_000,
                    x0 == blob_lo(cx as int, rx as int),
                    y0 == blob_lo(cy as int, ry as int),
                    x1 == blob_hi(cx as int, rx as int, self.w as int),
                    y1 == blob_hi(cy as int, ry as int, self.h as int),
                    forall|px: int, py: int|
                        self.inside(px, py) ==> #[trigger] self.terrain_of(px, py) == if x0 <= px
                            <= x1 && y0 <= py <= y1 && (py < y || (py == y && px < x))
                            && start.terrain_of(px, py) == Terrain::Empty && blob_covers(
                            cx as int,
                            cy as int,
                            rx as int,
                            ry as int,
                            px,
                            py,
                        ) {
                            Terrain::Rock
                        } else {
                            start.terrain_of(px, py)
                        },
                decreases x1 + 1 - x,
            {
                let xi = x as i32;
                let yi = y as i32;
                proof {
                    lemma_cell_key_range(self.w as int, self.h as int, x as int, y as int);
                }
                let i = self.idx(xi, yi);
                if self.terrain[i] == Terrain::Empty {
                    if blob_cell(cx, cy, rx, ry, xi, yi) {
                        self.set_terrain(xi, yi, Terrain::Rock);
                    }
                }
                x = x + 1;
            }
            y = y + 1;
        }
    }
}


/// The cells of `r` come in strictly increasing row-major order.
pub open spec fn row_sorted(r: Seq<(i32, i32)>) -> bool {
    forall|i: int, j: int| 0 <= i < j < r.len() ==> row_before(#[trigger] r[i], #[trigger] r[j])
}

/// `r` lists, in row-major order and without repeats, exactly the cells of `g` whose
/// terrain is `t`.
pub open spec fn lists_terrain(g: Grid, r: Seq<(i32, i32)>, t: Terrain) -> bool {
    &&& forall|k: int|
        0 <= k < r.len() ==> g.inside((#[trigger] r[k]).0 as int, r[k].1 as int) && g.terrain_of(
            r[k].0 as int,
            r[k].1 as int,
        ) == t
    &&& row_sorted(r)
    &&& forall|x: int, y: int|
        g.inside(x, y) && #[trigger] g.terrain_of(x, y) == t ==> r.contains((x as i32, y as i32))
}

/// The row-major list of the cells of `g` whose terrain is `t`.
pub open spec fn listing(g: Grid, t: Terrain) -> Seq<(i32, i32)> {
    choose|r: Seq<(i32, i32)>| lists_terrain(g, r, t)
}

/// Two row-major lists of the same cells are the same list.
proof fn lemma_sorted_same(r1: Seq<(i32, i32)>, r2: Seq<(i32, i32)>)
    requires
        row_sorted(r1),
        row_sorted(r2),
        forall|c: (i32, i32)| r1.contains(c) <==> r2.contains(c),
    ensures
        r1 == r2,
    decreases r1.len(),
{
    if r1.len() == 0 {
        if r2.len() > 0 {
            assert(r2.contains(r2[0]));
        }
        assert(r1 =~= r2);
    } else if r2.len() == 0 {
        assert(r1.contains(r1[0]));
    } else {
        let a = r1[0];
        let b = r2[0];
        assert(r1.contains(a));
        assert(r2.contains(b));
        let k = choose|k: int| 0 <= k < r2.len() && r2[k] == a;
        let m = choose|m: int| 0 <= m < r1.len() && r1[m] == b;
        if k > 0 {
            assert(row_before(r2[0], r2[k]));
            if m > 0 {
                assert(row_before(r1[0], r1[m]));
            }
        }
        assert(a == b);
        let t1 = r1.drop_first();
        let t2 = r2.drop_first();
        assert forall|i: int, j: int| 0 <= i < j < t1.len() implies row_before(#[trigger] t1[i], #[trigger] t1[j]) by {
            assert(t1[i] == r1[i + 1] && t1[j] == r1[j + 1]);
        }
        assert forall|i: int, j: int| 0 <= i < j < t2.len() implies row_before(#[trigger] t2[i], #[trigger] t2[j]) by {
            assert(t2[i] == r2[i + 1] && t2[j] == r2[j + 1]);
        }
        assert forall|c: (i32, i32)| t1.contains(c) <==> t2.contains(c) by {
            if t1.contains(c) {
                let i = choose|i: int| 0 <= i < t1.len() && t1[i] == c;
                assert(r1[i + 1] == c);
                assert(row_before(r1[0], r1[i + 1]));
                assert(r2.contains(c));
                let j = choose|j: int| 0 <= j < r2.len() && r2[j] == c;
                assert(j != 0);
                assert(t2[j - 1] == c);
            }
            if t2.contains(c) {
                let i = choose|i: int| 0 <= i < t2.len() && t2[i] == c;
                assert(r2[i + 1] == c);
                assert(row_before(r2[0], r2[i + 1]));
                assert(r1.contains(c));
                let j = choose|j: int| 0 <= j < r1.len() && r1[j] == c;
                assert(j != 0);
                assert(t1[j - 1] == c);
            }
        }
        lemma_sorted_same(t1, t2);
        assert(r1 =~= seq![a] + t1);
        assert(r2 =~= seq![b] + t2);
    }
}

/// A row-major list of the cells of one terrain is the listing of that terrain.
/// The cells of row `y` before column `n` whose terrain is `t`, left to right.
spec fn row_part(g: Grid, t: Terrain, y: int, n: int) -> Seq<(i32, i32)>
    decreases n,
{
    if n <= 0 {
        seq![]
    } else if g.terrain_of(n - 1, y) == t {
        row_part(g, t, y, n - 1).push(((n - 1) as i32, y as i32))
    } else {
        row_part(g, t, y, n - 1)
    }
}

/// The cells of the rows before row `m` whose terrain is `t`, in row-major order.
spec fn rows_part(g: Grid, t: Terrain, m: int) -> Seq<(i32, i32)>
    decreases m,
{
    if m <= 0 {
        seq![]
    } else {
        rows_part(g, t, m - 1) + row_part(g, t, m - 1, g.w as int)
    }
}

proof fn lemma_row_part(g: Grid, t: Terrain, y: int, n: int)
    requires
        g.wf(),
        0 <= y < g.h,
        0 <= n <= g.w,
    ensures
        forall|k: int|
            0 <= k < row_part(g, t, y, n).len() ==> {
                let c = #[trigger] row_part(g, t, y, n)[k];
                &&& c.1 == y && 0 <= c.0 < n
                &&& g.terrain_of(c.0 as int, c.1 as int) == t
            },
        row_sorted(row_part(g, t, y, n)),
        forall|x: int|
            0 <= x < n && g.terrain_of(x, y) == t ==> row_part(g, t, y, n).contains(
                (x as i32, y as i32),
            ),
    decreases n,
{
    if n > 0 {
        lemma_row_part(g, t, y, n - 1);
        let r = row_part(g, t, y, n - 1);
        let c = ((n - 1) as i32, y as i32);
        if g.terrain_of(n - 1, y) == t {
            let q = r.push(c);
            assert forall|k: int| 0 <= k < q.len() implies {
                let d = #[trigger] q[k];
                &&& d.1 == y && 0 <= d.0 < n
                &&& g.terrain_of(d.0 as int, d.1 as int) == t
            } by {
                if k < r.len() {
                    assert(q[k] == r[k]);
                }
            }
            assert forall|i: int, j: int| 0 <= i < j < q.len() implies row_before(
                #[trigger] q[i],
                #[trigger] q[j],
            ) by {
                if j < r.len() {
                    assert(q[i] == r[i] && q[j] == r[j]);
                } else {
                    assert(q[i] == r[i]);
                    assert(r[i].0 < n - 1);
                }
            }
            assert forall|x: int| 0 <= x < n && g.terrain_of(x, y) == t implies q.contains(
                (x as i32, y as i32),
            ) by {
                if x < n - 1 {
                    let i = choose|i: int| 0 <= i < r.len() && r[i] == (x as i32, y as i32);
                    assert(q[i] == r[i]);
                } else {
                    assert(q[q.len() - 1] == c);
                }
            }
        }
    }
}

proof fn lemma_rows_part(g: Grid, t: Terrain, m: int)
    requires
        g.wf(),
        0 <= m <= g.h,
    ensures
        forall|k: int|
            0 <= k < rows_part(g, t, m).len() ==> {
                let c = #[trigger] rows_part(g, t, m)[k];
                &&& 0 <= c.1 < m && g.inside(c.0 as int, c.1 as int)
                &&& g.terrain_of(c.0 as int, c.1 as int) == t
            },
        row_sorted(rows_part(g, t, m)),
        forall|x: int, y: int|
            0 <= x < g.w && 0 <= y < m && g.terrain_of(x, y) == t ==> rows_part(g, t, m).contains(
                (x as i32, y as i32),
            ),
    decreases m,
{
    if m > 0 {
        lemma_rows_part(g, t, m - 1);
        lemma_row_part(g, t, m - 1, g.w as int);
        let a = rows_part(g, t, m - 1);
        let b = row_part(g, t, m - 1, g.w as int);
        let q = a + b;
        assert(rows_part(g, t, m) == q);
        assert forall|k: int| 0 <= k < q.len() implies {
            let c = #[trigger] q[k];
            &&& 0 <= c.1 < m && g.inside(c.0 as int, c.1 as int)
            &&& g.terrain_of(c.0 as int, c.1 as int) == t
        } by {
            if k < a.len() {
                assert(q[k] == a[k]);
            } else {
                assert(q[k] == b[k - a.len()]);
            }
        }
        assert forall|i: int, j: int| 0 <= i < j < q.len() implies row_before(
            #[trigger] q[i],
            #[trigger] q[j],
        ) by {
            if j < a.len() {
                assert(q[i] == a[i] && q[j] == a[j]);
            } else if i >= a.len() {
                assert(q[i] == b[i - a.len()] && q[j] == b[j - a.len()]);
            } else {
                assert(q[i] == a[i] && q[j] == b[j - a.len()]);
            }
        }
        assert forall|x: int, y: int|
            0 <= x < g.w && 0 <= y < m && g.terrain_of(x, y) == t implies q.contains(
            (x as i32, y as i32),
        ) by {
            if y < m - 1 {
                let i = choose|i: int| 0 <= i < a.len() && a[i] == (x as i32, y as i32);
                assert(q[i] == a[i]);
            } else {
                let i = choose|i: int| 0 <= i < b.len() && b[i] == (x as i32, y as i32);
                assert(q[a.len() + i] == b[i]);
            }
        }
    }
}

/// On a well-formed grid the row-major list of the cells of any terrain exists, so `listing`
/// names it.
pub proof fn lemma_listing_lists(g: Grid, t: Terrain)
    requires
        g.wf(),
    ensures
        lists_terrain(g, listing(g, t), t),
{
    lemma_rows_part(g, t, g.h as int);
    assert(lists_terrain(g, rows_part(g, t, g.h as int), t));
}

pub proof fn lemma_listing(g: Grid, r: Seq<(i32, i32)>, t: Terrain)
    requires
        lists_terrain(g, r, t),
    ensures
        r == listing(g, t),
{
    let l = listing(g, t);
    assert(lists_terrain(g, l, t));
    assert forall|c: (i32, i32)| r.contains(c) <==> l.contains(c) by {
        if r.contains(c) {
            let i = choose|i: int| 0 <= i < r.len() && r[i] == c;
            assert(g.inside(r[i].0 as int, r[i].1 as int) && g.terrain_of(r[i].0 as int, r[i].1 as int) == t);
            assert(l.contains((c.0 as int as i32, c.1 as int as i32)));
        }
        if l.contains(c) {
            let i = choose|i: int| 0 <= i < l.len() && l[i] == c;
            assert(g.inside(l[i].0 as int, l[i].1 as int) && g.terrain_of(l[i].0 as int, l[i].1 as int) == t);
            assert(r.contains((c.0 as int as i32, c.1 as int as i32)));
        }
    }
    lemma_sorted_same(r, l);
}

/// `r` lists, in row-major order and without repeats, exactly the barricaded cells of `g`.
pub open spec fn lists_walls(g: Grid, r: Seq<(i32, i32)>) -> bool {
    &&& forall|k: int|
        0 <= k < r.len() ==> g.inside((#[trigger] r[k]).0 as int, r[k].1 as int) && g.occ_of(
            r[k].0 as int,
            r[k].1 as int,
        ) == Occupant::Wall
    &&& row_sorted(r)
    &&& forall|x: int, y: int|
        g.inside(x, y) && #[trigger] g.occ_of(x, y) == Occupant::Wall ==> r.contains(
            (x as i32, y as i32),
        )
}

impl Grid {
    /// In-bounds cell, as a one-element list, or nothing.
    pub open spec fn cell_if_inside(&self, x: int, y: int) -> Seq<(i32, i32)> {
        if self.inside(x, y) {
            seq![(x as i32, y as i32)]
        } else {
            seq![]
        }
    }

    /// The in-bounds edge neighbours of `(x, y)`: east, west, south, north.
    pub open spec fn neighbor_cells(&self, x: int, y: int) -> Seq<(i32, i32)> {
        self.cell_if_inside(x + 1, y) + self.cell_if_inside(x - 1, y) + self.cell_if_inside(x, y + 1)
            + self.cell_if_inside(x, y - 1)
    }

    /// The cells whose terrain is `want`, in row-major order.
    fn filter_terrain(&self, want: Terrain) -> (r: Vec<(i32, i32)>)
        requires
            self.wf(),
        ensures
            lists_terrain(*self, r@, want),
    {
        let mut out: Vec<(i32, i32)> = Vec::new();
        let mut y: i32 = 0;
        while y < self.h
            invariant
                self.wf(),
                0 <= y <= self.h,
                forall|k: int|
                    0 <= k < out@.len() ==> self.inside((#[trigger] out@[k]).0 as int, out@[k].1 as int)
                        && self.terrain_of(out@[k].0 as int, out@[k].1 as int) == want && out@[k].1 < y,
                row_sorted(out@),
                forall|cx: int, cy: int|
                    self.inside(cx, cy) && cy < y && #[trigger] self.terrain_of(cx, cy) == want ==> out@.contains(
                        (cx as i32, cy as i32),
                    ),
            decreases self.h - y,
        {
            let mut x: i32 = 0;
            while x < self.w
                invariant
                    self.wf(),
                    0 <= y < self.h,
                    0 <= x <= self.w,
                    forall|k: int|
                        0 <= k < out@.len() ==> self.inside((#[trigger] out@[k]).0 as int, out@[k].1 as int)
                            && self.terrain_of(out@[k].0 as int, out@[k].1 as int) == want && row_before(out@[k], (x, y)),
                    row_sorted(out@),
                    forall|cx: int, cy: int|
                        self.inside(cx, cy) && (cy < y || (cy == y && cx < x)) && #[trigger] self.terrain_of(cx, cy) == want ==> out@.contains((cx as i32, cy as i32)),
                decreases self.w - x,
            {
                proof {
                    lemma_cell_key_range(self.w as int, self.h as int, x as int, y as int);
                }
                let i = self.idx(x, y);
                if self.terrain[i] == want {
                    let ghost before = out@;
                    out.push((x, y));
                    proof {
                        assert(out@[out@.len() - 1] == (x, y));
                        assert forall|k: int| 0 <= k < before.len() implies out@[k] == before[k] by {}
                        assert forall|cx: int, cy: int|
                            self.inside(cx, cy) && (cy < y || (cy == y && cx < x + 1))
                                && #[trigger] self.terrain_of(cx, cy) == want implies out@.contains(
                            (cx as i32, cy as i32),
                        ) by {
                            if cy == y && cx == x {
                                assert(out@[out@.len() - 1] == (cx as i32, cy as i32));
                            } else {
                                assert(before.contains((cx as i32, cy as i32)));
                                let k = choose|k: int|
                                    0 <= k < before.len() && before[k] == (cx as i32, cy as i32);
                                assert(out@[k] == (cx as i32, cy as i32));
                            }
                        }
                    }
                }
                x = x + 1;
            }
            y = y + 1;
        }
        out
    }

    pub fn cores(&self) -> (r: Vec<(i32, i32)>)
        requires
            self.wf(),
        ensures
            lists_terrain(*self, r@, Terrain::Core),
    {
        self.filter_terrain(Terrain::Core)
    }

    pub fn spawns(&self) -> (r: Vec<(i32, i32)>)
        requires
            self.wf(),
        ensures
            lists_terrain(*self, r@, Terrain::Spawn),
    {
        self.filter_terrain(Terrain::Spawn)
    }

    pub fn rocks(&self) -> (r: Vec<(i32, i32)>)
        requires
            self.wf(),
        ensures
            lists_terrain(*self, r@, Terrain::Rock),
    {
        self.filter_terrain(Terrain::Rock)
    }

    /// The relays: the 4-connected groups of relay (core) cells, each listed first-cell
    /// first, in row-major order of their first cells.
    pub fn core_clusters(&self) -> (r: Vec<Vec<(i32, i32)>>)
        requires
            self.wf(),
        ensures
            exists|groups: Seq<Seq<usize>>|
                {
                    &&& is_clustering(listing(*self, Terrain::Core), groups)
                    &&& r@.len() == groups.len()
                    &&& forall|g: int|
                        0 <= g < groups.len() ==> (#[trigger] r@[g])@ == cells_of(
                            listing(*self, Terrain::Core),
                            groups[g],
                        )
                },
    {
        let cells = self.cores();
        proof {
            lemma_listing(*self, cells@, Terrain::Core);
        }
        cell_clusters(&cells)
    }

    /// Cells holding a barricade, in row-major order.
    pub fn walls(&self) -> (r: Vec<(i32, i32)>)
        requires
            self.wf(),
        ensures
            lists_walls(*self, r@),
    {
        let mut out: Vec<(i32, i32)> = Vec::new();
        let mut y: i32 = 0;
        while y < self.h
            invariant
                self.wf(),
                0 <= y <= self.h,
                forall|k: int|
                    0 <= k < out@.len() ==> self.inside((#[trigger] out@[k]).0 as int, out@[k].1 as int)
                        && self.occ_of(out@[k].0 as int, out@[k].1 as int) == Occupant::Wall && out@[k].1 < y,
                row_sorted(out@),
                forall|cx: int, cy: int|
                    self.inside(cx, cy) && cy < y && #[trigger] self.occ_of(cx, cy) == Occupant::Wall ==> out@.contains(
                        (cx as i32, cy as i32),
                    ),
            decreases self.h - y,
        {
            let mut x: i32 = 0;
            while x < self.w
                invariant
                    self.wf(),
                    0 <= y < self.h,
                    0 <= x <= self.w,
                    forall|k: int|
                        0 <= k < out@.len() ==> self.inside((#[trigger] out@[k]).0 as int, out@[k].1 as int)
                            && self.occ_of(out@[k].0 as int, out@[k].1 as int) == Occupant::Wall && row_before(out@[k], (x, y)),
                    row_sorted(out@),
                    forall|cx: int, cy: int|
                        self.inside(cx, cy) && (cy < y || (cy == y && cx < x)) && #[trigger] self.occ_of(cx, cy) == Occupant::Wall ==> out@.contains((cx as i32, cy as i32)),
                decreases self.w - x,
            {
                proof {
                    lemma_cell_key_range(self.w as int, self.h as int, x as int, y as int);
                }
                let i = self.idx(x, y);
                if matches!(self.occ[i], Occupant::Wall) {
                    let ghost before = out@;
                    out.push((x, y));
                    proof {
                        assert(out@[out@.len() - 1] == (x, y));
                        assert forall|k: int| 0 <= k < before.len() implies out@[k] == before[k] by {}
                        assert forall|cx: int, cy: int|
                            self.inside(cx, cy) && (cy < y || (cy == y && cx < x + 1))
                                && #[trigger] self.occ_of(cx, cy) == Occupant::Wall implies out@.contains(
                            (cx as i32, cy as i32),
                        ) by {
                            if cy == y && cx == x {
                                assert(out@[out@.len() - 1] == (cx as i32, cy as i32));
                            } else {
                                assert(before.contains((cx as i32, cy as i32)));
                                let k = choose|k: int|
                                    0 <= k < before.len() && before[k] == (cx as i32, cy as i32);
                                assert(out@[k] == (cx as i32, cy as i32));
                            }
                        }
                    }
                }
                x = x + 1;
            }
            y = y + 1;
        }
        out
    }

    /// The in-bounds edge neighbours of `(x, y)`: east, west, south, north.
    pub fn neighbors4(&self, x: i32, y: i32) -> (r: Vec<(i32, i32)>)
        ensures
            r@ == self.neighbor_cells(x as int, y as int),
    {
        let mut out: Vec<(i32, i32)> = Vec::new();
        if x >= -1 && (x as i64) + 1 < self.w as i64 && y >= 0 && y < self.h {
            out.push((x + 1, y));
        }
        if x > 0 && x <= self.w && y >= 0 && y < self.h {
            out.push((x - 1, y));
        }
        if y >= -1 && (y as i64) + 1 < self.h as i64 && x >= 0 && x < self.w {
            out.push((x, y + 1));
        }
        if y > 0 && y <= self.h && x >= 0 && x < self.w {
            out.push((x, y - 1));
        }
        assert(out@ =~= self.neighbor_cells(x as int, y as int));
        out
    }

    /// Every listed neighbour is an in-bounds cell touching `(x, y)`, and every in-bounds
    /// cell touching `(x, y)` is listed.
    pub proof fn lemma_neighbor_cells(&self, x: int, y: int)
        ensures
            forall|k: int|
                0 <= k < self.neighbor_cells(x, y).len() ==> self.inside(
                    (#[trigger] self.neighbor_cells(x, y)[k]).0 as int,
                    self.neighbor_cells(x, y)[k].1 as int,
                ) && adjacent(
                    (x, y),
                    (self.neighbor_cells(x, y)[k].0 as int, self.neighbor_cells(x, y)[k].1 as int),
                ),
            forall|nx: int, ny: int|
                self.inside(nx, ny) && #[trigger] adjacent((x, y), (nx, ny))
                    ==> self.neighbor_cells(x, y).contains((nx as i32, ny as i32)),
            self.neighbor_cells(x, y).len() <= 4,
    {
        let a = self.cell_if_inside(x + 1, y);
        let b = self.cell_if_inside(x - 1, y);
        let c = self.cell_if_inside(x, y + 1);
        let d = self.cell_if_inside(x, y - 1);
        let s = self.neighbor_cells(x, y);
        assert(s == a + b + c + d);
        assert forall|nx: int, ny: int|
            self.inside(nx, ny) && #[trigger] adjacent((x, y), (nx, ny)) implies s.contains(
            (nx as i32, ny as i32),
        ) by {
            if nx == x + 1 && ny == y {
                assert(s[0] == (nx as i32, ny as i32));
            } else if nx == x - 1 && ny == y {
                assert(s[a.len() as int] == (nx as i32, ny as i32));
            } else if nx == x && ny == y + 1 {
                assert(s[(a.len() + b.len()) as int] == (nx as i32, ny as i32));
            } else {
                assert(s[(a.len() + b.len() + c.len()) as int] == (nx as i32, ny as i32));
            }
        }
    }
}

} // verus!
