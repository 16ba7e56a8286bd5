//! Ground pathing: a flow field of walking distances to the nearest relay.
//!
//! Breadth-first search from every relay (core) cell over 4-connected walkable cells. Each
//! cell stores its distance to the relay and the neighbour that leads inward.

use vstd::prelude::*;
use vstd::set_lib::*;
use crate::clusters::{clusters, is_cluster, is_clustering, lemma_linked_inside};
use crate::grid::{adjacent, cell_key, lemma_cell_key_injective, lemma_cell_key_range, lemma_listing, listing, lists_terrain, row_before, Grid, Terrain};

verus! {

/// Distance of a cell from which no relay can be reached.
pub const INF: u32 = 1_073_741_823;

pub struct FlowField {
    pub dist: Vec<u32>,
    pub next: Vec<Option<(i32, i32)>>,
}

pub open spec fn is_core(g: Grid, x: int, y: int) -> bool {
    g.inside(x, y) && g.terrain_of(x, y) == Terrain::Core
}

/// A walk outward from a relay cell: each step moves to an edge neighbour that ground can
/// stand on. Read backwards, it is a route that ground can take into the relay.
pub open spec fn is_walk(g: Grid, p: Seq<(int, int)>) -> bool {
    &&& p.len() >= 1
    &&& is_core(g, p[0].0, p[0].1)
    &&& forall|k: int|
        #![trigger p[k]]
        1 <= k < p.len() ==> !g.blocked(p[k].0, p[k].1) && adjacent(p[k - 1], p[k])
}

/// Ground standing on `(x, y)` can walk to a relay.
pub open spec fn reachable(g: Grid, x: int, y: int) -> bool {
    exists|p: Seq<(int, int)>| #[trigger] is_walk(g, p) && p.last() == (x, y)
}

/// The shortest walk between `(x, y)` and a relay takes exactly `d` steps.
pub open spec fn shortest(g: Grid, x: int, y: int, d: int) -> bool {
    &&& exists|p: Seq<(int, int)>| #[trigger] is_walk(g, p) && p.last() == (x, y) && p.len() == d + 1
    &&& forall|p: Seq<(int, int)>| #[trigger] is_walk(g, p) && p.last() == (x, y) ==> p.len() >= d + 1
}

pub open spec fn dv(dist: Seq<u32>, w: int, x: int, y: int) -> u32 {
    dist[cell_key(w, x, y)]
}

pub open spec fn nv(next: Seq<Option<(i32, i32)>>, w: int, x: int, y: int) -> Option<(i32, i32)> {
    next[cell_key(w, x, y)]
}

/// The stored step of a cell leads to an edge neighbour one step closer to the relay;
/// relay cells and cut-off cells store no step.
pub open spec fn steps_inward(
    g: Grid,
    dist: Seq<u32>,
    next: Seq<Option<(i32, i32)>>,
    x: int,
    y: int,
) -> bool {
    let w = g.w as int;
    let d = dv(dist, w, x, y);
    if d == 0 || d == INF {
        nv(next, w, x, y) is None
    } else {
        &&& nv(next, w, x, y) matches Some(p)
        &&& g.inside(p.0 as int, p.1 as int)
        &&& adjacent((x, y), (p.0 as int, p.1 as int))
        &&& dv(dist, w, p.0 as int, p.1 as int) + 1 == d
    }
}

impl FlowField {
    pub open spec fn dist_of(&self, g: Grid, x: int, y: int) -> u32 {
        dv(self.dist@, g.w as int, x, y)
    }

    pub open spec fn next_of(&self, g: Grid, x: int, y: int) -> Option<(i32, i32)> {
        nv(self.next@, g.w as int, x, y)
    }

    /// This field is the flow field of `g`: every cell holds its shortest walking distance
    /// to a relay (`INF` when there is none) and a step one cell closer.
    pub open spec fn is_flow_of(&self, g: Grid) -> bool {
        &&& g.wf()
        &&& g.flow_sized()
        &&& self.dist@.len() == g.cell_count()
        &&& self.next@.len() == g.cell_count()
        &&& forall|x: int, y: int|
            #![trigger self.dist_of(g, x, y)]
            g.inside(x, y) ==> {
                &&& self.dist_of(g, x, y) <= INF
                &&& (self.dist_of(g, x, y) < INF <==> reachable(g, x, y))
                &&& (self.dist_of(g, x, y) < INF ==> shortest(
                    g,
                    x,
                    y,
                    self.dist_of(g, x, y) as int,
                ))
                &&& (self.dist_of(g, x, y) == 0 <==> is_core(g, x, y))
                &&& steps_inward(g, self.dist@, self.next@, x, y)
            }
    }
}

/// The finished search: distances are bounded, relays are at distance zero, every stored
/// step leads inward, and no reached cell has a walkable neighbour more than one step
/// further out than it.
spec fn settled(g: Grid, dist: Seq<u32>, next: Seq<Option<(i32, i32)>>) -> bool {
    let w = g.w as int;
    &&& forall|x: int, y: int|
        #![trigger dv(dist, w, x, y)]
        g.inside(x, y) ==> {
            &&& dv(dist, w, x, y) <= INF
            &&& (dv(dist, w, x, y) < INF ==> dv(dist, w, x, y) < g.cell_count())
            &&& (dv(dist, w, x, y) == 0 <==> is_core(g, x, y))
            &&& (0 < dv(dist, w, x, y) < INF ==> !g.blocked(x, y))
            &&& steps_inward(g, dist, next, x, y)
        }
    &&& forall|cx: int, cy: int, ex: int, ey: int|
        #![trigger dv(dist, w, cx, cy), dv(dist, w, ex, ey)]
        g.inside(cx, cy) && g.inside(ex, ey) && dv(dist, w, cx, cy) < INF && adjacent(
            (cx, cy),
            (ex, ey),
        ) && !g.blocked(ex, ey) ==> dv(dist, w, ex, ey) <= dv(dist, w, cx, cy) + 1
}

proof fn lemma_walk_to(g: Grid, dist: Seq<u32>, next: Seq<Option<(i32, i32)>>, x: int, y: int) -> (p:
    Seq<(int, int)>)
    requires
        g.wf(),
        g.flow_sized(),
        settled(g, dist, next),
        g.inside(x, y),
        dv(dist, g.w as int, x, y) < INF,
    ensures
        is_walk(g, p),
        p.last() == (x, y),
        p.len() == dv(dist, g.w as int, x, y) + 1,
    decreases dv(dist, g.w as int, x, y),
{
    let w = g.w as int;
    let d = dv(dist, w, x, y);
    if d == 0 {
        let p = seq![(x, y)];
        p
    } else {
        assert(steps_inward(g, dist, next, x, y));
        let s = nv(next, w, x, y)->0;
        assert(dv(dist, w, s.0 as int, s.1 as int) + 1 == d);
        let q = lemma_walk_to(g, dist, next, s.0 as int, s.1 as int);
        let p = q.push((x, y));
        assert(p[p.len() - 2] == (s.0 as int, s.1 as int));
        assert forall|k: int| #![trigger p[k]] 1 <= k < p.len() implies !g.blocked(p[k].0, p[k].1)
            && adjacent(p[k - 1], p[k]) by {
            if k < p.len() - 1 {
                assert(p[k] == q[k]);
                assert(p[k - 1] == q[k - 1]);
            }
        }
        p
    }
}

proof fn lemma_walk_bound(
    g: Grid,
    dist: Seq<u32>,
    next: Seq<Option<(i32, i32)>>,
    p: Seq<(int, int)>,
    k: int,
)
    requires
        g.wf(),
        g.flow_sized(),
        settled(g, dist, next),
        is_walk(g, p),
        0 <= k < p.len(),
    ensures
        dv(dist, g.w as int, p[k].0, p[k].1) <= k,
        dv(dist, g.w as int, p[k].0, p[k].1) < INF,
    decreases k,
{
    let w = g.w as int;
    if k > 0 {
        lemma_walk_bound(g, dist, next, p, k - 1);
        assert(!g.blocked(p[k].0, p[k].1) && adjacent(p[k - 1], p[k]));
        let c = p[k - 1];
        let e = p[k];
        assert(g.inside(c.0, c.1)) by {
            if k - 1 > 0 {
                assert(!g.blocked(p[k - 1].0, p[k - 1].1));
            }
        }
        assert(dv(dist, w, e.0, e.1) <= dv(dist, w, c.0, c.1) + 1);
        assert(dv(dist, w, c.0, c.1) < g.cell_count());
    } else {
        assert(dv(dist, w, p[0].0, p[0].1) == 0);
    }
}

/// Distinct in-bounds cells number at most the cells of the grid.
pub proof fn lemma_distinct_cells_fit(g: Grid, q: Seq<(i32, i32)>)
    requires
        g.wf(),
        forall|j: int| 0 <= j < q.len() ==> g.inside((#[trigger] q[j]).0 as int, q[j].1 as int),
        forall|i: int, j: int| 0 <= i < j < q.len() ==> #[trigger] q[i] != #[trigger] q[j],
    ensures
        q.len() <= g.cell_count(),
{
    let w = g.w as int;
    let keys = Seq::new(q.len(), |j: int| cell_key(w, q[j].0 as int, q[j].1 as int));
    assert forall|j: int| 0 <= j < keys.len() implies 0 <= #[trigger] keys[j] < g.cell_count() by {
        lemma_cell_key_range(w, g.h as int, q[j].0 as int, q[j].1 as int);
    }
    assert(keys.no_duplicates()) by {
        assert forall|i: int, j: int| 0 <= i < keys.len() && 0 <= j < keys.len() && i != j implies keys[i]
            != keys[j] by {
            if keys[i] == keys[j] {
                lemma_cell_key_injective(w, q[i].0 as int, q[i].1 as int, q[j].0 as int, q[j].1 as int);
                if i < j {
                    assert(q[i] != q[j]);
                } else {
                    assert(q[j] != q[i]);
                }
            }
        }
    }
    keys.unique_seq_to_set();
    lemma_int_range(0, g.cell_count());
    assert(keys.to_set().subset_of(set_int_range(0, g.cell_count())));
    lemma_len_subset(keys.to_set(), set_int_range(0, g.cell_count()));
}

/// The queue of the search: in-bounds distinct cells in order of distance, each no further
/// than its position; exactly the reached cells; relays at distance zero; stored steps lead
/// inward.
#[verifier::opaque]
spec fn queue_ok(g: Grid, dist: Seq<u32>, next: Seq<Option<(i32, i32)>>, q: Seq<(i32, i32)>) -> bool {
    let w = g.w as int;
    &&& forall|j: int|
        0 <= j < q.len() ==> g.inside((#[trigger] q[j]).0 as int, q[j].1 as int) && dv(
            dist,
            w,
            q[j].0 as int,
            q[j].1 as int,
        ) <= j
    &&& forall|i: int, j: int|
        0 <= i < j < q.len() ==> #[trigger] q[i] != #[trigger] q[j] && dv(
            dist,
            w,
            q[i].0 as int,
            q[i].1 as int,
        ) <= dv(dist, w, q[j].0 as int, q[j].1 as int)
    &&& forall|x: int, y: int|
        #![trigger dv(dist, w, x, y)]
        g.inside(x, y) ==> {
            &&& dv(dist, w, x, y) <= INF
            &&& (dv(dist, w, x, y) < INF ==> q.contains((x as i32, y as i32)))
            &&& (dv(dist, w, x, y) == 0 <==> is_core(g, x, y))
            &&& (0 < dv(dist, w, x, y) < INF ==> !g.blocked(x, y))
            &&& steps_inward(g, dist, next, x, y)
        }
}

/// No popped cell (one before position `upto` in the queue) has a walkable neighbour more
/// than one step further out than it.
#[verifier::opaque]
spec fn popped_closed(g: Grid, dist: Seq<u32>, q: Seq<(i32, i32)>, upto: int) -> bool {
    let w = g.w as int;
    forall|j: int, ex: int, ey: int|
        #![trigger q[j], dv(dist, w, ex, ey)]
        0 <= j < upto && g.inside(ex, ey) && adjacent((q[j].0 as int, q[j].1 as int), (ex, ey))
            && !g.blocked(ex, ey) ==> dv(dist, w, ex, ey) <= dv(dist, w, q[j].0 as int, q[j].1 as int)
            + 1
}

/// State of the search while the cell `(x, y)`, just popped at `head - 1`, relaxes its
/// neighbours: popped cells are no further than `d`, waiting ones are `d` or `d + 1` away.
#[verifier::opaque]
spec fn relaxing(
    g: Grid,
    dist: Seq<u32>,
    next: Seq<Option<(i32, i32)>>,
    q: Seq<(i32, i32)>,
    head: int,
    x: i32,
    y: i32,
    d: u32,
) -> bool {
    let w = g.w as int;
    &&& g.wf()
    &&& g.flow_sized()
    &&& dist.len() == g.cell_count()
    &&& next.len() == g.cell_count()
    &&& 1 <= head <= q.len() <= g.cell_count()
    &&& q[head - 1] == (x, y)
    &&& d == dv(dist, w, x as int, y as int)
    &&& d <= head - 1
    &&& queue_ok(g, dist, next, q)
    &&& forall|j: int| 0 <= j < head ==> dv(dist, w, (#[trigger] q[j]).0 as int, q[j].1 as int) <= d
    &&& forall|j: int|
        head <= j < q.len() ==> d <= dv(dist, w, (#[trigger] q[j]).0 as int, q[j].1 as int) <= d + 1
    &&& popped_closed(g, dist, q, head - 1)
}

proof fn lemma_same_key(g: Grid, px: int, py: int, nx: int, ny: int)
    requires
        g.wf(),
        g.flow_sized(),
        g.inside(px, py),
        g.inside(nx, ny),
    ensures
        cell_key(g.w as int, px, py) == cell_key(g.w as int, nx, ny) <==> (px == nx && py == ny),
        0 <= cell_key(g.w as int, px, py) < g.cell_count(),
{
    lemma_cell_key_range(g.w as int, g.h as int, px, py);
    if cell_key(g.w as int, px, py) == cell_key(g.w as int, nx, ny) {
        lemma_cell_key_injective(g.w as int, px, py, nx, ny);
    }
}

/// Offers the neighbour `(nx, ny)` of the cell being relaxed a route through it.
#[verifier::spinoff_prover]
#[verifier::rlimit(80)]
fn relax(
    grid: &Grid,
    dist: &mut Vec<u32>,
    next: &mut Vec<Option<(i32, i32)>>,
    q: &mut Vec<(i32, i32)>,
    head: usize,
    x: i32,
    y: i32,
    d: u32,
    nx: i32,
    ny: i32,
)
    requires
        relaxing(*grid, old(dist)@, old(next)@, old(q)@, head as int, x, y, d),
        grid.inside(nx as int, ny as int),
        adjacent((x as int, y as int), (nx as int, ny as int)),
    ensures
        relaxing(*grid, final(dist)@, final(next)@, final(q)@, head as int, x, y, d),
        !grid.blocked(nx as int, ny as int) ==> dv(final(dist)@, grid.w as int, nx as int, ny as int)
            <= d + 1,
        forall|px: int, py: int|
            grid.inside(px, py) ==> #[trigger] dv(final(dist)@, grid.w as int, px, py) <= dv(
                old(dist)@,
                grid.w as int,
                px,
                py,
            ),
{
    let ghost g = *grid;
    let ghost w = grid.w as int;
    proof {
        reveal(relaxing);
        reveal(queue_ok);
        reveal(popped_closed);
    }
    if grid.blocks_ground(nx, ny) {
        return ;
    }
    proof {
        lemma_cell_key_range(w, g.h as int, nx as int, ny as int);
    }
    let ni = grid.idx(nx, ny);
    if dist[ni] <= d + 1 {
        return ;
    }
    let ghost od = dist@;
    let ghost on = next@;
    let ghost oq = q@;
    proof {
        // Not queued yet: every queued cell is at most d + 1 away.
        if oq.contains((nx, ny)) {
            let j = choose|j: int| 0 <= j < oq.len() && oq[j] == (nx, ny);
            if j >= head {
                assert(dv(od, w, oq[j].0 as int, oq[j].1 as int) <= d + 1);
            } else {
                assert(dv(od, w, oq[j].0 as int, oq[j].1 as int) <= d);
            }
        }
        assert(dv(od, w, nx as int, ny as int) == INF);
        assert(!oq.contains((nx, ny)));
    }
    dist.set(ni, d + 1);
    next.set(ni, Some((x, y)));
    q.push((nx, ny));
    proof {
        assert forall|px: int, py: int| g.inside(px, py) && !(px == nx && py == ny) implies #[trigger] dv(
            dist@,
            w,
            px,
            py,
        ) == dv(od, w, px, py) && nv(next@, w, px, py) == nv(on, w, px, py) by {
            lemma_same_key(g, px, py, nx as int, ny as int);
        }
        assert(dv(dist@, w, nx as int, ny as int) == d + 1);
        assert(nv(next@, w, nx as int, ny as int) == Some((x, y)));
        assert(q@[q@.len() - 1] == (nx, ny));
        assert forall|j: int| 0 <= j < oq.len() implies q@[j] == oq[j] by {}
        assert(x != nx || y != ny);
        assert(dv(dist@, w, x as int, y as int) == d);
        // Cells already queued keep their distance.
        assert forall|j: int| 0 <= j < oq.len() implies #[trigger] dv(
            dist@,
            w,
            q@[j].0 as int,
            q@[j].1 as int,
        ) == dv(od, w, oq[j].0 as int, oq[j].1 as int) by {
            assert(oq.contains(oq[j]));
            assert(oq[j] != (nx, ny));
        }
        assert forall|j: int| 0 <= j < q@.len() implies g.inside(
            (#[trigger] q@[j]).0 as int,
            q@[j].1 as int,
        ) && dv(dist@, w, q@[j].0 as int, q@[j].1 as int) <= j by {
            if j < oq.len() {
                assert(dv(dist@, w, q@[j].0 as int, q@[j].1 as int) == dv(
                    od,
                    w,
                    oq[j].0 as int,
                    oq[j].1 as int,
                ));
            }
        }
        assert forall|i2: int, j: int| 0 <= i2 < j < q@.len() implies #[trigger] q@[i2]
            != #[trigger] q@[j] && dv(dist@, w, q@[i2].0 as int, q@[i2].1 as int) <= dv(
            dist@,
            w,
            q@[j].0 as int,
            q@[j].1 as int,
        ) by {
            assert(dv(dist@, w, q@[i2].0 as int, q@[i2].1 as int) == dv(
                od,
                w,
                oq[i2].0 as int,
                oq[i2].1 as int,
            ));
            if j == q@.len() - 1 {
                assert(oq.contains(oq[i2]));
                if i2 < head {
                    assert(dv(od, w, oq[i2].0 as int, oq[i2].1 as int) <= d);
                } else {
                    assert(dv(od, w, oq[i2].0 as int, oq[i2].1 as int) <= d + 1);
                }
            } else {
                assert(dv(dist@, w, q@[j].0 as int, q@[j].1 as int) == dv(
                    od,
                    w,
                    oq[j].0 as int,
                    oq[j].1 as int,
                ));
            }
        }
        assert forall|px: int, py: int| #![trigger dv(dist@, w, px, py)] g.inside(px, py) implies {
            &&& dv(dist@, w, px, py) <= INF
            &&& (dv(dist@, w, px, py) < INF ==> q@.contains((px as i32, py as i32)))
            &&& (dv(dist@, w, px, py) == 0 <==> is_core(g, px, py))
            &&& (0 < dv(dist@, w, px, py) < INF ==> !g.blocked(px, py))
            &&& steps_inward(g, dist@, next@, px, py)
        } by {
            if px == nx && py == ny {
                assert(q@[q@.len() - 1] == (px as i32, py as i32));
                assert(dv(od, w, px, py) == INF);
            } else {
                assert(dv(dist@, w, px, py) == dv(od, w, px, py));
                assert(steps_inward(g, od, on, px, py));
                if dv(od, w, px, py) < INF {
                    let j = choose|j: int| 0 <= j < oq.len() && oq[j] == (px as i32, py as i32);
                    assert(q@[j] == (px as i32, py as i32));
                }
                if 0 < dv(od, w, px, py) < INF {
                    let s = nv(on, w, px, py)->0;
                    if s.0 == nx && s.1 == ny {
                        assert(dv(od, w, nx as int, ny as int) + 1 == dv(od, w, px, py));
                    } else {
                        lemma_same_key(g, s.0 as int, s.1 as int, nx as int, ny as int);
                    }
                }
            }
        }
        assert(queue_ok(g, dist@, next@, q@));
        lemma_distinct_cells_fit(g, q@);
        assert forall|j: int, ex: int, ey: int|
            #![trigger q@[j], dv(dist@, w, ex, ey)]
            0 <= j < head - 1 && g.inside(ex, ey) && adjacent(
                (q@[j].0 as int, q@[j].1 as int),
                (ex, ey),
            ) && !g.blocked(ex, ey) implies dv(dist@, w, ex, ey) <= dv(
                dist@,
                w,
                q@[j].0 as int,
                q@[j].1 as int,
            ) + 1 by {
            assert(dv(dist@, w, q@[j].0 as int, q@[j].1 as int) == dv(
                od,
                w,
                oq[j].0 as int,
                oq[j].1 as int,
            ));
            assert(dv(od, w, ex, ey) <= dv(od, w, oq[j].0 as int, oq[j].1 as int) + 1);
            if ex == nx && ey == ny {
                assert(dv(od, w, oq[j].0 as int, oq[j].1 as int) <= d);
            } else {
                assert(dv(dist@, w, ex, ey) == dv(od, w, ex, ey));
            }
        }
        assert forall|j: int| 0 <= j < head implies dv(
            dist@,
            w,
            (#[trigger] q@[j]).0 as int,
            q@[j].1 as int,
        ) <= d by {
            assert(dv(dist@, w, q@[j].0 as int, q@[j].1 as int) == dv(
                od,
                w,
                oq[j].0 as int,
                oq[j].1 as int,
            ));
        }
        assert forall|j: int| head <= j < q@.len() implies d <= dv(
            dist@,
            w,
            (#[trigger] q@[j]).0 as int,
            q@[j].1 as int,
        ) <= d + 1 by {
            if j < oq.len() {
                assert(dv(dist@, w, q@[j].0 as int, q@[j].1 as int) == dv(
                    od,
                    w,
                    oq[j].0 as int,
                    oq[j].1 as int,
                ));
            }
        }
        assert forall|px: int, py: int| g.inside(px, py) implies #[trigger] dv(dist@, w, px, py) <= dv(
            od,
            w,
            px,
            py,
        ) by {
            if !(px == nx && py == ny) {
                assert(dv(dist@, w, px, py) == dv(od, w, px, py));
            }
        }
    }
}

/// Puts every relay cell in the queue at distance zero.
fn seed_relays(grid: &Grid, dist: &mut Vec<u32>, next: &Vec<Option<(i32, i32)>>) -> (q: Vec<(i32, i32)>)
    requires
        grid.wf(),
        grid.flow_sized(),
        old(dist)@.len() == grid.cell_count(),
        next@.len() == grid.cell_count(),
        forall|k: int| 0 <= k < grid.cell_count() ==> old(dist)@[k] == INF,
        forall|k: int| 0 <= k < grid.cell_count() ==> next@[k] is None,
    ensures
        final(dist)@.len() == grid.cell_count(),
        queue_ok(*grid, final(dist)@, next@, q@),
        q@.len() <= grid.cell_count(),
        forall|j: int|
            0 <= j < q@.len() ==> dv(
                final(dist)@,
                grid.w as int,
                (#[trigger] q@[j]).0 as int,
                q@[j].1 as int,
            ) == 0,
{
    proof {
        reveal(queue_ok);
    }
    let ghost g = *grid;
    let ghost w = grid.w as int;
    let cores = grid.cores();
    let mut q: Vec<(i32, i32)> = Vec::new();
    proof {
        assert forall|x: int, y: int| #![trigger dv(dist@, w, x, y)] g.inside(x, y) implies dv(
            dist@,
            w,
            x,
            y,
        ) == INF by {
            lemma_cell_key_range(w, g.h as int, x, y);
        }
    }
    let mut c: usize = 0;
    while c < cores.len()
        invariant
            g == *grid,
            w == g.w,
            g.wf(),
            g.flow_sized(),
            c <= cores@.len(),
            lists_terrain(g, cores@, Terrain::Core),
            dist@.len() == g.cell_count(),
            next@.len() == g.cell_count(),
            forall|k: int| 0 <= k < g.cell_count() ==> next@[k] is None,
            q@ == cores@.subrange(0, c as int),
            forall|x: int, y: int|
                #![trigger dv(dist@, w, x, y)]
                g.inside(x, y) ==> (dv(dist@, w, x, y) == 0 <==> q@.contains((x as i32, y as i32)))
                    && (dv(dist@, w, x, y) == 0 || dv(dist@, w, x, y) == INF),
        decreases cores@.len() - c,
    {
        let (x, y) = cores[c];
        proof {
            lemma_cell_key_range(w, g.h as int, x as int, y as int);
        }
        let ci = grid.idx(x, y);
        let ghost before = dist@;
        let ghost bq = q@;
        dist.set(ci, 0);
        q.push((x, y));
        proof {
            assert(q@ =~= cores@.subrange(0, c + 1));
            assert forall|px: int, py: int| #![trigger dv(dist@, w, px, py)] g.inside(px, py) implies (dv(
                dist@,
                w,
                px,
                py,
            ) == 0 <==> q@.contains((px as i32, py as i32))) && (dv(dist@, w, px, py) == 0 || dv(
                dist@,
                w,
                px,
                py,
            ) == INF) by {
                lemma_same_key(g, px, py, x as int, y as int);
                if px == x && py == y {
                    assert(q@[q@.len() - 1] == (px as i32, py as i32));
                } else {
                    assert(dv(dist@, w, px, py) == dv(before, w, px, py));
                    if q@.contains((px as i32, py as i32)) {
                        let k = choose|k: int| 0 <= k < q@.len() && q@[k] == (px as i32, py as i32);
                        assert(k < q@.len() - 1);
                        assert(bq[k] == (px as i32, py as i32));
                    }
                    if dv(before, w, px, py) == 0 {
                        let k = choose|k: int| 0 <= k < bq.len() && bq[k] == (px as i32, py as i32);
                        assert(q@[k] == (px as i32, py as i32));
                    }
                }
            }
        }
        c = c + 1;
    }
    proof {
        assert(q@ =~= cores@);
        assert forall|j: int| 0 <= j < q@.len() implies g.inside(
            (#[trigger] q@[j]).0 as int,
            q@[j].1 as int,
        ) && dv(dist@, w, q@[j].0 as int, q@[j].1 as int) <= j by {
            assert(q@.contains(q@[j]));
        }
        assert forall|i: int, j: int| 0 <= i < j < q@.len() implies #[trigger] q@[i]
            != #[trigger] q@[j] && dv(dist@, w, q@[i].0 as int, q@[i].1 as int) <= dv(
            dist@,
            w,
            q@[j].0 as int,
            q@[j].1 as int,
        ) by {
            assert(row_before(q@[i], q@[j]));
            assert(q@.contains(q@[i]));
            assert(q@.contains(q@[j]));
        }
        assert forall|x: int, y: int| #![trigger dv(dist@, w, x, y)] g.inside(x, y) implies {
            &&& dv(dist@, w, x, y) <= INF
            &&& (dv(dist@, w, x, y) < INF ==> q@.contains((x as i32, y as i32)))
            &&& (dv(dist@, w, x, y) == 0 <==> is_core(g, x, y))
            &&& (0 < dv(dist@, w, x, y) < INF ==> !g.blocked(x, y))
            &&& steps_inward(g, dist@, next@, x, y)
        } by {
            lemma_cell_key_range(w, g.h as int, x, y);
            if is_core(g, x, y) {
                assert(g.terrain_of(x, y) == Terrain::Core);
                assert(cores@.contains((x as i32, y as i32)));
            }
            if dv(dist@, w, x, y) == 0 {
                let k = choose|k: int| 0 <= k < q@.len() && q@[k] == (x as i32, y as i32);
                assert(cores@[k] == (x as i32, y as i32));
            }
        }
        lemma_distinct_cells_fit(g, q@);
    }
    q
}

/// A finished search describes the flow field of the grid.
proof fn lemma_settled_flow(g: Grid, f: FlowField)
    requires
        g.wf(),
        g.flow_sized(),
        f.dist@.len() == g.cell_count(),
        f.next@.len() == g.cell_count(),
        settled(g, f.dist@, f.next@),
    ensures
        f.is_flow_of(g),
{
    let w = g.w as int;
    assert forall|x: int, y: int| #![trigger f.dist_of(g, x, y)] g.inside(x, y) implies {
        &&& f.dist_of(g, x, y) <= INF
        &&& (f.dist_of(g, x, y) < INF <==> reachable(g, x, y))
        &&& (f.dist_of(g, x, y) < INF ==> shortest(g, x, y, f.dist_of(g, x, y) as int))
        &&& (f.dist_of(g, x, y) == 0 <==> is_core(g, x, y))
        &&& steps_inward(g, f.dist@, f.next@, x, y)
    } by {
        assert(dv(f.dist@, w, x, y) == f.dist_of(g, x, y));
        if f.dist_of(g, x, y) < INF {
            let p = lemma_walk_to(g, f.dist@, f.next@, x, y);
            assert forall|p2: Seq<(int, int)>| #[trigger] is_walk(g, p2) && p2.last() == (x, y) implies p2.len()
                >= f.dist_of(g, x, y) + 1 by {
                lemma_walk_bound(g, f.dist@, f.next@, p2, p2.len() - 1);
            }
            assert(is_walk(g, p) && p.last() == (x, y));
        }
        if reachable(g, x, y) {
            let p2 = choose|p2: Seq<(int, int)>| #[trigger] is_walk(g, p2) && p2.last() == (x, y);
            lemma_walk_bound(g, f.dist@, f.next@, p2, p2.len() - 1);
        }
    }
}

#[verifier::spinoff_prover]
#[verifier::rlimit(80)]
proof fn lemma_start_relaxing(
    g: Grid,
    dist: Seq<u32>,
    next: Seq<Option<(i32, i32)>>,
    q: Seq<(i32, i32)>,
    head: int,
    x: i32,
    y: i32,
)
    requires
        g.wf(),
        g.flow_sized(),
        dist.len() == g.cell_count(),
        next.len() == g.cell_count(),
        0 <= head < q.len() <= g.cell_count(),
        q[head] == (x, y),
        queue_ok(g, dist, next, q),
        dv(dist, g.w as int, q[q.len() - 1].0 as int, q[q.len() - 1].1 as int) <= dv(
            dist,
            g.w as int,
            q[head].0 as int,
            q[head].1 as int,
        ) + 1,
        popped_closed(g, dist, q, head),
    ensures
        relaxing(g, dist, next, q, head + 1, x, y, dv(dist, g.w as int, x as int, y as int)),
        g.inside(x as int, y as int),
{
    let w = g.w as int;
    let d = dv(dist, w, x as int, y as int);
    assert(g.inside(x as int, y as int) && d <= head) by {
        reveal(queue_ok);
        assert(g.inside((q[head]).0 as int, q[head].1 as int));
    }
    assert forall|j: int| 0 <= j < head + 1 implies dv(dist, w, (#[trigger] q[j]).0 as int, q[j].1 as int)
        <= d by {
        reveal(queue_ok);
        if j < head {
            assert(q[j] != q[head]);
        }
    }
    assert forall|j: int| head + 1 <= j < q.len() implies d <= dv(
        dist,
        w,
        (#[trigger] q[j]).0 as int,
        q[j].1 as int,
    ) <= d + 1 by {
        reveal(queue_ok);
        assert(q[head] != q[j]);
        if j < q.len() - 1 {
            assert(q[j] != q[q.len() - 1]);
        }
    }
    assert(relaxing(g, dist, next, q, head + 1, x, y, d)) by {
        reveal(relaxing);
    }
}

proof fn lemma_finish_relaxing(
    g: Grid,
    dist: Seq<u32>,
    next: Seq<Option<(i32, i32)>>,
    q: Seq<(i32, i32)>,
    head: int,
    x: i32,
    y: i32,
    d: u32,
    nb: Seq<(i32, i32)>,
)
    requires
        relaxing(g, dist, next, q, head, x, y, d),
        nb == g.neighbor_cells(x as int, y as int),
        forall|m: int|
            0 <= m < nb.len() && !g.blocked((#[trigger] nb[m]).0 as int, nb[m].1 as int) ==> dv(
                dist,
                g.w as int,
                nb[m].0 as int,
                nb[m].1 as int,
            ) <= d + 1,
    ensures
        g.wf(),
        g.flow_sized(),
        dist.len() == g.cell_count(),
        next.len() == g.cell_count(),
        head <= q.len() <= g.cell_count(),
        queue_ok(g, dist, next, q),
        popped_closed(g, dist, q, head),
        head < q.len() ==> dv(dist, g.w as int, q[q.len() - 1].0 as int, q[q.len() - 1].1 as int)
            <= dv(dist, g.w as int, q[head].0 as int, q[head].1 as int) + 1,
{
    reveal(relaxing);
    reveal(popped_closed);
    let w = g.w as int;
    g.lemma_neighbor_cells(x as int, y as int);
    assert forall|j: int, ex: int, ey: int|
        #![trigger q[j], dv(dist, w, ex, ey)]
        0 <= j < head && g.inside(ex, ey) && adjacent((q[j].0 as int, q[j].1 as int), (ex, ey))
            && !g.blocked(ex, ey) implies dv(dist, w, ex, ey) <= dv(
            dist,
            w,
            q[j].0 as int,
            q[j].1 as int,
        ) + 1 by {
        if j == head - 1 {
            assert(nb.contains((ex as i32, ey as i32)));
            let m = choose|m: int| 0 <= m < nb.len() && nb[m] == (ex as i32, ey as i32);
            assert(!g.blocked(nb[m].0 as int, nb[m].1 as int));
        }
    }
    if head < q.len() {
        assert(d <= dv(dist, w, q[head].0 as int, q[head].1 as int));
        assert(dv(dist, w, q[q.len() - 1].0 as int, q[q.len() - 1].1 as int) <= d + 1);
    }
}

proof fn lemma_search_done(g: Grid, dist: Seq<u32>, next: Seq<Option<(i32, i32)>>, q: Seq<(i32, i32)>)
    requires
        g.wf(),
        g.flow_sized(),
        queue_ok(g, dist, next, q),
        popped_closed(g, dist, q, q.len() as int),
    ensures
        settled(g, dist, next),
{
    reveal(queue_ok);
    reveal(popped_closed);
    let w = g.w as int;
    assert forall|x: int, y: int| #![trigger dv(dist, w, x, y)] g.inside(x, y) implies (dv(dist, w, x, y)
        < INF ==> dv(dist, w, x, y) < g.cell_count()) by {
        if dv(dist, w, x, y) < INF {
            let j = choose|j: int| 0 <= j < q.len() && q[j] == (x as i32, y as i32);
            assert(dv(dist, w, q[j].0 as int, q[j].1 as int) <= j);
            lemma_distinct_cells_fit(g, q);
        }
    }
    assert forall|cx: int, cy: int, ex: int, ey: int|
        #![trigger dv(dist, w, cx, cy), dv(dist, w, ex, ey)]
        g.inside(cx, cy) && g.inside(ex, ey) && dv(dist, w, cx, cy) < INF && adjacent(
            (cx, cy),
            (ex, ey),
        ) && !g.blocked(ex, ey) implies dv(dist, w, ex, ey) <= dv(dist, w, cx, cy) + 1 by {
        let j = choose|j: int| 0 <= j < q.len() && q[j] == (cx as i32, cy as i32);
        assert(q[j] == (cx as i32, cy as i32));
    }
}

impl FlowField {
    pub fn compute(grid: &Grid) -> (f: FlowField)
        requires
            grid.wf(),
            grid.flow_sized(),
        ensures
            f.is_flow_of(*grid),
    {
        let ghost g = *grid;
        let ghost w = grid.w as int;
        proof {
            grid.lemma_wf();
        }
        let n = (grid.w * grid.h) as usize;
        let mut dist: Vec<u32> = Vec::new();
        let mut next: Vec<Option<(i32, i32)>> = Vec::new();
        let mut i: usize = 0;
        while i < n
            invariant
                i <= n,
                n == g.cell_count(),
                dist@.len() == i,
                next@.len() == i,
                forall|k: int| 0 <= k < i ==> dist@[k] == INF,
                forall|k: int| 0 <= k < i ==> next@[k] is None,
            decreases n - i,
        {
            dist.push(INF);
            next.push(None);
            i = i + 1;
        }
        let mut q = seed_relays(grid, &mut dist, &next);
        proof {
            reveal(popped_closed);
            if q@.len() > 0 {
                assert(dv(dist@, w, q@[q@.len() - 1].0 as int, q@[q@.len() - 1].1 as int) == 0);
                assert(dv(dist@, w, q@[0].0 as int, q@[0].1 as int) == 0);
            }
        }
        let mut head: usize = 0;
        while head < q.len()
            invariant
                g == *grid,
                w == g.w,
                g.wf(),
                g.flow_sized(),
                dist@.len() == n,
                next@.len() == n,
                n == g.cell_count(),
                head <= q@.len() <= n,
                queue_ok(g, dist@, next@, q@),
                head < q@.len() ==> dv(dist@, w, q@[q@.len() - 1].0 as int, q@[q@.len() - 1].1 as int)
                    <= dv(dist@, w, q@[head as int].0 as int, q@[head as int].1 as int) + 1,
                popped_closed(g, dist@, q@, head as int),
            decreases n - head,
        {
            let (x, y) = q[head];
            proof {
                lemma_start_relaxing(g, dist@, next@, q@, head as int, x, y);
                lemma_cell_key_range(w, g.h as int, x as int, y as int);
            }
            head = head + 1;
            let d = dist[grid.idx(x, y)];
            let nb = grid.neighbors4(x, y);
            proof {
                grid.lemma_neighbor_cells(x as int, y as int);
            }
            let mut k: usize = 0;
            while k < nb.len()
                invariant
                    g == *grid,
                    w == g.w,
                    relaxing(g, dist@, next@, q@, head as int, x, y, d),
                    nb@ == g.neighbor_cells(x as int, y as int),
                    k <= nb@.len(),
                    forall|m: int|
                        0 <= m < nb@.len() ==> g.inside(
                            (#[trigger] nb@[m]).0 as int,
                            nb@[m].1 as int,
                        ) && adjacent((x as int, y as int), (nb@[m].0 as int, nb@[m].1 as int)),
                    forall|m: int|
                        0 <= m < k && !g.blocked(
                            (#[trigger] nb@[m]).0 as int,
                            nb@[m].1 as int,
                        ) ==> dv(dist@, w, nb@[m].0 as int, nb@[m].1 as int) <= d + 1,
                decreases nb@.len() - k,
            {
                let (nx, ny) = nb[k];
                let ghost od = dist@;
                relax(grid, &mut dist, &mut next, &mut q, head, x, y, d, nx, ny);
                proof {
                    assert forall|m: int|
                        0 <= m < k + 1 && !g.blocked(
                            (#[trigger] nb@[m]).0 as int,
                            nb@[m].1 as int,
                        ) implies dv(dist@, w, nb@[m].0 as int, nb@[m].1 as int) <= d + 1 by {
                        if m < k {
                            assert(dv(od, w, nb@[m].0 as int, nb@[m].1 as int) <= d + 1);
                        }
                    }
                }
                k = k + 1;
            }
            proof {
                lemma_finish_relaxing(g, dist@, next@, q@, head as int, x, y, d, nb@);
            }
        }
        proof {
            lemma_search_done(g, dist@, next@, q@);
        }
        let f = FlowField { dist, next };
        proof {
            lemma_settled_flow(g, f);
        }
        f
    }
}


/// A grid position written as a pair of numbers.
pub open spec fn pt(c: [i32; 2]) -> (int, int) {
    (c[0] as int, c[1] as int)
}

impl FlowField {
    /// Distance of a cell; off the grid, `INF`.
    pub open spec fn dist_or_inf(&self, g: Grid, x: int, y: int) -> u32 {
        if g.inside(x, y) {
            self.dist_of(g, x, y)
        } else {
            INF
        }
    }

    /// Step of a cell; off the grid, none.
    pub open spec fn next_or_none(&self, g: Grid, x: int, y: int) -> Option<(i32, i32)> {
        if g.inside(x, y) {
            self.next_of(g, x, y)
        } else {
            None
        }
    }

    /// The route traced from `(x, y)` by following stored steps, at most `fuel` of them; it
    /// stops at a relay, at a cell without a step, or at a step that goes nowhere.
    pub open spec fn trail(&self, g: Grid, x: int, y: int, fuel: nat) -> Seq<(int, int)>
        decreases fuel,
    {
        if fuel == 0 || self.dist_or_inf(g, x, y) == 0 {
            seq![(x, y)]
        } else {
            match self.next_or_none(g, x, y) {
                Some(s) => if s.0 == x && s.1 == y {
                    seq![(x, y)]
                } else {
                    seq![(x, y)] + self.trail(g, s.0 as int, s.1 as int, (fuel - 1) as nat)
                },
                None => seq![(x, y)],
            }
        }
    }

    pub fn dist_at(&self, grid: &Grid, x: i32, y: i32) -> (r: u32)
        requires
            self.is_flow_of(*grid),
        ensures
            r == self.dist_or_inf(*grid, x as int, y as int),
    {
        match grid.try_idx(x, y) {
            Some(i) => self.dist[i],
            None => INF,
        }
    }

    pub fn next_at(&self, grid: &Grid, x: i32, y: i32) -> (r: Option<(i32, i32)>)
        requires
            self.is_flow_of(*grid),
        ensures
            r == self.next_or_none(*grid, x as int, y as int),
    {
        match grid.try_idx(x, y) {
            Some(i) => self.next[i],
            None => None,
        }
    }

    /// Every spawn cell can walk to a relay.
    pub fn spawns_reachable(&self, grid: &Grid) -> (r: bool)
        requires
            self.is_flow_of(*grid),
        ensures
            r == (forall|x: int, y: int|
                grid.inside(x, y) && #[trigger] grid.terrain_of(x, y) == Terrain::Spawn ==> reachable(
                    *grid,
                    x,
                    y,
                )),
    {
        let spawns = grid.spawns();
        let mut i: usize = 0;
        while i < spawns.len()
            invariant
                self.is_flow_of(*grid),
                lists_terrain(*grid, spawns@, Terrain::Spawn),
                i <= spawns@.len(),
                forall|k: int|
                    0 <= k < i ==> reachable(
                        *grid,
                        (#[trigger] spawns@[k]).0 as int,
                        spawns@[k].1 as int,
                    ),
            decreases spawns@.len() - i,
        {
            let (x, y) = spawns[i];
            assert(grid.inside(x as int, y as int));
            if self.dist_at(grid, x, y) >= INF {
                assert(self.dist_of(*grid, x as int, y as int) == INF);
                return false;
            }
            i = i + 1;
        }
        proof {
            assert forall|x: int, y: int|
                grid.inside(x, y) && #[trigger] grid.terrain_of(x, y) == Terrain::Spawn implies reachable(
                *grid,
                x,
                y,
            ) by {
                assert(spawns@.contains((x as i32, y as i32)));
                let k = choose|k: int| 0 <= k < spawns@.len() && spawns@[k] == (x as i32, y as i32);
                assert(reachable(*grid, spawns@[k].0 as int, spawns@[k].1 as int));
            }
        }
        true
    }

    pub fn cell_reachable(&self, grid: &Grid, x: i32, y: i32) -> (r: bool)
        requires
            self.is_flow_of(*grid),
        ensures
            r == (grid.inside(x as int, y as int) && reachable(*grid, x as int, y as int)),
    {
        let d = self.dist_at(grid, x, y);
        proof {
            if grid.inside(x as int, y as int) {
                assert(self.dist_of(*grid, x as int, y as int) <= INF);
            }
        }
        d < INF
    }

    /// The longest walk from a spawn that can reach a relay, in steps; 0 when none can.
    pub fn max_spawn_dist(&self, grid: &Grid) -> (r: u32)
        requires
            self.is_flow_of(*grid),
        ensures
            forall|x: int, y: int|
                grid.inside(x, y) && grid.terrain_of(x, y) == Terrain::Spawn && #[trigger] self.dist_of(
                    *grid,
                    x,
                    y,
                ) < INF ==> self.dist_of(*grid, x, y) <= r,
            r == 0 || exists|x: int, y: int|
                grid.inside(x, y) && grid.terrain_of(x, y) == Terrain::Spawn && #[trigger] self.dist_of(
                    *grid,
                    x,
                    y,
                ) == r,
            r < INF,
    {
        let spawns = grid.spawns();
        let mut best: u32 = 0;
        let mut i: usize = 0;
        while i < spawns.len()
            invariant
                self.is_flow_of(*grid),
                lists_terrain(*grid, spawns@, Terrain::Spawn),
                i <= spawns@.len(),
                best < INF,
                forall|k: int|
                    0 <= k < i && self.dist_of(
                        *grid,
                        (#[trigger] spawns@[k]).0 as int,
                        spawns@[k].1 as int,
                    ) < INF ==> self.dist_of(*grid, spawns@[k].0 as int, spawns@[k].1 as int) <= best,
                best == 0 || exists|x: int, y: int|
                    grid.inside(x, y) && grid.terrain_of(x, y) == Terrain::Spawn
                        && #[trigger] self.dist_of(*grid, x, y) == best,
            decreases spawns@.len() - i,
        {
            let (x, y) = spawns[i];
            assert(grid.inside(x as int, y as int));
            let d = self.dist_at(grid, x, y);
            if d < INF && d > best {
                best = d;
                assert(self.dist_of(*grid, x as int, y as int) == best);
            }
            i = i + 1;
        }
        proof {
            assert forall|x: int, y: int|
                grid.inside(x, y) && grid.terrain_of(x, y) == Terrain::Spawn && #[trigger] self.dist_of(
                    *grid,
                    x,
                    y,
                ) < INF implies self.dist_of(*grid, x, y) <= best by {
                assert(spawns@.contains((x as i32, y as i32)));
                let k = choose|k: int| 0 <= k < spawns@.len() && spawns@[k] == (x as i32, y as i32);
                assert(self.dist_of(*grid, spawns@[k].0 as int, spawns@[k].1 as int) < INF);
            }
        }
        best
    }

    /// The route from `(x, y)` toward the relay, following stored steps for at most 512
    /// steps.
    pub fn path_from(&self, grid: &Grid, x: i32, y: i32) -> (r: Vec<[i32; 2]>)
        requires
            self.is_flow_of(*grid),
        ensures
            r@.map_values(|c: [i32; 2]| pt(c)) == self.trail(*grid, x as int, y as int, 512),
    {
        let mut out: Vec<[i32; 2]> = Vec::new();
        out.push([x, y]);
        let mut cx = x;
        let mut cy = y;
        let mut i: u32 = 0;
        let ghost start = (x as int, y as int);
        while i < 512
            invariant
                self.is_flow_of(*grid),
                i <= 512,
                out@.len() >= 1,
                out@.len() == i + 1,
                pt(out@[out@.len() - 1]) == (cx as int, cy as int),
                self.trail(*grid, x as int, y as int, 512) == out@.subrange(
                    0,
                    out@.len() - 1,
                ).map_values(|c: [i32; 2]| pt(c)) + self.trail(
                    *grid,
                    cx as int,
                    cy as int,
                    (512 - i) as nat,
                ),
            ensures
                out@.map_values(|c: [i32; 2]| pt(c)) == self.trail(*grid, x as int, y as int, 512),
            decreases 512 - i,
        {
            if self.dist_at(grid, cx, cy) == 0 {
                break ;
            }
            match self.next_at(grid, cx, cy) {
                Some((nx, ny)) => {
                    if nx == cx && ny == cy {
                        break ;
                    }
                    let ghost before = out@;
                    cx = nx;
                    cy = ny;
                    out.push([cx, cy]);
                    proof {
                        assert(out@.subrange(0, out@.len() - 1) == before);
                    }
                },
                None => break ,
            }
            i = i + 1;
        }
        out
    }
}

impl FlowField {
    /// The routes traced from the given cells, at most 512 steps each, keeping only those
    /// that move at least once.
    pub open spec fn kept_trails(&self, g: Grid, hs: Seq<(i32, i32)>) -> Seq<Seq<(int, int)>>
        decreases hs.len(),
    {
        if hs.len() == 0 {
            seq![]
        } else {
            let rest = self.kept_trails(g, hs.drop_last());
            let t = self.trail(g, hs.last().0 as int, hs.last().1 as int, 512);
            if t.len() > 1 {
                rest.push(t)
            } else {
                rest
            }
        }
    }

    /// The walks ground takes into the relay: one route per group of edge-touching spawn
    /// cells, traced from the group's first cell in row-major order; groups already standing
    /// on the relay, or cut off from it, give none.
    pub fn spawn_paths(&self, grid: &Grid) -> (r: Vec<Vec<[i32; 2]>>)
        requires
            self.is_flow_of(*grid),
        ensures
            exists|groups: Seq<Seq<usize>>|
                {
                    &&& is_clustering(listing(*grid, Terrain::Spawn), groups)
                    &&& r@.map_values(|p: Vec<[i32; 2]>| p@.map_values(|c: [i32; 2]| pt(c)))
                        == self.kept_trails(
                        *grid,
                        groups.map_values(
                            |grp: Seq<usize>| listing(*grid, Terrain::Spawn)[grp[0] as int],
                        ),
                    )
                },
    {
        let spawns = grid.spawns();
        proof {
            lemma_listing(*grid, spawns@, Terrain::Spawn);
        }
        let groups = clusters(&spawns);
        let ghost gs = groups@.map_values(|v: Vec<usize>| v@);
        let ghost hs = gs.map_values(|grp: Seq<usize>| spawns@[grp[0] as int]);
        let mut out: Vec<Vec<[i32; 2]>> = Vec::new();
        let mut g: usize = 0;
        while g < groups.len()
            invariant
                self.is_flow_of(*grid),
                is_clustering(spawns@, gs),
                gs == groups@.map_values(|v: Vec<usize>| v@),
                hs == gs.map_values(|grp: Seq<usize>| spawns@[grp[0] as int]),
                g <= groups@.len(),
                out@.map_values(|p: Vec<[i32; 2]>| p@.map_values(|c: [i32; 2]| pt(c)))
                    == self.kept_trails(*grid, hs.take(g as int)),
            decreases groups@.len() - g,
        {
            assert(groups@[g as int]@ == gs[g as int]);
            assert(is_cluster(spawns@, gs[g as int]));
            proof {
                lemma_linked_inside(spawns@, gs[g as int][0] as int, gs[g as int][0] as int);
            }
            let head = spawns[groups[g][0]];
            let p = self.path_from(grid, head.0, head.1);
            let ghost before = out@;
            proof {
                assert(hs.take(g + 1).drop_last() == hs.take(g as int));
                assert(hs.take(g + 1).last() == head);
            }
            if p.len() > 1 {
                out.push(p);
                proof {
                    assert(out@.map_values(|p: Vec<[i32; 2]>| p@.map_values(|c: [i32; 2]| pt(c)))
                        == before.map_values(|p: Vec<[i32; 2]>| p@.map_values(|c: [i32; 2]| pt(c))).push(
                        p@.map_values(|c: [i32; 2]| pt(c)),
                    ));
                }
            }
            g = g + 1;
        }
        assert(hs.take(groups@.len() as int) == hs);
        out
    }
}

/// Law: a cell that can reach a relay within `fuel` steps traces a route of exactly its
/// distance, each step to an edge neighbour, ending on a relay cell.
pub proof fn law_trail_reaches_the_relay(f: FlowField, g: Grid, x: int, y: int, fuel: nat)
    requires
        f.is_flow_of(g),
        g.inside(x, y),
        f.dist_of(g, x, y) < INF,
        f.dist_of(g, x, y) <= fuel,
    ensures
        f.trail(g, x, y, fuel).len() == f.dist_of(g, x, y) + 1,
        f.trail(g, x, y, fuel)[0] == (x, y),
        is_core(g, f.trail(g, x, y, fuel).last().0, f.trail(g, x, y, fuel).last().1),
        forall|k: int|
            0 <= k < f.trail(g, x, y, fuel).len() - 1 ==> adjacent(
                #[trigger] f.trail(g, x, y, fuel)[k],
                f.trail(g, x, y, fuel)[k + 1],
            ),
    decreases fuel,
{
    let d = f.dist_of(g, x, y);
    assert(steps_inward(g, f.dist@, f.next@, x, y));
    if d == 0 {
    } else {
        let s = f.next_of(g, x, y)->0;
        assert(g.inside(s.0 as int, s.1 as int));
        assert(f.dist_of(g, s.0 as int, s.1 as int) + 1 == d);
        law_trail_reaches_the_relay(f, g, s.0 as int, s.1 as int, (fuel - 1) as nat);
        let rest = f.trail(g, s.0 as int, s.1 as int, (fuel - 1) as nat);
        let t = f.trail(g, x, y, fuel);
        assert(t == seq![(x, y)] + rest);
        assert forall|k: int| 0 <= k < t.len() - 1 implies adjacent(#[trigger] t[k], t[k + 1]) by {
            if k > 0 {
                assert(t[k] == rest[k - 1]);
                assert(t[k + 1] == rest[k]);
            }
        }
    }
}


/// A relay cell is reached by the walk that stands on it.
pub proof fn lemma_relay_reached(g: Grid, x: int, y: int)
    requires
        is_core(g, x, y),
    ensures
        reachable(g, x, y),
{
    let p = seq![(x, y)];
    assert(is_walk(g, p) && p.last() == (x, y));
}

/// One step from a reached cell onto an edge neighbour that ground can stand on.
pub proof fn lemma_walk_step(g: Grid, ax: int, ay: int, bx: int, by: int)
    requires
        reachable(g, ax, ay),
        adjacent((ax, ay), (bx, by)),
        !g.blocked(bx, by),
    ensures
        reachable(g, bx, by),
{
    let p = choose|p: Seq<(int, int)>| #[trigger] is_walk(g, p) && p.last() == (ax, ay);
    let q = p.push((bx, by));
    assert forall|k: int| #![trigger q[k]] 1 <= k < q.len() implies !g.blocked(q[k].0, q[k].1)
        && adjacent(q[k - 1], q[k]) by {
        if k < q.len() - 1 {
            assert(q[k] == p[k]);
            assert(q[k - 1] == p[k - 1]);
        }
    }
    assert(is_walk(g, q) && q.last() == (bx, by));
}

/// `(x, y)` lies on the straight run of cells from `(ax, ay)` to `(bx, by)`, which share a
/// row or a column.
pub open spec fn on_run(ax: int, ay: int, bx: int, by: int, x: int, y: int) -> bool {
    if ay == by {
        y == ay && ((ax <= x <= bx) || (bx <= x <= ax))
    } else {
        x == ax && ((ay <= y <= by) || (by <= y <= ay))
    }
}

/// From a reached cell, a straight run along a row or a column of cells that ground can
/// stand on is reached all along.
pub proof fn lemma_walk_run(g: Grid, ax: int, ay: int, bx: int, by: int)
    requires
        reachable(g, ax, ay),
        ax == bx || ay == by,
        forall|x: int, y: int| on_run(ax, ay, bx, by, x, y) ==> !g.blocked(x, y),
    ensures
        forall|x: int, y: int| on_run(ax, ay, bx, by, x, y) ==> #[trigger] reachable(g, x, y),
    decreases (if ax <= bx { bx - ax } else { ax - bx }) + (if ay <= by { by - ay } else { ay - by }),
{
    if ax == bx && ay == by {
    } else {
        let nx = if ax < bx { ax + 1 } else if ax > bx { ax - 1 } else { ax };
        let ny = if ax != bx { ay } else if ay < by { ay + 1 } else { ay - 1 };
        assert(on_run(ax, ay, bx, by, nx, ny));
        lemma_walk_step(g, ax, ay, nx, ny);
        assert forall|x: int, y: int| on_run(nx, ny, bx, by, x, y) implies !g.blocked(x, y) by {
            assert(on_run(ax, ay, bx, by, x, y));
        }
        lemma_walk_run(g, nx, ny, bx, by);
        assert forall|x: int, y: int| on_run(ax, ay, bx, by, x, y) implies #[trigger] reachable(
            g,
            x,
            y,
        ) by {
            if x != ax || y != ay {
                assert(on_run(nx, ny, bx, by, x, y));
            }
        }
    }
}

} // verus!
