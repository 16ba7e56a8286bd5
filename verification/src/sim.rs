//! The whole-number decisions of a match: how a wave is mustered at the spawns, how far a
//! blinking creep hops along the walk, what interest the bank pays, and when the relay can be
//! patched.

use vstd::prelude::*;
use crate::defs::{BuildKind, CreepKind, HELIOS_CONVERT_COST, OVERCHARGE_COST, REPAIR_COST};
use crate::modifiers::Modifier;
use crate::director::{plan_kinds, plan_total, WavePlan};
use crate::grid::{lemma_listing, lemma_listing_lists, listing, row_before, Grid, Terrain};
use crate::path::{lemma_distinct_cells_fit, FlowField};
use crate::orders::Order;
use crate::placement::PlaceError;
use crate::rng::{advanced, in_range, mixed, Rng};

verus! {

broadcast use vstd::seq_lib::group_seq_properties;

/// One creep of a wave and the spawn cell it enters at.
#[derive(Clone, Copy, Debug)]
pub struct SpawnOrder {
    pub kind: CreepKind,
    pub spawn: (i32, i32),
}

/// `v` with the entries at `i` and `j` exchanged.
pub open spec fn swapped<T>(v: Seq<T>, i: int, j: int) -> Seq<T> {
    v.update(i, v[j]).update(j, v[i])
}

/// Fisher–Yates from position `i` down to 1: each position trades places with one drawn
/// from those at or before it. Gives the shuffled list and the generator's state after.
pub open spec fn shuffle_down(v: Seq<CreepKind>, i: nat, s: u64) -> (Seq<CreepKind>, u64)
    decreases i,
{
    if i == 0 {
        (v, s)
    } else {
        let s2 = advanced(s);
        let j = in_range(mixed(s2), 0, (i + 1) as i32);
        shuffle_down(swapped(v, i as int, j as int), (i - 1) as nat, s2)
    }
}

/// The spawn order of a wave: its creeps shuffled by the generator in state `s`.
pub open spec fn shuffled(v: Seq<CreepKind>, s: u64) -> (Seq<CreepKind>, u64) {
    if v.len() > 1 {
        shuffle_down(v, (v.len() - 1) as nat, s)
    } else {
        (v, s)
    }
}

/// Which edge of the battlefield a spawn cell lies on: 0 north, 1 east, 2 west, 3 south.
pub open spec fn on_side(c: (i32, i32), side: int, w: i32, h: i32) -> bool {
    if side == 0 {
        c.1 == 0
    } else if side == 1 {
        c.0 == w - 1
    } else if side == 2 {
        c.0 == 0
    } else {
        c.1 == h - 1
    }
}

pub open spec fn side_pred(side: int, w: i32, h: i32) -> spec_fn((i32, i32)) -> bool {
    |c: (i32, i32)| on_side(c, side, w, h)
}

/// The spawn cells on one edge, in row-major order.
pub open spec fn side_cells(g: Grid, side: int) -> Seq<(i32, i32)> {
    listing(g, Terrain::Spawn).filter(side_pred(side, g.w, g.h))
}

pub open spec fn if_any(p: Seq<(i32, i32)>) -> Seq<Seq<(i32, i32)>> {
    if p.len() > 0 {
        seq![p]
    } else {
        seq![]
    }
}

/// The pools creeps are dealt to in turn: the spawn cells of each edge that has any, north,
/// east, west, south; all spawn cells when no edge has one.
pub open spec fn spawn_pools(g: Grid) -> Seq<Seq<(i32, i32)>> {
    let sides = if_any(side_cells(g, 0)) + if_any(side_cells(g, 1)) + if_any(side_cells(g, 2))
        + if_any(side_cells(g, 3));
    if sides.len() == 0 {
        seq![listing(g, Terrain::Spawn)]
    } else {
        sides
    }
}

/// The cell drawn for one creep: one of its pool, else one of all spawn cells, else `(0, 0)`
/// without a draw. Gives the cell and the generator's state after.
pub open spec fn pick_spawn(pool: Seq<(i32, i32)>, all: Seq<(i32, i32)>, s: u64) -> ((i32, i32), u64) {
    if pool.len() > 0 {
        (pool[in_range(mixed(advanced(s)), 0, pool.len() as i32) as int], advanced(s))
    } else if all.len() > 0 {
        (all[in_range(mixed(advanced(s)), 0, all.len() as i32) as int], advanced(s))
    } else {
        ((0, 0), s)
    }
}

/// Deals the creeps to the pools in turn, the `k`-th creep to pool `k` modulo their number,
/// and draws a cell for each. Gives the orders and the generator's state after.
pub open spec fn dealt(
    kinds: Seq<CreepKind>,
    pools: Seq<Seq<(i32, i32)>>,
    all: Seq<(i32, i32)>,
    s: u64,
) -> (Seq<SpawnOrder>, u64)
    decreases kinds.len(),
{
    if kinds.len() == 0 {
        (seq![], s)
    } else {
        let before = dealt(kinds.drop_last(), pools, all, s);
        let k = kinds.len() - 1;
        let got = pick_spawn(pools[k % pools.len() as int], all, before.1);
        (before.0.push(SpawnOrder { kind: kinds.last(), spawn: got.0 }), got.1)
    }
}

/// The mustered wave of `plan` on `g` with the generator in state `s`, and its state after.
pub open spec fn mustered(plan: WavePlan, g: Grid, s: u64) -> (Seq<SpawnOrder>, u64) {
    let order = shuffled(plan_kinds(plan), s);
    dealt(order.0, spawn_pools(g), listing(g, Terrain::Spawn), order.1)
}

fn side_list(spawns: &Vec<(i32, i32)>, side: u8, w: i32, h: i32) -> (r: Vec<(i32, i32)>)
    requires
        side < 4,
    ensures
        r@ == spawns@.filter(side_pred(side as int, w, h)),
{
    let ghost pred = side_pred(side as int, w, h);
    let mut out: Vec<(i32, i32)> = Vec::new();
    let mut k: usize = 0;
    while k < spawns.len()
        invariant
            side < 4,
            k <= spawns@.len(),
            pred == side_pred(side as int, w, h),
            out@ == spawns@.take(k as int).filter(pred),
        decreases spawns@.len() - k,
    {
        let c = spawns[k];
        let keep = if side == 0 {
            c.1 == 0
        } else if side == 1 {
            c.0 as i64 == w as i64 - 1
        } else if side == 2 {
            c.0 == 0
        } else {
            c.1 as i64 == h as i64 - 1
        };
        proof {
            assert(spawns@.take(k + 1) == spawns@.take(k as int).push(c));
            spawns@.take(k as int).lemma_filter_push(c, pred);
            assert(keep == pred(c));
        }
        if keep {
            out.push(c);
        }
        k = k + 1;
    }
    assert(spawns@.take(spawns@.len() as int) == spawns@);
    out
}

proof fn lemma_swap_keeps_kinds(v: Seq<CreepKind>, i: int, j: int)
    requires
        0 <= i < v.len(),
        0 <= j < v.len(),
    ensures
        swapped(v, i, j).to_multiset() == v.to_multiset(),
        swapped(v, i, j).len() == v.len(),
{
    broadcast use vstd::multiset::group_multiset_axioms;
    broadcast use vstd::seq_lib::to_multiset_update;
    let a = v.update(i, v[j]);
    assert(a.to_multiset() == v.to_multiset().insert(v[j]).remove(v[i]));
    assert(swapped(v, i, j).to_multiset() == a.to_multiset().insert(v[i]).remove(a[j]));
    if i == j {
        assert(swapped(v, i, j) =~= v);
    } else {
        assert(a[j] == v[j]);
        assert(v.to_multiset().count(v[i]) >= 1);
        assert(v.to_multiset().insert(v[j]).remove(v[i]).insert(v[i]).remove(v[j]) =~= v.to_multiset());
    }
}

/// Shuffling keeps every creep of the wave, each as often as before.
proof fn lemma_shuffle_keeps_kinds(v: Seq<CreepKind>, i: nat, s: u64)
    requires
        i < v.len(),
        v.len() <= i32::MAX,
    ensures
        shuffle_down(v, i, s).0.to_multiset() == v.to_multiset(),
        shuffle_down(v, i, s).0.len() == v.len(),
    decreases i,
{
    if i > 0 {
        let s2 = advanced(s);
        let j = in_range(mixed(s2), 0, (i + 1) as i32);
        assert(0 <= j < i + 1) by {
            assert(mixed(s2) % ((i + 1) as u64) < (i + 1) as u64);
        }
        lemma_swap_keeps_kinds(v, i as int, j as int);
        lemma_shuffle_keeps_kinds(swapped(v, i as int, j as int), (i - 1) as nat, s2);
    }
}

/// Dealing gives one order per creep, in order and of its kind, at a cell of its pool, of all
/// spawn cells, or, with no spawn cells at all, at `(0, 0)`.
proof fn lemma_dealt_orders(
    kinds: Seq<CreepKind>,
    pools: Seq<Seq<(i32, i32)>>,
    all: Seq<(i32, i32)>,
    s: u64,
)
    requires
        pools.len() >= 1,
        forall|p: int, q: int| 0 <= p < pools.len() && 0 <= q < pools[p].len() ==> all.contains(
            #[trigger] pools[p][q],
        ),
        forall|p: int| 0 <= p < pools.len() ==> (#[trigger] pools[p]).len() <= i32::MAX,
        all.len() <= i32::MAX,
    ensures
        dealt(kinds, pools, all, s).0.len() == kinds.len(),
        forall|k: int|
            0 <= k < kinds.len() ==> (#[trigger] dealt(kinds, pools, all, s).0[k]).kind == kinds[k],
        forall|k: int|
            0 <= k < kinds.len() ==> all.contains((#[trigger] dealt(kinds, pools, all, s).0[k]).spawn)
                || (all.len() == 0 && dealt(kinds, pools, all, s).0[k].spawn == (0i32, 0i32)),
    decreases kinds.len(),
{
    if kinds.len() > 0 {
        let before = dealt(kinds.drop_last(), pools, all, s);
        lemma_dealt_orders(kinds.drop_last(), pools, all, s);
        let k = kinds.len() - 1;
        let p = k % pools.len() as int;
        let pool = pools[p];
        let got = pick_spawn(pool, all, before.1);
        if pool.len() > 0 {
            let q = in_range(mixed(advanced(before.1)), 0, pool.len() as i32) as int;
            assert(0 <= q < pool.len()) by {
                assert(mixed(advanced(before.1)) % (pool.len() as u64) < pool.len() as u64);
            }
            assert(all.contains(pools[p][q]));
        } else if all.len() > 0 {
            let q = in_range(mixed(advanced(before.1)), 0, all.len() as i32) as int;
            assert(0 <= q < all.len()) by {
                assert(mixed(advanced(before.1)) % (all.len() as u64) < all.len() as u64);
            }
        }
        let d = dealt(kinds, pools, all, s).0;
        assert forall|m: int| 0 <= m < kinds.len() implies (#[trigger] d[m]).kind == kinds[m] by {
            if m < k {
                assert(d[m] == before.0[m]);
            }
        }
        assert forall|m: int|
            0 <= m < kinds.len() implies all.contains((#[trigger] d[m]).spawn) || (all.len() == 0
            && d[m].spawn == (0i32, 0i32)) by {
            if m < k {
                assert(d[m] == before.0[m]);
            }
        }
    }
}

/// Every pool holds spawn cells only, and no more of them than there are spawn cells.
proof fn lemma_pools_from_spawns(g: Grid)
    ensures
        spawn_pools(g).len() >= 1,
        forall|p: int, q: int|
            0 <= p < spawn_pools(g).len() && 0 <= q < spawn_pools(g)[p].len() ==> listing(
                g,
                Terrain::Spawn,
            ).contains(#[trigger] spawn_pools(g)[p][q]),
        forall|p: int|
            0 <= p < spawn_pools(g).len() ==> (#[trigger] spawn_pools(g)[p]).len() <= listing(
                g,
                Terrain::Spawn,
            ).len(),
{
    let all = listing(g, Terrain::Spawn);
    let pools = spawn_pools(g);
    assert forall|side: int| 0 <= side < 4 implies (forall|c: (i32, i32)| #[trigger] side_cells(g, side).contains(c) ==> all.contains(c))
        && side_cells(g, side).len() <= all.len() by {
        let pred = side_pred(side, g.w, g.h);
        all.lemma_filter_len(pred);
        assert forall|c: (i32, i32)| #[trigger] side_cells(g, side).contains(c) implies all.contains(c) by {
            all.lemma_filter_contains_rev(pred, c);
        }
    }
    let sides = if_any(side_cells(g, 0)) + if_any(side_cells(g, 1)) + if_any(side_cells(g, 2))
        + if_any(side_cells(g, 3));
    assert forall|p: int| 0 <= p < sides.len() implies exists|side: int| 0 <= side < 4 && #[trigger] sides[p] == side_cells(g, side) by {
        let a = if_any(side_cells(g, 0));
        let b = if_any(side_cells(g, 1));
        let c = if_any(side_cells(g, 2));
        let d = if_any(side_cells(g, 3));
        if p < a.len() {
            assert(sides[p] == side_cells(g, 0));
        } else if p < a.len() + b.len() {
            assert(sides[p] == side_cells(g, 1));
        } else if p < a.len() + b.len() + c.len() {
            assert(sides[p] == side_cells(g, 2));
        } else {
            assert(sides[p] == side_cells(g, 3));
        }
    }
    assert forall|p: int, q: int|
        0 <= p < pools.len() && 0 <= q < pools[p].len() implies all.contains(#[trigger] pools[p][q]) by {
        if sides.len() > 0 {
            let side = choose|side: int| 0 <= side < 4 && #[trigger] sides[p] == side_cells(g, side);
            assert(side_cells(g, side).contains(pools[p][q]));
        } else {
            assert(pools[p] == all);
        }
    }
    assert forall|p: int| 0 <= p < pools.len() implies (#[trigger] pools[p]).len() <= all.len() by {
        if sides.len() > 0 {
            let side = choose|side: int| 0 <= side < 4 && #[trigger] sides[p] == side_cells(g, side);
        }
    }
}

/// The spawn pools of the battlefield, from its row-major list of spawn cells.
fn pool_list(grid: &Grid, spawns: &Vec<(i32, i32)>) -> (r: Vec<Vec<(i32, i32)>>)
    requires
        grid.wf(),
        spawns@ == listing(*grid, Terrain::Spawn),
    ensures
        r@.map_values(|p: Vec<(i32, i32)>| p@) == spawn_pools(*grid),
{
    let north = side_list(spawns, 0, grid.w, grid.h);
    let east = side_list(spawns, 1, grid.w, grid.h);
    let west = side_list(spawns, 2, grid.w, grid.h);
    let south = side_list(spawns, 3, grid.w, grid.h);
    let ghost a = if_any(side_cells(*grid, 0));
    let ghost b = if_any(side_cells(*grid, 1));
    let ghost c = if_any(side_cells(*grid, 2));
    let ghost d = if_any(side_cells(*grid, 3));
    let mut pools: Vec<Vec<(i32, i32)>> = Vec::new();
    if north.len() > 0 {
        pools.push(north);
    }
    assert(pools@.map_values(|p: Vec<(i32, i32)>| p@) =~= a);
    if east.len() > 0 {
        pools.push(east);
    }
    assert(pools@.map_values(|p: Vec<(i32, i32)>| p@) =~= a + b);
    if west.len() > 0 {
        pools.push(west);
    }
    assert(pools@.map_values(|p: Vec<(i32, i32)>| p@) =~= a + b + c);
    if south.len() > 0 {
        pools.push(south);
    }
    assert(pools@.map_values(|p: Vec<(i32, i32)>| p@) =~= a + b + c + d);
    if pools.len() == 0 {
        let all = grid.spawns();
        proof {
            lemma_listing(*grid, all@, Terrain::Spawn);
        }
        pools.push(all);
        assert(pools@.map_values(|p: Vec<(i32, i32)>| p@) =~= seq![listing(*grid, Terrain::Spawn)]);
    }
    pools
}

/// Shuffles the creeps of a wave in place with the match generator.
fn shuffle_kinds(kinds: &mut Vec<CreepKind>, rng: &mut Rng)
    requires
        old(kinds)@.len() <= i32::MAX,
    ensures
        (final(kinds)@, final(rng).state()) == shuffled(old(kinds)@, old(rng).state()),
{
    let n = kinds.len();
    let ghost v = kinds@;
    let ghost s0 = rng.state();
    let mut i: usize = if n > 1 {
        n - 1
    } else {
        0
    };
    while i > 0
        invariant
            n == kinds@.len(),
            n <= i32::MAX,
            i == 0 || i < n,
            shuffled(v, s0) == shuffle_down(kinds@, i as nat, rng.state()),
        decreases i,
    {
        let hi: i32 = (i + 1) as i32;
        let ghost k0 = kinds@;
        let jj = rng.range_i32(0, hi);
        let j = jj as usize;
        let x = kinds[i];
        let y = kinds[j];
        kinds.set(i, y);
        kinds.set(j, x);
        assert(kinds@ == swapped(k0, i as int, j as int));
        i = i - 1;
    }
}

/// Deals the creeps to the pools in turn and draws a cell for each.
fn deal(
    kinds: &Vec<CreepKind>,
    pools: &Vec<Vec<(i32, i32)>>,
    spawns: &Vec<(i32, i32)>,
    rng: &mut Rng,
) -> (r: Vec<SpawnOrder>)
    requires
        pools@.len() >= 1,
        forall|p: int| 0 <= p < pools@.len() ==> (#[trigger] pools@[p])@.len() <= i32::MAX,
        spawns@.len() <= i32::MAX,
    ensures
        (r@, final(rng).state()) == dealt(
            kinds@,
            pools@.map_values(|p: Vec<(i32, i32)>| p@),
            spawns@,
            old(rng).state(),
        ),
{
    let ghost pv = pools@.map_values(|p: Vec<(i32, i32)>| p@);
    let ghost s1 = rng.state();
    let n = kinds.len();
    let mut q: Vec<SpawnOrder> = Vec::new();
    let mut k: usize = 0;
    while k < n
        invariant
            n == kinds@.len(),
            k <= n,
            pv == pools@.map_values(|p: Vec<(i32, i32)>| p@),
            pools@.len() >= 1,
            forall|p: int| 0 <= p < pools@.len() ==> (#[trigger] pools@[p])@.len() <= i32::MAX,
            spawns@.len() <= i32::MAX,
            (q@, rng.state()) == dealt(kinds@.take(k as int), pv, spawns@, s1),
        decreases n - k,
    {
        let pool = &pools[k % pools.len()];
        assert(pool@ == pv[(k % pools.len()) as int]);
        let spawn = match rng.pick(pool) {
            Some(c) => c,
            None => match rng.pick(spawns) {
                Some(c) => c,
                None => (0, 0),
            },
        };
        proof {
            assert(kinds@.take(k + 1).drop_last() == kinds@.take(k as int));
            assert(kinds@.take(k + 1).last() == kinds@[k as int]);
        }
        q.push(SpawnOrder { kind: kinds[k], spawn });
        k = k + 1;
    }
    assert(kinds@.take(n as int) == kinds@);
    q
}

/// Musters a wave: shuffles the plan's creeps with the match generator, then deals them in
/// turn to the spawn pools of the battlefield's edges, drawing a cell for each. Every planned
/// creep is sent, each kind exactly as often as planned, through a spawn cell — or through
/// `(0, 0)` when the battlefield has none.
pub fn compose_wave(plan: WavePlan, rng: &mut Rng, grid: &Grid) -> (r: Vec<SpawnOrder>)
    requires
        grid.wf(),
        plan_total(plan) <= i32::MAX,
    ensures
        r@ == mustered(plan, *grid, old(rng).state()).0,
        final(rng).state() == mustered(plan, *grid, old(rng).state()).1,
        r@.map_values(|o: SpawnOrder| o.kind).to_multiset() == plan_kinds(plan).to_multiset(),
        forall|k: int|
            0 <= k < r@.len() ==> {
                let c = (#[trigger] r@[k]).spawn;
                ||| grid.inside(c.0 as int, c.1 as int) && grid.terrain_of(c.0 as int, c.1 as int)
                    == Terrain::Spawn
                ||| c == (0i32, 0i32) && forall|x: int, y: int|
                    grid.inside(x, y) ==> grid.terrain_of(x, y) != Terrain::Spawn
            },
{
    let spawns = grid.spawns();
    proof {
        lemma_listing(*grid, spawns@, Terrain::Spawn);
        assert forall|i: int, j: int| 0 <= i < j < spawns@.len() implies #[trigger] spawns@[i]
            != #[trigger] spawns@[j] by {
            assert(row_before(spawns@[i], spawns@[j]));
        }
        lemma_distinct_cells_fit(*grid, spawns@);
        lemma_pools_from_spawns(*grid);
        crate::director::lemma_plan_kinds_len(plan);
    }
    let pools = pool_list(grid, &spawns);
    let ghost pv = pools@.map_values(|p: Vec<(i32, i32)>| p@);
    assert forall|p: int| 0 <= p < pools@.len() implies (#[trigger] pools@[p])@.len() <= i32::MAX by {
        assert(pools@[p]@ == pv[p]);
    }
    let mut kinds = plan.kinds();
    let ghost s0 = rng.state();
    shuffle_kinds(&mut kinds, rng);
    let ghost s1 = rng.state();
    let q = deal(&kinds, &pools, &spawns, rng);
    proof {
        let v = plan_kinds(plan);
        if v.len() > 1 {
            lemma_shuffle_keeps_kinds(v, (v.len() - 1) as nat, s0);
        }
        lemma_dealt_orders(kinds@, pv, spawns@, s1);
        assert(q@.map_values(|o: SpawnOrder| o.kind) =~= kinds@);
        assert forall|k: int| 0 <= k < q@.len() implies {
            let c = (#[trigger] q@[k]).spawn;
            ||| grid.inside(c.0 as int, c.1 as int) && grid.terrain_of(c.0 as int, c.1 as int)
                == Terrain::Spawn
            ||| c == (0i32, 0i32) && forall|x: int, y: int|
                grid.inside(x, y) ==> grid.terrain_of(x, y) != Terrain::Spawn
        } by {
            let c = q@[k].spawn;
            if spawns@.contains(c) {
                let m = choose|m: int| 0 <= m < spawns@.len() && spawns@[m] == c;
            } else {
                assert forall|x: int, y: int| grid.inside(x, y) implies grid.terrain_of(x, y) != Terrain::Spawn by {
                    if grid.terrain_of(x, y) == Terrain::Spawn {
                        assert(spawns@.contains((x as i32, y as i32)));
                    }
                }
            }
        }
    }
    q
}

/// Where following the stored steps from `(x, y)` for at most `n` of them leads; a cell
/// without a step is where it stops.
pub open spec fn hopped(f: FlowField, g: Grid, x: int, y: int, n: nat) -> (int, int)
    decreases n,
{
    if n == 0 {
        (x, y)
    } else {
        match f.next_or_none(g, x, y) {
            Some(s) => hopped(f, g, s.0 as int, s.1 as int, (n - 1) as nat),
            None => (x, y),
        }
    }
}

/// Follows the flow field from `(x, y)` for at most `steps` steps.
pub fn flow_hop(flow: &FlowField, grid: &Grid, x: i32, y: i32, steps: u32) -> (r: (i32, i32))
    requires
        flow.is_flow_of(*grid),
    ensures
        (r.0 as int, r.1 as int) == hopped(*flow, *grid, x as int, y as int, steps as nat),
{
    let mut cx = x;
    let mut cy = y;
    let mut i: u32 = 0;
    while i < steps
        invariant
            flow.is_flow_of(*grid),
            i <= steps,
            hopped(*flow, *grid, x as int, y as int, steps as nat) == hopped(
                *flow,
                *grid,
                cx as int,
                cy as int,
                (steps - i) as nat,
            ),
        decreases steps - i,
    {
        match flow.next_at(grid, cx, cy) {
            Some((nx, ny)) => {
                cx = nx;
                cy = ny;
            },
            None => {
                return (cx, cy);
            },
        }
        i = i + 1;
    }
    (cx, cy)
}

/// Interest on banked scrap: `bps` basis points of a positive balance, rounded down, kept
/// within `0..=cap`; none on an empty or negative balance or at zero rate.
pub open spec fn interest_of(credits: i32, bps: u32, cap: i32) -> i32 {
    if bps == 0 || credits <= 0 {
        0
    } else {
        let gain = ((credits * bps) / 10_000) as i32;
        if gain < 0 {
            0
        } else if gain > cap {
            cap
        } else {
            gain
        }
    }
}

pub fn interest_gain(credits: i32, bps: u32, cap: i32) -> (r: i32)
    requires
        cap >= 0,
    ensures
        r == interest_of(credits, bps, cap),
        0 <= r <= cap,
{
    if bps == 0 || credits <= 0 {
        return 0;
    }
    assert(credits as i64 * bps as i64 <= i64::MAX) by (nonlinear_arith)
        requires
            0 < credits <= i32::MAX,
            bps <= u32::MAX,
    ;
    let product: i64 = credits as i64 * bps as i64;
    let gain = (product / 10_000) as i32;
    if gain < 0 {
        0
    } else if gain > cap {
        cap
    } else {
        gain
    }
}

/// May the relay be patched? Not once it is down, not while it is whole, not without the
/// scrap for it.
pub open spec fn repair_verdict_of(defeated: bool, integrity: i32, integrity_max: i32, credits: i32) -> Result<(), PlaceError> {
    if defeated || integrity <= 0 {
        Err(PlaceError::RelayDown)
    } else if integrity >= integrity_max {
        Err(PlaceError::Intact)
    } else if credits < REPAIR_COST {
        Err(PlaceError::CantAfford)
    } else {
        Ok(())
    }
}

pub fn repair_verdict(defeated: bool, integrity: i32, integrity_max: i32, credits: i32) -> (r: Result<(), PlaceError>)
    ensures
        r == repair_verdict_of(defeated, integrity, integrity_max, credits),
{
    if defeated || integrity <= 0 {
        return Err(PlaceError::RelayDown);
    }
    if integrity >= integrity_max {
        return Err(PlaceError::Intact);
    }
    if credits < REPAIR_COST {
        return Err(PlaceError::CantAfford);
    }
    Ok(())
}

/// Law: a patch never lifts the relay above its starting pool, and a fallen relay cannot be
/// patched.
pub proof fn law_repair_never_overfills(defeated: bool, integrity: i32, integrity_max: i32, credits: i32)
    ensures
        repair_verdict_of(defeated, integrity, integrity_max, credits) is Ok ==> integrity + 1
            <= integrity_max,
        defeated || integrity <= 0 ==> repair_verdict_of(defeated, integrity, integrity_max, credits)
            == Err::<(), PlaceError>(PlaceError::RelayDown),
{
}

/// Law: interest never exceeds the cap of the rules in force, and a fixed-scrap match pays
/// none.
pub proof fn law_interest_is_capped(credits: i32, m: Modifier)
    ensures
        0 <= interest_of(credits, m.ruled().interest_bps, m.ruled().interest_cap) <= m.ruled().interest_cap,
        m == Modifier::FixedScrap ==> interest_of(
            credits,
            m.ruled().interest_bps,
            m.ruled().interest_cap,
        ) == 0,
{
}

/// May the selected structure be upgraded? `tower` is its kind, if one is selected;
/// `cost` the price of its next tier, if it has one. Gives the price to pay.
pub open spec fn upgrade_verdict_of(tower: Option<BuildKind>, cost: Option<i32>, credits: i32) -> Result<i32, PlaceError> {
    match tower {
        None => Err(PlaceError::NotATurret),
        Some(k) => if k == BuildKind::Inspect || k == BuildKind::Barricade {
            Err(PlaceError::NotATurret)
        } else {
            match cost {
                None => Err(PlaceError::MaxTier),
                Some(c) => if credits < c {
                    Err(PlaceError::CantAfford)
                } else {
                    Ok(c)
                },
            }
        },
    }
}

pub fn upgrade_verdict(tower: Option<BuildKind>, cost: Option<i32>, credits: i32) -> (r: Result<i32, PlaceError>)
    ensures
        r == upgrade_verdict_of(tower, cost, credits),
{
    let kind = match tower {
        None => {
            return Err(PlaceError::NotATurret);
        },
        Some(k) => k,
    };
    if !kind.is_turret() {
        return Err(PlaceError::NotATurret);
    }
    let c = match cost {
        None => {
            return Err(PlaceError::MaxTier);
        },
        Some(c) => c,
    };
    if credits < c {
        return Err(PlaceError::CantAfford);
    }
    Ok(c)
}

/// May the selected structure be tuned to air? `tower` is its kind and whether it is
/// already air-tuned, if one is selected. Only a Helios converts, and only once.
pub open spec fn convert_verdict_of(tower: Option<(BuildKind, bool)>, credits: i32) -> Result<(), PlaceError> {
    match tower {
        None => Err(PlaceError::NotHelios),
        Some((k, air)) => if k != BuildKind::Helios {
            Err(PlaceError::NotHelios)
        } else if air {
            Err(PlaceError::AlreadyAir)
        } else if credits < HELIOS_CONVERT_COST {
            Err(PlaceError::CantAfford)
        } else {
            Ok(())
        },
    }
}

pub fn convert_verdict(tower: Option<(BuildKind, bool)>, credits: i32) -> (r: Result<(), PlaceError>)
    ensures
        r == convert_verdict_of(tower, credits),
{
    let (kind, air) = match tower {
        None => {
            return Err(PlaceError::NotHelios);
        },
        Some(t) => t,
    };
    if kind != BuildKind::Helios {
        return Err(PlaceError::NotHelios);
    }
    if air {
        return Err(PlaceError::AlreadyAir);
    }
    if credits < HELIOS_CONVERT_COST {
        return Err(PlaceError::CantAfford);
    }
    Ok(())
}

/// May the selected structure be overcharged? Only a turret, and only with the scrap for it.
pub open spec fn overcharge_verdict_of(tower: Option<BuildKind>, credits: i32) -> Result<(), PlaceError> {
    match tower {
        None => Err(PlaceError::NotATurret),
        Some(k) => if k == BuildKind::Inspect || k == BuildKind::Barricade {
            Err(PlaceError::NotATurret)
        } else if credits < OVERCHARGE_COST {
            Err(PlaceError::CantAfford)
        } else {
            Ok(())
        },
    }
}

pub fn overcharge_verdict(tower: Option<BuildKind>, credits: i32) -> (r: Result<(), PlaceError>)
    ensures
        r == overcharge_verdict_of(tower, credits),
{
    let kind = match tower {
        None => {
            return Err(PlaceError::NotATurret);
        },
        Some(k) => k,
    };
    if !kind.is_turret() {
        return Err(PlaceError::NotATurret);
    }
    if credits < OVERCHARGE_COST {
        return Err(PlaceError::CantAfford);
    }
    Ok(())
}

/// Law: a Helios converts to air once; a second conversion is refused whatever the scrap.
pub proof fn law_helios_converts_once(credits: i32)
    ensures
        convert_verdict_of(Some((BuildKind::Helios, true)), credits) == Err::<(), PlaceError>(
            PlaceError::AlreadyAir,
        ),
{
}

/// The field is clear and the counter has moved on to wave `next_wave`: is the hold
/// objective now held? It is once the counter passes the wave to hold through, and stays
/// held.
pub open spec fn held_after(next_wave: u32, hold_until: Option<u32>, held: bool) -> bool {
    held || (hold_until matches Some(goal) && next_wave > goal)
}

/// Whether the objective is held after a clear, and the banner to raise: the hold, the
/// first time it is held; otherwise the call to fortify.
pub fn objective_after_clear(next_wave: u32, hold_until: Option<u32>, held: bool) -> (r: (bool, &'static str))
    ensures
        r.0 == held_after(next_wave, hold_until, held),
        r.1@ == (if !held && r.0 {
            "OBJECTIVE HELD"@
        } else {
            "FIELD CLEAR  ·  FORTIFY"@
        }),
{
    if !held {
        if let Some(goal) = hold_until {
            if next_wave > goal {
                return (true, "OBJECTIVE HELD");
            }
        }
    }
    (held, "FIELD CLEAR  ·  FORTIFY")
}

/// The recorded orders due by tick `tick`, from position `from` on: they run up to the
/// position returned.
pub fn due_orders(orders: &Vec<Order>, from: usize, tick: u64) -> (end: usize)
    requires
        from <= orders@.len(),
    ensures
        from <= end <= orders@.len(),
        forall|k: int| from <= k < end ==> (#[trigger] orders@[k]).tick <= tick,
        end < orders@.len() ==> orders@[end as int].tick > tick,
{
    let mut end = from;
    while end < orders.len() && orders[end].tick <= tick
        invariant
            from <= end <= orders@.len(),
            forall|k: int| from <= k < end ==> (#[trigger] orders@[k]).tick <= tick,
        decreases orders@.len() - end,
    {
        end = end + 1;
    }
    end
}


/// The match's purse and relay: scrap in hand, scrap spent so far, and the relay's integrity
/// against its starting pool.
#[derive(Clone, Copy, Debug, PartialEq, Eq, Structural)]
pub struct Economy {
    pub credits: i32,
    pub spent: i32,
    pub integrity: i32,
    pub integrity_max: i32,
}

/// The purse after paying `cost`: scrap down and spending up by the cost.
pub open spec fn paid(e: Economy, cost: i32) -> Economy {
    Economy { credits: (e.credits - cost) as i32, spent: (e.spent + cost) as i32, ..e }
}

/// Pays for a structure, a move or any purchase the scrap covers.
pub fn pay(e: Economy, cost: i32) -> (r: Economy)
    requires
        0 <= cost <= e.credits,
        e.spent + cost <= i32::MAX,
    ensures
        r == paid(e, cost),
{
    Economy { credits: e.credits - cost, spent: e.spent + cost, ..e }
}

/// The purse after a repair of the relay, or why it was refused.
pub open spec fn repaired(defeated: bool, e: Economy) -> Result<Economy, PlaceError> {
    match repair_verdict_of(defeated, e.integrity, e.integrity_max, e.credits) {
        Ok(_) => Ok(Economy { integrity: (e.integrity + 1) as i32, ..paid(e, REPAIR_COST) }),
        Err(x) => Err(x),
    }
}

/// The purse after an upgrade and the price paid, or why it was refused.
pub open spec fn upgraded(tower: Option<BuildKind>, cost: Option<i32>, e: Economy) -> Result<(Economy, i32), PlaceError> {
    match upgrade_verdict_of(tower, cost, e.credits) {
        Ok(c) => Ok((paid(e, c), c)),
        Err(x) => Err(x),
    }
}

/// The purse after tuning a Helios to air, or why it was refused.
pub open spec fn converted(tower: Option<(BuildKind, bool)>, e: Economy) -> Result<Economy, PlaceError> {
    match convert_verdict_of(tower, e.credits) {
        Ok(_) => Ok(paid(e, HELIOS_CONVERT_COST)),
        Err(x) => Err(x),
    }
}

/// The purse after an overcharge, or why it was refused.
pub open spec fn overcharged(tower: Option<BuildKind>, e: Economy) -> Result<Economy, PlaceError> {
    match overcharge_verdict_of(tower, e.credits) {
        Ok(_) => Ok(paid(e, OVERCHARGE_COST)),
        Err(x) => Err(x),
    }
}

/// Patches the relay by one point for its price, when the repair verdict allows it.
pub fn repair_step(defeated: bool, e: Economy) -> (r: Result<Economy, PlaceError>)
    requires
        e.spent + REPAIR_COST <= i32::MAX,
    ensures
        r == repaired(defeated, e),
        r == match repair_verdict_of(defeated, e.integrity, e.integrity_max, e.credits) {
            Ok(_) => Ok(Economy { integrity: (e.integrity + 1) as i32, ..paid(e, REPAIR_COST) }),
            Err(x) => Err::<Economy, PlaceError>(x),
        },
{
    match repair_verdict(defeated, e.integrity, e.integrity_max, e.credits) {
        Ok(()) => {
            let p = pay(e, REPAIR_COST);
            Ok(Economy { integrity: e.integrity + 1, ..p })
        },
        Err(x) => Err(x),
    }
}

/// Pays for the next tier of the selected turret, when the upgrade verdict allows it; the
/// price paid comes back with the purse.
pub fn upgrade_step(tower: Option<BuildKind>, cost: Option<i32>, e: Economy) -> (r: Result<
    (Economy, i32),
    PlaceError,
>)
    requires
        cost matches Some(c) ==> 0 <= c && e.spent + c <= i32::MAX,
    ensures
        r == upgraded(tower, cost, e),
        r == match upgrade_verdict_of(tower, cost, e.credits) {
            Ok(c) => Ok((paid(e, c), c)),
            Err(x) => Err::<(Economy, i32), PlaceError>(x),
        },
{
    match upgrade_verdict(tower, cost, e.credits) {
        Ok(c) => Ok((pay(e, c), c)),
        Err(x) => Err(x),
    }
}

/// Pays for tuning the selected Helios to air, when the conversion verdict allows it.
pub fn convert_step(tower: Option<(BuildKind, bool)>, e: Economy) -> (r: Result<Economy, PlaceError>)
    requires
        e.spent + HELIOS_CONVERT_COST <= i32::MAX,
    ensures
        r == converted(tower, e),
        r == match convert_verdict_of(tower, e.credits) {
            Ok(_) => Ok(paid(e, HELIOS_CONVERT_COST)),
            Err(x) => Err::<Economy, PlaceError>(x),
        },
{
    match convert_verdict(tower, e.credits) {
        Ok(()) => Ok(pay(e, HELIOS_CONVERT_COST)),
        Err(x) => Err(x),
    }
}

/// Pays for overcharging the selected turret, when the overcharge verdict allows it.
pub fn overcharge_step(tower: Option<BuildKind>, e: Economy) -> (r: Result<Economy, PlaceError>)
    requires
        e.spent + OVERCHARGE_COST <= i32::MAX,
    ensures
        r == overcharged(tower, e),
        r == match overcharge_verdict_of(tower, e.credits) {
            Ok(_) => Ok(paid(e, OVERCHARGE_COST)),
            Err(x) => Err::<Economy, PlaceError>(x),
        },
{
    match overcharge_verdict(tower, e.credits) {
        Ok(()) => Ok(pay(e, OVERCHARGE_COST)),
        Err(x) => Err(x),
    }
}

/// Law: every purchase moves scrap from hand to spent one for one, so scrap in hand plus
/// scrap spent stays the same, and a purchase never leaves the purse below zero when it
/// started at or above zero.
pub proof fn law_purchases_keep_the_total(e: Economy, cost: i32)
    requires
        0 <= cost <= e.credits,
        e.spent + cost <= i32::MAX,
    ensures
        paid(e, cost).credits + paid(e, cost).spent == e.credits + e.spent,
        paid(e, cost).credits >= 0,
        paid(e, cost).integrity == e.integrity,
{
}


/// The battlefield has a spawn cell on edge `side`: 0 north, 1 east, 2 west, 3 south.
pub open spec fn has_spawn_on(g: Grid, side: int) -> bool {
    exists|x: int, y: int|
        #![trigger g.terrain_of(x, y)]
        g.inside(x, y) && g.terrain_of(x, y) == Terrain::Spawn && on_side(
            (x as i32, y as i32),
            side,
            g.w,
            g.h,
        )
}

pub open spec fn edge_if(g: Grid, side: int) -> Seq<int> {
    if has_spawn_on(g, side) {
        seq![side]
    } else {
        seq![]
    }
}

/// The edges that hold spawn cells, in the order north, east, west, south.
pub open spec fn spawn_edges(g: Grid) -> Seq<int> {
    edge_if(g, 0) + edge_if(g, 1) + edge_if(g, 2) + edge_if(g, 3)
}

proof fn lemma_side_cells_nonempty(g: Grid, side: int)
    requires
        g.wf(),
    ensures
        side_cells(g, side).len() > 0 <==> has_spawn_on(g, side),
        forall|k: int|
            0 <= k < side_cells(g, side).len() ==> {
                let c = #[trigger] side_cells(g, side)[k];
                &&& listing(g, Terrain::Spawn).contains(c)
                &&& on_side(c, side, g.w, g.h)
            },
{
    let all = listing(g, Terrain::Spawn);
    let pred = side_pred(side, g.w, g.h);
    lemma_listing_lists(g, Terrain::Spawn);
    let f = all.filter(pred);
    assert forall|k: int| 0 <= k < f.len() implies {
        let c = #[trigger] f[k];
        &&& all.contains(c)
        &&& on_side(c, side, g.w, g.h)
    } by {
        all.lemma_filter_pred(pred, k);
        assert(f.contains(f[k]));
        all.lemma_filter_contains_rev(pred, f[k]);
    }
    if f.len() > 0 {
        let c = f[0];
        let i = choose|i: int| 0 <= i < all.len() && all[i] == c;
        assert(g.inside(all[i].0 as int, all[i].1 as int) && g.terrain_of(all[i].0 as int, all[i].1 as int)
            == Terrain::Spawn);
        assert(on_side((c.0 as int as i32, c.1 as int as i32), side, g.w, g.h));
    }
    if has_spawn_on(g, side) {
        let (x, y) = choose|x: int, y: int|
            #![trigger g.terrain_of(x, y)]
            g.inside(x, y) && g.terrain_of(x, y) == Terrain::Spawn && on_side(
                (x as i32, y as i32),
                side,
                g.w,
                g.h,
            );
        assert(g.terrain_of(x, y) == Terrain::Spawn);
        assert(all.contains((x as i32, y as i32)));
        let i = choose|i: int| 0 <= i < all.len() && all[i] == (x as i32, y as i32);
        all.lemma_filter_contains(pred, i);
    }
}

/// When some edge holds spawn cells, the pools are exactly the spawn cells of those edges,
/// in the order north, east, west, south.
proof fn lemma_pools_are_edges(g: Grid)
    requires
        g.wf(),
        spawn_edges(g).len() > 0,
    ensures
        spawn_pools(g).len() == spawn_edges(g).len(),
        forall|p: int|
            0 <= p < spawn_pools(g).len() ==> #[trigger] spawn_pools(g)[p] == side_cells(
                g,
                spawn_edges(g)[p],
            ),
{
    lemma_side_cells_nonempty(g, 0);
    lemma_side_cells_nonempty(g, 1);
    lemma_side_cells_nonempty(g, 2);
    lemma_side_cells_nonempty(g, 3);
    let a0 = if_any(side_cells(g, 0));
    let a1 = if_any(side_cells(g, 1));
    let a2 = if_any(side_cells(g, 2));
    let a3 = if_any(side_cells(g, 3));
    let e0 = edge_if(g, 0);
    let e1 = edge_if(g, 1);
    let e2 = edge_if(g, 2);
    let e3 = edge_if(g, 3);
    let sides = a0 + a1 + a2 + a3;
    let edges = e0 + e1 + e2 + e3;
    assert(a0.len() == e0.len() && a1.len() == e1.len() && a2.len() == e2.len() && a3.len()
        == e3.len());
    assert(sides.len() == edges.len());
    assert forall|p: int| 0 <= p < sides.len() implies #[trigger] sides[p] == side_cells(g, edges[p]) by {
        if p < a0.len() {
            assert(sides[p] == a0[p] && edges[p] == e0[p]);
        } else if p < a0.len() + a1.len() {
            assert(sides[p] == a1[p - a0.len()] && edges[p] == e1[p - e0.len()]);
        } else if p < a0.len() + a1.len() + a2.len() {
            assert(sides[p] == a2[p - a0.len() - a1.len()] && edges[p] == e2[p - e0.len() - e1.len()]);
        } else {
            assert(sides[p] == a3[p - a0.len() - a1.len() - a2.len()] && edges[p] == e3[p - e0.len()
                - e1.len() - e2.len()]);
        }
    }
}

proof fn lemma_dealt_len(kinds: Seq<CreepKind>, pools: Seq<Seq<(i32, i32)>>, all: Seq<(i32, i32)>, s: u64)
    ensures
        dealt(kinds, pools, all, s).0.len() == kinds.len(),
    decreases kinds.len(),
{
    if kinds.len() > 0 {
        lemma_dealt_len(kinds.drop_last(), pools, all, s);
    }
}

/// The `k`-th creep dealt stands on a cell of pool `k` modulo the number of pools, when that
/// pool has cells.
proof fn lemma_dealt_pool(
    kinds: Seq<CreepKind>,
    pools: Seq<Seq<(i32, i32)>>,
    all: Seq<(i32, i32)>,
    s: u64,
    k: int,
)
    requires
        pools.len() >= 1,
        forall|p: int| 0 <= p < pools.len() ==> (#[trigger] pools[p]).len() <= i32::MAX,
        0 <= k < kinds.len(),
        pools[k % pools.len() as int].len() > 0,
    ensures
        dealt(kinds, pools, all, s).0.len() == kinds.len(),
        pools[k % pools.len() as int].contains(dealt(kinds, pools, all, s).0[k].spawn),
    decreases kinds.len(),
{
    let before = dealt(kinds.drop_last(), pools, all, s);
    let last = kinds.len() - 1;
    if k < last {
        lemma_dealt_pool(kinds.drop_last(), pools, all, s, k);
        assert(dealt(kinds, pools, all, s).0[k] == before.0[k]);
    } else {
        lemma_dealt_len(kinds.drop_last(), pools, all, s);
        let pool = pools[k % pools.len() as int];
        let q = in_range(mixed(advanced(before.1)), 0, pool.len() as i32) as int;
        assert(0 <= q < pool.len()) by {
            assert(mixed(advanced(before.1)) % (pool.len() as u64) < pool.len() as u64);
        }
        assert(dealt(kinds, pools, all, s).0[k].spawn == pool[q]);
    }
}

/// Law: when spawn cells stand on one or more edges of the battlefield, a wave is dealt to
/// those edges in turn, north, east, west, south: the `k`-th creep enters at a spawn cell on
/// the edge numbered `k` modulo the number of such edges, so each of those edges receives a
/// creep as soon as the wave has as many creeps as there are edges.
pub proof fn law_creeps_take_the_edges_in_turn(plan: WavePlan, g: Grid, s: u64, k: int)
    requires
        g.wf(),
        plan_total(plan) <= i32::MAX,
        spawn_edges(g).len() > 0,
        0 <= k < plan_total(plan),
    ensures
        mustered(plan, g, s).0.len() == plan_total(plan),
        g.inside(mustered(plan, g, s).0[k].spawn.0 as int, mustered(plan, g, s).0[k].spawn.1 as int),
        g.terrain_of(mustered(plan, g, s).0[k].spawn.0 as int, mustered(plan, g, s).0[k].spawn.1 as int)
            == Terrain::Spawn,
        on_side(
            mustered(plan, g, s).0[k].spawn,
            spawn_edges(g)[k % spawn_edges(g).len() as int],
            g.w,
            g.h,
        ),
{
    let all = listing(g, Terrain::Spawn);
    lemma_listing_lists(g, Terrain::Spawn);
    assert forall|i: int, j: int| 0 <= i < j < all.len() implies #[trigger] all[i] != #[trigger] all[j] by {
        assert(row_before(all[i], all[j]));
    }
    lemma_distinct_cells_fit(g, all);
    lemma_pools_from_spawns(g);
    lemma_pools_are_edges(g);
    crate::director::lemma_plan_kinds_len(plan);
    let v = plan_kinds(plan);
    if v.len() > 1 {
        lemma_shuffle_keeps_kinds(v, (v.len() - 1) as nat, s);
    }
    let order = shuffled(v, s);
    let pools = spawn_pools(g);
    let p = k % pools.len() as int;
    let side = spawn_edges(g)[p];
    assert(0 <= side < 4) by {
        let e0 = edge_if(g, 0);
        let e1 = edge_if(g, 1);
        let e2 = edge_if(g, 2);
        let e3 = edge_if(g, 3);
        let edges = e0 + e1 + e2 + e3;
        if p < e0.len() {
            assert(edges[p] == e0[p]);
        } else if p < e0.len() + e1.len() {
            assert(edges[p] == e1[p - e0.len()]);
        } else if p < e0.len() + e1.len() + e2.len() {
            assert(edges[p] == e2[p - e0.len() - e1.len()]);
        } else {
            assert(edges[p] == e3[p - e0.len() - e1.len() - e2.len()]);
        }
    }
    lemma_side_cells_nonempty(g, side);
    assert(has_spawn_on(g, side)) by {
        let e0 = edge_if(g, 0);
        let e1 = edge_if(g, 1);
        let e2 = edge_if(g, 2);
        let e3 = edge_if(g, 3);
        let edges = e0 + e1 + e2 + e3;
        if p < e0.len() {
            assert(edges[p] == e0[p]);
        } else if p < e0.len() + e1.len() {
            assert(edges[p] == e1[p - e0.len()]);
        } else if p < e0.len() + e1.len() + e2.len() {
            assert(edges[p] == e2[p - e0.len() - e1.len()]);
        } else {
            assert(edges[p] == e3[p - e0.len() - e1.len() - e2.len()]);
        }
    }
    lemma_dealt_pool(order.0, pools, all, order.1, k);
    let c = mustered(plan, g, s).0[k].spawn;
    assert(pools[p] == side_cells(g, side));
    let m = choose|m: int| 0 <= m < pools[p].len() && pools[p][m] == c;
    assert(side_cells(g, side)[m] == c);
    let i = choose|i: int| 0 <= i < all.len() && all[i] == c;
    assert(g.inside(all[i].0 as int, all[i].1 as int));
}


/// Law: a repair is sold while the relay stands below its starting pool and the purse holds
/// 35 scrap; it costs 35 scrap and restores one point. A fallen relay answers `RelayDown`, a
/// full one `Intact`, a short purse `CantAfford`.
pub proof fn law_repair_restores_one_point(defeated: bool, e: Economy)
    requires
        e.spent + 35 <= i32::MAX,
    ensures
        repaired(defeated, e) is Ok <==> !defeated && 0 < e.integrity < e.integrity_max && e.credits
            >= 35,
        repaired(defeated, e) matches Ok(n) ==> n.integrity == e.integrity + 1 && n.credits
            == e.credits - 35 && n.spent == e.spent + 35 && n.integrity_max == e.integrity_max,
        defeated || e.integrity <= 0 ==> repaired(defeated, e) == Err::<Economy, PlaceError>(
            PlaceError::RelayDown,
        ),
        !defeated && 0 < e.integrity && e.integrity >= e.integrity_max ==> repaired(defeated, e)
            == Err::<Economy, PlaceError>(PlaceError::Intact),
        !defeated && 0 < e.integrity < e.integrity_max && e.credits < 35 ==> repaired(defeated, e)
            == Err::<Economy, PlaceError>(PlaceError::CantAfford),
{
}

/// Law: only a turret with a next tier, and the scrap for it, is upgraded; the price of the
/// tier leaves the purse and joins the spending, and integrity is untouched.
pub proof fn law_upgrade_pays_the_tier(tower: Option<BuildKind>, cost: Option<i32>, e: Economy)
    requires
        cost matches Some(c) ==> 0 <= c && e.spent + c <= i32::MAX,
    ensures
        upgraded(tower, cost, e) is Ok <==> (tower is Some && tower->0 != BuildKind::Inspect
            && tower->0 != BuildKind::Barricade && cost is Some && cost->0 <= e.credits),
        upgraded(tower, cost, e) matches Ok((n, c)) ==> cost == Some(c) && n.credits == e.credits
            - c && n.spent == e.spent + c && n.integrity == e.integrity,
        (tower is None || tower == Some(BuildKind::Barricade) || tower == Some(BuildKind::Inspect))
            ==> upgraded(tower, cost, e) == Err::<(Economy, i32), PlaceError>(PlaceError::NotATurret),
{
}

/// Law: only a Helios not yet tuned to air converts, for 1 scrap.
pub proof fn law_convert_costs_one(tower: Option<(BuildKind, bool)>, e: Economy)
    requires
        e.spent + 1 <= i32::MAX,
    ensures
        converted(tower, e) is Ok <==> tower == Some((BuildKind::Helios, false)) && e.credits >= 1,
        converted(tower, e) matches Ok(n) ==> n.credits == e.credits - 1 && n.spent == e.spent + 1
            && n.integrity == e.integrity,
{
}

/// Law: only a turret is overcharged, for 40 scrap.
pub proof fn law_overcharge_costs_forty(tower: Option<BuildKind>, e: Economy)
    requires
        e.spent + 40 <= i32::MAX,
    ensures
        overcharged(tower, e) is Ok <==> (tower is Some && tower->0 != BuildKind::Inspect
            && tower->0 != BuildKind::Barricade && e.credits >= 40),
        overcharged(tower, e) matches Ok(n) ==> n.credits == e.credits - 40 && n.spent == e.spent + 40
            && n.integrity == e.integrity,
{
}

/// Law: with interest on (every modifier but Fixed scrap), scrap in hand earns 4% when the
/// field clears, rounded down and capped at 48; an empty or negative purse earns nothing.
pub proof fn law_interest_is_four_percent_capped(credits: i32, m: Modifier)
    requires
        m != Modifier::FixedScrap,
    ensures
        interest_of(credits, m.ruled().interest_bps, m.ruled().interest_cap) == if credits <= 0 {
            0
        } else if credits / 25 > 48 {
            48
        } else {
            credits / 25
        },
{
    if credits > 0 {
        assert((credits * 400) / 10_000 == credits / 25);
    }
}

} // verus!
