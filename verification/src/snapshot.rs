//! What the match shows the commander that whole numbers can say: the map card, and the
//! creeps of a wave counted by kind.

use vstd::prelude::*;
use crate::defs::CreepKind;
use crate::director::{planned, wave_in_range, WavePlan};
use crate::grid::{lists_terrain, Grid, Terrain};
use crate::mapdoc::{as_pairs, to_cells};
use crate::maps::{theater_slug, theaters, THEATER_COUNT};

verus! {

/// The map card of a match: size, id, name, look, seed, and its relay, ingress and rock
/// cells.
#[derive(Clone, Debug)]
pub struct MapStatic {
    pub w: i32,
    pub h: i32,
    pub id: u8,
    pub name: String,
    pub slug: String,
    pub seed: u64,
    pub core: Vec<[i32; 2]>,
    pub spawns: Vec<[i32; 2]>,
    pub rocks: Vec<[i32; 2]>,
}

/// How many creeps of one kind.
#[derive(Clone, Debug)]
pub struct KindCount {
    pub kind: CreepKind,
    pub name: String,
    pub count: u32,
}

/// The coming wave: its script, its size, and its creeps by kind.
#[derive(Clone, Debug)]
pub struct WaveIntel {
    pub script: String,
    pub total: u32,
    pub parts: Vec<KindCount>,
}

/// The look of a map: its theater's slug, or `workshop` for anything else.
pub open spec fn slug_of(id: u8) -> Seq<char> {
    if id < THEATER_COUNT {
        theater_slug(id as int)
    } else {
        "workshop"@
    }
}

/// The map card of `grid`, played as map `id` under `name` with `seed`.
pub fn map_static_of(grid: &Grid, id: u8, name: &str, seed: u64) -> (r: MapStatic)
    requires
        grid.wf(),
    ensures
        r.w == grid.w,
        r.h == grid.h,
        r.id == id,
        r.name@ == name@,
        r.slug@ == slug_of(id),
        r.seed == seed,
        lists_terrain(*grid, as_pairs(r.core@), Terrain::Core),
        lists_terrain(*grid, as_pairs(r.spawns@), Terrain::Spawn),
        lists_terrain(*grid, as_pairs(r.rocks@), Terrain::Rock),
{
    let list = theaters();
    let slug: String = if id < THEATER_COUNT {
        list[id as usize].slug.clone()
    } else {
        "workshop".to_owned()
    };
    let cores = grid.cores();
    let spawns = grid.spawns();
    let rocks = grid.rocks();
    let r = MapStatic {
        w: grid.w,
        h: grid.h,
        id,
        name: name.to_owned(),
        slug,
        seed,
        core: to_cells(&cores),
        spawns: to_cells(&spawns),
        rocks: to_cells(&rocks),
    };
    assert(as_pairs(r.core@) =~= cores@);
    assert(as_pairs(r.spawns@) =~= spawns@);
    assert(as_pairs(r.rocks@) =~= rocks@);
    r
}

/// A plan's creeps by kind, in the director's order.
pub open spec fn plan_pairs(p: WavePlan) -> Seq<(CreepKind, u32)> {
    seq![
        (CreepKind::Runner, p.runners),
        (CreepKind::Lorry, p.lorries),
        (CreepKind::Bulwark, p.bulwarks),
        (CreepKind::Wasp, p.wasps),
        (CreepKind::Mite, p.mites),
        (CreepKind::Medic, p.medics),
        (CreepKind::Shade, p.shades),
        (CreepKind::Flicker, p.flickers),
        (CreepKind::Colossus, p.colossus),
    ]
}

/// Counts by kind, in roster order.
pub open spec fn count_pairs(counts: Seq<u32>) -> Seq<(CreepKind, u32)> {
    Seq::new(9, |i: int| (CreepKind::at_slot(i), counts[i]))
}

/// The kinds that occur at all.
pub open spec fn present(pairs: Seq<(CreepKind, u32)>) -> Seq<(CreepKind, u32)> {
    pairs.filter(|pr: (CreepKind, u32)| pr.1 > 0)
}

/// The kinds and counts of some parts, and whether each is named after its kind.
pub open spec fn parts_of(parts: Seq<KindCount>) -> Seq<(CreepKind, u32)> {
    parts.map_values(|k: KindCount| (k.kind, k.count))
}

pub open spec fn named(parts: Seq<KindCount>) -> bool {
    forall|i: int| 0 <= i < parts.len() ==> (#[trigger] parts[i]).name@ == parts[i].kind.name_text()
}

/// The parts of the given pairs that occur at all, each named after its kind.
fn parts_from_pairs(pairs: &Vec<(CreepKind, u32)>) -> (r: Vec<KindCount>)
    ensures
        parts_of(r@) == present(pairs@),
        named(r@),
{
    let ghost pred = |pr: (CreepKind, u32)| pr.1 > 0;
    let mut out: Vec<KindCount> = Vec::new();
    let mut k: usize = 0;
    while k < pairs.len()
        invariant
            k <= pairs@.len(),
            pred == (|pr: (CreepKind, u32)| pr.1 > 0),
            parts_of(out@) == pairs@.take(k as int).filter(pred),
            named(out@),
        decreases pairs@.len() - k,
    {
        let (kind, count) = pairs[k];
        proof {
            assert(pairs@.take(k + 1) == pairs@.take(k as int).push((kind, count)));
            pairs@.take(k as int).lemma_filter_push((kind, count), pred);
        }
        if count > 0 {
            let ghost before = out@;
            out.push(KindCount { kind, name: kind.name().to_owned(), count });
            assert(parts_of(out@) == parts_of(before).push((kind, count)));
        }
        k = k + 1;
    }
    assert(pairs@.take(pairs@.len() as int) == pairs@);
    out
}

/// The kinds of a plan that occur, with their counts, in the director's order.
pub fn kind_parts_from_plan(plan: &WavePlan) -> (r: Vec<KindCount>)
    ensures
        parts_of(r@) == present(plan_pairs(*plan)),
        named(r@),
{
    let pairs = vec![
        (CreepKind::Runner, plan.runners),
        (CreepKind::Lorry, plan.lorries),
        (CreepKind::Bulwark, plan.bulwarks),
        (CreepKind::Wasp, plan.wasps),
        (CreepKind::Mite, plan.mites),
        (CreepKind::Medic, plan.medics),
        (CreepKind::Shade, plan.shades),
        (CreepKind::Flicker, plan.flickers),
        (CreepKind::Colossus, plan.colossus),
    ];
    assert(pairs@ =~= plan_pairs(*plan));
    parts_from_pairs(&pairs)
}

/// The kinds tallied in `counts` (indexed by roster slot) that occur, with their counts, in
/// roster order.
pub fn kind_parts_from_counts(counts: &[u32; 9]) -> (r: Vec<KindCount>)
    ensures
        parts_of(r@) == present(count_pairs(counts@)),
        named(r@),
{
    let all = CreepKind::all();
    let mut pairs: Vec<(CreepKind, u32)> = Vec::new();
    let mut i: usize = 0;
    while i < 9
        invariant
            i <= 9,
            counts@.len() == 9,
            forall|j: int| 0 <= j < 9 ==> #[trigger] all@[j] == CreepKind::at_slot(j),
            pairs@ =~= count_pairs(counts@).take(i as int),
        decreases 9 - i,
    {
        pairs.push((all[i], counts[i]));
        i = i + 1;
    }
    assert(count_pairs(counts@).take(9) =~= count_pairs(counts@));
    parts_from_pairs(&pairs)
}

/// The intel card of wave `wave`.
pub fn wave_intel(wave: u32, ground_only: bool) -> (r: WaveIntel)
    requires
        wave_in_range(wave),
        crate::director::plan_total(planned(wave, ground_only)) <= u32::MAX,
    ensures
        r.script@ == planned(wave, ground_only).script.label_text(),
        r.total == crate::director::plan_total(planned(wave, ground_only)),
        parts_of(r.parts@) == present(plan_pairs(planned(wave, ground_only))),
        named(r.parts@),
{
    let plan = WavePlan::for_wave(wave, ground_only);
    WaveIntel { script: plan.script.label().to_owned(), total: plan.total(), parts: kind_parts_from_plan(&plan) }
}

} // verus!
