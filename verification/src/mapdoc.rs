//! Maps as documents: a size, a seed, and the relay, ingress and rock cells. Documents are
//! validated before a match starts.

use vstd::prelude::*;
use crate::grid::{lists_terrain, Grid, Occupant, Terrain};
use crate::maps::{
    is_theater, theater_blurb, theater_by_id, theater_hazard, theater_name, theater_seed,
    theater_slug, theaters, THEATER_COUNT,
};
use crate::path::{reachable, FlowField};
use crate::placement::{lemma_same_field, spawns_ok};

verus! {

/// Map id of a match played on a document rather than a built-in theater.
pub const WORKSHOP_MAP_ID: u8 = 255;

pub const MIN_MAP: i32 = 8;

pub const MAX_MAP_W: i32 = 64;

pub const MAX_MAP_H: i32 = 48;

/// Seed of a document that names none.
pub fn default_seed() -> (r: u64)
    ensures
        r == 0xA11CE5,
{
    0xA11CE5
}

#[derive(Clone, Debug)]
pub struct MapDoc {
    pub slug: String,
    pub name: String,
    pub blurb: String,
    pub hazard: String,
    pub w: i32,
    pub h: i32,
    pub seed: u64,
    pub cores: Vec<[i32; 2]>,
    pub spawns: Vec<[i32; 2]>,
    pub rocks: Vec<[i32; 2]>,
}

#[derive(Clone, Debug, PartialEq, Eq)]
pub enum MapError {
    Parse(String),
    Size,
    NoCore,
    NoSpawn,
    OutOfBounds,
    Overlap,
    Unreachable,
}

impl MapError {
    pub open spec fn text(&self) -> Seq<char> {
        match self {
            MapError::Parse(s) => "Bad JSON: "@ + s@,
            MapError::Size => "Map must be 8–64 wide and 8–48 tall"@,
            MapError::NoCore => "Need at least one relay (core) cell"@,
            MapError::NoSpawn => "Need at least one ingress (spawn) cell"@,
            MapError::OutOfBounds => "A marked cell is off the grid"@,
            MapError::Overlap => "Core, spawn, and rock cannot share a cell"@,
            MapError::Unreachable => "A spawn cannot walk to a relay — punch a path"@,
        }
    }

    pub fn message(&self) -> (r: String)
        ensures
            r@ == self.text(),
    {
        match self {
            MapError::Parse(s) => {
                let mut m = "Bad JSON: ".to_owned();
                m.append(s.as_str());
                m
            },
            MapError::Size => "Map must be 8–64 wide and 8–48 tall".to_owned(),
            MapError::NoCore => "Need at least one relay (core) cell".to_owned(),
            MapError::NoSpawn => "Need at least one ingress (spawn) cell".to_owned(),
            MapError::OutOfBounds => "A marked cell is off the grid".to_owned(),
            MapError::Overlap => "Core, spawn, and rock cannot share a cell".to_owned(),
            MapError::Unreachable => "A spawn cannot walk to a relay — punch a path".to_owned(),
        }
    }
}

/// A document position as a pair.
pub open spec fn cell_of(c: [i32; 2]) -> (i32, i32) {
    (c[0], c[1])
}

/// Every marked cell of the document, relays first, then ingress, then rock.
pub open spec fn marked(doc: MapDoc) -> Seq<[i32; 2]> {
    doc.cores@ + doc.spawns@ + doc.rocks@
}

pub open spec fn on_doc(doc: MapDoc, c: [i32; 2]) -> bool {
    0 <= c[0] < doc.w && 0 <= c[1] < doc.h
}

/// The `k`-th marked cell is off the grid or repeats an earlier one.
pub open spec fn marked_bad(doc: MapDoc, k: int) -> bool {
    !on_doc(doc, marked(doc)[k]) || exists|j: int|
        0 <= j < k && cell_of(#[trigger] marked(doc)[j]) == cell_of(marked(doc)[k])
}

/// The first marked cell that is off the grid or repeats an earlier one.
pub open spec fn first_bad(doc: MapDoc, k: int) -> bool {
    0 <= k < marked(doc).len() && marked_bad(doc, k) && forall|j: int|
        0 <= j < k ==> !#[trigger] marked_bad(doc, j)
}

/// What validation says of a document before it walks the map: the size, then relays,
/// then ingress, then the first bad marked cell.
pub open spec fn layout_verdict(doc: MapDoc) -> Result<(), MapError> {
    if doc.w < MIN_MAP || doc.h < MIN_MAP || doc.w > MAX_MAP_W || doc.h > MAX_MAP_H {
        Err(MapError::Size)
    } else if doc.cores@.len() == 0 {
        Err(MapError::NoCore)
    } else if doc.spawns@.len() == 0 {
        Err(MapError::NoSpawn)
    } else if exists|k: int| first_bad(doc, k) {
        let k = choose|k: int| first_bad(doc, k);
        if !on_doc(doc, marked(doc)[k]) {
            Err(MapError::OutOfBounds)
        } else {
            Err(MapError::Overlap)
        }
    } else {
        Ok(())
    }
}

pub open spec fn lists_cell(cells: Seq<[i32; 2]>, x: int, y: int) -> bool {
    exists|k: int| 0 <= k < cells.len() && cell_of(#[trigger] cells[k]) == (x as i32, y as i32)
}

/// Terrain the document paints on cell `(x, y)`.
pub open spec fn doc_terrain(doc: MapDoc, x: int, y: int) -> Terrain {
    if lists_cell(doc.rocks@, x, y) {
        Terrain::Rock
    } else if lists_cell(doc.spawns@, x, y) {
        Terrain::Spawn
    } else if lists_cell(doc.cores@, x, y) {
        Terrain::Core
    } else {
        Terrain::Empty
    }
}

/// `g` is the battlefield the document describes.
pub open spec fn paints(doc: MapDoc, g: Grid) -> bool {
    &&& g.wf()
    &&& g.w == doc.w
    &&& g.h == doc.h
    &&& forall|x: int, y: int| g.inside(x, y) ==> #[trigger] g.terrain_of(x, y) == doc_terrain(doc, x, y)
    &&& forall|x: int, y: int| g.inside(x, y) ==> #[trigger] g.occ_of(x, y) == Occupant::Vacant
}

/// Every ingress cell of `g` can walk to a relay.
pub open spec fn spawns_open(g: Grid) -> bool {
    forall|x: int, y: int|
        g.inside(x, y) && #[trigger] g.terrain_of(x, y) == Terrain::Spawn ==> reachable(g, x, y)
}

proof fn lemma_first_bad_unique(doc: MapDoc, k: int)
    requires
        first_bad(doc, k),
    ensures
        (choose|k2: int| first_bad(doc, k2)) == k,
{
    let k2 = choose|k2: int| first_bad(doc, k2);
    if k2 < k {
        assert(!marked_bad(doc, k2));
    } else if k < k2 {
        assert(!marked_bad(doc, k));
    }
}

/// Paints the cells `list` (the part of the marked cells from `base`) with `t`, refusing
/// a cell off the grid or one already painted.
fn stamp(
    doc: &MapDoc,
    g: &mut Grid,
    seen: &mut Vec<bool>,
    list: &Vec<[i32; 2]>,
    base: Ghost<int>,
    t: Terrain,
) -> (r: Result<(), MapError>)
    requires
        old(g).wf(),
        old(g).w == doc.w,
        old(g).h == doc.h,
        old(seen)@.len() == old(g).cell_count(),
        0 <= base@,
        base@ + list@.len() <= marked(*doc).len(),
        forall|k: int| 0 <= k < list@.len() ==> #[trigger] list@[k] == marked(*doc)[base@ + k],
        forall|j: int| 0 <= j < base@ ==> !#[trigger] marked_bad(*doc, j),
        forall|x: int, y: int|
            old(g).inside(x, y) ==> (old(seen)@[#[trigger] crate::grid::cell_key(doc.w as int, x, y)]
                <==> exists|j: int| 0 <= j < base@ && cell_of(#[trigger] marked(*doc)[j]) == (x as i32, y as i32)),
    ensures
        r is Ok ==> forall|j: int| 0 <= j < base@ + list@.len() ==> !#[trigger] marked_bad(*doc, j),
        r is Ok ==> final(g).wf() && final(g).w == doc.w && final(g).h == doc.h && final(g).same_occupants(
            old(g),
        ) && final(seen)@.len() == old(seen)@.len(),
        r is Ok ==> forall|x: int, y: int|
            final(g).inside(x, y) ==> #[trigger] final(g).terrain_of(x, y) == if lists_cell(
                list@,
                x,
                y,
            ) {
                t
            } else {
                old(g).terrain_of(x, y)
            },
        r is Ok ==> forall|x: int, y: int|
            final(g).inside(x, y) ==> (final(seen)@[#[trigger] crate::grid::cell_key(doc.w as int, x, y)]
                <==> exists|j: int|
                0 <= j < base@ + list@.len() && cell_of(#[trigger] marked(*doc)[j]) == (x as i32, y as i32)),
        r matches Err(e) ==> exists|k: int|
            #![trigger first_bad(*doc, k)]
            first_bad(*doc, k) && e == if !on_doc(*doc, marked(*doc)[k]) {
                MapError::OutOfBounds
            } else {
                MapError::Overlap
            },
{
    let ghost g0 = *g;
    let ghost w = doc.w as int;
    let mut i: usize = 0;
    while i < list.len()
        invariant
            g0 == *old(g),
            w == doc.w,
            g.wf(),
            g.w == doc.w,
            g.h == doc.h,
            g.same_occupants(&g0),
            seen@.len() == g.cell_count(),
            i <= list@.len(),
            0 <= base@,
            base@ + list@.len() <= marked(*doc).len(),
            forall|k: int| 0 <= k < list@.len() ==> #[trigger] list@[k] == marked(*doc)[base@ + k],
            forall|j: int| 0 <= j < base@ + i ==> !#[trigger] marked_bad(*doc, j),
            forall|x: int, y: int|
                g.inside(x, y) ==> #[trigger] g.terrain_of(x, y) == if lists_cell(
                    list@.subrange(0, i as int),
                    x,
                    y,
                ) {
                    t
                } else {
                    g0.terrain_of(x, y)
                },
            forall|x: int, y: int|
                g.inside(x, y) ==> (seen@[#[trigger] crate::grid::cell_key(w, x, y)] <==> exists|j: int|
                    0 <= j < base@ + i && cell_of(#[trigger] marked(*doc)[j]) == (x as i32, y as i32)),
        decreases list@.len() - i,
    {
        let c = list[i];
        let x = c[0];
        let y = c[1];
        let ghost k = base@ + i;
        assert(marked(*doc)[k] == c);
        if x < 0 || y < 0 || x >= doc.w || y >= doc.h {
            assert(first_bad(*doc, k));
            return Err(MapError::OutOfBounds);
        }
        proof {
            crate::grid::lemma_cell_key_range(w, g.h as int, x as int, y as int);
        }
        let key = g.idx(x, y);
        if seen[key] {
            proof {
                assert(seen@[crate::grid::cell_key(w, x as int, y as int)]);
                let j = choose|j: int|
                    0 <= j < k && cell_of(#[trigger] marked(*doc)[j]) == (x as i32, y as i32);
                assert(cell_of(marked(*doc)[j]) == cell_of(marked(*doc)[k]));
                assert(marked_bad(*doc, k));
                assert(first_bad(*doc, k));
            }
            return Err(MapError::Overlap);
        }
        proof {
            if marked_bad(*doc, k) {
                let j = choose|j: int|
                    0 <= j < k && cell_of(#[trigger] marked(*doc)[j]) == cell_of(marked(*doc)[k]);
                assert(seen@[crate::grid::cell_key(w, x as int, y as int)]);
            }
        }
        let ghost s0 = seen@;
        let ghost gb = *g;
        seen.set(key, true);
        g.set_terrain(x, y, t);
        proof {
            assert forall|px: int, py: int| g.inside(px, py) implies (seen@[#[trigger] crate::grid::cell_key(
                w,
                px,
                py,
            )] <==> exists|j: int|
                0 <= j < k + 1 && cell_of(#[trigger] marked(*doc)[j]) == (px as i32, py as i32)) by {
                crate::grid::lemma_cell_key_range(w, g.h as int, px, py);
                if crate::grid::cell_key(w, px, py) == crate::grid::cell_key(w, x as int, y as int) {
                    crate::grid::lemma_cell_key_injective(w, px, py, x as int, y as int);
                    assert(cell_of(marked(*doc)[k]) == (px as i32, py as i32));
                } else {
                    assert(seen@[crate::grid::cell_key(w, px, py)] == s0[crate::grid::cell_key(w, px, py)]);
                    if exists|j: int|
                        0 <= j < k + 1 && cell_of(#[trigger] marked(*doc)[j]) == (px as i32, py as i32) {
                        let j = choose|j: int|
                            0 <= j < k + 1 && cell_of(#[trigger] marked(*doc)[j]) == (px as i32, py as i32);
                        if j == k {
                            assert(px == x && py == y);
                        }
                    }
                }
            }
            assert forall|px: int, py: int| g.inside(px, py) implies #[trigger] g.terrain_of(px, py) == if lists_cell(
                list@.subrange(0, i + 1),
                px,
                py,
            ) {
                t
            } else {
                g0.terrain_of(px, py)
            } by {
                let sub0 = list@.subrange(0, i as int);
                let sub1 = list@.subrange(0, i + 1);
                assert(sub1[i as int] == c);
                if lists_cell(sub0, px, py) {
                    let m = choose|m: int| 0 <= m < sub0.len() && cell_of(#[trigger] sub0[m]) == (px as i32, py as i32);
                    assert(sub1[m] == sub0[m]);
                }
                if lists_cell(sub1, px, py) && !(px == x && py == y) {
                    let m = choose|m: int| 0 <= m < sub1.len() && cell_of(#[trigger] sub1[m]) == (px as i32, py as i32);
                    assert(m < i);
                    assert(sub0[m] == sub1[m]);
                }
                if px == x && py == y {
                    assert(cell_of(sub1[i as int]) == (px as i32, py as i32));
                }
            }
        }
        i = i + 1;
    }
    assert(list@.subrange(0, list@.len() as int) == list@);
    Ok(())
}

/// Checks a document and paints its battlefield: the size first, then at least one relay
/// and one ingress, then every marked cell on the grid and no cell marked twice, and last
/// that every ingress can walk to a relay.
pub fn validate_map(doc: &MapDoc) -> (r: Result<Grid, MapError>)
    ensures
        layout_verdict(*doc) matches Err(e) ==> r == Err::<Grid, MapError>(e),
        layout_verdict(*doc) is Ok ==> match r {
            Ok(g) => paints(*doc, g) && spawns_open(g),
            Err(e) => e == MapError::Unreachable && exists|g: Grid| paints(*doc, g) && !spawns_open(g),
        },
{
    if doc.w < MIN_MAP || doc.h < MIN_MAP || doc.w > MAX_MAP_W || doc.h > MAX_MAP_H {
        return Err(MapError::Size);
    }
    if doc.cores.len() == 0 {
        return Err(MapError::NoCore);
    }
    if doc.spawns.len() == 0 {
        return Err(MapError::NoSpawn);
    }
    assert(doc.w * doc.h <= 64 * 48) by (nonlinear_arith)
        requires
            0 <= doc.w <= 64,
            0 <= doc.h <= 48,
    ;
    let mut g = Grid::new(doc.w, doc.h);
    let ghost g0 = g;
    let n = (doc.w * doc.h) as usize;
    let mut seen: Vec<bool> = Vec::new();
    let mut i: usize = 0;
    while i < n
        invariant
            i <= n,
            seen@.len() == i,
            forall|k: int| 0 <= k < i ==> !seen@[k],
        decreases n - i,
    {
        seen.push(false);
        i = i + 1;
    }
    proof {
        assert forall|x: int, y: int| g.inside(x, y) implies (seen@[#[trigger] crate::grid::cell_key(
            doc.w as int,
            x,
            y,
        )] <==> exists|j: int| 0 <= j < 0 && cell_of(#[trigger] marked(*doc)[j]) == (x as i32, y as i32)) by {
            crate::grid::lemma_cell_key_range(doc.w as int, doc.h as int, x, y);
        }
        assert forall|k: int| 0 <= k < doc.cores@.len() implies #[trigger] doc.cores@[k] == marked(*doc)[0 + k] by {}
    }
    let nc = doc.cores.len();
    let ns = doc.spawns.len();
    match stamp(doc, &mut g, &mut seen, &doc.cores, Ghost(0), Terrain::Core) {
        Ok(()) => {},
        Err(e) => {
            proof {
                let k = choose|k: int| #![trigger first_bad(*doc, k)] first_bad(*doc, k) && e == if !on_doc(*doc, marked(*doc)[k]) {
                    MapError::OutOfBounds
                } else {
                    MapError::Overlap
                };
                lemma_first_bad_unique(*doc, k);
            }
            return Err(e);
        },
    }
    let ghost g1 = g;
    proof {
        assert forall|k: int| 0 <= k < doc.spawns@.len() implies #[trigger] doc.spawns@[k] == marked(*doc)[nc + k] by {}
    }
    match stamp(doc, &mut g, &mut seen, &doc.spawns, Ghost(nc as int), Terrain::Spawn) {
        Ok(()) => {},
        Err(e) => {
            proof {
                let k = choose|k: int| #![trigger first_bad(*doc, k)] first_bad(*doc, k) && e == if !on_doc(*doc, marked(*doc)[k]) {
                    MapError::OutOfBounds
                } else {
                    MapError::Overlap
                };
                lemma_first_bad_unique(*doc, k);
            }
            return Err(e);
        },
    }
    let ghost g2 = g;
    proof {
        assert forall|k: int| 0 <= k < doc.rocks@.len() implies #[trigger] doc.rocks@[k] == marked(*doc)[nc + ns + k] by {}
    }
    match stamp(doc, &mut g, &mut seen, &doc.rocks, Ghost(nc + ns), Terrain::Rock) {
        Ok(()) => {},
        Err(e) => {
            proof {
                let k = choose|k: int| #![trigger first_bad(*doc, k)] first_bad(*doc, k) && e == if !on_doc(*doc, marked(*doc)[k]) {
                    MapError::OutOfBounds
                } else {
                    MapError::Overlap
                };
                lemma_first_bad_unique(*doc, k);
            }
            return Err(e);
        },
    }
    proof {
        assert(!exists|k: int| first_bad(*doc, k));
        assert(layout_verdict(*doc) is Ok);
        assert forall|x: int, y: int| g.inside(x, y) implies #[trigger] g.terrain_of(x, y) == doc_terrain(*doc, x, y) by {
            assert(g0.terrain_of(x, y) == Terrain::Empty);
        }
        assert forall|x: int, y: int| g.inside(x, y) implies #[trigger] g.occ_of(x, y) == Occupant::Vacant by {
            assert(g0.occ_of(x, y) == Occupant::Vacant);
            assert(g1.occ_of(x, y) == Occupant::Vacant);
            assert(g2.occ_of(x, y) == Occupant::Vacant);
        }
        assert(paints(*doc, g));
    }
    let flow = FlowField::compute(&g);
    if !flow.spawns_reachable(&g) {
        assert(paints(*doc, g) && !spawns_open(g));
        return Err(MapError::Unreachable);
    }
    Ok(g)
}

/// The cells of `v` as document positions.
pub(crate) fn to_cells(v: &Vec<(i32, i32)>) -> (r: Vec<[i32; 2]>)
    ensures
        r@.len() == v@.len(),
        forall|k: int| 0 <= k < v@.len() ==> cell_of(#[trigger] r@[k]) == v@[k],
{
    let mut r: Vec<[i32; 2]> = Vec::new();
    let mut i: usize = 0;
    while i < v.len()
        invariant
            i <= v@.len(),
            r@.len() == i,
            forall|k: int| 0 <= k < i ==> cell_of(#[trigger] r@[k]) == v@[k],
        decreases v@.len() - i,
    {
        let (x, y) = v[i];
        let c = [x, y];
        assert(c[0] == x && c[1] == y);
        r.push(c);
        i = i + 1;
    }
    r
}

/// Validates a document as read from JSON: a read that failed keeps its error, a document
/// that was read is checked by `validate_map` and comes back with its battlefield.
pub fn parse_and_validate(parsed: Result<MapDoc, MapError>) -> (r: Result<(MapDoc, Grid), MapError>)
    ensures
        parsed matches Err(e) ==> r == Err::<(MapDoc, Grid), MapError>(e),
        parsed matches Ok(doc) ==> {
            &&& layout_verdict(doc) matches Err(e) ==> r == Err::<(MapDoc, Grid), MapError>(e)
            &&& layout_verdict(doc) is Ok ==> match r {
                Ok((d, g)) => d == doc && paints(doc, g) && spawns_open(g),
                Err(e) => e == MapError::Unreachable && exists|g: Grid| paints(doc, g) && !spawns_open(g),
            }
        },
{
    match parsed {
        Err(e) => Err(e),
        Ok(doc) => match validate_map(&doc) {
            Ok(grid) => Ok((doc, grid)),
            Err(e) => Err(e),
        },
    }
}

/// The cell list of a document, as pairs.
pub open spec fn as_pairs(cells: Seq<[i32; 2]>) -> Seq<(i32, i32)> {
    cells.map_values(|c: [i32; 2]| cell_of(c))
}

/// The document lists `g`'s relays, ingress and rocks, each in row-major order.
pub open spec fn lists_grid(doc: MapDoc, g: Grid) -> bool {
    &&& doc.w == g.w
    &&& doc.h == g.h
    &&& lists_terrain(g, as_pairs(doc.cores@), Terrain::Core)
    &&& lists_terrain(g, as_pairs(doc.spawns@), Terrain::Spawn)
    &&& lists_terrain(g, as_pairs(doc.rocks@), Terrain::Rock)
}

/// Exports a battlefield as a document.
pub fn grid_to_doc(grid: &Grid, name: &str, slug: &str, seed: u64) -> (r: MapDoc)
    requires
        grid.wf(),
    ensures
        r.name@ == name@,
        r.slug@ == slug@,
        r.blurb@ == Seq::<char>::empty(),
        r.hazard@ == Seq::<char>::empty(),
        r.seed == seed,
        lists_grid(r, *grid),
{
    let cores = grid.cores();
    let spawns = grid.spawns();
    let rocks = grid.rocks();
    let doc = MapDoc {
        slug: slug.to_owned(),
        name: name.to_owned(),
        blurb: String::new(),
        hazard: String::new(),
        w: grid.w,
        h: grid.h,
        seed,
        cores: to_cells(&cores),
        spawns: to_cells(&spawns),
        rocks: to_cells(&rocks),
    };
    assert(as_pairs(doc.cores@) =~= cores@);
    assert(as_pairs(doc.spawns@) =~= spawns@);
    assert(as_pairs(doc.rocks@) =~= rocks@);
    doc
}

/// Exports a built-in theater as a document, with its briefing text and default seed.
pub fn theater_to_doc(id: u8) -> (r: Option<MapDoc>)
    ensures
        id >= THEATER_COUNT ==> r is None,
        id < THEATER_COUNT ==> (r matches Some(doc) && {
            &&& doc.name@ == theater_name(id as int)
            &&& doc.slug@ == theater_slug(id as int)
            &&& doc.blurb@ == theater_blurb(id as int)
            &&& doc.hazard@ == theater_hazard(id as int)
            &&& doc.seed == theater_seed(id as int)
            &&& exists|g: Grid| is_theater(g, id as int) && lists_grid(doc, g)
        }),
{
    let found = theater_by_id(id);
    if id >= 10 {
        return None;
    }
    let (grid, name, seed) = match found {
        Some(t) => t,
        None => return None,
    };
    assert(is_theater(grid, id as int));
    let list = theaters();
    let mut i: usize = 0;
    while i < list.len()
        invariant
            id < THEATER_COUNT,
            is_theater(grid, id as int),
            name@ == theater_name(id as int),
            seed == theater_seed(id as int),
            list@.len() == THEATER_COUNT,
            i <= list@.len(),
            forall|k: int|
                0 <= k < list@.len() ==> {
                    &&& (#[trigger] list@[k]).id == k
                    &&& list@[k].slug@ == theater_slug(k)
                    &&& list@[k].blurb@ == crate::maps::theater_blurb(k)
                    &&& list@[k].hazard@ == crate::maps::theater_hazard(k)
                },
            forall|k: int| 0 <= k < i ==> (#[trigger] list@[k]).id != id,
        decreases list@.len() - i,
    {
        if list[i].id == id {
            let info = &list[i];
            let mut doc = grid_to_doc(&grid, name, info.slug.as_str(), seed);
            doc.blurb = info.blurb.clone();
            doc.hazard = info.hazard.clone();
            return Some(doc);
        }
        i = i + 1;
    }
    assert(list@[id as int].id == id);
    None
}

/// Law: exporting a battlefield and reading the document back paints the same terrain,
/// and the document passes every check but the walk when its size is in range and it has
/// a relay and an ingress.
pub proof fn law_export_keeps_the_terrain(g: Grid, doc: MapDoc)
    requires
        g.wf(),
        lists_grid(doc, g),
        MIN_MAP <= g.w <= MAX_MAP_W,
        MIN_MAP <= g.h <= MAX_MAP_H,
        doc.cores@.len() > 0,
        doc.spawns@.len() > 0,
    ensures
        layout_verdict(doc) is Ok,
        forall|x: int, y: int| g.inside(x, y) ==> #[trigger] doc_terrain(doc, x, y) == g.terrain_of(x, y),
{
    let m = marked(doc);
    let nc = doc.cores@.len() as int;
    let ns = doc.spawns@.len() as int;
    let cp = as_pairs(doc.cores@);
    let sp = as_pairs(doc.spawns@);
    let rp = as_pairs(doc.rocks@);
    assert forall|k: int| 0 <= k < m.len() implies {
        &&& g.inside((#[trigger] m[k])[0] as int, m[k][1] as int)
        &&& g.terrain_of(m[k][0] as int, m[k][1] as int) == if k < nc {
            Terrain::Core
        } else if k < nc + ns {
            Terrain::Spawn
        } else {
            Terrain::Rock
        }
    } by {
        if k < nc {
            assert(m[k] == doc.cores@[k]);
            assert(cp[k] == cell_of(m[k]));
        } else if k < nc + ns {
            assert(m[k] == doc.spawns@[k - nc]);
            assert(sp[k - nc] == cell_of(m[k]));
        } else {
            assert(m[k] == doc.rocks@[k - nc - ns]);
            assert(rp[k - nc - ns] == cell_of(m[k]));
        }
    }
    assert forall|k: int| 0 <= k < m.len() implies !#[trigger] marked_bad(doc, k) by {
        if exists|j: int| 0 <= j < k && cell_of(#[trigger] m[j]) == cell_of(m[k]) {
            let j = choose|j: int| 0 <= j < k && cell_of(#[trigger] m[j]) == cell_of(m[k]);
            assert(m[j][0] == m[k][0] && m[j][1] == m[k][1]);
            assert(g.inside(m[j][0] as int, m[j][1] as int));
            assert(g.inside(m[k][0] as int, m[k][1] as int));
            if j < nc && k < nc {
                assert(crate::grid::row_before(cp[j], cp[k]));
            } else if nc <= j && k < nc + ns {
                assert(crate::grid::row_before(sp[j - nc], sp[k - nc]));
            } else if nc + ns <= j {
                assert(crate::grid::row_before(rp[j - nc - ns], rp[k - nc - ns]));
            }
        }
    }
    assert(!exists|k: int| first_bad(doc, k));
    assert forall|x: int, y: int| g.inside(x, y) implies #[trigger] doc_terrain(doc, x, y) == g.terrain_of(x, y) by {
        let t = g.terrain_of(x, y);
        if lists_cell(doc.rocks@, x, y) {
            let k = choose|k: int| 0 <= k < doc.rocks@.len() && cell_of(#[trigger] doc.rocks@[k]) == (x as i32, y as i32);
            assert(rp[k] == (x as i32, y as i32));
        } else if lists_cell(doc.spawns@, x, y) {
            let k = choose|k: int| 0 <= k < doc.spawns@.len() && cell_of(#[trigger] doc.spawns@[k]) == (x as i32, y as i32);
            assert(sp[k] == (x as i32, y as i32));
        } else if lists_cell(doc.cores@, x, y) {
            let k = choose|k: int| 0 <= k < doc.cores@.len() && cell_of(#[trigger] doc.cores@[k]) == (x as i32, y as i32);
            assert(cp[k] == (x as i32, y as i32));
        }
        if t == Terrain::Rock {
            assert(rp.contains((x as i32, y as i32)));
            let k = choose|k: int| 0 <= k < rp.len() && rp[k] == (x as i32, y as i32);
            assert(cell_of(doc.rocks@[k]) == (x as i32, y as i32));
        } else if t == Terrain::Spawn {
            assert(sp.contains((x as i32, y as i32)));
            let k = choose|k: int| 0 <= k < sp.len() && sp[k] == (x as i32, y as i32);
            assert(cell_of(doc.spawns@[k]) == (x as i32, y as i32));
        } else if t == Terrain::Core {
            assert(cp.contains((x as i32, y as i32)));
            let k = choose|k: int| 0 <= k < cp.len() && cp[k] == (x as i32, y as i32);
            assert(cell_of(doc.cores@[k]) == (x as i32, y as i32));
        }
    }
}

/// Law: an empty battlefield whose every ingress can walk to a relay exports to a document
/// that passes every check: its layout is sound, and every battlefield it paints has that
/// terrain and lets every ingress walk to a relay — so `validate_map` accepts it.
pub proof fn law_open_battlefield_exports_valid(g: Grid, doc: MapDoc)
    requires
        g.wf(),
        lists_grid(doc, g),
        MIN_MAP <= g.w <= MAX_MAP_W,
        MIN_MAP <= g.h <= MAX_MAP_H,
        doc.cores@.len() > 0,
        doc.spawns@.len() > 0,
        forall|x: int, y: int| g.inside(x, y) ==> #[trigger] g.occ_of(x, y) == Occupant::Vacant,
        spawns_open(g),
    ensures
        layout_verdict(doc) is Ok,
        forall|g2: Grid| #[trigger] paints(doc, g2) ==> g2.same_terrain(&g) && spawns_open(g2),
{
    law_export_keeps_the_terrain(g, doc);
    assert forall|g2: Grid| #[trigger] paints(doc, g2) implies g2.same_terrain(&g) && spawns_open(g2) by {
        assert forall|x: int, y: int| g2.inside(x, y) implies #[trigger] g2.terrain_of(x, y) == g.terrain_of(x, y) by {
            assert(doc_terrain(doc, x, y) == g.terrain_of(x, y));
        }
        assert forall|x: int, y: int| g2.inside(x, y) implies #[trigger] g2.occ_of(x, y) == g.occ_of(x, y) by {
        }
        lemma_same_field(g2, g, Seq::empty());
        assert(spawns_ok(g) == spawns_open(g));
        assert(spawns_ok(g2) == spawns_open(g2));
    }
}

} // verus!
