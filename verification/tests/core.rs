use otd_core::campaign::{campaign, challenges};
use otd_core::director::{WavePlan, WaveScript};
use otd_core::grid::{Grid, Occupant, Terrain};
use otd_core::mapdoc::{theater_to_doc, validate_map, MapDoc, MapError};
use otd_core::maps::{labyrinth, mossfold, oxbow, theater_by_id, theaters, tri_gate, twin_cores};
use otd_core::modifiers::{daily_pick, modifiers, Modifier};
use otd_core::orders::{replay_hash, Order, OrderOp, ReplayFile};
use otd_core::path::FlowField;

#[test]
fn every_mission_map_opens() {
    for m in campaign() {
        let (grid, _, _) = theater_by_id(m.map_id).expect("map");
        assert!(FlowField::compute(&grid).spawns_reachable(&grid), "{}", m.name);
    }
    for c in challenges() {
        let (grid, _, _) = theater_by_id(c.map_id).expect("challenge map");
        assert!(FlowField::compute(&grid).spawns_reachable(&grid), "{}", c.name);
    }
    assert_eq!(campaign().len(), 8);
    assert_eq!(challenges().len(), 6);
}

#[test]
fn wave_one_is_mixed_runners() {
    let p = WavePlan::for_wave(1, false);
    assert_eq!(p.script, WaveScript::Mixed);
    assert_eq!(p.runners, 8);
    assert_eq!(p.mites, 0);
    assert_eq!(p.wasps, 0);
    assert_eq!(p.medics, 0);
    assert_eq!(p.shades, 0);
    assert_eq!(p.flickers, 0);
}

#[test]
fn wave_two_is_swarm() {
    let p = WavePlan::for_wave(2, false);
    assert_eq!(p.script, WaveScript::Swarm);
    assert!(p.mites > 0);
}

#[test]
fn wave_ten_is_colossus() {
    let p = WavePlan::for_wave(10, false);
    assert_eq!(p.script, WaveScript::Colossus);
    assert!(p.colossus >= 1);
}

#[test]
fn ground_only_never_schedules_wasps() {
    for w in 1..40 {
        let p = WavePlan::for_wave(w, true);
        assert_eq!(p.wasps, 0, "wave {w}");
    }
}

#[test]
fn mixed_late_brings_shades() {
    let p = WavePlan::for_wave(7, false);
    assert_eq!(p.script, WaveScript::Mixed);
    assert!(p.shades > 0);
}

#[test]
fn split_always_has_shades() {
    let p = WavePlan::for_wave(5, false);
    assert_eq!(p.script, WaveScript::Split);
    assert!(p.shades > 0);
    assert!(p.flickers > 0);
}

#[test]
fn mixed_late_brings_flickers() {
    let p = WavePlan::for_wave(7, false);
    assert_eq!(p.script, WaveScript::Mixed);
    assert!(p.flickers > 0);
}

#[test]
fn bounds_and_buildable() {
    let mut g = Grid::new(4, 3);
    assert!(g.buildable(1, 1));
    g.set_terrain(1, 1, Terrain::Rock);
    assert!(!g.buildable(1, 1));
    assert!(g.blocks_ground(1, 1));
    assert!(!g.in_bounds(4, 0));
}

#[test]
fn builtin_theaters_export_and_validate() {
    for t in theaters() {
        let doc = theater_to_doc(t.id).expect("doc");
        if let Err(e) = validate_map(&doc) {
            panic!("{}: {}", t.name, e.message());
        }
    }
}

#[test]
fn sealed_spawn_is_rejected() {
    let doc = MapDoc {
        slug: "bad".to_string(),
        name: "Bad".to_string(),
        blurb: String::new(),
        hazard: String::new(),
        w: 10,
        h: 8,
        seed: 1,
        cores: vec![[9, 4]],
        spawns: vec![[0, 4]],
        rocks: (0..8).map(|y| [1, y]).collect(),
    };
    assert_eq!(validate_map(&doc).unwrap_err(), MapError::Unreachable);
}

#[test]
fn overlap_rejected() {
    let doc = MapDoc {
        slug: "o".to_string(),
        name: "O".to_string(),
        blurb: String::new(),
        hazard: String::new(),
        w: 10,
        h: 8,
        seed: 1,
        cores: vec![[2, 2]],
        spawns: vec![[2, 2]],
        rocks: vec![],
    };
    assert_eq!(validate_map(&doc).unwrap_err(), MapError::Overlap);
}

fn assert_open(g: Grid) {
    assert!(!g.cores().is_empty());
    assert!(!g.spawns().is_empty());
    let f = FlowField::compute(&g);
    assert!(f.spawns_reachable(&g));
}

#[test]
fn all_theaters_start_open() {
    for t in theaters() {
        let (grid, _, _) = theater_by_id(t.id).expect("theater");
        assert_open(grid);
    }
}

#[test]
fn twin_cores_has_two_relays() {
    let g = twin_cores();
    assert_eq!(g.core_clusters().len(), 2);
}

#[test]
fn tri_gate_has_three_doors() {
    let g = tri_gate();
    let spawns = g.spawns();
    assert!(spawns.iter().any(|(_, y)| *y == 0));
    assert!(spawns.iter().any(|(x, _)| *x == 0));
    assert!(spawns.iter().any(|(x, _)| *x == g.w - 1));
    assert_eq!(g.core_clusters().len(), 1);
}

#[test]
fn oxbow_has_a_cup_and_two_banks() {
    let g = oxbow();
    assert!(g.spawns().iter().all(|(_, y)| *y == 0));
    assert_eq!(g.core_clusters().len(), 1);
    assert!(g.blocks_ground(12, 8));
    assert!(g.blocks_ground(22, 8));
    assert!(g.blocks_ground(16, 15));
    assert!(!g.blocks_ground(8, 8));
    assert!(!g.blocks_ground(27, 8));
    assert!(!g.blocks_ground(16, 8));
}

#[test]
fn mossfold_is_forest_enclaves() {
    let g = mossfold();
    assert_eq!(g.w, 42);
    assert_eq!(g.h, 24);
    assert!(g.spawns().iter().all(|(x, _)| *x == 0));
    assert!(g.cores().iter().all(|(x, y)| *x >= 36 && *y <= 4));
    assert_eq!(g.core_clusters().len(), 1);
    assert!(g.blocks_ground(18, 6));
    assert!(g.blocks_ground(40, 22));
    assert!(!g.blocks_ground(4, 12));
    assert!(!g.blocks_ground(19, 21));
    assert!(!g.blocks_ground(31, 20));
    assert!(!g.blocks_ground(38, 15));
    assert!(g.blocks_ground(15, 19));
}

#[test]
fn labyrinth_is_a_long_maze() {
    let g = labyrinth();
    assert_eq!(g.w, 40);
    assert_eq!(g.h, 24);
    assert!(g.spawns().iter().all(|(x, _)| *x == 0));
    assert!(g.cores().iter().all(|(x, y)| *x >= 36 && *y >= 20));
    assert_eq!(g.core_clusters().len(), 1);
    let f = FlowField::compute(&g);
    let walk = f.max_spawn_dist(&g);
    assert!(walk >= 140, "labyrinth walk too short: {walk}");
    assert!(walk <= 220, "labyrinth walk too long: {walk}");
    let path = f.path_from(&g, 0, 2);
    assert!(
        path.iter().any(|p| p[0] <= 6 && p[1] >= 21),
        "walk must use the west floor before the relay"
    );
    assert!(
        path.iter().any(|p| p[0] >= 34 && p[1] >= 21),
        "walk must finish in the south-east"
    );
    assert!(f.dist_at(&g, 8, 21) > f.dist_at(&g, 30, 21), "floor runs east to the relay");
    assert!(g.blocks_ground(2, 5), "lane 1/2 wall");
    assert!(g.blocks_ground(2, 10), "lane 2/3 wall");
    assert!(g.blocks_ground(2, 15), "lane 3/4 wall");
    assert!(g.blocks_ground(10, 5), "pocket gap");
    assert!(!g.blocks_ground(18, 2), "lane 1");
    assert!(!g.blocks_ground(18, 7), "lane 2");
    assert!(!g.blocks_ground(18, 12), "lane 3");
    assert!(!g.blocks_ground(18, 17), "lane 4");
    assert!(!g.blocks_ground(4, 4), "gun pocket");
    assert!(!g.blocks_ground(36, 8), "east drop");
    assert!(!g.blocks_ground(3, 20), "west drop to floor");
    assert!(g.blocks_ground(39, 20), "nothing past the relay");
}

#[test]
fn daily_is_stable() {
    let a = daily_pick(20_000);
    let b = daily_pick(20_000);
    assert_eq!(a.map_id, b.map_id);
    assert_eq!(a.modifier_id, b.modifier_id);
    assert_eq!(a.seed, b.seed);
    assert_ne!(daily_pick(20_001).seed, a.seed);
}

#[test]
fn catalog_covers_enum() {
    assert_eq!(modifiers().len(), 7);
    assert_eq!(Modifier::from_u8(99), Modifier::Standard);
}

#[test]
fn hash_is_stable_and_sensitive() {
    let a = ReplayFile {
        version: 1,
        map_id: Some(0),
        map: None,
        modifier_id: 0,
        seed: 99,
        orders: vec![Order { tick: 0, op: OrderOp::SetBuild { kind: 2 } }],
        pack: None,
        outcome: None,
        hash: None,
    };
    let mut b = a.clone();
    assert_eq!(replay_hash(&a), replay_hash(&b));
    b.seed = 100;
    assert_ne!(replay_hash(&a), replay_hash(&b));
    let mut c = a.clone();
    c.orders[0].op = OrderOp::SetBuild { kind: 3 };
    assert_ne!(replay_hash(&a), replay_hash(&c));
}

fn hallway() -> Grid {
    let mut g = Grid::new(8, 3);
    g.set_terrain(0, 1, Terrain::Spawn);
    g.set_terrain(7, 1, Terrain::Core);
    for x in 0..8 {
        g.set_terrain(x, 0, Terrain::Rock);
        g.set_terrain(x, 2, Terrain::Rock);
    }
    g
}

#[test]
fn open_hallway_reaches() {
    let g = hallway();
    let f = FlowField::compute(&g);
    assert!(f.spawns_reachable(&g));
    assert_eq!(f.dist_at(&g, 0, 1), 7);
}

#[test]
fn wall_seals_hallway() {
    let mut g = hallway();
    g.set_occ(4, 1, Occupant::Wall);
    let f = FlowField::compute(&g);
    assert!(!f.spawns_reachable(&g));
}

#[test]
fn spawn_path_walks_to_the_core() {
    let g = hallway();
    let f = FlowField::compute(&g);
    let paths = f.spawn_paths(&g);
    assert_eq!(paths.len(), 1);
    assert_eq!(paths[0].first().copied(), Some([0, 1]));
    assert_eq!(paths[0].last().copied(), Some([7, 1]));
}
