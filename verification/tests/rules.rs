use otd_core::clusters::{cell_clusters, clusters, touches};
use otd_core::defs::{BuildKind, CreepKind, StrikeKind, TargetMode};
use otd_core::director::WavePlan;
use otd_core::grid::{Grid, Occupant, Terrain};
use otd_core::hand::{ClickAction, Hand};
use otd_core::lookup::{eq_ignoring_case, parse_map, parse_mod, parse_seed, parse_u8};
use otd_core::mapdoc::{parse_and_validate, theater_to_doc, MapDoc, MapError};
use otd_core::maps::{kilo_outpost, theater_by_id, twin_cores};
use otd_core::modifiers::Modifier;
use otd_core::orders::{
    replay_hash, replay_tick_cap, verify_replay, Order, OrderOp, ReplayFile, RunOutcome,
};
use otd_core::pack::PackError;
use otd_core::path::FlowField;
use otd_core::placement::{
    creeps_reachable, move_verdict, site_verdict, structure_occupant, try_build, try_move,
    PlaceError,
};
use otd_core::rng::Rng;
use otd_core::sim::{
    compose_wave, convert_verdict, due_orders, flow_hop, interest_gain, objective_after_clear,
    overcharge_verdict, repair_verdict, upgrade_verdict,
};
use otd_core::snapshot::{kind_parts_from_counts, kind_parts_from_plan, map_static_of, wave_intel};

fn hallway() -> Grid {
    let mut g = Grid::new(8, 3);
    g.set_terrain(0, 1, Terrain::Spawn);
    g.set_terrain(7, 1, Terrain::Core);
    for x in 0..8 {
        g.set_terrain(x, 0, Terrain::Rock);
        g.set_terrain(x, 2, Terrain::Rock);
    }
    g
}

fn field() -> Grid {
    let mut g = Grid::new(6, 5);
    g.set_terrain(0, 2, Terrain::Spawn);
    g.set_terrain(5, 2, Terrain::Core);
    g
}

#[test]
fn clusters_group_touching_cells() {
    let cells = vec![(0, 0), (1, 0), (5, 5), (9, 9), (5, 6)];
    let groups = cell_clusters(&cells);
    assert_eq!(groups.len(), 3);
    assert_eq!(groups[0][0], (0, 0));
    assert_eq!(groups[0].len(), 2);
    assert!(groups[0].contains(&(1, 0)));
    assert_eq!(groups[1][0], (5, 5));
    assert!(groups[1].contains(&(5, 6)));
    assert_eq!(groups[2], vec![(9, 9)]);
    let idx = clusters(&cells);
    assert_eq!(idx.len(), 3);
    assert_eq!(idx[1][0], 2);
    assert!(idx[1].contains(&4));
    assert!(!touches((0, 0), (1, 1)));
    assert!(touches((3, 4), (3, 5)));
    assert!(!touches((i32::MAX, 0), (i32::MIN, 0)));
}

#[test]
fn clusters_of_nothing_are_none() {
    assert!(clusters(&Vec::new()).is_empty());
}

#[test]
fn relay_clusters_hold_every_core_cell() {
    let g = twin_cores();
    let groups = g.core_clusters();
    let total: usize = groups.iter().map(|v| v.len()).sum();
    assert_eq!(total, g.cores().len());
    let first = groups[0][0];
    let second = groups[1][0];
    assert!(first.1 < second.1 || (first.1 == second.1 && first.0 < second.0));
}

#[test]
fn spawn_paths_one_walk_per_spawn_group() {
    let mut g = Grid::new(8, 5);
    g.set_terrain(0, 0, Terrain::Spawn);
    g.set_terrain(0, 1, Terrain::Spawn);
    g.set_terrain(0, 4, Terrain::Spawn);
    g.set_terrain(7, 2, Terrain::Core);
    let f = FlowField::compute(&g);
    let paths = f.spawn_paths(&g);
    assert_eq!(paths.len(), 2);
    assert_eq!(paths[0][0], [0, 0]);
    assert_eq!(paths[1][0], [0, 4]);
    assert_eq!(paths[0].last().copied(), Some([7, 2]));
    assert_eq!(paths[0].len() as u32, f.dist_at(&g, 0, 0) + 1);
}

#[test]
fn spawn_paths_skip_a_cut_off_group() {
    let mut g = hallway();
    g.set_occ(4, 1, Occupant::Wall);
    let f = FlowField::compute(&g);
    assert!(f.spawn_paths(&g).is_empty());
}

#[test]
fn build_that_seals_the_relay_is_refused_and_undone() {
    let mut g = hallway();
    let r = try_build(&mut g, 4, 1, Occupant::Wall, &Vec::new());
    assert_eq!(r.err(), Some(PlaceError::BlocksPath));
    assert_eq!(g.occupant(4, 1), Occupant::Vacant);
    assert!(FlowField::compute(&g).spawns_reachable(&g));
}

#[test]
fn build_that_keeps_the_walk_stays() {
    let mut g = field();
    let f = try_build(&mut g, 2, 2, Occupant::Tower(7), &vec![(1, 2)]).expect("open field");
    assert_eq!(g.occupant(2, 2), Occupant::Tower(7));
    assert!(f.spawns_reachable(&g));
    assert_eq!(f.dist_at(&g, 0, 2), 7);
    assert!(creeps_reachable(&g, &f, &vec![(1, 2), (4, 4)]));
}

#[test]
fn build_on_a_walking_creep_traps_it() {
    let mut g = field();
    let r = try_build(&mut g, 2, 2, Occupant::Wall, &vec![(2, 2)]);
    assert_eq!(r.err(), Some(PlaceError::TrapsCreeps));
    assert_eq!(g.occupant(2, 2), Occupant::Vacant);
}

#[test]
fn build_that_pockets_a_creep_traps_it() {
    let mut g = field();
    g.set_occ(0, 0, Occupant::Wall);
    g.set_occ(2, 0, Occupant::Wall);
    let r = try_build(&mut g, 1, 1, Occupant::Wall, &vec![(1, 0)]);
    assert_eq!(r.err(), Some(PlaceError::TrapsCreeps));
    assert_eq!(g.occupant(1, 1), Occupant::Vacant);
}

#[test]
fn moves_follow_the_maze_rule() {
    let mut open = Grid::new(6, 5);
    open.set_terrain(0, 2, Terrain::Spawn);
    open.set_terrain(5, 2, Terrain::Core);
    open.set_occ(1, 1, Occupant::Tower(3));
    let f = try_move(&mut open, 1, 1, 3, 3, Occupant::Tower(3), &Vec::new()).expect("move");
    assert_eq!(open.occupant(1, 1), Occupant::Vacant);
    assert_eq!(open.occupant(3, 3), Occupant::Tower(3));
    assert!(f.spawns_reachable(&open));
    let mut h = hallway();
    h.set_occ(2, 1, Occupant::Wall);
    let r = try_move(&mut h, 2, 1, 5, 1, Occupant::Wall, &Vec::new());
    assert_eq!(r.err(), Some(PlaceError::BlocksPath));
    assert_eq!(h.occupant(2, 1), Occupant::Wall);
    assert_eq!(h.occupant(5, 1), Occupant::Vacant);
}

#[test]
fn site_checks_in_order() {
    let mut g = field();
    g.set_terrain(3, 3, Terrain::Rock);
    let ok = site_verdict(&g, 1, 1, BuildKind::Autocannon, false, true, 50, 100, None, 0);
    assert_eq!(ok, Ok(()));
    assert_eq!(
        site_verdict(&g, 1, 1, BuildKind::Autocannon, true, true, 50, 100, None, 0),
        Err(PlaceError::Occupied)
    );
    assert_eq!(
        site_verdict(&g, 1, 1, BuildKind::Inspect, false, true, 50, 100, None, 0),
        Err(PlaceError::Occupied)
    );
    assert_eq!(
        site_verdict(&g, 9, 1, BuildKind::Autocannon, false, true, 50, 100, None, 0),
        Err(PlaceError::OutOfBounds)
    );
    assert_eq!(
        site_verdict(&g, 3, 3, BuildKind::Autocannon, false, true, 50, 100, None, 0),
        Err(PlaceError::Occupied)
    );
    assert_eq!(
        site_verdict(&g, 1, 1, BuildKind::Autocannon, false, false, 50, 100, None, 0),
        Err(PlaceError::NotInLoadout)
    );
    assert_eq!(
        site_verdict(&g, 1, 1, BuildKind::Autocannon, false, true, 150, 100, None, 0),
        Err(PlaceError::CantAfford)
    );
    assert_eq!(
        site_verdict(&g, 1, 1, BuildKind::Autocannon, false, true, 50, 100, Some(10), 10),
        Err(PlaceError::TurretCap)
    );
    assert_eq!(
        site_verdict(&g, 1, 1, BuildKind::Barricade, false, true, 5, 100, Some(10), 10),
        Ok(())
    );
}

#[test]
fn move_checks_in_order() {
    let g = field();
    assert_eq!(move_verdict(&g, 1, 1, 1, 1, false, 0, 6), Some(Ok(())));
    assert_eq!(move_verdict(&g, 1, 1, 2, 2, true, 100, 6), Some(Err(PlaceError::Occupied)));
    assert_eq!(move_verdict(&g, 1, 1, -1, 2, false, 100, 6), Some(Err(PlaceError::OutOfBounds)));
    assert_eq!(move_verdict(&g, 1, 1, 0, 2, false, 100, 6), Some(Err(PlaceError::Occupied)));
    assert_eq!(move_verdict(&g, 1, 1, 2, 2, false, 5, 6), Some(Err(PlaceError::CantAfford)));
    assert_eq!(move_verdict(&g, 1, 1, 2, 2, false, 6, 6), None);
}

#[test]
fn barricades_stand_as_walls() {
    assert_eq!(structure_occupant(BuildKind::Barricade, 4), Occupant::Wall);
    assert_eq!(structure_occupant(BuildKind::Helios, 4), Occupant::Tower(4));
}

#[test]
fn place_error_lines() {
    assert_eq!(PlaceError::BlocksPath.message(), "That would cut off the relay");
    assert_eq!(
        PlaceError::TrapsCreeps.message(),
        "That would trap someone with nowhere to walk"
    );
    assert_eq!(PlaceError::NothingToMove.message(), "Select a structure first");
    assert_eq!(PlaceError::Intact.message(), "Relay is intact");
}

#[test]
fn interest_is_four_percent_capped() {
    assert_eq!(interest_gain(1000, 400, 48), 40);
    assert_eq!(interest_gain(2000, 400, 48), 48);
    assert_eq!(interest_gain(0, 400, 48), 0);
    assert_eq!(interest_gain(-20, 400, 48), 0);
    assert_eq!(interest_gain(10_000, 0, 0), 0);
    assert_eq!(interest_gain(249, 400, 48), 9);
    let fixed = Modifier::FixedScrap.rules();
    assert_eq!(interest_gain(10_000, fixed.interest_bps, fixed.interest_cap), 0);
}

#[test]
fn repair_checks() {
    assert_eq!(repair_verdict(false, 10, 20, 35), Ok(()));
    assert_eq!(repair_verdict(true, 10, 20, 35), Err(PlaceError::RelayDown));
    assert_eq!(repair_verdict(false, 0, 20, 35), Err(PlaceError::RelayDown));
    assert_eq!(repair_verdict(false, 20, 20, 35), Err(PlaceError::Intact));
    assert_eq!(repair_verdict(false, 19, 20, 34), Err(PlaceError::CantAfford));
}

#[test]
fn wave_is_mustered_from_its_plan() {
    let g = kilo_outpost();
    let plan = WavePlan::for_wave(7, false);
    let mut rng = Rng::new(42);
    let q = compose_wave(plan, &mut rng, &g);
    assert_eq!(q.len() as u32, plan.total());
    let mut counts = [0u32; 9];
    for o in &q {
        counts[o.kind.index()] += 1;
        assert_eq!(g.terrain_at(o.spawn.0, o.spawn.1), Some(Terrain::Spawn));
    }
    assert_eq!(counts[CreepKind::Runner.index()], plan.runners);
    assert_eq!(counts[CreepKind::Shade.index()], plan.shades);
    assert_eq!(counts[CreepKind::Flicker.index()], plan.flickers);
    let mut again = Rng::new(42);
    let q2 = compose_wave(plan, &mut again, &g);
    for (a, b) in q.iter().zip(q2.iter()) {
        assert_eq!(a.kind, b.kind);
        assert_eq!(a.spawn, b.spawn);
    }
    assert_eq!(rng.next_u64(), again.next_u64());
}

#[test]
fn wave_without_spawns_enters_at_the_origin() {
    let mut g = Grid::new(8, 8);
    g.set_terrain(4, 4, Terrain::Core);
    let mut rng = Rng::new(1);
    let q = compose_wave(WavePlan::for_wave(1, false), &mut rng, &g);
    assert_eq!(q.len(), 8);
    assert!(q.iter().all(|o| o.spawn == (0, 0)));
}

#[test]
fn hop_follows_the_walk() {
    let g = hallway();
    let f = FlowField::compute(&g);
    assert_eq!(flow_hop(&f, &g, 0, 1, 3), (3, 1));
    assert_eq!(flow_hop(&f, &g, 0, 1, 100), (7, 1));
    assert_eq!(flow_hop(&f, &g, 0, 1, 0), (0, 1));
}

#[test]
fn hand_changes() {
    let mut h = Hand::fresh();
    assert_eq!(h.build, BuildKind::Inspect);
    assert!(!h.cancel());
    h.selected = Some(4);
    h.set_build(2);
    assert_eq!(h.build, BuildKind::Autocannon);
    assert_eq!(h.selected, None);
    h.set_strike(1);
    assert_eq!(h.strike, StrikeKind::Satchel);
    assert_eq!(h.build, BuildKind::Inspect);
    h.set_strike(9);
    assert_eq!(h.strike, StrikeKind::Unarmed);
    let g = field();
    h.set_hover(&g, 3, 3);
    assert_eq!(h.hover, Some((3, 3)));
    h.set_hover(&g, 30, 3);
    assert_eq!(h.hover, None);
    h.lift = Some(2);
    assert!(h.cancel());
    assert_eq!(h.lift, None);
}

#[test]
fn numbers_and_names_pick_maps_and_modifiers() {
    assert_eq!(parse_u8("255"), Some(255));
    assert_eq!(parse_u8("+7"), Some(7));
    assert_eq!(parse_u8("0042"), Some(42));
    assert_eq!(parse_u8("256"), None);
    assert_eq!(parse_u8(""), None);
    assert_eq!(parse_u8("+"), None);
    assert_eq!(parse_u8("-1"), None);
    assert_eq!(parse_u8("4a"), None);
    assert_eq!(parse_map("3"), 3);
    assert_eq!(parse_map("oxbow"), 7);
    assert_eq!(parse_map("TRI-GATE"), 6);
    assert_eq!(parse_map("nowhere"), 0);
    assert_eq!(parse_mod("4"), Modifier::FixedScrap);
    assert_eq!(parse_mod("CAP10"), Modifier::Cap10);
    assert_eq!(parse_mod("twenty guns"), Modifier::Cap20);
    assert_eq!(parse_mod("nothing"), Modifier::Standard);
    assert!(eq_ignoring_case("Kilo", "kILO"));
    assert!(!eq_ignoring_case("Kilo", "Kilos"));
}

fn mix(h: u64, v: u64) -> u64 {
    let mut x = h ^ v.wrapping_mul(0x9E37_79B9_7F4A_7C15);
    x = (x ^ (x >> 30)).wrapping_mul(0xBF58_476D_1CE4_E5B9);
    x ^ (x >> 31)
}

fn code(op: &OrderOp) -> u64 {
    match op {
        OrderOp::SetBuild { kind } => 1u64 << 8 | *kind as u64,
        OrderOp::SetStrike { kind } => 2u64 << 8 | *kind as u64,
        OrderOp::Click { x, y } => 3u64 << 32 | (*x as u64 & 0xFFFF) << 16 | (*y as u64 & 0xFFFF),
        OrderOp::Cancel => 4,
        OrderOp::Upgrade => 5,
        OrderOp::Sell => 6,
        OrderOp::Call => 7,
        OrderOp::Target => 8,
        OrderOp::Convert => 9,
        OrderOp::Repair => 10,
        OrderOp::Lift => 11,
        OrderOp::Overcharge => 12,
    }
}

fn expected_hash(file: &ReplayFile) -> String {
    let mut h = 0x0D7_CA11_u64;
    h = mix(h, file.version as u64);
    h = mix(h, file.seed);
    h = mix(h, file.modifier_id as u64);
    h = mix(h, file.map_id.unwrap_or(255) as u64);
    if let Some(m) = &file.map {
        h = mix(h, m.w as u64);
        h = mix(h, m.h as u64);
        h = mix(h, m.seed);
        h = mix(h, m.cores.len() as u64);
        h = mix(h, m.spawns.len() as u64);
        h = mix(h, m.rocks.len() as u64);
        for c in m.cores.iter().chain(&m.spawns).chain(&m.rocks) {
            h = mix(h, c[0] as u32 as u64);
            h = mix(h, c[1] as u32 as u64);
        }
    }
    h = mix(h, file.orders.len() as u64);
    for o in &file.orders {
        h = mix(h, o.tick);
        h = mix(h, code(&o.op));
    }
    match &file.pack {
        Some(Ok(fp)) => h = mix(h, *fp),
        Some(Err(_)) => h = mix(h, 0xBAD_FACE),
        None => {}
    }
    format!("{h:016x}")
}

fn every_order() -> Vec<Order> {
    let ops = vec![
        OrderOp::SetBuild { kind: 2 },
        OrderOp::SetStrike { kind: 3 },
        OrderOp::Click { x: -3, y: 70_000 },
        OrderOp::Cancel,
        OrderOp::Upgrade,
        OrderOp::Sell,
        OrderOp::Call,
        OrderOp::Target,
        OrderOp::Convert,
        OrderOp::Repair,
        OrderOp::Lift,
        OrderOp::Overcharge,
    ];
    ops.into_iter()
        .enumerate()
        .map(|(i, op)| Order { tick: i as u64 * 17, op })
        .collect()
}

#[test]
fn hash_is_sixteen_hex_digits_of_the_fingerprint() {
    let doc = theater_to_doc(3).expect("doc");
    let mut file = ReplayFile {
        version: 2,
        map_id: None,
        map: Some(doc),
        modifier_id: 5,
        seed: 0xDEAD_BEEF,
        orders: every_order(),
        pack: Some(Ok(0x1234_5678_9ABC)),
        outcome: None,
        hash: None,
    };
    let h = replay_hash(&file);
    assert_eq!(h.len(), 16);
    assert!(h.chars().all(|c| c.is_ascii_hexdigit() && !c.is_ascii_uppercase()));
    assert_eq!(h, expected_hash(&file));
    file.pack = Some(Err(PackError::EmptyTray));
    assert_eq!(replay_hash(&file), expected_hash(&file));
    file.pack = None;
    file.map = None;
    assert_eq!(replay_hash(&file), expected_hash(&file));
    let before = replay_hash(&file);
    file.hash = Some("nope".to_string());
    file.outcome = Some(RunOutcome { wave: 3, integrity: 1, kills: 2, leaks: 0, defeated: false, ticks: 9 });
    assert_eq!(replay_hash(&file), before);
}

#[test]
fn replay_verdicts() {
    let mut file = ReplayFile {
        version: 1,
        map_id: Some(0),
        map: None,
        modifier_id: 0,
        seed: 7,
        orders: every_order(),
        pack: None,
        outcome: None,
        hash: None,
    };
    assert_eq!(replay_tick_cap(&file), 11 * 17);
    let run = RunOutcome { wave: 4, integrity: 18, kills: 30, leaks: 2, defeated: false, ticks: 187 };
    let r = verify_replay(&file, Ok(run.clone()));
    assert!(r.ok && r.hash_ok && r.outcome_ok);
    assert_eq!(r.hash, replay_hash(&file));
    assert_eq!((r.wave, r.kills, r.leaks, r.ticks), (4, 30, 2, 187));
    file.hash = Some("0000000000000000".to_string());
    let r = verify_replay(&file, Ok(run.clone()));
    assert!(!r.ok && !r.hash_ok && r.outcome_ok);
    file.hash = None;
    file.outcome = Some(RunOutcome { kills: 31, ..run.clone() });
    assert_eq!(replay_tick_cap(&file), 187);
    let r = verify_replay(&file, Ok(run.clone()));
    assert!(!r.ok && r.hash_ok && !r.outcome_ok);
    let r = verify_replay(&file, Err("Bad JSON: x".to_string()));
    assert!(!r.ok && !r.outcome_ok);
    assert_eq!(r.error.as_deref(), Some("Bad JSON: x"));
    assert_eq!((r.wave, r.ticks), (0, 0));
    file.orders.clear();
    file.outcome = None;
    assert_eq!(replay_tick_cap(&file), 0);
}

#[test]
fn wave_cards() {
    let parts = kind_parts_from_plan(&WavePlan::for_wave(1, false));
    assert_eq!(parts.len(), 1);
    assert_eq!(parts[0].kind, CreepKind::Runner);
    assert_eq!(parts[0].name, "Runner");
    assert_eq!(parts[0].count, 8);
    let mut counts = [0u32; 9];
    counts[CreepKind::Mite.index()] = 3;
    counts[CreepKind::Runner.index()] = 1;
    let tally = kind_parts_from_counts(&counts);
    assert_eq!(tally.len(), 2);
    assert_eq!(tally[0].kind, CreepKind::Runner);
    assert_eq!(tally[1].name, "Mite");
    assert_eq!(tally[1].count, 3);
    let intel = wave_intel(10, false);
    assert_eq!(intel.script, "Colossus");
    assert_eq!(intel.total, WavePlan::for_wave(10, false).total());
    assert_eq!(intel.parts.iter().map(|p| p.count).sum::<u32>(), intel.total);
}

#[test]
fn map_cards() {
    let (g, name, seed) = theater_by_id(0).expect("kilo");
    let card = map_static_of(&g, 0, name, seed);
    assert_eq!(card.slug, "kilo");
    assert_eq!(card.name, name);
    assert_eq!(card.core.len(), g.cores().len());
    assert_eq!(card.spawns[0], [g.spawns()[0].0, g.spawns()[0].1]);
    let workshop = map_static_of(&g, 255, "Mine", 1);
    assert_eq!(workshop.slug, "workshop");
}

#[test]
fn parse_errors_pass_through_validation() {
    let r = parse_and_validate(Err(MapError::Parse("eof".to_string())));
    assert_eq!(r.err(), Some(MapError::Parse("eof".to_string())));
    assert_eq!(MapError::Parse("eof".to_string()).message(), "Bad JSON: eof");
    let doc = theater_to_doc(1).expect("doc");
    let (back, grid) = parse_and_validate(Ok(doc.clone())).expect("valid");
    assert_eq!(back.w, doc.w);
    assert_eq!(grid.cores().len(), doc.cores.len());
    let small = MapDoc { w: 4, ..doc };
    assert_eq!(parse_and_validate(Ok(small)).err(), Some(MapError::Size));
}

#[test]
fn pack_error_lines() {
    assert_eq!(PackError::Parse("x".to_string()).message(), "Bad JSON: x");
    assert_eq!(PackError::BadGun.message(), "Gun id must be 1–10 (barricade through siege rail)");
    assert_eq!(PackError::EmptyTray.message(), "A pack must leave at least one buildable enabled");
}

fn reference_seed(raw: &str) -> u64 {
    let t = raw.trim().trim_start_matches("0x").trim_start_matches("0X");
    u64::from_str_radix(t, 16)
        .or_else(|_| t.parse::<u64>())
        .unwrap_or(1)
}

#[test]
fn seeds_read_as_hex_then_decimal() {
    assert_eq!(parse_seed("ff"), 255);
    assert_eq!(parse_seed("  0xA11CE5 "), 0xA11CE5);
    assert_eq!(parse_seed("0X10"), 16);
    assert_eq!(parse_seed("12345678901234567890"), 12345678901234567890);
    assert_eq!(parse_seed("zz"), 1);
    assert_eq!(parse_seed(""), 1);
    assert_eq!(parse_seed("+7f"), 0x7f);
    for raw in [
        "\u{3000}beef\u{2009}",
        "0x0x12",
        "0x0X12",
        "0X0x12",
        "ffffffffffffffff",
        "10000000000000000",
        "18446744073709551616",
        "+",
        "-1",
        "0x",
        "\t\n 42 \r",
        "\u{85}9",
    ] {
        assert_eq!(parse_seed(raw), reference_seed(raw), "{raw:?}");
    }
}

#[test]
fn targeting_cycles_through_six_modes() {
    let mut m = TargetMode::First;
    let mut labels = Vec::new();
    for _ in 0..6 {
        labels.push(m.label());
        m = m.next();
        assert_ne!(m, m.next());
    }
    assert_eq!(m, TargetMode::First);
    assert_eq!(labels, vec!["First", "Last", "Strong", "Weak", "Flying", "Camo"]);
}

#[test]
fn codes_round_trip() {
    for v in 0..=12u8 {
        let b = BuildKind::from_u8(v);
        if (1..=10).contains(&v) {
            assert_eq!(b.id(), v);
        } else {
            assert_eq!(b, BuildKind::Inspect);
        }
        let s = StrikeKind::from_u8(v);
        if (1..=3).contains(&v) {
            assert_eq!(s.id(), v);
        } else {
            assert_eq!(s, StrikeKind::Unarmed);
        }
        let m = Modifier::from_u8(v);
        if v <= 6 {
            assert_eq!(m.id(), v);
        } else {
            assert_eq!(m, Modifier::Standard);
        }
    }
    for (i, k) in CreepKind::all().iter().enumerate() {
        assert_eq!(k.index(), i);
    }
}

#[test]
fn each_modifier_sets_its_own_rule() {
    let ground = Modifier::GroundOnly.rules();
    assert!(ground.ground_only);
    assert_eq!(Modifier::Cap10.rules().turret_cap, Some(10));
    assert_eq!(Modifier::Cap20.rules().turret_cap, Some(20));
    let fixed = Modifier::FixedScrap.rules();
    assert!(!fixed.kill_income);
    assert_eq!(fixed.interest_bps, 0);
    assert_eq!(fixed.starting_credits, 10_000);
    let accel = Modifier::Accelerated.rules();
    assert_eq!((accel.hp_mul_pct, accel.speed_mul_pct), (55, 185));
    assert_eq!(Modifier::RichBounties.rules().bounty_mul_pct, 225);
    let std_rules = Modifier::Standard.rules();
    assert_eq!(std_rules.interest_bps, 400);
    assert_eq!(std_rules.interest_cap, 48);
    assert_eq!(std_rules.turret_cap, None);
}

#[test]
fn upgrade_convert_and_overcharge_checks() {
    assert_eq!(upgrade_verdict(None, Some(10), 100), Err(PlaceError::NotATurret));
    assert_eq!(upgrade_verdict(Some(BuildKind::Barricade), Some(10), 100), Err(PlaceError::NotATurret));
    assert_eq!(upgrade_verdict(Some(BuildKind::Howitzer), None, 100), Err(PlaceError::MaxTier));
    assert_eq!(upgrade_verdict(Some(BuildKind::Howitzer), Some(120), 100), Err(PlaceError::CantAfford));
    assert_eq!(upgrade_verdict(Some(BuildKind::Howitzer), Some(86), 100), Ok(86));
    assert_eq!(convert_verdict(Some((BuildKind::Helios, false)), 1), Ok(()));
    assert_eq!(convert_verdict(Some((BuildKind::Helios, true)), 500), Err(PlaceError::AlreadyAir));
    assert_eq!(convert_verdict(Some((BuildKind::Inferno, false)), 500), Err(PlaceError::NotHelios));
    assert_eq!(convert_verdict(Some((BuildKind::Helios, false)), 0), Err(PlaceError::CantAfford));
    assert_eq!(convert_verdict(None, 500), Err(PlaceError::NotHelios));
    assert_eq!(overcharge_verdict(Some(BuildKind::SiegeRail), 40), Ok(()));
    assert_eq!(overcharge_verdict(Some(BuildKind::SiegeRail), 39), Err(PlaceError::CantAfford));
    assert_eq!(overcharge_verdict(Some(BuildKind::Barricade), 400), Err(PlaceError::NotATurret));
}

#[test]
fn walk_never_shrinks_when_building() {
    let mut g = Grid::new(7, 5);
    g.set_terrain(0, 2, Terrain::Spawn);
    g.set_terrain(6, 2, Terrain::Core);
    let before = FlowField::compute(&g);
    let walk_before = before.max_spawn_dist(&g);
    let after = try_build(&mut g, 3, 2, Occupant::Wall, &Vec::new()).expect("room to go around");
    let walk_after = after.max_spawn_dist(&g);
    assert_eq!(walk_before, 6);
    assert_eq!(walk_after, 8);
    for y in 0..5 {
        for x in 0..7 {
            if !g.blocks_ground(x, y) {
                assert!(before.dist_at(&g, x, y) <= after.dist_at(&g, x, y));
            }
        }
    }
}

#[test]
fn clicks_follow_the_hand() {
    let mut h = Hand::fresh();
    assert_eq!(h.click_action(false), ClickAction::Deselect);
    assert_eq!(h.click_action(true), ClickAction::Select);
    h.set_build(1);
    assert_eq!(h.click_action(true), ClickAction::Place(BuildKind::Barricade));
    h.set_strike(3);
    assert_eq!(h.click_action(true), ClickAction::Strike(StrikeKind::Orbital));
    h.cancel();
    h.selected = Some(9);
    assert_eq!(h.toggle_lift(false), Err(PlaceError::NothingToMove));
    assert_eq!(h.lift, None);
    assert_eq!(h.toggle_lift(true), Ok(true));
    assert_eq!(h.lift, Some(9));
    assert_eq!(h.click_action(true), ClickAction::Relocate(9));
    h.after_move(Err(PlaceError::BlocksPath));
    assert_eq!(h.lift, Some(9));
    h.after_move(Err(PlaceError::NothingToMove));
    assert_eq!(h.lift, None);
    assert_eq!(h.toggle_lift(true), Ok(true));
    assert_eq!(h.toggle_lift(true), Ok(false));
    assert_eq!(h.lift, None);
    h.lift = Some(9);
    h.forget(9);
    assert_eq!((h.selected, h.lift), (None, None));
}

#[test]
fn hold_objective_and_due_orders() {
    assert_eq!(objective_after_clear(9, Some(8), false), (true, "OBJECTIVE HELD"));
    assert_eq!(objective_after_clear(8, Some(8), false), (false, "FIELD CLEAR  ·  FORTIFY"));
    assert_eq!(objective_after_clear(12, Some(8), true), (true, "FIELD CLEAR  ·  FORTIFY"));
    assert_eq!(objective_after_clear(30, None, false), (false, "FIELD CLEAR  ·  FORTIFY"));
    let orders = every_order();
    assert_eq!(due_orders(&orders, 0, 0), 1);
    assert_eq!(due_orders(&orders, 1, 40), 3);
    assert_eq!(due_orders(&orders, 3, 10_000), orders.len());
    assert_eq!(due_orders(&orders, orders.len(), 10_000), orders.len());
}
