use otd_core::grid::Terrain;
use otd_core::maps::mossfold;
use otd_core::pack::{pack_fingerprint, resolve_pack, PackError, PatchFacts, FINGERPRINT_SEED};

fn facts(id: u8) -> PatchFacts {
    PatchFacts {
        id,
        cost: None,
        volley: None,
        name_len: None,
        role_len: None,
        blurb_len: None,
        floats_in_range: true,
        enabled: None,
    }
}

fn verdict(guns: Vec<PatchFacts>, strikes: Vec<PatchFacts>) -> Result<(Vec<bool>, Vec<bool>), PackError> {
    resolve_pack(&guns, &strikes).map(|t| (t.guns, t.strikes))
}

#[test]
fn bad_id_rejected() {
    let mut p = facts(99);
    p.cost = Some(1);
    assert_eq!(verdict(vec![p], vec![]), Err(PackError::BadGun));
}

#[test]
fn disable_drops_from_catalog() {
    let mut p = facts(2);
    p.enabled = Some(false);
    let (guns, strikes) = verdict(vec![p], vec![]).unwrap();
    assert!(!guns[2]);
    assert!(guns[1] && guns[3] && guns[10]);
    assert!(!guns[0]);
    assert_eq!(strikes, vec![false, true, true, true]);
}

#[test]
fn empty_tray_is_rejected() {
    let guns: Vec<PatchFacts> = (1u8..=10)
        .map(|id| {
            let mut p = facts(id);
            p.enabled = Some(false);
            p
        })
        .collect();
    assert_eq!(verdict(guns, vec![]), Err(PackError::EmptyTray));
}

#[test]
fn stock_pack_keeps_every_slot() {
    let (guns, strikes) = verdict(vec![], vec![]).unwrap();
    assert_eq!(guns, vec![false, true, true, true, true, true, true, true, true, true, true]);
    assert_eq!(strikes, vec![false, true, true, true]);
}

#[test]
fn pack_ids_out_of_range() {
    assert_eq!(verdict(vec![facts(0)], vec![]), Err(PackError::BadGun));
    assert_eq!(verdict(vec![facts(11)], vec![]), Err(PackError::BadGun));
    assert_eq!(verdict(vec![], vec![facts(0)]), Err(PackError::BadStrike));
    assert_eq!(verdict(vec![], vec![facts(4)]), Err(PackError::BadStrike));
    assert!(verdict(vec![facts(10)], vec![facts(3)]).is_ok());
}

#[test]
fn pack_repeats_refused() {
    assert_eq!(verdict(vec![facts(3), facts(3)], vec![]), Err(PackError::DuplicateGun));
    assert_eq!(verdict(vec![], vec![facts(1), facts(1)]), Err(PackError::DuplicateStrike));
}

#[test]
fn pack_guns_are_read_before_strikes() {
    assert_eq!(verdict(vec![facts(12)], vec![facts(9)]), Err(PackError::BadGun));
    // The first faulty patch decides: a range fault before a repeated id.
    let mut bad = facts(4);
    bad.cost = Some(-1);
    assert_eq!(verdict(vec![bad, facts(4)], vec![]), Err(PackError::Range));
    assert_eq!(verdict(vec![facts(4), facts(4), facts(77)], vec![]), Err(PackError::DuplicateGun));
}

#[test]
fn pack_value_ranges() {
    let ok = |p: PatchFacts| verdict(vec![p], vec![]).is_ok();
    let mut p = facts(2);
    p.cost = Some(250_000);
    assert!(ok(p));
    let mut p = facts(2);
    p.cost = Some(250_001);
    assert!(!ok(p));
    let mut p = facts(2);
    p.volley = Some(16);
    assert!(ok(p));
    let mut p = facts(2);
    p.volley = Some(17);
    assert!(!ok(p));
    let mut p = facts(2);
    p.name_len = Some(0);
    assert!(!ok(p));
    let mut p = facts(2);
    p.name_len = Some(32);
    assert!(ok(p));
    let mut p = facts(2);
    p.name_len = Some(33);
    assert!(!ok(p));
    let mut p = facts(2);
    p.role_len = Some(49);
    assert!(!ok(p));
    let mut p = facts(2);
    p.blurb_len = Some(160);
    assert!(ok(p));
    let mut p = facts(2);
    p.blurb_len = Some(161);
    assert!(!ok(p));
    let mut p = facts(2);
    p.floats_in_range = false;
    assert_eq!(verdict(vec![p], vec![]), Err(PackError::Range));
}

#[test]
fn pack_reenabling_counts() {
    let mut guns: Vec<PatchFacts> = (1u8..=10)
        .map(|id| {
            let mut p = facts(id);
            p.enabled = Some(id == 7);
            p
        })
        .collect();
    let (flags, _) = verdict(guns, vec![]).unwrap();
    assert_eq!(flags.iter().filter(|b| **b).count(), 1);
    assert!(flags[7]);
    guns = vec![];
    let mut s = facts(2);
    s.enabled = Some(false);
    let (_, strikes) = verdict(guns, vec![s]).unwrap();
    assert_eq!(strikes, vec![false, true, false, true]);
}

#[test]
fn fingerprint_folds_each_word() {
    assert_eq!(pack_fingerprint(&vec![]), FINGERPRINT_SEED);
    assert_eq!(FINGERPRINT_SEED, 0x10AD_0000);
    assert_eq!(pack_fingerprint(&vec![7]), 0xd3c3408fe5e4b296);
    assert_eq!(pack_fingerprint(&vec![1, 2]), 0x54408c23c3450ff6);
    assert_ne!(pack_fingerprint(&vec![1, 2]), pack_fingerprint(&vec![2, 1]));
}

const MOSSFOLD_ROWS: [&str; 24] = [
    "..............................############",
    ".................####.........########CC##",
    ".............#########.####......###..CC##",
    "............################............#.",
    "............###############..........#####",
    "S.....####..##############..........######",
    "S....######.#############............#####",
    "S....######.##############..........######",
    "S.....####..#############..#####.....#####",
    "S..............#########..#######....#####",
    "S..........###......####.########.....####",
    "S.........####...........#########........",
    "S.........####...........#########........",
    "S....###...##.............#########.......",
    "S...#####...................######........",
    "S...#####.............###....####.........",
    "S...####............######................",
    "S............####...######................",
    "S..........########.##..##............####",
    "S........##########..###..##.....#########",
    "........#####..####......####....#########",
    ".........###.#####........###....#########",
    ".................................#########",
    ".................................#########",
];

#[test]
fn mossfold_matches_every_cell() {
    let g = mossfold();
    assert_eq!((g.w, g.h), (42, 24));
    for (y, row) in MOSSFOLD_ROWS.iter().enumerate() {
        for (x, c) in row.chars().enumerate() {
            let want = match c {
                '#' => Terrain::Rock,
                'S' => Terrain::Spawn,
                'C' => Terrain::Core,
                _ => Terrain::Empty,
            };
            assert_eq!(g.terrain_at(x as i32, y as i32), Some(want), "cell ({x}, {y})");
        }
    }
}
