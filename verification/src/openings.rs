//! Every built-in theater opens with each spawn cell able to walk to a relay. Each proof
//! below walks from a relay cell, run by run, onto every spawn cell of its map.

use vstd::prelude::*;
use crate::grid::{in_rect, lemma_beyond_blob, Grid, Occupant, Terrain};
use crate::maps::{after_blob, mossfold_plateaus, dust_cut_terrain, enclave_terrain, kilo_outpost_terrain, labyrinth_terrain, mossfold_terrain, oxbow_terrain, redoubt_terrain, split_relay_terrain, tri_gate_terrain, twin_cores_terrain, is_theater, theater_terrain, theater_width, theater_height, THEATER_COUNT};
use crate::path::{on_run, reachable, lemma_relay_reached, lemma_walk_run, lemma_walk_step};
use crate::campaign::{challenge_row, mission_row, law_campaign_names_real_theaters, CHALLENGE_COUNT, MISSION_COUNT};
use crate::placement::spawns_ok;

verus! {

#[verifier::spinoff_prover]
#[verifier::rlimit(60)]
proof fn lemma_kilo_outpost_open(g: Grid)
    requires
        g.wf(),
        g.w == 40,
        g.h == 24,
        forall|x: int, y: int| g.inside(x, y) ==> #[trigger] g.terrain_of(x, y) == kilo_outpost_terrain(x, y),
        forall|x: int, y: int| g.inside(x, y) ==> #[trigger] g.occ_of(x, y) == Occupant::Vacant,
    ensures
        spawns_ok(g),
{
    lemma_relay_reached(g, 3, 20);
    lemma_walk_run(g, 3, 20, 7, 20);
    lemma_walk_run(g, 7, 20, 7, 17);
    lemma_walk_run(g, 7, 17, 8, 17);
    lemma_walk_run(g, 8, 17, 8, 0);
    lemma_walk_run(g, 8, 0, 19, 0);
    lemma_walk_run(g, 19, 0, 27, 0);
    lemma_walk_run(g, 27, 0, 37, 0);
    lemma_walk_run(g, 37, 0, 39, 0);
    lemma_walk_run(g, 39, 0, 39, 1);
    lemma_walk_run(g, 39, 1, 39, 8);
}

#[verifier::spinoff_prover]
#[verifier::rlimit(60)]
proof fn lemma_redoubt_open(g: Grid)
    requires
        g.wf(),
        g.w == 36,
        g.h == 24,
        forall|x: int, y: int| g.inside(x, y) ==> #[trigger] g.terrain_of(x, y) == redoubt_terrain(x, y),
        forall|x: int, y: int| g.inside(x, y) ==> #[trigger] g.occ_of(x, y) == Occupant::Vacant,
    ensures
        spawns_ok(g),
{
    lemma_relay_reached(g, 17, 11);
    lemma_walk_run(g, 17, 11, 13, 11);
    lemma_walk_run(g, 13, 11, 13, 9);
    lemma_walk_run(g, 13, 9, 7, 9);
    lemma_walk_run(g, 7, 9, 7, 0);
    lemma_walk_run(g, 7, 0, 1, 0);
    lemma_walk_run(g, 1, 0, 0, 0);
    lemma_walk_run(g, 0, 0, 0, 1);
    lemma_walk_run(g, 0, 1, 0, 5);
    lemma_relay_reached(g, 18, 12);
    lemma_walk_run(g, 18, 12, 22, 12);
    lemma_walk_run(g, 22, 12, 22, 14);
    lemma_walk_run(g, 22, 14, 35, 14);
    lemma_walk_run(g, 35, 14, 35, 18);
    lemma_walk_run(g, 35, 18, 35, 22);
    lemma_walk_run(g, 35, 22, 34, 22);
    lemma_walk_run(g, 34, 22, 34, 23);
    lemma_walk_run(g, 34, 23, 28, 23);
}

#[verifier::spinoff_prover]
#[verifier::rlimit(60)]
proof fn lemma_dust_cut_open(g: Grid)
    requires
        g.wf(),
        g.w == 40,
        g.h == 24,
        forall|x: int, y: int| g.inside(x, y) ==> #[trigger] g.terrain_of(x, y) == dust_cut_terrain(x, y),
        forall|x: int, y: int| g.inside(x, y) ==> #[trigger] g.occ_of(x, y) == Occupant::Vacant,
    ensures
        spawns_ok(g),
{
    lemma_relay_reached(g, 36, 20);
    lemma_walk_run(g, 36, 20, 22, 20);
    lemma_walk_run(g, 22, 20, 22, 19);
    lemma_walk_run(g, 22, 19, 16, 19);
    lemma_walk_run(g, 16, 19, 16, 13);
    lemma_walk_run(g, 16, 13, 14, 13);
    lemma_walk_run(g, 14, 13, 14, 3);
    lemma_walk_run(g, 14, 3, 13, 3);
    lemma_walk_run(g, 13, 3, 13, 0);
    lemma_walk_run(g, 13, 0, 2, 0);
    lemma_walk_run(g, 2, 0, 0, 0);
    lemma_walk_run(g, 0, 0, 0, 2);
    lemma_walk_run(g, 0, 2, 0, 11);
}

#[verifier::spinoff_prover]
#[verifier::rlimit(60)]
proof fn lemma_split_relay_open(g: Grid)
    requires
        g.wf(),
        g.w == 40,
        g.h == 24,
        forall|x: int, y: int| g.inside(x, y) ==> #[trigger] g.terrain_of(x, y) == split_relay_terrain(x, y),
        forall|x: int, y: int| g.inside(x, y) ==> #[trigger] g.occ_of(x, y) == Occupant::Vacant,
    ensures
        spawns_ok(g),
{
    lemma_relay_reached(g, 19, 20);
    lemma_walk_run(g, 19, 20, 12, 20);
    lemma_walk_run(g, 12, 20, 12, 10);
    lemma_walk_run(g, 12, 10, 11, 10);
    lemma_walk_run(g, 11, 10, 11, 0);
    lemma_walk_run(g, 11, 0, 1, 0);
    lemma_relay_reached(g, 20, 20);
    lemma_walk_run(g, 20, 20, 26, 20);
    lemma_walk_run(g, 26, 20, 26, 9);
    lemma_walk_run(g, 26, 9, 28, 9);
    lemma_walk_run(g, 28, 9, 28, 0);
    lemma_walk_run(g, 28, 0, 38, 0);
}

#[verifier::spinoff_prover]
#[verifier::rlimit(60)]
proof fn lemma_enclave_open(g: Grid)
    requires
        g.wf(),
        g.w == 28,
        g.h == 18,
        forall|x: int, y: int| g.inside(x, y) ==> #[trigger] g.terrain_of(x, y) == enclave_terrain(x, y),
        forall|x: int, y: int| g.inside(x, y) ==> #[trigger] g.occ_of(x, y) == Occupant::Vacant,
    ensures
        spawns_ok(g),
{
    lemma_relay_reached(g, 13, 8);
    lemma_walk_run(g, 13, 8, 9, 8);
    lemma_walk_run(g, 9, 8, 9, 0);
    lemma_walk_run(g, 9, 0, 3, 0);
    lemma_walk_run(g, 9, 0, 18, 0);
    lemma_walk_run(g, 18, 0, 24, 0);
    lemma_walk_run(g, 3, 0, 0, 0);
    lemma_walk_run(g, 0, 0, 0, 6);
    lemma_walk_run(g, 0, 6, 0, 11);
}

#[verifier::spinoff_prover]
#[verifier::rlimit(60)]
proof fn lemma_twin_cores_open(g: Grid)
    requires
        g.wf(),
        g.w == 42,
        g.h == 24,
        forall|x: int, y: int| g.inside(x, y) ==> #[trigger] g.terrain_of(x, y) == twin_cores_terrain(x, y),
        forall|x: int, y: int| g.inside(x, y) ==> #[trigger] g.occ_of(x, y) == Occupant::Vacant,
    ensures
        spawns_ok(g),
{
    lemma_relay_reached(g, 2, 11);
    lemma_walk_run(g, 2, 11, 16, 11);
    lemma_walk_run(g, 16, 11, 16, 0);
    lemma_walk_run(g, 16, 0, 25, 0);
    lemma_relay_reached(g, 1, 11);
    lemma_walk_run(g, 1, 11, 0, 11);
    lemma_walk_run(g, 0, 11, 0, 9);
    lemma_walk_run(g, 0, 9, 0, 2);
    lemma_relay_reached(g, 40, 11);
    lemma_walk_run(g, 40, 11, 41, 11);
    lemma_walk_run(g, 41, 11, 41, 9);
    lemma_walk_run(g, 41, 9, 41, 2);
}

#[verifier::spinoff_prover]
#[verifier::rlimit(60)]
proof fn lemma_tri_gate_open(g: Grid)
    requires
        g.wf(),
        g.w == 40,
        g.h == 24,
        forall|x: int, y: int| g.inside(x, y) ==> #[trigger] g.terrain_of(x, y) == tri_gate_terrain(x, y),
        forall|x: int, y: int| g.inside(x, y) ==> #[trigger] g.occ_of(x, y) == Occupant::Vacant,
    ensures
        spawns_ok(g),
{
    lemma_relay_reached(g, 19, 20);
    lemma_walk_run(g, 19, 20, 19, 0);
    lemma_walk_run(g, 19, 0, 16, 0);
    lemma_walk_run(g, 19, 0, 23, 0);
    lemma_walk_run(g, 19, 9, 0, 9);
    lemma_walk_run(g, 0, 9, 0, 8);
    lemma_walk_run(g, 0, 9, 0, 16);
    lemma_walk_run(g, 19, 9, 39, 9);
    lemma_walk_run(g, 39, 9, 39, 8);
    lemma_walk_run(g, 39, 9, 39, 16);
}

#[verifier::spinoff_prover]
#[verifier::rlimit(60)]
proof fn lemma_oxbow_open(g: Grid)
    requires
        g.wf(),
        g.w == 36,
        g.h == 22,
        forall|x: int, y: int| g.inside(x, y) ==> #[trigger] g.terrain_of(x, y) == oxbow_terrain(x, y),
        forall|x: int, y: int| g.inside(x, y) ==> #[trigger] g.occ_of(x, y) == Occupant::Vacant,
    ensures
        spawns_ok(g),
{
    lemma_relay_reached(g, 16, 19);
    lemma_walk_run(g, 16, 19, 11, 19);
    lemma_walk_run(g, 11, 19, 11, 0);
    lemma_walk_run(g, 11, 0, 10, 0);
    lemma_walk_run(g, 11, 0, 25, 0);
}

#[verifier::spinoff_prover]
proof fn lemma_mossfold_leg_0(g: Grid)
    requires
        g.wf(),
        g.w == 42,
        g.h == 24,
        forall|x: int, y: int| g.inside(x, y) ==> #[trigger] g.terrain_of(x, y) == mossfold_terrain(x, y),
        forall|x: int, y: int| g.inside(x, y) ==> #[trigger] g.occ_of(x, y) == Occupant::Vacant,
        reachable(g, 38, 2),
    ensures
        reachable(g, 33, 3),
{
    assert(g.terrain_of(37, 2) != Terrain::Rock) by {
        assert(100 * ((-35) * (-35) * (28 * 28) + (25) * (25) * (36 * 36)) > 116 * (36 * 36) * (28 * 28)) by (nonlinear_arith);
        lemma_beyond_blob(410, 0, 36, 28, 37, 2);
        assert(100 * ((33) * (33) * (24 * 24) + (21) * (21) * (44 * 44)) > 116 * (44 * 44) * (24 * 24)) by (nonlinear_arith);
        lemma_beyond_blob(342, 4, 44, 24, 37, 2);
    }
    lemma_walk_step(g, 38, 2, 37, 2);
    assert(g.terrain_of(37, 3) != Terrain::Rock) by {
        assert(100 * ((-35) * (-35) * (28 * 28) + (35) * (35) * (36 * 36)) > 116 * (36 * 36) * (28 * 28)) by (nonlinear_arith);
        lemma_beyond_blob(410, 0, 36, 28, 37, 3);
        assert(100 * ((33) * (33) * (24 * 24) + (31) * (31) * (44 * 44)) > 116 * (44 * 44) * (24 * 24)) by (nonlinear_arith);
        lemma_beyond_blob(342, 4, 44, 24, 37, 3);
        assert(100 * ((-35) * (-35) * (36 * 36) + (-37) * (-37) * (48 * 48)) > 116 * (48 * 48) * (36 * 36)) by (nonlinear_arith);
        lemma_beyond_blob(410, 72, 48, 36, 37, 3);
    }
    lemma_walk_step(g, 37, 2, 37, 3);
    assert(g.terrain_of(36, 3) != Terrain::Rock) by {
        assert(100 * ((23) * (23) * (24 * 24) + (31) * (31) * (44 * 44)) > 116 * (44 * 44) * (24 * 24)) by (nonlinear_arith);
        lemma_beyond_blob(342, 4, 44, 24, 36, 3);
        assert(100 * ((-45) * (-45) * (36 * 36) + (-37) * (-37) * (48 * 48)) > 116 * (48 * 48) * (36 * 36)) by (nonlinear_arith);
        lemma_beyond_blob(410, 72, 48, 36, 36, 3);
    }
    lemma_walk_step(g, 37, 3, 36, 3);
    assert(g.terrain_of(35, 3) != Terrain::Rock) by {
        assert(100 * ((13) * (13) * (24 * 24) + (31) * (31) * (44 * 44)) > 116 * (44 * 44) * (24 * 24)) by (nonlinear_arith);
        lemma_beyond_blob(342, 4, 44, 24, 35, 3);
    }
    lemma_walk_step(g, 36, 3, 35, 3);
    assert(g.terrain_of(34, 3) != Terrain::Rock) by {
        assert(100 * ((3) * (3) * (24 * 24) + (31) * (31) * (44 * 44)) > 116 * (44 * 44) * (24 * 24)) by (nonlinear_arith);
        lemma_beyond_blob(342, 4, 44, 24, 34, 3);
    }
    lemma_walk_step(g, 35, 3, 34, 3);
    assert(g.terrain_of(33, 3) != Terrain::Rock) by {
        assert(100 * ((-7) * (-7) * (24 * 24) + (31) * (31) * (44 * 44)) > 116 * (44 * 44) * (24 * 24)) by (nonlinear_arith);
        lemma_beyond_blob(342, 4, 44, 24, 33, 3);
    }
    lemma_walk_step(g, 34, 3, 33, 3);
}

#[verifier::spinoff_prover]
proof fn lemma_mossfold_leg_1(g: Grid)
    requires
        g.wf(),
        g.w == 42,
        g.h == 24,
        forall|x: int, y: int| g.inside(x, y) ==> #[trigger] g.terrain_of(x, y) == mossfold_terrain(x, y),
        forall|x: int, y: int| g.inside(x, y) ==> #[trigger] g.occ_of(x, y) == Occupant::Vacant,
        reachable(g, 33, 3),
    ensures
        reachable(g, 28, 2),
{
    assert(g.terrain_of(32, 3) != Terrain::Rock) by {
        assert(100 * ((-17) * (-17) * (24 * 24) + (31) * (31) * (44 * 44)) > 116 * (44 * 44) * (24 * 24)) by (nonlinear_arith);
        lemma_beyond_blob(342, 4, 44, 24, 32, 3);
    }
    lemma_walk_step(g, 33, 3, 32, 3);
    assert(g.terrain_of(31, 3) != Terrain::Rock) by {
        assert(100 * ((-27) * (-27) * (24 * 24) + (31) * (31) * (44 * 44)) > 116 * (44 * 44) * (24 * 24)) by (nonlinear_arith);
        lemma_beyond_blob(342, 4, 44, 24, 31, 3);
    }
    lemma_walk_step(g, 32, 3, 31, 3);
    assert(g.terrain_of(30, 3) != Terrain::Rock) by {
        assert(100 * ((-37) * (-37) * (24 * 24) + (31) * (31) * (44 * 44)) > 116 * (44 * 44) * (24 * 24)) by (nonlinear_arith);
        lemma_beyond_blob(342, 4, 44, 24, 30, 3);
    }
    lemma_walk_step(g, 31, 3, 30, 3);
    assert(g.terrain_of(29, 3) != Terrain::Rock) by {
        assert(100 * ((-47) * (-47) * (24 * 24) + (31) * (31) * (44 * 44)) > 116 * (44 * 44) * (24 * 24)) by (nonlinear_arith);
        lemma_beyond_blob(342, 4, 44, 24, 29, 3);
    }
    lemma_walk_step(g, 30, 3, 29, 3);
    assert(g.terrain_of(28, 3) != Terrain::Rock) by {
        assert(100 * ((33) * (33) * (18 * 18) + (-1) * (-1) * (23 * 23)) > 116 * (23 * 23) * (18 * 18)) by (nonlinear_arith);
        lemma_beyond_blob(252, 36, 23, 18, 28, 3);
    }
    lemma_walk_step(g, 29, 3, 28, 3);
    assert(g.terrain_of(28, 2) != Terrain::Rock) by {
        assert(100 * ((33) * (33) * (18 * 18) + (-11) * (-11) * (23 * 23)) > 116 * (23 * 23) * (18 * 18)) by (nonlinear_arith);
        lemma_beyond_blob(252, 36, 23, 18, 28, 2);
    }
    lemma_walk_step(g, 28, 3, 28, 2);
}

#[verifier::spinoff_prover]
proof fn lemma_mossfold_leg_2(g: Grid)
    requires
        g.wf(),
        g.w == 42,
        g.h == 24,
        forall|x: int, y: int| g.inside(x, y) ==> #[trigger] g.terrain_of(x, y) == mossfold_terrain(x, y),
        forall|x: int, y: int| g.inside(x, y) ==> #[trigger] g.occ_of(x, y) == Occupant::Vacant,
        reachable(g, 28, 2),
    ensures
        reachable(g, 23, 1),
{
    assert(g.terrain_of(27, 2) != Terrain::Rock) by {
        assert(100 * ((23) * (23) * (18 * 18) + (-11) * (-11) * (23 * 23)) > 116 * (23 * 23) * (18 * 18)) by (nonlinear_arith);
        lemma_beyond_blob(252, 36, 23, 18, 27, 2);
    }
    lemma_walk_step(g, 28, 2, 27, 2);
    assert(g.terrain_of(27, 1) != Terrain::Rock) by {
        assert(100 * ((23) * (23) * (18 * 18) + (-21) * (-21) * (23 * 23)) > 116 * (23 * 23) * (18 * 18)) by (nonlinear_arith);
        lemma_beyond_blob(252, 36, 23, 18, 27, 1);
    }
    lemma_walk_step(g, 27, 2, 27, 1);
    assert(g.terrain_of(26, 1) != Terrain::Rock) by {
        assert(100 * ((13) * (13) * (18 * 18) + (-21) * (-21) * (23 * 23)) > 116 * (23 * 23) * (18 * 18)) by (nonlinear_arith);
        lemma_beyond_blob(252, 36, 23, 18, 26, 1);
    }
    lemma_walk_step(g, 27, 1, 26, 1);
    assert(g.terrain_of(25, 1) != Terrain::Rock) by {
        assert(100 * ((73) * (73) * (40 * 40) + (-39) * (-39) * (66 * 66)) > 116 * (66 * 66) * (40 * 40)) by (nonlinear_arith);
        lemma_beyond_blob(182, 54, 66, 40, 25, 1);
        assert(100 * ((3) * (3) * (18 * 18) + (-21) * (-21) * (23 * 23)) > 116 * (23 * 23) * (18 * 18)) by (nonlinear_arith);
        lemma_beyond_blob(252, 36, 23, 18, 25, 1);
    }
    lemma_walk_step(g, 26, 1, 25, 1);
    assert(g.terrain_of(24, 1) != Terrain::Rock) by {
        assert(100 * ((63) * (63) * (40 * 40) + (-39) * (-39) * (66 * 66)) > 116 * (66 * 66) * (40 * 40)) by (nonlinear_arith);
        lemma_beyond_blob(182, 54, 66, 40, 24, 1);
        assert(100 * ((-7) * (-7) * (18 * 18) + (-21) * (-21) * (23 * 23)) > 116 * (23 * 23) * (18 * 18)) by (nonlinear_arith);
        lemma_beyond_blob(252, 36, 23, 18, 24, 1);
    }
    lemma_walk_step(g, 25, 1, 24, 1);
    assert(g.terrain_of(23, 1) != Terrain::Rock) by {
        assert(100 * ((53) * (53) * (40 * 40) + (-39) * (-39) * (66 * 66)) > 116 * (66 * 66) * (40 * 40)) by (nonlinear_arith);
        lemma_beyond_blob(182, 54, 66, 40, 23, 1);
        assert(100 * ((-17) * (-17) * (18 * 18) + (-21) * (-21) * (23 * 23)) > 116 * (23 * 23) * (18 * 18)) by (nonlinear_arith);
        lemma_beyond_blob(252, 36, 23, 18, 23, 1);
    }
    lemma_walk_step(g, 24, 1, 23, 1);
}

#[verifier::spinoff_prover]
proof fn lemma_mossfold_leg_3(g: Grid)
    requires
        g.wf(),
        g.w == 42,
        g.h == 24,
        forall|x: int, y: int| g.inside(x, y) ==> #[trigger] g.terrain_of(x, y) == mossfold_terrain(x, y),
        forall|x: int, y: int| g.inside(x, y) ==> #[trigger] g.occ_of(x, y) == Occupant::Vacant,
        reachable(g, 23, 1),
    ensures
        reachable(g, 18, 0),
{
    assert(g.terrain_of(22, 1) != Terrain::Rock) by {
        assert(100 * ((43) * (43) * (40 * 40) + (-39) * (-39) * (66 * 66)) > 116 * (66 * 66) * (40 * 40)) by (nonlinear_arith);
        lemma_beyond_blob(182, 54, 66, 40, 22, 1);
        assert(100 * ((-27) * (-27) * (18 * 18) + (-21) * (-21) * (23 * 23)) > 116 * (23 * 23) * (18 * 18)) by (nonlinear_arith);
        lemma_beyond_blob(252, 36, 23, 18, 22, 1);
    }
    lemma_walk_step(g, 23, 1, 22, 1);
    assert(g.terrain_of(21, 1) != Terrain::Rock) by {
        assert(100 * ((33) * (33) * (40 * 40) + (-39) * (-39) * (66 * 66)) > 116 * (66 * 66) * (40 * 40)) by (nonlinear_arith);
        lemma_beyond_blob(182, 54, 66, 40, 21, 1);
    }
    lemma_walk_step(g, 22, 1, 21, 1);
    lemma_walk_step(g, 21, 1, 21, 0);
    lemma_walk_step(g, 21, 0, 20, 0);
    lemma_walk_step(g, 20, 0, 19, 0);
    lemma_walk_step(g, 19, 0, 18, 0);
}

#[verifier::spinoff_prover]
proof fn lemma_mossfold_leg_4(g: Grid)
    requires
        g.wf(),
        g.w == 42,
        g.h == 24,
        forall|x: int, y: int| g.inside(x, y) ==> #[trigger] g.terrain_of(x, y) == mossfold_terrain(x, y),
        forall|x: int, y: int| g.inside(x, y) ==> #[trigger] g.occ_of(x, y) == Occupant::Vacant,
        reachable(g, 18, 0),
    ensures
        reachable(g, 12, 0),
{
    lemma_walk_step(g, 18, 0, 17, 0);
    lemma_walk_step(g, 17, 0, 16, 0);
    lemma_walk_step(g, 16, 0, 15, 0);
    lemma_walk_step(g, 15, 0, 14, 0);
    lemma_walk_step(g, 14, 0, 13, 0);
    lemma_walk_step(g, 13, 0, 12, 0);
}

#[verifier::spinoff_prover]
proof fn lemma_mossfold_leg_5(g: Grid)
    requires
        g.wf(),
        g.w == 42,
        g.h == 24,
        forall|x: int, y: int| g.inside(x, y) ==> #[trigger] g.terrain_of(x, y) == mossfold_terrain(x, y),
        forall|x: int, y: int| g.inside(x, y) ==> #[trigger] g.occ_of(x, y) == Occupant::Vacant,
        reachable(g, 12, 0),
    ensures
        reachable(g, 6, 0),
{
    lemma_walk_step(g, 12, 0, 11, 0);
    lemma_walk_step(g, 11, 0, 10, 0);
    lemma_walk_step(g, 10, 0, 9, 0);
    lemma_walk_step(g, 9, 0, 8, 0);
    lemma_walk_step(g, 8, 0, 7, 0);
    lemma_walk_step(g, 7, 0, 6, 0);
}

#[verifier::spinoff_prover]
proof fn lemma_mossfold_leg_6(g: Grid)
    requires
        g.wf(),
        g.w == 42,
        g.h == 24,
        forall|x: int, y: int| g.inside(x, y) ==> #[trigger] g.terrain_of(x, y) == mossfold_terrain(x, y),
        forall|x: int, y: int| g.inside(x, y) ==> #[trigger] g.occ_of(x, y) == Occupant::Vacant,
        reachable(g, 6, 0),
    ensures
        reachable(g, 0, 0),
{
    lemma_walk_step(g, 6, 0, 5, 0);
    lemma_walk_step(g, 5, 0, 4, 0);
    lemma_walk_step(g, 4, 0, 3, 0);
    lemma_walk_step(g, 3, 0, 2, 0);
    lemma_walk_step(g, 2, 0, 1, 0);
    lemma_walk_step(g, 1, 0, 0, 0);
}

#[verifier::spinoff_prover]
proof fn lemma_mossfold_leg_7(g: Grid)
    requires
        g.wf(),
        g.w == 42,
        g.h == 24,
        forall|x: int, y: int| g.inside(x, y) ==> #[trigger] g.terrain_of(x, y) == mossfold_terrain(x, y),
        forall|x: int, y: int| g.inside(x, y) ==> #[trigger] g.occ_of(x, y) == Occupant::Vacant,
        reachable(g, 0, 0),
    ensures
        reachable(g, 0, 5),
{
    lemma_walk_step(g, 0, 0, 0, 1);
    lemma_walk_step(g, 0, 1, 0, 2);
    lemma_walk_step(g, 0, 2, 0, 3);
    lemma_walk_step(g, 0, 3, 0, 4);
    lemma_walk_step(g, 0, 4, 0, 5);
}

proof fn lemma_after_blob_spawn(prev: Terrain, cx: int, cy: int, rx: int, ry: int, x: int, y: int)
    ensures
        (after_blob(prev, cx, cy, rx, ry, x, y) == Terrain::Spawn) == (prev == Terrain::Spawn),
{
}

/// On Mossfold the spawn cells are exactly the western ingress column.
proof fn lemma_mossfold_spawn(x: int, y: int)
    ensures
        (mossfold_terrain(x, y) == Terrain::Spawn) == in_rect(0, 5, 1, 15, x, y),
{
    let t0 = if in_rect(0, 5, 1, 15, x, y) {
        Terrain::Spawn
    } else if in_rect(38, 1, 2, 2, x, y) {
        Terrain::Core
    } else {
        Terrain::Empty
    };
    let t1 = after_blob(t0, 410, 0, 36, 28, x, y);
    lemma_after_blob_spawn(t0, 410, 0, 36, 28, x, y);
    let t2 = after_blob(t1, 342, 4, 44, 24, x, y);
    lemma_after_blob_spawn(t1, 342, 4, 44, 24, x, y);
    let t3 = after_blob(t2, 410, 72, 48, 36, x, y);
    lemma_after_blob_spawn(t2, 410, 72, 48, 36, x, y);
    let t4 = after_blob(t3, 182, 54, 66, 40, x, y);
    lemma_after_blob_spawn(t3, 182, 54, 66, 40, x, y);
    let t5 = after_blob(t4, 216, 80, 42, 30, x, y);
    lemma_after_blob_spawn(t4, 216, 80, 42, 30, x, y);
    let t6 = after_blob(t5, 150, 72, 34, 26, x, y);
    lemma_after_blob_spawn(t5, 150, 72, 34, 26, x, y);
    let t7 = after_blob(t6, 152, 196, 40, 25, x, y);
    lemma_after_blob_spawn(t6, 152, 196, 40, 25, x, y);
    let t8 = after_blob(t7, 232, 174, 31, 24, x, y);
    lemma_after_blob_spawn(t7, 232, 174, 31, 24, x, y);
    let t9 = after_blob(t8, 406, 228, 80, 50, x, y);
    lemma_after_blob_spawn(t8, 406, 228, 80, 50, x, y);
    let t10 = after_blob(t9, 364, 216, 40, 30, x, y);
    lemma_after_blob_spawn(t9, 364, 216, 40, 30, x, y);
    let t11 = after_blob(t10, 292, 112, 44, 35, x, y);
    lemma_after_blob_spawn(t10, 292, 112, 44, 35, x, y);
    let t12 = after_blob(t11, 314, 136, 30, 24, x, y);
    lemma_after_blob_spawn(t11, 314, 136, 30, 24, x, y);
    let t13 = after_blob(t12, 80, 72, 27, 23, x, y);
    lemma_after_blob_spawn(t12, 80, 72, 27, 23, x, y);
    let t14 = after_blob(t13, 64, 152, 25, 22, x, y);
    lemma_after_blob_spawn(t13, 64, 152, 25, 22, x, y);
    let t15 = after_blob(t14, 122, 120, 22, 19, x, y);
    lemma_after_blob_spawn(t14, 122, 120, 22, 19, x, y);
    let t16 = after_blob(t15, 104, 206, 19, 16, x, y);
    lemma_after_blob_spawn(t15, 104, 206, 19, 16, x, y);
    let t17 = after_blob(t16, 252, 36, 23, 18, x, y);
    lemma_after_blob_spawn(t16, 252, 36, 23, 18, x, y);
    let t18 = after_blob(t17, 272, 206, 18, 15, x, y);
    lemma_after_blob_spawn(t17, 272, 206, 18, 15, x, y);
    let t19 = after_blob(t18, 148, 32, 20, 16, x, y);
    lemma_after_blob_spawn(t18, 148, 32, 20, 16, x, y);
    assert(mossfold_plateaus(x, y) == t19);
}

#[verifier::spinoff_prover]
#[verifier::rlimit(60)]
proof fn lemma_mossfold_open(g: Grid)
    requires
        g.wf(),
        g.w == 42,
        g.h == 24,
        forall|x: int, y: int| g.inside(x, y) ==> #[trigger] g.terrain_of(x, y) == mossfold_terrain(x, y),
        forall|x: int, y: int| g.inside(x, y) ==> #[trigger] g.occ_of(x, y) == Occupant::Vacant,
    ensures
        spawns_ok(g),
{
    lemma_relay_reached(g, 38, 2);
    lemma_mossfold_leg_0(g);
    lemma_mossfold_leg_1(g);
    lemma_mossfold_leg_2(g);
    lemma_mossfold_leg_3(g);
    lemma_mossfold_leg_4(g);
    lemma_mossfold_leg_5(g);
    lemma_mossfold_leg_6(g);
    lemma_mossfold_leg_7(g);
    assert forall|x: int, y: int| on_run(0, 5, 0, 19, x, y) implies !g.blocked(x, y) by {
        lemma_mossfold_spawn(x, y);
    }
    lemma_walk_run(g, 0, 5, 0, 19);
    assert forall|x: int, y: int| g.inside(x, y) && #[trigger] g.terrain_of(x, y) == Terrain::Spawn
        implies reachable(g, x, y) by {
        lemma_mossfold_spawn(x, y);
        assert(on_run(0, 5, 0, 19, x, y));
    }
}

#[verifier::spinoff_prover]
#[verifier::rlimit(60)]
proof fn lemma_labyrinth_open(g: Grid)
    requires
        g.wf(),
        g.w == 40,
        g.h == 24,
        forall|x: int, y: int| g.inside(x, y) ==> #[trigger] g.terrain_of(x, y) == labyrinth_terrain(x, y),
        forall|x: int, y: int| g.inside(x, y) ==> #[trigger] g.occ_of(x, y) == Occupant::Vacant,
    ensures
        spawns_ok(g),
{
    lemma_relay_reached(g, 38, 21);
    lemma_walk_run(g, 38, 21, 4, 21);
    lemma_walk_run(g, 4, 21, 4, 18);
    lemma_walk_run(g, 4, 18, 15, 18);
    lemma_walk_run(g, 15, 18, 15, 17);
    lemma_walk_run(g, 15, 17, 27, 17);
    lemma_walk_run(g, 27, 17, 27, 18);
    lemma_walk_run(g, 27, 18, 36, 18);
    lemma_walk_run(g, 36, 18, 36, 13);
    lemma_walk_run(g, 36, 13, 11, 13);
    lemma_walk_run(g, 11, 13, 11, 12);
    lemma_walk_run(g, 11, 12, 4, 12);
    lemma_walk_run(g, 4, 12, 4, 8);
    lemma_walk_run(g, 4, 8, 13, 8);
    lemma_walk_run(g, 13, 8, 13, 7);
    lemma_walk_run(g, 13, 7, 24, 7);
    lemma_walk_run(g, 24, 7, 24, 8);
    lemma_walk_run(g, 24, 8, 36, 8);
    lemma_walk_run(g, 36, 8, 36, 3);
    lemma_walk_run(g, 36, 3, 22, 3);
    lemma_walk_run(g, 22, 3, 22, 2);
    lemma_walk_run(g, 22, 2, 12, 2);
    lemma_walk_run(g, 12, 2, 12, 3);
    lemma_walk_run(g, 12, 3, 0, 3);
    lemma_walk_run(g, 0, 3, 0, 2);
}

/// Law: on every built-in theater, freshly painted, each spawn cell can walk to a relay.
pub proof fn law_theaters_start_open(g: Grid, id: int)
    requires
        0 <= id < THEATER_COUNT,
        is_theater(g, id),
    ensures
        spawns_ok(g),
{
    reveal(theater_terrain);
    if id == 0 {
        lemma_kilo_outpost_open(g);
    } else if id == 1 {
        lemma_redoubt_open(g);
    } else if id == 2 {
        lemma_dust_cut_open(g);
    } else if id == 3 {
        lemma_split_relay_open(g);
    } else if id == 4 {
        lemma_enclave_open(g);
    } else if id == 5 {
        lemma_twin_cores_open(g);
    } else if id == 6 {
        lemma_tri_gate_open(g);
    } else if id == 7 {
        lemma_oxbow_open(g);
    } else if id == 8 {
        lemma_mossfold_open(g);
    } else {
        lemma_labyrinth_open(g);
    }
}


/// Law: the theater of every campaign mission opens with each spawn able to walk to a relay.
pub proof fn law_every_mission_map_opens(i: int, g: Grid)
    requires
        0 <= i < MISSION_COUNT,
        is_theater(g, mission_row(i).5 as int),
    ensures
        spawns_ok(g),
{
    law_campaign_names_real_theaters(i, 0);
    law_theaters_start_open(g, mission_row(i).5 as int);
}

/// Law: the theater of every challenge opens with each spawn able to walk to a relay.
pub proof fn law_every_challenge_map_opens(j: int, g: Grid)
    requires
        0 <= j < CHALLENGE_COUNT,
        is_theater(g, challenge_row(j).3 as int),
    ensures
        spawns_ok(g),
{
    law_campaign_names_real_theaters(0, j);
    law_theaters_start_open(g, challenge_row(j).3 as int);
}

} // verus!
