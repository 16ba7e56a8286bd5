//! Recorded orders and replays: what a commander did and when, a stable fingerprint of a
//! replay, and the verdict on a replayed run.

use vstd::prelude::*;
use crate::mapdoc::{marked, MapDoc};
use crate::pack::PackError;

verus! {

#[derive(Clone, Debug, PartialEq, Eq, Structural)]
pub struct Order {
    pub tick: u64,
    pub op: OrderOp,
}

#[derive(Clone, Debug, PartialEq, Eq, Structural)]
pub enum OrderOp {
    SetBuild { kind: u8 },
    SetStrike { kind: u8 },
    Click { x: i32, y: i32 },
    Cancel,
    Upgrade,
    Sell,
    Call,
    Target,
    Convert,
    Repair,
    Lift,
    Overcharge,
}

/// How a run ended: the wave reached, relay integrity, kills, leaks, whether the relay fell,
/// and the ticks played.
#[derive(Clone, Debug, PartialEq, Eq, Structural)]
pub struct RunOutcome {
    pub wave: u32,
    pub integrity: i32,
    pub kills: u32,
    pub leaks: u32,
    pub defeated: bool,
    pub ticks: u64,
}

/// A recorded match. `pack` is the fingerprint of the loadout the match was played with, or
/// the error its pack document failed with; `outcome` and `hash` are what the recorder
/// claimed.
#[derive(Clone, Debug)]
pub struct ReplayFile {
    pub version: u8,
    pub map_id: Option<u8>,
    pub map: Option<MapDoc>,
    pub modifier_id: u8,
    pub seed: u64,
    pub orders: Vec<Order>,
    pub pack: Option<Result<u64, PackError>>,
    pub outcome: Option<RunOutcome>,
    pub hash: Option<String>,
}

/// The verdict on a replay.
#[derive(Clone, Debug)]
pub struct VerifyReport {
    pub ok: bool,
    pub hash: String,
    pub hash_ok: bool,
    pub outcome_ok: bool,
    pub error: Option<String>,
    pub wave: u32,
    pub integrity: i32,
    pub kills: u32,
    pub leaks: u32,
    pub defeated: bool,
    pub ticks: u64,
}

/// Product of two 64-bit words, wrapped to 64 bits.
pub open spec fn mul64(a: u64, b: u64) -> u64 {
    ((a as nat * b as nat) % 0x1_0000_0000_0000_0000) as u64
}

/// One round of the fingerprint's mixer: fold `v` into `h`.
pub open spec fn mixed(h: u64, v: u64) -> u64 {
    let x = h ^ mul64(v, 0x9E37_79B9_7F4A_7C15);
    let y = mul64(x ^ (x >> 30u64), 0xBF58_476D_1CE4_E5B9);
    y ^ (y >> 31u64)
}

pub(crate) fn mix(h: u64, v: u64) -> (r: u64)
    ensures
        r == mixed(h, v),
{
    let mut x = h ^ v.wrapping_mul(0x9E37_79B9_7F4A_7C15);
    x = (x ^ (x >> 30u64)).wrapping_mul(0xBF58_476D_1CE4_E5B9);
    x ^ (x >> 31u64)
}

/// The number an order contributes to the fingerprint.
pub open spec fn op_code_of(op: OrderOp) -> u64 {
    match op {
        OrderOp::SetBuild { kind } => (256 + kind) as u64,
        OrderOp::SetStrike { kind } => (512 + kind) as u64,
        OrderOp::Click { x, y } => (3 * 0x1_0000_0000 + ((x as u64) % 0x10000) * 0x10000 + (y as u64)
            % 0x10000) as u64,
        OrderOp::Cancel => 4,
        OrderOp::Upgrade => 5,
        OrderOp::Sell => 6,
        OrderOp::Call => 7,
        OrderOp::Target => 8,
        OrderOp::Convert => 9,
        OrderOp::Repair => 10,
        OrderOp::Lift => 11,
        OrderOp::Overcharge => 12,
    }
}

fn op_code(op: &OrderOp) -> (r: u64)
    ensures
        r == op_code_of(*op),
{
    match op {
        OrderOp::SetBuild { kind } => 256 + *kind as u64,
        OrderOp::SetStrike { kind } => 512 + *kind as u64,
        OrderOp::Click { x, y } => {
            let xs: u64 = *x as u64 % 0x10000;
            let ys: u64 = *y as u64 % 0x10000;
            3 * 0x1_0000_0000 + xs * 0x10000 + ys
        },
        OrderOp::Cancel => 4,
        OrderOp::Upgrade => 5,
        OrderOp::Sell => 6,
        OrderOp::Call => 7,
        OrderOp::Target => 8,
        OrderOp::Convert => 9,
        OrderOp::Repair => 10,
        OrderOp::Lift => 11,
        OrderOp::Overcharge => 12,
    }
}

/// `h` with both coordinates of each cell folded in, in order.
pub open spec fn mix_cells(h: u64, cells: Seq<[i32; 2]>) -> u64
    decreases cells.len(),
{
    if cells.len() == 0 {
        h
    } else {
        let c = cells.last();
        mixed(mixed(mix_cells(h, cells.drop_last()), (c[0] as u32) as u64), (c[1] as u32) as u64)
    }
}

/// `h` with the tick and the code of each order folded in, in order.
pub open spec fn mix_orders(h: u64, orders: Seq<Order>) -> u64
    decreases orders.len(),
{
    if orders.len() == 0 {
        h
    } else {
        let o = orders.last();
        mixed(mixed(mix_orders(h, orders.drop_last()), o.tick), op_code_of(o.op))
    }
}

/// `h` with the size, seed, counts and cells of a map document folded in.
pub open spec fn mix_map(h: u64, m: MapDoc) -> u64 {
    let a = mixed(mixed(mixed(h, m.w as u64), m.h as u64), m.seed);
    let b = mixed(
        mixed(mixed(a, m.cores@.len() as u64), m.spawns@.len() as u64),
        m.rocks@.len() as u64,
    );
    mix_cells(b, marked(m))
}

/// The fingerprint of a replay: version, seed, modifier, map, orders and loadout. The
/// claimed outcome and hash play no part.
pub open spec fn replay_print(file: ReplayFile) -> u64 {
    let h0 = mixed(
        mixed(mixed(mixed(0x0D7_CA11u64, file.version as u64), file.seed), file.modifier_id as u64),
        match file.map_id {
            Some(id) => id as u64,
            None => 255u64,
        },
    );
    let h1 = match file.map {
        Some(m) => mix_map(h0, m),
        None => h0,
    };
    let h2 = mix_orders(mixed(h1, file.orders@.len() as u64), file.orders@);
    match file.pack {
        Some(Ok(fp)) => mixed(h2, fp),
        Some(Err(_)) => mixed(h2, 0xBAD_FACE),
        None => h2,
    }
}

/// The lowercase hexadecimal digit of `d`.
pub open spec fn hex_char(d: nat) -> char {
    if d < 10 {
        (48 + d) as char
    } else {
        (87 + d) as char
    }
}

/// The last `n` hexadecimal digits of `v`, most significant first.
pub open spec fn hex_text(v: nat, n: nat) -> Seq<char>
    decreases n,
{
    if n == 0 {
        seq![]
    } else {
        hex_text(v / 16, (n - 1) as nat).push(hex_char(v % 16))
    }
}

fn hex_digit(d: u64) -> (r: &'static str)
    requires
        d < 16,
    ensures
        r@ == seq![hex_char(d as nat)],
{
    proof {
        reveal_strlit("0");
        reveal_strlit("1");
        reveal_strlit("2");
        reveal_strlit("3");
        reveal_strlit("4");
        reveal_strlit("5");
        reveal_strlit("6");
        reveal_strlit("7");
        reveal_strlit("8");
        reveal_strlit("9");
        reveal_strlit("a");
        reveal_strlit("b");
        reveal_strlit("c");
        reveal_strlit("d");
        reveal_strlit("e");
        reveal_strlit("f");
    }
    match d {
        0 => "0",
        1 => "1",
        2 => "2",
        3 => "3",
        4 => "4",
        5 => "5",
        6 => "6",
        7 => "7",
        8 => "8",
        9 => "9",
        10 => "a",
        11 => "b",
        12 => "c",
        13 => "d",
        14 => "e",
        _ => "f",
    }
}

fn push_hex(out: &mut String, v: u64, n: u32)
    ensures
        final(out)@ == old(out)@ + hex_text(v as nat, n as nat),
    decreases n,
{
    if n > 0 {
        push_hex(out, v / 16, n - 1);
        out.append(hex_digit(v % 16));
        assert(final(out)@ =~= old(out)@ + hex_text(v as nat, n as nat));
    } else {
        assert(old(out)@ + hex_text(v as nat, 0) =~= old(out)@);
    }
}

/// Stable fingerprint of seed, map, modifier, orders and loadout, as 16 lowercase
/// hexadecimal digits. The claimed outcome and hash are ignored.
pub fn replay_hash(file: &ReplayFile) -> (r: String)
    ensures
        r@ == hex_text(replay_print(*file) as nat, 16),
{
    let mut h: u64 = 0x0D7_CA11;
    h = mix(h, file.version as u64);
    h = mix(h, file.seed);
    h = mix(h, file.modifier_id as u64);
    let id: u64 = match file.map_id {
        Some(id) => id as u64,
        None => 255,
    };
    h = mix(h, id);
    if let Some(m) = &file.map {
        h = mix(h, m.w as u64);
        h = mix(h, m.h as u64);
        h = mix(h, m.seed);
        h = mix(h, m.cores.len() as u64);
        h = mix(h, m.spawns.len() as u64);
        h = mix(h, m.rocks.len() as u64);
        let ghost base = h;
        let mut part: usize = 0;
        while part < 3
            invariant
                part <= 3,
                h == mix_cells(
                    base,
                    if part == 0 {
                        seq![]
                    } else if part == 1 {
                        m.cores@
                    } else if part == 2 {
                        m.cores@ + m.spawns@
                    } else {
                        marked(*m)
                    },
                ),
            decreases 3 - part,
        {
            let cells = if part == 0 {
                &m.cores
            } else if part == 1 {
                &m.spawns
            } else {
                &m.rocks
            };
            let ghost done = if part == 0 {
                Seq::<[i32; 2]>::empty()
            } else if part == 1 {
                m.cores@
            } else {
                m.cores@ + m.spawns@
            };
            let mut k: usize = 0;
            while k < cells.len()
                invariant
                    k <= cells@.len(),
                    h == mix_cells(base, done + cells@.take(k as int)),
                decreases cells@.len() - k,
            {
                let c = cells[k];
                proof {
                    assert((done + cells@.take(k + 1)).drop_last() =~= done + cells@.take(k as int));
                    assert((done + cells@.take(k + 1)).last() == c);
                }
                h = mix(h, c[0] as u32 as u64);
                h = mix(h, c[1] as u32 as u64);
                k = k + 1;
            }
            proof {
                assert(cells@.take(cells@.len() as int) =~= cells@);
                if part == 0 {
                    assert(done + cells@ =~= m.cores@);
                } else if part == 2 {
                    assert(done + cells@ =~= marked(*m));
                }
            }
            part = part + 1;
        }
    }
    h = mix(h, file.orders.len() as u64);
    let ghost start = h;
    let mut i: usize = 0;
    while i < file.orders.len()
        invariant
            i <= file.orders@.len(),
            h == mix_orders(start, file.orders@.take(i as int)),
        decreases file.orders@.len() - i,
    {
        let o = &file.orders[i];
        proof {
            assert(file.orders@.take(i + 1).drop_last() =~= file.orders@.take(i as int));
        }
        h = mix(h, o.tick);
        h = mix(h, op_code(&o.op));
        i = i + 1;
    }
    proof {
        assert(file.orders@.take(file.orders@.len() as int) =~= file.orders@);
    }
    match &file.pack {
        Some(Ok(fp)) => {
            h = mix(h, *fp);
        },
        Some(Err(_)) => {
            h = mix(h, 0xBAD_FACE);
        },
        None => {},
    }
    let mut out = String::new();
    push_hex(&mut out, h, 16);
    out
}

/// The tick a replay is run to: the claimed outcome's, else the last order's, else zero.
pub open spec fn tick_cap_of(file: ReplayFile) -> u64 {
    match file.outcome {
        Some(o) => o.ticks,
        None => if file.orders@.len() > 0 {
            file.orders@.last().tick
        } else {
            0
        },
    }
}

pub fn replay_tick_cap(file: &ReplayFile) -> (r: u64)
    ensures
        r == tick_cap_of(*file),
{
    match &file.outcome {
        Some(o) => o.ticks,
        None => {
            let n = file.orders.len();
            if n > 0 {
                file.orders[n - 1].tick
            } else {
                0
            }
        },
    }
}

/// A claimed outcome agrees with a replayed one on wave, integrity, kills, leaks and defeat;
/// no claim agrees with anything.
pub open spec fn claim_holds(claim: Option<RunOutcome>, run: RunOutcome) -> bool {
    match claim {
        Some(c) => c.wave == run.wave && c.integrity == run.integrity && c.kills == run.kills
            && c.leaks == run.leaks && c.defeated == run.defeated,
        None => true,
    }
}

/// Judges a replay against what replaying it to its tick cap produced: the run's outcome,
/// or the reason the match could not be set up. The hash must match the claimed one, if
/// any; on a run, the outcome must match the claimed one, if any.
pub fn verify_replay(file: &ReplayFile, replayed: Result<RunOutcome, String>) -> (r: VerifyReport)
    ensures
        r.hash@ == hex_text(replay_print(*file) as nat, 16),
        r.hash_ok == match file.hash {
            Some(h) => h@ == r.hash@,
            None => true,
        },
        match replayed {
            Ok(run) => {
                &&& r.outcome_ok == claim_holds(file.outcome, run)
                &&& r.ok == (r.hash_ok && r.outcome_ok)
                &&& r.error is None
                &&& r.wave == run.wave
                &&& r.integrity == run.integrity
                &&& r.kills == run.kills
                &&& r.leaks == run.leaks
                &&& r.defeated == run.defeated
                &&& r.ticks == run.ticks
            },
            Err(e) => {
                &&& !r.ok
                &&& !r.outcome_ok
                &&& r.error matches Some(m) && m@ == e@
                &&& r.wave == 0 && r.integrity == 0 && r.kills == 0 && r.leaks == 0
                &&& !r.defeated && r.ticks == 0
            },
        },
{
    let hash = replay_hash(file);
    let hash_ok = match &file.hash {
        Some(h) => *h == hash,
        None => true,
    };
    match replayed {
        Ok(run) => {
            let outcome_ok = match &file.outcome {
                Some(c) => c.wave == run.wave && c.integrity == run.integrity && c.kills == run.kills
                    && c.leaks == run.leaks && c.defeated == run.defeated,
                None => true,
            };
            VerifyReport {
                ok: hash_ok && outcome_ok,
                hash,
                hash_ok,
                outcome_ok,
                error: None,
                wave: run.wave,
                integrity: run.integrity,
                kills: run.kills,
                leaks: run.leaks,
                defeated: run.defeated,
                ticks: run.ticks,
            }
        },
        Err(e) => VerifyReport {
            ok: false,
            hash,
            hash_ok,
            outcome_ok: false,
            error: Some(e),
            wave: 0,
            integrity: 0,
            kills: 0,
            leaks: 0,
            defeated: false,
            ticks: 0,
        },
    }
}

/// Law: the fingerprint ignores what the recorder claimed — a replay with another claimed
/// outcome or hash fingerprints the same.
pub proof fn law_hash_ignores_claims(file: ReplayFile, outcome: Option<RunOutcome>, hash: Option<String>)
    ensures
        replay_print(ReplayFile { outcome, hash, ..file }) == replay_print(file),
{
}


/// Law: a claimed outcome is accepted only when it agrees with the replayed run on the wave
/// reached, the relay's integrity, the kills, the leaks and whether the relay fell; a claim
/// that agrees on all five is accepted whatever tick count it names, and a file with no
/// claimed outcome has nothing to disagree with.
pub proof fn law_claims_must_match_the_run(c: RunOutcome, run: RunOutcome)
    ensures
        claim_holds(Some(c), run) ==> c.wave == run.wave,
        claim_holds(Some(c), run) ==> c.integrity == run.integrity,
        claim_holds(Some(c), run) ==> c.kills == run.kills,
        claim_holds(Some(c), run) ==> c.leaks == run.leaks,
        claim_holds(Some(c), run) ==> c.defeated == run.defeated,
        claim_holds(Some(RunOutcome { ticks: c.ticks, ..run }), run),
        claim_holds(None, run),
{
}

} // verus!

