//! The wave director: which script a wave runs and how many of each hull it sends.

use vstd::prelude::*;
use crate::defs::CreepKind;

verus! {

#[derive(Clone, Copy, Debug, PartialEq, Eq, Structural)]
pub enum WaveScript {
    Mixed,
    Swarm,
    Air,
    Armor,
    Split,
    Colossus,
}

impl WaveScript {
    pub open spec fn label_text(self) -> Seq<char> {
        match self {
            WaveScript::Mixed => "Mixed"@,
            WaveScript::Swarm => "Swarm"@,
            WaveScript::Air => "Air corridor"@,
            WaveScript::Armor => "Armor column"@,
            WaveScript::Split => "Split"@,
            WaveScript::Colossus => "Colossus"@,
        }
    }

    /// Every tenth wave is a Colossus wave. Otherwise the script rotates with the wave
    /// number: a five-wave cycle without air when the match is ground only, a six-wave
    /// cycle with an air corridor otherwise.
    pub open spec fn scripted(wave: u32, ground_only: bool) -> WaveScript {
        if wave > 0 && wave % 10 == 0 {
            WaveScript::Colossus
        } else if ground_only {
            if wave % 5 == 2 || wave % 5 == 0 {
                WaveScript::Swarm
            } else if wave % 5 == 3 {
                WaveScript::Armor
            } else if wave % 5 == 4 {
                WaveScript::Split
            } else {
                WaveScript::Mixed
            }
        } else {
            if wave % 6 == 2 {
                WaveScript::Swarm
            } else if wave % 6 == 3 {
                WaveScript::Air
            } else if wave % 6 == 4 {
                WaveScript::Armor
            } else if wave % 6 == 5 {
                WaveScript::Split
            } else {
                WaveScript::Mixed
            }
        }
    }

    pub fn label(self) -> (r: &'static str)
        ensures
            r@ == self.label_text(),
    {
        match self {
            WaveScript::Mixed => "Mixed",
            WaveScript::Swarm => "Swarm",
            WaveScript::Air => "Air corridor",
            WaveScript::Armor => "Armor column",
            WaveScript::Split => "Split",
            WaveScript::Colossus => "Colossus",
        }
    }

    pub fn for_wave(wave: u32, ground_only: bool) -> (r: Self)
        ensures
            r == WaveScript::scripted(wave, ground_only),
    {
        if wave > 0 && wave % 10 == 0 {
            return WaveScript::Colossus;
        }
        if ground_only {
            return match wave % 5 {
                2 => WaveScript::Swarm,
                3 => WaveScript::Armor,
                4 => WaveScript::Split,
                0 => WaveScript::Swarm,
                _ => WaveScript::Mixed,
            };
        }
        match wave % 6 {
            2 => WaveScript::Swarm,
            3 => WaveScript::Air,
            4 => WaveScript::Armor,
            5 => WaveScript::Split,
            _ => WaveScript::Mixed,
        }
    }
}

/// The hull counts of one wave.
#[derive(Clone, Copy, Debug, PartialEq, Eq, Structural)]
pub struct WavePlan {
    pub script: WaveScript,
    pub runners: u32,
    pub lorries: u32,
    pub bulwarks: u32,
    pub wasps: u32,
    pub mites: u32,
    pub colossus: u32,
    pub medics: u32,
    pub shades: u32,
    pub flickers: u32,
}

/// The waves the director can compose without a count leaving `u32`.
pub open spec fn wave_in_range(wave: u32) -> bool {
    3 * wave + 12 <= u32::MAX
}

/// The script's own counts, before ground-only folds the air into lorries.
pub open spec fn script_counts(script: WaveScript, wave: u32) -> WavePlan {
    match script {
        WaveScript::Mixed => WavePlan {
            script,
            runners: (6 + wave * 2) as u32,
            lorries: if wave >= 2 { wave } else { 0 },
            bulwarks: if wave >= 5 { ((wave - 3) / 2) as u32 } else { 0 },
            wasps: if wave >= 4 { (2 + wave / 2) as u32 } else { 0 },
            mites: if wave >= 3 { (wave / 2) as u32 } else { 0 },
            colossus: 0,
            medics: if wave >= 6 { (1 + (wave - 6) / 4) as u32 } else { 0 },
            shades: if wave >= 6 { (1 + wave / 4) as u32 } else { 0 },
            flickers: if wave >= 4 { (1 + wave / 5) as u32 } else { 0 },
        },
        WaveScript::Swarm => WavePlan {
            script,
            runners: (10 + wave * 3) as u32,
            lorries: (wave / 3) as u32,
            bulwarks: 0,
            wasps: 0,
            mites: (6 + wave * 2) as u32,
            colossus: 0,
            medics: 0,
            shades: 0,
            flickers: 0,
        },
        WaveScript::Air => WavePlan {
            script,
            runners: (4 + wave) as u32,
            lorries: 0,
            bulwarks: 0,
            wasps: (8 + wave) as u32,
            mites: wave,
            colossus: 0,
            medics: 0,
            shades: 0,
            flickers: 0,
        },
        WaveScript::Armor => WavePlan {
            script,
            runners: (4 + wave) as u32,
            lorries: (4 + wave) as u32,
            bulwarks: (1 + wave / 2) as u32,
            wasps: 0,
            mites: 0,
            colossus: 0,
            medics: (1 + wave / 5) as u32,
            shades: if wave >= 8 { (1 + wave / 8) as u32 } else { 0 },
            flickers: 0,
        },
        WaveScript::Split => WavePlan {
            script,
            runners: (4 + wave) as u32,
            lorries: (wave / 2) as u32,
            bulwarks: 0,
            wasps: 0,
            mites: (12 + wave * 3) as u32,
            colossus: 0,
            medics: 0,
            shades: (2 + wave / 3) as u32,
            flickers: (2 + wave / 4) as u32,
        },
        WaveScript::Colossus => WavePlan {
            script,
            runners: (6 + wave) as u32,
            lorries: wave,
            bulwarks: (wave / 4) as u32,
            wasps: (2 + wave / 3) as u32,
            mites: wave,
            colossus: (1 + wave / 30) as u32,
            medics: (2 + wave / 20) as u32,
            shades: (1 + wave / 15) as u32,
            flickers: (1 + wave / 20) as u32,
        },
    }
}

/// The plan of a wave: the script's counts, with any wasps turned into lorries when the
/// match is ground only.
pub open spec fn planned(wave: u32, ground_only: bool) -> WavePlan {
    let p = script_counts(WaveScript::scripted(wave, ground_only), wave);
    if ground_only {
        WavePlan { lorries: (p.lorries + p.wasps) as u32, wasps: 0, ..p }
    } else {
        p
    }
}

pub open spec fn plan_total(p: WavePlan) -> int {
    p.runners + p.lorries + p.bulwarks + p.wasps + p.mites + p.colossus + p.medics + p.shades
        + p.flickers
}

pub open spec fn repeat_kind(kind: CreepKind, n: nat) -> Seq<CreepKind> {
    Seq::new(n, |i: int| kind)
}

/// The spawn list of a plan, grouped by kind in the director's order.
pub open spec fn plan_kinds(p: WavePlan) -> Seq<CreepKind> {
    repeat_kind(CreepKind::Runner, p.runners as nat) + repeat_kind(CreepKind::Lorry, p.lorries as nat)
        + repeat_kind(CreepKind::Bulwark, p.bulwarks as nat) + repeat_kind(
        CreepKind::Wasp,
        p.wasps as nat,
    ) + repeat_kind(CreepKind::Mite, p.mites as nat) + repeat_kind(CreepKind::Medic, p.medics as nat)
        + repeat_kind(CreepKind::Shade, p.shades as nat) + repeat_kind(
        CreepKind::Flicker,
        p.flickers as nat,
    ) + repeat_kind(CreepKind::Colossus, p.colossus as nat)
}

impl WavePlan {
    pub fn for_wave(wave: u32, ground_only: bool) -> (r: Self)
        requires
            wave_in_range(wave),
        ensures
            r == planned(wave, ground_only),
    {
        let script = WaveScript::for_wave(wave, ground_only);
        let mut plan = match script {
            WaveScript::Mixed => WavePlan {
                script,
                runners: 6 + wave * 2,
                lorries: if wave >= 2 { wave } else { 0 },
                bulwarks: if wave >= 5 { (wave - 3) / 2 } else { 0 },
                wasps: if wave >= 4 { 2 + wave / 2 } else { 0 },
                mites: if wave >= 3 { wave / 2 } else { 0 },
                colossus: 0,
                medics: if wave >= 6 { 1 + (wave - 6) / 4 } else { 0 },
                shades: if wave >= 6 { 1 + wave / 4 } else { 0 },
                flickers: if wave >= 4 { 1 + wave / 5 } else { 0 },
            },
            WaveScript::Swarm => WavePlan {
                script,
                runners: 10 + wave * 3,
                lorries: wave / 3,
                bulwarks: 0,
                wasps: 0,
                mites: 6 + wave * 2,
                colossus: 0,
                medics: 0,
                shades: 0,
                flickers: 0,
            },
            WaveScript::Air => WavePlan {
                script,
                runners: 4 + wave,
                lorries: 0,
                bulwarks: 0,
                wasps: 8 + wave,
                mites: wave,
                colossus: 0,
                medics: 0,
                shades: 0,
                flickers: 0,
            },
            WaveScript::Armor => WavePlan {
                script,
                runners: 4 + wave,
                lorries: 4 + wave,
                bulwarks: 1 + wave / 2,
                wasps: 0,
                mites: 0,
                colossus: 0,
                medics: 1 + wave / 5,
                shades: if wave >= 8 { 1 + wave / 8 } else { 0 },
                flickers: 0,
            },
            WaveScript::Split => WavePlan {
                script,
                runners: 4 + wave,
                lorries: wave / 2,
                bulwarks: 0,
                wasps: 0,
                mites: 12 + wave * 3,
                colossus: 0,
                medics: 0,
                shades: 2 + wave / 3,
                flickers: 2 + wave / 4,
            },
            WaveScript::Colossus => WavePlan {
                script,
                runners: 6 + wave,
                lorries: wave,
                bulwarks: wave / 4,
                wasps: 2 + wave / 3,
                mites: wave,
                colossus: 1 + wave / 30,
                medics: 2 + wave / 20,
                shades: 1 + wave / 15,
                flickers: 1 + wave / 20,
            },
        };
        if ground_only {
            plan.lorries = plan.lorries + plan.wasps;
            plan.wasps = 0;
        }
        plan
    }

    pub fn total(self) -> (r: u32)
        requires
            plan_total(self) <= u32::MAX,
        ensures
            r == plan_total(self),
    {
        self.runners + self.lorries + self.bulwarks + self.wasps + self.mites + self.colossus
            + self.medics + self.shades + self.flickers
    }

    pub fn kinds(self) -> (r: Vec<CreepKind>)
        requires
            plan_total(self) <= usize::MAX,
        ensures
            r@ == plan_kinds(self),
    {
        let mut kinds: Vec<CreepKind> = Vec::new();
        push_n(&mut kinds, CreepKind::Runner, self.runners);
        push_n(&mut kinds, CreepKind::Lorry, self.lorries);
        push_n(&mut kinds, CreepKind::Bulwark, self.bulwarks);
        push_n(&mut kinds, CreepKind::Wasp, self.wasps);
        push_n(&mut kinds, CreepKind::Mite, self.mites);
        push_n(&mut kinds, CreepKind::Medic, self.medics);
        push_n(&mut kinds, CreepKind::Shade, self.shades);
        push_n(&mut kinds, CreepKind::Flicker, self.flickers);
        push_n(&mut kinds, CreepKind::Colossus, self.colossus);
        assert(kinds@ =~= plan_kinds(self));
        kinds
    }
}

/// A plan's spawn list holds as many creeps as the plan counts.
pub proof fn lemma_plan_kinds_len(p: WavePlan)
    ensures
        plan_kinds(p).len() == plan_total(p),
{
}

fn push_n(out: &mut Vec<CreepKind>, kind: CreepKind, n: u32)
    ensures
        final(out)@ == old(out)@ + repeat_kind(kind, n as nat),
{
    let ghost start = out@;
    let mut i: u32 = 0;
    while i < n
        invariant
            i <= n,
            out@ =~= start + repeat_kind(kind, i as nat),
        decreases n - i,
    {
        out.push(kind);
        i = i + 1;
        assert(out@ =~= start + repeat_kind(kind, i as nat));
    }
}

/// A ground-only match never schedules a Wasp; the director turns them into lorries.
pub proof fn law_ground_only_has_no_wasps(wave: u32)
    ensures
        planned(wave, true).wasps == 0,
{
}

/// Every tenth wave is a Colossus wave with at least one Colossus, with or without air.
pub proof fn law_every_tenth_wave_brings_a_colossus(wave: u32, ground_only: bool)
    requires
        wave > 0,
        wave % 10 == 0,
        wave_in_range(wave),
    ensures
        planned(wave, ground_only).script == WaveScript::Colossus,
        planned(wave, ground_only).colossus >= 1,
{
}

/// A Split wave always brings Shades and Flickers; a late Mixed wave brings them too.
pub proof fn law_split_and_late_mixed_bring_camo(wave: u32, ground_only: bool)
    requires
        wave_in_range(wave),
    ensures
        planned(wave, ground_only).script == WaveScript::Split ==> planned(wave, ground_only).shades
            > 0 && planned(wave, ground_only).flickers > 0,
        planned(wave, ground_only).script == WaveScript::Mixed && wave >= 6 ==> planned(
            wave,
            ground_only,
        ).shades > 0 && planned(wave, ground_only).flickers > 0,
{
}

/// Only Colossus waves send a Colossus.
pub proof fn law_colossus_only_on_colossus_waves(wave: u32, ground_only: bool)
    requires
        wave_in_range(wave),
        planned(wave, ground_only).colossus > 0,
    ensures
        planned(wave, ground_only).script == WaveScript::Colossus,
{
}

/// Ground-only keeps the hull count: every wasp the air script would send becomes a lorry.
pub proof fn law_ground_only_keeps_the_headcount(wave: u32)
    requires
        wave_in_range(wave),
        WaveScript::scripted(wave, true) == WaveScript::scripted(wave, false),
    ensures
        plan_total(planned(wave, true)) == plan_total(planned(wave, false)),
{
}


proof fn lemma_repeat_count(kind: CreepKind, n: nat, c: CreepKind)
    ensures
        repeat_kind(kind, n).to_multiset().count(c) == if c == kind { n } else { 0 },
    decreases n,
{
    broadcast use vstd::multiset::group_multiset_axioms;
    if n == 0 {
        assert(repeat_kind(kind, n) =~= Seq::<CreepKind>::empty());
        vstd::seq_lib::to_multiset_len(repeat_kind(kind, n));
        assert(repeat_kind(kind, n).to_multiset() =~= vstd::multiset::Multiset::<CreepKind>::empty());
    } else {
        lemma_repeat_count(kind, (n - 1) as nat, c);
        assert(repeat_kind(kind, n) =~= repeat_kind(kind, (n - 1) as nat).push(kind));
        vstd::seq_lib::to_multiset_build(repeat_kind(kind, (n - 1) as nat), kind);
    }
}

/// Law: a plan's spawn list sends each hull exactly as many times as the plan counts it.
pub proof fn law_kinds_count_each_hull(p: WavePlan, c: CreepKind)
    ensures
        plan_kinds(p).to_multiset().count(c) == match c {
            CreepKind::Runner => p.runners,
            CreepKind::Lorry => p.lorries,
            CreepKind::Bulwark => p.bulwarks,
            CreepKind::Wasp => p.wasps,
            CreepKind::Mite => p.mites,
            CreepKind::Medic => p.medics,
            CreepKind::Shade => p.shades,
            CreepKind::Flicker => p.flickers,
            CreepKind::Colossus => p.colossus,
        },
{
    broadcast use vstd::multiset::group_multiset_axioms;
    let s1 = repeat_kind(CreepKind::Runner, p.runners as nat);
    let s2 = repeat_kind(CreepKind::Lorry, p.lorries as nat);
    let s3 = repeat_kind(CreepKind::Bulwark, p.bulwarks as nat);
    let s4 = repeat_kind(CreepKind::Wasp, p.wasps as nat);
    let s5 = repeat_kind(CreepKind::Mite, p.mites as nat);
    let s6 = repeat_kind(CreepKind::Medic, p.medics as nat);
    let s7 = repeat_kind(CreepKind::Shade, p.shades as nat);
    let s8 = repeat_kind(CreepKind::Flicker, p.flickers as nat);
    let s9 = repeat_kind(CreepKind::Colossus, p.colossus as nat);
    vstd::seq_lib::lemma_multiset_commutative(s1, s2);
    vstd::seq_lib::lemma_multiset_commutative(s1 + s2, s3);
    vstd::seq_lib::lemma_multiset_commutative(s1 + s2 + s3, s4);
    vstd::seq_lib::lemma_multiset_commutative(s1 + s2 + s3 + s4, s5);
    vstd::seq_lib::lemma_multiset_commutative(s1 + s2 + s3 + s4 + s5, s6);
    vstd::seq_lib::lemma_multiset_commutative(s1 + s2 + s3 + s4 + s5 + s6, s7);
    vstd::seq_lib::lemma_multiset_commutative(s1 + s2 + s3 + s4 + s5 + s6 + s7, s8);
    vstd::seq_lib::lemma_multiset_commutative(s1 + s2 + s3 + s4 + s5 + s6 + s7 + s8, s9);
    lemma_repeat_count(CreepKind::Runner, p.runners as nat, c);
    lemma_repeat_count(CreepKind::Lorry, p.lorries as nat, c);
    lemma_repeat_count(CreepKind::Bulwark, p.bulwarks as nat, c);
    lemma_repeat_count(CreepKind::Wasp, p.wasps as nat, c);
    lemma_repeat_count(CreepKind::Mite, p.mites as nat, c);
    lemma_repeat_count(CreepKind::Medic, p.medics as nat, c);
    lemma_repeat_count(CreepKind::Shade, p.shades as nat, c);
    lemma_repeat_count(CreepKind::Flicker, p.flickers as nat, c);
    lemma_repeat_count(CreepKind::Colossus, p.colossus as nat, c);
}


/// Law: every tenth wave (from wave 10 on) is a Colossus wave. Otherwise a match with air
/// runs a six-wave cycle (Mixed, Mixed, Swarm, Air corridor, Armor column, Split by the wave
/// number modulo six) and a ground-only match a five-wave cycle without the air corridor
/// (Swarm, Mixed, Swarm, Armor column, Split by the wave number modulo five).
pub proof fn law_script_rotation(wave: u32, ground_only: bool)
    ensures
        wave > 0 && wave % 10 == 0 ==> planned(wave, ground_only).script == WaveScript::Colossus,
        !(wave > 0 && wave % 10 == 0) && !ground_only ==> planned(wave, ground_only).script == if wave
            % 6 == 2 {
            WaveScript::Swarm
        } else if wave % 6 == 3 {
            WaveScript::Air
        } else if wave % 6 == 4 {
            WaveScript::Armor
        } else if wave % 6 == 5 {
            WaveScript::Split
        } else {
            WaveScript::Mixed
        },
        !(wave > 0 && wave % 10 == 0) && ground_only ==> planned(wave, ground_only).script == if wave
            % 5 == 0 || wave % 5 == 2 {
            WaveScript::Swarm
        } else if wave % 5 == 3 {
            WaveScript::Armor
        } else if wave % 5 == 4 {
            WaveScript::Split
        } else {
            WaveScript::Mixed
        },
        ground_only ==> planned(wave, ground_only).script != WaveScript::Air,
{
}

/// Law: an Armor column sends lorries, bulwarks and at least one medic behind its runners:
/// `4 + w` runners and lorries, `1 + w / 2` bulwarks, `1 + w / 5` medics, and from wave 8 on
/// `1 + w / 8` shades; never an air hull, a mite, a flicker or a Colossus.
pub proof fn law_armor_column(wave: u32, ground_only: bool)
    requires
        wave_in_range(wave),
        planned(wave, ground_only).script == WaveScript::Armor,
    ensures
        planned(wave, ground_only).runners == 4 + wave,
        planned(wave, ground_only).lorries == 4 + wave,
        planned(wave, ground_only).bulwarks == 1 + wave / 2,
        planned(wave, ground_only).bulwarks > 0,
        planned(wave, ground_only).medics == 1 + wave / 5,
        planned(wave, ground_only).medics > 0,
        planned(wave, ground_only).shades == if wave >= 8 { 1 + wave / 8 } else { 0 },
        planned(wave, ground_only).wasps == 0,
        planned(wave, ground_only).mites == 0,
        planned(wave, ground_only).flickers == 0,
        planned(wave, ground_only).colossus == 0,
{
}

/// Law: a Swarm wave is runners and mites (`10 + 3w` and `6 + 2w`) with `w / 3` lorries,
/// and nothing else.
pub proof fn law_swarm(wave: u32, ground_only: bool)
    requires
        wave_in_range(wave),
        planned(wave, ground_only).script == WaveScript::Swarm,
    ensures
        planned(wave, ground_only).runners == 10 + 3 * wave,
        planned(wave, ground_only).mites == 6 + 2 * wave,
        planned(wave, ground_only).lorries == wave / 3,
        planned(wave, ground_only).bulwarks == 0,
        planned(wave, ground_only).wasps == 0,
        planned(wave, ground_only).medics == 0,
        planned(wave, ground_only).shades == 0,
        planned(wave, ground_only).flickers == 0,
        planned(wave, ground_only).colossus == 0,
{
}

/// Law: an Air corridor is wasps (`8 + w`) with `4 + w` runners and `w` mites, and nothing
/// else; it only comes in a match with air.
pub proof fn law_air_corridor(wave: u32, ground_only: bool)
    requires
        wave_in_range(wave),
        planned(wave, ground_only).script == WaveScript::Air,
    ensures
        !ground_only,
        planned(wave, ground_only).wasps == 8 + wave,
        planned(wave, ground_only).runners == 4 + wave,
        planned(wave, ground_only).mites == wave,
        planned(wave, ground_only).lorries == 0,
        planned(wave, ground_only).bulwarks == 0,
        planned(wave, ground_only).medics == 0,
        planned(wave, ground_only).shades == 0,
        planned(wave, ground_only).flickers == 0,
        planned(wave, ground_only).colossus == 0,
{
}

/// Law: a Split wave is mite weather (`12 + 3w` mites) with `4 + w` runners, `w / 2`
/// lorries, `2 + w / 3` shades and `2 + w / 4` flickers, and nothing else.
pub proof fn law_split(wave: u32, ground_only: bool)
    requires
        wave_in_range(wave),
        planned(wave, ground_only).script == WaveScript::Split,
    ensures
        planned(wave, ground_only).mites == 12 + 3 * wave,
        planned(wave, ground_only).runners == 4 + wave,
        planned(wave, ground_only).lorries == wave / 2,
        planned(wave, ground_only).shades == 2 + wave / 3,
        planned(wave, ground_only).flickers == 2 + wave / 4,
        planned(wave, ground_only).bulwarks == 0,
        planned(wave, ground_only).wasps == 0,
        planned(wave, ground_only).medics == 0,
        planned(wave, ground_only).colossus == 0,
{
}

/// Law: a Colossus wave sends `1 + w / 30` Colossi with medics in the train (`2 + w / 20`),
/// `6 + w` runners, `w` mites, `w / 4` bulwarks, `1 + w / 15` shades, `1 + w / 20` flickers
/// and `2 + w / 3` wasps, which a ground-only match turns into lorries beside its `w`.
pub proof fn law_colossus_wave(wave: u32, ground_only: bool)
    requires
        wave_in_range(wave),
        planned(wave, ground_only).script == WaveScript::Colossus,
    ensures
        planned(wave, ground_only).colossus == 1 + wave / 30,
        planned(wave, ground_only).medics == 2 + wave / 20,
        planned(wave, ground_only).runners == 6 + wave,
        planned(wave, ground_only).mites == wave,
        planned(wave, ground_only).bulwarks == wave / 4,
        planned(wave, ground_only).shades == 1 + wave / 15,
        planned(wave, ground_only).flickers == 1 + wave / 20,
        planned(wave, ground_only).wasps == if ground_only { 0 } else { 2 + wave / 3 },
        planned(wave, ground_only).lorries == if ground_only { wave + 2 + wave / 3 } else { wave as int },
{
}

/// Law: a Mixed wave grows with the wave: `6 + 2w` runners, lorries from wave 2, mites from
/// wave 3, wasps and flickers from wave 4, bulwarks from wave 5, medics and shades from wave
/// 6; never a Colossus. A ground-only match sends the wasps as lorries.
pub proof fn law_mixed(wave: u32, ground_only: bool)
    requires
        wave_in_range(wave),
        planned(wave, ground_only).script == WaveScript::Mixed,
    ensures
        planned(wave, ground_only).runners == 6 + 2 * wave,
        planned(wave, ground_only).bulwarks == if wave >= 5 { (wave - 3) / 2 } else { 0 },
        planned(wave, ground_only).mites == if wave >= 3 { wave / 2 } else { 0 },
        planned(wave, ground_only).medics == if wave >= 6 { 1 + (wave - 6) / 4 } else { 0 },
        planned(wave, ground_only).shades == if wave >= 6 { 1 + wave / 4 } else { 0 },
        planned(wave, ground_only).flickers == if wave >= 4 { 1 + wave / 5 } else { 0 },
        planned(wave, ground_only).colossus == 0,
        planned(wave, ground_only).wasps == if !ground_only && wave >= 4 { 2 + wave / 2 } else { 0 },
        planned(wave, ground_only).lorries == (if wave >= 2 { wave as int } else { 0 }) + (if ground_only
            && wave >= 4 { 2 + wave / 2 } else { 0 }),
{
}

} // verus!
