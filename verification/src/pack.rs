//! Loadout packs: why a pack document was refused.

use vstd::prelude::*;
use crate::defs::{BuildKind, StrikeKind};
use crate::orders::{mix, mixed};

verus! {

#[derive(Clone, Debug, PartialEq, Eq)]
pub enum PackError {
    Parse(String),
    BadGun,
    BadStrike,
    DuplicateGun,
    DuplicateStrike,
    Range,
    EmptyTray,
}

impl PackError {
    pub open spec fn text(&self) -> Seq<char> {
        match self {
            PackError::Parse(s) => "Bad JSON: "@ + s@,
            PackError::BadGun => "Gun id must be 1–10 (barricade through siege rail)"@,
            PackError::BadStrike => "Strike id must be 1–3 (satchel, overload, orbital)"@,
            PackError::DuplicateGun => "Duplicate gun id in pack"@,
            PackError::DuplicateStrike => "Duplicate strike id in pack"@,
            PackError::Range => "A pack value is out of range"@,
            PackError::EmptyTray => "A pack must leave at least one buildable enabled"@,
        }
    }

    pub fn message(&self) -> (r: String)
        ensures
            r@ == self.text(),
    {
        match self {
            PackError::Parse(s) => {
                let mut m = "Bad JSON: ".to_owned();
                m.append(s.as_str());
                m
            },
            PackError::BadGun => "Gun id must be 1–10 (barricade through siege rail)".to_owned(),
            PackError::BadStrike => "Strike id must be 1–3 (satchel, overload, orbital)".to_owned(),
            PackError::DuplicateGun => "Duplicate gun id in pack".to_owned(),
            PackError::DuplicateStrike => "Duplicate strike id in pack".to_owned(),
            PackError::Range => "A pack value is out of range".to_owned(),
            PackError::EmptyTray => "A pack must leave at least one buildable enabled".to_owned(),
        }
    }
}


/// What the pack rules read of one gun or strike patch: its id, the integer values it sets,
/// the byte lengths of the texts it sets, whether its real-valued stats lie in their
/// ranges, and the enabled flag it sets. A field left `None` is not set by the patch.
pub struct PatchFacts {
    pub id: u8,
    pub cost: Option<i32>,
    pub volley: Option<u8>,
    pub name_len: Option<usize>,
    pub role_len: Option<usize>,
    pub blurb_len: Option<usize>,
    pub floats_in_range: bool,
    pub enabled: Option<bool>,
}

/// Which buildables and strikes a resolved pack leaves enabled, indexed by wire code
/// (slot 0, inspect or no strike, is never enabled).
pub struct TrayFlags {
    pub guns: Vec<bool>,
    pub strikes: Vec<bool>,
}

/// The id names a gun (barricade through siege rail), or for `strike` a strike.
pub open spec fn id_known(id: u8, strike: bool) -> bool {
    if strike {
        StrikeKind::decoded(id) != StrikeKind::Unarmed
    } else {
        BuildKind::decoded(id) != BuildKind::Inspect
    }
}

/// Every value the patch sets lies in its allowed range.
pub open spec fn patch_in_range(p: PatchFacts) -> bool {
    &&& p.floats_in_range
    &&& (p.cost matches Some(c) ==> 0 <= c <= 250_000)
    &&& (p.volley matches Some(v) ==> v <= 16)
    &&& (p.name_len matches Some(n) ==> 1 <= n <= 32)
    &&& (p.role_len matches Some(n) ==> n <= 48)
    &&& (p.blurb_len matches Some(n) ==> n <= 160)
}

pub open spec fn bad_id(strike: bool) -> PackError {
    if strike { PackError::BadStrike } else { PackError::BadGun }
}

pub open spec fn repeated_id(strike: bool) -> PackError {
    if strike { PackError::DuplicateStrike } else { PackError::DuplicateGun }
}

/// What is wrong with patch `k`, read after the patches before it: an unknown id, an id
/// that an earlier patch already used, or a value out of range.
pub open spec fn patch_fault(ps: Seq<PatchFacts>, k: int, strike: bool) -> Option<PackError> {
    if !id_known(ps[k].id, strike) {
        Some(bad_id(strike))
    } else if exists|j: int| 0 <= j < k && ps[j].id == ps[k].id {
        Some(repeated_id(strike))
    } else if !patch_in_range(ps[k]) {
        Some(PackError::Range)
    } else {
        None
    }
}

/// The fault of the first faulty patch among the first `n`, if any.
pub open spec fn first_fault(ps: Seq<PatchFacts>, n: int, strike: bool) -> Option<PackError>
    decreases n,
{
    if n <= 0 {
        None
    } else {
        match first_fault(ps, n - 1, strike) {
            Some(e) => Some(e),
            None => patch_fault(ps, n - 1, strike),
        }
    }
}

proof fn lemma_fault_stays(ps: Seq<PatchFacts>, n: int, m: int, strike: bool)
    requires
        0 <= n <= m,
        first_fault(ps, n, strike) is Some,
    ensures
        first_fault(ps, m, strike) == first_fault(ps, n, strike),
    decreases m - n,
{
    if m > n {
        lemma_fault_stays(ps, n, m - 1, strike);
    }
}

/// The enabled flags of the stock catalog: every slot but slot 0.
pub open spec fn stock_flags(slots: nat) -> Seq<bool> {
    Seq::new(slots, |i: int| i != 0)
}

/// The enabled flags after the first `n` patches: each patch that sets its flag sets it
/// in the slot of its id.
pub open spec fn flags_after(ps: Seq<PatchFacts>, n: int, slots: nat) -> Seq<bool>
    decreases n,
{
    if n <= 0 {
        stock_flags(slots)
    } else {
        let f = flags_after(ps, n - 1, slots);
        match ps[n - 1].enabled {
            Some(b) => f.update(ps[n - 1].id as int, b),
            None => f,
        }
    }
}

/// Some buildable stays enabled.
pub open spec fn tray_filled(guns: Seq<bool>) -> bool {
    exists|i: int| 1 <= i < guns.len() && guns[i]
}

/// The verdict on a pack: gun patches are read before strike patches, the first faulty
/// patch decides the error, and a pack that leaves no buildable enabled is refused;
/// otherwise the final enabled flags of the guns and the strikes.
pub open spec fn pack_verdict(guns: Seq<PatchFacts>, strikes: Seq<PatchFacts>) -> Result<
    (Seq<bool>, Seq<bool>),
    PackError,
> {
    match first_fault(guns, guns.len() as int, false) {
        Some(e) => Err(e),
        None => match first_fault(strikes, strikes.len() as int, true) {
            Some(e) => Err(e),
            None => {
                let g = flags_after(guns, guns.len() as int, 11);
                let s = flags_after(strikes, strikes.len() as int, 4);
                if tray_filled(g) {
                    Ok((g, s))
                } else {
                    Err(PackError::EmptyTray)
                }
            },
        },
    }
}

fn in_range(p: &PatchFacts) -> (r: bool)
    ensures
        r == patch_in_range(*p),
{
    if !p.floats_in_range {
        return false;
    }
    if let Some(c) = p.cost {
        if c < 0 || c > 250_000 {
            return false;
        }
    }
    if let Some(v) = p.volley {
        if v > 16 {
            return false;
        }
    }
    if let Some(n) = p.name_len {
        if n < 1 || n > 32 {
            return false;
        }
    }
    if let Some(n) = p.role_len {
        if n > 48 {
            return false;
        }
    }
    if let Some(n) = p.blurb_len {
        if n > 160 {
            return false;
        }
    }
    true
}

fn slot_of(id: u8, strike: bool) -> (r: Option<usize>)
    ensures
        r is Some <==> id_known(id, strike),
        r matches Some(i) ==> i == id && 1 <= i && (if strike { i < 4 } else { i < 11 }),
{
    if strike {
        let k = StrikeKind::from_u8(id);
        if k == StrikeKind::Unarmed {
            None
        } else {
            Some(id as usize)
        }
    } else {
        let k = BuildKind::from_u8(id);
        if k == BuildKind::Inspect {
            None
        } else {
            Some(id as usize)
        }
    }
}

/// Reads one list of patches (`strike` says which) against the stock flags: the first
/// fault, or the final flags.
fn scan_patches(ps: &Vec<PatchFacts>, strike: bool) -> (r: Result<Vec<bool>, PackError>)
    ensures
        match r {
            Ok(f) => first_fault(ps@, ps.len() as int, strike) is None && f@ == flags_after(
                ps@,
                ps.len() as int,
                if strike { 4nat } else { 11nat },
            ),
            Err(e) => first_fault(ps@, ps.len() as int, strike) == Some(e),
        },
{
    let slots: usize = if strike { 4 } else { 11 };
    let ghost n: nat = slots as nat;
    let mut seen: Vec<bool> = Vec::new();
    let mut flags: Vec<bool> = Vec::new();
    let mut i: usize = 0;
    while i < slots
        invariant
            i <= slots,
            slots == n,
            seen@ == Seq::new(i as nat, |j: int| false),
            flags@ == Seq::new(i as nat, |j: int| j != 0),
        decreases slots - i,
    {
        seen.push(false);
        flags.push(i != 0);
        i = i + 1;
    }
    assert(flags@ == stock_flags(n));
    let mut k: usize = 0;
    while k < ps.len()
        invariant
            k <= ps.len(),
            slots == n,
            n == (if strike { 4nat } else { 11nat }),
            seen@.len() == n,
            flags@.len() == n,
            first_fault(ps@, k as int, strike) is None,
            flags@ == flags_after(ps@, k as int, n),
            forall|s: int|
                0 <= s < n ==> (seen@[s] <==> exists|j: int| 0 <= j < k && ps@[j].id == s),
            forall|j: int| 0 <= j < k ==> id_known(#[trigger] ps@[j].id, strike),
        decreases ps.len() - k,
    {
        let p = &ps[k];
        let slot = slot_of(p.id, strike);
        match slot {
            None => {
                assert(patch_fault(ps@, k as int, strike) == Some(bad_id(strike)));
                proof {
                    lemma_fault_stays(ps@, k + 1, ps.len() as int, strike);
                }
                return Err(if strike { PackError::BadStrike } else { PackError::BadGun });
            },
            Some(s) => {
                if seen[s] {
                    assert(patch_fault(ps@, k as int, strike) == Some(repeated_id(strike)));
                    proof {
                        lemma_fault_stays(ps@, k + 1, ps.len() as int, strike);
                    }
                    return Err(
                        if strike { PackError::DuplicateStrike } else { PackError::DuplicateGun },
                    );
                }
                assert(!exists|j: int| 0 <= j < k && ps@[j].id == ps@[k as int].id);
                if !in_range(p) {
                    proof {
                        lemma_fault_stays(ps@, k + 1, ps.len() as int, strike);
                    }
                    return Err(PackError::Range);
                }
                assert(patch_fault(ps@, k as int, strike) is None);
                seen.set(s, true);
                if let Some(b) = p.enabled {
                    flags.set(s, b);
                }
                proof {
                    assert forall|t: int| 0 <= t < n implies (seen@[t] <==> exists|j: int|
                        0 <= j < k + 1 && ps@[j].id == t) by {
                        if t == s {
                            assert(ps@[k as int].id == t);
                        } else if seen@[t] {
                            let j = choose|j: int| 0 <= j < k && ps@[j].id == t;
                            assert(0 <= j < k + 1 && ps@[j].id == t);
                        }
                    }
                }
                k = k + 1;
            },
        }
    }
    Ok(flags)
}

fn any_enabled(guns: &Vec<bool>) -> (r: bool)
    ensures
        r == tray_filled(guns@),
{
    let mut i: usize = 1;
    while i < guns.len()
        invariant
            1 <= i <= guns.len() || guns.len() == 0,
            forall|j: int| 1 <= j < i ==> !guns@[j],
        decreases guns.len() - i,
    {
        if guns[i] {
            return true;
        }
        i = i + 1;
    }
    false
}

/// Resolves a pack against the stock catalog: the gun patches, then the strike patches,
/// each refused at its first fault, then the refusal of a pack that leaves no buildable
/// enabled; otherwise the enabled flags that the pack leaves.
pub fn resolve_pack(guns: &Vec<PatchFacts>, strikes: &Vec<PatchFacts>) -> (r: Result<
    TrayFlags,
    PackError,
>)
    ensures
        match r {
            Ok(t) => pack_verdict(guns@, strikes@) == Ok::<(Seq<bool>, Seq<bool>), PackError>(
                (t.guns@, t.strikes@),
            ),
            Err(e) => pack_verdict(guns@, strikes@) == Err::<(Seq<bool>, Seq<bool>), PackError>(
                e,
            ),
        },
{
    let g = match scan_patches(guns, false) {
        Ok(f) => f,
        Err(e) => return Err(e),
    };
    let s = match scan_patches(strikes, true) {
        Ok(f) => f,
        Err(e) => return Err(e),
    };
    if !any_enabled(&g) {
        return Err(PackError::EmptyTray);
    }
    Ok(TrayFlags { guns: g, strikes: s })
}

/// The fingerprint's fold: each word mixed into the running value in turn.
pub open spec fn fingerprint_fold(h: u64, words: Seq<u64>) -> u64
    decreases words.len(),
{
    if words.len() == 0 {
        h
    } else {
        mixed(fingerprint_fold(h, words.drop_last()), words.last())
    }
}

/// Where a loadout's fingerprint starts.
pub const FINGERPRINT_SEED: u64 = 0x10AD_0000;

/// Fingerprints a resolved loadout, given as the sequence of words that describe it.
pub fn pack_fingerprint(words: &Vec<u64>) -> (r: u64)
    ensures
        r == fingerprint_fold(FINGERPRINT_SEED, words@),
{
    let mut h: u64 = FINGERPRINT_SEED;
    let mut i: usize = 0;
    while i < words.len()
        invariant
            i <= words.len(),
            h == fingerprint_fold(FINGERPRINT_SEED, words@.take(i as int)),
        decreases words.len() - i,
    {
        assert(words@.take(i as int + 1).drop_last() == words@.take(i as int));
        h = mix(h, words[i]);
        i = i + 1;
    }
    assert(words@.take(words.len() as int) == words@);
    h
}

} // verus!
