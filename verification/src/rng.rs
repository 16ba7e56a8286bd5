//! The match's deterministic random source: SplitMix64, seeded per match.

use vstd::prelude::*;

verus! {

pub const GOLDEN_GAMMA: u64 = 0x9E37_79B9_7F4A_7C15;

pub struct Rng {
    state: u64,
}

/// State after one draw.
pub open spec fn advanced(state: u64) -> u64 {
    state.wrapping_add(GOLDEN_GAMMA)
}

/// The SplitMix64 output for an advanced state.
#[verifier::opaque]
pub open spec fn mixed(z: u64) -> u64 {
    let a = (z ^ (z >> 30u64)).wrapping_mul(0xBF58_476D_1CE4_E5B9u64);
    let b = (a ^ (a >> 27u64)).wrapping_mul(0x94D0_49BB_1331_11EBu64);
    b ^ (b >> 31u64)
}

/// State after `n` draws from `state`.
pub open spec fn advanced_by(state: u64, n: nat) -> u64
    decreases n,
{
    if n == 0 {
        state
    } else {
        advanced(advanced_by(state, (n - 1) as nat))
    }
}

/// The `n`-th draw (counting from zero) of a generator in `state`.
pub open spec fn draw(state: u64, n: nat) -> u64 {
    mixed(advanced_by(state, n + 1))
}

/// A number in `lo..hi` taken from the draw `d`; `lo` when the range is empty.
pub open spec fn in_range(d: u64, lo: i32, hi: i32) -> i32 {
    if hi <= lo {
        lo
    } else {
        (lo + d % ((hi - lo) as u64)) as i32
    }
}

impl Rng {
    pub closed spec fn state(&self) -> u64 {
        self.state
    }

    pub fn new(seed: u64) -> (r: Self)
        ensures
            r.state() == seed,
    {
        Rng { state: seed }
    }

    pub fn next_u64(&mut self) -> (r: u64)
        ensures
            final(self).state() == advanced(old(self).state()),
            r == mixed(final(self).state()),
    {
        proof {
            reveal(mixed);
        }
        self.state = self.state.wrapping_add(GOLDEN_GAMMA);
        let z = self.state;
        let a = (z ^ (z >> 30u64)).wrapping_mul(0xBF58_476D_1CE4_E5B9u64);
        let b = (a ^ (a >> 27u64)).wrapping_mul(0x94D0_49BB_1331_11EBu64);
        b ^ (b >> 31u64)
    }

    /// A number in `lo..hi`. An empty range gives `lo` and leaves the generator alone.
    pub fn range_i32(&mut self, lo: i32, hi: i32) -> (r: i32)
        ensures
            hi <= lo ==> r == lo && final(self).state() == old(self).state(),
            lo < hi ==> final(self).state() == advanced(old(self).state()) && r == in_range(
                mixed(final(self).state()),
                lo,
                hi,
            ),
            lo < hi ==> lo <= r < hi,
    {
        if hi <= lo {
            return lo;
        }
        let span: u64 = (hi as i64 - lo as i64) as u64;
        let d = self.next_u64();
        let off = d % span;
        (lo as i64 + off as i64) as i32
    }

    /// One of the items, chosen by a single draw; nothing (and no draw) from an empty list.
    pub fn pick<T: Copy>(&mut self, items: &Vec<T>) -> (r: Option<T>)
        requires
            items@.len() <= i32::MAX,
        ensures
            items@.len() == 0 ==> r is None && final(self).state() == old(self).state(),
            items@.len() > 0 ==> final(self).state() == advanced(old(self).state()) && r == Some(
                items@[in_range(mixed(final(self).state()), 0, items@.len() as i32) as int],
            ),
    {
        if items.len() == 0 {
            return None;
        }
        let i = self.range_i32(0, items.len() as i32);
        Some(items[i as usize])
    }
}

} // verus!
