//! Deterministic pseudo-random draws.
//!
//! All randomness in the engine comes from ChaCha20 keystreams, each seeded
//! from a 64-bit value, so every draw is a pure function of that seed and of
//! the position in the stream. The stream itself is named by the
//! uninterpreted function [`chacha_word`]; everything derived from it
//! (64-bit words, bounded indices, fixed-point ranges) is verified.

use vstd::prelude::*;
use crate::fixed::fx_in_range;

verus! {

#[verifier::external_type_specification]
#[verifier::external_body]
pub struct ExChaCha20Rng(rand_chacha::ChaCha20Rng);

/// The `idx`-th 32-bit word (counting from 0) of the ChaCha20 keystream
/// obtained by seeding with `seed`: a pure function of `(seed, idx)`.
pub uninterp spec fn chacha_word(seed: u64, idx: int) -> u32;

/// Relies on `rand_core::SeedableRng::seed_from_u64` for
/// `rand_chacha::ChaCha20Rng`: it derives the generator state from the
/// 64-bit seed alone, by a derivation documented as stable (changing it is a
/// value-breaking change), so the words the result will yield are the pure
/// function [`chacha_word`] of the seed; the contract stating that stands on
/// [`WordStream::next_word`].
#[verifier::external_body]
fn chacha_start(seed: u64) -> (r: rand_chacha::ChaCha20Rng) {
    <rand_chacha::ChaCha20Rng as rand_chacha::rand_core::SeedableRng>::seed_from_u64(seed)
}

/// A ChaCha20 word source, with the ghost position of the next word.
pub(crate) struct WordStream {
    inner: rand_chacha::ChaCha20Rng,
    seed: Ghost<u64>,
    idx: Ghost<int>,
}

impl WordStream {
    /// The 64-bit value this stream was seeded with.
    pub(crate) closed spec fn seed(self) -> u64 {
        self.seed@
    }

    /// How many words have been taken from the stream so far.
    pub(crate) closed spec fn idx(self) -> int {
        self.idx@
    }

    /// Seed a fresh stream; no words have been taken from it yet.
    pub(crate) fn start(seed: u64) -> (r: WordStream)
        ensures
            r.seed() == seed,
            r.idx() == 0,
    {
        WordStream { inner: chacha_start(seed), seed: Ghost(seed), idx: Ghost(0int) }
    }

    /// Relies on `rand_core::Rng::next_u32` for `rand_chacha::ChaCha20Rng`:
    /// successive calls return the successive 32-bit words of the keystream
    /// determined by the seed, which rand_chacha documents as reproducible.
    #[verifier::external_body]
    pub(crate) fn next_word(&mut self) -> (r: u32)
        ensures
            final(self).seed() == old(self).seed(),
            final(self).idx() == old(self).idx() + 1,
            r == chacha_word(old(self).seed(), old(self).idx()),
    {
        rand_chacha::rand_core::Rng::next_u32(&mut self.inner)
    }
}

/// Two successive stream words at `idx`, combined low word first.
pub open spec fn stream_u64(seed: u64, idx: int) -> u64 {
    (chacha_word(seed, idx) as u64 + chacha_word(seed, idx + 1) as u64 * 0x1_0000_0000) as u64
}

impl WordStream {
    /// Take two words and combine them, low word first.
    pub(crate) fn next_u64(&mut self) -> (r: u64)
        ensures
            final(self).seed() == old(self).seed(),
            final(self).idx() == old(self).idx() + 2,
            r == stream_u64(old(self).seed(), old(self).idx()),
    {
        let lo = self.next_word();
        let hi = self.next_word();
        lo as u64 + hi as u64 * 0x1_0000_0000
    }
}

/// The index below `n` drawn at stream position `idx`: the next 64-bit word
/// scaled down into `[0, n)` by a widening multiply.
pub open spec fn stream_below(seed: u64, idx: int, n: u64) -> u64 {
    ((stream_u64(seed, idx) * n) / 0x1_0000_0000_0000_0000) as u64
}

/// The fixed-point value in `[lo, hi]` drawn at stream position `idx`:
/// `lo + (hi - lo + 1) * u / 2^64` for the next 64-bit word `u`, so both
/// ends of the band can be drawn.
pub open spec fn stream_fx_between(seed: u64, idx: int, lo: i64, hi: i64) -> i64 {
    (lo + ((hi - lo + 1) * stream_u64(seed, idx)) / 0x1_0000_0000_0000_0000) as i64
}

impl WordStream {
    /// Draw an index uniformly below `n`.
    pub(crate) fn below(&mut self, n: u64) -> (r: u64)
        requires
            1 <= n,
        ensures
            final(self).seed() == old(self).seed(),
            final(self).idx() == old(self).idx() + 2,
            r == stream_below(old(self).seed(), old(self).idx(), n),
            r < n,
    {
        let u = self.next_u64();
        proof {
            assert(u as int * n as int <= u128::MAX) by (nonlinear_arith)
                requires
                    (u as int) < 0x1_0000_0000_0000_0000,
                    (n as int) < 0x1_0000_0000_0000_0000,
            ;
        }
        let p: u128 = u as u128 * n as u128;
        let r = (p / 0x1_0000_0000_0000_0000u128) as u64;
        proof {
            assert(u as int * n as int / 0x1_0000_0000_0000_0000 < n as int) by (nonlinear_arith)
                requires
                    (u as int) < 0x1_0000_0000_0000_0000,
                    1 <= n as int,
            ;
        }
        r
    }

    /// Draw a fixed-point value between `lo` and `hi`.
    pub(crate) fn fx_between(&mut self, lo: i64, hi: i64) -> (r: i64)
        requires
            fx_in_range(lo as int),
            fx_in_range(hi as int),
            lo <= hi,
        ensures
            final(self).seed() == old(self).seed(),
            final(self).idx() == old(self).idx() + 2,
            r == stream_fx_between(old(self).seed(), old(self).idx(), lo, hi),
            lo <= r <= hi,
            fx_in_range(r as int),
    {
        let u = self.next_u64();
        let span: u64 = (hi - lo) as u64 + 1;
        proof {
            assert(span as int * u as int <= u128::MAX) by (nonlinear_arith)
                requires
                    (u as int) < 0x1_0000_0000_0000_0000,
                    (span as int) < 0x1_0000_0000_0000_0000,
            ;
        }
        let p: u128 = span as u128 * u as u128;
        let off = (p / 0x1_0000_0000_0000_0000u128) as u64;
        proof {
            assert(span as int * u as int / 0x1_0000_0000_0000_0000 < span as int)
                by (nonlinear_arith)
                requires
                    (u as int) < 0x1_0000_0000_0000_0000,
                    1 <= span as int,
            ;
            assert(span as int * u as int == u as int * span as int) by (nonlinear_arith);
        }
        lo + off as i64
    }

    /// Draw an index below `n` that differs from `i`.
    pub(crate) fn other_index(&mut self, n: u64, i: u64) -> (r: u64)
        requires
            2 <= n,
            i < n,
        ensures
            final(self).seed() == old(self).seed(),
            final(self).idx() == old(self).idx() + 2,
            r == spec_other_index(old(self).seed(), old(self).idx(), n, i),
            r < n,
            r != i,
    {
        let j0 = self.below(n - 1);
        if j0 >= i {
            j0 + 1
        } else {
            j0
        }
    }

    /// Draw an index below `n` that differs from both `i` and `j`.
    pub(crate) fn third_index(&mut self, n: u64, i: u64, j: u64) -> (r: u64)
        requires
            3 <= n,
            i < n,
            j < n,
            i != j,
        ensures
            final(self).seed() == old(self).seed(),
            final(self).idx() == old(self).idx() + 2,
            r == spec_third_index(old(self).seed(), old(self).idx(), n, i, j),
            r < n,
            r != i,
            r != j,
    {
        let a = if i < j {
            i
        } else {
            j
        };
        let b = if i < j {
            j
        } else {
            i
        };
        let k0 = self.below(n - 2);
        let k1 = if k0 >= a {
            k0 + 1
        } else {
            k0
        };
        if k1 >= b {
            k1 + 1
        } else {
            k1
        }
    }
}

/// The distinct partner index drawn at `idx`: an index below `n - 1`,
/// shifted up by one when it lands at or above `i`.
pub open spec fn spec_other_index(seed: u64, idx: int, n: u64, i: u64) -> u64 {
    let j0 = stream_below(seed, idx, (n - 1) as u64);
    if j0 >= i {
        (j0 + 1) as u64
    } else {
        j0
    }
}

/// The second partner index drawn at `idx`: an index below `n - 2`, shifted
/// up past each of `i` and `j` in increasing order.
pub open spec fn spec_third_index(seed: u64, idx: int, n: u64, i: u64, j: u64) -> u64 {
    let a = if i < j {
        i
    } else {
        j
    };
    let b = if i < j {
        j
    } else {
        i
    };
    let k0 = stream_below(seed, idx, (n - 2) as u64);
    let k1 = if k0 >= a {
        (k0 + 1) as u64
    } else {
        k0
    };
    if k1 >= b {
        (k1 + 1) as u64
    } else {
        k1
    }
}

} // verus!
