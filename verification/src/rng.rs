use vstd::prelude::*;
use crate::fixed::FX_ONE;

verus! {

/// Deterministic random source for the renderer.
///
/// This is the xoshiro128+ generator of Blackman and Vigna, seeded from a
/// `u64` through splitmix64, exactly as `rand_xoshiro::Xoshiro128Plus` does
/// it. Rendering seeds one generator per scanline from the scanline index,
/// never from the clock or the operating system, so a frame is a pure
/// function of the scene, the camera and the image geometry.
#[derive(Clone, Copy, PartialEq, Eq, Structural)]
pub struct RayRng {
    pub s0: u32,
    pub s1: u32,
    pub s2: u32,
    pub s3: u32,
}

/// One splitmix64 step: next state and output word.
pub open spec fn sm_next_s(x: u64) -> (u64, u64) {
    let x2 = x.wrapping_add(0x9e3779b97f4a7c15);
    let z1 = (x2 ^ (x2 >> 30)).wrapping_mul(0xbf58476d1ce4e5b9);
    let z2 = (z1 ^ (z1 >> 27)).wrapping_mul(0x94d049bb133111eb);
    (x2, z2 ^ (z2 >> 31))
}

pub open spec fn state_from_words_s(z1: u64, z2: u64) -> RayRng {
    RayRng {
        s0: (z1 & 0xffff_ffff) as u32,
        s1: (z1 >> 32) as u32,
        s2: (z2 & 0xffff_ffff) as u32,
        s3: (z2 >> 32) as u32,
    }
}

/// The generator state obtained from a `u64` seed: two splitmix64 outputs,
/// split into 32-bit words little-endian; an all-zero state falls back to
/// the words drawn from splitmix64 seeded with zero.
pub open spec fn seed_state_s(seed: u64) -> RayRng {
    let (x1, z1) = sm_next_s(seed);
    let (x2, z2) = sm_next_s(x1);
    if z1 == 0 && z2 == 0 {
        let (y1, w1) = sm_next_s(0);
        let (y2, w2) = sm_next_s(y1);
        state_from_words_s(w1, w2)
    } else {
        state_from_words_s(z1, z2)
    }
}

/// The value returned by one xoshiro128+ step.
pub open spec fn next_val_s(r: RayRng) -> u32 {
    r.s0.wrapping_add(r.s3)
}

/// The state after one xoshiro128+ step.
pub open spec fn next_state_s(r: RayRng) -> RayRng {
    let t = r.s1 << 9;
    let s2a = r.s2 ^ r.s0;
    let s3a = r.s3 ^ r.s1;
    let s1a = r.s1 ^ s2a;
    let s0a = r.s0 ^ s3a;
    let s2b = s2a ^ t;
    let s3b = (s3a << 11) | (s3a >> 21);
    RayRng { s0: s0a, s1: s1a, s2: s2b, s3: s3b }
}

/// A sample in `[lo, hi)` (or `lo` itself when the range is empty), scaled
/// from the next output word.
pub open spec fn gen_range_val_s(r: RayRng, lo: i64, hi: i64) -> i64 {
    (lo + (next_val_s(r) * (hi - lo)) / 0x1_0000_0000) as i64
}

impl RayRng {
    /// Seed deterministically from a 64-bit value.
    pub fn new(seed: u64) -> (r: RayRng)
        ensures
            r == seed_state_s(seed),
    {
        let x1 = seed.wrapping_add(0x9e3779b97f4a7c15);
        let z1 = splitmix_out(x1);
        let x2 = x1.wrapping_add(0x9e3779b97f4a7c15);
        let z2 = splitmix_out(x2);
        if z1 == 0 && z2 == 0 {
            let y1 = 0u64.wrapping_add(0x9e3779b97f4a7c15);
            let w1 = splitmix_out(y1);
            let y2 = y1.wrapping_add(0x9e3779b97f4a7c15);
            let w2 = splitmix_out(y2);
            RayRng::from_words(w1, w2)
        } else {
            RayRng::from_words(z1, z2)
        }
    }

    fn from_words(z1: u64, z2: u64) -> (r: RayRng)
        ensures
            r == state_from_words_s(z1, z2),
    {
        RayRng {
            s0: (z1 & 0xffff_ffff) as u32,
            s1: (z1 >> 32) as u32,
            s2: (z2 & 0xffff_ffff) as u32,
            s3: (z2 >> 32) as u32,
        }
    }

    /// One xoshiro128+ step.
    pub fn next_u32(&mut self) -> (r: u32)
        ensures
            r == next_val_s(*old(self)),
            *final(self) == next_state_s(*old(self)),
    {
        let result = self.s0.wrapping_add(self.s3);
        let t = self.s1 << 9;
        self.s2 = self.s2 ^ self.s0;
        self.s3 = self.s3 ^ self.s1;
        self.s1 = self.s1 ^ self.s2;
        self.s0 = self.s0 ^ self.s3;
        self.s2 = self.s2 ^ t;
        self.s3 = (self.s3 << 11) | (self.s3 >> 21);
        result
    }

    /// Draw a fixed-point value in `[lo, hi)`; an empty range yields `lo`.
    pub fn gen_range(&mut self, lo: i64, hi: i64) -> (r: i64)
        requires
            lo <= hi,
        ensures
            r == gen_range_val_s(*old(self), lo, hi),
            *final(self) == next_state_s(*old(self)),
            lo <= r,
            lo < hi ==> r < hi,
            lo == hi ==> r == lo,
    {
        let v = self.next_u32();
        let span = (hi as i128) - (lo as i128);
        proof {
            assert(0 <= (v as int) * (span as int) <= 0xffff_ffff * (span as int))
                by (nonlinear_arith)
                requires
                    0 <= (v as int) <= 0xffff_ffff,
                    0 <= span,
            ;
            vstd::arithmetic::div_mod::lemma_fundamental_div_mod(
                (v as int) * (span as int),
                0x1_0000_0000,
            );
        }
        let prod = (v as i128) * span;
        let q = prod / 0x1_0000_0000;
        let r = (lo as i128) + q;
        r as i64
    }

    /// Draw a fixed-point value in `[0, 1)`.
    pub fn gen_unit(&mut self) -> (r: i64)
        ensures
            r == gen_range_val_s(*old(self), 0, FX_ONE),
            *final(self) == next_state_s(*old(self)),
            0 <= r < FX_ONE,
    {
        self.gen_range(0, FX_ONE)
    }
}

/// The splitmix64 output mix applied to a state word.
fn splitmix_out(x: u64) -> (r: u64)
    ensures
        ({
            let z1 = (x ^ (x >> 30)).wrapping_mul(0xbf58476d1ce4e5b9);
            let z2 = (z1 ^ (z1 >> 27)).wrapping_mul(0x94d049bb133111eb);
            r == z2 ^ (z2 >> 31)
        }),
{
    let z1 = (x ^ (x >> 30)).wrapping_mul(0xbf58476d1ce4e5b9);
    let z2 = (z1 ^ (z1 >> 27)).wrapping_mul(0x94d049bb133111eb);
    z2 ^ (z2 >> 31)
}

} // verus!
