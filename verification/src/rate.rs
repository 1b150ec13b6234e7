//! A clock that runs at a rate: each tick moves it by the base span scaled
//! by a factor.
//!
//! The factor of the stock rate is a Q32.32 fixed-point number: a `u64`
//! that stands for its value divided by 2^32, so that 2^32 itself is the
//! rate one.

use vstd::prelude::*;
use crate::clock::Clock;
use crate::time::{VDuration, VInstant};

verus! {

/// The Q32.32 factor that stands for one.
pub const Q32_32_ONE: u64 = 0x1_0000_0000;

/// The Q32.32 factor of the ratio `num / den`, rounded down. A zero
/// denominator counts as one.
pub open spec fn q32_32_of(num: u32, den: u32) -> u64 {
    ((num * 0x1_0000_0000) / (if den == 0 {
        1
    } else {
        den as int
    })) as u64
}

/// `nanos` scaled by the Q32.32 factor `factor`, rounded down and cut to 64 bits.
pub open spec fn q32_32_scale(nanos: u64, factor: u64) -> u64 {
    (((nanos * factor) / 0x1_0000_0000) % 0x1_0000_0000_0000_0000) as u64
}

/// A way of scaling spans. Nothing is asked of an implementation; what a
/// clock does with a rate is stated over what the rate's `scale` promises.
pub trait Rate {
    /// Scales `duration`.
    fn scale(&self, duration: VDuration) -> (r: VDuration);
}

/// A rate held as a Q32.32 fixed-point factor.
#[allow(non_camel_case_types)]
#[derive(Debug)]
pub struct Q32_32Rate {
    factor_q32_32: u64,
}

impl Q32_32Rate {
    /// The factor of the rate, in Q32.32.
    pub closed spec fn factor(&self) -> u64 {
        self.factor_q32_32
    }
}

impl Default for Q32_32Rate {
    /// The rate one.
    fn default() -> (r: Q32_32Rate)
        ensures
            r.factor() == 0x1_0000_0000,
    {
        Q32_32Rate { factor_q32_32: Q32_32_ONE }
    }
}

impl Rate for Q32_32Rate {
    /// Multiplies by the factor in 128 bits, rounds down and cuts to 64 bits.
    fn scale(&self, duration: VDuration) -> (r: VDuration)
        ensures
            r.0 == q32_32_scale(duration.0, self.factor()),
    {
        let nanos: u64 = duration.0;
        let factor: u64 = self.factor_q32_32;
        assert(nanos * factor <= 0xffff_ffff_ffff_ffff * 0xffff_ffff_ffff_ffff) by (nonlinear_arith)
            requires
                nanos <= 0xffff_ffff_ffff_ffff,
                factor <= 0xffff_ffff_ffff_ffff,
        ;
        let wide: u128 = (nanos as u128) * (factor as u128);
        let shifted: u128 = wide >> 32;
        assert(shifted == wide / 0x1_0000_0000) by (bit_vector)
            requires
                shifted == wide >> 32,
        ;
        let cut: u64 = #[verifier::truncate] (shifted as u64);
        assert(cut == shifted % 0x1_0000_0000_0000_0000) by (bit_vector)
            requires
                cut == #[verifier::truncate] (shifted as u64),
        ;
        VDuration(cut)
    }
}

/// A clock that advances by the base span times its rate.
#[derive(Debug)]
pub struct RateClock<R: Rate = Q32_32Rate> {
    now: VInstant,
    rate: R,
}

impl<R: Rate> RateClock<R> {
    /// The instant at which the clock stands.
    pub closed spec fn reading(&self) -> VInstant {
        self.now
    }

    /// The rate at which the clock runs.
    pub closed spec fn rate(&self) -> R {
        self.rate
    }

    /// Moves the clock by what its rate scales `base` to, wrapping round the
    /// ring of instants.
    pub fn tick(&mut self, base: VDuration)
        ensures
            final(self).rate() == old(self).rate(),
            exists|scaled: VDuration|
                call_ensures(R::scale, (&old(self).rate(), base), scaled) && final(self).reading()
                    == #[trigger] old(self).reading().plus(scaled),
    {
        let scaled = self.rate.scale(base);
        self.now = self.now + scaled;
        assert(self.reading() == old(self).reading().plus(scaled));
    }
}

impl<R: Rate + Default> RateClock<R> {
    /// A clock standing at the epoch that runs at the default rate.
    pub fn new() -> (c: Self)
        ensures
            c.reading() == VInstant(0),
            call_ensures(R::default, (), c.rate()),
    {
        RateClock { now: VInstant(0), rate: R::default() }
    }
}

impl<R: Rate + Default> Default for RateClock<R> {
    /// A clock standing at the epoch that runs at the default rate.
    fn default() -> (c: Self)
        ensures
            c.reading() == VInstant(0),
            call_ensures(R::default, (), c.rate()),
    {
        RateClock { now: VInstant(0), rate: R::default() }
    }
}

impl RateClock<Q32_32Rate> {
    /// A clock standing at the epoch that runs at the rate `num / den`.
    pub fn with_rate(num: u32, den: u32) -> (c: Self)
        ensures
            c.reading() == VInstant(0),
            c.rate().factor() == q32_32_of(num, den),
    {
        let mut c = RateClock { now: VInstant(0), rate: Q32_32Rate::default() };
        c.set_rate(num, den);
        c
    }

    /// Sets the rate to `num / den`: two over one runs twice as fast. A
    /// zero denominator counts as one.
    pub fn set_rate(&mut self, num: u32, den: u32)
        ensures
            final(self).reading() == old(self).reading(),
            final(self).rate().factor() == q32_32_of(num, den),
    {
        let den: u32 = if den == 0 { 1 } else { den };
        let wide: u64 = (num as u64) << 32;
        assert(wide == num * 0x1_0000_0000) by (bit_vector)
            requires
                wide == (num as u64) << 32,
        ;
        self.rate.factor_q32_32 = wide / (den as u64);
    }
}

impl<R: Rate> Clock for RateClock<R> {
    open spec fn instant(&self) -> VInstant {
        self.reading()
    }

    open spec fn driven(&self) -> bool {
        true
    }

    fn now(&self) -> (t: VInstant) {
        self.now
    }

    fn advance(&mut self, by: VDuration)
        ensures
            final(self).rate() == old(self).rate(),
    {
        self.now = self.now + by;
    }
}

/// At the rate one, a span scales to itself.
pub proof fn law_rate_one_is_identity(nanos: u64)
    ensures
        q32_32_scale(nanos, 0x1_0000_0000) == nanos,
        q32_32_of(1, 1) == 0x1_0000_0000,
{
    lemma_whole_factor(1);
}

/// Over the denominator one, the factor is the numerator shifted up.
proof fn lemma_whole_factor(k: u32)
    ensures
        q32_32_of(k, 1) == k * 0x1_0000_0000,
{
    let p = k * 0x1_0000_0000;
    let d = 1int;
    assert(p / d == p) by (nonlinear_arith)
        requires
            d == 1,
    ;
}

/// At a whole rate `k`, a span scales to `k` times itself, cut to 64 bits.
pub proof fn law_whole_rate_multiplies(nanos: u64, k: u32)
    ensures
        q32_32_of(k, 1) == k * 0x1_0000_0000,
        q32_32_scale(nanos, q32_32_of(k, 1)) == (nanos * k) % 0x1_0000_0000_0000_0000,
{
    lemma_whole_factor(k);
    assert(nanos * (k * 0x1_0000_0000) == (nanos * k) * 0x1_0000_0000) by (nonlinear_arith);
}

/// A span never scales to more than its exact product with the ratio.
pub proof fn law_scaling_rounds_down(nanos: u64, num: u32, den: u32)
    requires
        den > 0,
    ensures
        ((nanos * q32_32_of(num, den)) / 0x1_0000_0000) * den <= nanos * num,
{
    let f = q32_32_of(num, den) as int;
    let p = num * 0x1_0000_0000;
    assert(f * den <= p) by (nonlinear_arith)
        requires
            f == p / (den as int),
            den > 0,
            p >= 0,
    ;
    let s = (nanos * f) / 0x1_0000_0000;
    assert(s * 0x1_0000_0000 <= nanos * f);
    assert(s * den * 0x1_0000_0000 <= nanos * num * 0x1_0000_0000) by (nonlinear_arith)
        requires
            s * 0x1_0000_0000 <= nanos * f,
            f * den <= num * 0x1_0000_0000,
            den > 0,
            nanos >= 0,
            s >= 0,
            f >= 0,
    ;
}

} // verus!
