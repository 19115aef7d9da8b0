//! The choices a caller makes: whether alpha is blurred, and how a weighted
//! sum is divided by the sum of the weights.
//!
//! Two ways of dividing are offered. `Divisor::Exact` divides by
//! `r * (r + 2) + 1` and truncates. `Divisor::MulShift` multiplies by
//! `ceil(2^32 / (r * (r + 2) + 1))`, worked out once per pass, and shifts
//! right by 32 bits; its result is the exact quotient or one more.

use crate::kernel::divisor;
use vstd::prelude::*;

verus! {

/// The largest radius that is blurred with; larger ones are clamped to it.
pub const MAX_RADIUS: u8 = 254;

/// The radius a pass runs with when the caller asks for `radius`.
pub open spec fn effective_radius(radius: u8) -> int {
    if radius <= MAX_RADIUS {
        radius as int
    } else {
        MAX_RADIUS as int
    }
}

/// The radius that a pass runs with: `radius`, or the largest radius where
/// `radius` is beyond it.
pub fn clamp_radius(radius: u8) -> (r: u32)
    ensures
        r == effective_radius(radius),
        radius >= 1 ==> 1 <= r <= 254,
{
    if radius <= MAX_RADIUS {
        radius as u32
    } else {
        MAX_RADIUS as u32
    }
}

/// How a weighted sum is turned back into a channel value.
#[derive(Clone, Copy, Debug, PartialEq, Eq, Structural)]
pub enum Divisor {
    /// Truncating integer division by the sum of the weights.
    Exact,
    /// Multiplication by a precomputed reciprocal, then a right shift.
    MulShift,
}

/// What a caller may choose about a blur.
#[derive(Clone, Copy, Debug, PartialEq, Eq, Structural)]
pub struct Options {
    /// Whether the alpha channel is blurred like the colours. Where it is
    /// not, every pixel keeps the alpha it had.
    pub blur_alpha: bool,
    /// How weighted sums are divided.
    pub divisor: Divisor,
}

impl Options {
    /// All four channels blurred, exact division.
    pub open spec fn standard() -> Options {
        Options { blur_alpha: true, divisor: Divisor::Exact }
    }
}

impl Default for Options {
    fn default() -> (o: Options)
        ensures
            o == Options::standard(),
    {
        Options { blur_alpha: true, divisor: Divisor::Exact }
    }
}

/// The multiplier that stands in for division by `divisor(r)`:
/// `2^32 / divisor(r)`, rounded up.
pub open spec fn reciprocal(r: int) -> int {
    (0x1_0000_0000 + divisor(r) - 1) / divisor(r)
}

/// The channel value that the weighted sum `sum` of a window of radius `r`
/// is turned into.
pub open spec fn quotient(sum: int, r: int, d: Divisor) -> int {
    match d {
        Divisor::Exact => sum / divisor(r),
        Divisor::MulShift => (sum * reciprocal(r)) / 0x1_0000_0000,
    }
}

proof fn lemma_divisor_range(r: int)
    requires
        0 <= r <= 254,
    ensures
        1 <= divisor(r) <= 65025,
{
    assert(1 <= r * (r + 2) + 1 <= 65025) by (nonlinear_arith)
        requires
            0 <= r <= 254,
    ;
}

/// The reciprocal times the divisor overshoots `2^32` by less than the
/// divisor.
proof fn lemma_reciprocal(r: int)
    requires
        0 <= r <= 254,
    ensures
        0x1_0000_0000 <= reciprocal(r) * divisor(r) < 0x1_0000_0000 + divisor(r),
        1 <= reciprocal(r) <= 0x1_0000_0000,
{
    lemma_divisor_range(r);
    let d = divisor(r);
    let n = 0x1_0000_0000 + d - 1;
    let m = n / d;
    assert(n == d * m + n % d && 0 <= n % d < d) by (nonlinear_arith)
        requires
            d > 0,
            m == n / d,
    ;
    assert(m * d == d * m) by (nonlinear_arith);
    assert(1 <= m <= 0x1_0000_0000) by (nonlinear_arith)
        requires
            0x1_0000_0000 <= m * d < 0x1_0000_0000 + d,
            1 <= d,
    ;
}

/// Whichever way the sum is divided, a sum of a full window yields a channel
/// value.
pub proof fn lemma_quotient_bound(sum: int, r: int, d: Divisor)
    requires
        0 <= r <= 254,
        0 <= sum <= 255 * divisor(r),
    ensures
        0 <= quotient(sum, r, d) <= 255,
{
    lemma_divisor_range(r);
    lemma_reciprocal(r);
    let dv = divisor(r);
    let m = reciprocal(r);
    match d {
        Divisor::Exact => {
            assert(0 <= sum / dv <= 255) by (nonlinear_arith)
                requires
                    0 <= sum <= 255 * dv,
                    dv >= 1,
            ;
        },
        Divisor::MulShift => {
            assert(0 <= sum * m <= 255 * 0x1_0000_0000 + 255 * 65025) by (nonlinear_arith)
                requires
                    0 <= sum <= 255 * dv,
                    1 <= dv <= 65025,
                    1 <= m,
                    m * dv < 0x1_0000_0000 + dv,
            ;
        },
    }
}

/// Whichever way the sum is divided, `c` times the divisor yields `c`: a
/// window whose samples agree keeps their value.
pub proof fn lemma_quotient_of_multiple(c: int, r: int, d: Divisor)
    requires
        0 <= r <= 254,
        0 <= c <= 255,
    ensures
        quotient(c * divisor(r), r, d) == c,
{
    lemma_divisor_range(r);
    lemma_reciprocal(r);
    let dv = divisor(r);
    let m = reciprocal(r);
    match d {
        Divisor::Exact => {
            assert((c * dv) / dv == c) by (nonlinear_arith)
                requires
                    dv >= 1,
            ;
        },
        Divisor::MulShift => {
            let e = m * dv - 0x1_0000_0000;
            assert((c * dv) * m == c * 0x1_0000_0000 + c * e) by (nonlinear_arith)
                requires
                    e == m * dv - 0x1_0000_0000,
            ;
            assert(0 <= c * e < 0x1_0000_0000) by (nonlinear_arith)
                requires
                    0 <= c <= 255,
                    0 <= e < 65025,
            ;
        },
    }
}

/// The two ways of dividing differ by at most one: multiply-and-shift gives
/// the exact quotient or the next value above it.
pub proof fn lemma_divisors_close(sum: int, r: int)
    requires
        0 <= r <= 254,
        0 <= sum <= 255 * divisor(r),
    ensures
        quotient(sum, r, Divisor::Exact) <= quotient(sum, r, Divisor::MulShift) <= quotient(
            sum,
            r,
            Divisor::Exact,
        ) + 1,
{
    lemma_divisor_range(r);
    lemma_reciprocal(r);
    let dv = divisor(r);
    let m = reciprocal(r);
    let q = sum / dv;
    let f = sum % dv;
    let e = m * dv - 0x1_0000_0000;
    assert(sum == dv * q + f && 0 <= f < dv && 0 <= q <= 255) by (nonlinear_arith)
        requires
            0 <= sum <= 255 * dv,
            dv >= 1,
            q == sum / dv,
            f == sum % dv,
    ;
    let z = q * e + f * m;
    assert(sum * m == q * 0x1_0000_0000 + z) by (nonlinear_arith)
        requires
            sum == dv * q + f,
            e == m * dv - 0x1_0000_0000,
            z == q * e + f * m,
    ;
    assert(0 <= z < 2 * 0x1_0000_0000) by (nonlinear_arith)
        requires
            z == q * e + f * m,
            0 <= q <= 255,
            0 <= e < dv,
            0 <= f < dv,
            dv <= 65025,
            1 <= m,
            m * dv == 0x1_0000_0000 + e,
    ;
}

/// Where the sum `sb` is the sum `sa` or up to `d` times the divisor more,
/// multiply-and-shift makes of `sb` what exact division makes of `sa`, or
/// up to `d + 1` more.
pub proof fn lemma_quotients_close(sa: int, sb: int, r: int, d: int)
    requires
        0 <= r <= 254,
        0 <= d,
        0 <= sa <= sb <= sa + d * divisor(r),
        sb <= 255 * divisor(r),
    ensures
        quotient(sa, r, Divisor::Exact) <= quotient(sb, r, Divisor::MulShift) <= quotient(
            sa,
            r,
            Divisor::Exact,
        ) + d + 1,
{
    lemma_divisor_range(r);
    lemma_divisors_close(sb, r);
    let dv = divisor(r);
    let qa = sa / dv;
    let qb = sb / dv;
    assert(qa <= qb <= qa + d) by (nonlinear_arith)
        requires
            dv >= 1,
            0 <= d,
            0 <= sa <= sb <= sa + d * dv,
            qa == sa / dv,
            qb == sb / dv,
    ;
}

/// A divisor made ready for one pass of radius `radius`.
pub struct Scaler {
    radius: u32,
    div: u32,
    mul: u64,
    strategy: Divisor,
}

impl Scaler {
    /// The radius this scaler divides for.
    pub closed spec fn spec_radius(&self) -> u32 {
        self.radius
    }

    /// The way this scaler divides.
    pub closed spec fn spec_strategy(&self) -> Divisor {
        self.strategy
    }

    /// The options that this scaler serves: its way of dividing, and alpha
    /// blurred or not.
    pub open spec fn options(&self, blur_alpha: bool) -> Options {
        Options { blur_alpha, divisor: self.strategy() }
    }

    /// The radius this scaler divides for.
    #[verifier::when_used_as_spec(spec_radius)]
    pub fn radius(&self) -> (r: u32)
        ensures
            r == self.radius(),
    {
        self.radius
    }

    /// The way this scaler divides.
    #[verifier::when_used_as_spec(spec_strategy)]
    pub fn strategy(&self) -> (d: Divisor)
        ensures
            d == self.strategy(),
    {
        self.strategy
    }

    /// Whether the numbers held are those of the radius.
    pub closed spec fn wf(&self) -> bool {
        &&& 1 <= self.radius <= 254
        &&& self.div == divisor(self.radius as int)
        &&& self.mul == reciprocal(self.radius as int)
    }

    /// A scaler in order was made for a radius that is blurred with.
    pub proof fn lemma_radius(&self)
        requires
            self.wf(),
        ensures
            1 <= self.radius() <= 254,
    {
    }

    /// Works out the divisor and its reciprocal for `radius`.
    pub fn new(radius: u32, strategy: Divisor) -> (s: Scaler)
        requires
            1 <= radius <= 254,
        ensures
            s.wf(),
            s.radius() == radius,
            s.strategy() == strategy,
    {
        proof {
            lemma_divisor_range(radius as int);
            lemma_reciprocal(radius as int);
            assert(radius * (radius + 2) <= 65024) by (nonlinear_arith)
                requires
                    1 <= radius <= 254,
            ;
        }
        let div: u32 = radius * (radius + 2) + 1;
        let mul: u64 = (0x1_0000_0000u64 + div as u64 - 1) / (div as u64);
        Scaler { radius, div, mul, strategy }
    }

    /// Turns the weighted sum of a window into a channel value.
    pub fn scale(&self, sum: u32) -> (q: u32)
        requires
            self.wf(),
            sum <= 255 * divisor(self.radius() as int),
        ensures
            q == quotient(sum as int, self.radius() as int, self.strategy()),
            q <= 255,
    {
        proof {
            lemma_divisor_range(self.radius as int);
            lemma_reciprocal(self.radius as int);
            lemma_quotient_bound(sum as int, self.radius as int, self.strategy);
        }
        match self.strategy {
            Divisor::Exact => sum / self.div,
            Divisor::MulShift => {
                assert(sum * self.mul <= 0xffff_ffff_ffff_ffff) by (nonlinear_arith)
                    requires
                        sum <= 0xffff_ffff,
                        self.mul <= 0x1_0000_0000,
                ;
                let product: u64 = (sum as u64) * self.mul;
                assert(product >> 32 == product / 0x1_0000_0000) by (bit_vector);
                (product >> 32) as u32
            },
        }
    }
}

} // verus!
