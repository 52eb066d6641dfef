//! Fixed-point scalars.
//!
//! A scalar holds an `i64` count of 1/65536 steps: `Fx(raw)` stands for the
//! rational number `raw / 65536`.  The rasterizer works on scalars whose
//! magnitude stays within [`MAX_RAW`] steps (64 whole units), which keeps
//! every intermediate product of the exact screen-space arithmetic inside
//! `i128`.  Rounding is always to the nearest step, halves away from zero.

use vstd::prelude::*;
use vstd::arithmetic::div_mod::lemma_div_multiples_vanish_fancy;

verus! {

/// Number of fixed-point steps per whole unit.
pub const SCALE: i64 = 65536;

/// Largest raw magnitude the rasterizer accepts: 64 whole units.
pub const MAX_RAW: i64 = 4194304;

/// A fixed-point scalar: the value `self.0 / SCALE`.
#[derive(Clone, Copy, Debug, PartialEq, Eq, Structural)]
pub struct Fx(pub i64);

/// `n / d` rounded to the nearest integer, halves away from zero (`d >= 1`).
pub open spec fn round_div(n: int, d: int) -> int {
    if n >= 0 {
        (2 * n + d) / (2 * d)
    } else {
        -((2 * (-n) + d) / (2 * d))
    }
}

/// `n / d` rounded to the nearest integer for any nonzero `d`.
pub open spec fn round_ratio(n: int, d: int) -> int {
    if d >= 1 {
        round_div(n, d)
    } else {
        round_div(-n, -d)
    }
}

proof fn lemma_round_div_nonneg_le(n: int, d: int, k: int)
    requires
        d >= 1,
        0 <= n <= k * d,
    ensures
        0 <= (2 * n + d) / (2 * d) <= k,
{
    vstd::arithmetic::div_mod::lemma_div_pos_is_pos(2 * n + d, 2 * d);
    assert(2 * (k * d) + d == (2 * d) * k + d) by (nonlinear_arith);
    vstd::arithmetic::div_mod::lemma_div_is_ordered(2 * n + d, (2 * d) * k + d, 2 * d);
    lemma_div_multiples_vanish_fancy(k, d, 2 * d);
}

/// Rounding never grows a bound: `|n| <= k * d` implies `|round| <= k`.
pub proof fn lemma_round_div_bound(n: int, d: int, k: int)
    requires
        d >= 1,
        0 <= k,
        -(k * d) <= n <= k * d,
    ensures
        -k <= round_div(n, d) <= k,
{
    if n >= 0 {
        lemma_round_div_nonneg_le(n, d, k);
    } else {
        lemma_round_div_nonneg_le(-n, d, k);
    }
}

/// Rounding an exact multiple gives the exact quotient.
pub proof fn lemma_round_div_exact(k: int, d: int)
    requires
        d >= 1,
    ensures
        round_div(k * d, d) == k,
{
    if k >= 0 {
        assert(k * d >= 0) by (nonlinear_arith)
            requires
                k >= 0,
                d >= 1,
        ;
        assert(2 * (k * d) + d == (2 * d) * k + d) by (nonlinear_arith);
        lemma_div_multiples_vanish_fancy(k, d, 2 * d);
    } else {
        assert(k * d < 0) by (nonlinear_arith)
            requires
                k < 0,
                d >= 1,
        ;
        assert(2 * (-(k * d)) + d == (2 * d) * (-k) + d) by (nonlinear_arith);
        lemma_div_multiples_vanish_fancy(-k, d, 2 * d);
    }
}

/// `n / d` in `i128`, rounded to the nearest integer, halves away from zero.
pub fn round_div_i128(n: i128, d: i128) -> (r: i128)
    requires
        1 <= d <= 0x4000_0000_0000_0000_0000_0000_0000_0000i128 / 4,
        -(0x4000_0000_0000_0000_0000_0000_0000_0000i128 / 4) <= n
            <= 0x4000_0000_0000_0000_0000_0000_0000_0000i128 / 4,
    ensures
        r == round_div(n as int, d as int),
{
    if n >= 0 {
        (2 * n + d) / (2 * d)
    } else {
        let q = (2 * (-n) + d) / (2 * d);
        assert(q >= 0) by {
            vstd::arithmetic::div_mod::lemma_div_pos_is_pos(2 * (-n) as int + d, 2 * d as int);
        }
        -q
    }
}

impl Fx {
    /// The scalar's raw step count as a mathematical integer.
    pub open spec fn raw(self) -> int {
        self.0 as int
    }

    /// Magnitude small enough for the exact rasterizer arithmetic.
    pub open spec fn wf(self) -> bool {
        -MAX_RAW <= self.0 <= MAX_RAW
    }

    /// The scalar 0.
    pub fn zero() -> (r: Fx)
        ensures
            r.0 == 0,
            r.wf(),
    {
        Fx(0)
    }

    /// The whole number `v`, for `|v| <= 64`.
    pub fn from_int(v: i64) -> (r: Fx)
        requires
            -64 <= v <= 64,
        ensures
            r.raw() == v * SCALE,
            r.wf(),
    {
        Fx(v * SCALE)
    }

    /// The rational `num / den` rounded to the nearest step.
    pub fn from_ratio(num: i64, den: i64) -> (r: Fx)
        requires
            1 <= den <= 0x10_0000_0000_0000i64,
            -64 * den <= num <= 64 * den,
        ensures
            r.raw() == round_div(num * SCALE, den as int),
            r.wf(),
    {
        proof {
            assert(-(64 * SCALE * den) <= num * SCALE <= 64 * SCALE * den) by (nonlinear_arith)
                requires
                    -64 * den <= num <= 64 * den,
                    den >= 1,
                    SCALE == 65536,
            ;
            lemma_round_div_bound(num as int * SCALE, den as int, 64 * SCALE);
            assert(64 * SCALE * den == (64 * SCALE) * den) by (nonlinear_arith);
        }
        let r = round_div_i128(num as i128 * SCALE as i128, den as i128);
        Fx(r as i64)
    }

    /// Exact sum of the raw step counts.
    pub fn add(self, other: Fx) -> (r: Fx)
        requires
            i64::MIN <= self.raw() + other.raw() <= i64::MAX,
        ensures
            r.raw() == self.raw() + other.raw(),
    {
        Fx(self.0 + other.0)
    }

    /// Exact difference of the raw step counts.
    pub fn sub(self, other: Fx) -> (r: Fx)
        requires
            i64::MIN <= self.raw() - other.raw() <= i64::MAX,
        ensures
            r.raw() == self.raw() - other.raw(),
    {
        Fx(self.0 - other.0)
    }

    /// Exact negation.
    pub fn neg(self) -> (r: Fx)
        requires
            self.raw() != i64::MIN,
        ensures
            r.raw() == -self.raw(),
    {
        Fx(-self.0)
    }

    /// Fixed-point product, rounded to the nearest step.
    pub fn mul(self, other: Fx) -> (r: Fx)
        requires
            self.wf(),
            other.wf(),
        ensures
            r.raw() == round_div(self.raw() * other.raw(), SCALE as int),
            -(MAX_RAW * 64) <= r.raw() <= MAX_RAW * 64,
    {
        proof {
            assert(-(MAX_RAW * MAX_RAW) <= self.raw() * other.raw() <= MAX_RAW * MAX_RAW)
                by (nonlinear_arith)
                requires
                    -MAX_RAW <= self.raw() <= MAX_RAW,
                    -MAX_RAW <= other.raw() <= MAX_RAW,
            ;
            assert(MAX_RAW * MAX_RAW == (MAX_RAW * 64) * (SCALE as int)) by (nonlinear_arith);
            lemma_round_div_bound(self.raw() * other.raw(), SCALE as int, MAX_RAW * 64);
        }
        let r = round_div_i128(self.0 as i128 * other.0 as i128, SCALE as i128);
        Fx(r as i64)
    }

    /// Fixed-point quotient, rounded to the nearest step.
    pub fn div(self, other: Fx) -> (r: Fx)
        requires
            self.wf(),
            other.wf(),
            other.0 != 0,
        ensures
            r.raw() == round_ratio(self.raw() * SCALE, other.raw()),
    {
        let n = self.0 as i128 * SCALE as i128;
        let d = other.0 as i128;
        proof {
            let dd = if other.raw() >= 1 { other.raw() } else { -other.raw() };
            let nn = if other.raw() >= 1 { self.raw() * SCALE } else { -(self.raw() * SCALE) };
            assert(-(MAX_RAW * SCALE * dd) <= nn <= MAX_RAW * SCALE * dd) by (nonlinear_arith)
                requires
                    -MAX_RAW <= self.raw() <= MAX_RAW,
                    dd >= 1,
                    nn == self.raw() * SCALE || nn == -(self.raw() * SCALE),
                    SCALE == 65536,
            ;
            assert(MAX_RAW * SCALE * dd == (MAX_RAW * SCALE) * dd) by (nonlinear_arith);
            lemma_round_div_bound(nn, dd, MAX_RAW * SCALE);
        }
        let r = if d >= 1 {
            round_div_i128(n, d)
        } else {
            round_div_i128(-n, -d)
        };
        Fx(r as i64)
    }
}

} // verus!
