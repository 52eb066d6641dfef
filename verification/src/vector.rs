//! Small fixed-dimension vectors over the fixed-point scalar.
//!
//! [`Vec2`] and [`Vec3`] are plain tuples of [`Fx`] scalars.  The [`Vector`]
//! trait gives both types the same capability set — zero construction,
//! indexed access, componentwise arithmetic, scaling and reductions — with
//! contracts stated over the sequence of raw step counts.

use vstd::prelude::*;
use crate::fx::{round_div, round_ratio, Fx, MAX_RAW, SCALE};

verus! {

/// A 2D vector of fixed-point scalars.
#[derive(Clone, Copy, Debug, PartialEq, Eq, Structural)]
pub struct Vec2(pub Fx, pub Fx);

/// A 3D vector of fixed-point scalars.
#[derive(Clone, Copy, Debug, PartialEq, Eq, Structural)]
pub struct Vec3(pub Fx, pub Fx, pub Fx);

/// Every component's magnitude stays within [`MAX_RAW`] steps.
pub open spec fn coords_wf(s: Seq<int>) -> bool {
    forall|i: int| 0 <= i < s.len() ==> -MAX_RAW <= #[trigger] s[i] <= MAX_RAW
}

/// Sum of a sequence of raw step counts.
pub open spec fn sum_seq(s: Seq<int>) -> int
    decreases s.len(),
{
    if s.len() == 0 {
        0
    } else {
        sum_seq(s.drop_last()) + s.last()
    }
}

/// Fixed-point dot product of two coordinate sequences of equal length:
/// each componentwise product is rounded to the nearest step, then summed.
pub open spec fn fx_dot(a: Seq<int>, b: Seq<int>) -> int
    decreases a.len(),
{
    if a.len() == 0 || b.len() == 0 {
        0
    } else {
        fx_dot(a.drop_last(), b.drop_last()) + round_div(a.last() * b.last(), SCALE as int)
    }
}

proof fn lemma_sum2(a: int, b: int)
    ensures
        sum_seq(seq![a, b]) == a + b,
{
    assert(seq![a, b].drop_last() =~= seq![a]);
    assert(seq![a].drop_last() =~= Seq::<int>::empty());
    assert(sum_seq(Seq::<int>::empty()) == 0);
    assert(sum_seq(seq![a]) == a);
}

proof fn lemma_sum3(a: int, b: int, c: int)
    ensures
        sum_seq(seq![a, b, c]) == a + b + c,
{
    assert(seq![a, b, c].drop_last() =~= seq![a, b]);
    lemma_sum2(a, b);
}

proof fn lemma_dot2(a0: int, a1: int, b0: int, b1: int)
    ensures
        fx_dot(seq![a0, a1], seq![b0, b1]) == round_div(a0 * b0, SCALE as int) + round_div(
            a1 * b1,
            SCALE as int,
        ),
{
    assert(seq![a0, a1].drop_last() =~= seq![a0]);
    assert(seq![b0, b1].drop_last() =~= seq![b0]);
    assert(seq![a0].drop_last() =~= Seq::<int>::empty());
    assert(seq![b0].drop_last() =~= Seq::<int>::empty());
    assert(fx_dot(Seq::<int>::empty(), Seq::<int>::empty()) == 0);
    assert(fx_dot(seq![a0], seq![b0]) == round_div(a0 * b0, SCALE as int));
}

proof fn lemma_dot3(a0: int, a1: int, a2: int, b0: int, b1: int, b2: int)
    ensures
        fx_dot(seq![a0, a1, a2], seq![b0, b1, b2]) == round_div(a0 * b0, SCALE as int)
            + round_div(a1 * b1, SCALE as int) + round_div(a2 * b2, SCALE as int),
{
    assert(seq![a0, a1, a2].drop_last() =~= seq![a0, a1]);
    assert(seq![b0, b1, b2].drop_last() =~= seq![b0, b1]);
    lemma_dot2(a0, a1, b0, b1);
}

/// A type with a distinguished all-zero value.
pub trait Zeroable {
    /// The zero value.
    fn zero_value() -> (r: Self) where Self: core::marker::Sized;
}

impl Zeroable for Fx {
    fn zero_value() -> (r: Fx) {
        Fx(0)
    }
}

/// A fixed-dimension numeric tuple over [`Fx`].
///
/// Contracts speak of `coords()`, the mathematical sequence of raw step
/// counts, whose length is the dimension of the vector.
pub trait Vector: Sized {
    /// The raw step counts of the components, in order.
    spec fn coords(&self) -> Seq<int>;

    /// The dimension of this vector type.
    spec fn dims() -> nat;

    /// Every vector has exactly `dims()` components.
    proof fn coords_len(&self)
        ensures
            self.coords().len() == Self::dims(),
    ;

    /// The all-zero vector.
    fn zero() -> (r: Self)
        ensures
            r.coords().len() == Self::dims(),
            forall|i: int| 0 <= i < r.coords().len() ==> #[trigger] r.coords()[i] == 0,
    ;

    /// The component at index `i`.
    fn get(&self, i: usize) -> (r: Fx)
        requires
            i < self.coords().len(),
        ensures
            r.raw() == self.coords()[i as int],
    ;

    /// Replaces the component at index `i`.
    fn set(&mut self, i: usize, value: Fx)
        requires
            i < old(self).coords().len(),
        ensures
            final(self).coords() == old(self).coords().update(i as int, value.raw()),
    ;

    /// Componentwise sum.
    fn add(&self, other: &Self) -> (r: Self)
        requires
            coords_wf(self.coords()),
            coords_wf(other.coords()),
            other.coords().len() == self.coords().len(),
        ensures
            r.coords().len() == self.coords().len(),
            forall|i: int| 0 <= i < r.coords().len()
                ==> #[trigger] r.coords()[i] == self.coords()[i] + other.coords()[i],
    ;

    /// Componentwise difference.
    fn sub(&self, other: &Self) -> (r: Self)
        requires
            coords_wf(self.coords()),
            coords_wf(other.coords()),
            other.coords().len() == self.coords().len(),
        ensures
            r.coords().len() == self.coords().len(),
            forall|i: int| 0 <= i < r.coords().len()
                ==> #[trigger] r.coords()[i] == self.coords()[i] - other.coords()[i],
    ;

    /// Componentwise fixed-point product.
    fn mul(&self, other: &Self) -> (r: Self)
        requires
            coords_wf(self.coords()),
            coords_wf(other.coords()),
            other.coords().len() == self.coords().len(),
        ensures
            r.coords().len() == self.coords().len(),
            forall|i: int| 0 <= i < r.coords().len()
                ==> #[trigger] r.coords()[i]
                    == round_div(self.coords()[i] * other.coords()[i], SCALE as int),
    ;

    /// Componentwise fixed-point quotient.
    fn div(&self, other: &Self) -> (r: Self)
        requires
            coords_wf(self.coords()),
            coords_wf(other.coords()),
            other.coords().len() == self.coords().len(),
            forall|i: int| 0 <= i < other.coords().len() ==> #[trigger] other.coords()[i] != 0,
        ensures
            r.coords().len() == self.coords().len(),
            forall|i: int| 0 <= i < r.coords().len()
                ==> #[trigger] r.coords()[i]
                    == round_ratio(self.coords()[i] * SCALE, other.coords()[i]),
    ;

    /// Scalar multiple: every component scaled by `s`.
    fn scal(&self, s: Fx) -> (r: Self)
        requires
            coords_wf(self.coords()),
            s.wf(),
        ensures
            r.coords().len() == self.coords().len(),
            forall|i: int| 0 <= i < r.coords().len()
                ==> #[trigger] r.coords()[i] == round_div(self.coords()[i] * s.raw(), SCALE as int),
    ;

    /// Sum of the components.
    fn sum(&self) -> (r: Fx)
        requires
            coords_wf(self.coords()),
        ensures
            r.raw() == sum_seq(self.coords()),
    ;

    /// Fixed-point dot product.
    fn dot(&self, other: &Self) -> (r: Fx)
        requires
            coords_wf(self.coords()),
            coords_wf(other.coords()),
            other.coords().len() == self.coords().len(),
        ensures
            r.raw() == fx_dot(self.coords(), other.coords()),
    ;

    /// Squared length: the dot product of the vector with itself.
    fn len_sqr(&self) -> (r: Fx)
        requires
            coords_wf(self.coords()),
        ensures
            r.raw() == fx_dot(self.coords(), self.coords()),
    ;
}

impl Vector for Vec2 {
    open spec fn coords(&self) -> Seq<int> {
        seq![self.0.raw(), self.1.raw()]
    }

    open spec fn dims() -> nat {
        2
    }

    proof fn coords_len(&self) {
    }

    fn zero() -> (r: Self) {
        Vec2(Fx(0), Fx(0))
    }

    fn get(&self, i: usize) -> (r: Fx) {
        match i {
            0 => self.0,
            _ => self.1,
        }
    }

    fn set(&mut self, i: usize, value: Fx) {
        match i {
            0 => self.0 = value,
            _ => self.1 = value,
        }
        proof {
            assert(self.coords() =~= old(self).coords().update(i as int, value.raw()));
        }
    }

    fn add(&self, other: &Self) -> (r: Self) {
        Vec2(self.0.add(other.0), self.1.add(other.1))
    }

    fn sub(&self, other: &Self) -> (r: Self) {
        Vec2(self.0.sub(other.0), self.1.sub(other.1))
    }

    fn mul(&self, other: &Self) -> (r: Self) {
        Vec2(self.0.mul(other.0), self.1.mul(other.1))
    }

    fn div(&self, other: &Self) -> (r: Self) {
        Vec2(self.0.div(other.0), self.1.div(other.1))
    }

    fn scal(&self, s: Fx) -> (r: Self) {
        Vec2(self.0.mul(s), self.1.mul(s))
    }

    fn sum(&self) -> (r: Fx) {
        proof {
            lemma_sum2(self.0.raw(), self.1.raw());
        }
        self.0.add(self.1)
    }

    fn dot(&self, other: &Self) -> (r: Fx) {
        proof {
            lemma_dot2(self.0.raw(), self.1.raw(), other.0.raw(), other.1.raw());
        }
        self.0.mul(other.0).add(self.1.mul(other.1))
    }

    fn len_sqr(&self) -> (r: Fx) {
        self.dot(self)
    }
}

impl Vector for Vec3 {
    open spec fn coords(&self) -> Seq<int> {
        seq![self.0.raw(), self.1.raw(), self.2.raw()]
    }

    open spec fn dims() -> nat {
        3
    }

    proof fn coords_len(&self) {
    }

    fn zero() -> (r: Self) {
        Vec3(Fx(0), Fx(0), Fx(0))
    }

    fn get(&self, i: usize) -> (r: Fx) {
        match i {
            0 => self.0,
            1 => self.1,
            _ => self.2,
        }
    }

    fn set(&mut self, i: usize, value: Fx) {
        match i {
            0 => self.0 = value,
            1 => self.1 = value,
            _ => self.2 = value,
        }
        proof {
            assert(self.coords() =~= old(self).coords().update(i as int, value.raw()));
        }
    }

    fn add(&self, other: &Self) -> (r: Self) {
        Vec3(self.0.add(other.0), self.1.add(other.1), self.2.add(other.2))
    }

    fn sub(&self, other: &Self) -> (r: Self) {
        Vec3(self.0.sub(other.0), self.1.sub(other.1), self.2.sub(other.2))
    }

    fn mul(&self, other: &Self) -> (r: Self) {
        Vec3(self.0.mul(other.0), self.1.mul(other.1), self.2.mul(other.2))
    }

    fn div(&self, other: &Self) -> (r: Self) {
        Vec3(self.0.div(other.0), self.1.div(other.1), self.2.div(other.2))
    }

    fn scal(&self, s: Fx) -> (r: Self) {
        Vec3(self.0.mul(s), self.1.mul(s), self.2.mul(s))
    }

    fn sum(&self) -> (r: Fx) {
        proof {
            lemma_sum3(self.0.raw(), self.1.raw(), self.2.raw());
        }
        self.0.add(self.1).add(self.2)
    }

    fn dot(&self, other: &Self) -> (r: Fx) {
        proof {
            lemma_dot3(
                self.0.raw(),
                self.1.raw(),
                self.2.raw(),
                other.0.raw(),
                other.1.raw(),
                other.2.raw(),
            );
        }
        self.0.mul(other.0).add(self.1.mul(other.1)).add(self.2.mul(other.2))
    }

    fn len_sqr(&self) -> (r: Fx) {
        self.dot(self)
    }
}

impl Vec2 {
    /// 2D cross product: the exact product difference, rounded once.
    pub fn cross(&self, other: &Vec2) -> (r: Fx)
        requires
            coords_wf(self.coords()),
            coords_wf(other.coords()),
        ensures
            r.raw() == round_div(
                self.0.raw() * other.1.raw() - self.1.raw() * other.0.raw(),
                SCALE as int,
            ),
    {
        proof {
            assert(-(MAX_RAW * MAX_RAW) <= self.0.raw() * other.1.raw() <= MAX_RAW * MAX_RAW)
                by (nonlinear_arith)
                requires
                    -MAX_RAW <= self.0.raw() <= MAX_RAW,
                    -MAX_RAW <= other.1.raw() <= MAX_RAW,
            ;
            assert(-(MAX_RAW * MAX_RAW) <= self.1.raw() * other.0.raw() <= MAX_RAW * MAX_RAW)
                by (nonlinear_arith)
                requires
                    -MAX_RAW <= self.1.raw() <= MAX_RAW,
                    -MAX_RAW <= other.0.raw() <= MAX_RAW,
            ;
            assert(2 * (MAX_RAW * MAX_RAW) == (MAX_RAW * 128) * (SCALE as int)) by (nonlinear_arith);
            crate::fx::lemma_round_div_bound(
                self.0.raw() * other.1.raw() - self.1.raw() * other.0.raw(),
                SCALE as int,
                MAX_RAW * 128,
            );
        }
        let n = self.0.0 as i128 * other.1.0 as i128 - self.1.0 as i128 * other.0.0 as i128;
        let r = crate::fx::round_div_i128(n, SCALE as i128);
        Fx(r as i64)
    }
}

impl Vec3 {
    /// The first two components, as a 2D vector.
    pub fn xy(&self) -> (r: Vec2)
        ensures
            r.0 == self.0,
            r.1 == self.1,
    {
        Vec2(self.0, self.1)
    }
}

} // verus!
