//! Geometric primitives: continuous positions, grid indices, and planar
//! rigid poses, all in fixed-point units of one thousandth.

use vstd::prelude::*;

use crate::fixed::{
    cos_fp, lemma_cos_fp_range, lemma_mul_scale_small, lemma_sin_fp_range, mul_scale, sin_fp,
    spec_cos_fp, spec_mul_scale, spec_sin_fp,
};

verus! {

/// Number of fixed-point units per whole unit (meter, second, radian).
pub const SCALE: i64 = 1000;

/// A continuous world coordinate (x, y), in fixed-point meters.
#[derive(Clone, Copy, Debug, PartialEq, Eq, Structural)]
pub struct Position {
    pub x: i64,
    pub y: i64,
}

impl Position {
    pub fn new(x: i64, y: i64) -> (p: Position)
        ensures
            p == (Position { x, y }),
    {
        Position { x, y }
    }
}

/// Integer grid coordinates: `col` indexes the x axis, `row` the y axis.
#[derive(Clone, Copy, Debug, PartialEq, Eq, Structural)]
pub struct Indices {
    pub col: usize,
    pub row: usize,
}

impl Indices {
    pub fn new(col: usize, row: usize) -> (i: Indices)
        ensures
            i == (Indices { col, row }),
    {
        Indices { col, row }
    }
}

/// A planar rigid pose: translation (x, y) in fixed-point meters and a
/// heading `theta` in fixed-point radians. Angles are left unwrapped.
#[derive(Clone, Copy, Debug, PartialEq, Eq, Structural)]
pub struct Pose {
    pub x: i64,
    pub y: i64,
    pub theta: i64,
}

impl Pose {
    pub fn new(x: i64, y: i64, theta: i64) -> (p: Pose)
        ensures
            p == (Pose { x, y, theta }),
    {
        Pose { x, y, theta }
    }

    /// The identity isometry: origin, zero heading.
    pub fn identity() -> (p: Pose)
        ensures
            p == (Pose { x: 0i64, y: 0i64, theta: 0i64 }),
    {
        Pose { x: 0, y: 0, theta: 0 }
    }

    /// SE(2) composition `self` then `other`: `other` is applied in the
    /// local frame of `self`, so its translation is rotated by the
    /// heading of `self` and the headings add.
    pub open spec fn spec_compose(self, other: Pose) -> Pose {
        Pose {
            x: (self.x + spec_mul_scale(other.x as int, spec_cos_fp(self.theta as int))
                - spec_mul_scale(other.y as int, spec_sin_fp(self.theta as int))) as i64,
            y: (self.y + spec_mul_scale(other.x as int, spec_sin_fp(self.theta as int))
                + spec_mul_scale(other.y as int, spec_cos_fp(self.theta as int))) as i64,
            theta: (self.theta + other.theta) as i64,
        }
    }

    /// SE(2) composition on fixed-point values. The second pose is
    /// expected to be a small local step (a per-tick motion delta).
    pub fn compose(&self, other: &Pose) -> (r: Pose)
        requires
            -900_000_000_000_000 <= self.x <= 900_000_000_000_000,
            -900_000_000_000_000 <= self.y <= 900_000_000_000_000,
            -900_000_000_000_000 <= self.theta <= 900_000_000_000_000,
            -1_000_000_000 <= other.x <= 1_000_000_000,
            -1_000_000_000 <= other.y <= 1_000_000_000,
            -1_000_000_000 <= other.theta <= 1_000_000_000,
        ensures
            r == self.spec_compose(*other),
            r.x as int == self.x + spec_mul_scale(other.x as int, spec_cos_fp(self.theta as int))
                - spec_mul_scale(other.y as int, spec_sin_fp(self.theta as int)),
            r.y as int == self.y + spec_mul_scale(other.x as int, spec_sin_fp(self.theta as int))
                + spec_mul_scale(other.y as int, spec_cos_fp(self.theta as int)),
            r.theta as int == self.theta + other.theta,
    {
        proof {
            lemma_cos_fp_range(self.theta as int);
            lemma_sin_fp_range(self.theta as int);
            lemma_mul_scale_small(
                other.x as int,
                spec_cos_fp(self.theta as int),
                1_000_000_000,
            );
            lemma_mul_scale_small(
                other.x as int,
                spec_sin_fp(self.theta as int),
                1_000_000_000,
            );
            lemma_mul_scale_small(
                other.y as int,
                spec_cos_fp(self.theta as int),
                1_000_000_000,
            );
            lemma_mul_scale_small(
                other.y as int,
                spec_sin_fp(self.theta as int),
                1_000_000_000,
            );
        }
        let c = cos_fp(self.theta);
        let s = sin_fp(self.theta);
        let rot_x = mul_scale(other.x, c) - mul_scale(other.y, s);
        let rot_y = mul_scale(other.x, s) + mul_scale(other.y, c);
        Pose { x: self.x + rot_x, y: self.y + rot_y, theta: self.theta + other.theta }
    }
}

} // verus!
