//! Dynamic Window Approach planner: sample candidate velocities inside
//! the one-step acceleration window, roll each forward for a fixed
//! horizon, score the predicted trajectories against weighted cost
//! layers, and return the cheapest plan. The planner is a pure function
//! of its arguments: the contract of `plan_local_path` pins the result
//! through spec functions of the inputs alone.

use vstd::prelude::*;
use vstd::arithmetic::div_mod::{
    lemma_div_by_self, lemma_div_is_ordered, lemma_div_nonincreasing, lemma_div_pos_is_pos,
    lemma_fundamental_div_mod, lemma_fundamental_div_mod_converse, lemma_mod_bound,
    lemma_multiply_divide_lt,
};

use crate::fixed::{
    clamp_i64, lemma_cos_fp_range, lemma_mul_scale_small, lemma_sin_fp_range, mul_scale,
    spec_clamp, spec_cos_fp, spec_mul_scale, spec_sin_fp,
};
use crate::geometry::{Pose, Position};
use crate::grid_map::{Cell, GridMap};
use crate::layered_grid_map::LayeredGridMap;

verus! {

/// Largest velocity magnitude (fixed-point) the planner accepts.
pub const VEL_LIMIT: i64 = 4_000_000;

/// Largest acceleration magnitude (fixed-point) the planner accepts.
pub const ACC_LIMIT: i64 = 4_000_000;

/// Largest control step (fixed-point seconds).
pub const DT_LIMIT: i64 = 60_000;

/// Largest simulation horizon (fixed-point seconds).
pub const DURATION_LIMIT: i64 = 600_000;

/// Largest velocity sample grid density.
pub const SAMPLE_LIMIT: i64 = 1_000;

/// Largest layer weight magnitude (fixed-point).
pub const WEIGHT_LIMIT: i64 = 100_000_000;

/// Largest number of weighted layers.
pub const LAYER_LIMIT: usize = 100;

/// Largest starting pose coordinate magnitude the planner accepts.
pub const POSE_LIMIT: i64 = 1_000_000_000_000;

/// Bound on every pose coordinate along a simulated trajectory.
pub const TRAJ_LIMIT: i64 = 200_000_000_000_000;

/// A commanded velocity: linear along the robot's forward axis and
/// angular, fixed-point.
#[derive(Clone, Copy, Debug, PartialEq, Eq, Structural)]
pub struct Velocity {
    pub x: i64,
    pub theta: i64,
}

/// An acceleration with the same axes as `Velocity`.
#[derive(Clone, Copy, Debug, PartialEq, Eq, Structural)]
pub struct Acceleration {
    pub x: i64,
    pub theta: i64,
}

/// Box limits on velocity and acceleration, minimum at or below maximum
/// on each axis.
#[derive(Clone, Copy, Debug, PartialEq, Eq, Structural)]
pub struct Limits {
    pub max_velocity: Velocity,
    pub max_accel: Acceleration,
    pub min_velocity: Velocity,
    pub min_accel: Acceleration,
}

impl Limits {
    pub open spec fn wf(&self) -> bool {
        &&& -VEL_LIMIT <= self.min_velocity.x <= self.max_velocity.x <= VEL_LIMIT
        &&& -VEL_LIMIT <= self.min_velocity.theta <= self.max_velocity.theta <= VEL_LIMIT
        &&& -ACC_LIMIT <= self.min_accel.x <= self.max_accel.x <= ACC_LIMIT
        &&& -ACC_LIMIT <= self.min_accel.theta <= self.max_accel.theta <= ACC_LIMIT
    }
}

/// A trajectory cost: a finite weighted sum, or infinite for a
/// disqualified trajectory (one touching an out-of-bounds,
/// Uninitialized or Obstacle cell in some weighted layer).
#[derive(Clone, Copy, Debug, PartialEq, Eq, Structural)]
pub enum Cost {
    Finite(i64),
    Infinite,
}

/// A selected plan: the commanded velocity, the weighted cost that led
/// to the selection, and the predicted trajectory (the starting pose is
/// not included; the first entry is one control step ahead).
#[derive(Clone, Debug)]
pub struct Plan {
    pub velocity: Velocity,
    pub cost: Cost,
    pub path: Vec<Pose>,
}

/// The Dynamic Window Approach planner; immutable after construction.
#[derive(Clone, Debug)]
pub struct DwaPlanner {
    pub limits: Limits,
    pub map_name_weight: Vec<(String, i64)>,
    pub controller_dt: i64,
    pub simulation_duration: i64,
    pub num_vel_sample: i64,
}

/// The per-step delta pose of a velocity held for `dt`: forward motion
/// in the local frame plus a heading change.
pub open spec fn spec_velocity_to_pose(velocity: Velocity, dt: int) -> Pose {
    Pose {
        x: spec_mul_scale(velocity.x as int, dt) as i64,
        y: 0,
        theta: spec_mul_scale(velocity.theta as int, dt) as i64,
    }
}

fn velocity_to_pose(velocity: &Velocity, dt: i64) -> (r: Pose)
    requires
        -VEL_LIMIT <= velocity.x <= VEL_LIMIT,
        -VEL_LIMIT <= velocity.theta <= VEL_LIMIT,
        0 < dt <= DT_LIMIT,
    ensures
        r == spec_velocity_to_pose(*velocity, dt as int),
        -250_000_000 <= r.x <= 250_000_000,
        r.y == 0,
        -250_000_000 <= r.theta <= 250_000_000,
{
    proof {
        assert(-240_000_000_000 <= velocity.x as int * dt as int <= 240_000_000_000)
            by (nonlinear_arith)
            requires
                -4_000_000 <= velocity.x as int <= 4_000_000,
                0 < dt as int <= 60_000,
        ;
        assert(-240_000_000_000 <= velocity.theta as int * dt as int <= 240_000_000_000)
            by (nonlinear_arith)
            requires
                -4_000_000 <= velocity.theta as int <= 4_000_000,
                0 < dt as int <= 60_000,
        ;
        crate::fixed::lemma_mul_scale_bound(velocity.x as int, dt as int, 240_000_000_000);
        crate::fixed::lemma_mul_scale_bound(velocity.theta as int, dt as int, 240_000_000_000);
    }
    Pose { x: mul_scale(velocity.x, dt), y: 0, theta: mul_scale(velocity.theta, dt) }
}

/// The pose after `n` repeated compositions of the per-step delta.
pub open spec fn spec_sim_pose(start: Pose, delta: Pose, n: nat) -> Pose
    decreases n,
{
    if n == 0 {
        start
    } else {
        spec_sim_pose(start, delta, (n - 1) as nat).spec_compose(delta)
    }
}

/// A position is disqualifying for a cost layer when it lies out of
/// bounds or on a cell that stores no value.
pub open spec fn spec_position_disqualified(map: &GridMap<u8>, p: Position) -> bool {
    ||| !map.contains_position(p)
    ||| !(map.spec_cell_at(map.spec_flat_index(map.spec_indices_of_position(p))) is Value)
}

/// The raw cost of a position sequence on one layer: the sum of the
/// stored cell values, or nothing when some position disqualifies the
/// trajectory.
pub open spec fn spec_raw_cost(map: &GridMap<u8>, ps: Seq<Position>) -> Option<int>
    decreases ps.len(),
{
    if ps.len() == 0 {
        Some(0)
    } else {
        match spec_raw_cost(map, ps.drop_last()) {
            None => None,
            Some(acc) => {
                let p = ps.last();
                if spec_position_disqualified(map, p) {
                    None
                } else {
                    match map.spec_cell_at(map.spec_flat_index(map.spec_indices_of_position(p))) {
                        Cell::Value(v) => Some(acc + v),
                        _ => None,
                    }
                }
            },
        }
    }
}

proof fn lemma_raw_cost_bounds(map: &GridMap<u8>, ps: Seq<Position>)
    ensures
        spec_raw_cost(map, ps) matches Some(s) ==> 0 <= s <= 255 * ps.len(),
    decreases ps.len(),
{
    if ps.len() > 0 {
        lemma_raw_cost_bounds(map, ps.drop_last());
    }
}

proof fn lemma_raw_cost_all_good(map: &GridMap<u8>, ps: Seq<Position>)
    ensures
        spec_raw_cost(map, ps) is Some ==> forall|t: int|
            0 <= t < ps.len() ==> !spec_position_disqualified(map, #[trigger] ps[t]),
    decreases ps.len(),
{
    if ps.len() > 0 {
        lemma_raw_cost_all_good(map, ps.drop_last());
        if spec_raw_cost(map, ps) is Some {
            assert forall|t: int| 0 <= t < ps.len() implies !spec_position_disqualified(
                map,
                #[trigger] ps[t],
            ) by {
                if t < ps.len() - 1 {
                    assert(ps.drop_last()[t] == ps[t]);
                }
            }
        }
    }
}

/// Sum of the stored cell values of one layer along the projected
/// trajectory; infinite as soon as one position disqualifies it.
#[verifier::loop_isolation(false)]
fn accumulate_values_by_positions(map: &GridMap<u8>, positions: &[Position]) -> (r: Cost)
    requires
        map.wf(),
        positions@.len() <= 600_000,
    ensures
        match spec_raw_cost(map, positions@) {
            Some(s) => r == Cost::Finite(s as i64),
            None => r == Cost::Infinite,
        },
{
    proof {
        lemma_raw_cost_bounds(map, positions@);
    }
    let n = positions.len();
    let mut sum: i64 = 0;
    let mut idx: usize = 0;
    while idx < n
        invariant
            idx <= n,
            spec_raw_cost(map, positions@.subrange(0, idx as int)) == Some(sum as int),
            0 <= sum <= 255 * idx,
        decreases n - idx,
    {
        let p = positions[idx];
        let c = map.cell_by_position(&p);
        proof {
            assert(positions@.subrange(0, idx as int + 1).drop_last() =~= positions@.subrange(
                0,
                idx as int,
            ));
            assert(positions@.subrange(0, idx as int + 1).last() == positions@[idx as int]);
        }
        match c {
            Some(Cell::Value(v)) => {
                sum = sum + v as i64;
            },
            _ => {
                proof {
                    lemma_raw_cost_bad(map, positions@, idx as int);
                }
                return Cost::Infinite;
            },
        }
        idx = idx + 1;
    }
    proof {
        assert(positions@.subrange(0, n as int) =~= positions@);
    }
    Cost::Finite(sum)
}

proof fn lemma_raw_cost_bad(map: &GridMap<u8>, ps: Seq<Position>, b: int)
    requires
        0 <= b < ps.len(),
        spec_position_disqualified(map, ps[b]),
    ensures
        spec_raw_cost(map, ps) is None,
    decreases ps.len(),
{
    if b < ps.len() - 1 {
        assert(ps.drop_last()[b] == ps[b]);
        lemma_raw_cost_bad(map, ps.drop_last(), b);
    }
}

/// The x and y of each pose, as grid positions.
pub open spec fn spec_positions_of(path: Seq<Pose>) -> Seq<Position> {
    path.map_values(|p: Pose| Position { x: p.x, y: p.y })
}

impl DwaPlanner {
    /// Well-formed configuration: coherent limits and positive timing
    /// within the machine bounds, at least one sample segment, and
    /// uniquely named, bounded layer weights.
    pub open spec fn wf(&self) -> bool {
        &&& self.limits.wf()
        &&& 0 < self.controller_dt <= DT_LIMIT
        &&& self.controller_dt <= self.simulation_duration <= DURATION_LIMIT
        &&& 1 <= self.num_vel_sample <= SAMPLE_LIMIT
        &&& self.map_name_weight@.len() <= LAYER_LIMIT
        &&& forall|i: int|
            0 <= i < self.map_name_weight@.len() ==> -WEIGHT_LIMIT <= (
            #[trigger] self.map_name_weight@[i]).1 <= WEIGHT_LIMIT
        &&& forall|i: int, j: int|
            0 <= i < self.map_name_weight@.len() && 0 <= j < self.map_name_weight@.len() && i != j
                ==> (#[trigger] self.map_name_weight@[i]).0@ != (
            #[trigger] self.map_name_weight@[j]).0@
    }

    /// Build a planner from its configuration; a configuration outside
    /// the stated bounds is a caller bug surfaced at construction.
    pub fn new(
        limits: Limits,
        map_name_weight: Vec<(String, i64)>,
        controller_dt: i64,
        simulation_duration: i64,
        num_vel_sample: i64,
    ) -> (r: DwaPlanner)
        requires
            (DwaPlanner {
                limits,
                map_name_weight,
                controller_dt,
                simulation_duration,
                num_vel_sample,
            }).wf(),
        ensures
            r == (DwaPlanner {
                limits,
                map_name_weight,
                controller_dt,
                simulation_duration,
                num_vel_sample,
            }),
            r.wf(),
    {
        DwaPlanner { limits, map_name_weight, controller_dt, simulation_duration, num_vel_sample }
    }

    /// Upper edge of the dynamic window on the linear axis: one step of
    /// maximum acceleration, clamped to the velocity limits.
    pub open spec fn spec_max_x_limit(&self, cv: Velocity) -> int {
        spec_clamp(
            cv.x + spec_mul_scale(self.limits.max_accel.x as int, self.controller_dt as int),
            self.limits.min_velocity.x as int,
            self.limits.max_velocity.x as int,
        )
    }

    pub open spec fn spec_min_x_limit(&self, cv: Velocity) -> int {
        spec_clamp(
            cv.x + spec_mul_scale(self.limits.min_accel.x as int, self.controller_dt as int),
            self.limits.min_velocity.x as int,
            self.limits.max_velocity.x as int,
        )
    }

    pub open spec fn spec_max_theta_limit(&self, cv: Velocity) -> int {
        spec_clamp(
            cv.theta + spec_mul_scale(
                self.limits.max_accel.theta as int,
                self.controller_dt as int,
            ),
            self.limits.min_velocity.theta as int,
            self.limits.max_velocity.theta as int,
        )
    }

    pub open spec fn spec_min_theta_limit(&self, cv: Velocity) -> int {
        spec_clamp(
            cv.theta + spec_mul_scale(
                self.limits.min_accel.theta as int,
                self.controller_dt as int,
            ),
            self.limits.min_velocity.theta as int,
            self.limits.max_velocity.theta as int,
        )
    }

    /// Sample spacing on each axis: the window divided into N segments.
    pub open spec fn spec_d_vel_x(&self, cv: Velocity) -> int {
        (self.spec_max_x_limit(cv) - self.spec_min_x_limit(cv)) / self.num_vel_sample as int
    }

    pub open spec fn spec_d_vel_theta(&self, cv: Velocity) -> int {
        (self.spec_max_theta_limit(cv) - self.spec_min_theta_limit(cv))
            / self.num_vel_sample as int
    }

    /// Total number of candidates: the (N+1) x (N+1) grid plus one
    /// stop-and-turn sample per angular row.
    pub open spec fn spec_sample_count(&self) -> int {
        (self.num_vel_sample + 1) * (self.num_vel_sample + 2)
    }

    /// The k-th candidate: row `i` fixes the angular velocity, the
    /// first N+1 columns sweep the linear axis, and the last column is
    /// the in-place rotation sample.
    pub open spec fn spec_sample_at(&self, cv: Velocity, k: int) -> Velocity {
        let i = k / (self.num_vel_sample + 2) as int;
        let j = k % (self.num_vel_sample + 2) as int;
        let theta = (self.spec_min_theta_limit(cv) + self.spec_d_vel_theta(cv) * i) as i64;
        if j <= self.num_vel_sample {
            Velocity { x: (self.spec_min_x_limit(cv) + self.spec_d_vel_x(cv) * j) as i64, theta }
        } else {
            Velocity { x: 0, theta }
        }
    }

    /// Candidate velocities around the current velocity: the Cartesian
    /// grid over the one-step dynamic window plus a zero-linear-velocity
    /// sample for each angular row, in row-major order.
    #[verifier::loop_isolation(false)]
    pub fn sample_velocity(&self, current_velocity: &Velocity) -> (r: Vec<Velocity>)
        requires
            self.wf(),
            -VEL_LIMIT <= current_velocity.x <= VEL_LIMIT,
            -VEL_LIMIT <= current_velocity.theta <= VEL_LIMIT,
        ensures
            r@.len() == self.spec_sample_count(),
            forall|k: int|
                0 <= k < r@.len() ==> (#[trigger] r@[k]) == self.spec_sample_at(
                    *current_velocity,
                    k,
                ),
            forall|k: int|
                0 <= k < r@.len() ==> -VEL_LIMIT <= (#[trigger] r@[k]).x <= VEL_LIMIT && -VEL_LIMIT
                    <= r@[k].theta <= VEL_LIMIT,
    {
        let cv = *current_velocity;
        let nseg = self.num_vel_sample;
        proof {
            assert(-240_000_000_000 <= self.limits.max_accel.x as int * self.controller_dt as int
                <= 240_000_000_000) by (nonlinear_arith)
                requires
                    -4_000_000 <= self.limits.max_accel.x as int <= 4_000_000,
                    0 < self.controller_dt as int <= 60_000,
            ;
            assert(-240_000_000_000 <= self.limits.min_accel.x as int * self.controller_dt as int
                <= 240_000_000_000) by (nonlinear_arith)
                requires
                    -4_000_000 <= self.limits.min_accel.x as int <= 4_000_000,
                    0 < self.controller_dt as int <= 60_000,
            ;
            assert(-240_000_000_000 <= self.limits.max_accel.theta as int
                * self.controller_dt as int <= 240_000_000_000) by (nonlinear_arith)
                requires
                    -4_000_000 <= self.limits.max_accel.theta as int <= 4_000_000,
                    0 < self.controller_dt as int <= 60_000,
            ;
            assert(-240_000_000_000 <= self.limits.min_accel.theta as int
                * self.controller_dt as int <= 240_000_000_000) by (nonlinear_arith)
                requires
                    -4_000_000 <= self.limits.min_accel.theta as int <= 4_000_000,
                    0 < self.controller_dt as int <= 60_000,
            ;
            crate::fixed::lemma_mul_scale_bound(
                self.limits.max_accel.x as int,
                self.controller_dt as int,
                240_000_000_000,
            );
            crate::fixed::lemma_mul_scale_bound(
                self.limits.min_accel.x as int,
                self.controller_dt as int,
                240_000_000_000,
            );
            crate::fixed::lemma_mul_scale_bound(
                self.limits.max_accel.theta as int,
                self.controller_dt as int,
                240_000_000_000,
            );
            crate::fixed::lemma_mul_scale_bound(
                self.limits.min_accel.theta as int,
                self.controller_dt as int,
                240_000_000_000,
            );
            crate::fixed::lemma_mul_scale_ordered(
                self.limits.min_accel.x as int,
                self.limits.max_accel.x as int,
                self.controller_dt as int,
            );
            crate::fixed::lemma_mul_scale_ordered(
                self.limits.min_accel.theta as int,
                self.limits.max_accel.theta as int,
                self.controller_dt as int,
            );
        }
        let max_x_limit = clamp_i64(
            cv.x + mul_scale(self.limits.max_accel.x, self.controller_dt),
            self.limits.min_velocity.x,
            self.limits.max_velocity.x,
        );
        let min_x_limit = clamp_i64(
            cv.x + mul_scale(self.limits.min_accel.x, self.controller_dt),
            self.limits.min_velocity.x,
            self.limits.max_velocity.x,
        );
        let max_theta_limit = clamp_i64(
            cv.theta + mul_scale(self.limits.max_accel.theta, self.controller_dt),
            self.limits.min_velocity.theta,
            self.limits.max_velocity.theta,
        );
        let min_theta_limit = clamp_i64(
            cv.theta + mul_scale(self.limits.min_accel.theta, self.controller_dt),
            self.limits.min_velocity.theta,
            self.limits.max_velocity.theta,
        );
        assert(min_x_limit <= max_x_limit);
        assert(min_theta_limit <= max_theta_limit);
        let d_vel_x: i64 = ((max_x_limit - min_x_limit) as u64 / nseg as u64) as i64;
        let d_vel_theta: i64 = ((max_theta_limit - min_theta_limit) as u64 / nseg as u64) as i64;
        proof {
            lemma_div_pos_is_pos((max_x_limit - min_x_limit) as int, nseg as int);
            lemma_div_pos_is_pos((max_theta_limit - min_theta_limit) as int, nseg as int);
            lemma_fundamental_div_mod((max_x_limit - min_x_limit) as int, nseg as int);
            lemma_mod_bound((max_x_limit - min_x_limit) as int, nseg as int);
            lemma_fundamental_div_mod((max_theta_limit - min_theta_limit) as int, nseg as int);
            lemma_mod_bound((max_theta_limit - min_theta_limit) as int, nseg as int);
            assert(d_vel_x as int * nseg as int <= max_x_limit - min_x_limit)
                by (nonlinear_arith)
                requires
                    (max_x_limit - min_x_limit) as int == nseg as int * d_vel_x as int + (
                    max_x_limit - min_x_limit) as int % nseg as int,
                    (max_x_limit - min_x_limit) as int % nseg as int >= 0,
            ;
            assert(d_vel_theta as int * nseg as int <= max_theta_limit - min_theta_limit)
                by (nonlinear_arith)
                requires
                    (max_theta_limit - min_theta_limit) as int == nseg as int
                        * d_vel_theta as int + (max_theta_limit - min_theta_limit) as int
                        % nseg as int,
                    (max_theta_limit - min_theta_limit) as int % nseg as int >= 0,
            ;
        }
        let mut velocities: Vec<Velocity> = Vec::new();
        let mut i: i64 = 0;
        while i <= nseg
            invariant
                0 <= i <= nseg + 1,
                velocities@.len() == i * (nseg + 2),
                forall|k: int|
                    0 <= k < velocities@.len() ==> (#[trigger] velocities@[k])
                        == self.spec_sample_at(cv, k),
                forall|k: int|
                    0 <= k < velocities@.len() ==> -VEL_LIMIT <= (#[trigger] velocities@[k]).x
                        <= VEL_LIMIT && -VEL_LIMIT <= velocities@[k].theta <= VEL_LIMIT,
            decreases nseg + 1 - i,
        {
            proof {
                assert(0 <= d_vel_theta as int * i as int <= d_vel_theta as int * nseg as int)
                    by (nonlinear_arith)
                    requires
                        0 <= i as int <= nseg as int,
                        0 <= d_vel_theta as int,
                ;
            }
            let theta: i64 = min_theta_limit + d_vel_theta * i;
            let mut j: i64 = 0;
            while j <= nseg
                invariant
                    0 <= i <= nseg,
                    0 <= j <= nseg + 1,
                    theta as int == min_theta_limit as int + d_vel_theta as int * i as int,
                    min_theta_limit <= theta <= max_theta_limit,
                    velocities@.len() == i * (nseg + 2) + j,
                    forall|k: int|
                        0 <= k < velocities@.len() ==> (#[trigger] velocities@[k])
                            == self.spec_sample_at(cv, k),
                    forall|k: int|
                        0 <= k < velocities@.len() ==> -VEL_LIMIT <= (
                        #[trigger] velocities@[k]).x <= VEL_LIMIT && -VEL_LIMIT
                            <= velocities@[k].theta <= VEL_LIMIT,
                decreases nseg + 1 - j,
            {
                proof {
                    assert(0 <= d_vel_x as int * j as int <= d_vel_x as int * nseg as int)
                        by (nonlinear_arith)
                        requires
                            0 <= j as int <= nseg as int,
                            0 <= d_vel_x as int,
                    ;
                }
                let x: i64 = min_x_limit + d_vel_x * j;
                velocities.push(Velocity { x, theta });
                proof {
                    let k = i as int * (nseg + 2) as int + j as int;
                    lemma_fundamental_div_mod_converse(
                        k,
                        (nseg + 2) as int,
                        i as int,
                        j as int,
                    );
                }
                j = j + 1;
            }
            velocities.push(Velocity { x: 0, theta });
            proof {
                let k = i as int * (nseg + 2) as int + (nseg + 1) as int;
                lemma_fundamental_div_mod_converse(
                    k,
                    (nseg + 2) as int,
                    i as int,
                    (nseg + 1) as int,
                );
                assert((i + 1) as int * (nseg + 2) as int == i as int * (nseg + 2) as int + (nseg
                    + 2) as int) by (nonlinear_arith);
            }
            i = i + 1;
        }
        proof {
            assert((nseg + 1) as int * (nseg + 2) as int == self.spec_sample_count());
        }
        velocities
    }

    /// Number of simulated steps: the horizon divided by the control
    /// step, rounded down.
    pub open spec fn spec_horizon(&self) -> int {
        self.simulation_duration as int / self.controller_dt as int
    }

    /// The predicted trajectory of a candidate velocity, one pose per
    /// step, without the starting pose.
    pub open spec fn spec_candidate_path(&self, start: Pose, v: Velocity) -> Seq<Pose> {
        Seq::new(
            self.spec_horizon() as nat,
            |m: int|
                spec_sim_pose(
                    start,
                    spec_velocity_to_pose(v, self.controller_dt as int),
                    (m + 1) as nat,
                ),
        )
    }

    /// Roll a candidate velocity forward from the current pose for
    /// `simulation_duration / controller_dt` steps of `controller_dt`.
    /// The starting pose is not part of the result: the first entry is
    /// the pose one control step ahead.
    #[verifier::loop_isolation(false)]
    pub fn forward_simulation(&self, current_pose: &Pose, target_velocity: &Velocity) -> (r: Vec<
        Pose,
    >)
        requires
            self.wf(),
            -POSE_LIMIT <= current_pose.x <= POSE_LIMIT,
            -POSE_LIMIT <= current_pose.y <= POSE_LIMIT,
            -POSE_LIMIT <= current_pose.theta <= POSE_LIMIT,
            -VEL_LIMIT <= target_velocity.x <= VEL_LIMIT,
            -VEL_LIMIT <= target_velocity.theta <= VEL_LIMIT,
        ensures
            r@.len() == self.spec_horizon(),
            r@ == self.spec_candidate_path(*current_pose, *target_velocity),
            forall|m: int|
                0 <= m < r@.len() ==> -TRAJ_LIMIT <= (#[trigger] r@[m]).x <= TRAJ_LIMIT
                    && -TRAJ_LIMIT <= r@[m].y <= TRAJ_LIMIT && -TRAJ_LIMIT <= r@[m].theta
                    <= TRAJ_LIMIT,
    {
        proof {
            lemma_div_nonincreasing(self.simulation_duration as int, self.controller_dt as int);
            lemma_div_pos_is_pos(self.simulation_duration as int, self.controller_dt as int);
            lemma_div_is_ordered(
                self.controller_dt as int,
                self.simulation_duration as int,
                self.controller_dt as int,
            );
            lemma_div_by_self(self.controller_dt as int);
        }
        let k_steps: usize = (self.simulation_duration as u64 / self.controller_dt as u64)
            as usize;
        let diff = velocity_to_pose(target_velocity, self.controller_dt);
        let mut poses: Vec<Pose> = Vec::new();
        let mut last: Pose = *current_pose;
        let mut step: usize = 0;
        while step < k_steps
            invariant
                step <= k_steps,
                poses@.len() == step,
                last == spec_sim_pose(*current_pose, diff, step as nat),
                -POSE_LIMIT - step as int * 250_000_000 <= last.x as int <= POSE_LIMIT
                    + step as int * 250_000_000,
                -POSE_LIMIT - step as int * 250_000_000 <= last.y as int <= POSE_LIMIT
                    + step as int * 250_000_000,
                -POSE_LIMIT - step as int * 250_000_000 <= last.theta as int <= POSE_LIMIT
                    + step as int * 250_000_000,
                forall|m: int|
                    0 <= m < step ==> (#[trigger] poses@[m]) == spec_sim_pose(
                        *current_pose,
                        diff,
                        (m + 1) as nat,
                    ),
                forall|m: int|
                    0 <= m < step ==> -TRAJ_LIMIT <= (#[trigger] poses@[m]).x <= TRAJ_LIMIT
                        && -TRAJ_LIMIT <= poses@[m].y <= TRAJ_LIMIT && -TRAJ_LIMIT
                        <= poses@[m].theta <= TRAJ_LIMIT,
            decreases k_steps - step,
        {
            proof {
                lemma_cos_fp_range(last.theta as int);
                lemma_sin_fp_range(last.theta as int);
                lemma_mul_scale_small(diff.x as int, spec_cos_fp(last.theta as int), 250_000_000);
                lemma_mul_scale_small(diff.x as int, spec_sin_fp(last.theta as int), 250_000_000);
                assert(diff.y as int * spec_sin_fp(last.theta as int) == 0) by (nonlinear_arith)
                    requires
                        diff.y as int == 0,
                ;
                assert(diff.y as int * spec_cos_fp(last.theta as int) == 0) by (nonlinear_arith)
                    requires
                        diff.y as int == 0,
                ;
            }
            let next = last.compose(&diff);
            poses.push(next);
            last = next;
            step = step + 1;
        }
        proof {
            assert(poses@ =~= self.spec_candidate_path(*current_pose, *target_velocity));
        }
        poses
    }

    /// Weighted total cost of a projected trajectory over the first `n`
    /// weighted layers; nothing as soon as one layer disqualifies it.
    pub open spec fn spec_total_cost(
        &self,
        maps: &LayeredGridMap<u8>,
        ps: Seq<Position>,
        n: nat,
    ) -> Option<int>
        decreases n,
    {
        if n == 0 {
            Some(0)
        } else {
            match self.spec_total_cost(maps, ps, (n - 1) as nat) {
                None => None,
                Some(acc) => {
                    let entry = self.map_name_weight@[n - 1];
                    match maps.spec_layer(entry.0@) {
                        Some(m) => match spec_raw_cost(&m, ps) {
                            Some(s) => Some(acc + entry.1 * s),
                            None => None,
                        },
                        None => None,
                    }
                },
            }
        }
    }

    /// The cost of candidate `k` from the given state.
    pub open spec fn spec_candidate_cost(
        &self,
        maps: &LayeredGridMap<u8>,
        start: Pose,
        cv: Velocity,
        k: int,
    ) -> Option<int> {
        self.spec_total_cost(
            maps,
            spec_positions_of(self.spec_candidate_path(start, self.spec_sample_at(cv, k))),
            self.map_name_weight@.len(),
        )
    }

    /// Strict order on costs; nothing stands for infinity.
    pub open spec fn spec_cost_lt(a: Option<int>, b: Option<int>) -> bool {
        match (a, b) {
            (Some(x), Some(y)) => x < y,
            (Some(_), None) => true,
            _ => false,
        }
    }

    proof fn lemma_total_cost_bounds(
        &self,
        maps: &LayeredGridMap<u8>,
        ps: Seq<Position>,
        n: nat,
    )
        requires
            self.wf(),
            ps.len() <= 600_000,
            n <= self.map_name_weight@.len(),
        ensures
            self.spec_total_cost(maps, ps, n) matches Some(c) ==> -(n as int
                * 15_300_000_000_000_000) <= c <= n as int * 15_300_000_000_000_000,
        decreases n,
    {
        if n > 0 {
            self.lemma_total_cost_bounds(maps, ps, (n - 1) as nat);
            let entry = self.map_name_weight@[n - 1];
            match maps.spec_layer(entry.0@) {
                Some(m) => {
                    lemma_raw_cost_bounds(&m, ps);
                    match spec_raw_cost(&m, ps) {
                        Some(s) => {
                            assert(-15_300_000_000_000_000 <= entry.1 as int * s
                                <= 15_300_000_000_000_000) by (nonlinear_arith)
                                requires
                                    -100_000_000 <= entry.1 as int <= 100_000_000,
                                    0 <= s <= 153_000_000,
                            ;
                        },
                        None => {},
                    }
                },
                None => {},
            }
        }
    }

    /// Index of the cheapest candidate among the first `n`, ties broken
    /// by the first encountered; -1 while no candidate has finite cost.
    pub open spec fn spec_best_index(
        &self,
        maps: &LayeredGridMap<u8>,
        start: Pose,
        cv: Velocity,
        n: nat,
    ) -> int
        decreases n,
    {
        if n == 0 {
            -1
        } else {
            let prev = self.spec_best_index(maps, start, cv, (n - 1) as nat);
            let prev_cost = if prev == -1 {
                None
            } else {
                self.spec_candidate_cost(maps, start, cv, prev)
            };
            if Self::spec_cost_lt(
                self.spec_candidate_cost(maps, start, cv, n - 1),
                prev_cost,
            ) {
                n - 1
            } else {
                prev
            }
        }
    }

    /// Weighted cost of one predicted trajectory: project its poses to
    /// grid positions and sum the weighted per-layer raw costs; infinite
    /// as soon as one weighted layer disqualifies the trajectory.
    #[verifier::loop_isolation(false)]
    fn score_path(&self, maps: &LayeredGridMap<u8>, path: &Vec<Pose>) -> (r: Cost)
        requires
            self.wf(),
            maps.wf(),
            path@.len() <= 600_000,
            forall|i: int|
                0 <= i < self.map_name_weight@.len() ==> maps.spec_has_layer(
                    (#[trigger] self.map_name_weight@[i]).0@,
                ),
        ensures
            match self.spec_total_cost(
                maps,
                spec_positions_of(path@),
                self.map_name_weight@.len(),
            ) {
                Some(c) => r == Cost::Finite(c as i64) && -1_530_000_000_000_000_000 <= c
                    <= 1_530_000_000_000_000_000,
                None => r == Cost::Infinite,
            },
    {
        let nlayers = self.map_name_weight.len();
        let mut positions: Vec<Position> = Vec::new();
        let mut m: usize = 0;
        while m < path.len()
            invariant
                m <= path@.len(),
                positions@.len() == m,
                forall|t: int|
                    0 <= t < m ==> (#[trigger] positions@[t]) == (Position {
                        x: path@[t].x,
                        y: path@[t].y,
                    }),
            decreases path@.len() - m,
        {
            positions.push(Position { x: path[m].x, y: path[m].y });
            m = m + 1;
        }
        proof {
            assert(positions@ =~= spec_positions_of(path@));
        }
        let mut acc: i64 = 0;
        let mut disqualified = false;
        let mut li: usize = 0;
        while li < nlayers
            invariant
                li <= nlayers,
                positions@ == spec_positions_of(path@),
                -(li as int * 15_300_000_000_000_000) <= acc as int <= li as int
                    * 15_300_000_000_000_000,
                !disqualified ==> self.spec_total_cost(maps, positions@, li as nat) == Some(
                    acc as int,
                ),
                disqualified ==> self.spec_total_cost(maps, positions@, li as nat) is None,
            decreases nlayers - li,
        {
            proof {
                assert(maps.spec_has_layer(self.map_name_weight@[li as int].0@));
            }
            let name = &self.map_name_weight[li].0;
            let w = self.map_name_weight[li].1;
            match maps.layer(name) {
                Some(layer_map) => {
                    proof {
                        let widx = maps.spec_layer_index(name@);
                        assert(maps.layers@[widx].1.wf());
                    }
                    let raw = accumulate_values_by_positions(layer_map, positions.as_slice());
                    proof {
                        lemma_raw_cost_bounds(layer_map, positions@);
                    }
                    match raw {
                        Cost::Finite(s) => {
                            proof {
                                assert(-15_300_000_000_000_000 <= w as int * s as int
                                    <= 15_300_000_000_000_000) by (nonlinear_arith)
                                    requires
                                        -100_000_000 <= w as int <= 100_000_000,
                                        0 <= s as int <= 153_000_000,
                                ;
                            }
                            acc = acc + w * s;
                        },
                        Cost::Infinite => {
                            disqualified = true;
                        },
                    }
                },
                None => {
                    proof {
                        assert(false);
                    }
                },
            }
            li = li + 1;
        }
        proof {
            self.lemma_total_cost_bounds(maps, positions@, nlayers as nat);
        }
        if disqualified {
            Cost::Infinite
        } else {
            Cost::Finite(acc)
        }
    }

    /// One unfolding of the selection recursion: the best index over
    /// `k + 1` candidates keeps the previous winner unless candidate `k`
    /// costs strictly less.
    proof fn lemma_best_step(
        &self,
        maps: &LayeredGridMap<u8>,
        start: Pose,
        cv: Velocity,
        k: nat,
    )
        ensures
            ({
                let prev = self.spec_best_index(maps, start, cv, k);
                let prev_cost = if prev == -1 {
                    None
                } else {
                    self.spec_candidate_cost(maps, start, cv, prev)
                };
                self.spec_best_index(maps, start, cv, k + 1) == if Self::spec_cost_lt(
                    self.spec_candidate_cost(maps, start, cv, k as int),
                    prev_cost,
                ) {
                    k as int
                } else {
                    prev
                }
            }),
    {
    }

    /// Select the next commanded velocity: sample candidates around the
    /// current velocity, roll each forward from the current pose, sum
    /// the weighted layer costs along the projected positions, and keep
    /// the first minimum. When every candidate is disqualified the stall
    /// plan comes back: zero velocity, infinite cost, empty path. Every
    /// weighted layer name must be present in the layered map.
    #[verifier::loop_isolation(false)]
    #[verifier::rlimit(100)]
    pub fn plan_local_path(
        &self,
        current_pose: &Pose,
        current_velocity: &Velocity,
        maps: &LayeredGridMap<u8>,
    ) -> (r: Plan)
        requires
            self.wf(),
            maps.wf(),
            -POSE_LIMIT <= current_pose.x <= POSE_LIMIT,
            -POSE_LIMIT <= current_pose.y <= POSE_LIMIT,
            -POSE_LIMIT <= current_pose.theta <= POSE_LIMIT,
            -VEL_LIMIT <= current_velocity.x <= VEL_LIMIT,
            -VEL_LIMIT <= current_velocity.theta <= VEL_LIMIT,
            forall|i: int|
                0 <= i < self.map_name_weight@.len() ==> maps.spec_has_layer(
                    (#[trigger] self.map_name_weight@[i]).0@,
                ),
        ensures
            ({
                let best = self.spec_best_index(
                    maps,
                    *current_pose,
                    *current_velocity,
                    self.spec_sample_count() as nat,
                );
                &&& best == -1 ==> r.velocity == (Velocity { x: 0i64, theta: 0i64 }) && r.cost
                    == Cost::Infinite && r.path@.len() == 0
                &&& best >= 0 ==> r.velocity == self.spec_sample_at(*current_velocity, best)
                    && r.path@ == self.spec_candidate_path(
                    *current_pose,
                    self.spec_sample_at(*current_velocity, best),
                ) && (match self.spec_candidate_cost(maps, *current_pose, *current_velocity, best) {
                    Some(c) => r.cost == Cost::Finite(c as i64),
                    None => false,
                })
            }),
    {
        let samples = self.sample_velocity(current_velocity);
        let total = samples.len();
        proof {
            lemma_div_nonincreasing(self.simulation_duration as int, self.controller_dt as int);
            lemma_div_pos_is_pos(self.simulation_duration as int, self.controller_dt as int);
        }
        let mut best_cost: Cost = Cost::Infinite;
        let mut best_velocity: Velocity = Velocity { x: 0, theta: 0 };
        let mut best_path: Vec<Pose> = Vec::new();
        let ghost mut best_idx: int = -1;
        let mut k: usize = 0;
        while k < total
            invariant
                k <= total,
                best_idx == -1 || 0 <= best_idx < k,
                best_idx == self.spec_best_index(
                    maps,
                    *current_pose,
                    *current_velocity,
                    k as nat,
                ),
                best_idx == -1 ==> best_cost == Cost::Infinite && best_velocity == (Velocity {
                    x: 0i64,
                    theta: 0i64,
                }) && best_path@.len() == 0,
                best_idx >= 0 ==> {
                    &&& 0 <= best_idx < k
                    &&& best_velocity == self.spec_sample_at(*current_velocity, best_idx)
                    &&& best_path@ == self.spec_candidate_path(*current_pose, best_velocity)
                    &&& match self.spec_candidate_cost(
                        maps,
                        *current_pose,
                        *current_velocity,
                        best_idx,
                    ) {
                        Some(c) => best_cost == Cost::Finite(c as i64)
                            && -1_530_000_000_000_000_000 <= c <= 1_530_000_000_000_000_000,
                        None => false,
                    }
                },
            decreases total - k,
        {
            let v = samples[k];
            let path = self.forward_simulation(current_pose, &v);
            let cand_cost = self.score_path(maps, &path);
            proof {
                assert(path@ == self.spec_candidate_path(
                    *current_pose,
                    self.spec_sample_at(*current_velocity, k as int),
                ));
                assert(self.spec_candidate_cost(maps, *current_pose, *current_velocity, k as int)
                    == self.spec_total_cost(
                    maps,
                    spec_positions_of(path@),
                    self.map_name_weight@.len(),
                ));
            }
            let take = cost_lt(&cand_cost, &best_cost);
            proof {
                self.lemma_best_step(maps, *current_pose, *current_velocity, k as nat);
                let cand_spec = self.spec_candidate_cost(
                    maps,
                    *current_pose,
                    *current_velocity,
                    k as int,
                );
                let prev_cost = if best_idx == -1 {
                    None
                } else {
                    self.spec_candidate_cost(maps, *current_pose, *current_velocity, best_idx)
                };
                match cand_spec {
                    Some(c2) => {
                        assert(cand_cost == Cost::Finite(c2 as i64));
                        assert(-1_530_000_000_000_000_000 <= c2 <= 1_530_000_000_000_000_000);
                        match prev_cost {
                            Some(c1) => {
                                assert(best_cost == Cost::Finite(c1 as i64));
                                assert(-1_530_000_000_000_000_000 <= c1
                                    <= 1_530_000_000_000_000_000);
                                assert(take == (c2 < c1));
                            },
                            None => {
                                assert(best_cost == Cost::Infinite);
                                assert(take);
                            },
                        }
                    },
                    None => {
                        assert(cand_cost == Cost::Infinite);
                        assert(!take);
                    },
                }
                assert(take == Self::spec_cost_lt(cand_spec, prev_cost));
            }
            if take {
                best_cost = cand_cost;
                best_velocity = v;
                best_path = path;
                proof {
                    best_idx = k as int;
                }
            }
            k = k + 1;
        }
        Plan { velocity: best_velocity, cost: best_cost, path: best_path }
    }

    /// Sample admissibility: every candidate's angular velocity lies in
    /// the clamped angular window, hence within the velocity limits;
    /// every grid candidate's linear velocity lies in the clamped linear
    /// window, hence within the velocity limits; the remaining
    /// candidates are the stop-and-turn samples, whose linear velocity
    /// is exactly zero (and may fall below a strictly positive linear
    /// minimum). With inactive clamps the windows are the one-step
    /// acceleration reach (`lemma_window_is_acceleration_reach`).
    pub proof fn lemma_sample_admissible(&self, cv: Velocity, k: int)
        requires
            self.wf(),
            -VEL_LIMIT <= cv.x <= VEL_LIMIT,
            -VEL_LIMIT <= cv.theta <= VEL_LIMIT,
            0 <= k < self.spec_sample_count(),
        ensures
            ({
                let s = self.spec_sample_at(cv, k);
                let j = k % (self.num_vel_sample + 2) as int;
                &&& self.spec_min_theta_limit(cv) <= s.theta as int <= self.spec_max_theta_limit(
                    cv,
                )
                &&& self.limits.min_velocity.theta <= s.theta <= self.limits.max_velocity.theta
                &&& j <= self.num_vel_sample ==> self.spec_min_x_limit(cv) <= s.x as int
                    <= self.spec_max_x_limit(cv)
                &&& j <= self.num_vel_sample ==> self.limits.min_velocity.x <= s.x
                    <= self.limits.max_velocity.x
                &&& j > self.num_vel_sample ==> s.x == 0
            }),
    {
        let n2 = (self.num_vel_sample + 2) as int;
        let i = k / n2;
        let j = k % n2;
        lemma_mod_bound(k, n2);
        lemma_div_pos_is_pos(k, n2);
        assert((self.num_vel_sample + 2) as int * (self.num_vel_sample + 1) as int == (
        self.num_vel_sample + 1) as int * (self.num_vel_sample + 2) as int) by (nonlinear_arith);
        lemma_multiply_divide_lt(k, n2, (self.num_vel_sample + 1) as int);
        let dx = self.spec_d_vel_x(cv);
        let dth = self.spec_d_vel_theta(cv);
        crate::fixed::lemma_mul_scale_ordered(
            self.limits.min_accel.x as int,
            self.limits.max_accel.x as int,
            self.controller_dt as int,
        );
        crate::fixed::lemma_mul_scale_ordered(
            self.limits.min_accel.theta as int,
            self.limits.max_accel.theta as int,
            self.controller_dt as int,
        );
        lemma_div_pos_is_pos(
            self.spec_max_x_limit(cv) - self.spec_min_x_limit(cv),
            self.num_vel_sample as int,
        );
        lemma_div_pos_is_pos(
            self.spec_max_theta_limit(cv) - self.spec_min_theta_limit(cv),
            self.num_vel_sample as int,
        );
        lemma_fundamental_div_mod(
            self.spec_max_x_limit(cv) - self.spec_min_x_limit(cv),
            self.num_vel_sample as int,
        );
        lemma_mod_bound(
            self.spec_max_x_limit(cv) - self.spec_min_x_limit(cv),
            self.num_vel_sample as int,
        );
        lemma_fundamental_div_mod(
            self.spec_max_theta_limit(cv) - self.spec_min_theta_limit(cv),
            self.num_vel_sample as int,
        );
        lemma_mod_bound(
            self.spec_max_theta_limit(cv) - self.spec_min_theta_limit(cv),
            self.num_vel_sample as int,
        );
        assert(dx * self.num_vel_sample as int <= self.spec_max_x_limit(cv)
            - self.spec_min_x_limit(cv)) by (nonlinear_arith)
            requires
                self.spec_max_x_limit(cv) - self.spec_min_x_limit(cv)
                    == self.num_vel_sample as int * dx + (self.spec_max_x_limit(cv)
                    - self.spec_min_x_limit(cv)) % self.num_vel_sample as int,
                (self.spec_max_x_limit(cv) - self.spec_min_x_limit(cv))
                    % self.num_vel_sample as int >= 0,
        ;
        assert(dth * self.num_vel_sample as int <= self.spec_max_theta_limit(cv)
            - self.spec_min_theta_limit(cv)) by (nonlinear_arith)
            requires
                self.spec_max_theta_limit(cv) - self.spec_min_theta_limit(cv)
                    == self.num_vel_sample as int * dth + (self.spec_max_theta_limit(cv)
                    - self.spec_min_theta_limit(cv)) % self.num_vel_sample as int,
                (self.spec_max_theta_limit(cv) - self.spec_min_theta_limit(cv))
                    % self.num_vel_sample as int >= 0,
        ;
        if j <= self.num_vel_sample as int {
            assert(0 <= dx * j <= dx * self.num_vel_sample as int) by (nonlinear_arith)
                requires
                    0 <= j <= self.num_vel_sample as int,
                    0 <= dx,
            ;
        }
        assert(0 <= dth * i <= dth * self.num_vel_sample as int) by (nonlinear_arith)
            requires
                0 <= i <= self.num_vel_sample as int,
                0 <= dth,
        ;
    }

    /// When neither clamp is active, the dynamic window on each axis is
    /// exactly the one-step acceleration reach of the current velocity.
    pub proof fn lemma_window_is_acceleration_reach(&self, cv: Velocity)
        requires
            self.wf(),
            self.limits.min_velocity.x as int <= cv.x + spec_mul_scale(
                self.limits.min_accel.x as int,
                self.controller_dt as int,
            ),
            cv.x + spec_mul_scale(self.limits.max_accel.x as int, self.controller_dt as int)
                <= self.limits.max_velocity.x as int,
            self.limits.min_velocity.theta as int <= cv.theta + spec_mul_scale(
                self.limits.min_accel.theta as int,
                self.controller_dt as int,
            ),
            cv.theta + spec_mul_scale(
                self.limits.max_accel.theta as int,
                self.controller_dt as int,
            ) <= self.limits.max_velocity.theta as int,
        ensures
            self.spec_min_x_limit(cv) == cv.x + spec_mul_scale(
                self.limits.min_accel.x as int,
                self.controller_dt as int,
            ),
            self.spec_max_x_limit(cv) == cv.x + spec_mul_scale(
                self.limits.max_accel.x as int,
                self.controller_dt as int,
            ),
            self.spec_min_theta_limit(cv) == cv.theta + spec_mul_scale(
                self.limits.min_accel.theta as int,
                self.controller_dt as int,
            ),
            self.spec_max_theta_limit(cv) == cv.theta + spec_mul_scale(
                self.limits.max_accel.theta as int,
                self.controller_dt as int,
            ),
    {
        crate::fixed::lemma_mul_scale_ordered(
            self.limits.min_accel.x as int,
            self.limits.max_accel.x as int,
            self.controller_dt as int,
        );
        crate::fixed::lemma_mul_scale_ordered(
            self.limits.min_accel.theta as int,
            self.limits.max_accel.theta as int,
            self.controller_dt as int,
        );
    }

    proof fn lemma_total_cost_double(
        p1: &DwaPlanner,
        p2: &DwaPlanner,
        maps: &LayeredGridMap<u8>,
        ps: Seq<Position>,
        n: nat,
    )
        requires
            p2.map_name_weight@.len() == p1.map_name_weight@.len(),
            n <= p1.map_name_weight@.len(),
            forall|i: int|
                0 <= i < p1.map_name_weight@.len() ==> (#[trigger] p2.map_name_weight@[i]).0@
                    == p1.map_name_weight@[i].0@ && p2.map_name_weight@[i].1 == 2
                    * p1.map_name_weight@[i].1,
        ensures
            match p1.spec_total_cost(maps, ps, n) {
                Some(c) => p2.spec_total_cost(maps, ps, n) == Some(2 * c),
                None => p2.spec_total_cost(maps, ps, n) is None,
            },
        decreases n,
    {
        if n > 0 {
            Self::lemma_total_cost_double(p1, p2, maps, ps, (n - 1) as nat);
            let e1 = p1.map_name_weight@[n - 1];
            let e2 = p2.map_name_weight@[n - 1];
            assert(e2.0@ == e1.0@ && e2.1 == 2 * e1.1);
            match maps.spec_layer(e1.0@) {
                Some(m) => {
                    match spec_raw_cost(&m, ps) {
                        Some(s) => {
                            assert(e2.1 as int * s == 2 * (e1.1 as int * s)) by (nonlinear_arith)
                                requires
                                    e2.1 as int == 2 * e1.1 as int,
                            ;
                        },
                        None => {},
                    }
                },
                None => {},
            }
        }
    }

    /// Monotone weighting: a planner whose layer weights are all doubled
    /// (everything else equal) gives every candidate exactly twice the
    /// cost, selects the same candidate, and so reports twice the cost
    /// of the selected plan.
    pub proof fn lemma_doubling_weights(
        p1: &DwaPlanner,
        p2: &DwaPlanner,
        maps: &LayeredGridMap<u8>,
        start: Pose,
        cv: Velocity,
        n: nat,
    )
        requires
            p2.limits == p1.limits,
            p2.controller_dt == p1.controller_dt,
            p2.simulation_duration == p1.simulation_duration,
            p2.num_vel_sample == p1.num_vel_sample,
            p2.map_name_weight@.len() == p1.map_name_weight@.len(),
            forall|i: int|
                0 <= i < p1.map_name_weight@.len() ==> (#[trigger] p2.map_name_weight@[i]).0@
                    == p1.map_name_weight@[i].0@ && p2.map_name_weight@[i].1 == 2
                    * p1.map_name_weight@[i].1,
        ensures
            p2.spec_best_index(maps, start, cv, n) == p1.spec_best_index(maps, start, cv, n),
            ({
                let best = p1.spec_best_index(maps, start, cv, n);
                best >= 0 ==> match p1.spec_candidate_cost(maps, start, cv, best) {
                    Some(c) => p2.spec_candidate_cost(maps, start, cv, best) == Some(2 * c),
                    None => p2.spec_candidate_cost(maps, start, cv, best) is None,
                }
            }),
        decreases n,
    {
        if n > 0 {
            Self::lemma_doubling_weights(p1, p2, maps, start, cv, (n - 1) as nat);
            let prev = p1.spec_best_index(maps, start, cv, (n - 1) as nat);
            p1.lemma_best_index_range(maps, start, cv, (n - 1) as nat);
            assert(p2.spec_sample_at(cv, n - 1) == p1.spec_sample_at(cv, n - 1));
            assert(p2.spec_candidate_path(start, p1.spec_sample_at(cv, n - 1))
                == p1.spec_candidate_path(start, p1.spec_sample_at(cv, n - 1)));
            Self::lemma_total_cost_double(
                p1,
                p2,
                maps,
                spec_positions_of(p1.spec_candidate_path(start, p1.spec_sample_at(cv, n - 1))),
                p1.map_name_weight@.len(),
            );
            if prev >= 0 {
                assert(p2.spec_sample_at(cv, prev) == p1.spec_sample_at(cv, prev));
                assert(p2.spec_candidate_path(start, p1.spec_sample_at(cv, prev))
                    == p1.spec_candidate_path(start, p1.spec_sample_at(cv, prev)));
                Self::lemma_total_cost_double(
                    p1,
                    p2,
                    maps,
                    spec_positions_of(
                        p1.spec_candidate_path(start, p1.spec_sample_at(cv, prev)),
                    ),
                    p1.map_name_weight@.len(),
                );
            }
            let c1 = p1.spec_candidate_cost(maps, start, cv, n - 1);
            let c2 = p2.spec_candidate_cost(maps, start, cv, n - 1);
            assert(match c1 {
                Some(c) => c2 == Some(2 * c),
                None => c2 is None,
            });
            if prev >= 0 {
                assert(match p1.spec_candidate_cost(maps, start, cv, prev) {
                    Some(c) => p2.spec_candidate_cost(maps, start, cv, prev) == Some(2 * c),
                    None => p2.spec_candidate_cost(maps, start, cv, prev) is None,
                });
            }
            let pc1 = if prev == -1 {
                None
            } else {
                p1.spec_candidate_cost(maps, start, cv, prev)
            };
            let pc2 = if prev == -1 {
                None
            } else {
                p2.spec_candidate_cost(maps, start, cv, prev)
            };
            assert(match pc1 {
                Some(c) => pc2 == Some(2 * c),
                None => pc2 is None,
            });
            assert(Self::spec_cost_lt(c2, pc2) == Self::spec_cost_lt(c1, pc1));
            assert(p2.spec_best_index(maps, start, cv, n) == p1.spec_best_index(
                maps,
                start,
                cv,
                n,
            ));
        }
    }

    /// The selection index is -1 or the index of one of the first `n`
    /// candidates.
    pub proof fn lemma_best_index_range(
        &self,
        maps: &LayeredGridMap<u8>,
        start: Pose,
        cv: Velocity,
        n: nat,
    )
        ensures
            -1 <= self.spec_best_index(maps, start, cv, n) < n,
        decreases n,
    {
        if n > 0 {
            self.lemma_best_index_range(maps, start, cv, (n - 1) as nat);
        }
    }

    /// A selected candidate always has finite cost: the recursion only
    /// moves off -1 for a candidate that costs less than infinity.
    pub proof fn lemma_best_index_finite(
        &self,
        maps: &LayeredGridMap<u8>,
        start: Pose,
        cv: Velocity,
        n: nat,
    )
        ensures
            ({
                let best = self.spec_best_index(maps, start, cv, n);
                best >= 0 ==> self.spec_candidate_cost(maps, start, cv, best) is Some
            }),
        decreases n,
    {
        if n > 0 {
            self.lemma_best_index_finite(maps, start, cv, (n - 1) as nat);
        }
    }

    proof fn lemma_total_cost_layers(
        &self,
        maps: &LayeredGridMap<u8>,
        ps: Seq<Position>,
        n: nat,
        i: int,
    )
        requires
            0 <= i < n,
            self.spec_total_cost(maps, ps, n) is Some,
        ensures
            maps.spec_layer(self.map_name_weight@[i].0@) is Some,
            match maps.spec_layer(self.map_name_weight@[i].0@) {
                Some(m) => spec_raw_cost(&m, ps) is Some,
                None => false,
            },
        decreases n,
    {
        if i < n - 1 {
            self.lemma_total_cost_layers(maps, ps, (n - 1) as nat, i);
        }
    }

    /// Every position of one layer's view of a trajectory is clear: it
    /// lies on the raster and on a cell that stores a value — never an
    /// Obstacle cell, never an Uninitialized one.
    pub open spec fn spec_layer_path_clear(
        &self,
        maps: &LayeredGridMap<u8>,
        ps: Seq<Position>,
        i: int,
    ) -> bool {
        match maps.spec_layer(self.map_name_weight@[i].0@) {
            Some(m) => forall|t: int|
                0 <= t < ps.len() ==> !spec_position_disqualified(&m, #[trigger] ps[t]),
            None => false,
        }
    }

    /// Obstacle avoidance: whenever the planner selects a candidate (the
    /// best index is not -1), the selected trajectory's projected
    /// positions are clear in every weighted layer — in particular the
    /// path never passes through an Obstacle cell of a weighted layer.
    pub proof fn lemma_selected_plan_avoids_obstacles(
        &self,
        maps: &LayeredGridMap<u8>,
        start: Pose,
        cv: Velocity,
    )
        requires
            self.spec_best_index(maps, start, cv, self.spec_sample_count() as nat) >= 0,
        ensures
            ({
                let best = self.spec_best_index(maps, start, cv, self.spec_sample_count() as nat);
                let ps = spec_positions_of(
                    self.spec_candidate_path(start, self.spec_sample_at(cv, best)),
                );
                forall|i: int|
                    0 <= i < self.map_name_weight@.len()
                        ==> #[trigger] self.spec_layer_path_clear(maps, ps, i)
            }),
    {
        let best = self.spec_best_index(maps, start, cv, self.spec_sample_count() as nat);
        let ps = spec_positions_of(self.spec_candidate_path(start, self.spec_sample_at(cv, best)));
        self.lemma_best_index_finite(maps, start, cv, self.spec_sample_count() as nat);
        assert forall|i: int|
            0 <= i < self.map_name_weight@.len()
                implies #[trigger] self.spec_layer_path_clear(maps, ps, i) by {
            self.lemma_total_cost_layers(maps, ps, self.map_name_weight@.len(), i);
            match maps.spec_layer(self.map_name_weight@[i].0@) {
                Some(m) => {
                    lemma_raw_cost_all_good(&m, ps);
                },
                None => {},
            }
        }
    }
}

/// Strict order on stored costs; infinity is larger than any sum.
pub open spec fn spec_cost_value_lt(a: Cost, b: Cost) -> bool {
    match (a, b) {
        (Cost::Finite(x), Cost::Finite(y)) => x < y,
        (Cost::Finite(_), Cost::Infinite) => true,
        _ => false,
    }
}

fn cost_lt(a: &Cost, b: &Cost) -> (r: bool)
    ensures
        r == spec_cost_value_lt(*a, *b),
{
    match (*a, *b) {
        (Cost::Finite(x), Cost::Finite(y)) => x < y,
        (Cost::Finite(_), Cost::Infinite) => true,
        _ => false,
    }
}

} // verus!
