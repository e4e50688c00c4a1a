//! Core of a local motion planner for a wheeled robot on a 2D occupancy
//! plane: a layered grid-map representation, wavefront distance-field
//! builders, and a Dynamic Window Approach planner.
//!
//! All world quantities (meters, seconds, radians, and their rates) are
//! fixed-point integers in units of one thousandth (`SCALE`): a position
//! of `1500` is 1.5 m, a velocity of `250` is 0.25 m/s, an angle of
//! `3142` is about pi radians. Weights use the same scale.

mod distance_map;
mod dwa_planner;
mod fixed;
mod geometry;
mod grid_map;
mod layered_grid_map;

pub use distance_map::{goal_distance_map, obstacle_distance_map, path_distance_map};
pub use dwa_planner::{Acceleration, Cost, DwaPlanner, Limits, Plan, Velocity};
pub use fixed::{cos_fp, sin_fp, spec_cos_fp, spec_sin_fp};
pub use geometry::{Indices, Pose, Position, SCALE};
pub use grid_map::{Cell, GridMap, GridMapError, COORD_LIMIT};
pub use layered_grid_map::LayeredGridMap;
