//! Turn-resolution engine for a turn-based object-stacking game.
//!
//! The library owns the game's logic: the stack of objects on a stage, the
//! per-turn convergence decision (success, toppling failure, or timeout),
//! scoring, spawn placement, input parsing, and the per-channel session
//! registry with its single-flight turn guard and idle reaping. Geometry is
//! carried in fixed-point integers: positions in milli-pixels, rotations as
//! unit-vector components in millionths, vertex heights in nano-pixels.
//!
//! Physics integration and image rendering are external capabilities: the
//! engine hands out placement commands and consumes per-step body samples,
//! so the decisions here are verified for every outcome the physics can
//! report.

pub mod geometry;
pub mod input;
pub mod profile;
pub mod render_plan;
pub mod session;
pub mod stage;

pub use geometry::Point;
pub use geometry::RotPair;
pub use geometry::Shape;
