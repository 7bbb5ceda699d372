//! Procedural "pipes" growth simulation: pipes grow step by step through a
//! bounded voxel grid, never touching an occupied cell, until they are boxed
//! in or randomly terminated. The world schedules a population of pipes
//! through a growth phase followed by a freeze phase.

pub mod config;
pub mod error;
pub mod node_struct;
pub mod occupancy;
pub mod pipe;
pub mod rng;
pub mod scheduler;
pub mod util;
pub mod world;
