//! Configuration logic of the `rock` build tool: JSON rock files, environment
//! defaults, variable expansion and the clean plan.

pub mod text;
pub mod keyed;
pub mod json;
pub mod env;
pub mod pattern;
pub mod scalar;
pub mod resolve;
pub mod flags;
pub mod options;
pub mod envs;
pub mod paths;
pub mod clean;
pub mod rocks;
pub mod commands;
pub mod compile;
