//! The logic behind the desktop app's commands.
pub mod sparks;
pub mod specs;
pub mod validate;
pub mod plans;
pub mod marketplace;
