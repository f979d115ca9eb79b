//! Scanning a project for technologies and recommending skills for them.
pub mod models;
pub mod matcher;
pub mod deterministic;
pub mod ai;
