//! Data models of forja projects: specs, tracks, decisions, plans, runs and more.

pub mod phase;
pub mod acceptance;
pub mod lint;
pub mod decision;
pub mod run_log;
pub mod vision;
pub mod track;
pub mod spec;
pub mod validate;
pub mod context_gen;
pub mod skill;
pub mod plan;
pub mod config;
pub mod state;
pub mod claude;
