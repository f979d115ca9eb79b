//! The skills registry: its catalog and the changes between two revisions.
pub mod catalog;

pub mod diff;
