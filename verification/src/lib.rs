//! forja — verified core logic of the forja skills marketplace: frontmatter
//! splitting, spec/track/decision models, linting, project validation,
//! technology scanning and skill recommendation.

pub mod text;
pub mod error;
pub mod frontmatter;
pub mod models;
pub mod lint;
pub mod scanner;
pub mod tui;
pub mod paths;
pub mod analytics;
pub mod registry;
pub mod symlink;
pub mod spark;
pub mod desktop;
pub mod sorting;
pub mod seqs;
pub mod json;
