//! The product vision document.
use vstd::prelude::*;

verus! {

/// The technologies a project is built with.
#[derive(Debug, Clone)]
pub struct TechStack {
    pub language: Option<String>,
    pub framework: Option<String>,
    pub database: Option<String>,
    pub hosting: Option<String>,
}

/// The YAML frontmatter of the vision document.
#[derive(Debug, Clone)]
pub struct VisionFrontmatter {
    pub project: String,
    pub description: String,
    pub version: Option<String>,
    pub tech_stack: Option<TechStack>,
    pub principles: Vec<String>,
    pub target_users: Vec<String>,
    pub success_metrics: Vec<String>,
}

/// A parsed vision document.
#[derive(Debug, Clone)]
pub struct VisionFile {
    pub frontmatter: VisionFrontmatter,
    pub body: String,
}

impl VisionFile {
    /// The project's name.
    pub fn project(&self) -> (r: &str)
        ensures
            r@ == self.frontmatter.project@,
    {
        self.frontmatter.project.as_str()
    }

    /// The project's one-line description.
    pub fn description(&self) -> (r: &str)
        ensures
            r@ == self.frontmatter.description@,
    {
        self.frontmatter.description.as_str()
    }
}

} // verus!
