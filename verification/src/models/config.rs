//! forja's configuration.
use vstd::prelude::*;

use crate::text::owned;

verus! {

/// Where forja keeps its files: in the user's home, or in the project.
#[derive(Debug, Clone, Copy, PartialEq, Eq, Structural)]
pub enum ForjaMode {
    Global,
    Project,
}

/// The configuration version written by this release.
pub fn default_version() -> (r: u32)
    ensures
        r == 2,
{
    2
}

/// The mode of a configuration that names none.
pub fn default_mode() -> (r: ForjaMode)
    ensures
        r == ForjaMode::Global,
{
    ForjaMode::Global
}

/// The registry a configuration that names none uses.
pub fn default_registry_url() -> (r: String)
    ensures
        r@ == "https://github.com/dmend3z/forja.git"@,
{
    owned("https://github.com/dmend3z/forja.git")
}

/// Persisted forja configuration (`.forja/config.json`).
#[derive(Debug, Clone)]
pub struct ForjaConfig {
    pub version: u32,
    pub mode: ForjaMode,
    pub project_name: Option<String>,
    pub registry_url: String,
    pub local: bool,
}

impl ForjaConfig {
    /// A configuration of the current version. In project mode the project
    /// is named after the current directory (`current_dir_name`, `None`
    /// when it has no name); in global mode it has no name.
    pub fn new(
        mode: ForjaMode,
        registry_url: String,
        local: bool,
        current_dir_name: Option<String>,
    ) -> (r: ForjaConfig)
        ensures
            r.version == 2,
            r.mode == mode,
            r.registry_url == registry_url,
            r.local == local,
            r.project_name == if mode == ForjaMode::Project {
                current_dir_name
            } else {
                None
            },
    {
        let project_name = if mode == ForjaMode::Project {
            current_dir_name
        } else {
            None
        };
        ForjaConfig { version: 2, mode, project_name, registry_url, local }
    }
}

} // verus!
