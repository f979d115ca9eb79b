//! forja's persistent state: installed skills and configured teams.
use vstd::prelude::*;

use std::collections::HashMap;

verus! {

/// A configured multi-agent team: its members and model profile.
#[derive(Debug, Clone)]
pub struct TeamEntry {
    pub members: Vec<TeamMember>,
    pub profile: String,
}

/// An agent of a team: the skill it runs, its name and model.
#[derive(Debug, Clone)]
pub struct TeamMember {
    pub skill_id: String,
    pub agent_name: String,
    pub model: String,
}

/// Persistent state (`~/.forja/state.json`): installed skills and teams.
#[derive(Debug)]
pub struct ForjaState {
    pub version: u32,
    pub installed: Vec<String>,
    pub teams: HashMap<String, TeamEntry>,
    pub active_profile: Option<String>,
}

impl ForjaState {
    /// An empty state of the current version.
    pub fn new() -> (r: ForjaState)
        ensures
            r.version == 2,
            r.installed@.len() == 0,
            r.teams@ == Map::<String, TeamEntry>::empty(),
            r.active_profile is None,
    {
        ForjaState {
            version: 2,
            installed: Vec::new(),
            teams: HashMap::new(),
            active_profile: None,
        }
    }

    /// The state of an old state file that held only the installed ids.
    pub fn from_installed(ids: Vec<String>) -> (r: ForjaState)
        ensures
            r.version == 2,
            r.installed@ == ids@,
            r.teams@ == Map::<String, TeamEntry>::empty(),
            r.active_profile is None,
    {
        ForjaState {
            version: 2,
            installed: ids,
            teams: HashMap::new(),
            active_profile: None,
        }
    }
}

impl Default for ForjaState {
    fn default() -> (r: ForjaState)
        ensures
            r.version == 2,
            r.installed@.len() == 0,
            r.teams@ == Map::<String, TeamEntry>::empty(),
            r.active_profile is None,
    {
        ForjaState::new()
    }
}

/// The state that a `state.json` holds, from its two parses: the
/// current-format state when the text parses as one; else the state of the
/// old format, a plain list of installed ids; else (also when the file
/// cannot be read, where both are `None`) a new empty state.
pub fn state_from_parses(current: Option<ForjaState>, legacy: Option<Vec<String>>) -> (r: ForjaState)
    ensures
        match current {
            Some(s) => r == s,
            None => {
                &&& r.version == 2
                &&& r.installed@ == match legacy {
                    Some(ids) => ids@,
                    None => Seq::<String>::empty(),
                }
                &&& r.teams@ == Map::<String, TeamEntry>::empty()
                &&& r.active_profile is None
            },
        },
{
    match current {
        Some(s) => s,
        None => match legacy {
            Some(ids) => ForjaState::from_installed(ids),
            None => {
                let r = ForjaState::new();
                assert(r.installed@ =~= Seq::<String>::empty());
                r
            },
        },
    }
}

} // verus!
