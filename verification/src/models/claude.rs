//! Files of the coding agent's teams, inboxes and tasks, as forja reads them.
use vstd::prelude::*;

verus! {

/// A team config of the coding agent (`teams/<name>/config.json` in its home directory).
#[derive(Debug, Clone)]
pub struct ClaudeTeamConfig {
    pub name: String,
    pub description: String,
    pub created_at: u64,
    pub lead_agent_id: String,
    pub lead_session_id: String,
    pub members: Vec<ClaudeTeamMember>,
}

/// A member of a team of the coding agent.
#[derive(Debug, Clone)]
pub struct ClaudeTeamMember {
    pub agent_id: String,
    pub name: String,
    pub agent_type: String,
    pub model: String,
    pub color: String,
    pub joined_at: u64,
    pub prompt: String,
}

/// A message of a team inbox (`teams/<name>/inboxes/<member>.json` in the
/// agent's home directory holds a JSON array of them).
#[derive(Debug, Clone)]
pub struct ClaudeInboxMessage {
    pub from: String,
    pub text: String,
    pub timestamp: String,
    pub color: String,
    pub read: bool,
}

/// A task of the coding agent (`tasks/<team-id>/<n>.json` in its home directory).
#[derive(Debug, Clone)]
pub struct ClaudeTask {
    pub id: String,
    pub subject: String,
    pub description: String,
    pub active_form: String,
    pub status: String,
    pub owner: String,
    pub blocks: Vec<String>,
    pub blocked_by: Vec<String>,
}

} // verus!
