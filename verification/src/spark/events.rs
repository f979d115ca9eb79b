//! Chat events, spark events and spark errors.
use vstd::prelude::*;

use crate::text::{owned, push_str};

verus! {

/// Chat-level events parsed from the agent CLI's `--output-format stream-json` output.
#[derive(Debug, Clone)]
pub enum ChatEvent {
    MessageStart { id: String, role: String },
    TextDelta { index: usize, text: String },
    /// `input` is the tool input as JSON text.
    ToolUseStart { id: String, name: String, input: String },
    ToolResult { id: String, content: String },
    ContentBlockStop { index: usize },
    MessageStop,
    Error { message: String },
}

/// Lifecycle status of a spark (an agent CLI process).
#[derive(Debug, Clone, Copy, PartialEq, Eq, Structural)]
pub enum SparkStatus {
    Starting,
    Running,
    Idle,
    Stopped,
    Failed,
}

/// Spark-level events: chat events tagged with the spark they belong to.
#[derive(Debug, Clone)]
pub enum SparkEvent {
    StatusChanged { spark_id: String, status: SparkStatus },
    Chat { spark_id: String, event: ChatEvent },
}

/// Errors of spark processes.
#[derive(Debug, Clone, PartialEq, Eq)]
pub enum SparkError {
    CliNotFound,
    Process(String),
    Io(String),
    NoSession,
}

impl SparkError {
    /// The error's message (what `Display` prints for it).
    pub fn message(&self) -> (r: String)
        ensures
            r@ == match *self {
                SparkError::CliNotFound => "agent CLI not found — is it installed and in PATH?"@,
                SparkError::Process(m) => "process failed: "@ + m@,
                SparkError::Io(m) => "IO error: "@ + m@,
                SparkError::NoSession => "no active session — send a message first"@,
            },
    {
        match self {
            SparkError::CliNotFound => owned("agent CLI not found — is it installed and in PATH?"),
            SparkError::Process(m) => {
                let mut r = owned("process failed: ");
                push_str(&mut r, m.as_str());
                r
            },
            SparkError::Io(m) => {
                let mut r = owned("IO error: ");
                push_str(&mut r, m.as_str());
                r
            },
            SparkError::NoSession => owned("no active session — send a message first"),
        }
    }
}

} // verus!
