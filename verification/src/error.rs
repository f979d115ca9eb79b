//! Error type shared by the forja models.
use vstd::prelude::*;

use crate::text::{decimal, decimal_string, owned, push_str};

verus! {

/// Errors raised by forja's parsing, lookup and validation logic.
#[derive(Debug, Clone, PartialEq, Eq)]
pub enum ForjaError {
    InvalidSpec(String),
    Yaml(String),
    Json(String),
    Io(String),
    InvalidArgument(String),
    SpecNotFound(String),
    PlanNotFound(String),
    NoPlansFound,
    Git(String),
    ScanError(String),
    ClaudeCliTimeout(u64),
    SkillNotFound(String),
    Dialoguer(String),
}

/// The human-readable message of an error.
pub open spec fn error_message(e: ForjaError) -> Seq<char> {
    match e {
        ForjaError::InvalidSpec(m) => "invalid spec: "@ + m@,
        ForjaError::Yaml(m) => "YAML error: "@ + m@,
        ForjaError::Json(m) => "JSON error: "@ + m@,
        ForjaError::Io(m) => "IO error: "@ + m@,
        ForjaError::InvalidArgument(m) => "invalid argument: "@ + m@,
        ForjaError::SpecNotFound(m) => "spec not found: "@ + m@,
        ForjaError::PlanNotFound(m) => "plan not found: "@ + m@,
        ForjaError::NoPlansFound => "no pending plans found"@,
        ForjaError::Git(m) => "git error: "@ + m@,
        ForjaError::ScanError(m) => "scan error: "@ + m@,
        ForjaError::ClaudeCliTimeout(secs) => "agent CLI timed out after "@ + decimal(
            secs as nat,
        ) + "s"@,
        ForjaError::SkillNotFound(m) => "skill not found: "@ + m@,
        ForjaError::Dialoguer(m) => "prompt error: "@ + m@,
    }
}

impl ForjaError {
    /// The error's message (what `Display` prints for it).
    pub fn message(&self) -> (r: String)
        ensures
            r@ == error_message(*self),
    {
        let (prefix, detail): (&str, &String) = match self {
            ForjaError::InvalidSpec(m) => ("invalid spec: ", m),
            ForjaError::Yaml(m) => ("YAML error: ", m),
            ForjaError::Json(m) => ("JSON error: ", m),
            ForjaError::Io(m) => ("IO error: ", m),
            ForjaError::InvalidArgument(m) => ("invalid argument: ", m),
            ForjaError::SpecNotFound(m) => ("spec not found: ", m),
            ForjaError::PlanNotFound(m) => ("plan not found: ", m),
            ForjaError::NoPlansFound => {
                return owned("no pending plans found");
            },
            ForjaError::Git(m) => ("git error: ", m),
            ForjaError::ScanError(m) => ("scan error: ", m),
            ForjaError::ClaudeCliTimeout(secs) => {
                let mut r = owned("agent CLI timed out after ");
                let d = decimal_string(*secs);
                push_str(&mut r, d.as_str());
                push_str(&mut r, "s");
                return r;
            },
            ForjaError::SkillNotFound(m) => ("skill not found: ", m),
            ForjaError::Dialoguer(m) => ("prompt error: ", m),
        };
        let mut r = owned(prefix);
        push_str(&mut r, detail.as_str());
        r
    }
}

} // verus!
