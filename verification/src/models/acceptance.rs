//! Acceptance criteria of a spec.
use vstd::prelude::*;

use crate::text::{owned, push_str};

verus! {

/// An acceptance criterion that can be either a simple string or a structured
/// object with an optional test command.
#[derive(Debug, Clone, PartialEq, Eq)]
pub enum AcceptanceCriterion {
    Simple(String),
    Structured { description: String, test: Option<String> },
}

/// The text that describes a criterion.
pub open spec fn criterion_description(c: AcceptanceCriterion) -> Seq<char> {
    match c {
        AcceptanceCriterion::Simple(s) => s@,
        AcceptanceCriterion::Structured { description, .. } => description@,
    }
}

/// How a criterion displays: its description, followed by ` (test: <cmd>)`
/// when it carries a test command.
pub open spec fn criterion_display(c: AcceptanceCriterion) -> Seq<char> {
    match c {
        AcceptanceCriterion::Simple(s) => s@,
        AcceptanceCriterion::Structured { description, test } => match test {
            Some(cmd) => description@ + " (test: "@ + cmd@ + ")"@,
            None => description@,
        },
    }
}

/// A criterion as plain values: whether it is a simple string, its
/// description, and its test command.
pub open spec fn criterion_view(c: AcceptanceCriterion) -> (bool, Seq<char>, Option<Seq<char>>) {
    match c {
        AcceptanceCriterion::Simple(s) => (true, s@, None),
        AcceptanceCriterion::Structured { description, test } => (
            false,
            description@,
            match test {
                Some(t) => Some(t@),
                None => None,
            },
        ),
    }
}

impl AcceptanceCriterion {
    /// An owned copy of the criterion.
    pub fn copied(&self) -> (r: AcceptanceCriterion)
        ensures
            criterion_view(r) == criterion_view(*self),
    {
        match self {
            AcceptanceCriterion::Simple(s) => AcceptanceCriterion::Simple(owned(s.as_str())),
            AcceptanceCriterion::Structured { description, test } => {
                let t = match test {
                    Some(x) => Some(owned(x.as_str())),
                    None => None,
                };
                AcceptanceCriterion::Structured { description: owned(description.as_str()), test: t }
            },
        }
    }

    /// The criterion's description.
    pub fn description(&self) -> (r: &str)
        ensures
            r@ == criterion_description(*self),
    {
        match self {
            AcceptanceCriterion::Simple(s) => s.as_str(),
            AcceptanceCriterion::Structured { description, .. } => description.as_str(),
        }
    }

    /// The criterion's test command, if it has one.
    pub fn test_command(&self) -> (r: Option<&str>)
        ensures
            match *self {
                AcceptanceCriterion::Simple(_) => r is None,
                AcceptanceCriterion::Structured { test, .. } => match test {
                    Some(t) => r matches Some(x) && x@ == t@,
                    None => r is None,
                },
            },
    {
        match self {
            AcceptanceCriterion::Simple(_) => None,
            AcceptanceCriterion::Structured { test, .. } => match test {
                Some(t) => Some(t.as_str()),
                None => None,
            },
        }
    }

    /// The criterion as it displays.
    pub fn to_display_string(&self) -> (r: String)
        ensures
            r@ == criterion_display(*self),
    {
        match self {
            AcceptanceCriterion::Simple(s) => s.clone(),
            AcceptanceCriterion::Structured { description, test } => {
                let mut r = description.clone();
                if let Some(cmd) = test {
                    push_str(&mut r, " (test: ");
                    push_str(&mut r, cmd.as_str());
                    push_str(&mut r, ")");
                }
                r
            },
        }
    }
}

} // verus!
