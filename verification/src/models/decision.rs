//! Architecture decision records.
use vstd::prelude::*;

use crate::error::ForjaError;
use crate::sorting::{
    char_codes, first_index, is_stable_sort, stable_sort_by_key, str_sort_key, take_first, Keyed,
    SortKey,
};
use crate::text::concat2;

verus! {

/// Lifecycle status of a decision.
#[derive(Debug, Clone, Copy, PartialEq, Eq)]
pub enum DecisionStatus {
    Proposed,
    Accepted,
    Deprecated,
    Superseded,
}

/// The lowercase name of a decision status.
pub open spec fn decision_status_name(s: DecisionStatus) -> Seq<char> {
    match s {
        DecisionStatus::Proposed => "proposed"@,
        DecisionStatus::Accepted => "accepted"@,
        DecisionStatus::Deprecated => "deprecated"@,
        DecisionStatus::Superseded => "superseded"@,
    }
}

impl DecisionStatus {
    /// The status's lowercase name.
    pub fn as_str(&self) -> (r: &'static str)
        ensures
            r@ == decision_status_name(*self),
    {
        match self {
            DecisionStatus::Proposed => "proposed",
            DecisionStatus::Accepted => "accepted",
            DecisionStatus::Deprecated => "deprecated",
            DecisionStatus::Superseded => "superseded",
        }
    }
}

/// The YAML frontmatter of a decision file.
#[derive(Debug, Clone)]
pub struct DecisionFrontmatter {
    pub id: String,
    pub title: String,
    pub status: DecisionStatus,
    pub date: String,
    pub related_specs: Vec<String>,
    pub superseded_by: Option<String>,
}

/// A parsed decision file: frontmatter and markdown body.
#[derive(Debug, Clone)]
pub struct DecisionFile {
    pub frontmatter: DecisionFrontmatter,
    pub body: String,
}

impl DecisionFile {
    /// The decision's id.
    pub fn id(&self) -> (r: &str)
        ensures
            r@ == self.frontmatter.id@,
    {
        self.frontmatter.id.as_str()
    }

    /// The decision's title.
    pub fn title(&self) -> (r: &str)
        ensures
            r@ == self.frontmatter.title@,
    {
        self.frontmatter.title.as_str()
    }
}

impl Keyed for DecisionFile {
    open spec fn key_of(&self) -> Seq<char> {
        self.frontmatter.id@
    }

    fn key_str(&self) -> (r: &str) {
        self.frontmatter.id.as_str()
    }
}

impl SortKey for DecisionFile {
    open spec fn key(&self) -> Seq<int> {
        char_codes(self.frontmatter.id@)
    }

    fn key_exec(&self) -> (k: Vec<u32>) {
        str_sort_key(self.frontmatter.id.as_str())
    }
}

/// The decisions of a directory sorted by id. `loaded` holds the decisions
/// parsed from its `.md` files (an empty list when the directory does not
/// exist), or the error met while listing it, which is passed on.
pub fn discover_decisions(loaded: Result<Vec<DecisionFile>, ForjaError>) -> (r: Result<
    Vec<DecisionFile>,
    ForjaError,
>)
    ensures
        match loaded {
            Err(e) => r == Err::<Vec<DecisionFile>, ForjaError>(e),
            Ok(found) => r is Ok && is_stable_sort(found@, r->Ok_0@),
        },
{
    match loaded {
        Err(e) => Err(e),
        Ok(found) => Ok(stable_sort_by_key(found)),
    }
}

/// What a lookup of `decision_id` among `decisions` yields: the first
/// decision with that id, or `InvalidArgument("decision not found: <id>")`.
pub open spec fn decision_lookup(
    decisions: Seq<DecisionFile>,
    decision_id: Seq<char>,
    r: Result<DecisionFile, ForjaError>,
) -> bool {
    match r {
        Ok(d) => exists|i: int|
            first_index(decisions, decision_id, Some(i as usize)) && 0 <= i < decisions.len()
                && decisions[i] == d,
        Err(e) => {
            &&& first_index(decisions, decision_id, None)
            &&& e is InvalidArgument
            &&& e->InvalidArgument_0@ == "decision not found: "@ + decision_id
        },
    }
}

/// Find a decision by id among the discovered decisions (the first match
/// wins); a discovery error is passed on.
pub fn find_decision(discovered: Result<Vec<DecisionFile>, ForjaError>, decision_id: &str) -> (r:
    Result<DecisionFile, ForjaError>)
    ensures
        match discovered {
            Err(e) => r == Err::<DecisionFile, ForjaError>(e),
            Ok(decisions) => decision_lookup(decisions@, decision_id@, r),
        },
{
    match discovered {
        Err(e) => Err(e),
        Ok(decisions) => match take_first(decisions, decision_id) {
            Some(d) => Ok(d),
            None => Err(ForjaError::InvalidArgument(concat2("decision not found: ", decision_id))),
        },
    }
}

} // verus!
