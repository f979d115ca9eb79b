//! Results of linting a skill directory.
use vstd::prelude::*;

verus! {

/// Severity level for lint issues.
#[derive(Debug, Clone, Copy, PartialEq, Eq)]
pub enum LintLevel {
    Error,
    Warning,
}

/// A single lint issue found during validation.
#[derive(Debug, Clone)]
pub struct LintIssue {
    pub level: LintLevel,
    pub rule: String,
    pub message: String,
}

/// Result of linting a single skill directory.
#[derive(Debug, Clone)]
pub struct LintResult {
    pub skill_path: String,
    pub skill_id: String,
    pub issues: Vec<LintIssue>,
}

/// The number of issues in `s` at level `l`.
pub open spec fn count_level(s: Seq<LintIssue>, l: LintLevel) -> nat
    decreases s.len(),
{
    if s.len() == 0 {
        0
    } else {
        count_level(s.drop_last(), l) + if s.last().level == l {
            1nat
        } else {
            0nat
        }
    }
}

/// Every issue is an error or a warning: the two counts add up to the
/// number of issues.
pub proof fn lemma_counts_cover(s: Seq<LintIssue>)
    ensures
        count_level(s, LintLevel::Error) + count_level(s, LintLevel::Warning) == s.len(),
    decreases s.len(),
{
    if s.len() > 0 {
        lemma_counts_cover(s.drop_last());
    }
}

impl LintLevel {
    /// The level's lowercase name, as it displays.
    pub fn as_str(&self) -> (r: &'static str)
        ensures
            r@ == match *self {
                LintLevel::Error => "error"@,
                LintLevel::Warning => "warning"@,
            },
    {
        match self {
            LintLevel::Error => "error",
            LintLevel::Warning => "warning",
        }
    }
}

fn is_level(a: LintLevel, b: LintLevel) -> (r: bool)
    ensures
        r == (a == b),
{
    match (a, b) {
        (LintLevel::Error, LintLevel::Error) => true,
        (LintLevel::Warning, LintLevel::Warning) => true,
        _ => false,
    }
}

fn count_issues(issues: &Vec<LintIssue>, l: LintLevel) -> (n: usize)
    ensures
        n == count_level(issues@, l),
{
    let mut n: usize = 0;
    let mut i: usize = 0;
    while i < issues.len()
        invariant
            i <= issues.len(),
            n == count_level(issues@.take(i as int), l),
            n <= i,
        decreases issues.len() - i,
    {
        assert(issues@.take(i + 1).drop_last() =~= issues@.take(i as int));
        if is_level(issues[i].level, l) {
            n = n + 1;
        }
        i = i + 1;
    }
    assert(issues@.take(i as int) =~= issues@);
    n
}

impl LintResult {
    /// Whether any issue is an error.
    pub fn has_errors(&self) -> (r: bool)
        ensures
            r == (count_level(self.issues@, LintLevel::Error) > 0),
    {
        count_issues(&self.issues, LintLevel::Error) > 0
    }

    /// The number of error issues.
    pub fn error_count(&self) -> (r: usize)
        ensures
            r == count_level(self.issues@, LintLevel::Error),
    {
        count_issues(&self.issues, LintLevel::Error)
    }

    /// The number of warning issues.
    pub fn warning_count(&self) -> (r: usize)
        ensures
            r == count_level(self.issues@, LintLevel::Warning),
    {
        count_issues(&self.issues, LintLevel::Warning)
    }
}

} // verus!
