//! Logs of agent runs against specs.
use vstd::prelude::*;

use crate::error::ForjaError;
use crate::text::{owned, push_str};
use crate::sorting::{desc_codes, is_stable_sort, stable_sort_by_key, str_desc_key, SortKey};

verus! {

/// Status of an agent run.
#[derive(Debug, Clone, Copy, PartialEq, Eq)]
pub enum RunStatus {
    Running,
    Complete,
    Failed,
}

/// The lowercase name of a run status.
pub open spec fn run_status_name(s: RunStatus) -> Seq<char> {
    match s {
        RunStatus::Running => "running"@,
        RunStatus::Complete => "complete"@,
        RunStatus::Failed => "failed"@,
    }
}

impl RunStatus {
    /// The status's lowercase name.
    pub fn as_str(&self) -> (r: &'static str)
        ensures
            r@ == run_status_name(*self),
    {
        match self {
            RunStatus::Running => "running",
            RunStatus::Complete => "complete",
            RunStatus::Failed => "failed",
        }
    }
}

/// The YAML frontmatter of a run log.
#[derive(Debug, Clone)]
pub struct RunLogFrontmatter {
    pub spec_id: String,
    pub plan_id: Option<String>,
    pub agent: String,
    pub status: RunStatus,
    pub started_at: String,
    pub completed_at: Option<String>,
    pub duration_seconds: Option<u64>,
    pub exit_code: Option<i32>,
}

/// A parsed run log; `filename` is the file's stem, not part of the frontmatter.
#[derive(Debug, Clone)]
pub struct RunLog {
    pub frontmatter: RunLogFrontmatter,
    pub body: String,
    pub filename: String,
}

impl RunLog {
    /// The id of the spec the run worked on.
    pub fn spec_id(&self) -> (r: &str)
        ensures
            r@ == self.frontmatter.spec_id@,
    {
        self.frontmatter.spec_id.as_str()
    }
}

impl SortKey for RunLog {
    open spec fn key(&self) -> Seq<int> {
        desc_codes(self.filename@)
    }

    fn key_exec(&self) -> (k: Vec<u32>) {
        str_desc_key(self.filename.as_str())
    }
}

/// The runs of a directory, newest first: sorted by filename in descending
/// order (filenames start with a timestamp). `loaded` holds the runs parsed
/// from its `.md` files (an empty list when the directory does not exist),
/// or the error met while listing it, which is passed on.
pub fn discover_runs(loaded: Result<Vec<RunLog>, ForjaError>) -> (r: Result<
    Vec<RunLog>,
    ForjaError,
>)
    ensures
        match loaded {
            Err(e) => r == Err::<Vec<RunLog>, ForjaError>(e),
            Ok(found) => r is Ok && is_stable_sort(found@, r->Ok_0@),
        },
{
    match loaded {
        Err(e) => Err(e),
        Ok(found) => Ok(stable_sort_by_key(found)),
    }
}

/// The file name of a new run log: `run-<stamp>-<spec id>.md`, where
/// `stamp` is the start time as `YYYYMMDD-HHMMSS`.
pub open spec fn run_log_name(stamp: Seq<char>, spec_id: Seq<char>) -> Seq<char> {
    "run-"@ + stamp + "-"@ + spec_id + ".md"@
}

/// The content of a new run log: its frontmatter, with the plan line only
/// when there is a plan, status `running` and the quoted start time.
pub open spec fn run_log_text(
    spec_id: Seq<char>,
    plan_id: Option<Seq<char>>,
    agent: Seq<char>,
    started_at: Seq<char>,
) -> Seq<char> {
    let plan_line = match plan_id {
        Some(id) => "plan_id: "@ + id + "\n"@,
        None => Seq::empty(),
    };
    "---\nspec_id: "@ + spec_id + "\n"@ + plan_line + "agent: "@ + agent
        + "\nstatus: running\nstarted_at: \""@ + started_at + "\"\n---\n"@
}

/// The file name and content of a new run log, started at the time that
/// `stamp` (`YYYYMMDD-HHMMSS`) and `started_at` (RFC 3339) both give.
pub fn run_log_file(spec_id: &str, plan_id: Option<&str>, agent: &str, stamp: &str, started_at: &str) -> (r: (
    String,
    String,
))
    ensures
        r.0@ == run_log_name(stamp@, spec_id@),
        r.1@ == run_log_text(
            spec_id@,
            match plan_id {
                Some(id) => Some(id@),
                None => None,
            },
            agent@,
            started_at@,
        ),
{
    let mut name = owned("run-");
    push_str(&mut name, stamp);
    push_str(&mut name, "-");
    push_str(&mut name, spec_id);
    push_str(&mut name, ".md");
    let mut text = owned("---\nspec_id: ");
    push_str(&mut text, spec_id);
    push_str(&mut text, "\n");
    match plan_id {
        Some(id) => {
            push_str(&mut text, "plan_id: ");
            push_str(&mut text, id);
            push_str(&mut text, "\n");
        },
        None => {},
    }
    push_str(&mut text, "agent: ");
    push_str(&mut text, agent);
    push_str(&mut text, "\nstatus: running\nstarted_at: \"");
    push_str(&mut text, started_at);
    push_str(&mut text, "\"\n---\n");
    (name, text)
}

/// The signed whole seconds from `started` to `now`, both RFC 3339 times, as
/// `chrono` computes them; `None` when either does not parse.
pub uninterp spec fn rfc3339_seconds_between(started: Seq<char>, now: Seq<char>) -> Option<i64>;

/// Parse both times with `chrono::DateTime::parse_from_rfc3339` and take
/// `num_seconds` of `now.signed_duration_since(started)`; the contract names
/// the result `rfc3339_seconds_between(started, now)`.
#[verifier::external_body]
fn seconds_between(started: &str, now: &str) -> (r: Option<i64>)
    ensures
        r == rfc3339_seconds_between(started@, now@),
{
    match (chrono::DateTime::parse_from_rfc3339(started), chrono::DateTime::parse_from_rfc3339(now)) {
        (Ok(s), Ok(n)) => Some(n.signed_duration_since(s).num_seconds()),
        _ => None,
    }
}

/// The size of a signed number of seconds, without its sign.
pub open spec fn magnitude(d: i64) -> u64 {
    if d >= 0 {
        d as u64
    } else {
        (-d) as u64
    }
}

/// The size of `d` without its sign (defined for every `i64`, `i64::MIN`
/// included).
pub fn unsigned_magnitude(d: i64) -> (r: u64)
    ensures
        r == magnitude(d),
        r as int == (if d >= 0 { d as int } else { -d }),
{
    if d >= 0 {
        d as u64
    } else {
        (0i128 - (d as i128)) as u64
    }
}

/// Record in a run's frontmatter how it ended at `now` (RFC 3339): its
/// status, completion time and exit code, and the seconds since it started
/// when its start time parses (else the duration stays as it was).
pub fn complete_run(fm: &mut RunLogFrontmatter, status: RunStatus, exit_code: Option<i32>, now: String)
    ensures
        final(fm).spec_id == old(fm).spec_id,
        final(fm).plan_id == old(fm).plan_id,
        final(fm).agent == old(fm).agent,
        final(fm).started_at == old(fm).started_at,
        final(fm).status == status,
        final(fm).completed_at == Some(now),
        final(fm).exit_code == exit_code,
        final(fm).duration_seconds == match rfc3339_seconds_between(old(fm).started_at@, now@) {
            Some(d) => Some(magnitude(d)),
            None => old(fm).duration_seconds,
        },
{
    let elapsed = seconds_between(fm.started_at.as_str(), now.as_str());
    fm.status = status;
    fm.completed_at = Some(now);
    fm.exit_code = exit_code;
    if let Some(d) = elapsed {
        fm.duration_seconds = Some(unsigned_magnitude(d));
    }
}

} // verus!
