//! Sparks launched from the desktop app: their records, the agent CLI
//! command line, and how a finished or stopped process updates them.
use vstd::prelude::*;

use crate::seqs::{contains_str, strs};
use crate::sorting::{desc_codes, is_stable_sort, stable_sort_by_key, str_desc_key, SortKey};
use crate::spark::events::SparkStatus;
use crate::text::{concat2, owned, push_str, str_eq};

verus! {

/// What kind of work a spark does.
#[derive(Debug, Clone, Copy, PartialEq, Eq, Structural)]
pub enum SparkType {
    Task,
    QuickFix,
    Plan,
}

/// The record of a spark.
#[derive(Debug, Clone)]
pub struct SparkInfo {
    pub id: String,
    pub project_id: String,
    pub spark_type: SparkType,
    pub description: String,
    pub status: SparkStatus,
    pub created_at: String,
    pub finished_at: Option<String>,
    pub output: Option<String>,
    pub error: Option<String>,
}

/// The part of the quick-fix prompt before the task.
pub open spec fn quickfix_head() -> Seq<char> {
    "Execute this as a quick fix.\n## Task\n"@
}

/// The part of the quick-fix prompt after the task.
pub open spec fn quickfix_tail() -> Seq<char> {
    "\n## Rules\n- Read the project's agent instructions before starting\n- Make minimal, focused changes\n- Run tests if available\n- Commit with a descriptive message"@
}

/// The prompt of a quick fix: the task between fixed instructions.
pub fn build_quickfix_prompt(description: &str) -> (r: String)
    ensures
        r@ == quickfix_head() + description@ + quickfix_tail(),
{
    let mut r = owned("Execute this as a quick fix.\n## Task\n");
    push_str(&mut r, description);
    push_str(
        &mut r,
        "\n## Rules\n- Read the project's agent instructions before starting\n- Make minimal, focused changes\n- Run tests if available\n- Commit with a descriptive message",
    );
    r
}

/// The prompt a spark of this type sends for `description`.
pub open spec fn spark_prompt(spark_type: SparkType, description: Seq<char>) -> Seq<char> {
    match spark_type {
        SparkType::Task => description,
        SparkType::Plan => "Create a detailed implementation plan for: "@ + description,
        SparkType::QuickFix => quickfix_head() + description + quickfix_tail(),
    }
}

/// The arguments of the agent CLI command of a spark: skip permission
/// prompts, print, then the prompt after `--`.
pub fn build_cli_args(spark_type: SparkType, description: &str) -> (r: Vec<String>)
    ensures
        r@.map_values(|a: String| a@) == seq![
            "--dangerously-skip-permissions"@,
            "--print"@,
            "--"@,
            spark_prompt(spark_type, description@),
        ],
{
    let prompt = match spark_type {
        SparkType::Task => owned(description),
        SparkType::Plan => concat2("Create a detailed implementation plan for: ", description),
        SparkType::QuickFix => build_quickfix_prompt(description),
    };
    let mut r: Vec<String> = Vec::new();
    r.push(owned("--dangerously-skip-permissions"));
    r.push(owned("--print"));
    r.push(owned("--"));
    r.push(prompt);
    assert(r@.map_values(|a: String| a@) =~= seq![
        "--dangerously-skip-permissions"@,
        "--print"@,
        "--"@,
        spark_prompt(spark_type, description@),
    ]);
    r
}

/// Whether a spark is over: stopped or failed.
pub fn is_terminal(status: SparkStatus) -> (r: bool)
    ensures
        r == (status == SparkStatus::Stopped || status == SparkStatus::Failed),
{
    matches!(status, SparkStatus::Stopped | SparkStatus::Failed)
}

/// The record of a spark just started: starting, nothing finished yet.
pub fn new_spark(
    id: String,
    project_id: String,
    spark_type: SparkType,
    description: String,
    created_at: String,
) -> (r: SparkInfo)
    ensures
        r.id == id,
        r.project_id == project_id,
        r.spark_type == spark_type,
        r.description == description,
        r.status == SparkStatus::Starting,
        r.created_at == created_at,
        r.finished_at is None,
        r.output is None,
        r.error is None,
{
    SparkInfo {
        id,
        project_id,
        spark_type,
        description,
        status: SparkStatus::Starting,
        created_at,
        finished_at: None,
        output: None,
        error: None,
    }
}

/// How the agent CLI process of a spark ended.
#[derive(Debug, Clone)]
pub enum ProcessOutcome {
    /// It ran to completion, successfully or not, with this output.
    Exited { success: bool, stdout: String, stderr: String },
    /// It could not be waited for; the message says why.
    Error(String),
}

/// Record how a spark's process ended at `finished_at`, and say whether the
/// spark changed. Only a running spark changes (one stopped meanwhile keeps
/// its state, and nothing is to be saved): on success it is
/// stopped with its output (none when empty); on failure it fails with the
/// error output (or the standard output when there is none); when the
/// process could not be waited for it fails with that message.
pub fn finish_spark(spark: &mut SparkInfo, finished_at: String, outcome: ProcessOutcome) -> (changed: bool)
    ensures
        changed == (old(spark).status == SparkStatus::Running),
        old(spark).status != SparkStatus::Running ==> *final(spark) == *old(spark),
        old(spark).status == SparkStatus::Running ==> {
            &&& final(spark).id == old(spark).id
            &&& final(spark).project_id == old(spark).project_id
            &&& final(spark).spark_type == old(spark).spark_type
            &&& final(spark).description == old(spark).description
            &&& final(spark).created_at == old(spark).created_at
            &&& final(spark).finished_at == Some(finished_at)
            &&& match outcome {
                ProcessOutcome::Exited { success, stdout, stderr } => if success {
                    &&& final(spark).status == SparkStatus::Stopped
                    &&& final(spark).output == if stdout@.len() == 0 {
                        None
                    } else {
                        Some(stdout)
                    }
                    &&& final(spark).error == old(spark).error
                } else {
                    &&& final(spark).status == SparkStatus::Failed
                    &&& final(spark).error == Some(if stderr@.len() == 0 { stdout } else { stderr })
                    &&& final(spark).output == old(spark).output
                },
                ProcessOutcome::Error(m) => {
                    &&& final(spark).status == SparkStatus::Failed
                    &&& final(spark).error is Some
                    &&& final(spark).error->0@ == "Failed to run the agent CLI: "@ + m@
                    &&& final(spark).output == old(spark).output
                },
            }
        },
{
    if spark.status != SparkStatus::Running {
        return false;
    }
    spark.finished_at = Some(finished_at);
    match outcome {
        ProcessOutcome::Exited { success, stdout, stderr } => {
            if success {
                spark.status = SparkStatus::Stopped;
                spark.output = if stdout.as_str().is_empty() {
                    None
                } else {
                    Some(stdout)
                };
            } else {
                spark.status = SparkStatus::Failed;
                spark.error = Some(if stderr.as_str().is_empty() {
                    stdout
                } else {
                    stderr
                });
            }
        },
        ProcessOutcome::Error(m) => {
            spark.status = SparkStatus::Failed;
            spark.error = Some(concat2("Failed to run the agent CLI: ", m.as_str()));
        },
    }
    true
}

/// Stop a spark at `finished_at`.
pub fn stop_spark(spark: &mut SparkInfo, finished_at: String)
    ensures
        final(spark).status == SparkStatus::Stopped,
        final(spark).finished_at == Some(finished_at),
        final(spark).id == old(spark).id,
        final(spark).project_id == old(spark).project_id,
        final(spark).spark_type == old(spark).spark_type,
        final(spark).description == old(spark).description,
        final(spark).created_at == old(spark).created_at,
        final(spark).output == old(spark).output,
        final(spark).error == old(spark).error,
{
    spark.status = SparkStatus::Stopped;
    spark.finished_at = Some(finished_at);
}

impl SortKey for SparkInfo {
    /// Newest first: by creation time, descending.
    open spec fn key(&self) -> Seq<int> {
        desc_codes(self.created_at@)
    }

    fn key_exec(&self) -> (k: Vec<u32>) {
        str_desc_key(self.created_at.as_str())
    }
}

/// The sparks of `project_id` that are over, in order: what is persisted.
pub open spec fn terminal_of(sparks: Seq<SparkInfo>, project_id: Seq<char>) -> Seq<SparkInfo> {
    crate::seqs::flat_map(
        sparks,
        |s: SparkInfo|
            if s.project_id@ == project_id && (s.status == SparkStatus::Stopped || s.status
                == SparkStatus::Failed) {
                seq![s]
            } else {
                Seq::empty()
            },
    )
}

/// The sparks to persist for a project: those of the project that are over
/// (stopped or failed), in order.
pub fn terminal_sparks(sparks: Vec<SparkInfo>, project_id: &str) -> (r: Vec<SparkInfo>)
    ensures
        r@ == terminal_of(sparks@, project_id@),
{
    let ghost f = |s: SparkInfo|
        if s.project_id@ == project_id@ && (s.status == SparkStatus::Stopped || s.status
            == SparkStatus::Failed) {
            seq![s]
        } else {
            Seq::empty()
        };
    let ghost s0 = sparks@;
    let mut rest = sparks;
    let n = rest.len();
    let mut r: Vec<SparkInfo> = Vec::new();
    let mut i: usize = 0;
    assert(s0.skip(0) =~= s0);
    while rest.len() > 0
        invariant
            i <= n,
            n == s0.len(),
            rest@ == s0.skip(i as int),
            f == (|s: SparkInfo|
                if s.project_id@ == project_id@ && (s.status == SparkStatus::Stopped || s.status
                    == SparkStatus::Failed) {
                    seq![s]
                } else {
                    Seq::empty()
                }),
            r@ == crate::seqs::flat_map(s0.take(i as int), f),
        decreases rest.len(),
    {
        assert(rest@.len() == n - i);
        assert(rest@[0] == s0[i as int]);
        let s = rest.remove(0);
        assert(s0.skip(i + 1) =~= s0.skip(i as int).drop_first());
        proof {
            crate::seqs::lemma_flat_map_take(s0, f, i as int);
        }
        let ghost before = r@;
        if str_eq(s.project_id.as_str(), project_id) && is_terminal(s.status) {
            r.push(s);
            assert(r@ =~= before + seq![s]);
        } else {
            assert(before + Seq::<SparkInfo>::empty() =~= before);
        }
        i = i + 1;
    }
    proof {
        crate::seqs::lemma_flat_map_full(s0, f);
    }
    assert(s0.take(i as int) =~= s0);
    r
}

/// The sparks of `project_id` held in memory, followed by those persisted
/// on disk that are not in memory.
pub open spec fn merged_sparks(memory: Seq<SparkInfo>, disk: Seq<SparkInfo>, project_id: Seq<char>) -> Seq<
    SparkInfo,
> {
    let mine = crate::seqs::flat_map(
        memory,
        |s: SparkInfo|
            if s.project_id@ == project_id {
                seq![s]
            } else {
                Seq::empty()
            },
    );
    let ids = mine.map_values(|s: SparkInfo| s.id@);
    mine + crate::seqs::flat_map(
        disk,
        |s: SparkInfo|
            if ids.contains(s.id@) {
                Seq::empty()
            } else {
                seq![s]
            },
    )
}

/// The sparks of a project, newest first: those in memory and those on
/// disk that are not in memory, stably sorted by creation time, descending.
pub fn list_sparks(memory: Vec<SparkInfo>, disk: Vec<SparkInfo>, project_id: &str) -> (r: Vec<
    SparkInfo,
>)
    ensures
        is_stable_sort(merged_sparks(memory@, disk@, project_id@), r@),
{
    let ghost fm = |s: SparkInfo|
        if s.project_id@ == project_id@ {
            seq![s]
        } else {
            Seq::empty()
        };
    let ghost m0 = memory@;
    let mut mine: Vec<SparkInfo> = Vec::new();
    let mut memory = memory;
    let n = memory.len();
    let mut i: usize = 0;
    assert(m0.skip(0) =~= m0);
    while memory.len() > 0
        invariant
            i <= n,
            n == m0.len(),
            memory@ == m0.skip(i as int),
            fm == (|s: SparkInfo|
                if s.project_id@ == project_id@ {
                    seq![s]
                } else {
                    Seq::empty()
                }),
            mine@ == crate::seqs::flat_map(m0.take(i as int), fm),
        decreases memory.len(),
    {
        proof {
            crate::seqs::lemma_flat_map_take(m0, fm, i as int);
        }
        assert(memory@.len() == n - i);
        assert(memory@[0] == m0[i as int]);
        let s = memory.remove(0);
        assert(m0.skip(i + 1) =~= m0.skip(i as int).drop_first());
        let ghost before = mine@;
        if str_eq(s.project_id.as_str(), project_id) {
            mine.push(s);
            assert(mine@ =~= before + seq![s]);
        } else {
            assert(mine@ =~= before + Seq::<SparkInfo>::empty());
        }
        i = i + 1;
    }
    proof {
        crate::seqs::lemma_flat_map_full(m0, fm);
    }
    let mut ids: Vec<&str> = Vec::new();
    let mut k: usize = 0;
    while k < mine.len()
        invariant
            k <= mine@.len(),
            strs(ids@) == mine@.take(k as int).map_values(|s: SparkInfo| s.id@),
        decreases mine.len() - k,
    {
        let ghost prev = ids@;
        ids.push(mine[k].id.as_str());
        assert(strs(ids@) =~= strs(prev).push(mine@[k as int].id@));
        assert(mine@.take(k + 1).map_values(|s: SparkInfo| s.id@) =~= mine@.take(k as int).map_values(
            |s: SparkInfo| s.id@,
        ).push(mine@[k as int].id@));
        k = k + 1;
    }
    assert(mine@.take(k as int) =~= mine@);
    let ghost idv = mine@.map_values(|s: SparkInfo| s.id@);
    let ghost fd = |s: SparkInfo|
        if idv.contains(s.id@) {
            Seq::empty()
        } else {
            seq![s]
        };
    let ghost d0 = disk@;
    let mut extra: Vec<SparkInfo> = Vec::new();
    let mut disk = disk;
    let nd = disk.len();
    let mut j: usize = 0;
    assert(d0.skip(0) =~= d0);
    while disk.len() > 0
        invariant
            j <= nd,
            nd == d0.len(),
            disk@ == d0.skip(j as int),
            strs(ids@) == idv,
            fd == (|s: SparkInfo|
                if idv.contains(s.id@) {
                    Seq::empty()
                } else {
                    seq![s]
                }),
            extra@ == crate::seqs::flat_map(d0.take(j as int), fd),
        decreases disk.len(),
    {
        proof {
            crate::seqs::lemma_flat_map_take(d0, fd, j as int);
        }
        assert(disk@.len() == nd - j);
        assert(disk@[0] == d0[j as int]);
        let s = disk.remove(0);
        assert(d0.skip(j + 1) =~= d0.skip(j as int).drop_first());
        let ghost before = extra@;
        if !contains_str(&ids, s.id.as_str()) {
            extra.push(s);
            assert(extra@ =~= before + seq![s]);
        } else {
            assert(extra@ =~= before + Seq::<SparkInfo>::empty());
        }
        j = j + 1;
    }
    proof {
        crate::seqs::lemma_flat_map_full(d0, fd);
    }
    let ghost all = mine@ + extra@;
    let mut all_v = mine;
    all_v.append(&mut extra);
    assert(all_v@ == merged_sparks(m0, d0, project_id@));
    stable_sort_by_key(all_v)
}

} // verus!
