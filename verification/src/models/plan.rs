//! Execution plans and their checkpoints.
use vstd::prelude::*;

use crate::error::ForjaError;
use crate::sorting::{char_codes, key_lt, key_view, lex_lt, str_sort_key};
use crate::text::{concat3, owned};

verus! {

/// Lifecycle status of a plan.
#[derive(Debug, Clone, Copy, PartialEq, Eq, Structural)]
pub enum PlanStatus {
    Pending,
    Executed,
    Archived,
}

/// An agent of a plan: the skill it runs and its role.
#[derive(Debug, Clone)]
pub struct PlanAgent {
    pub skill_id: String,
    pub role: String,
}

/// The stack a plan targets.
#[derive(Debug, Clone)]
pub struct PlanStack {
    pub language: String,
    pub framework: Option<String>,
}

/// One phase of a plan.
#[derive(Debug, Clone)]
pub struct PlanPhase {
    pub name: String,
    pub agent_role: String,
    pub files_to_create: Vec<String>,
    pub files_to_modify: Vec<String>,
    pub instructions: String,
    pub depends_on: Vec<String>,
}

/// A plan, as stored in `.forja/plans/<id>.json`.
#[derive(Debug, Clone)]
pub struct PlanMetadata {
    pub id: String,
    pub created: String,
    pub status: PlanStatus,
    pub task: String,
    pub team_size: String,
    pub profile: String,
    pub agents: Vec<PlanAgent>,
    pub stack: Option<PlanStack>,
    pub quality_gates: Vec<String>,
    pub phases: Vec<PlanPhase>,
    pub source_spec: Option<String>,
}

/// A `.json` file of the plans directory: its name and the plan it holds,
/// `None` when it cannot be read or parsed.
#[derive(Debug, Clone)]
pub struct PlanFile {
    pub name: String,
    pub plan: Option<PlanMetadata>,
}

/// Plan files are ordered by name, which starts with a timestamp.
pub open spec fn name_before(a: PlanFile, b: PlanFile) -> bool {
    lex_lt(char_codes(a.name@), char_codes(b.name@))
}

/// `k` is the newest of the files whose plan satisfies `wanted`: it has the
/// greatest name among them, and is the last listed among those that share
/// that name.
pub open spec fn is_newest_with(files: Seq<PlanFile>, k: int, wanted: spec_fn(PlanMetadata) -> bool) -> bool {
    &&& 0 <= k < files.len()
    &&& files[k].plan is Some
    &&& wanted(files[k].plan->0)
    &&& forall|j: int|
        0 <= j < files.len() && j != k && #[trigger] files[j].plan is Some && wanted(files[j].plan->0)
            ==> name_before(files[j], files[k]) || (files[j].name@ == files[k].name@ && j < k)
}

/// No file holds a plan that satisfies `wanted`.
pub open spec fn none_with(files: Seq<PlanFile>, wanted: spec_fn(PlanMetadata) -> bool) -> bool {
    forall|j: int| 0 <= j < files.len() && #[trigger] files[j].plan is Some ==> !wanted(files[j].plan->0)
}

/// A pending plan.
pub open spec fn is_pending(p: PlanMetadata) -> bool {
    p.status == PlanStatus::Pending
}

/// A plan made from spec `spec_id`.
pub open spec fn is_for_spec(p: PlanMetadata, spec_id: Seq<char>) -> bool {
    match p.source_spec {
        Some(s) => s@ == spec_id,
        None => false,
    }
}

fn wanted_exec(p: &PlanMetadata, spec_id: Option<&str>) -> (r: bool)
    ensures
        r == match spec_id {
            None => is_pending(*p),
            Some(id) => is_for_spec(*p, id@),
        },
{
    match spec_id {
        None => p.status == PlanStatus::Pending,
        Some(id) => match &p.source_spec {
            Some(s) => crate::text::str_eq(s.as_str(), id),
            None => false,
        },
    }
}

/// The position of the newest file holding a plan that is pending (with
/// `spec_id` `None`) or made from `spec_id`.
fn newest_position(files: &Vec<PlanFile>, spec_id: Option<&str>) -> (r: Option<usize>)
    ensures
        ({
            let wanted = |p: PlanMetadata|
                match spec_id {
                    None => is_pending(p),
                    Some(id) => is_for_spec(p, id@),
                };
            match r {
                Some(k) => is_newest_with(files@, k as int, wanted),
                None => none_with(files@, wanted),
            }
        }),
{
    let ghost wanted = |p: PlanMetadata|
        match spec_id {
            None => is_pending(p),
            Some(id) => is_for_spec(p, id@),
        };
    let mut best: Option<usize> = None;
    let mut best_key: Vec<u32> = Vec::new();
    let mut i: usize = 0;
    while i < files.len()
        invariant
            i <= files.len(),
            wanted == (|p: PlanMetadata|
                match spec_id {
                    None => is_pending(p),
                    Some(id) => is_for_spec(p, id@),
                }),
            match best {
                Some(k) => k < i && key_view(best_key@) == char_codes(files@[k as int].name@)
                    && is_newest_with(files@.take(i as int), k as int, wanted),
                None => none_with(files@.take(i as int), wanted),
            },
        decreases files.len() - i,
    {
        let f = &files[i];
        let ghost pre = files@.take(i as int);
        assert(files@.take(i + 1) =~= pre.push(*f));
        let take = match &f.plan {
            Some(p) => wanted_exec(p, spec_id),
            None => false,
        };
        if take {
            let key = str_sort_key(f.name.as_str());
            let newer = match best {
                None => true,
                Some(_) => !key_lt(&key, &best_key),
            };
            if newer {
                proof {
                    match best {
                        Some(k0) => {
                            let k = k0 as int;
                            crate::sorting::lemma_lex_total(char_codes(f.name@), char_codes(files@[k].name@));
                            assert forall|j: int|
                                0 <= j < i + 1 && j != i && #[trigger] files@.take(i + 1)[j].plan is Some
                                    && wanted(files@.take(i + 1)[j].plan->0) implies name_before(
                                files@.take(i + 1)[j],
                                files@.take(i + 1)[i as int],
                            ) || (files@.take(i + 1)[j].name@ == files@.take(i + 1)[i as int].name@ && j
                                < i) by {
                                assert(files@.take(i + 1)[j] == pre[j]);
                                if j != k {
                                    assert(pre[j].plan is Some);
                                    if name_before(pre[j], pre[k]) {
                                        if name_before(pre[k], *f) {
                                            crate::sorting::lemma_lex_trans(
                                                char_codes(pre[j].name@),
                                                char_codes(pre[k].name@),
                                                char_codes(f.name@),
                                            );
                                        } else {
                                            assert(char_codes(pre[k].name@) == char_codes(f.name@));
                                        }
                                    } else {
                                        assert(pre[j].name@ == pre[k].name@);
                                        if !name_before(pre[k], *f) {
                                            assert(char_codes(pre[k].name@) == char_codes(f.name@));
                                            lemma_codes_injective(pre[k].name@, f.name@);
                                        }
                                    }
                                } else {
                                    if !name_before(pre[k], *f) {
                                        assert(char_codes(pre[k].name@) == char_codes(f.name@));
                                        lemma_codes_injective(pre[k].name@, f.name@);
                                    }
                                }
                            }
                        },
                        None => {
                            assert forall|j: int|
                                0 <= j < i + 1 && j != i && #[trigger] files@.take(i + 1)[j].plan is Some
                                    && wanted(files@.take(i + 1)[j].plan->0) implies name_before(
                                files@.take(i + 1)[j],
                                files@.take(i + 1)[i as int],
                            ) || (files@.take(i + 1)[j].name@ == files@.take(i + 1)[i as int].name@ && j
                                < i) by {
                                assert(files@.take(i + 1)[j] == pre[j]);
                                assert(pre[j].plan is Some);
                            }
                        },
                    }
                }
                best = Some(i);
                best_key = key;
            } else {
                proof {
                    let k = best->0;
                    assert(files@.take(i + 1)[k as int] == pre[k as int]);
                    assert forall|j: int|
                        0 <= j < i + 1 && j != k && #[trigger] files@.take(i + 1)[j].plan is Some
                            && wanted(files@.take(i + 1)[j].plan->0) implies name_before(
                        files@.take(i + 1)[j],
                        files@.take(i + 1)[k as int],
                    ) || (files@.take(i + 1)[j].name@ == files@.take(i + 1)[k as int].name@ && j < k)
                        by {
                        if j < i {
                            assert(files@.take(i + 1)[j] == pre[j]);
                            assert(pre[j].plan is Some);
                        }
                    }
                }
            }
        } else {
            proof {
                match best {
                    Some(k) => {
                        assert(files@.take(i + 1)[k as int] == pre[k as int]);
                        assert forall|j: int|
                            0 <= j < i + 1 && j != k && #[trigger] files@.take(i + 1)[j].plan is Some
                                && wanted(files@.take(i + 1)[j].plan->0) implies name_before(
                            files@.take(i + 1)[j],
                            files@.take(i + 1)[k as int],
                        ) || (files@.take(i + 1)[j].name@ == files@.take(i + 1)[k as int].name@ && j
                            < k) by {
                            if j < i {
                                assert(files@.take(i + 1)[j] == pre[j]);
                                assert(pre[j].plan is Some);
                            }
                        }
                    },
                    None => {
                        assert forall|j: int|
                            0 <= j < i + 1 && #[trigger] files@.take(i + 1)[j].plan is Some implies !wanted(
                            files@.take(i + 1)[j].plan->0,
                        ) by {
                            if j < i {
                                assert(files@.take(i + 1)[j] == pre[j]);
                                assert(pre[j].plan is Some);
                            }
                        }
                    },
                }
            }
        }
        i = i + 1;
    }
    assert(files@.take(i as int) =~= files@);
    best
}

/// Strings with the same character codes are equal.
proof fn lemma_codes_injective(a: Seq<char>, b: Seq<char>)
    requires
        char_codes(a) == char_codes(b),
    ensures
        a == b,
{
    assert(a.len() == char_codes(a).len());
    assert(b.len() == char_codes(b).len());
    assert forall|i: int| 0 <= i < a.len() implies a[i] == b[i] by {
        assert(char_codes(a)[i] == char_codes(b)[i]);
        assert(char_codes(a)[i] == (a[i] as u32) as int);
        assert(char_codes(b)[i] == (b[i] as u32) as int);
        let ua = a[i] as u32;
        let ub = b[i] as u32;
        assert(ua as int == ub as int);
        vstd::utf8::char_u32_cast(a[i], ua);
        vstd::utf8::char_u32_cast(b[i], ub);
    }
    assert(a =~= b);
}

fn take_plan(files: Vec<PlanFile>, k: usize) -> (r: PlanMetadata)
    requires
        k < files@.len(),
        files@[k as int].plan is Some,
    ensures
        r == files@[k as int].plan->0,
{
    let mut files = files;
    let f = files.remove(k);
    match f.plan {
        Some(p) => p,
        None => {
            assert(false);
            PlanMetadata {
                id: String::new(),
                created: String::new(),
                status: PlanStatus::Pending,
                task: String::new(),
                team_size: String::new(),
                profile: String::new(),
                agents: Vec::new(),
                stack: None,
                quality_gates: Vec::new(),
                phases: Vec::new(),
                source_spec: None,
            }
        },
    }
}

/// Find the latest pending plan. Plan files are named with a leading
/// `YYYYMMDD-HHMMSS` timestamp, so the newest is the one with the greatest
/// name. `files` holds the `.json` files of the plans directory, or is
/// `Ok(None)` when the directory does not exist, or the error listing it
/// gave, which is passed on; files that cannot be parsed are passed over.
pub fn find_latest_pending(files: Result<Option<Vec<PlanFile>>, ForjaError>) -> (r: Result<PlanMetadata, ForjaError>)
    ensures
        match files {
            Err(e) => r == Err::<PlanMetadata, ForjaError>(e),
            Ok(None) => r == Err::<PlanMetadata, ForjaError>(ForjaError::NoPlansFound),
            Ok(Some(v)) => match r {
                Ok(p) => exists|k: int| is_newest_with(v@, k, |p: PlanMetadata| is_pending(p)) && v@[k].plan == Some(p),
                Err(e) => e == ForjaError::NoPlansFound && none_with(v@, |p: PlanMetadata| is_pending(p)),
            },
        },
{
    match files {
        Err(e) => Err(e),
        Ok(None) => Err(ForjaError::NoPlansFound),
        Ok(Some(v)) => match newest_position(&v, None) {
            Some(k) => {
                let ghost vv = v@;
                let p = take_plan(v, k);
                assert(is_newest_with(vv, k as int, |p: PlanMetadata| is_pending(p)));
                Ok(p)
            },
            None => Err(ForjaError::NoPlansFound),
        },
    }
}

/// Find the newest plan made from spec `spec_id` (its `source_spec`);
/// `PlanNotFound("no plan found for spec '<id>'")` when there is none.
/// `files` is as for `find_latest_pending`.
pub fn find_plan_for_spec(files: Result<Option<Vec<PlanFile>>, ForjaError>, spec_id: &str) -> (r: Result<
    PlanMetadata,
    ForjaError,
>)
    ensures
        match files {
            Err(e) => r == Err::<PlanMetadata, ForjaError>(e),
            Ok(None) => r == Err::<PlanMetadata, ForjaError>(ForjaError::NoPlansFound),
            Ok(Some(v)) => match r {
                Ok(p) => exists|k: int|
                    is_newest_with(v@, k, |p: PlanMetadata| is_for_spec(p, spec_id@)) && v@[k].plan
                        == Some(p),
                Err(e) => {
                    &&& none_with(v@, |p: PlanMetadata| is_for_spec(p, spec_id@))
                    &&& e is PlanNotFound
                    &&& e->PlanNotFound_0@ == "no plan found for spec '"@ + spec_id@ + "'"@
                },
            },
        },
{
    match files {
        Err(e) => Err(e),
        Ok(None) => Err(ForjaError::NoPlansFound),
        Ok(Some(v)) => match newest_position(&v, Some(spec_id)) {
            Some(k) => {
                let ghost vv = v@;
                let p = take_plan(v, k);
                assert(is_newest_with(vv, k as int, |p: PlanMetadata| is_for_spec(p, spec_id@)));
                Ok(p)
            },
            None => Err(ForjaError::PlanNotFound(concat3("no plan found for spec '", spec_id, "'"))),
        },
    }
}

/// Status of one phase of an execution.
#[derive(Debug, Clone, Copy, PartialEq, Eq, Structural)]
pub enum PhaseStatus {
    Pending,
    InProgress,
    Completed,
    Failed,
    Skipped,
}

/// Progress of one phase of an execution.
#[derive(Debug, Clone)]
pub struct PhaseCheckpoint {
    pub phase_index: usize,
    pub phase_name: String,
    pub status: PhaseStatus,
    pub started_at: Option<String>,
    pub completed_at: Option<String>,
    pub exit_code: Option<i32>,
    pub error_message: Option<String>,
}

/// Progress of a plan's execution.
#[derive(Debug, Clone)]
pub struct ExecutionCheckpoint {
    pub plan_id: String,
    pub started_at: String,
    pub last_updated: String,
    pub current_phase: Option<usize>,
    pub phases: Vec<PhaseCheckpoint>,
}

/// The checkpoint of a plan whose execution starts at `now`: every phase
/// pending, in order, with its index and name; no current phase.
pub fn checkpoint_for(plan: &PlanMetadata, now: &str) -> (c: ExecutionCheckpoint)
    ensures
        c.plan_id@ == plan.id@,
        c.started_at@ == now@,
        c.last_updated@ == now@,
        c.current_phase is None,
        c.phases@.len() == plan.phases@.len(),
        forall|i: int|
            0 <= i < c.phases@.len() ==> {
                let p = #[trigger] c.phases@[i];
                &&& p.phase_index == i
                &&& p.phase_name@ == plan.phases@[i].name@
                &&& p.status == PhaseStatus::Pending
                &&& p.started_at is None
                &&& p.completed_at is None
                &&& p.exit_code is None
                &&& p.error_message is None
            },
{
    let mut phases: Vec<PhaseCheckpoint> = Vec::new();
    let mut i: usize = 0;
    while i < plan.phases.len()
        invariant
            i <= plan.phases@.len(),
            phases@.len() == i,
            forall|k: int|
                0 <= k < i ==> {
                    let p = #[trigger] phases@[k];
                    &&& p.phase_index == k
                    &&& p.phase_name@ == plan.phases@[k].name@
                    &&& p.status == PhaseStatus::Pending
                    &&& p.started_at is None
                    &&& p.completed_at is None
                    &&& p.exit_code is None
                    &&& p.error_message is None
                },
        decreases plan.phases.len() - i,
    {
        phases.push(
            PhaseCheckpoint {
                phase_index: i,
                phase_name: owned(plan.phases[i].name.as_str()),
                status: PhaseStatus::Pending,
                started_at: None,
                completed_at: None,
                exit_code: None,
                error_message: None,
            },
        );
        i = i + 1;
    }
    ExecutionCheckpoint {
        plan_id: owned(plan.id.as_str()),
        started_at: owned(now),
        last_updated: owned(now),
        current_phase: None,
        phases,
    }
}

/// The current time as an RFC 3339 string (`chrono::Utc::now().to_rfc3339()`).
/// It depends on the clock, so nothing is stated of it.
#[verifier::external_body]
pub(crate) fn now_rfc3339() -> (r: String) {
    chrono::Utc::now().to_rfc3339()
}

/// The checkpoint of a plan whose execution starts now (see `checkpoint_for`).
pub fn initialize_checkpoint(plan: &PlanMetadata) -> (c: ExecutionCheckpoint)
    ensures
        c.plan_id@ == plan.id@,
        c.started_at@ == c.last_updated@,
        c.current_phase is None,
        c.phases@.len() == plan.phases@.len(),
        forall|i: int|
            0 <= i < c.phases@.len() ==> {
                let p = #[trigger] c.phases@[i];
                &&& p.phase_index == i
                &&& p.phase_name@ == plan.phases@[i].name@
                &&& p.status == PhaseStatus::Pending
                &&& p.started_at is None
                &&& p.completed_at is None
                &&& p.exit_code is None
                &&& p.error_message is None
            },
{
    let now = now_rfc3339();
    checkpoint_for(plan, now.as_str())
}

} // verus!
