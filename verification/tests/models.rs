use forja::error::ForjaError;
use forja::models::acceptance::AcceptanceCriterion;
use forja::models::context_gen::generate_context;
use forja::models::decision::{
    discover_decisions, find_decision, DecisionFile, DecisionFrontmatter, DecisionStatus,
};
use forja::models::plan::{
    checkpoint_for, find_latest_pending, find_plan_for_spec, initialize_checkpoint, PhaseStatus,
    PlanAgent, PlanFile, PlanMetadata, PlanPhase, PlanStack, PlanStatus,
};
use forja::models::run_log::{discover_runs, RunLog, RunLogFrontmatter, RunStatus};
use forja::models::spec::{
    build_task_description, discover_specs, discover_specs_with_fallback, find_spec,
    find_spec_with_fallback, spec_from_parts, SpecFile, SpecFrontmatter, SpecStatus,
};
use forja::models::state::{state_from_parses, ForjaState};
use forja::models::track::{
    discover_tracks, find_track, parse_track_table, track_from_parts, TrackFile, TrackFrontmatter,
    TrackPriority, TrackStatus,
};
use forja::models::validate::{validate_project, Severity, ValidationResult};
use forja::models::vision::{VisionFile, VisionFrontmatter};

fn decision(id: &str, title: &str, status: DecisionStatus, related: &[&str]) -> DecisionFile {
    DecisionFile {
        frontmatter: DecisionFrontmatter {
            id: id.to_string(),
            title: title.to_string(),
            status,
            date: "2026-02-18".to_string(),
            related_specs: related.iter().map(|s| s.to_string()).collect(),
            superseded_by: None,
        },
        body: "Body.".to_string(),
    }
}

fn track_fm(id: &str, title: &str, status: TrackStatus) -> TrackFrontmatter {
    TrackFrontmatter {
        id: id.to_string(),
        title: title.to_string(),
        description: "D".to_string(),
        status,
        owner: None,
        priority: None,
        created: "2026-01-01".to_string(),
    }
}

fn track(id: &str, title: &str, status: TrackStatus, body: &str) -> TrackFile {
    track_from_parts(track_fm(id, title, status), body)
}

fn spec_fm(id: &str, title: &str, description: &str) -> SpecFrontmatter {
    SpecFrontmatter {
        id: id.to_string(),
        title: title.to_string(),
        description: description.to_string(),
        status: None,
        priority: None,
        track: None,
        assignee: None,
        tags: vec![],
        blocked_by: vec![],
        depends_on: vec![],
        requirements: vec![],
        constraints: vec![],
        acceptance_criteria: vec![],
        success_criteria: vec![],
        created: None,
        updated: None,
    }
}

fn spec(id: &str, title: &str) -> SpecFile {
    spec_from_parts(spec_fm(id, title, "A test spec"), &format!("Body for {id}."))
}

fn strings(v: &[&str]) -> Vec<String> {
    v.iter().map(|s| s.to_string()).collect()
}

const FULL_TRACK_BODY: &str = "# MVP Work Track\n\n| ID  | Task                    | Status      | Spec      |\n|-----|-------------------------|-------------|-----------|\n| M1  | Auth & user management  | done        | auth      |\n| M2  | API endpoints           | in-progress | api       |\n| M3  | Dashboard UI            | todo        | dashboard |\n";

fn full_track() -> TrackFile {
    let mut fm = track_fm("mvp", "MVP Work Track", TrackStatus::InProgress);
    fm.description = "Core product delivery".to_string();
    fm.owner = Some("Daniel".to_string());
    fm.priority = Some(TrackPriority::High);
    track_from_parts(fm, FULL_TRACK_BODY)
}

// ---- decisions ----

#[test]
fn discover_decisions_from_dir() {
    let loaded = vec![
        decision("002", "DB", DecisionStatus::Proposed, &[]),
        decision("001", "Authentication Strategy", DecisionStatus::Accepted, &["auth"]),
    ];
    let decisions = discover_decisions(Ok(loaded)).unwrap();
    assert_eq!(decisions.len(), 2);
    assert_eq!(decisions[0].id(), "001");
    assert_eq!(decisions[1].id(), "002");
}

#[test]
fn discover_decisions_missing_dir() {
    let decisions = discover_decisions(Ok(vec![])).unwrap();
    assert!(decisions.is_empty());
}

#[test]
fn discover_decisions_passes_errors_on() {
    let err = discover_decisions(Err(ForjaError::Io("denied".to_string()))).unwrap_err();
    assert_eq!(err, ForjaError::Io("denied".to_string()));
}

#[test]
fn find_decision_by_id() {
    let loaded = vec![decision("001", "Authentication Strategy", DecisionStatus::Accepted, &[])];
    let d = find_decision(Ok(loaded), "001").unwrap();
    assert_eq!(d.id(), "001");
    assert_eq!(d.title(), "Authentication Strategy");
}

#[test]
fn find_decision_not_found() {
    let err = find_decision(Ok(vec![]), "999").unwrap_err();
    assert!(matches!(err, ForjaError::InvalidArgument(_)));
    assert_eq!(err, ForjaError::InvalidArgument("decision not found: 999".to_string()));
}

// ---- tracks ----

#[test]
fn parse_full_track() {
    let track = full_track();
    assert_eq!(track.id(), "mvp");
    assert_eq!(track.title(), "MVP Work Track");
    assert_eq!(track.frontmatter.status, TrackStatus::InProgress);
    assert_eq!(track.frontmatter.owner.as_deref(), Some("Daniel"));
    assert_eq!(track.frontmatter.priority, Some(TrackPriority::High));
    assert_eq!(track.items.len(), 3);
    assert_eq!(track.items[0].id, "M1");
    assert_eq!(track.items[0].task, "Auth & user management");
    assert_eq!(track.items[0].status, "done");
    assert_eq!(track.items[0].spec, "auth");
    assert_eq!(track.items[1].id, "M2");
    assert_eq!(track.items[1].status, "in-progress");
}

#[test]
fn progress_counts_done() {
    let track = full_track();
    let (done, total) = track.progress();
    assert_eq!(done, 1);
    assert_eq!(total, 3);
}

#[test]
fn parse_minimal_track() {
    let track = track("quick", "Quick Track", TrackStatus::Draft, "No table here.\n");
    assert_eq!(track.id(), "quick");
    assert!(track.items.is_empty());
    assert_eq!(track.progress(), (0, 0));
}

#[test]
fn track_table_skips_header_separator_and_short_rows() {
    let items = parse_track_table("| ID | Task | Status | Spec |\n|---|---|---|---|\n| A | B |\n| M1 | Auth | done | auth |\ntext\n");
    assert_eq!(items.len(), 1);
    assert_eq!(items[0].id, "M1");
    assert_eq!(items[0].spec, "auth");
}

#[test]
fn discover_tracks_from_dir() {
    let loaded = vec![track("v2", "V2", TrackStatus::Draft, ""), full_track()];
    let tracks = discover_tracks(Ok(loaded)).unwrap();
    assert_eq!(tracks.len(), 2);
    assert_eq!(tracks[0].id(), "mvp");
    assert_eq!(tracks[1].id(), "v2");
}

#[test]
fn discover_tracks_empty_dir() {
    let tracks = discover_tracks(Ok(vec![])).unwrap();
    assert!(tracks.is_empty());
}

#[test]
fn find_track_by_id() {
    let t = find_track(Ok(vec![full_track()]), "mvp").unwrap();
    assert_eq!(t.id(), "mvp");
}

#[test]
fn find_track_not_found() {
    let err = find_track(Ok(vec![]), "missing").unwrap_err();
    assert!(matches!(err, ForjaError::InvalidArgument(_)));
}

// ---- specs ----

fn valid_spec() -> SpecFile {
    let mut fm = spec_fm("user-auth", "Add User Authentication", "Implement JWT-based authentication");
    fm.priority = Some("high".to_string());
    fm.tags = strings(&["auth", "security"]);
    fm.requirements = strings(&["JWT token generation", "Login endpoint"]);
    fm.constraints = strings(&["Must use existing user table"]);
    fm.success_criteria = strings(&[
        "Users can log in and receive a token",
        "Protected routes reject unauthenticated requests",
    ]);
    spec_from_parts(
        fm,
        "# User Authentication\n\nThis spec describes the authentication system.\n\n## Details\n\nUse bcrypt for password hashing.\n",
    )
}

fn spec_with_new_fields() -> SpecFile {
    let mut fm = spec_fm("auth", "User Authentication", "JWT-based authentication");
    fm.status = Some(SpecStatus::InProgress);
    fm.priority = Some("high".to_string());
    fm.track = Some("mvp".to_string());
    fm.assignee = Some("Daniel".to_string());
    fm.depends_on = strings(&["database-setup"]);
    fm.acceptance_criteria = vec![
        AcceptanceCriterion::Simple("Users can log in and receive a token".to_string()),
        AcceptanceCriterion::Structured {
            description: "Protected routes reject unauthenticated".to_string(),
            test: Some("cargo test auth_reject".to_string()),
        },
    ];
    fm.created = Some("2026-02-18".to_string());
    fm.updated = Some("2026-02-18".to_string());
    spec_from_parts(fm, "# User Authentication\n\nContext here.\n")
}

#[test]
fn parse_valid_spec() {
    let spec = valid_spec();
    assert_eq!(spec.id(), "user-auth");
    assert_eq!(spec.title(), "Add User Authentication");
    assert!(spec.body.starts_with("# User Authentication"));
    assert_eq!(spec.status, SpecStatus::Draft);
}

#[test]
fn acceptance_criteria_mixed_types() {
    let spec = spec_with_new_fields();
    let criteria = spec.all_acceptance_criteria();
    assert_eq!(criteria.len(), 2);
    assert_eq!(criteria[0].description(), "Users can log in and receive a token");
    assert!(criteria[0].test_command().is_none());
    assert_eq!(criteria[1].description(), "Protected routes reject unauthenticated");
    assert_eq!(criteria[1].test_command(), Some("cargo test auth_reject"));
}

#[test]
fn all_acceptance_criteria_merges_legacy_success_criteria() {
    let spec = valid_spec();
    assert!(spec.frontmatter.acceptance_criteria.is_empty());
    let criteria = spec.all_acceptance_criteria();
    assert_eq!(criteria.len(), spec.frontmatter.success_criteria.len());
    assert_eq!(criteria.len(), 2);
    for (c, s) in criteria.iter().zip(spec.frontmatter.success_criteria.iter()) {
        assert_eq!(c.description(), s.as_str());
        assert!(c.test_command().is_none());
    }
}

#[test]
fn success_criteria_strings_prefers_acceptance() {
    let spec = spec_with_new_fields();
    let strings = spec.success_criteria_strings();
    assert_eq!(strings.len(), 2);
    assert_eq!(strings[0], "Users can log in and receive a token");
}

#[test]
fn success_criteria_strings_falls_back_to_legacy() {
    let spec = valid_spec();
    let strings = spec.success_criteria_strings();
    assert_eq!(strings.len(), 2);
    assert_eq!(strings[0], "Users can log in and receive a token");
}

#[test]
fn status_from_frontmatter() {
    let mut fm = spec_fm("s", "S", "D");
    fm.status = Some(SpecStatus::Ready);
    assert_eq!(spec_from_parts(fm, "").status, SpecStatus::Ready);
}

#[test]
fn status_defaults_to_draft() {
    assert_eq!(spec_from_parts(spec_fm("s", "S", "D"), "").status, SpecStatus::Draft);
}

#[test]
fn spec_status_default_is_draft() {
    let spec = spec_from_parts(spec_fm("s", "S", "D"), "");
    assert_eq!(spec.status, SpecStatus::Draft);
    assert_eq!(spec.status.as_str(), "draft");
}

#[test]
fn spec_status_names() {
    assert_eq!(SpecStatus::InProgress.as_str(), "in-progress");
    assert_eq!(SpecStatus::Done.as_str(), "done");
    assert_eq!(SpecStatus::Complete.as_str(), "complete");
}

#[test]
fn build_task_description_full_spec() {
    let desc = build_task_description(&valid_spec());
    assert!(desc.contains("Add User Authentication"));
    assert!(desc.contains("Implement JWT-based authentication"));
    assert!(desc.contains("Priority: high"));
    assert!(desc.contains("Requirements:"));
    assert!(desc.contains("- JWT token generation"));
    assert!(desc.contains("- Login endpoint"));
    assert!(desc.contains("Constraints:"));
    assert!(desc.contains("- Must use existing user table"));
    assert!(desc.contains("Acceptance Criteria:"));
    assert!(desc.contains("- Users can log in and receive a token"));
    assert!(desc.contains("Context:"));
    assert!(desc.contains("# User Authentication"));
}

#[test]
fn build_task_description_minimal_spec() {
    let spec = spec_from_parts(spec_fm("min", "Minimal", "A minimal spec"), "");
    let desc = build_task_description(&spec);
    assert!(desc.contains("Minimal"));
    assert!(desc.contains("A minimal spec"));
    assert!(!desc.contains("Priority:"));
    assert!(!desc.contains("Requirements:"));
    assert!(!desc.contains("Context:"));
}

#[test]
fn build_task_description_with_depends_on() {
    let mut fm = spec_fm("d", "D", "D");
    fm.depends_on = strings(&["auth", "db"]);
    let desc = build_task_description(&spec_from_parts(fm, ""));
    assert!(desc.contains("Depends On:"));
    assert!(desc.contains("- auth"));
    assert!(desc.contains("- db"));
}

#[test]
fn build_task_description_no_priority() {
    let mut fm = spec_fm("np", "No Priority", "A spec");
    fm.requirements = strings(&["one"]);
    let desc = build_task_description(&spec_from_parts(fm, ""));
    assert!(!desc.contains("Priority:"));
    assert!(desc.contains("Requirements:"));
    assert!(desc.contains("- one"));
}

#[test]
fn discover_specs_finds_md_files() {
    let specs = discover_specs(".forja/specs", Some(vec![spec("beta", "Beta Spec"), spec("alpha", "Alpha Spec")])).unwrap();
    assert_eq!(specs.len(), 2);
    assert_eq!(specs[0].id(), "alpha");
    assert_eq!(specs[1].id(), "beta");
}

#[test]
fn discover_specs_empty_dir() {
    let specs = discover_specs(".forja/specs", Some(vec![])).unwrap();
    assert!(specs.is_empty());
}

#[test]
fn discover_specs_missing_dir() {
    let err = discover_specs("/nonexistent/path", None).unwrap_err();
    assert!(matches!(err, ForjaError::SpecNotFound(_)));
}

#[test]
fn discover_specs_sorted_by_id() {
    let specs = discover_specs(
        "d",
        Some(vec![spec("zebra", "Zebra"), spec("alpha", "Alpha"), spec("middle", "Middle")]),
    )
    .unwrap();
    let ids: Vec<&str> = specs.iter().map(|s| s.id()).collect();
    assert_eq!(ids, vec!["alpha", "middle", "zebra"]);
}

#[test]
fn find_spec_by_id() {
    let spec = find_spec(Ok(vec![spec("one", "One"), spec("two", "Two")]), "two").unwrap();
    assert_eq!(spec.id(), "two");
}

#[test]
fn find_spec_not_found() {
    let err = find_spec(Ok(vec![spec("one", "One")]), "missing").unwrap_err();
    assert!(matches!(err, ForjaError::SpecNotFound(_)));
}

#[test]
fn find_spec_case_sensitive() {
    let err = find_spec(Ok(vec![spec("my-spec", "My Spec")]), "My-Spec").unwrap_err();
    assert!(matches!(err, ForjaError::SpecNotFound(_)));
}

#[test]
fn find_spec_with_fallback_looks_in_what_was_found() {
    let found = find_spec_with_fallback(Ok(vec![spec("from-docs", "From Docs")]), "from-docs").unwrap();
    assert_eq!(found.id(), "from-docs");
    assert!(find_spec_with_fallback(Ok(vec![]), "x").is_err());
}

#[test]
fn fallback_lookup_agrees_with_find_spec_on_chosen_dir() {
    let docs = || vec![spec("b", "B docs"), spec("a", "A docs")];
    let via_fallback =
        find_spec_with_fallback(discover_specs_with_fallback(None, Some(docs())), "a").unwrap();
    let direct = find_spec(discover_specs("docs/specs", Some(docs())), "a").unwrap();
    assert_eq!(via_fallback.id(), direct.id());
    assert_eq!(via_fallback.title(), "A docs");
    assert_eq!(direct.title(), "A docs");
    assert!(find_spec_with_fallback(discover_specs_with_fallback(None, Some(docs())), "z").is_err());
    assert!(find_spec(discover_specs("docs/specs", Some(docs())), "z").is_err());
}

#[test]
fn fallback_discovery_equals_discovery_in_chosen_dir() {
    let forja = || vec![spec("b", "B"), spec("a", "A"), spec("c", "C")];
    let ids = |v: Vec<SpecFile>| v.iter().map(|s| s.id().to_string()).collect::<Vec<_>>();
    let via_fallback = discover_specs_with_fallback(Some(forja()), Some(vec![spec("d", "D")])).unwrap();
    let direct = discover_specs(".forja/specs", Some(forja())).unwrap();
    assert_eq!(ids(via_fallback), ids(direct));
}

#[test]
fn discover_specs_with_fallback_prefers_forja() {
    let specs = discover_specs_with_fallback(
        Some(vec![spec("from-forja", "From Forja")]),
        Some(vec![spec("from-docs", "From Docs")]),
    )
    .unwrap();
    assert_eq!(specs.len(), 1);
    assert_eq!(specs[0].id(), "from-forja");
}

#[test]
fn discover_specs_with_fallback_uses_docs() {
    let specs = discover_specs_with_fallback(None, Some(vec![spec("from-docs", "From Docs")])).unwrap();
    assert_eq!(specs.len(), 1);
    assert_eq!(specs[0].id(), "from-docs");
}

#[test]
fn discover_specs_with_fallback_needs_a_directory() {
    let err = discover_specs_with_fallback(None, None).unwrap_err();
    assert_eq!(
        err,
        ForjaError::SpecNotFound("no specs directory found (.forja/specs/ or docs/specs/)".to_string())
    );
}

// ---- runs ----

fn run(filename: &str, spec_id: &str) -> RunLog {
    RunLog {
        frontmatter: RunLogFrontmatter {
            spec_id: spec_id.to_string(),
            plan_id: None,
            agent: "coder".to_string(),
            status: RunStatus::Complete,
            started_at: "2026-01-01T00:00:00Z".to_string(),
            completed_at: None,
            duration_seconds: None,
            exit_code: Some(0),
        },
        body: String::new(),
        filename: filename.to_string(),
    }
}

#[test]
fn discover_runs_from_dir() {
    let runs = discover_runs(Ok(vec![
        run("run-20260101-100000-auth", "auth"),
        run("run-20260102-100000-api", "api"),
    ]))
    .unwrap();
    assert_eq!(runs.len(), 2);
    assert_eq!(runs[0].filename, "run-20260102-100000-api");
    assert_eq!(runs[0].spec_id(), "api");
    assert_eq!(runs[1].filename, "run-20260101-100000-auth");
}

#[test]
fn discover_runs_missing_dir() {
    assert!(discover_runs(Ok(vec![])).unwrap().is_empty());
}

// ---- plans ----

fn sample_plan(id: &str, status: PlanStatus) -> PlanMetadata {
    PlanMetadata {
        id: id.to_string(),
        created: "2026-02-08T14:30:22Z".to_string(),
        status,
        task: "Add user auth".to_string(),
        team_size: "full-product".to_string(),
        profile: "balanced".to_string(),
        agents: vec![
            PlanAgent { skill_id: "code/typescript/feature".to_string(), role: "coder".to_string() },
            PlanAgent { skill_id: "test/tdd/workflow".to_string(), role: "tester".to_string() },
        ],
        stack: Some(PlanStack { language: "TypeScript".to_string(), framework: Some("Next.js".to_string()) }),
        quality_gates: vec![],
        phases: vec![],
        source_spec: None,
    }
}

fn plan_file(plan: PlanMetadata) -> PlanFile {
    PlanFile { name: format!("{}.json", plan.id), plan: Some(plan) }
}

#[test]
fn find_latest_pending_returns_newest() {
    let old = sample_plan("20260201-100000-old-task", PlanStatus::Pending);
    let new = sample_plan("20260208-143022-new-task", PlanStatus::Pending);
    let found = find_latest_pending(Ok(Some(vec![plan_file(new), plan_file(old)]))).unwrap();
    assert_eq!(found.id, "20260208-143022-new-task");
}

#[test]
fn find_latest_pending_skips_executed_and_unreadable() {
    let executed = sample_plan("20260209-100000-done", PlanStatus::Executed);
    let pending = sample_plan("20260201-100000-todo", PlanStatus::Pending);
    let files = vec![
        plan_file(executed),
        PlanFile { name: "20260210-000000-broken.json".to_string(), plan: None },
        plan_file(pending),
    ];
    assert_eq!(find_latest_pending(Ok(Some(files))).unwrap().id, "20260201-100000-todo");
    assert_eq!(find_latest_pending(Ok(None)).unwrap_err(), ForjaError::NoPlansFound);
    assert_eq!(find_latest_pending(Ok(Some(vec![]))).unwrap_err(), ForjaError::NoPlansFound);
}

#[test]
fn initialize_checkpoint_creates_all_phases_pending() {
    let mut plan = sample_plan("test-phases", PlanStatus::Pending);
    plan.phases = vec![
        PlanPhase {
            name: "Database schema".to_string(),
            agent_role: "coder".to_string(),
            files_to_create: vec!["migrations/001.sql".to_string()],
            files_to_modify: vec![],
            instructions: "Create tables".to_string(),
            depends_on: vec![],
        },
        PlanPhase {
            name: "Auth middleware".to_string(),
            agent_role: "coder".to_string(),
            files_to_create: vec![],
            files_to_modify: vec!["src/app.ts".to_string()],
            instructions: "Add JWT".to_string(),
            depends_on: vec!["Database schema".to_string()],
        },
    ];
    let checkpoint = initialize_checkpoint(&plan);
    assert_eq!(checkpoint.plan_id, "test-phases");
    assert_eq!(checkpoint.phases.len(), 2);
    assert!(checkpoint.phases.iter().all(|p| p.status == PhaseStatus::Pending));
    assert_eq!(checkpoint.started_at, checkpoint.last_updated);

    let fixed = checkpoint_for(&plan, "2026-02-08T14:30:22Z");
    assert_eq!(fixed.started_at, "2026-02-08T14:30:22Z");
    assert_eq!(fixed.phases[1].phase_index, 1);
    assert_eq!(fixed.phases[1].phase_name, "Auth middleware");
    assert!(fixed.current_phase.is_none());
}

#[test]
fn plan_lookups_pass_on_a_listing_error() {
    let err = ForjaError::Io("permission denied".to_string());
    assert_eq!(find_latest_pending(Err(err.clone())).unwrap_err(), err);
    assert_eq!(find_plan_for_spec(Err(err.clone()), "x").unwrap_err(), err);
}

#[test]
fn find_plan_for_spec_finds_linked_plan() {
    let mut plan = sample_plan("20260210-120000-from-spec", PlanStatus::Pending);
    plan.source_spec = Some("user-auth".to_string());
    let unlinked = sample_plan("20260209-100000-unlinked", PlanStatus::Pending);
    let found = find_plan_for_spec(Ok(Some(vec![plan_file(unlinked), plan_file(plan)])), "user-auth").unwrap();
    assert_eq!(found.id, "20260210-120000-from-spec");
    assert_eq!(found.source_spec.as_deref(), Some("user-auth"));
}

#[test]
fn find_plan_for_spec_returns_most_recent() {
    let mut old = sample_plan("20260201-100000-old", PlanStatus::Pending);
    old.source_spec = Some("my-spec".to_string());
    let mut new = sample_plan("20260210-120000-new", PlanStatus::Pending);
    new.source_spec = Some("my-spec".to_string());
    let found = find_plan_for_spec(Ok(Some(vec![plan_file(old), plan_file(new)])), "my-spec").unwrap();
    assert_eq!(found.id, "20260210-120000-new");
}

#[test]
fn find_plan_for_spec_not_found() {
    let plan = sample_plan("20260210-120000-other", PlanStatus::Pending);
    let err = find_plan_for_spec(Ok(Some(vec![plan_file(plan)])), "nonexistent").unwrap_err();
    assert!(matches!(err, ForjaError::PlanNotFound(_)));
    assert_eq!(err, ForjaError::PlanNotFound("no plan found for spec 'nonexistent'".to_string()));
}

// ---- context ----

fn context_fixture() -> (Vec<TrackFile>, Vec<SpecFile>, Vec<DecisionFile>) {
    let tracks = vec![track(
        "mvp",
        "MVP",
        TrackStatus::InProgress,
        "| ID | Task | Status | Spec |\n|---|---|---|---|\n| M1 | Auth | done | auth |\n| M2 | API | todo | api |\n",
    )];
    let mut auth = spec_fm("auth", "Auth", "D");
    auth.status = Some(SpecStatus::Done);
    auth.priority = Some("high".to_string());
    let mut api = spec_fm("api", "API", "D");
    api.status = Some(SpecStatus::InProgress);
    api.priority = Some("high".to_string());
    let specs = vec![spec_from_parts(api, ""), spec_from_parts(auth, "")];
    let decisions = vec![decision("001", "JWT in cookies", DecisionStatus::Accepted, &[])];
    (tracks, specs, decisions)
}

#[test]
fn generate_context_includes_sections() {
    let (tracks, specs, decisions) = context_fixture();
    let ctx = generate_context(&tracks, &specs, &decisions);
    assert!(ctx.contains("# Forja Project Context"));
    assert!(ctx.contains("## Active Work"));
    assert!(ctx.contains("Track: MVP"));
    assert!(ctx.contains("1/2 done"));
    assert!(ctx.contains("In-progress: api"));
    assert!(ctx.contains("Blocked: none"));
    assert!(ctx.contains("## Key Decisions"));
    assert!(ctx.contains("JWT in cookies"));
    assert!(ctx.contains("## Priorities"));
    assert!(ctx.contains("[high] api - API"));
}

#[test]
fn generate_context_orders_priorities() {
    let mut low = spec_fm("l", "Low one", "D");
    low.priority = Some("low".to_string());
    let mut high = spec_fm("h", "High one", "D");
    high.priority = Some("high".to_string());
    let specs = vec![spec_from_parts(low, ""), spec_from_parts(high, "")];
    let ctx = generate_context(&vec![], &specs, &vec![]);
    let h = ctx.find("[high] h - High one").unwrap();
    let l = ctx.find("[low] l - Low one").unwrap();
    assert!(h < l);
}

// ---- validation ----

fn vision() -> VisionFile {
    VisionFile {
        frontmatter: VisionFrontmatter {
            project: "Test".to_string(),
            description: "A test project".to_string(),
            version: None,
            tech_stack: None,
            principles: vec![],
            target_users: vec![],
            success_metrics: vec![],
        },
        body: "# Vision\n".to_string(),
    }
}

fn validate(tracks: Vec<TrackFile>, specs: Vec<SpecFile>, decisions: Vec<DecisionFile>) -> ValidationResult {
    validate_project(Some(Ok(vision())), &vec![], Ok(tracks), Ok(specs), Ok(decisions), &vec![]).unwrap()
}

fn with_deps(id: &str, deps: &[&str]) -> SpecFile {
    let mut fm = spec_fm(id, id, "D");
    fm.depends_on = strings(deps);
    fm.acceptance_criteria = vec![AcceptanceCriterion::Simple("works".to_string())];
    spec_from_parts(fm, "")
}

#[test]
fn valid_project_passes() {
    let t = track("mvp", "MVP", TrackStatus::Draft, "| ID | Task | Status | Spec |\n|---|---|---|---|\n| M1 | Auth | todo | auth |\n");
    let mut fm = spec_fm("auth", "Auth", "D");
    fm.track = Some("mvp".to_string());
    fm.acceptance_criteria = vec![AcceptanceCriterion::Simple("Users can log in".to_string())];
    let result = validate(vec![t], vec![spec_from_parts(fm, "# Auth\n")], vec![]);
    assert!(result.is_valid(), "Errors: {:?}", result.errors);
}

#[test]
fn invalid_spec_track_reference() {
    let mut fm = spec_fm("auth", "Auth", "D");
    fm.track = Some("nonexistent".to_string());
    let result = validate(vec![], vec![spec_from_parts(fm, "")], vec![]);
    assert!(!result.is_valid());
    assert!(result.errors.iter().any(|e| e.message.contains("nonexistent")));
}

#[test]
fn invalid_spec_depends_on_reference() {
    let result = validate(vec![], vec![with_deps("api", &["missing"])], vec![]);
    assert!(!result.is_valid());
    assert!(result.errors.iter().any(|e| e.message.contains("depends_on") && e.message.contains("missing")));
}

#[test]
fn circular_dependency_detected() {
    let result = validate(vec![], vec![with_deps("a", &["b"]), with_deps("b", &["a"])], vec![]);
    assert!(!result.is_valid());
    assert!(result.errors.iter().any(|e| e.message.contains("circular")));
}

#[test]
fn no_cycle_no_circular_finding() {
    let result = validate(vec![], vec![with_deps("a", &["b"]), with_deps("b", &[]), with_deps("c", &["a", "b"])], vec![]);
    assert!(result.is_valid());
    assert!(!result.errors.iter().any(|e| e.message.contains("circular")));
}

#[test]
fn invalid_track_item_spec_reference() {
    let t = track("mvp", "MVP", TrackStatus::Draft, "| ID | Task | Status | Spec |\n|---|---|---|---|\n| M1 | Auth | todo | missing-spec |\n");
    let result = validate(vec![t], vec![], vec![]);
    assert!(!result.is_valid());
    assert!(result.errors.iter().any(|e| e.message.contains("missing-spec")));
}

#[test]
fn invalid_decision_spec_reference() {
    let d = decision("001", "T", DecisionStatus::Accepted, &["missing"]);
    let result = validate(vec![], vec![], vec![d]);
    assert!(!result.is_valid());
    assert!(result.errors.iter().any(|e| e.message.contains("related_specs")));
}

#[test]
fn warning_for_spec_without_criteria() {
    let result = validate(vec![], vec![spec_from_parts(spec_fm("bare", "Bare", "D"), "")], vec![]);
    assert!(result.is_valid());
    assert_eq!(result.warning_count(), 1);
    assert_eq!(result.error_count(), 0);
    assert_eq!(result.errors[0].severity, Severity::Warning);
}

#[test]
fn empty_project_is_valid() {
    let result = validate(vec![], vec![], vec![]);
    assert!(result.is_valid());
    assert_eq!(result.errors.len(), 0);
}

#[test]
fn plan_with_unknown_source_spec_is_reported() {
    let plans = vec![("p.md".to_string(), "---\nsource_spec: ghost\n---\nBody".to_string())];
    let result = validate_project(Some(Ok(vision())), &vec![], Ok(vec![]), Ok(vec![]), Ok(vec![]), &plans).unwrap();
    assert!(result.errors.iter().any(|e| e.message.contains("ghost")));
}

#[test]
fn unparsable_spec_file_is_an_error() {
    let failed = vec![(
        "specs/bad.md".to_string(),
        ForjaError::InvalidSpec("no frontmatter".to_string()),
    )];
    let result =
        validate_project(Some(Ok(vision())), &failed, Ok(vec![]), Ok(vec![]), Ok(vec![]), &vec![]).unwrap();
    assert!(!result.is_valid());
    assert_eq!(result.error_count(), 1);
    assert_eq!(result.errors[0].file, "specs/bad.md");
    assert_eq!(result.errors[0].severity, Severity::Error);
    assert_eq!(result.errors[0].message, "Failed to parse: invalid spec: no frontmatter");
}

// ---- state ----

#[test]
fn load_empty_state_returns_default() {
    let state = ForjaState::default();
    assert_eq!(state.version, 2);
    assert!(state.installed.is_empty());
    assert!(state.teams.is_empty());
    assert!(state.active_profile.is_none());
}

#[test]
fn state_from_parses_prefers_current_then_legacy() {
    let mut current = ForjaState::new();
    current.installed = vec!["x/y/z".to_string()];
    current.active_profile = Some("fast".to_string());
    let s = state_from_parses(Some(current), Some(vec!["a/b/c".to_string()]));
    assert_eq!(s.installed, vec!["x/y/z".to_string()]);
    assert_eq!(s.active_profile.as_deref(), Some("fast"));
    let s = state_from_parses(None, Some(vec!["a/b/c".to_string()]));
    assert_eq!(s.version, 2);
    assert_eq!(s.installed, vec!["a/b/c".to_string()]);
    assert!(s.teams.is_empty());
    let s = state_from_parses(None, None);
    assert!(s.installed.is_empty());
    assert!(s.active_profile.is_none());
}

#[test]
fn load_old_vec_format_migrates() {
    let state = ForjaState::from_installed(vec!["a/b/c".to_string(), "d/e/f".to_string()]);
    assert_eq!(state.installed, vec!["a/b/c".to_string(), "d/e/f".to_string()]);
    assert!(state.teams.is_empty());
}

#[test]
fn discover_tracks_missing_dir() {
    let tracks = discover_tracks(Ok(vec![])).unwrap();
    assert!(tracks.is_empty());
}

#[test]
fn parse_empty_body() {
    let content = "---\nid: empty-body\ntitle: Empty Body\ndescription: Has no body\n---\n";
    let (_, body) = forja::frontmatter::split_frontmatter(content).unwrap();
    let spec = spec_from_parts(spec_fm("empty-body", "Empty Body", "Has no body"), body);
    assert_eq!(spec.id(), "empty-body");
    assert!(spec.body.is_empty());
}

#[test]
fn parse_multiline_body() {
    let content = "---\nid: multi\ntitle: Multi\ndescription: Multi body\n---\n\nLine 1\nLine 2\nLine 3";
    let (_, body) = forja::frontmatter::split_frontmatter(content).unwrap();
    let spec = spec_from_parts(spec_fm("multi", "Multi", "Multi body"), body);
    assert_eq!(spec.body.lines().count(), 3);
}

#[test]
fn update_spec_status_on_disk() {
    let mut fm = spec_fm("t", "T", "D");
    fm.status = Some(SpecStatus::Draft);
    fm.tags = strings(&["x"]);
    forja::models::spec::set_status(&mut fm, SpecStatus::Done, "2026-02-18".to_string());
    let spec = spec_from_parts(fm, "Body.");
    assert_eq!(spec.status, SpecStatus::Done);
    assert_eq!(spec.frontmatter.updated.as_deref(), Some("2026-02-18"));
    assert_eq!(spec.frontmatter.tags, strings(&["x"]));
}
