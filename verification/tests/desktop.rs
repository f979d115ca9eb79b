use forja::analytics::{append_event, record_event, AnalyticsEvent, MAX_EVENTS};
use forja::desktop::marketplace::{
    agent_file_of, check_installable, check_uninstallable, create_skill_prompt, find_skill,
    list_md_files, new_skill_id, remove_installed, skill_manifest, sort_agent_files,
};
use forja::desktop::plans::{get_plan, list_plans};
use forja::desktop::sparks::{
    build_cli_args, build_quickfix_prompt, finish_spark, is_terminal, list_sparks, new_spark,
    stop_spark, ProcessOutcome, SparkType,
};
use forja::desktop::specs::{get_spec, list_specs, resolve_specs_dir};
use forja::desktop::validate::validation_dto;
use forja::error::ForjaError;
use forja::models::config::{default_mode, default_registry_url, default_version, ForjaConfig, ForjaMode};
use forja::models::phase::Phase;
use forja::models::plan::{PlanFile, PlanMetadata, PlanStatus};
use forja::models::skill::{AgentFrontmatter, ContentType, Registry, Skill};
use forja::models::spec::{spec_from_parts, SpecFrontmatter};
use forja::models::validate::{Severity, ValidationError, ValidationResult};
use forja::paths::{analytics_path, checkpoint_path, join_path, workspace_dir};
use forja::spark::events::SparkStatus;

fn ids(v: &[&str]) -> Vec<String> {
    v.iter().map(|s| s.to_string()).collect()
}

// ---- marketplace ----

#[test]
fn install_refused_when_installed() {
    let installed = ids(&["code/rust/feature"]);
    assert_eq!(
        check_installable(&installed, "code/rust/feature"),
        Err("Skill already installed: code/rust/feature".to_string())
    );
    assert_eq!(check_installable(&installed, "test/tdd/workflow"), Ok(()));
}

#[test]
fn uninstall_refused_when_not_installed() {
    let installed = ids(&["code/rust/feature"]);
    assert_eq!(
        check_uninstallable(&installed, "x/y/z"),
        Err("Skill not installed: x/y/z".to_string())
    );
    assert_eq!(check_uninstallable(&installed, "code/rust/feature"), Ok(()));
}

#[test]
fn uninstall_removes_every_copy() {
    let installed = ids(&["a", "b", "a", "c"]);
    assert_eq!(remove_installed(installed, "a"), ids(&["b", "c"]));
}

#[test]
fn install_then_uninstall_restores_the_list() {
    let before = ids(&["a", "b"]);
    let mut after = before.clone();
    assert!(check_installable(&after, "c").is_ok());
    after.push("c".to_string());
    assert_eq!(remove_installed(after, "c"), before);
}

fn registry() -> Registry {
    Registry::new(vec![Skill {
        id: "code/rust/feature".to_string(),
        name: "rust-coder".to_string(),
        description: "Writes Rust".to_string(),
        phase: Phase::Code,
        tech: "rust".to_string(),
        path: "/r/skills/code/rust/feature".to_string(),
        installed: false,
        content_types: vec![ContentType::Agent],
        keywords: vec![],
    }])
}

#[test]
fn registry_search_matches_name_description_phase_or_tech() {
    let mut reg = registry();
    reg.skills.push(Skill {
        id: "test/python/unit".to_string(),
        name: "pytest-runner".to_string(),
        description: "Runs unit tests".to_string(),
        phase: Phase::Test,
        tech: "python".to_string(),
        path: "/r/skills/test/python/unit".to_string(),
        installed: false,
        content_types: vec![ContentType::Agent],
        keywords: vec![],
    });
    let ids = |q: &str| reg.search(q).iter().map(|s| s.id.clone()).collect::<Vec<_>>();
    assert_eq!(ids("RUST"), vec!["code/rust/feature".to_string()]);
    assert_eq!(ids("unit tests"), vec!["test/python/unit".to_string()]);
    assert_eq!(ids("test"), vec!["test/python/unit".to_string()]);
    assert_eq!(ids("Python"), vec!["test/python/unit".to_string()]);
    assert_eq!(ids("").len(), 2);
    assert!(ids("golang").is_empty());
}

#[test]
fn skills_are_found_by_id() {
    let reg = registry();
    assert_eq!(find_skill(&reg, "code/rust/feature").unwrap().name, "rust-coder");
    assert_eq!(find_skill(&reg, "nope").unwrap_err(), "Skill not found: nope");
}

#[test]
fn new_skill_texts() {
    assert_eq!(new_skill_id("code", "rust", "linter"), "code/rust/linter");
    let prompt = create_skill_prompt("linter", "Lints code", "code", "rust");
    assert!(prompt.starts_with("Generate an agent markdown file for a coding agent called 'linter'.\nDescription: Lints code\nPhase: code, Tech: rust\n\n"));
    assert!(prompt.ends_with("The body should contain the agent's system prompt instructions."));
}

#[test]
fn skill_manifest_is_pretty_json() {
    let text = skill_manifest("linter", "Lints \"code\"");
    assert_eq!(text, "{\n  \"description\": \"Lints \\\"code\\\"\",\n  \"name\": \"linter\"\n}");
    let parsed: serde_json::Value = serde_json::from_str(&text).unwrap();
    assert_eq!(parsed["name"], "linter");
}

#[test]
fn agent_files_fall_back_to_the_file_stem() {
    let fm = AgentFrontmatter { name: "coder".to_string(), description: Some("d".to_string()), tools: None, model: None };
    let parsed = agent_file_of("coder.md".to_string(), "coder", "---\n...".to_string(), Some((fm, "Body".to_string())));
    assert_eq!(parsed.frontmatter.description.as_deref(), Some("d"));
    assert_eq!(parsed.body, "Body");
    let raw = agent_file_of("raw.md".to_string(), "raw", "no frontmatter".to_string(), None);
    assert_eq!(raw.filename, "raw.md");
    assert_eq!(raw.frontmatter.name, "raw");
    assert!(raw.frontmatter.description.is_none());
    assert_eq!(raw.body, "no frontmatter");
    let sorted = sort_agent_files(vec![raw, parsed]);
    assert_eq!(sorted[0].filename, "coder.md");
    assert_eq!(sorted[1].filename, "raw.md");
}

#[test]
fn md_files_are_listed_sorted() {
    assert_eq!(list_md_files(None), Vec::<String>::new());
    let names = ids(&["zeta.md", "notes.txt", "alpha.md", "README", "b.MD"]);
    assert_eq!(list_md_files(Some(names)), ids(&["alpha.md", "zeta.md"]));
}

// ---- plans ----

fn plan(id: &str) -> PlanMetadata {
    PlanMetadata {
        id: id.to_string(),
        created: "2026-02-08T14:30:22Z".to_string(),
        status: PlanStatus::Pending,
        task: "t".to_string(),
        team_size: "quick-fix".to_string(),
        profile: "fast".to_string(),
        agents: vec![],
        stack: None,
        quality_gates: vec![],
        phases: vec![],
        source_spec: None,
    }
}

#[test]
fn plans_listed_newest_first_without_checkpoints() {
    let files = vec![
        PlanFile { name: "20260101-a.json".to_string(), plan: Some(plan("20260101-a")) },
        PlanFile { name: "20260101-a.checkpoint.json".to_string(), plan: None },
        PlanFile { name: "20260102-b.json".to_string(), plan: Some(plan("20260102-b")) },
        PlanFile { name: "20260103-c.json".to_string(), plan: None },
    ];
    let listed = list_plans(Some(files));
    let got: Vec<&str> = listed.iter().map(|p| p.id.as_str()).collect();
    assert_eq!(got, vec!["20260102-b", "20260101-a"]);
    assert!(list_plans(None).is_empty());
}

#[test]
fn get_plan_by_id() {
    let files = vec![PlanFile { name: "20260101-a.json".to_string(), plan: Some(plan("20260101-a")) }];
    assert_eq!(get_plan(Some(files.clone()), "20260101-a").unwrap().id, "20260101-a");
    assert_eq!(get_plan(Some(files), "zzz").unwrap_err(), "plan not found: zzz");
    assert_eq!(get_plan(None, "x").unwrap_err(), "plans directory not found");
}

// ---- sparks ----

#[test]
fn spark_arguments() {
    assert_eq!(
        build_cli_args(SparkType::Task, "fix it"),
        ids(&["--dangerously-skip-permissions", "--print", "--", "fix it"])
    );
    assert_eq!(
        build_cli_args(SparkType::Plan, "auth")[3],
        "Create a detailed implementation plan for: auth"
    );
    let quick = build_quickfix_prompt("typo");
    assert!(quick.starts_with("Execute this as a quick fix.\n## Task\ntypo\n## Rules\n"));
    assert_eq!(build_cli_args(SparkType::QuickFix, "typo")[3], quick);
}

#[test]
fn spark_lifecycle() {
    let mut s = new_spark("s1".to_string(), "p".to_string(), SparkType::Task, "d".to_string(), "2026-01-01T00:00:00Z".to_string());
    assert_eq!(s.status, SparkStatus::Starting);
    assert!(!is_terminal(s.status));
    assert!(!finish_spark(&mut s, "later".to_string(), ProcessOutcome::Exited { success: true, stdout: "ok".to_string(), stderr: String::new() }));
    assert_eq!(s.status, SparkStatus::Starting);
    s.status = SparkStatus::Running;
    assert!(finish_spark(&mut s, "later".to_string(), ProcessOutcome::Exited { success: true, stdout: "ok".to_string(), stderr: String::new() }));
    assert_eq!(s.status, SparkStatus::Stopped);
    assert_eq!(s.output.as_deref(), Some("ok"));
    assert_eq!(s.finished_at.as_deref(), Some("later"));
    assert!(is_terminal(s.status));

    let mut f = new_spark("s2".to_string(), "p".to_string(), SparkType::Task, "d".to_string(), "t".to_string());
    f.status = SparkStatus::Running;
    finish_spark(&mut f, "t2".to_string(), ProcessOutcome::Exited { success: false, stdout: "out".to_string(), stderr: String::new() });
    assert_eq!(f.status, SparkStatus::Failed);
    assert_eq!(f.error.as_deref(), Some("out"));

    let mut e = new_spark("s3".to_string(), "p".to_string(), SparkType::Task, "d".to_string(), "t".to_string());
    e.status = SparkStatus::Running;
    finish_spark(&mut e, "t2".to_string(), ProcessOutcome::Error("no such file".to_string()));
    assert_eq!(e.error.as_deref(), Some("Failed to run the agent CLI: no such file"));

    let mut r = new_spark("s4".to_string(), "p".to_string(), SparkType::Task, "d".to_string(), "t".to_string());
    stop_spark(&mut r, "t3".to_string());
    assert_eq!(r.status, SparkStatus::Stopped);
    assert_eq!(r.finished_at.as_deref(), Some("t3"));
}

#[test]
fn sparks_listed_newest_first_memory_wins() {
    let mk = |id: &str, project: &str, at: &str| new_spark(id.to_string(), project.to_string(), SparkType::Task, "d".to_string(), at.to_string());
    let mut in_memory = mk("a", "p", "2026-01-01");
    in_memory.status = SparkStatus::Running;
    let memory = vec![in_memory, mk("other", "q", "2026-01-09")];
    let disk = vec![mk("a", "p", "2026-01-01"), mk("b", "p", "2026-01-05")];
    let listed = list_sparks(memory, disk, "p");
    let got: Vec<&str> = listed.iter().map(|s| s.id.as_str()).collect();
    assert_eq!(got, vec!["b", "a"]);
    assert_eq!(listed[1].status, SparkStatus::Running);
}

// ---- specs and validation of the desktop app ----

fn spec(id: &str) -> forja::models::spec::SpecFile {
    spec_from_parts(
        SpecFrontmatter {
            id: id.to_string(),
            title: id.to_string(),
            description: "d".to_string(),
            status: None,
            priority: None,
            track: None,
            assignee: None,
            tags: vec![],
            blocked_by: vec![],
            depends_on: vec![],
            requirements: vec![],
            constraints: vec![],
            acceptance_criteria: vec![],
            success_criteria: vec![],
            created: None,
            updated: None,
        },
        "",
    )
}

#[test]
fn specs_directory_resolution() {
    assert_eq!(resolve_specs_dir("/p", true), "/p/.forja/specs");
    assert_eq!(resolve_specs_dir("/p", false), "/p/docs/specs");
}

#[test]
fn specs_listing_treats_missing_directory_as_empty() {
    assert!(list_specs(Err(ForjaError::SpecNotFound("specs directory not found: x".to_string()))).unwrap().is_empty());
    assert_eq!(list_specs(Err(ForjaError::Io("denied".to_string()))).unwrap_err(), "IO error: denied");
    assert_eq!(list_specs(Ok(vec![spec("a")])).unwrap().len(), 1);
    assert_eq!(get_spec(Ok(vec![spec("a"), spec("b")]), "b").unwrap().id(), "b");
    assert_eq!(get_spec(Ok(vec![]), "b").unwrap_err(), "spec not found: b");
}

#[test]
fn validation_report_for_the_app() {
    let result = ValidationResult {
        errors: vec![
            ValidationError { file: "specs/a.md".to_string(), message: "bad".to_string(), severity: Severity::Error },
            ValidationError { file: "specs/b.md".to_string(), message: "meh".to_string(), severity: Severity::Warning },
        ],
    };
    let dto = validation_dto(&result);
    assert!(!dto.is_valid);
    assert_eq!(dto.error_count, 1);
    assert_eq!(dto.warning_count, 1);
    assert_eq!(dto.errors[0].severity, "error");
    assert_eq!(dto.errors[1].severity, "warning");
    assert_eq!(dto.errors[1].file, "specs/b.md");
}

// ---- paths, config, analytics ----

#[test]
fn paths_are_joined() {
    assert_eq!(join_path("/a", "b"), "/a/b");
    assert_eq!(join_path("/a/", "b"), "/a/b");
    assert_eq!(join_path("", "b"), "b");
    assert_eq!(join_path("/a", "/b"), "/b");
    assert_eq!(analytics_path("/home/u/.forja"), "/home/u/.forja/analytics.json");
    assert_eq!(checkpoint_path("/plans", "p1"), "/plans/p1.checkpoint.json");
    assert_eq!(workspace_dir("/plans", "p1"), "/plans/p1-workspace");
}

#[test]
fn config_defaults() {
    assert_eq!(default_version(), 2);
    assert_eq!(default_mode(), ForjaMode::Global);
    assert!(default_registry_url().starts_with("https://"));
    let cfg = ForjaConfig::new(ForjaMode::Project, "https://example.com/r.git".to_string(), true, Some("app".to_string()));
    assert_eq!(cfg.mode, ForjaMode::Project);
    assert_eq!(cfg.registry_url, "https://example.com/r.git");
    assert_eq!(cfg.project_name.as_deref(), Some("app"));
    assert_eq!(cfg.version, 2);
    let global = ForjaConfig::new(ForjaMode::Global, default_registry_url(), false, Some("app".to_string()));
    assert!(global.project_name.is_none());
}

fn event(id: &str) -> AnalyticsEvent {
    AnalyticsEvent { skill_id: id.to_string(), command: "task".to_string(), timestamp: "t".to_string() }
}

#[test]
fn track_creates_file() {
    let events = record_event(vec![], "code/rust/coder", "task");
    assert_eq!(events.len(), 1);
    assert_eq!(events[0].skill_id, "code/rust/coder");
    assert_eq!(events[0].command, "task");
}

#[test]
fn track_appends() {
    let events = record_event(vec![], "code/rust/coder", "task");
    let events = record_event(events, "test/tdd/workflow", "task");
    assert_eq!(events.len(), 2);
    assert_eq!(events[1].skill_id, "test/tdd/workflow");
}

#[test]
fn analytics_log_is_capped() {
    let full: Vec<AnalyticsEvent> = (0..MAX_EVENTS).map(|i| event(&format!("s{i}"))).collect();
    let after = append_event(full, event("new"));
    assert_eq!(after.len(), MAX_EVENTS);
    assert_eq!(after[0].skill_id, "s1");
    assert_eq!(after[MAX_EVENTS - 1].skill_id, "new");
}

#[test]
fn only_finished_sparks_of_the_project_are_persisted() {
    let mk = |id: &str, project: &str, status: SparkStatus| {
        let mut s = new_spark(id.to_string(), project.to_string(), SparkType::Task, "d".to_string(), "t".to_string());
        s.status = status;
        s
    };
    let all = vec![
        mk("a", "p", SparkStatus::Stopped),
        mk("b", "p", SparkStatus::Running),
        mk("c", "q", SparkStatus::Failed),
        mk("d", "p", SparkStatus::Failed),
    ];
    let kept = forja::desktop::sparks::terminal_sparks(all, "p");
    let got: Vec<&str> = kept.iter().map(|s| s.id.as_str()).collect();
    assert_eq!(got, vec!["a", "d"]);
}
