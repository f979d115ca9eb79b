use forja::error::ForjaError;
use forja::frontmatter::split_frontmatter;
use forja::lint::{check_field_value, is_kebab_case, lint_skill, SkillFiles};
use forja::models::acceptance::AcceptanceCriterion;
use forja::models::decision::DecisionStatus;
use forja::models::lint::{LintIssue, LintLevel, LintResult};
use forja::models::run_log::{
    complete_run, run_log_file, unsigned_magnitude, RunLogFrontmatter, RunStatus,
};
use forja::models::track::TrackStatus;

#[test]
fn split_basic_frontmatter() {
    let content = "---\nname: test\n---\nBody here.";
    let (yaml, body) = split_frontmatter(content).unwrap();
    assert_eq!(yaml, "name: test");
    assert_eq!(body, "Body here.");
}

#[test]
fn split_trims_whitespace() {
    let content = "---\n  key: value  \n---\n\n  Body with leading spaces.";
    let (yaml, body) = split_frontmatter(content).unwrap();
    assert_eq!(yaml, "key: value");
    assert_eq!(body, "Body with leading spaces.");
}

#[test]
fn split_fails_without_opening() {
    let err = split_frontmatter("no frontmatter").unwrap_err();
    assert!(err.message().contains("missing opening ---"));
}

#[test]
fn split_fails_without_closing() {
    let err = split_frontmatter("---\nno closing").unwrap_err();
    assert!(err.message().contains("missing closing ---"));
}

#[test]
fn split_frontmatter_trims_correctly() {
    let content = "---\n  key: value  \n---\n\n  Body with leading spaces.";
    let (yaml, body) = split_frontmatter(content).unwrap();
    assert_eq!(yaml, "key: value");
    assert_eq!(body, "Body with leading spaces.");
}

#[test]
fn split_errors_are_invalid_spec() {
    assert!(matches!(split_frontmatter("x"), Err(ForjaError::InvalidSpec(_))));
    assert!(matches!(split_frontmatter("---"), Err(ForjaError::InvalidSpec(_))));
}

#[test]
fn split_reads_back_what_was_written() {
    let yaml = "spec_id: auth\nstatus: running\n";
    let body = "\n  output of the run";
    let written = format!("---{yaml}---{body}");
    let (y, b) = split_frontmatter(&written).unwrap();
    assert_eq!(y, yaml.trim());
    assert_eq!(b, body.trim_start());
}

#[test]
fn split_empty_frontmatter_and_body() {
    let (yaml, body) = split_frontmatter("------").unwrap();
    assert_eq!(yaml, "");
    assert_eq!(body, "");
}

#[test]
fn is_kebab_case_valid() {
    assert!(is_kebab_case("feature"));
    assert!(is_kebab_case("code-review"));
    assert!(is_kebab_case("my-skill-123"));
}

#[test]
fn is_kebab_case_invalid() {
    assert!(!is_kebab_case(""));
    assert!(!is_kebab_case("CamelCase"));
    assert!(!is_kebab_case("snake_case"));
    assert!(!is_kebab_case("-leading"));
    assert!(!is_kebab_case("trailing-"));
    assert!(!is_kebab_case("double--dash"));
}

#[test]
fn lint_missing_manifest() {
    let files = SkillFiles { manifest: None, agent_files: vec![], has_readme: false };
    let result = lint_skill("/tmp/skill", "code/test/skill", &files);
    assert!(result.has_errors());
    assert!(result.issues.iter().any(|i| i.rule == "manifest-missing"));
}

#[test]
fn lint_valid_skill() {
    let manifest = r#"{ "name": "my-skill", "description": "A test skill" }"#;
    let files = SkillFiles {
        manifest: Some(Some(manifest.to_string())),
        agent_files: vec![],
        has_readme: true,
    };
    let result = lint_skill("/tmp/skill", "code/test/my-skill", &files);
    assert!(!result.has_errors());
    assert_eq!(result.warning_count(), 0);
}

#[test]
fn lint_reports_each_problem() {
    let files = SkillFiles {
        manifest: Some(Some("{ not json".to_string())),
        agent_files: vec![("broken.md".to_string(), "---\nname: x\nno closing".to_string())],
        has_readme: false,
    };
    let result = lint_skill("/tmp/skill", "code/test/My_Skill", &files);
    let rules: Vec<&str> = result.issues.iter().map(|i| i.rule.as_str()).collect();
    assert!(rules.contains(&"manifest-invalid-json"));
    assert!(rules.contains(&"agent-frontmatter-unclosed"));
    assert!(rules.contains(&"readme-missing"));
    assert!(rules.contains(&"name-not-kebab-case"));
    assert_eq!(result.error_count() + result.warning_count(), result.issues.len());
}

#[test]
fn display_simple() {
    let c = AcceptanceCriterion::Simple("Users can log in".to_string());
    assert_eq!(c.to_display_string(), "Users can log in");
}

#[test]
fn display_structured_with_test() {
    let c = AcceptanceCriterion::Structured {
        description: "Auth works".to_string(),
        test: Some("cargo test".to_string()),
    };
    assert_eq!(c.to_display_string(), "Auth works (test: cargo test)");
}

#[test]
fn display_structured_without_test() {
    let c = AcceptanceCriterion::Structured { description: "Auth works".to_string(), test: None };
    assert_eq!(c.to_display_string(), "Auth works");
}

#[test]
fn criterion_accessors() {
    let s = AcceptanceCriterion::Simple("Test this".to_string());
    assert_eq!(s.description(), "Test this");
    assert_eq!(s.test_command(), None);
    let t = AcceptanceCriterion::Structured {
        description: "Login works".to_string(),
        test: Some("npm test".to_string()),
    };
    assert_eq!(t.description(), "Login works");
    assert_eq!(t.test_command(), Some("npm test"));
}

#[test]
fn decision_status_as_str() {
    assert_eq!(DecisionStatus::Proposed.as_str(), "proposed");
    assert_eq!(DecisionStatus::Accepted.as_str(), "accepted");
    assert_eq!(DecisionStatus::Deprecated.as_str(), "deprecated");
    assert_eq!(DecisionStatus::Superseded.as_str(), "superseded");
}

#[test]
fn lint_result_counts() {
    let result = LintResult {
        skill_path: "/test".to_string(),
        skill_id: "test/skill".to_string(),
        issues: vec![
            LintIssue {
                level: LintLevel::Error,
                rule: "manifest-missing".to_string(),
                message: "No manifest found".to_string(),
            },
            LintIssue {
                level: LintLevel::Warning,
                rule: "readme-missing".to_string(),
                message: "No README.md".to_string(),
            },
            LintIssue {
                level: LintLevel::Error,
                rule: "name-empty".to_string(),
                message: "Name is empty".to_string(),
            },
        ],
    };

    assert!(result.has_errors());
    assert_eq!(result.error_count(), 2);
    assert_eq!(result.warning_count(), 1);
}

#[test]
fn lint_result_no_errors() {
    let result = LintResult {
        skill_path: "/test".to_string(),
        skill_id: "test/skill".to_string(),
        issues: vec![LintIssue {
            level: LintLevel::Warning,
            rule: "readme-missing".to_string(),
            message: "No README.md".to_string(),
        }],
    };

    assert!(!result.has_errors());
    assert_eq!(result.error_count(), 0);
    assert_eq!(result.warning_count(), 1);
}

#[test]
fn lint_level_names() {
    assert_eq!(LintLevel::Error.as_str(), "error");
    assert_eq!(LintLevel::Warning.as_str(), "warning");
}

#[test]
fn run_status_as_str() {
    assert_eq!(RunStatus::Running.as_str(), "running");
    assert_eq!(RunStatus::Complete.as_str(), "complete");
    assert_eq!(RunStatus::Failed.as_str(), "failed");
}

#[test]
fn create_run_log_with_plan() {
    let (name, content) =
        run_log_file("user-auth", Some("plan-1"), "coder", "20250101-120000", "2025-01-01T12:00:00+00:00");
    assert_eq!(name, "run-20250101-120000-user-auth.md");
    assert_eq!(
        content,
        "---\nspec_id: user-auth\nplan_id: plan-1\nagent: coder\nstatus: running\nstarted_at: \"2025-01-01T12:00:00+00:00\"\n---\n"
    );
}

#[test]
fn create_run_log_without_plan() {
    let (name, content) = run_log_file("s", None, "a", "20250101-000000", "t");
    assert_eq!(name, "run-20250101-000000-s.md");
    assert!(!content.contains("plan_id"));
    let (yaml, body) = split_frontmatter(&content).unwrap();
    assert_eq!(yaml, "spec_id: s\nagent: a\nstatus: running\nstarted_at: \"t\"");
    assert_eq!(body, "");
}

#[test]
fn track_status_as_str() {
    assert_eq!(TrackStatus::Draft.as_str(), "draft");
    assert_eq!(TrackStatus::InProgress.as_str(), "in-progress");
    assert_eq!(TrackStatus::Complete.as_str(), "complete");
    assert_eq!(TrackStatus::Archived.as_str(), "archived");
}

#[test]
fn error_messages() {
    assert_eq!(ForjaError::NoPlansFound.message(), "no pending plans found");
    assert_eq!(ForjaError::ClaudeCliTimeout(120).message(), "agent CLI timed out after 120s");
    assert_eq!(ForjaError::SpecNotFound("x".to_string()).message(), "spec not found: x");
}

#[test]
fn complete_run_before_start_counts_seconds_without_sign() {
    let mut fm = RunLogFrontmatter {
        spec_id: "auth".to_string(),
        plan_id: None,
        agent: "coder".to_string(),
        status: RunStatus::Running,
        started_at: "2026-01-01T00:01:00+00:00".to_string(),
        completed_at: None,
        duration_seconds: None,
        exit_code: None,
    };
    complete_run(&mut fm, RunStatus::Complete, None, "2026-01-01T00:00:15+00:00".to_string());
    assert_eq!(fm.duration_seconds, Some(45));
}

#[test]
fn unsigned_magnitude_drops_the_sign() {
    assert_eq!(unsigned_magnitude(7), 7);
    assert_eq!(unsigned_magnitude(-5), 5);
    assert_eq!(unsigned_magnitude(0), 0);
    assert_eq!(unsigned_magnitude(i64::MIN), 1u64 << 63);
}

#[test]
fn complete_run_log_updates_fields() {
    let mut fm = RunLogFrontmatter {
        spec_id: "auth".to_string(),
        plan_id: None,
        agent: "coder".to_string(),
        status: RunStatus::Running,
        started_at: "2026-01-01T00:00:00+00:00".to_string(),
        completed_at: None,
        duration_seconds: None,
        exit_code: None,
    };
    complete_run(&mut fm, RunStatus::Complete, Some(0), "2026-01-01T00:01:30+00:00".to_string());
    assert_eq!(fm.status, RunStatus::Complete);
    assert_eq!(fm.completed_at.as_deref(), Some("2026-01-01T00:01:30+00:00"));
    assert_eq!(fm.exit_code, Some(0));
    assert_eq!(fm.duration_seconds, Some(90));
    fm.started_at = "not a time".to_string();
    fm.duration_seconds = Some(7);
    complete_run(&mut fm, RunStatus::Failed, Some(1), "2026-01-01T00:02:00+00:00".to_string());
    assert_eq!(fm.duration_seconds, Some(7));
    assert_eq!(fm.status, RunStatus::Failed);
}

#[test]
fn check_field_value_reports_missing_or_empty_fields() {
    let mut issues: Vec<LintIssue> = Vec::new();
    check_field_value(&mut issues, Some("demo".to_string()), "manifest-name-missing", "no name");
    assert!(issues.is_empty());
    check_field_value(&mut issues, Some(String::new()), "manifest-name-missing", "no name");
    check_field_value(&mut issues, None, "manifest-description-missing", "no description");
    assert_eq!(issues.len(), 2);
    assert_eq!(issues[0].level, LintLevel::Error);
    assert_eq!(issues[0].rule, "manifest-name-missing");
    assert_eq!(issues[0].message, "no name");
    assert_eq!(issues[1].rule, "manifest-description-missing");
}
