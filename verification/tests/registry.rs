use forja::error::ForjaError;
use forja::models::phase::Phase;
use forja::models::skill::{ContentType, PluginJson, Registry, Skill};
use forja::registry::catalog::{
    is_forja_registry, parse_skill, scan, PhaseDirFacts, SkillDirFacts, TechDirFacts,
};
use forja::registry::diff::{load_previous_head, parse_diff_output, ChangeType, SkillChange};
use forja::spark::events::ChatEvent;
use forja::spark::parser::parse_line;
use forja::symlink::auto_install::{auto_install_missing, missing_ids, skills_to_install};
use forja::symlink::upgrade::{find_upgradable, reinstall_skill};

fn skill_dir(name: &str, description: &str) -> SkillDirFacts {
    SkillDirFacts {
        name: name.to_string(),
        path: format!("/registry/skills/code/general/{name}"),
        manifest: Some(PluginJson {
            name: name.to_string(),
            description: description.to_string(),
            version: None,
            author: None,
            license: None,
            keywords: None,
        }),
        has_agents: true,
        has_skills: false,
        has_commands: false,
    }
}

fn one_skill_tree() -> Option<Result<Vec<PhaseDirFacts>, ForjaError>> {
    Some(Ok(vec![PhaseDirFacts {
        name: "code".to_string(),
        techs: vec![TechDirFacts {
            name: "general".to_string(),
            skills: vec![skill_dir("feature", "Writes features")],
        }],
    }]))
}

#[test]
fn scan_valid_skill_structure() {
    let registry = scan(one_skill_tree(), &vec![]).unwrap();
    assert_eq!(registry.skills.len(), 1);
    assert_eq!(registry.skills[0].id, "code/general/feature");
    assert_eq!(registry.skills[0].name, "feature");
    assert_eq!(registry.skills[0].description, "Writes features");
    assert_eq!(registry.skills[0].phase, Phase::Code);
    assert_eq!(registry.skills[0].tech, "general");
    assert_eq!(registry.skills[0].content_types, vec![ContentType::Agent]);
    assert!(!registry.skills[0].installed);
}

#[test]
fn scan_marks_installed_skill() {
    let installed = vec!["code/general/feature".to_string()];
    let registry = scan(one_skill_tree(), &installed).unwrap();
    assert!(registry.skills[0].installed);
}

#[test]
fn scan_empty_registry_returns_empty() {
    let registry = scan(None, &vec![]).unwrap();
    assert!(registry.skills.is_empty());
    let registry = scan(Some(Ok(vec![])), &vec![]).unwrap();
    assert!(registry.skills.is_empty());
}

#[test]
fn scan_skips_unknown_phases_and_unreadable_manifests() {
    let mut unreadable = skill_dir("broken", "x");
    unreadable.manifest = None;
    let tree = vec![
        PhaseDirFacts {
            name: "misc".to_string(),
            techs: vec![TechDirFacts { name: "t".to_string(), skills: vec![skill_dir("a", "A")] }],
        },
        PhaseDirFacts {
            name: "test".to_string(),
            techs: vec![TechDirFacts { name: "tdd".to_string(), skills: vec![unreadable, skill_dir("workflow", "W")] }],
        },
    ];
    let registry = scan(Some(Ok(tree)), &vec![]).unwrap();
    assert_eq!(registry.skills.len(), 1);
    assert_eq!(registry.skills[0].id, "test/tdd/workflow");
}

#[test]
fn scan_passes_read_errors_on() {
    let err = scan(Some(Err(ForjaError::Io("denied".to_string()))), &vec![]).unwrap_err();
    assert_eq!(err, ForjaError::Io("denied".to_string()));
}

#[test]
fn parse_skill_reads_content_types() {
    let mut dir = skill_dir("suite", "Generates tests");
    dir.has_skills = true;
    dir.has_commands = true;
    let skill = parse_skill(&dir, "test/generate/suite", Phase::Test, "generate", &vec![]).unwrap();
    assert_eq!(skill.content_types, vec![ContentType::Agent, ContentType::Skill, ContentType::Command]);
    dir.manifest = None;
    assert!(parse_skill(&dir, "test/generate/suite", Phase::Test, "generate", &vec![]).is_none());
}

#[test]
fn is_forja_registry_with_valid_phases() {
    let subdirs = vec!["code".to_string(), "test".to_string(), "review".to_string()];
    assert!(is_forja_registry(Some(&subdirs)));
}

#[test]
fn is_forja_registry_no_skills_dir() {
    assert!(!is_forja_registry(None));
}

#[test]
fn is_forja_registry_needs_three_phases() {
    let subdirs = vec!["code".to_string(), "test".to_string(), "misc".to_string()];
    assert!(!is_forja_registry(Some(&subdirs)));
}

#[test]
fn parse_added_file() {
    let output = "A\tskills/code/rust/coder/skill.json\n";
    let changes = parse_diff_output(output).unwrap();
    assert_eq!(changes.len(), 1);
    assert_eq!(changes[0].skill_id, "code/rust/coder");
    assert_eq!(changes[0].change_type, ChangeType::Added);
}

#[test]
fn parse_modified_file() {
    let output = "M\tskills/code/rust/coder/agents/coder.md\n";
    let changes = parse_diff_output(output).unwrap();
    assert_eq!(changes.len(), 1);
    assert_eq!(changes[0].change_type, ChangeType::Modified);
}

#[test]
fn parse_empty_output() {
    let changes = parse_diff_output("").unwrap();
    assert!(changes.is_empty());
}

#[test]
fn parse_diff_one_change_per_skill() {
    let output = "M\tskills/code/rust/coder/skill.json\nM\tskills/code/rust/coder/agents/coder.md\nD\tskills/test/tdd/workflow/skill.json\nM\tREADME.md\n";
    let changes = parse_diff_output(output).unwrap();
    assert_eq!(changes.len(), 2);
    assert!(changes.iter().any(|c| c.skill_id == "code/rust/coder" && c.change_type == ChangeType::Modified));
    assert!(changes.iter().any(|c| c.skill_id == "test/tdd/workflow" && c.change_type == ChangeType::Removed));
}

#[test]
fn previous_head_is_read_from_the_update_record() {
    assert_eq!(load_previous_head(Some(r#"{"head_before": "abc123"}"#)).unwrap(), "abc123");
    assert!(matches!(load_previous_head(None), Err(ForjaError::Git(_))));
    assert!(matches!(load_previous_head(Some("{}")), Err(ForjaError::Git(_))));
    assert!(matches!(load_previous_head(Some("not json")), Err(ForjaError::Json(_))));
}

#[test]
fn upgradable_are_installed_modified_skills() {
    let changes = vec![
        SkillChange { skill_id: "code/rust/coder".to_string(), change_type: ChangeType::Modified },
        SkillChange { skill_id: "test/tdd/workflow".to_string(), change_type: ChangeType::Modified },
        SkillChange { skill_id: "deploy/git/pr".to_string(), change_type: ChangeType::Added },
    ];
    let installed = vec!["code/rust/coder".to_string(), "deploy/git/pr".to_string()];
    assert_eq!(find_upgradable("a", "b", &changes, &installed), vec!["code/rust/coder".to_string()]);
    assert!(find_upgradable("a", "a", &changes, &installed).is_empty());
}

#[test]
fn reinstall_needs_the_skill_in_the_registry() {
    let registry = Registry::new(vec![Skill {
        id: "code/rust/coder".to_string(),
        name: "coder".to_string(),
        description: String::new(),
        phase: Phase::Code,
        tech: "rust".to_string(),
        path: "/r".to_string(),
        installed: true,
        content_types: vec![],
        keywords: vec![],
    }]);
    assert_eq!(reinstall_skill(&registry, "code/rust/coder").unwrap().name, "coder");
    assert_eq!(
        reinstall_skill(&registry, "x/y/z").unwrap_err(),
        ForjaError::SkillNotFound("x/y/z".to_string())
    );
}

fn skill_with_id(id: &str) -> Skill {
    Skill {
        id: id.to_string(),
        name: id.rsplit('/').next().unwrap().to_string(),
        description: String::new(),
        phase: Phase::Code,
        tech: "rust".to_string(),
        path: format!("/r/{id}"),
        installed: false,
        content_types: vec![],
        keywords: vec![],
    }
}

#[test]
fn auto_install_reports_every_outcome() {
    let installed = vec!["a/b/c".to_string()];
    let missing = missing_ids(&vec!["a/b/c", "d/e/f", "g/h/i", "j/k/l"], &installed);
    assert_eq!(missing, vec!["d/e/f".to_string(), "g/h/i".to_string(), "j/k/l".to_string()]);
    let registry = Registry::new(vec![skill_with_id("g/h/i"), skill_with_id("a/b/c"), skill_with_id("d/e/f")]);
    let to_install = skills_to_install(&registry, &missing);
    let found: Vec<&str> = to_install.iter().map(|s| s.id.as_str()).collect();
    assert_eq!(found, vec!["d/e/f", "g/h/i"]);
    let results = vec![Ok(()), Err("boom".to_string())];
    let (result, ids) = auto_install_missing(&registry, &missing, &results, installed);
    assert_eq!(result.installed, vec!["d/e/f".to_string()]);
    assert_eq!(result.failed, vec![("g/h/i".to_string(), "boom".to_string())]);
    assert_eq!(result.not_found, vec!["j/k/l".to_string()]);
    assert_eq!(ids, vec!["a/b/c".to_string(), "d/e/f".to_string()]);
    assert_eq!(result.installed.len() + result.failed.len() + result.not_found.len(), missing.len());
}

#[test]
fn auto_install_with_nothing_missing_reports_nothing() {
    let installed = vec!["a/b/c".to_string()];
    let missing = missing_ids(&vec!["a/b/c"], &installed);
    assert!(missing.is_empty());
    let registry = Registry::new(vec![skill_with_id("a/b/c")]);
    let (result, ids) = auto_install_missing(&registry, &missing, &vec![], installed.clone());
    assert!(result.installed.is_empty() && result.failed.is_empty() && result.not_found.is_empty());
    assert_eq!(ids, installed);
}

#[test]
fn empty_line_returns_none() {
    assert!(parse_line("").is_none());
    assert!(parse_line("   ").is_none());
}

#[test]
fn invalid_json_returns_none() {
    assert!(parse_line("not json").is_none());
}

#[test]
fn unknown_event_type_returns_none() {
    assert!(parse_line(r#"{"type": "unknown_thing"}"#).is_none());
}

#[test]
fn parse_message_stop() {
    let event = parse_line(r#"{"type": "message_stop"}"#);
    assert!(matches!(event, Some(ChatEvent::MessageStop)));
}

#[test]
fn parse_error_event() {
    let event = parse_line(r#"{"type": "error", "message": "rate limited"}"#);
    match event {
        Some(ChatEvent::Error { message }) => assert_eq!(message, "rate limited"),
        other => panic!("expected Error, got {:?}", other),
    }
}

#[test]
fn parse_text_delta_and_block_stop() {
    match parse_line(r#"  {"type": "content_block_delta", "index": 2, "delta": {"text": "hi"}}  "#) {
        Some(ChatEvent::TextDelta { index, text }) => {
            assert_eq!(index, 2);
            assert_eq!(text, "hi");
        }
        other => panic!("expected TextDelta, got {:?}", other),
    }
    assert!(matches!(
        parse_line(r#"{"type": "content_block_stop", "index": 0}"#),
        Some(ChatEvent::ContentBlockStop { index: 0 })
    ));
    assert!(parse_line(r#"{"type": "content_block_stop"}"#).is_none());
    match parse_line(r#"{"type": "message_start", "id": "m1"}"#) {
        Some(ChatEvent::MessageStart { id, role }) => {
            assert_eq!(id, "m1");
            assert_eq!(role, "");
        }
        other => panic!("expected MessageStart, got {:?}", other),
    }
}
