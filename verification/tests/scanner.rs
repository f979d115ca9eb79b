use forja::models::phase::Phase;
use forja::models::skill::{ContentType, Registry, Skill};
use forja::scanner::ai::{
    ai_rec_to_skill_rec, analysis_prompt, build_skill_catalog, deep_dive_prompt,
    dive_recommendations, extract_json_block,
};
use forja::scanner::deterministic::{
    parse_cargo_toml_deps, probed_paths, scan, EntryFacts, PathKind, ProjectFacts,
};
use forja::scanner::matcher::{match_skills, merge_recommendations, sort_recommendations};
use forja::scanner::models::{
    AiSkillRecommendation, AiTechDeepDive, Confidence, DetectedTech, DetectionSource,
    SkillRecommendation,
};

// ---- ai ----

#[test]
fn extract_json_from_markdown() {
    let text = "Here is the analysis:\n```json\n{\"technologies\": [{\"name\": \"rust\"}]}\n```\nThat's all.";
    let json = extract_json_block(text).unwrap();
    assert!(json.contains("\"rust\""));
    let parsed: serde_json::Value = serde_json::from_str(json).unwrap();
    assert!(parsed["technologies"].is_array());
}

#[test]
fn extract_json_no_block() {
    let text = "No JSON here, just text.";
    assert!(extract_json_block(text).is_none());
}

#[test]
fn extract_json_multiple_blocks_takes_first() {
    let text = "\n```json\n{\"first\": true}\n```\n\nSome text\n\n```json\n{\"second\": true}\n```";
    let json = extract_json_block(text).unwrap();
    assert!(json.contains("\"first\""));
    assert!(!json.contains("\"second\""));
}

#[test]
fn extract_json_unclosed_block() {
    assert!(extract_json_block("```json\n{\"a\": 1}").is_none());
}

fn skill(id: &str, name: &str, description: &str, phase: Phase) -> Skill {
    Skill {
        id: id.to_string(),
        name: name.to_string(),
        description: description.to_string(),
        phase,
        tech: "general".to_string(),
        path: "/tmp/test".to_string(),
        installed: false,
        content_types: vec![ContentType::Agent],
        keywords: vec![],
    }
}

#[test]
fn build_skill_catalog_format() {
    let skills = vec![Skill {
        id: "code/rust/feature".into(),
        name: "rust-coder".into(),
        description: "Writes Rust code".into(),
        phase: Phase::Code,
        tech: "rust".into(),
        path: "/tmp".into(),
        installed: false,
        content_types: vec![],
        keywords: vec![],
    }];
    let catalog = build_skill_catalog(&skills);
    assert!(catalog.contains("code/rust/feature"));
    assert!(catalog.contains("Writes Rust code"));
}

#[test]
fn ai_rec_to_skill_rec_conversion() {
    let ai = AiSkillRecommendation {
        skill_id: "code/rust/feature".into(),
        confidence: Confidence::High,
        reason: "Strong Rust project".into(),
    };
    let rec = ai_rec_to_skill_rec(ai, "rust");
    assert_eq!(rec.skill_id, "code/rust/feature");
    assert_eq!(rec.phase, "code");
    assert_eq!(rec.name, "feature");
    assert_eq!(rec.matched_techs, vec!["rust"]);
    assert_eq!(rec.confidence, Confidence::High);
    assert!(!rec.installed);
}

#[test]
fn dive_recommendations_convert_each() {
    let dive = AiTechDeepDive {
        technology: "rust".to_string(),
        recommended_skills: vec![
            AiSkillRecommendation { skill_id: "code/rust/feature".into(), confidence: Confidence::High, reason: "a".into() },
            AiSkillRecommendation { skill_id: "test/tdd/workflow".into(), confidence: Confidence::Low, reason: "b".into() },
        ],
    };
    let recs = dive_recommendations(dive, "rust");
    assert_eq!(recs.len(), 2);
    assert_eq!(recs[1].skill_id, "test/tdd/workflow");
    assert_eq!(recs[1].phase, "test");
    assert_eq!(recs[1].name, "workflow");
}

#[test]
fn prompts_name_the_project_and_technology() {
    let techs = vec![make_tech("rust")];
    let p = analysis_prompt("/repo", &techs);
    assert!(p.contains("/repo"));
    assert!(p.contains("rust"));
    let d = deep_dive_prompt("/repo", &techs[0], "- code/rust/feature");
    assert!(d.contains("rust"));
    assert!(d.contains("- code/rust/feature"));
}

// ---- deterministic ----

fn facts(files: &[&str], dirs: &[&str], entries: Vec<EntryFacts>, package_json: Option<&str>, cargo_toml: Option<&str>) -> ProjectFacts {
    let probes = probed_paths()
        .into_iter()
        .map(|p| {
            let kind = if files.contains(&p) {
                PathKind::File
            } else if dirs.contains(&p) {
                PathKind::Dir
            } else {
                PathKind::Missing
            };
            (p.to_string(), kind)
        })
        .collect();
    ProjectFacts {
        probes,
        root_entries: entries,
        package_json: package_json.map(|s| s.to_string()),
        cargo_toml: cargo_toml.map(|s| s.to_string()),
    }
}

fn file_entry(name: &str) -> EntryFacts {
    EntryFacts { name: name.to_string(), kind: PathKind::File, files: vec![] }
}

fn dir_entry(name: &str, files: &[&str]) -> EntryFacts {
    EntryFacts { name: name.to_string(), kind: PathKind::Dir, files: files.iter().map(|f| f.to_string()).collect() }
}

#[test]
fn detect_rust_from_cargo_toml() {
    let cargo = "[package]\nname = \"test\"\n[dependencies]\ntokio = \"1\"\n";
    let techs = scan(&facts(&["Cargo.toml"], &[], vec![file_entry("Cargo.toml")], None, Some(cargo)));
    assert!(techs.iter().any(|t| t.name == "rust"), "should detect rust");
    assert!(techs.iter().any(|t| t.name == "tokio"), "should detect tokio dep");
}

#[test]
fn detect_typescript_from_tsconfig() {
    let techs = scan(&facts(&["tsconfig.json"], &[], vec![file_entry("tsconfig.json")], None, None));
    assert!(techs.iter().any(|t| t.name == "typescript"));
}

#[test]
fn detect_python_from_requirements() {
    let techs = scan(&facts(&["requirements.txt"], &[], vec![file_entry("requirements.txt")], None, None));
    assert!(techs.iter().any(|t| t.name == "python"));
}

#[test]
fn detect_nextjs_from_package_json() {
    let pkg = r#"{"dependencies":{"next":"14.0.0"}}"#;
    let techs = scan(&facts(&["package.json"], &[], vec![file_entry("package.json")], Some(pkg), None));
    assert!(techs.iter().any(|t| t.name == "nextjs"), "should detect nextjs");
    assert!(techs.iter().any(|t| t.name == "nodejs"), "should detect nodejs from package.json");
    let next = techs.iter().find(|t| t.name == "nextjs").unwrap();
    assert_eq!(next.version.as_deref(), Some("14.0.0"));
}

#[test]
fn detect_nextjs_from_config_file() {
    let techs = scan(&facts(&[], &[], vec![file_entry("next.config.mjs")], None, None));
    assert!(techs.iter().any(|t| t.name == "nextjs"));
}

#[test]
fn detect_golang_from_go_mod() {
    let techs = scan(&facts(&["go.mod"], &[], vec![file_entry("go.mod")], None, None));
    assert!(techs.iter().any(|t| t.name == "golang"));
}

#[test]
fn detect_ci_from_github_workflows() {
    let techs = scan(&facts(&[], &[".github/workflows"], vec![dir_entry(".github", &[])], None, None));
    assert!(techs.iter().any(|t| t.name == "ci"));
}

#[test]
fn detect_prisma_from_schema() {
    let techs = scan(&facts(&["prisma/schema.prisma"], &[], vec![dir_entry("prisma", &["schema.prisma"])], None, None));
    assert!(techs.iter().any(|t| t.name == "prisma"));
}

#[test]
fn detect_file_extensions_shallow() {
    let techs = scan(&facts(&[], &[], vec![dir_entry("src", &["main.py"])], None, None));
    assert!(techs.iter().any(|t| t.name == "python"));
}

#[test]
fn empty_dir_returns_empty() {
    let techs = scan(&facts(&[], &[], vec![], None, None));
    assert!(techs.is_empty());
}

#[test]
fn multiple_evidence_merged() {
    let techs = scan(&facts(
        &["requirements.txt", "pyproject.toml"],
        &[],
        vec![file_entry("requirements.txt"), file_entry("pyproject.toml")],
        None,
        None,
    ));
    let python = techs.iter().find(|t| t.name == "python").unwrap();
    assert!(python.evidence.len() >= 2, "should have multiple evidence entries");
    assert_eq!(techs.iter().filter(|t| t.name == "python").count(), 1);
}

#[test]
fn skips_node_modules() {
    let techs = scan(&facts(&[], &[], vec![dir_entry("node_modules", &["index.ts"])], None, None));
    assert!(!techs.iter().any(|t| t.name == "typescript"), "should not detect typescript from node_modules");
}

#[test]
fn all_detections_are_deterministic() {
    let techs = scan(&facts(&["Cargo.toml"], &[], vec![file_entry("Cargo.toml")], None, Some("[package]\nname=\"t\"")));
    assert!(!techs.is_empty());
    for tech in &techs {
        assert_eq!(tech.source, DetectionSource::Deterministic);
    }
}

#[test]
fn cargo_dependencies_are_read_from_the_dependency_sections() {
    let deps = parse_cargo_toml_deps("[package]\nname = \"x\"\n\n[dependencies]\ntokio = \"1\"\nserde = { version = \"1\" }\n\n[dev-dependencies]\naxum = \"0.7\"\n");
    assert!(deps.contains(&"tokio".to_string()));
    assert!(deps.contains(&"serde".to_string()));
    assert!(deps.contains(&"axum".to_string()));
    assert!(!deps.contains(&"name".to_string()));
}

// ---- matcher ----

fn make_skill(id: &str, name: &str, phase: Phase) -> Skill {
    skill(id, name, &format!("{name} skill"), phase)
}

fn make_registry() -> Registry {
    Registry::new(vec![
        make_skill("code/rust/feature", "rust-coder", Phase::Code),
        make_skill("code/typescript/feature", "ts-coder", Phase::Code),
        make_skill("code/nextjs/feature", "nextjs-coder", Phase::Code),
        make_skill("code/database/feature", "db-coder", Phase::Code),
        make_skill("research/codebase/explorer", "explorer", Phase::Research),
        make_skill("review/code-quality/quality-check", "quality-check", Phase::Review),
        make_skill("review/security/auditor", "auditor", Phase::Review),
        make_skill("deploy/git/commit", "committer", Phase::Deploy),
        make_skill("deploy/git/pr", "pr-creator", Phase::Deploy),
        make_skill("test/tdd/workflow", "tdd-guide", Phase::Test),
        make_skill("test/generate/suite", "test-gen", Phase::Test),
        make_skill("test/coverage/analyzer", "coverage", Phase::Test),
        make_skill("test/e2e/playwright", "e2e-tester", Phase::Test),
    ])
}

fn make_tech(name: &str) -> DetectedTech {
    DetectedTech {
        name: name.to_string(),
        category: "language".to_string(),
        evidence: vec![format!("Found {name}")],
        source: DetectionSource::Deterministic,
        confidence: Confidence::High,
        version: None,
    }
}

#[test]
fn match_rust_project() {
    let registry = make_registry();
    let techs = vec![make_tech("rust")];
    let recs = match_skills(&techs, &registry, &vec![]);
    assert!(recs.iter().any(|r| r.skill_id == "code/rust/feature"));
    assert!(recs.iter().any(|r| r.skill_id == "research/codebase/explorer"));
    assert!(recs.iter().any(|r| r.skill_id == "deploy/git/commit"));
    let rust = recs.iter().find(|r| r.skill_id == "code/rust/feature").unwrap();
    assert_eq!(rust.reason, "Found rust");
    assert_eq!(rust.phase, "code");
}

#[test]
fn match_marks_installed() {
    let registry = make_registry();
    let techs = vec![make_tech("rust")];
    let installed = vec!["code/rust/feature".to_string()];
    let recs = match_skills(&techs, &registry, &installed);
    let rust_rec = recs.iter().find(|r| r.skill_id == "code/rust/feature").unwrap();
    assert!(rust_rec.installed);
}

#[test]
fn match_no_duplicate_skill_ids() {
    let registry = make_registry();
    let techs = vec![make_tech("sql"), make_tech("prisma")];
    let recs = match_skills(&techs, &registry, &vec![]);
    let db_count = recs.iter().filter(|r| r.skill_id == "code/database/feature").count();
    assert_eq!(db_count, 1, "database skill should appear once");
    for (i, a) in recs.iter().enumerate() {
        for b in recs.iter().skip(i + 1) {
            assert_ne!(a.skill_id, b.skill_id);
        }
    }
}

#[test]
fn match_empty_techs_still_recommends_always() {
    let registry = make_registry();
    let recs = match_skills(&vec![], &registry, &vec![]);
    assert!(!recs.is_empty(), "should still have always-recommend skills");
    assert!(recs.iter().any(|r| r.skill_id == "research/codebase/explorer"));
}

#[test]
fn match_skips_skills_the_registry_lacks() {
    let registry = Registry::new(vec![make_skill("code/rust/feature", "rust-coder", Phase::Code)]);
    let recs = match_skills(&vec![make_tech("rust")], &registry, &vec![]);
    assert_eq!(recs.len(), 1);
    assert_eq!(recs[0].skill_id, "code/rust/feature");
}

fn rec(id: &str, phase: &str, confidence: Confidence, reason: &str) -> SkillRecommendation {
    SkillRecommendation {
        skill_id: id.to_string(),
        name: id.rsplit('/').next().unwrap().to_string(),
        description: String::new(),
        phase: phase.to_string(),
        confidence,
        reason: reason.to_string(),
        installed: false,
        matched_techs: vec![],
    }
}

#[test]
fn merge_ai_wins_on_same_confidence() {
    let det = vec![SkillRecommendation {
        skill_id: "code/rust/feature".to_string(),
        name: "rust-coder".to_string(),
        description: "Writes Rust".to_string(),
        phase: "code".to_string(),
        confidence: Confidence::High,
        reason: "Found Cargo.toml".to_string(),
        installed: false,
        matched_techs: vec!["rust".to_string()],
    }];
    let ai = vec![SkillRecommendation {
        skill_id: "code/rust/feature".to_string(),
        name: "rust-coder".to_string(),
        description: "Writes Rust".to_string(),
        phase: "code".to_string(),
        confidence: Confidence::High,
        reason: "Rust project using tokio async with axum web framework".to_string(),
        installed: false,
        matched_techs: vec!["rust".to_string()],
    }];
    let merged = merge_recommendations(det, ai);
    let rust = merged.iter().find(|r| r.skill_id == "code/rust/feature").unwrap();
    assert!(rust.reason.contains("tokio"), "AI reason should win on same confidence");
}

#[test]
fn merge_higher_confidence_wins() {
    let det = vec![SkillRecommendation {
        skill_id: "test/e2e/playwright".to_string(),
        name: "e2e-tester".to_string(),
        description: "E2E testing".to_string(),
        phase: "test".to_string(),
        confidence: Confidence::Low,
        reason: "Maybe".to_string(),
        installed: false,
        matched_techs: vec![],
    }];
    let ai = vec![SkillRecommendation {
        skill_id: "test/e2e/playwright".to_string(),
        name: "e2e-tester".to_string(),
        description: "E2E testing".to_string(),
        phase: "test".to_string(),
        confidence: Confidence::High,
        reason: "Playwright config found with comprehensive test suite".to_string(),
        installed: false,
        matched_techs: vec!["playwright".to_string()],
    }];
    let merged = merge_recommendations(det, ai);
    let pw = merged.iter().find(|r| r.skill_id == "test/e2e/playwright").unwrap();
    assert_eq!(pw.confidence, Confidence::High);
}

#[test]
fn merge_lower_ai_confidence_keeps_deterministic() {
    let det = vec![rec("code/rust/feature", "code", Confidence::High, "Found Cargo.toml")];
    let ai = vec![rec("code/rust/feature", "code", Confidence::Low, "guess")];
    let merged = merge_recommendations(det, ai);
    assert_eq!(merged.len(), 1);
    assert_eq!(merged[0].reason, "Found Cargo.toml");
    assert_eq!(merged[0].confidence, Confidence::High);
}

#[test]
fn merge_keeps_one_per_skill_and_adds_new_ones() {
    let det = vec![
        rec("code/rust/feature", "code", Confidence::Medium, "a"),
        rec("code/rust/feature", "code", Confidence::Low, "b"),
        rec("deploy/git/commit", "deploy", Confidence::High, "c"),
    ];
    let ai = vec![rec("research/codebase/explorer", "research", Confidence::Low, "d")];
    let merged = merge_recommendations(det, ai);
    let ids: Vec<&str> = merged.iter().map(|r| r.skill_id.as_str()).collect();
    assert_eq!(ids, vec!["research/codebase/explorer", "code/rust/feature", "deploy/git/commit"]);
    assert_eq!(merged[1].reason, "b");
}

#[test]
fn sort_by_phase_then_confidence() {
    let mut recs = vec![
        rec("deploy/git/commit", "deploy", Confidence::High, ""),
        rec("research/codebase/explorer", "research", Confidence::Medium, ""),
        rec("code/rust/feature", "code", Confidence::High, ""),
    ];
    sort_recommendations(&mut recs);
    assert_eq!(recs[0].phase, "research");
    assert_eq!(recs[1].phase, "code");
    assert_eq!(recs[2].phase, "deploy");
}

#[test]
fn sort_puts_higher_confidence_first_within_a_phase() {
    let mut recs = vec![
        rec("test/a/x", "test", Confidence::Low, ""),
        rec("test/b/y", "test", Confidence::High, ""),
        rec("test/c/z", "test", Confidence::Medium, ""),
    ];
    sort_recommendations(&mut recs);
    let ids: Vec<&str> = recs.iter().map(|r| r.skill_id.as_str()).collect();
    assert_eq!(ids, vec!["test/b/y", "test/c/z", "test/a/x"]);
}

// ---- models ----

#[test]
fn confidence_ordering() {
    assert!(Confidence::Low < Confidence::Medium);
    assert!(Confidence::Medium < Confidence::High);
    assert!(Confidence::Low < Confidence::High);
    assert!(Confidence::Low.rank() < Confidence::Medium.rank());
    assert!(Confidence::Medium.rank() < Confidence::High.rank());
    assert!(Confidence::High.at_least(&Confidence::Medium));
    assert!(!Confidence::Low.at_least(&Confidence::Medium));
}

#[test]
fn confidence_indicators() {
    assert_eq!(Confidence::Low.as_indicator(), "+");
    assert_eq!(Confidence::Medium.as_indicator(), "++");
    assert_eq!(Confidence::High.as_indicator(), "+++");
}

#[test]
fn confidence_sorting() {
    let mut levels = vec![Confidence::High, Confidence::Low, Confidence::Medium];
    levels.sort();
    assert_eq!(levels, vec![Confidence::Low, Confidence::Medium, Confidence::High]);
}
