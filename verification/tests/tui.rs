use forja::error::ForjaError;
use forja::scanner::models::{Confidence, SkillRecommendation};
use forja::tui::app::{App, Focus, Profile};
use forja::tui::input::handle_key;
use forja::tui::keys::{Key, KeyPress};
use forja::tui::launch::{plan_output, task_output, team_options, ConfiguredTeam};
use forja::tui::scan_app::ScanApp;
use forja::tui::scan_input;
use forja::tui::scan_ui::{
    calculate_cursor_line, capitalize, checkbox_marks, confidence_marks, item_note, pad_name, scroll_for,
};
use forja::tui::ui::{build_preview, TuiMode};

fn labels(v: &[&str]) -> Vec<String> {
    v.iter().map(|s| s.to_string()).collect()
}

fn solo_app() -> App {
    App::new(labels(&["Solo"]), labels(&["solo"]), labels(&["balanced"]))
}

fn press(key: Key) -> KeyPress {
    KeyPress { key, control: false }
}

// ---- the launcher form ----

#[test]
fn initial_focus_is_textarea() {
    let app = solo_app();
    assert_eq!(app.focus, Focus::Textarea);
}

#[test]
fn tab_cycles_focus_forward() {
    let mut app = solo_app();
    app.next_focus();
    assert_eq!(app.focus, Focus::Team);
    app.next_focus();
    assert_eq!(app.focus, Focus::Profile);
    app.next_focus();
    assert_eq!(app.focus, Focus::Textarea);
}

#[test]
fn shift_tab_cycles_focus_backward() {
    let mut app = solo_app();
    app.prev_focus();
    assert_eq!(app.focus, Focus::Profile);
    app.next_focus();
    assert_eq!(app.focus, Focus::Textarea);
}

#[test]
fn team_selector_wraps() {
    let mut app = App::new(
        labels(&["Solo", "quick-fix", "solo-sprint"]),
        labels(&["solo", "quick-fix", "solo-sprint"]),
        labels(&["balanced"]),
    );
    app.focus = Focus::Team;
    assert_eq!(app.team_index, 0);
    app.select_next();
    assert_eq!(app.team_index, 1);
    app.select_next();
    assert_eq!(app.team_index, 2);
    app.select_next();
    assert_eq!(app.team_index, 0);
}

#[test]
fn profile_selector_wraps() {
    let mut app = App::new(labels(&["Solo"]), labels(&["solo"]), labels(&["fast", "balanced", "max"]));
    app.focus = Focus::Profile;
    assert_eq!(app.profile_index, 0);
    app.select_next();
    assert_eq!(app.profile_index, 1);
    app.select_next();
    assert_eq!(app.profile_index, 2);
    app.select_next();
    assert_eq!(app.profile_index, 0);
}

#[test]
fn select_in_editor_does_nothing() {
    let mut app = App::new(labels(&["Solo", "x"]), labels(&["solo", "x"]), labels(&["fast", "max"]));
    app.select_next();
    app.select_prev();
    assert_eq!(app.team_index, 0);
    assert_eq!(app.profile_index, 0);
}

#[test]
fn selected_team_none_for_solo() {
    let app = App::new(labels(&["Solo", "quick-fix"]), labels(&["solo", "quick-fix"]), labels(&["balanced"]));
    assert_eq!(app.selected_team(), None);
}

#[test]
fn selected_team_some_for_non_solo() {
    let mut app = App::new(labels(&["Solo", "quick-fix"]), labels(&["solo", "quick-fix"]), labels(&["balanced"]));
    app.team_index = 1;
    assert_eq!(app.selected_team(), Some("quick-fix"));
}

#[test]
fn selected_profile_returns_label() {
    let app = App::new(labels(&["Solo"]), labels(&["solo"]), labels(&["fast", "balanced", "max"]));
    assert_eq!(app.selected_profile(), "fast");
}

#[test]
fn description_empty_initially() {
    let app = solo_app();
    assert!(app.description().is_empty());
}

#[test]
fn description_joins_lines() {
    let mut app = solo_app();
    app.lines = labels(&["fix the", "login bug"]);
    assert_eq!(app.description(), "fix the\nlogin bug");
}

#[test]
fn try_launch_rejects_empty_description() {
    let mut app = solo_app();
    app.try_launch();
    assert!(!app.should_launch);
    assert!(app.error_message.is_some());
    assert_eq!(app.error_message.as_deref(), Some("Task description required"));
    app.lines = labels(&["   ", "\t"]);
    app.try_launch();
    assert!(!app.should_launch);
}

#[test]
fn try_launch_accepts_non_empty_description() {
    let mut app = solo_app();
    app.lines = labels(&["fix the login bug"]);
    app.try_launch();
    assert!(app.should_launch);
    assert!(app.error_message.is_none());
}

#[test]
fn select_prev_wraps_team() {
    let mut app = App::new(labels(&["Solo", "quick-fix"]), labels(&["solo", "quick-fix"]), labels(&["balanced"]));
    app.focus = Focus::Team;
    assert_eq!(app.team_index, 0);
    app.select_prev();
    assert_eq!(app.team_index, 1);
    app.select_next();
    assert_eq!(app.team_index, 0);
}

#[test]
fn profile_labels_parse() {
    assert_eq!(Profile::parse("fast"), Ok(Profile::Fast));
    assert_eq!(Profile::parse("balanced"), Ok(Profile::Balanced));
    assert_eq!(Profile::parse("max"), Ok(Profile::Max));
    assert_eq!(Profile::parse("huge"), Err("unknown profile: huge".to_string()));
}

// ---- keys of the launcher form ----

#[test]
fn keys_move_focus_and_quit() {
    let mut app = solo_app();
    assert!(!handle_key(&mut app, press(Key::Tab)));
    assert_eq!(app.focus, Focus::Team);
    assert!(!handle_key(&mut app, press(Key::BackTab)));
    assert_eq!(app.focus, Focus::Textarea);
    assert!(!handle_key(&mut app, press(Key::Esc)));
    assert!(app.should_quit);
}

#[test]
fn editor_keys_go_to_the_editor_and_clear_the_error() {
    let mut app = solo_app();
    app.error_message = Some("Task description required".to_string());
    assert!(handle_key(&mut app, press(Key::Char('a'))));
    assert!(app.error_message.is_none());
    assert!(handle_key(&mut app, press(Key::Enter)));
    assert!(!app.should_launch);
}

#[test]
fn control_enter_launches_from_anywhere() {
    let mut app = solo_app();
    app.lines = labels(&["do it"]);
    assert!(!handle_key(&mut app, KeyPress { key: Key::Char('j'), control: true }));
    assert!(app.should_launch);
    let mut app = solo_app();
    app.lines = labels(&["do it"]);
    assert!(!handle_key(&mut app, KeyPress { key: Key::Enter, control: true }));
    assert!(app.should_launch);
}

#[test]
fn selector_keys() {
    let mut app = App::new(labels(&["Solo", "a", "b"]), labels(&["solo", "a", "b"]), labels(&["fast", "max"]));
    app.focus = Focus::Team;
    assert!(!handle_key(&mut app, press(Key::Right)));
    assert_eq!(app.team_index, 1);
    handle_key(&mut app, press(Key::Char('l')));
    assert_eq!(app.team_index, 2);
    handle_key(&mut app, press(Key::Char('h')));
    handle_key(&mut app, press(Key::Left));
    assert_eq!(app.team_index, 0);
    handle_key(&mut app, press(Key::Char('x')));
    assert_eq!(app.team_index, 0);
    handle_key(&mut app, press(Key::Enter));
    assert!(!app.should_launch);
    assert!(app.error_message.is_some());
}

// ---- what the forms hand back ----

#[test]
fn task_output_of_a_launched_form() {
    let mut app = App::new(labels(&["Solo", "quick-fix"]), labels(&["solo", "quick-fix"]), labels(&["fast", "balanced", "max"]));
    app.profile_index = 1;
    app.lines = labels(&["fix", "it"]);
    assert!(task_output(&app).unwrap().is_none());
    app.team_index = 1;
    app.try_launch();
    let out = task_output(&app).unwrap().unwrap();
    assert_eq!(out.description, "fix\nit");
    assert_eq!(out.team.as_deref(), Some("quick-fix"));
    assert_eq!(out.profile, Profile::Balanced);
}

#[test]
fn task_output_with_unknown_profile() {
    let mut app = App::new(labels(&["Solo"]), labels(&["solo"]), labels(&["turbo"]));
    app.should_launch = true;
    assert_eq!(
        task_output(&app).unwrap_err(),
        ForjaError::Dialoguer("unknown profile: turbo".to_string())
    );
}

#[test]
fn plan_output_of_the_form() {
    let mut app = solo_app();
    assert!(plan_output(&app).is_none());
    app.lines = labels(&["plan this"]);
    app.should_launch = true;
    assert_eq!(plan_output(&app).unwrap().description, "plan this");
}

#[test]
fn team_options_without_state_offer_all_presets() {
    let (labels, names) = team_options(None);
    assert_eq!(
        labels,
        vec![
            "Solo".to_string(),
            "quick-fix (coder + deployer)".to_string(),
            "solo-sprint (coder-tester + code review)".to_string(),
            "full-product (5 agents)".to_string(),
        ]
    );
    assert_eq!(names, vec!["solo", "quick-fix", "solo-sprint", "full-product"]);
}

#[test]
fn team_options_with_configured_teams() {
    let configured = vec![
        ConfiguredTeam { name: "zeta".to_string(), members: 2 },
        ConfiguredTeam { name: "quick-fix".to_string(), members: 3 },
    ];
    let (labels, names) = team_options(Some(configured));
    assert_eq!(
        labels,
        vec![
            "Solo".to_string(),
            "solo-sprint (coder-tester + code review)".to_string(),
            "full-product (5 agents)".to_string(),
            "quick-fix (3 agents)".to_string(),
            "zeta (2 agents)".to_string(),
        ]
    );
    assert_eq!(names, vec!["solo", "solo-sprint", "full-product", "quick-fix", "zeta"]);
}

#[test]
fn preview_texts() {
    let mut app = App::new(labels(&["Solo", "quick-fix"]), labels(&["solo", "quick-fix"]), labels(&["fast", "balanced"]));
    assert_eq!(build_preview(&app, TuiMode::Task), "(type a task description above)");
    assert_eq!(build_preview(&app, TuiMode::Plan), "(describe what you want to plan above)");
    app.lines = labels(&["fix bug"]);
    assert_eq!(build_preview(&app, TuiMode::Plan), "Task:\nfix bug");
    assert_eq!(build_preview(&app, TuiMode::Task), "Mode: solo\n\nTask:\nfix bug");
    app.team_index = 1;
    app.profile_index = 1;
    assert_eq!(
        build_preview(&app, TuiMode::Task),
        "Mode: team (quick-fix)\nProfile: balanced\n\nTask:\nfix bug"
    );
}

// ---- the scan selection list ----

fn make_rec(id: &str, phase: &str, installed: bool) -> SkillRecommendation {
    SkillRecommendation {
        skill_id: id.to_string(),
        name: id.split('/').last().unwrap().to_string(),
        description: format!("{id} description"),
        phase: phase.to_string(),
        confidence: Confidence::High,
        reason: "test".to_string(),
        installed,
        matched_techs: vec![],
    }
}

#[test]
fn groups_by_phase() {
    let recs = vec![
        make_rec("code/rust/feature", "code", false),
        make_rec("code/ts/feature", "code", false),
        make_rec("test/tdd/workflow", "test", false),
    ];
    let app = ScanApp::new(recs, false);
    assert_eq!(app.groups.len(), 2);
    assert_eq!(app.groups[0].0, "code");
    assert_eq!(app.groups[0].1.len(), 2);
    assert_eq!(app.groups[1].0, "test");
}

#[test]
fn groups_keep_first_appearance_order() {
    let recs = vec![
        make_rec("test/tdd/workflow", "test", false),
        make_rec("code/rust/feature", "code", false),
        make_rec("test/e2e/playwright", "test", false),
    ];
    let app = ScanApp::new(recs, false);
    assert_eq!(app.groups[0].0, "test");
    assert_eq!(app.groups[0].1.len(), 2);
    assert_eq!(app.groups[0].1[1].rec.skill_id, "test/e2e/playwright");
    assert_eq!(app.groups[1].0, "code");
}

#[test]
fn pre_checks_non_installed() {
    let recs = vec![make_rec("code/rust/feature", "code", false), make_rec("code/ts/feature", "code", true)];
    let app = ScanApp::new(recs, true);
    assert!(app.groups[0].1[0].checked);
    assert!(!app.groups[0].1[1].checked);
}

#[test]
fn installed_items_locked() {
    let recs = vec![make_rec("code/rust/feature", "code", true)];
    let app = ScanApp::new(recs, true);
    assert!(app.groups[0].1[0].locked);
}

#[test]
fn hide_installed_when_not_show() {
    let recs = vec![make_rec("code/rust/feature", "code", false), make_rec("code/ts/feature", "code", true)];
    let app = ScanApp::new(recs, false);
    assert_eq!(app.total_items(), 1);
}

#[test]
fn move_down_within_group() {
    let recs = vec![make_rec("code/rust/feature", "code", false), make_rec("code/ts/feature", "code", false)];
    let mut app = ScanApp::new(recs, false);
    assert_eq!(app.cursor, (0, 0));
    app.move_down();
    assert_eq!(app.cursor, (0, 1));
    app.move_down();
    assert_eq!(app.cursor, (0, 1));
}

#[test]
fn move_down_across_groups() {
    let recs = vec![make_rec("code/rust/feature", "code", false), make_rec("test/tdd/workflow", "test", false)];
    let mut app = ScanApp::new(recs, false);
    app.move_down();
    assert_eq!(app.cursor, (1, 0));
}

#[test]
fn move_up_across_groups() {
    let recs = vec![make_rec("code/rust/feature", "code", false), make_rec("test/tdd/workflow", "test", false)];
    let mut app = ScanApp::new(recs, false);
    app.cursor = (1, 0);
    app.move_up();
    assert_eq!(app.cursor, (0, 0));
    app.move_up();
    assert_eq!(app.cursor, (0, 0));
}

#[test]
fn toggle_checks_and_unchecks() {
    let recs = vec![make_rec("code/rust/feature", "code", false)];
    let mut app = ScanApp::new(recs, false);
    assert!(app.groups[0].1[0].checked);
    app.toggle();
    assert!(!app.groups[0].1[0].checked);
    app.toggle();
    assert!(app.groups[0].1[0].checked);
}

#[test]
fn toggle_ignores_locked() {
    let recs = vec![make_rec("code/rust/feature", "code", true)];
    let mut app = ScanApp::new(recs, true);
    let was_checked = app.groups[0].1[0].checked;
    app.toggle();
    assert_eq!(app.groups[0].1[0].checked, was_checked);
}

#[test]
fn select_all_deselect_all() {
    let recs = vec![make_rec("code/rust/feature", "code", false), make_rec("code/ts/feature", "code", false)];
    let mut app = ScanApp::new(recs, false);
    app.deselect_all();
    assert_eq!(app.checked_count(), 0);
    app.select_all();
    assert_eq!(app.checked_count(), 2);
}

#[test]
fn select_all_leaves_locked_items_alone() {
    let recs = vec![make_rec("code/rust/feature", "code", false), make_rec("code/ts/feature", "code", true)];
    let mut app = ScanApp::new(recs, true);
    app.select_all();
    assert!(!app.groups[0].1[1].checked);
    assert_eq!(app.selected_skill_ids(), vec!["code/rust/feature".to_string()]);
}

#[test]
fn checked_count_within_total_and_matches_ids() {
    let recs = vec![
        make_rec("code/rust/feature", "code", false),
        make_rec("code/ts/feature", "code", true),
        make_rec("test/rust/unit", "test", false),
    ];
    let mut app = ScanApp::new(recs, true);
    app.scroll_offset = 3;
    app.tech_count = 2;
    assert!(app.checked_count() <= app.total_items());
    assert_eq!(app.checked_count(), app.selected_skill_ids().len());
    app.toggle();
    app.toggle();
    app.move_down();
    app.select_all();
    app.select_all();
    app.confirm();
    assert_eq!(app.scroll_offset, 3);
    assert_eq!(app.tech_count, 2);
    assert_eq!(app.checked_count(), 2);
    assert!(app.checked_count() <= app.total_items());
}

#[test]
fn selected_skill_ids() {
    let recs = vec![make_rec("code/rust/feature", "code", false), make_rec("code/ts/feature", "code", false)];
    let mut app = ScanApp::new(recs, false);
    app.toggle();
    let ids = app.selected_skill_ids();
    assert_eq!(ids, vec!["code/ts/feature"]);
}

#[test]
fn jump_next_group() {
    let recs = vec![
        make_rec("code/rust/feature", "code", false),
        make_rec("test/tdd/workflow", "test", false),
        make_rec("deploy/git/commit", "deploy", false),
    ];
    let mut app = ScanApp::new(recs, false);
    assert_eq!(app.cursor.0, 0);
    app.jump_next_group();
    assert_eq!(app.cursor.0, 1);
    app.jump_next_group();
    assert_eq!(app.cursor.0, 2);
    app.jump_next_group();
    assert_eq!(app.cursor.0, 0);
}

#[test]
fn empty_recommendations() {
    let app = ScanApp::new(vec![], false);
    assert!(app.is_empty());
    assert_eq!(app.total_items(), 0);
}

#[test]
fn confirm_sets_should_install() {
    let recs = vec![make_rec("code/rust/feature", "code", false)];
    let mut app = ScanApp::new(recs, false);
    app.confirm();
    assert!(app.should_install);
}

#[test]
fn scan_keys() {
    let recs = vec![
        make_rec("code/rust/feature", "code", false),
        make_rec("code/ts/feature", "code", false),
        make_rec("test/tdd/workflow", "test", false),
    ];
    let mut app = ScanApp::new(recs, false);
    scan_input::handle_key(&mut app, Key::Down);
    assert_eq!(app.cursor, (0, 1));
    scan_input::handle_key(&mut app, Key::Char('k'));
    assert_eq!(app.cursor, (0, 0));
    scan_input::handle_key(&mut app, Key::Char(' '));
    assert!(!app.groups[0].1[0].checked);
    scan_input::handle_key(&mut app, Key::Char('n'));
    assert_eq!(app.checked_count(), 0);
    scan_input::handle_key(&mut app, Key::Char('a'));
    assert_eq!(app.checked_count(), 3);
    scan_input::handle_key(&mut app, Key::Tab);
    assert_eq!(app.cursor, (1, 0));
    scan_input::handle_key(&mut app, Key::Char('z'));
    assert_eq!(app.cursor, (1, 0));
    assert!(!app.should_install && !app.should_quit);
    scan_input::handle_key(&mut app, Key::Enter);
    assert!(app.should_install);
    scan_input::handle_key(&mut app, Key::Char('q'));
    assert!(app.should_quit);
}

#[test]
fn cursor_line_counts_headers_and_blank_lines() {
    let recs = vec![
        make_rec("code/rust/feature", "code", false),
        make_rec("code/ts/feature", "code", false),
        make_rec("test/tdd/workflow", "test", false),
    ];
    let mut app = ScanApp::new(recs, false);
    assert_eq!(calculate_cursor_line(&app), 1);
    app.move_down();
    assert_eq!(calculate_cursor_line(&app), 2);
    app.move_down();
    assert_eq!(calculate_cursor_line(&app), 5);
    assert_eq!(calculate_cursor_line(&ScanApp::new(vec![], false)), 0);
}

#[test]
fn scan_labels() {
    assert_eq!(capitalize("code"), "Code");
    assert_eq!(capitalize("ébauche"), "Ébauche");
    assert_eq!(capitalize(""), "");
    assert_eq!(confidence_marks(Confidence::High), "+++");
    assert_eq!(confidence_marks(Confidence::Medium), "++ ");
    assert_eq!(confidence_marks(Confidence::Low), "+  ");
}

#[test]
fn scrolling_keeps_the_cursor_visible() {
    assert_eq!(scroll_for(3, 5, 10), 3);
    assert_eq!(scroll_for(7, 5, 10), 5);
    assert_eq!(scroll_for(20, 5, 10), 11);
    assert_eq!(checkbox_marks(true, true), " [=] ");
    assert_eq!(checkbox_marks(false, true), " [x] ");
    assert_eq!(checkbox_marks(false, false), " [ ] ");
}

#[test]
fn pad_name_fills_to_width() {
    assert_eq!(pad_name("rust", 8), "rust    ");
    assert_eq!(pad_name("a-very-long-skill-name", 8), "a-very-long-skill-name");
    assert_eq!(pad_name("", 3), "   ");
    assert_eq!(pad_name("feature", 20), format!("{:<20}", "feature"));
}

#[test]
fn item_note_shows_installed_for_locked_items() {
    let app = ScanApp::new(vec![make_rec("code/rust/feature", "code", true), make_rec("code/ts/feature", "code", false)], true);
    assert_eq!(item_note(&app.groups[0].1[0]), "(installed)");
    assert_eq!(item_note(&app.groups[0].1[1]), "test");
}
