//! The preview pane of the launcher form.
use vstd::prelude::*;

use crate::text::{chars_of, concat2, owned, push_str, trim, trim_chars};
use crate::tui::app::{description_of, App};

verus! {

/// Whether the form launches a task or creates a plan.
#[derive(Debug, Clone, Copy, PartialEq, Eq, Structural)]
pub enum TuiMode {
    Task,
    Plan,
}

/// The preview of what launching would do: a hint while the description is
/// blank; for a plan the task; for a task the mode (solo, or the team and
/// profile), then the task.
pub open spec fn preview_text(app: App, mode: TuiMode) -> Seq<char> {
    let desc = description_of(app.lines@);
    if trim(desc).len() == 0 {
        match mode {
            TuiMode::Plan => "(describe what you want to plan above)"@,
            TuiMode::Task => "(type a task description above)"@,
        }
    } else if mode == TuiMode::Plan {
        "Task:\n"@ + desc
    } else if app.team_index == 0 {
        "Mode: solo\n"@ + "\nTask:\n"@ + desc
    } else {
        "Mode: team ("@ + app.team_names@[app.team_index as int]@ + ")\n"@ + "Profile: "@
            + app.profile_options@[app.profile_index as int]@ + "\n"@ + "\nTask:\n"@ + desc
    }
}

/// The text of the preview pane.
pub fn build_preview(app: &App, mode: TuiMode) -> (r: String)
    requires
        mode == TuiMode::Task && app.team_index != 0 ==> app.team_index < app.team_names@.len()
            && app.profile_index < app.profile_options@.len(),
    ensures
        r@ == preview_text(*app, mode),
{
    let desc = app.description();
    let chars = chars_of(desc.as_str());
    if trim_chars(&chars).len() == 0 {
        return match mode {
            TuiMode::Plan => owned("(describe what you want to plan above)"),
            TuiMode::Task => owned("(type a task description above)"),
        };
    }
    if mode == TuiMode::Plan {
        return concat2("Task:\n", desc.as_str());
    }
    let mut preview = String::new();
    match app.selected_team() {
        Some(team) => {
            push_str(&mut preview, "Mode: team (");
            push_str(&mut preview, team);
            push_str(&mut preview, ")\n");
            push_str(&mut preview, "Profile: ");
            push_str(&mut preview, app.selected_profile());
            push_str(&mut preview, "\n");
        },
        None => {
            push_str(&mut preview, "Mode: solo\n");
        },
    }
    push_str(&mut preview, "\nTask:\n");
    push_str(&mut preview, desc.as_str());
    preview
}

} // verus!
