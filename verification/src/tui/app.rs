//! The task launcher form: a description editor, a team selector and a
//! model-profile selector, one of which has the focus.
use vstd::prelude::*;

use crate::seqs::{as_strs, join, join_strs};
use crate::text::{chars_of, owned, trim, trim_chars};

verus! {

/// The widget of the launcher form that receives keys.
#[derive(Debug, Clone, Copy, PartialEq, Eq, Structural)]
pub enum Focus {
    Textarea,
    Team,
    Profile,
}

/// The model profile a task runs with.
#[derive(Debug, Clone, Copy, PartialEq, Eq, Structural)]
pub enum Profile {
    Fast,
    Balanced,
    Max,
}

/// The profile a label names: `fast`, `balanced` or `max`.
pub open spec fn profile_named(label: Seq<char>) -> Option<Profile> {
    if label == "fast"@ {
        Some(Profile::Fast)
    } else if label == "balanced"@ {
        Some(Profile::Balanced)
    } else if label == "max"@ {
        Some(Profile::Max)
    } else {
        None
    }
}

impl Profile {
    /// The profile a label names, or an error naming the label.
    pub fn parse(label: &str) -> (r: Result<Profile, String>)
        ensures
            match profile_named(label@) {
                Some(p) => r == Ok::<Profile, String>(p),
                None => r is Err && r->Err_0@ == "unknown profile: "@ + label@,
            },
    {
        if crate::text::str_eq(label, "fast") {
            Ok(Profile::Fast)
        } else if crate::text::str_eq(label, "balanced") {
            Ok(Profile::Balanced)
        } else if crate::text::str_eq(label, "max") {
            Ok(Profile::Max)
        } else {
            Err(crate::text::concat2("unknown profile: ", label))
        }
    }
}

/// The state of the launcher form. `lines` holds the text of the
/// description editor, one entry per line.
#[derive(Debug, Clone)]
pub struct App {
    pub focus: Focus,
    pub team_labels: Vec<String>,
    pub team_names: Vec<String>,
    pub team_index: usize,
    pub profile_options: Vec<String>,
    pub profile_index: usize,
    pub lines: Vec<String>,
    pub should_quit: bool,
    pub should_launch: bool,
    pub error_message: Option<String>,
}

/// The focus after Tab.
pub open spec fn focus_after(f: Focus) -> Focus {
    match f {
        Focus::Textarea => Focus::Team,
        Focus::Team => Focus::Profile,
        Focus::Profile => Focus::Textarea,
    }
}

/// The focus after Shift+Tab.
pub open spec fn focus_before(f: Focus) -> Focus {
    match f {
        Focus::Textarea => Focus::Profile,
        Focus::Team => Focus::Textarea,
        Focus::Profile => Focus::Team,
    }
}

/// Everything of the form but the focus and the two selector indices.
pub open spec fn same_content(a: App, b: App) -> bool {
    &&& a.team_labels == b.team_labels
    &&& a.team_names == b.team_names
    &&& a.profile_options == b.profile_options
    &&& a.lines == b.lines
    &&& a.should_quit == b.should_quit
    &&& a.should_launch == b.should_launch
    &&& a.error_message == b.error_message
}

/// The next index of a selector of `n` options, wrapping to the first.
pub open spec fn next_index(i: usize, n: nat) -> usize {
    ((i + 1) % (n as int)) as usize
}

/// The previous index of a selector of `n` options, wrapping to the last.
pub open spec fn prev_index(i: usize, n: nat) -> usize {
    if i == 0 {
        (n - 1) as usize
    } else {
        (i - 1) as usize
    }
}

/// The text of the description editor: its lines joined with newlines.
pub open spec fn description_of(lines: Seq<String>) -> Seq<char> {
    join(lines.map_values(|s: String| s@), "\n"@)
}

/// What the selectors can be moved on: the focused selector has options,
/// and moving forward does not overflow.
pub open spec fn can_select(app: App) -> bool {
    &&& app.focus == Focus::Team ==> app.team_labels@.len() > 0 && app.team_index < usize::MAX
    &&& app.focus == Focus::Profile ==> app.profile_options@.len() > 0 && app.profile_index
        < usize::MAX
}

/// `b` is `a` with the focus moved to `f` and nothing else changed.
pub open spec fn refocused(a: App, b: App, f: Focus) -> bool {
    &&& b.focus == f
    &&& b.team_index == a.team_index
    &&& b.profile_index == a.profile_index
    &&& same_content(a, b)
}

/// `b` is `a` after selecting the next option of the focused selector.
pub open spec fn selected_next(a: App, b: App) -> bool {
    &&& b.focus == a.focus
    &&& same_content(a, b)
    &&& b.team_index == if a.focus == Focus::Team {
        next_index(a.team_index, a.team_labels@.len())
    } else {
        a.team_index
    }
    &&& b.profile_index == if a.focus == Focus::Profile {
        next_index(a.profile_index, a.profile_options@.len())
    } else {
        a.profile_index
    }
}

/// `b` is `a` after selecting the previous option of the focused selector.
pub open spec fn selected_prev(a: App, b: App) -> bool {
    &&& b.focus == a.focus
    &&& same_content(a, b)
    &&& b.team_index == if a.focus == Focus::Team {
        prev_index(a.team_index, a.team_labels@.len())
    } else {
        a.team_index
    }
    &&& b.profile_index == if a.focus == Focus::Profile {
        prev_index(a.profile_index, a.profile_options@.len())
    } else {
        a.profile_index
    }
}

/// `b` is `a` after a launch attempt: launched when the description holds
/// more than white space, else an error message and no launch.
pub open spec fn launch_tried(a: App, b: App) -> bool {
    &&& b.focus == a.focus
    &&& b.team_index == a.team_index
    &&& b.profile_index == a.profile_index
    &&& b.team_labels == a.team_labels
    &&& b.team_names == a.team_names
    &&& b.profile_options == a.profile_options
    &&& b.lines == a.lines
    &&& b.should_quit == a.should_quit
    &&& if trim(description_of(a.lines@)).len() == 0 {
        &&& b.should_launch == a.should_launch
        &&& b.error_message is Some
        &&& b.error_message->0@ == "Task description required"@
    } else {
        &&& b.should_launch
        &&& b.error_message is None
    }
}

/// Tab then Shift+Tab, or Shift+Tab then Tab, leaves the focus where it was.
pub proof fn lemma_focus_round_trip(f: Focus)
    ensures
        focus_before(focus_after(f)) == f,
        focus_after(focus_before(f)) == f,
{
}

/// Three Tabs bring the focus back to where it was.
pub proof fn lemma_focus_cycle(f: Focus)
    ensures
        focus_after(focus_after(focus_after(f))) == f,
{
}

/// On a selector of `n` options, moving forward stays among the options
/// and moving back undoes it; moving back then forward undoes it too.
pub proof fn lemma_select_round_trip(i: usize, n: nat)
    requires
        i < n,
        n <= usize::MAX,
    ensures
        next_index(i, n) < n,
        prev_index(i, n) < n,
        prev_index(next_index(i, n), n) == i,
        next_index(prev_index(i, n), n) == i,
{
    if i + 1 < n {
        assert((i + 1) % (n as int) == i + 1) by (nonlinear_arith)
            requires
                0 <= i + 1 < n,
        ;
    } else {
        assert((i + 1) % (n as int) == 0) by (nonlinear_arith)
            requires
                i + 1 == n,
                n > 0,
        ;
    }
    if i == 0 {
        assert(((n - 1) + 1) % (n as int) == 0) by (nonlinear_arith)
            requires
                n > 0,
        ;
    } else {
        assert(((i - 1) + 1) % (n as int) == i) by (nonlinear_arith)
            requires
                0 < i < n,
        ;
    }
}

impl App {
    /// A fresh form: the editor focused and empty, the first team and
    /// profile selected.
    pub fn new(team_labels: Vec<String>, team_names: Vec<String>, profile_options: Vec<String>) -> (r: App)
        ensures
            r.focus == Focus::Textarea,
            r.team_labels == team_labels,
            r.team_names == team_names,
            r.team_index == 0,
            r.profile_options == profile_options,
            r.profile_index == 0,
            r.lines@.len() == 1,
            r.lines@[0]@ == Seq::<char>::empty(),
            !r.should_quit,
            !r.should_launch,
            r.error_message is None,
    {
        let mut lines: Vec<String> = Vec::new();
        lines.push(String::new());
        App {
            focus: Focus::Textarea,
            team_labels,
            team_names,
            team_index: 0,
            profile_options,
            profile_index: 0,
            lines,
            should_quit: false,
            should_launch: false,
            error_message: None,
        }
    }

    /// Move the focus forward: editor, team, profile, editor.
    pub fn next_focus(&mut self)
        ensures
            refocused(*old(self), *final(self), focus_after(old(self).focus)),
    {
        self.focus = match self.focus {
            Focus::Textarea => Focus::Team,
            Focus::Team => Focus::Profile,
            Focus::Profile => Focus::Textarea,
        };
    }

    /// Move the focus backward: editor, profile, team, editor.
    pub fn prev_focus(&mut self)
        ensures
            refocused(*old(self), *final(self), focus_before(old(self).focus)),
    {
        self.focus = match self.focus {
            Focus::Textarea => Focus::Profile,
            Focus::Team => Focus::Textarea,
            Focus::Profile => Focus::Team,
        };
    }

    /// Select the next option of the focused selector, wrapping around.
    pub fn select_next(&mut self)
        requires
            can_select(*old(self)),
        ensures
            selected_next(*old(self), *final(self)),
    {
        match self.focus {
            Focus::Team => {
                self.team_index = (self.team_index + 1) % self.team_labels.len();
            },
            Focus::Profile => {
                self.profile_index = (self.profile_index + 1) % self.profile_options.len();
            },
            Focus::Textarea => {},
        }
    }

    /// Select the previous option of the focused selector, wrapping around.
    pub fn select_prev(&mut self)
        requires
            old(self).focus == Focus::Team ==> old(self).team_labels@.len() > 0,
            old(self).focus == Focus::Profile ==> old(self).profile_options@.len() > 0,
        ensures
            selected_prev(*old(self), *final(self)),
    {
        match self.focus {
            Focus::Team => {
                self.team_index = if self.team_index == 0 {
                    self.team_labels.len() - 1
                } else {
                    self.team_index - 1
                };
            },
            Focus::Profile => {
                self.profile_index = if self.profile_index == 0 {
                    self.profile_options.len() - 1
                } else {
                    self.profile_index - 1
                };
            },
            Focus::Textarea => {},
        }
    }

    /// The team to run with: none for the first option ("Solo"), else the
    /// name of the selected team.
    pub fn selected_team(&self) -> (r: Option<&str>)
        requires
            self.team_index != 0 ==> self.team_index < self.team_names@.len(),
        ensures
            self.team_index == 0 ==> r is None,
            self.team_index != 0 ==> r is Some && r->0@ == self.team_names@[self.team_index as int]@,
    {
        if self.team_index == 0 {
            None
        } else {
            Some(self.team_names[self.team_index].as_str())
        }
    }

    /// The label of the selected profile.
    pub fn selected_profile(&self) -> (r: &str)
        requires
            self.profile_index < self.profile_options@.len(),
        ensures
            r@ == self.profile_options@[self.profile_index as int]@,
    {
        self.profile_options[self.profile_index].as_str()
    }

    /// The task description: the editor's lines joined with newlines.
    pub fn description(&self) -> (r: String)
        ensures
            r@ == description_of(self.lines@),
    {
        let parts = as_strs(&self.lines);
        join_strs(&parts, "\n")
    }

    /// Launch when the description holds more than white space; else show
    /// "Task description required".
    pub fn try_launch(&mut self)
        ensures
            launch_tried(*old(self), *final(self)),
    {
        let desc = self.description();
        let chars = chars_of(desc.as_str());
        let trimmed = trim_chars(&chars);
        if trimmed.len() == 0 {
            self.error_message = Some(owned("Task description required"));
        } else {
            self.error_message = None;
            self.should_launch = true;
        }
    }
}

} // verus!
