//! What the keys do in the launcher form.
use vstd::prelude::*;

use crate::tui::app::{can_select, focus_after, focus_before, launch_tried, refocused, selected_next, selected_prev, App, Focus};
use crate::tui::keys::{Key, KeyPress};

verus! {

/// Keys that act whatever has the focus: Esc, Shift+Tab, Tab, and
/// Ctrl+Enter or Ctrl+J (what many terminals send for Ctrl+Enter).
pub open spec fn is_global(press: KeyPress) -> bool {
    ||| press.key == Key::Esc
    ||| press.key == Key::BackTab
    ||| press.key == Key::Tab
    ||| press.key == Key::Enter && press.control
    ||| press.key == Key::Char('j') && press.control
}

/// Keys that move a selector back (Left, `h`) or forward (Right, `l`).
pub open spec fn is_back(press: KeyPress) -> bool {
    press.key == Key::Left || press.key == Key::Char('h')
}

pub open spec fn is_forward(press: KeyPress) -> bool {
    press.key == Key::Right || press.key == Key::Char('l')
}

/// Apply a key press to the form. Returns whether the key belongs to the
/// description editor, which the caller then hands it to (the editor has
/// the focus and the key is not a global one); the form clears its error
/// message in that case.
pub fn handle_key(app: &mut App, press: KeyPress) -> (to_editor: bool)
    requires
        !is_global(press) && (is_back(press) || is_forward(press)) ==> can_select(*old(app)),
    ensures
        to_editor == (!is_global(press) && old(app).focus == Focus::Textarea),
        press.key == Key::Esc ==> {
            &&& final(app).should_quit
            &&& final(app).should_launch == old(app).should_launch
            &&& final(app).error_message == old(app).error_message
            &&& final(app).lines == old(app).lines
            &&& final(app).focus == old(app).focus
            &&& final(app).team_index == old(app).team_index
            &&& final(app).profile_index == old(app).profile_index
        },
        press.key == Key::BackTab ==> refocused(*old(app), *final(app), focus_before(old(app).focus)),
        press.key == Key::Tab ==> refocused(*old(app), *final(app), focus_after(old(app).focus)),
        (press.key == Key::Enter || press.key == Key::Char('j')) && press.control ==> launch_tried(
            *old(app),
            *final(app),
        ),
        to_editor ==> {
            &&& final(app).error_message is None
            &&& final(app).focus == old(app).focus
            &&& final(app).team_index == old(app).team_index
            &&& final(app).profile_index == old(app).profile_index
            &&& final(app).lines == old(app).lines
            &&& final(app).should_quit == old(app).should_quit
            &&& final(app).should_launch == old(app).should_launch
        },
        !is_global(press) && old(app).focus != Focus::Textarea ==> {
            if is_back(press) {
                selected_prev(*old(app), *final(app))
            } else if is_forward(press) {
                selected_next(*old(app), *final(app))
            } else if press.key == Key::Enter {
                launch_tried(*old(app), *final(app))
            } else {
                *final(app) == *old(app)
            }
        },
{
    match press.key {
        Key::Esc => {
            app.should_quit = true;
            return false;
        },
        Key::BackTab => {
            app.prev_focus();
            return false;
        },
        Key::Tab => {
            app.next_focus();
            return false;
        },
        Key::Enter if press.control => {
            app.try_launch();
            return false;
        },
        Key::Char('j') if press.control => {
            app.try_launch();
            return false;
        },
        _ => {},
    }
    match app.focus {
        Focus::Textarea => {
            app.error_message = None;
            true
        },
        Focus::Team | Focus::Profile => {
            match press.key {
                Key::Left | Key::Char('h') => app.select_prev(),
                Key::Right | Key::Char('l') => app.select_next(),
                Key::Enter => app.try_launch(),
                _ => {},
            }
            false
        },
    }
}

} // verus!
