//! What the keys do in the scan selection list.
use vstd::prelude::*;

use crate::tui::keys::Key;
use crate::tui::scan_app::{all_unlocked_set, cursor_down, cursor_next_group, cursor_up, toggled, ScanApp};

verus! {

/// Apply a key to the selection list: Esc or `q` quits, Enter confirms,
/// `j`/Down and `k`/Up move, Space toggles, `a` selects all, `n` selects
/// none, Tab jumps to the next group; other keys do nothing.
pub fn handle_key(app: &mut ScanApp, key: Key)
    requires
        old(app).wf(),
    ensures
        final(app).wf(),
        final(app).should_quit == (old(app).should_quit || key == Key::Esc || key == Key::Char('q')),
        final(app).should_install == (old(app).should_install || key == Key::Enter),
        final(app).cursor == if key == Key::Char('j') || key == Key::Down {
            cursor_down(old(app).view_groups(), old(app).cursor)
        } else if key == Key::Char('k') || key == Key::Up {
            cursor_up(old(app).view_groups(), old(app).cursor)
        } else if key == Key::Tab {
            cursor_next_group(old(app).groups@.len(), old(app).cursor)
        } else {
            old(app).cursor
        },
        key == Key::Char(' ') ==> final(app).view_groups() == toggled(
            old(app).view_groups(),
            old(app).cursor,
        ),
        key == Key::Char('a') ==> all_unlocked_set(old(app).view_groups(), final(app).view_groups(), true),
        key == Key::Char('n') ==> all_unlocked_set(old(app).view_groups(), final(app).view_groups(), false),
        key != Key::Char(' ') && key != Key::Char('a') && key != Key::Char('n') ==> final(app).groups
            == old(app).groups,
{
    match key {
        Key::Esc | Key::Char('q') => {
            app.should_quit = true;
        },
        Key::Enter => {
            app.confirm();
        },
        Key::Char('j') | Key::Down => {
            app.move_down();
        },
        Key::Char('k') | Key::Up => {
            app.move_up();
        },
        Key::Char(' ') => {
            app.toggle();
        },
        Key::Char('a') => {
            app.select_all();
        },
        Key::Char('n') => {
            app.deselect_all();
        },
        Key::Tab => {
            app.jump_next_group();
        },
        _ => {},
    }
}

} // verus!
