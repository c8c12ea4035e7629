//! Keyboard shortcuts for search: Ctrl+F focuses the search box and
//! Escape clears the search.
use vstd::prelude::*;

verus! {

/// What a key press asks of the search.
#[derive(Debug, Clone, Copy, PartialEq, Eq, Structural)]
pub enum KeyboardAction {
    Nothing,
    FocusSearch,
    ClearSearch,
}

/// Handle keyboard shortcuts for search, given this frame's key state:
/// whether the command modifier was held while F was pressed, and whether
/// Escape was pressed. Escape wins when both happen in one frame.
pub fn handle_keyboard(command_f_pressed: bool, escape_pressed: bool, search_focused: &mut bool) -> (r:
    KeyboardAction)
    ensures
        escape_pressed ==> r == KeyboardAction::ClearSearch && !*final(search_focused),
        !escape_pressed && command_f_pressed ==> r == KeyboardAction::FocusSearch && *final(search_focused),
        !escape_pressed && !command_f_pressed ==> r == KeyboardAction::Nothing && *final(search_focused)
            == *old(search_focused),
{
    let mut action = KeyboardAction::Nothing;
    if command_f_pressed {
        *search_focused = true;
        action = KeyboardAction::FocusSearch;
    }
    if escape_pressed {
        *search_focused = false;
        action = KeyboardAction::ClearSearch;
    }
    action
}

} // verus!
