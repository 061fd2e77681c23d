//! What the keyboard asks of the application itself.

use vstd::prelude::*;

verus! {

/// What the keys pressed in one tick ask for.
#[derive(Clone, Copy, PartialEq, Eq, Structural, Debug)]
pub struct InputActions {
    /// Leave the application.
    pub exit: bool,
    /// Give the cursor back to the window system.
    pub release_cursor: bool,
}

/// Maps the keys that went down in this tick to what they ask for: Escape
/// leaves the application, Tab releases the cursor.
pub fn input(escape_pressed: bool, tab_pressed: bool) -> (actions: InputActions)
    ensures
        actions == (InputActions { exit: escape_pressed, release_cursor: tab_pressed }),
{
    InputActions { exit: escape_pressed, release_cursor: tab_pressed }
}

} // verus!
