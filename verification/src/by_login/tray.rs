//! What a click on the tray icon asks for.

use vstd::prelude::*;

use crate::tray::{Button, TrayAction};

verus! {

/// What a click on the icon asks for: the left button shows the window once it is released.
pub fn click_action(button: Button, released: bool) -> (action: Option<TrayAction>)
    ensures
        action == (if button == Button::Left && released {
            Some(TrayAction::Show)
        } else {
            None
        }),
{
    match button {
        Button::Left => {
            if released {
                Some(TrayAction::Show)
            } else {
                None
            }
        },
        _ => None,
    }
}

} // verus!
