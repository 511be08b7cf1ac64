//! The tray icon: what a click on it or on its menu asks for, and its picture.

use vstd::prelude::*;

use crate::text;

verus! {

/// What the tray asks for.
#[derive(Clone, Copy, PartialEq, Eq, Structural, Debug)]
pub enum TrayAction {
    Show,
    Quit,
}

/// The buttons of a mouse.
#[derive(Clone, Copy, PartialEq, Eq, Structural, Debug)]
pub enum Button {
    Left,
    Right,
    Middle,
}

/// The menu entry that shows the window.
pub const MENU_OPEN_ID: &'static str = "open";

/// The menu entry that ends the program.
pub const MENU_QUIT_ID: &'static str = "quit";

/// What a menu entry asks for.
pub open spec fn entry_asks(id: Seq<char>) -> Option<TrayAction> {
    if id == MENU_QUIT_ID@ {
        Some(TrayAction::Quit)
    } else if id == MENU_OPEN_ID@ {
        Some(TrayAction::Show)
    } else {
        None
    }
}

/// The entry `quit` and only that one ends the program; `open` and only that one shows the window.
pub proof fn lemma_entries_in_full(id: Seq<char>)
    ensures
        entry_asks(id) == Some(TrayAction::Quit) <==> id == "quit"@,
        entry_asks(id) == Some(TrayAction::Show) <==> id == "open"@,
{
    reveal_strlit("quit");
    reveal_strlit("open");
    assert("quit"@[0] == 'q');
    assert("open"@[0] == 'o');
}

/// What a menu entry asks for. Other entries ask for nothing.
pub fn menu_action(id: &str) -> (action: Option<TrayAction>)
    ensures
        action == entry_asks(id@),
{
    if text::same_text(id, MENU_QUIT_ID) {
        Some(TrayAction::Quit)
    } else if text::same_text(id, MENU_OPEN_ID) {
        Some(TrayAction::Show)
    } else {
        None
    }
}

/// What a click on the icon asks for.
pub open spec fn click_asks(button: Button) -> Option<TrayAction> {
    if button == Button::Left {
        Some(TrayAction::Show)
    } else {
        None
    }
}

/// The left button and only that one shows the window, and no button ends the program.
pub proof fn lemma_clicks_in_full(button: Button)
    ensures
        click_asks(button) == Some(TrayAction::Show) <==> button is Left,
        click_asks(button) != Some(TrayAction::Quit),
{
}

/// What a click on the icon asks for: the left button shows the window, pressed or released.
pub fn click_action(button: Button) -> (action: Option<TrayAction>)
    ensures
        action == click_asks(button),
{
    match button {
        Button::Left => Some(TrayAction::Show),
        _ => None,
    }
}

/// What `image::load_from_memory_with_format` decodes PNG bytes to, in RGBA with 8 bits each: the
/// pixels, the width and the height, or the text of its error.
pub uninterp spec fn decoded_png(png: Seq<u8>) -> Result<(Seq<u8>, u32, u32), Seq<char>>;

/// `image::load_from_memory_with_format` for PNG and `DynamicImage::into_rgba8`, by the name
/// [`decoded_png`].
#[verifier::external_body]
fn decode_png(png: &[u8]) -> (r: Result<(Vec<u8>, u32, u32), String>)
    ensures
        decoded_png(png@) == (match r {
            Ok((pixels, width, height)) => Ok((pixels@, width, height)),
            Err(error) => Err(error@),
        }),
{
    let image = image::load_from_memory_with_format(png, image::ImageFormat::Png)
        .map_err(|error| error.to_string())?
        .into_rgba8();
    let (width, height) = image.dimensions();
    Ok((image.into_raw(), width, height))
}

/// Decodes the program's icon for the tray and the window.
pub fn load_icon_rgba(png: &[u8]) -> (r: Result<(Vec<u8>, u32, u32), String>)
    ensures
        decoded_png(png@) == (match r {
            Ok((pixels, width, height)) => Ok((pixels@, width, height)),
            Err(error) => Err(error@),
        }),
{
    decode_png(png)
}

} // verus!
