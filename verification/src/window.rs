//! What the app does with its window in answer to the shortcut, the tray
//! icon and its menu.
use vstd::prelude::*;
use crate::text::{chars_equal, chars_of};

verus! {

broadcast use vstd::string::group_string_axioms;

/// The id of the tray menu item that shows or hides the window.
pub const MENU_TOGGLE: &'static str = "toggle";

/// The id of the tray menu item that opens the settings.
pub const MENU_SETTINGS: &'static str = "settings";

/// The id of the tray menu item that quits the app.
pub const MENU_QUIT: &'static str = "quit";

/// The event that tells the front end to open its settings.
pub const OPEN_SETTINGS_EVENT: &'static str = "open-settings";

/// What to do with the note window.
#[derive(Clone, Copy, Debug, PartialEq, Eq, Structural)]
pub enum WindowCommand {
    /// Hide the window.
    Hide,
    /// Show the window as a floating panel, without taking focus (focusing
    /// would switch desktops).
    ShowPanel,
}

/// What a tray menu item asks for.
#[derive(Clone, Copy, Debug, PartialEq, Eq, Structural)]
pub enum MenuCommand {
    /// Show or hide the window.
    Toggle,
    /// Show and focus the window, then tell the front end to open its
    /// settings.
    OpenSettings,
    /// Quit the app.
    Quit,
    /// Nothing: the item is not one of the app's.
    Ignore,
}

/// Toggling the window: hide it when it is visible, else show it.  A window
/// whose visibility cannot be read counts as hidden.
pub open spec fn spec_toggle_command(visible: Option<bool>) -> WindowCommand {
    if visible == Some(true) {
        WindowCommand::Hide
    } else {
        WindowCommand::ShowPanel
    }
}

/// What toggling the window does (see `spec_toggle_command`).
pub fn toggle_command(visible: Option<bool>) -> (c: WindowCommand)
    ensures
        c == spec_toggle_command(visible),
{
    match visible {
        Some(true) => WindowCommand::Hide,
        _ => WindowCommand::ShowPanel,
    }
}

/// The command of the tray menu item with id `id`.
pub open spec fn spec_menu_command(id: Seq<char>) -> MenuCommand {
    if id == MENU_TOGGLE@ {
        MenuCommand::Toggle
    } else if id == MENU_SETTINGS@ {
        MenuCommand::OpenSettings
    } else if id == MENU_QUIT@ {
        MenuCommand::Quit
    } else {
        MenuCommand::Ignore
    }
}

/// What the tray menu item with id `id` asks for.
pub fn menu_command(id: &str) -> (c: MenuCommand)
    ensures
        c == spec_menu_command(id@),
{
    let v = chars_of(id);
    if chars_equal(&v, MENU_TOGGLE) {
        MenuCommand::Toggle
    } else if chars_equal(&v, MENU_SETTINGS) {
        MenuCommand::OpenSettings
    } else if chars_equal(&v, MENU_QUIT) {
        MenuCommand::Quit
    } else {
        MenuCommand::Ignore
    }
}

/// What a click on the tray icon does: a left click brings the window to
/// the front for editing, shown as a floating panel that takes input,
/// whether it was visible or not; any other click does nothing.
pub open spec fn spec_tray_click_command(left_button: bool) -> Option<WindowCommand> {
    if left_button {
        Some(WindowCommand::ShowPanel)
    } else {
        None
    }
}

/// What a click on the tray icon does (see `spec_tray_click_command`).
pub fn tray_click_command(left_button: bool) -> (c: Option<WindowCommand>)
    ensures
        c == spec_tray_click_command(left_button),
{
    if left_button {
        Some(WindowCommand::ShowPanel)
    } else {
        None
    }
}

} // verus!
