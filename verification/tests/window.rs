use floatnote::window::{menu_command, toggle_command, tray_click_command, MenuCommand, WindowCommand};

#[test]
fn toggle_hides_visible_and_shows_hidden() {
    assert_eq!(toggle_command(Some(true)), WindowCommand::Hide);
    assert_eq!(toggle_command(Some(false)), WindowCommand::ShowPanel);
    assert_eq!(toggle_command(None), WindowCommand::ShowPanel);
}

#[test]
fn tray_menu_items() {
    assert_eq!(menu_command("toggle"), MenuCommand::Toggle);
    assert_eq!(menu_command("settings"), MenuCommand::OpenSettings);
    assert_eq!(menu_command("quit"), MenuCommand::Quit);
    assert_eq!(menu_command("Quit"), MenuCommand::Ignore);
    assert_eq!(menu_command(""), MenuCommand::Ignore);
}

#[test]
fn tray_left_click_brings_window_to_front() {
    assert_eq!(tray_click_command(true), Some(WindowCommand::ShowPanel));
    assert_eq!(tray_click_command(false), None);
}
