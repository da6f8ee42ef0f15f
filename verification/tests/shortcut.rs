use floatnote::shortcut::{
    parse_code, parse_shortcut, shortcut_to_register, Hotkey, KeyCode, Modifiers, DEFAULT_SHORTCUT,
};

fn mods(super_key: bool, control: bool, alt: bool, shift: bool) -> Modifiers {
    Modifiers { super_key, control, alt, shift }
}

#[test]
fn default_shortcut_is_cmd_shift_n() {
    assert_eq!(DEFAULT_SHORTCUT, "Cmd+Shift+N");
    assert_eq!(
        parse_shortcut(DEFAULT_SHORTCUT),
        Some(Hotkey { modifiers: mods(true, false, false, true), code: KeyCode::Letter('N') })
    );
}

#[test]
fn modifier_aliases() {
    for w in ["Cmd", "Super", "Command", "Meta"] {
        assert_eq!(
            parse_shortcut(&format!("{}+K", w)),
            Some(Hotkey { modifiers: mods(true, false, false, false), code: KeyCode::Letter('K') })
        );
    }
    for w in ["Ctrl", "Control"] {
        assert_eq!(
            parse_shortcut(&format!("{}+K", w)),
            Some(Hotkey { modifiers: mods(false, true, false, false), code: KeyCode::Letter('K') })
        );
    }
    for w in ["Alt", "Option"] {
        assert_eq!(
            parse_shortcut(&format!("{}+K", w)),
            Some(Hotkey { modifiers: mods(false, false, true, false), code: KeyCode::Letter('K') })
        );
    }
}

#[test]
fn all_modifiers_and_special_keys() {
    assert_eq!(
        parse_shortcut("Ctrl+Alt+Shift+Cmd+Space"),
        Some(Hotkey { modifiers: mods(true, true, true, true), code: KeyCode::Space })
    );
    assert_eq!(
        parse_shortcut("Option+Tab"),
        Some(Hotkey { modifiers: mods(false, false, true, false), code: KeyCode::Tab })
    );
    assert_eq!(
        parse_shortcut("Meta+Command+1"),
        Some(Hotkey { modifiers: mods(true, false, false, false), code: KeyCode::Digit('1') })
    );
}

#[test]
fn parts_are_trimmed() {
    assert_eq!(parse_shortcut(" Cmd + Shift + N "), parse_shortcut("Cmd+Shift+N"));
}

#[test]
fn modifier_order_does_not_matter() {
    assert_eq!(parse_shortcut("Shift+Cmd+N"), parse_shortcut("Cmd+Shift+N"));
    assert_eq!(parse_shortcut("N+Shift+Cmd"), parse_shortcut("Cmd+Shift+N"));
    assert_eq!(parse_shortcut("Shift+Cmd+Cmd+N+Shift"), parse_shortcut("Cmd+Shift+N"));
    assert_eq!(parse_shortcut("Ctrl+Control+K"), parse_shortcut("Ctrl+K"));
}

#[test]
fn key_alone() {
    assert_eq!(
        parse_shortcut("Escape"),
        Some(Hotkey { modifiers: mods(false, false, false, false), code: KeyCode::Escape })
    );
}

#[test]
fn rejected_texts() {
    assert_eq!(parse_shortcut(""), None);
    assert_eq!(parse_shortcut("Cmd+"), None);
    assert_eq!(parse_shortcut("Cmd+Shift"), None);
    assert_eq!(parse_shortcut("A+B"), None);
    assert_eq!(parse_shortcut("A+Foo"), None);
    assert_eq!(parse_shortcut("cmd+n"), None);
    assert_eq!(parse_shortcut("Cmd+F1"), None);
}

#[test]
fn unknown_key_may_be_followed_by_a_known_one() {
    assert_eq!(
        parse_shortcut("Foo+A"),
        Some(Hotkey { modifiers: mods(false, false, false, false), code: KeyCode::Letter('A') })
    );
    assert_eq!(parse_shortcut("A+Foo+B"), None);
}

#[test]
fn key_codes() {
    for c in 'A'..='Z' {
        assert_eq!(parse_code(&c.to_string()), Some(KeyCode::Letter(c)));
    }
    for c in '0'..='9' {
        assert_eq!(parse_code(&c.to_string()), Some(KeyCode::Digit(c)));
    }
    assert_eq!(parse_code("Space"), Some(KeyCode::Space));
    assert_eq!(parse_code("Enter"), Some(KeyCode::Enter));
    assert_eq!(parse_code("Escape"), Some(KeyCode::Escape));
    assert_eq!(parse_code("Tab"), Some(KeyCode::Tab));
    assert_eq!(parse_code("a"), None);
    assert_eq!(parse_code(" A"), None);
    assert_eq!(parse_code("AB"), None);
    assert_eq!(parse_code(""), None);
    assert_eq!(parse_code("space"), None);
}

#[test]
fn registration_uses_default_and_skips_empty() {
    assert_eq!(shortcut_to_register(&None), parse_shortcut("Cmd+Shift+N"));
    assert_eq!(shortcut_to_register(&Some(String::new())), None);
    assert_eq!(
        shortcut_to_register(&Some("Ctrl+K".to_string())),
        Some(Hotkey { modifiers: mods(false, true, false, false), code: KeyCode::Letter('K') })
    );
    assert_eq!(shortcut_to_register(&Some("nonsense".to_string())), None);
}
