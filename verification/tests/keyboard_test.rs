use grok::keyboard::{
    scan_combo, ComboErrorKind, InputEvent, KeyCode, KeyCombo, KeyKind, MouseAction, MouseButton, Reader, UserCommand, CONTROL, SHIFT,
};

fn key(name: &str) -> KeyCombo {
    match Reader::keycode(name) {
        Ok(k) => k,
        Err(e) => panic!("{} gave {:?}", name, e.kind),
    }
}

fn key_error(name: &str) -> (ComboErrorKind, String) {
    match Reader::keycode(name) {
        Ok(k) => panic!("{} gave {:?}", name, k),
        Err(e) => (e.kind, e.key),
    }
}

#[test]
fn keycode_reads_modifiers_and_keys() {
    assert_eq!(key("Ctrl+Q"), KeyCombo::Key { code: KeyCode::Char('q'), mods: CONTROL });
    assert_eq!(key("Shift+Q"), KeyCombo::Key { code: KeyCode::Char('q'), mods: SHIFT });
    assert_eq!(key("ctrl+shift+left"), KeyCombo::Key { code: KeyCode::Left, mods: CONTROL | SHIFT });
    assert_eq!(key("Esc"), KeyCombo::Key { code: KeyCode::Esc, mods: 0 });
    assert_eq!(key(" "), KeyCombo::Key { code: KeyCode::Char(' '), mods: 0 });
    assert_eq!(key("MouseLeftDrag"), KeyCombo::Mouse { kind: MouseAction::Drag(MouseButton::Left), mods: 0 });
    assert_eq!(key("Alt+MouseWheelUp"), KeyCombo::Mouse { kind: MouseAction::ScrollUp, mods: 4 });
}

#[test]
fn keycode_errors() {
    assert_eq!(key_error("Ctrl+ctrl+Q"), (ComboErrorKind::Repeated, "ctrl".to_string()));
    assert_eq!(key_error("A+B"), (ComboErrorKind::TwoActionKeys, String::new()));
    assert_eq!(key_error("MouseLeft+MouseRight"), (ComboErrorKind::TwoMouseActions, String::new()));
    assert_eq!(key_error("Ctrl+Hyper"), (ComboErrorKind::UnknownKey, "hyper".to_string()));
    // The names are lowercased before they are read, so a function key name is not known.
    assert_eq!(key_error("F5"), (ComboErrorKind::UnknownKey, "f5".to_string()));
}

#[test]
fn try_keycode_has_no_answer_without_one_action() {
    assert!(Reader::try_keycode("Ctrl").is_none());
    assert!(Reader::try_keycode("A+MouseLeft").is_none());
    assert_eq!(key_error(""), (ComboErrorKind::UnknownKey, String::new()));
    assert!(matches!(Reader::try_keycode("Q"), Some(Ok(KeyCombo::Key { code: KeyCode::Char('q'), mods: 0 }))));
    assert!(matches!(Reader::try_keycode("Q+Q"), Some(Err(_))));
}

fn press(code: KeyCode, mods: u8) -> InputEvent {
    InputEvent::Key { code, mods, kind: KeyKind::Press, state: 0 }
}

#[test]
fn reader_maps_keys_to_commands() {
    let r = Reader::new();
    assert_eq!(r.get_command(press(KeyCode::Char('q'), 0)), Some(UserCommand::Quit));
    assert_eq!(r.get_command(press(KeyCode::Char('Q'), SHIFT)), Some(UserCommand::Quit));
    assert_eq!(r.get_command(press(KeyCode::Char('n'), 0)), Some(UserCommand::SearchNext));
    assert_eq!(r.get_command(press(KeyCode::Char('N'), SHIFT)), Some(UserCommand::SearchPrev));
    assert_eq!(r.get_command(press(KeyCode::Char('n'), SHIFT)), Some(UserCommand::SearchPrev));
    assert_eq!(r.get_command(press(KeyCode::Char('w'), CONTROL)), Some(UserCommand::Quit));
    assert_eq!(r.get_command(press(KeyCode::Char('7'), 0)), Some(UserCommand::CollectDigits(7)));
    assert_eq!(r.get_command(press(KeyCode::PageDown, 0)), Some(UserCommand::PageDown));
    assert_eq!(r.get_command(press(KeyCode::Left, CONTROL)), Some(UserCommand::PanLeftMax));
    assert_eq!(r.get_command(press(KeyCode::Char('x'), 0)), Some(UserCommand::Idle));
    assert_eq!(r.get_command(press(KeyCode::Unnamed, 0)), Some(UserCommand::Idle));
    let release = InputEvent::Key { code: KeyCode::Char('q'), mods: 0, kind: KeyKind::Release, state: 0 };
    assert_eq!(r.get_command(release), Some(UserCommand::Idle));
}

#[test]
fn reader_maps_other_events() {
    let r = Reader::new();
    let click = InputEvent::Mouse { action: MouseAction::Down(MouseButton::Left), column: 5, row: 7, mods: 0 };
    assert_eq!(r.get_command(click), Some(UserCommand::SelectWordAt(5, 7)));
    let drag = InputEvent::Mouse { action: MouseAction::Drag(MouseButton::Left), column: 9, row: 2, mods: 0 };
    assert_eq!(r.get_command(drag), Some(UserCommand::SelectWordDrag(9, 2)));
    let wheel = InputEvent::Mouse { action: MouseAction::ScrollDown, column: 1, row: 1, mods: 0 };
    assert_eq!(r.get_command(wheel), Some(UserCommand::MouseScrollDown));
    let right = InputEvent::Mouse { action: MouseAction::Down(MouseButton::Right), column: 1, row: 1, mods: 0 };
    assert_eq!(r.get_command(right), Some(UserCommand::Idle));
    assert_eq!(r.get_command(InputEvent::Resize(80, 24)), Some(UserCommand::TerminalResize));
    assert_eq!(r.get_command(InputEvent::Other), None);
    assert_eq!(r.get_command(InputEvent::TimedOut), Some(UserCommand::Idle));
    assert_eq!(r.mousemap.len(), 4);
}

#[test]
fn shift_with_a_letter_is_the_uppercase_letter() {
    let r = Reader::new();
    for c in 'a'..='z' {
        let upper = c.to_ascii_uppercase();
        assert_eq!(
            r.get_command(press(KeyCode::Char(upper), 0)),
            r.get_command(press(KeyCode::Char(c), SHIFT)),
        );
    }
}

#[test]
fn scan_combo_reads_lowercase_names() {
    assert!(matches!(
        scan_combo("ctrl+shift+left"),
        Some(Ok(KeyCombo::Key { code: KeyCode::Left, mods })) if mods == CONTROL | SHIFT
    ));
    assert!(matches!(scan_combo("alt+mousewheelup"), Some(Ok(KeyCombo::Mouse { kind: MouseAction::ScrollUp, mods: 4 }))));
    // Upper case is not a name: the caller lowercases first.
    assert!(matches!(scan_combo("Ctrl+q"), Some(Err(e)) if e.kind == ComboErrorKind::UnknownKey && e.key == "Ctrl"));
    assert!(scan_combo("ctrl").is_none());
}
