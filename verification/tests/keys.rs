use helix_wasm::keys::{init, parse_u8, translate_key, EventQueue, KeyAction, KeyCode, KeyModifiers};

fn key(code: KeyCode, shift: bool, control: bool, alt: bool) -> KeyAction {
    KeyAction::Key(code, KeyModifiers { shift, control, alt })
}

#[test]
fn modifier_presses_are_ignored() {
    for k in ["Shift", "Control", "Alt", "Meta", "CapsLock", "NumLock", "ScrollLock"] {
        assert_eq!(translate_key(k, true, true, true), KeyAction::Ignore);
    }
}

#[test]
fn ctrl_v_pastes_from_the_clipboard() {
    assert_eq!(translate_key("v", false, true, false), KeyAction::PasteFromClipboard);
    assert_eq!(translate_key("v", false, true, true), key(KeyCode::Char('v'), false, true, true));
    assert_eq!(translate_key("v", false, false, false), key(KeyCode::Char('v'), false, false, false));
}

#[test]
fn named_keys_translate() {
    assert_eq!(translate_key("Enter", false, false, false), key(KeyCode::Enter, false, false, false));
    assert_eq!(translate_key("Escape", false, false, false), key(KeyCode::Esc, false, false, false));
    assert_eq!(translate_key("ArrowLeft", true, false, false), key(KeyCode::Left, true, false, false));
    assert_eq!(translate_key("PageDown", false, false, true), key(KeyCode::PageDown, false, false, true));
    assert_eq!(translate_key("Insert", false, false, false), key(KeyCode::Insert, false, false, false));
}

#[test]
fn function_keys_are_one_to_twenty_four() {
    assert_eq!(translate_key("F1", false, false, false), key(KeyCode::F(1), false, false, false));
    assert_eq!(translate_key("F24", false, false, false), key(KeyCode::F(24), false, false, false));
    assert_eq!(translate_key("F0", false, false, false), KeyAction::Ignore);
    assert_eq!(translate_key("F25", false, false, false), KeyAction::Ignore);
    assert_eq!(translate_key("F+5", false, false, false), key(KeyCode::F(5), false, false, false));
    assert_eq!(translate_key("Fx", false, false, false), KeyAction::Ignore);
    assert_eq!(translate_key("F", false, false, false), key(KeyCode::Char('F'), false, false, false));
}

#[test]
fn single_characters_are_char_keys() {
    assert_eq!(translate_key("é", false, false, false), key(KeyCode::Char('é'), false, false, false));
    assert_eq!(translate_key("A", true, false, false), key(KeyCode::Char('A'), true, false, false));
    assert_eq!(translate_key("Dead", false, false, false), KeyAction::Ignore);
    assert_eq!(translate_key("", false, false, false), KeyAction::Ignore);
}

#[test]
fn parse_u8_follows_from_str() {
    assert_eq!(parse_u8("0"), Some(0));
    assert_eq!(parse_u8("255"), Some(255));
    assert_eq!(parse_u8("256"), None);
    assert_eq!(parse_u8("+7"), Some(7));
    assert_eq!(parse_u8("+"), None);
    assert_eq!(parse_u8(""), None);
    assert_eq!(parse_u8("-1"), None);
    assert_eq!(parse_u8("007"), Some(7));
    assert_eq!(parse_u8("1a"), None);
    assert_eq!(parse_u8("0000000000000000000001"), Some(1));
}

#[test]
fn event_queue_hands_events_out_in_order() {
    let mut q: EventQueue<u32> = EventQueue::new();
    assert_eq!(q.poll_next(), None);
    let _ = q.send(1);
    let _ = q.send(2);
    assert_eq!(q.poll_next(), Some(1));
    assert_eq!(q.poll_next(), Some(2));
    assert_eq!(q.poll_next(), None);
    let _stream = init();
}
