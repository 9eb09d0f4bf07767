use silicone::browser::{
    clicks, key_event_2_key, key_event_2_modifiers, key_press, KeyCode, KeyEvent, KeyModifiers,
    ModifierKey, MouseEventKind,
};
use silicone::handlers::{InputHandler, RenderHandler};
use silicone::input::{InputAction, InputEvent, InputPhase};
use silicone::state::Event;

fn key(code: KeyCode, modifiers: KeyModifiers) -> KeyEvent {
    KeyEvent { code, modifiers }
}

fn control() -> KeyModifiers {
    KeyModifiers { control: true, ..KeyModifiers::none() }
}

#[test]
fn key_names() {
    let none = KeyModifiers::none();
    assert_eq!(key_event_2_key(key(KeyCode::Char('x'), none)), "x");
    assert_eq!(key_event_2_key(key(KeyCode::Char('ß'), none)), "ß");
    assert_eq!(key_event_2_key(key(KeyCode::Enter, none)), "Enter");
    assert_eq!(key_event_2_key(key(KeyCode::Backspace, none)), "Backspace");
    assert_eq!(key_event_2_key(key(KeyCode::Left, none)), "ArrowLeft");
    assert_eq!(key_event_2_key(key(KeyCode::Right, none)), "ArrowRight");
    assert_eq!(key_event_2_key(key(KeyCode::Up, none)), "ArrowUp");
    assert_eq!(key_event_2_key(key(KeyCode::Down, none)), "ArrowDown");
    assert_eq!(key_event_2_key(key(KeyCode::Other, none)), "");
}

#[test]
fn modifiers_one_at_most_by_precedence() {
    let all = KeyModifiers { shift: true, control: true, alt: true, super_key: true, hyper: true, meta: true };
    assert_eq!(key_event_2_modifiers(key(KeyCode::Enter, all)), vec![ModifierKey::Ctrl]);
    let shift_alt = KeyModifiers { shift: true, alt: true, ..KeyModifiers::none() };
    assert_eq!(key_event_2_modifiers(key(KeyCode::Enter, shift_alt)), vec![ModifierKey::Shift]);
    let alt_meta = KeyModifiers { alt: true, meta: true, ..KeyModifiers::none() };
    assert_eq!(key_event_2_modifiers(key(KeyCode::Enter, alt_meta)), vec![ModifierKey::Alt]);
    let meta = KeyModifiers { meta: true, ..KeyModifiers::none() };
    assert_eq!(key_event_2_modifiers(key(KeyCode::Enter, meta)), vec![ModifierKey::Meta]);
    let sup = KeyModifiers { super_key: true, hyper: true, ..KeyModifiers::none() };
    assert!(key_event_2_modifiers(key(KeyCode::Enter, sup)).is_empty());
}

#[test]
fn key_press_without_modifiers_has_none() {
    let (name, modifiers) = key_press(key(KeyCode::Up, KeyModifiers::none()));
    assert_eq!(name, "ArrowUp");
    assert_eq!(modifiers, None);
    let (name, modifiers) = key_press(key(KeyCode::Char('a'), control()));
    assert_eq!(name, "a");
    assert_eq!(modifiers, Some(vec![ModifierKey::Ctrl]));
}

#[test]
fn only_release_clicks() {
    assert!(clicks(MouseEventKind::Up));
    for kind in [
        MouseEventKind::Down,
        MouseEventKind::Drag,
        MouseEventKind::Moved,
        MouseEventKind::ScrollDown,
        MouseEventKind::ScrollUp,
        MouseEventKind::ScrollLeft,
        MouseEventKind::ScrollRight,
    ] {
        assert!(!clicks(kind));
    }
}

#[test]
fn control_c_quits() {
    let h = InputHandler::new();
    let ev = InputEvent::Key(key(KeyCode::Char('c'), control()));
    assert_eq!(h.on_event(ev), InputAction::Quit);
}

#[test]
fn other_keys_are_forwarded() {
    let h = InputHandler::new();
    let plain_c = InputEvent::Key(key(KeyCode::Char('c'), KeyModifiers::none()));
    assert_eq!(h.on_event(plain_c), InputAction::Forward);
    let ctrl_shift_c = KeyModifiers { shift: true, ..control() };
    assert_eq!(h.on_event(InputEvent::Key(key(KeyCode::Char('c'), ctrl_shift_c))), InputAction::Forward);
    assert_eq!(h.on_event(InputEvent::Key(key(KeyCode::Char('C'), control()))), InputAction::Forward);
    assert_eq!(h.on_event(InputEvent::Key(key(KeyCode::Enter, control()))), InputAction::Forward);
    assert_eq!(h.on_event(InputEvent::Other), InputAction::Skip);
}

#[test]
fn handler_dependencies() {
    assert_eq!(InputHandler::new().deps(), &[Event::Start]);
    assert_eq!(RenderHandler::new().deps(), &[Event::RefreshScreen]);
}

#[test]
fn input_loop_stops_after_quit() {
    let h = InputHandler::new();
    let events = [
        InputEvent::Key(key(KeyCode::Char('a'), KeyModifiers::none())),
        InputEvent::Other,
        InputEvent::Key(key(KeyCode::Char('c'), control())),
        InputEvent::Key(key(KeyCode::Char('b'), KeyModifiers::none())),
        InputEvent::Key(key(KeyCode::Char('c'), control())),
    ];
    let mut phase = InputPhase::Reading;
    let mut actions = Vec::new();
    for ev in events {
        let (next, action) = h.step(phase, ev);
        actions.push(action);
        phase = next;
    }
    assert_eq!(
        actions,
        vec![InputAction::Forward, InputAction::Skip, InputAction::Quit, InputAction::Skip, InputAction::Skip]
    );
    assert_eq!(phase, InputPhase::Stopped);
}
