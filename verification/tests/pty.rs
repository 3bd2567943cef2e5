use termpaper::clock::{Duration, Instant};
use termpaper::display::DisplayCapabilities;
use termpaper::input::{InputEvent, Key, KeyEvent, Modifiers, TerminalInputMode};
use termpaper::pty::{
    command_contains_shell_syntax, command_plan, is_white_space, map_crossterm_key, HostKeyCode,
    HostKeyEvent, InteractiveSession, KeyAction,
};
use termpaper::refresh::DirtyRect;

fn host(code: HostKeyCode, control: bool) -> HostKeyEvent {
    HostKeyEvent { code, control, alt: false, shift: false }
}

#[test]
fn detects_shell_command_strings() {
    assert!(!command_contains_shell_syntax("/bin/ls"));
    assert!(command_contains_shell_syntax("ls -la"));
    assert!(command_contains_shell_syntax("printf hello; true"));
    assert!(command_contains_shell_syntax("echo $SHELL"));
}

#[test]
fn maps_control_bracket_to_local_shutdown() {
    let input = map_crossterm_key(&host(HostKeyCode::Char(']'), true));

    assert_eq!(input, Some(InputEvent::Shutdown));
}

#[test]
fn white_space_matches_std() {
    for c in (0u32..=0x10FFFF).filter_map(char::from_u32) {
        assert_eq!(is_white_space(c), c.is_whitespace(), "{:?}", c);
    }
}

#[test]
fn every_shell_character_needs_a_shell() {
    for c in ['|', '&', ';', '<', '>', '*', '?', '$', '\'', '"', '\t', '\u{a0}'] {
        assert!(command_contains_shell_syntax(&format!("a{c}b")), "{:?}", c);
    }
    assert!(!command_contains_shell_syntax("/usr/bin/top"));
    assert!(!command_contains_shell_syntax(""));
}

#[test]
fn commands_run_directly_or_through_sh() {
    let plan = command_plan(Some("ls -la".into()), Some("/bin/zsh".into()));
    assert_eq!(plan.program, "/bin/sh");
    assert_eq!(plan.args, vec!["-lc".to_string(), "ls -la".to_string()]);
    let plan = command_plan(Some("/bin/ls".into()), None);
    assert_eq!(plan.program, "/bin/ls");
    assert!(plan.args.is_empty());
    let plan = command_plan(None, Some("/bin/zsh".into()));
    assert_eq!(plan.program, "/bin/zsh");
    let plan = command_plan(None, None);
    assert_eq!(plan.program, "/bin/sh");
    assert!(plan.args.is_empty());
}

#[test]
fn host_keys_map_to_terminal_keys() {
    let plain = Modifiers { control: false, alt: false, shift: false };
    assert_eq!(
        map_crossterm_key(&host(HostKeyCode::BackTab, false)),
        Some(InputEvent::Key(KeyEvent { key: Key::Tab, modifiers: plain }))
    );
    assert_eq!(
        map_crossterm_key(&host(HostKeyCode::F(5), false)),
        Some(InputEvent::Key(KeyEvent { key: Key::Function(5), modifiers: plain }))
    );
    let ctrl = Modifiers { control: true, alt: false, shift: false };
    assert_eq!(
        map_crossterm_key(&host(HostKeyCode::Char('c'), true)),
        Some(InputEvent::Key(KeyEvent { key: Key::Char('c'), modifiers: ctrl }))
    );
    assert_eq!(
        map_crossterm_key(&host(HostKeyCode::Char(']'), false)),
        Some(InputEvent::Key(KeyEvent { key: Key::Char(']'), modifiers: plain }))
    );
    assert_eq!(map_crossterm_key(&host(HostKeyCode::Other, false)), None);
    assert_eq!(
        map_crossterm_key(&host(HostKeyCode::Esc, false)),
        Some(InputEvent::Key(KeyEvent { key: Key::Escape, modifiers: plain }))
    );
}

fn mode() -> TerminalInputMode {
    TerminalInputMode { application_cursor: false, bracketed_paste: false }
}

#[test]
fn session_forwards_keys_and_shuts_down() {
    let mut session = InteractiveSession::new(24, 80, DisplayCapabilities::interactive(), true);
    assert_eq!(session.handle_key(None, mode()), KeyAction::Ignore);
    assert_eq!(session.handle_key(Some(InputEvent::Shutdown), mode()), KeyAction::Shutdown);
    assert_eq!(session.handle_key(Some(InputEvent::VoiceButtonPressed), mode()), KeyAction::Ignore);
    let enter = InputEvent::Key(KeyEvent { key: Key::Enter, modifiers: Modifiers::default() });
    assert_eq!(session.handle_key(Some(enter), mode()), KeyAction::Write(b"\r".to_vec()));
}

#[test]
fn echo_of_input_refreshes_at_once_output_waits() {
    let caps = DisplayCapabilities::full_refresh_only(Duration::from_secs(12), Duration::from_secs(12));
    let mut session = InteractiveSession::new(2, 4, caps, false);
    let t0 = Instant::from_nanos(0);
    assert_eq!(session.poll_refresh(t0), None);
    session.handle_output(vec![DirtyRect { x: 0, y: 0, width: 2, height: 1 }]);
    assert_eq!(session.poll_refresh(t0), Some(vec![DirtyRect { x: 0, y: 0, width: 2, height: 1 }]));
    session.handle_output(vec![DirtyRect { x: 1, y: 1, width: 1, height: 1 }]);
    session.handle_output(vec![DirtyRect { x: 1, y: 0, width: 1, height: 1 }]);
    assert_eq!(session.poll_refresh(t0.plus(Duration::from_secs(1))), None);
    assert_eq!(
        session.poll_refresh(t0.plus(Duration::from_secs(12))),
        Some(vec![DirtyRect { x: 1, y: 0, width: 1, height: 2 }])
    );
    assert_eq!(session.finish(), None);
    session.handle_output(vec![DirtyRect { x: 3, y: 1, width: 1, height: 1 }]);
    assert_eq!(session.finish(), Some(vec![DirtyRect { x: 3, y: 1, width: 1, height: 1 }]));
    assert!(!session.handle_resize(10, 3));
}

#[test]
fn resize_redraws_everything_with_high_priority() {
    let mut session = InteractiveSession::new(2, 4, DisplayCapabilities::interactive(), true);
    let t0 = Instant::from_nanos(0);
    session.handle_output(vec![DirtyRect { x: 0, y: 0, width: 1, height: 1 }]);
    assert!(session.poll_refresh(t0).is_some());
    session.handle_output(vec![DirtyRect { x: 0, y: 1, width: 1, height: 1 }]);
    assert!(session.handle_resize(10, 3));
    assert_eq!(session.poll_refresh(t0.plus(Duration::from_millis(1))), Some(vec![DirtyRect::full(10, 3)]));
}

#[test]
fn typed_key_echo_bypasses_rate_limit() {
    let mut session = InteractiveSession::new(2, 4, DisplayCapabilities::interactive(), true);
    let t0 = Instant::from_nanos(0);
    session.handle_output(vec![DirtyRect { x: 0, y: 0, width: 1, height: 1 }]);
    assert!(session.poll_refresh(t0).is_some());
    let a = InputEvent::Key(KeyEvent { key: Key::Char('a'), modifiers: Modifiers::default() });
    assert_eq!(session.handle_key(Some(a), mode()), KeyAction::Write(b"a".to_vec()));
    session.handle_output(vec![DirtyRect { x: 1, y: 0, width: 1, height: 1 }]);
    assert!(session.poll_refresh(t0.plus(Duration::from_millis(1))).is_some());
    session.handle_output(vec![DirtyRect { x: 2, y: 0, width: 1, height: 1 }]);
    assert!(session.poll_refresh(t0.plus(Duration::from_millis(2))).is_none());
}
