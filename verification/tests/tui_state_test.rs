use goose_cli_tui::content_render::Theme;
use goose_cli_tui::history::HistoryRecord;
use goose_cli_tui::overlay::Overlay;
use goose_cli_tui::sink::{append_content, begin_tool_approval, end_tool_approval, show_thinking};
use goose_cli_tui::state::{Key, KeyOutcome, KeyPress, Permission, TuiState};

fn press(key: Key) -> KeyPress {
    KeyPress { key, ctrl: false }
}

fn ctrl(c: char) -> KeyPress {
    KeyPress { key: Key::Char(c), ctrl: true }
}

#[test]
fn typing_then_enter_submits_message() {
    let mut s = TuiState::new();
    for c in "hi".chars() {
        assert!(matches!(s.handle_key(press(Key::Char(c))), KeyOutcome::Nothing));
    }
    assert_eq!(s.input_buffer, "hi");
    s.scroll_follows_stream = false;
    match s.handle_key(press(Key::Enter)) {
        KeyOutcome::Submit(m) => assert_eq!(m, "hi"),
        other => panic!("unexpected {:?}", other),
    }
    assert_eq!(s.input_buffer, "");
    assert!(s.scroll_follows_stream);
    match &s.history.records()[0] {
        HistoryRecord::UserMessage { text, .. } => assert_eq!(text, "hi"),
        _ => panic!("expected UserMessage"),
    }
}

#[test]
fn enter_on_empty_input_does_nothing() {
    let mut s = TuiState::new();
    assert!(matches!(s.handle_key(press(Key::Enter)), KeyOutcome::Nothing));
    assert!(s.history.records().is_empty());
}

#[test]
fn backspace_removes_last_char() {
    let mut s = TuiState::new();
    s.handle_key(press(Key::Char('a')));
    s.handle_key(press(Key::Char('é')));
    s.handle_key(press(Key::Backspace));
    assert_eq!(s.input_buffer, "a");
    s.handle_key(press(Key::Backspace));
    s.handle_key(press(Key::Backspace));
    assert_eq!(s.input_buffer, "");
}

#[test]
fn ctrl_c_quits_and_other_ctrl_chars_type() {
    let mut s = TuiState::new();
    assert!(matches!(s.handle_key(ctrl('c')), KeyOutcome::Quit));
    s.handle_key(ctrl('x'));
    assert_eq!(s.input_buffer, "x");
}

#[test]
fn scrolling_keys_saturate() {
    let mut s = TuiState::new();
    s.handle_key(press(Key::Up));
    assert_eq!(s.scroll_offset, 0);
    assert!(!s.scroll_follows_stream);
    s.handle_key(press(Key::PageDown));
    assert_eq!(s.scroll_offset, 10);
    s.handle_key(press(Key::Down));
    assert_eq!(s.scroll_offset, 11);
    s.handle_key(press(Key::PageUp));
    assert_eq!(s.scroll_offset, 1);
    s.handle_key(press(Key::End));
    assert_eq!(s.scroll_offset, usize::MAX);
    assert!(s.scroll_follows_stream);
    s.handle_key(press(Key::Down));
    assert_eq!(s.scroll_offset, usize::MAX);
    s.handle_key(press(Key::Home));
    assert_eq!(s.scroll_offset, 0);
    assert!(!s.scroll_follows_stream);
}

#[test]
fn theme_picker_navigates_and_applies() {
    let mut s = TuiState::new();
    s.theme = Theme::Light;
    s.handle_key(ctrl('t'));
    assert!(matches!(s.overlay, Overlay::ThemePicker { selected: 1 }));
    s.handle_key(press(Key::Down));
    s.handle_key(press(Key::Down));
    assert!(matches!(s.overlay, Overlay::ThemePicker { selected: 2 }));
    s.handle_key(press(Key::Up));
    s.handle_key(press(Key::Up));
    s.handle_key(press(Key::Up));
    assert!(matches!(s.overlay, Overlay::ThemePicker { selected: 0 }));
    s.handle_key(press(Key::Down));
    s.handle_key(press(Key::Down));
    match s.handle_key(press(Key::Enter)) {
        KeyOutcome::ThemeApplied(t) => assert_eq!(t, Theme::Ansi),
        other => panic!("unexpected {:?}", other),
    }
    assert_eq!(s.theme, Theme::Ansi);
    assert!(!s.overlay.is_active());
}

#[test]
fn theme_picker_out_of_range_applies_first_theme() {
    let mut s = TuiState::new();
    s.overlay = Overlay::ThemePicker { selected: 7 };
    match s.handle_key(press(Key::Enter)) {
        KeyOutcome::ThemeApplied(t) => assert_eq!(t, Theme::Dark),
        other => panic!("unexpected {:?}", other),
    }
}

#[test]
fn esc_closes_any_overlay() {
    let mut s = TuiState::new();
    s.handle_key(ctrl('s'));
    assert!(matches!(s.overlay, Overlay::Settings));
    assert!(matches!(s.handle_key(press(Key::Esc)), KeyOutcome::Nothing));
    assert!(!s.overlay.is_active());
    s.handle_key(press(Key::Esc));
    assert!(!s.overlay.is_active());
}

#[test]
fn approval_keys_answer_and_close() {
    let cases = [
        (Key::Char('y'), Permission::AllowOnce),
        (Key::Char('Y'), Permission::AllowOnce),
        (Key::Char('n'), Permission::DenyOnce),
        (Key::Char('N'), Permission::DenyOnce),
        (Key::Esc, Permission::Cancel),
    ];
    for (key, expected) in cases {
        let mut s = TuiState::new();
        begin_tool_approval(&mut s, "id1", "shell", None);
        match &s.overlay {
            Overlay::Approval { message, tool_name, .. } => {
                assert_eq!(message, "Allow this tool call?");
                assert_eq!(tool_name, "shell");
            }
            _ => panic!("expected Approval"),
        }
        match s.handle_key(press(key)) {
            KeyOutcome::Approval(p) => assert_eq!(p, expected),
            other => panic!("unexpected {:?}", other),
        }
        assert!(!s.overlay.is_active());
    }
}

#[test]
fn approval_ignores_other_keys() {
    let mut s = TuiState::new();
    begin_tool_approval(&mut s, "id1", "shell", Some("Run it?"));
    assert!(matches!(s.handle_key(press(Key::Char('q'))), KeyOutcome::Nothing));
    assert!(matches!(s.handle_key(press(Key::Enter)), KeyOutcome::Nothing));
    match &s.overlay {
        Overlay::Approval { message, .. } => assert_eq!(message, "Run it?"),
        _ => panic!("expected Approval"),
    }
    assert_eq!(s.input_buffer, "");
    end_tool_approval(&mut s);
    assert!(!s.overlay.is_active());
}

#[test]
fn sink_append_content_detects_diff() {
    let mut s = TuiState::new();
    append_content(&mut s, "--- a/f\n+++ b/f\n@@ -1 +1 @@\n-a\n+b\n");
    assert!(matches!(s.history.records()[0], HistoryRecord::Diff { .. }));
    append_content(&mut s, "just text");
    assert!(matches!(s.history.records()[1], HistoryRecord::AssistantContent { .. }));
    append_content(&mut s, "--- \n@@ x\n+y");
    match &s.history.records()[2] {
        HistoryRecord::AssistantContent { text, .. } => assert_eq!(text, "--- \n@@ x\n+y"),
        _ => panic!("expected AssistantContent"),
    }
}

#[test]
fn sink_show_thinking_opens_cell_and_line() {
    let mut s = TuiState::new();
    show_thinking(&mut s);
    assert!(s.thinking_visible);
    assert!(s.thinking_started_at.is_some());
    assert!(matches!(s.history.records()[0], HistoryRecord::Thinking { .. }));
    s.hide_thinking();
    assert!(!s.thinking_visible);
    assert!(s.thinking_started_at.is_none());
}
