use goose_cli_tui::app::{
    content_area_with_overlay, input_cursor_position, last_is_streaming, layout_chunks, overlay_area,
    overlay_panel, record_lines, status_line, truncate_preview, visible_window, ApprovalMode,
    LineStyle, PanelStyle, Rect, RecordLine, StatusLine,
};
use goose_cli_tui::content_render::Theme;
use goose_cli_tui::history::{HistoryEvent, HistoryState};
use goose_cli_tui::overlay::Overlay;

fn rect(x: u16, y: u16, width: u16, height: u16) -> Rect {
    Rect { x, y, width, height }
}

#[test]
fn cursor_position_wraps_and_clamps() {
    let area = rect(0, 10, 20, 6);
    assert_eq!(input_cursor_position(area, 5), (9, 11));
    assert_eq!(input_cursor_position(area, 20), (6, 12));
    assert_eq!(input_cursor_position(area, 100), (14, 14));
    assert_eq!(input_cursor_position(rect(3, 4, 2, 6), 7), (4, 5));
}

#[test]
fn overlay_takes_bottom_rows() {
    assert_eq!(overlay_area(rect(0, 0, 80, 24)), rect(0, 16, 80, 8));
    assert_eq!(overlay_area(rect(2, 1, 80, 5)), rect(2, 1, 80, 5));
    assert_eq!(content_area_with_overlay(rect(0, 0, 80, 24), true), rect(0, 0, 80, 16));
    assert_eq!(content_area_with_overlay(rect(0, 0, 80, 5), true), rect(0, 0, 80, 0));
    assert_eq!(content_area_with_overlay(rect(0, 0, 80, 24), false), rect(0, 0, 80, 24));
}

#[test]
fn visible_window_cases() {
    assert_eq!(visible_window(100, 20, 5, true, true), (80, 20));
    assert_eq!(visible_window(100, 20, 5, false, true), (5, 20));
    assert_eq!(visible_window(100, 20, 5, true, false), (5, 20));
    assert_eq!(visible_window(10, 20, 5, true, true), (0, 10));
    assert_eq!(visible_window(100, 20, 95, false, false), (80, 20));
    assert_eq!(visible_window(0, 0, 3, false, false), (0, 0));
}

#[test]
fn streaming_tail_detection() {
    let mut h = HistoryState::new();
    assert!(!last_is_streaming(h.records()));
    h.apply_event(HistoryEvent::AssistantStart);
    assert!(last_is_streaming(h.records()));
    h.apply_event(HistoryEvent::StreamEnd);
    assert!(!last_is_streaming(h.records()));
}

#[test]
fn truncate_preview_respects_char_boundaries() {
    assert_eq!(truncate_preview("abc", 5), "abc");
    assert_eq!(truncate_preview("abcdef", 3), "abc...");
    assert_eq!(truncate_preview("h\u{e9}llo", 2), "h...");
    assert_eq!(truncate_preview("h\u{e9}llo", 3), "h\u{e9}...");
    assert_eq!(truncate_preview("\u{e9}", 0), "...");
}

fn styled(l: &RecordLine) -> (String, LineStyle) {
    match l {
        RecordLine::Styled { text, style } => (text.clone(), *style),
        RecordLine::Markdown { text } => (format!("md:{}", text), LineStyle::Plain),
    }
}

#[test]
fn record_lines_of_each_kind() {
    let mut h = HistoryState::new();
    h.apply_event(HistoryEvent::UserMessage { text: "hi".to_string() });
    h.apply_event(HistoryEvent::AssistantStart);
    h.apply_event(HistoryEvent::ToolRequest {
        id: "1".to_string(),
        tool_name: "read_file".to_string(),
        args_preview: "x".repeat(600),
    });
    h.apply_event(HistoryEvent::ToolResponse {
        id: "1".to_string(),
        tool_name: "read_file".to_string(),
        result_preview: "boom".to_string(),
        is_error: true,
    });
    h.apply_event(HistoryEvent::ThinkingStart);
    h.apply_event(HistoryEvent::ActionRequired { id: "2".to_string(), message: "ok?".to_string() });
    h.append_content("--- a/f\n@@ -1 +1 @@\n-a\n+b\n c\n");
    let r = h.records();
    let user: Vec<_> = record_lines(&r[0]).iter().map(styled).collect();
    assert_eq!(user, vec![("You:".to_string(), LineStyle::Header), ("md:hi".to_string(), LineStyle::Plain)]);
    let asst: Vec<_> = record_lines(&r[1]).iter().map(styled).collect();
    assert_eq!(asst[0], ("Assistant:".to_string(), LineStyle::Header));
    let call: Vec<_> = record_lines(&r[2]).iter().map(styled).collect();
    assert_eq!(call[0], ("\u{2500}\u{2500}\u{2500} read_file \u{2500}\u{2500}\u{2500}".to_string(), LineStyle::ToolCall));
    assert_eq!(call[1].0, format!("{}...", "x".repeat(500)));
    let result: Vec<_> = record_lines(&r[3]).iter().map(styled).collect();
    assert_eq!(result[0], ("read_file response:".to_string(), LineStyle::ToolError));
    assert_eq!(result[1], ("boom".to_string(), LineStyle::Plain));
    let thinking: Vec<_> = record_lines(&r[4]).iter().map(styled).collect();
    assert_eq!(thinking, vec![(" \u{23f3} Thinking...".to_string(), LineStyle::Thinking)]);
    let action: Vec<_> = record_lines(&r[5]).iter().map(styled).collect();
    assert_eq!(action, vec![("[Action required] ok?".to_string(), LineStyle::ActionRequired)]);
    let last: Vec<_> = record_lines(&r[6]).iter().map(styled).collect();
    assert_eq!(last[0], ("Assistant:".to_string(), LineStyle::Header));
}

#[test]
fn record_lines_of_diff() {
    let mut h = HistoryState::new();
    let (path, hunks) =
        goose_cli_tui::history::parse_unified_diff("--- a/f\n@@ -1 +1 @@\n-a\n+b\n c\n").unwrap();
    h.apply_event(HistoryEvent::DiffShown { path, hunks });
    let lines: Vec<_> = record_lines(&h.records()[0]).iter().map(styled).collect();
    assert_eq!(
        lines,
        vec![
            ("diff f".to_string(), LineStyle::DiffHeader),
            ("-a".to_string(), LineStyle::DiffRemove),
            ("+b".to_string(), LineStyle::DiffAdd),
            (" c".to_string(), LineStyle::DiffContext),
        ]
    );
}

fn status_text(l: StatusLine) -> String {
    match l {
        StatusLine::Thinking(t) => format!("T{}", t),
        StatusLine::Status(t) => format!("S{}", t),
        StatusLine::Blank => "B".to_string(),
    }
}

#[test]
fn status_line_animates_dots() {
    assert_eq!(status_text(status_line(true, "", Some(0), None)), "T \u{23f3} Thinking.");
    assert_eq!(status_text(status_line(true, "", Some(400), None)), "T \u{23f3} Thinking..");
    assert_eq!(status_text(status_line(true, "", Some(800), None)), "T \u{23f3} Thinking...");
    assert_eq!(status_text(status_line(true, "", Some(1250), None)), "T \u{23f3} Thinking.");
    assert_eq!(status_text(status_line(true, "", None, None)), "T \u{23f3} Thinking...");
    assert_eq!(status_text(status_line(true, "Reading", Some(0), Some("st"))), "T \u{23f3} Reading");
    assert_eq!(status_text(status_line(false, "x", None, Some("model: m"))), "Smodel: m");
    assert_eq!(status_text(status_line(false, "x", None, None)), "B");
}

#[test]
fn overlay_panels() {
    assert!(overlay_panel(&Overlay::Hidden, Theme::Dark, "m", ApprovalMode::Auto).is_none());
    let p = overlay_panel(&Overlay::ThemePicker { selected: 1 }, Theme::Dark, "m", ApprovalMode::Auto).unwrap();
    assert_eq!(p.title, " Theme ");
    assert_eq!(p.lines.len(), 4);
    assert_eq!(p.lines[1].text, "  Dark");
    assert_eq!(p.lines[2].text, "\u{25b8} Light");
    assert_eq!(p.lines[2].style, PanelStyle::Selected);
    let s = overlay_panel(&Overlay::Settings, Theme::Ansi, "gpt", ApprovalMode::SmartApprove).unwrap();
    assert_eq!(s.lines[2].text, " Model:   gpt");
    assert_eq!(s.lines[3].text, " Theme:   Ansi (Ctrl+T to change)");
    assert_eq!(s.lines[4].text, " Approval: smart_approve ");
    let a = overlay_panel(
        &Overlay::Approval { id: "1".to_string(), tool_name: "shell".to_string(), message: "Run?".to_string() },
        Theme::Dark,
        "m",
        ApprovalMode::Approve,
    )
    .unwrap();
    assert_eq!(a.title, " Approval ");
    assert_eq!(a.lines[0].text, " Approve tool: shell? ");
    assert_eq!(a.lines[1].text, "Run?");
}

#[test]
fn main_area_splits_into_content_status_and_input() {
    let (content, status, input) = layout_chunks(rect(0, 0, 80, 24));
    assert_eq!(content, rect(0, 0, 80, 15));
    assert_eq!(status, rect(0, 15, 80, 3));
    assert_eq!(input, rect(0, 18, 80, 6));
    let (content, status, input) = layout_chunks(rect(2, 3, 40, 9));
    assert_eq!(content, rect(2, 3, 40, 0));
    assert_eq!(status.height + input.height, 9);
}
