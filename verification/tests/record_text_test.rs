use goose_cli_tui::app::{build_flat_lines, record_to_text, visible_content_rows, Rect};
use goose_cli_tui::content_layout::RowsCache;
use goose_cli_tui::state::TuiState;
use goose_cli_tui::content_layout::Alignment;
use goose_cli_tui::content_render::{MdBlock, MdColor, SpanStyle, Theme};
use goose_cli_tui::history::{HistoryEvent, HistoryState};

fn spans(b: &MdBlock) -> Vec<(String, SpanStyle)> {
    match b {
        MdBlock::Line { spans, alignment } => {
            assert_eq!(*alignment, Alignment::Left);
            spans.iter().map(|s| (s.text.clone(), s.style)).collect()
        }
        other => panic!("expected a line, got {:?}", other),
    }
}

fn style(fg: Option<MdColor>, bold: bool, dim: bool) -> SpanStyle {
    SpanStyle { fg, bold, italic: false, underlined: false, dim }
}

#[test]
fn user_message_is_header_and_markdown() {
    let mut h = HistoryState::new();
    h.apply_event(HistoryEvent::UserMessage { text: "hi **x**".to_string() });
    let blocks = record_to_text(&h.records()[0], Theme::Dark);
    assert_eq!(blocks.len(), 2);
    assert_eq!(spans(&blocks[0]), vec![("You:".to_string(), style(Some(MdColor::Cyan), false, true))]);
    assert_eq!(
        spans(&blocks[1]),
        vec![
            ("hi ".to_string(), style(Some(MdColor::White), false, false)),
            ("x".to_string(), style(Some(MdColor::White), true, false)),
        ]
    );
}

#[test]
fn flat_lines_separate_records_with_blank_lines() {
    let mut h = HistoryState::new();
    h.apply_event(HistoryEvent::ToolRequest {
        id: "1".to_string(),
        tool_name: "read_file".to_string(),
        args_preview: "{}".to_string(),
    });
    h.apply_event(HistoryEvent::ToolResponse {
        id: "1".to_string(),
        tool_name: "read_file".to_string(),
        result_preview: "boom".to_string(),
        is_error: true,
    });
    let blocks = build_flat_lines(h.records(), Theme::Light);
    assert_eq!(blocks.len(), 6);
    assert_eq!(
        spans(&blocks[0]),
        vec![("─── read_file ───".to_string(), style(Some(MdColor::Magenta), false, true))]
    );
    assert_eq!(spans(&blocks[1]), vec![("{}".to_string(), style(None, false, false))]);
    assert!(matches!(blocks[2], MdBlock::Blank));
    assert_eq!(
        spans(&blocks[3]),
        vec![("read_file response:".to_string(), style(Some(MdColor::Red), false, false))]
    );
    assert_eq!(spans(&blocks[4]), vec![("boom".to_string(), style(None, false, false))]);
    assert!(matches!(blocks[5], MdBlock::Blank));
    assert!(build_flat_lines(&[], Theme::Dark).is_empty());
}

#[test]
fn empty_assistant_message_shows_only_its_header() {
    let mut h = HistoryState::new();
    h.apply_event(HistoryEvent::AssistantStart);
    let blocks = record_to_text(&h.records()[0], Theme::Dark);
    assert_eq!(blocks.len(), 1);
    assert_eq!(spans(&blocks[0])[0].0, "Assistant (streaming):");
}

#[test]
fn visible_rows_follow_scroll_and_stream() {
    let mut s = TuiState::new();
    for t in ["one", "two", "three"] {
        s.history.apply_event(HistoryEvent::UserMessage { text: t.to_string() });
    }
    // Each message: "You:" line, its text, a blank line: nine rows in all.
    let area = Rect { x: 0, y: 0, width: 12, height: 6 };
    let mut cache = RowsCache::new();
    s.scroll_offset = 100;
    s.scroll_follows_stream = false;
    let rows = visible_content_rows(&mut s, area, &mut cache);
    assert_eq!(rows.len(), 4);
    assert_eq!(s.scroll_offset, 5);
    assert_eq!(rows[1].iter().map(|c| c.symbol.as_str()).collect::<String>(), "You:");
    assert_eq!(rows[2].iter().map(|c| c.symbol.as_str()).collect::<String>(), "three");
    assert!(rows[3].is_empty());
    s.scroll_offset = 0;
    let top = visible_content_rows(&mut s, area, &mut cache);
    assert_eq!(top[0].iter().map(|c| c.symbol.as_str()).collect::<String>(), "You:");
    assert_eq!(s.scroll_offset, 0);
    s.history.apply_event(HistoryEvent::AssistantStart);
    s.history.apply_event(HistoryEvent::StreamChunk { text: "hi".to_string() });
    s.scroll_follows_stream = true;
    let bottom = visible_content_rows(&mut s, area, &mut cache);
    assert_eq!(bottom.len(), 4);
    assert_eq!(s.scroll_offset, 9);
    assert_eq!(bottom[1].iter().map(|c| c.symbol.as_str()).collect::<String>(), "(streaming");
    assert_eq!(bottom[2].iter().map(|c| c.symbol.as_str()).collect::<String>(), "hi");
}
