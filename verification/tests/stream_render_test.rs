use std::io::{self, Write};
use std::sync::{Arc, Mutex};

use goose_cli_tui::content_render::Theme;
use goose_cli_tui::stream_markdown::{
    line_events, render_palette, syntax_theme_name, LineBuffer, StreamParser,
};
use streamdown_parser::{ParseEvent, Parser};
use streamdown_render::{RenderStyle, Renderer};

struct SharedBuf(Arc<Mutex<Vec<u8>>>);

impl Write for SharedBuf {
    fn write(&mut self, buf: &[u8]) -> io::Result<usize> {
        self.0.lock().unwrap().extend_from_slice(buf);
        Ok(buf.len())
    }

    fn flush(&mut self) -> io::Result<()> {
        Ok(())
    }
}

/// Streamed markdown rendered into a buffer: lines cut by `LineBuffer`, events from
/// `line_events`, drawn by one streamdown renderer.
struct StreamMarkdown {
    lines: LineBuffer,
    parser: StreamParser,
    renderer: Renderer<SharedBuf>,
}

impl StreamMarkdown {
    fn new_for_test_with_theme(width: usize, theme: Theme) -> (Self, Arc<Mutex<Vec<u8>>>) {
        let out = Arc::new(Mutex::new(Vec::new()));
        let style = match render_palette(theme) {
            Some(p) => RenderStyle {
                bright: p.bright,
                head: p.head,
                symbol: p.symbol,
                grey: p.grey,
                dark: p.dark,
                mid: p.mid,
                light: p.light,
            },
            None => RenderStyle::default(),
        };
        let mut renderer = Renderer::with_style(SharedBuf(Arc::clone(&out)), width, style);
        renderer.set_theme(syntax_theme_name(theme));
        (StreamMarkdown { lines: LineBuffer::new(), parser: StreamParser::new(), renderer }, out)
    }

    fn new_for_test(width: usize) -> (Self, Arc<Mutex<Vec<u8>>>) {
        Self::new_for_test_with_theme(width, Theme::default())
    }

    fn render_line(&mut self, line: &str) -> io::Result<()> {
        for ev in line_events(&mut self.parser, line) {
            self.renderer.render_event(&ev)?;
        }
        Ok(())
    }

    fn push_chunk(&mut self, text: &str) -> io::Result<()> {
        for line in self.lines.push_chunk(text) {
            self.render_line(&line)?;
        }
        Ok(())
    }

    fn flush(&mut self) -> io::Result<()> {
        if let Some(rest) = self.lines.flush() {
            self.render_line(&rest)?;
        }
        Ok(())
    }
}

#[test]
fn line_events_drop_only_list_ends() {
    let lines = ["1. First", "    sub text", "2. Second", "", "plain"];
    let mut raw = Parser::new();
    let mut sp = StreamParser::new();
    let mut saw_list_end = false;
    for line in lines {
        let all = raw.parse_line(line);
        saw_list_end |= all.iter().any(|e| matches!(e, ParseEvent::ListEnd));
        let kept: Vec<ParseEvent> =
            all.into_iter().filter(|e| !matches!(e, ParseEvent::ListEnd)).collect();
        assert_eq!(line_events(&mut sp, line), kept);
    }
    assert!(saw_list_end);
}

#[test]
fn stream_markdown_renders_line_to_buffer() {
    let (mut sm, out) = StreamMarkdown::new_for_test(80);
    sm.push_chunk("# Hi\n").unwrap();
    sm.flush().unwrap();
    let buf = out.lock().unwrap();
    let s = String::from_utf8_lossy(&buf);
    assert!(s.contains("Hi"), "rendered output should contain 'Hi': {:?}", s);
}

#[test]
fn stream_markdown_numbered_list_shows_1_2_3() {
    let (mut sm, out) = StreamMarkdown::new_for_test(80);
    sm.push_chunk("1. First\n2. Second\n3. Third\n").unwrap();
    sm.flush().unwrap();
    let buf = out.lock().unwrap();
    let s = String::from_utf8_lossy(&buf);
    assert!(s.contains("1.") && s.contains("First"), "expected '1. First': {:?}", s);
    assert!(s.contains("2.") && s.contains("Second"), "expected '2. Second': {:?}", s);
    assert!(s.contains("3.") && s.contains("Third"), "expected '3. Third': {:?}", s);
}

#[test]
fn stream_markdown_numbered_list_after_nested_content_shows_2_and_3() {
    let (mut sm, out) = StreamMarkdown::new_for_test(80);
    sm.push_chunk("1. First\n").unwrap();
    sm.push_chunk("    sub text\n").unwrap();
    sm.push_chunk("2. Second\n").unwrap();
    sm.push_chunk("3. Third\n").unwrap();
    sm.flush().unwrap();
    let buf = out.lock().unwrap();
    let s = String::from_utf8_lossy(&buf);
    assert!(s.contains("1.") && s.contains("First"), "expected '1. First': {:?}", s);
    assert!(s.contains("2.") && s.contains("Second"), "expected '2. Second' after nested: {:?}", s);
    assert!(s.contains("3.") && s.contains("Third"), "expected '3. Third': {:?}", s);
}

#[test]
fn stream_markdown_numbered_list_with_nested_bullets_all_ones_in_source() {
    let (mut sm, out) = StreamMarkdown::new_for_test(80);
    sm.push_chunk("1. SACAgent\n").unwrap();
    sm.push_chunk("    This is the core.\n").unwrap();
    sm.push_chunk("    - Actor-Critic\n").unwrap();
    sm.push_chunk("    - Automatic Entropy\n").unwrap();
    sm.push_chunk("1. SACTrainingAgent\n").unwrap();
    sm.push_chunk("1. SACTradingEnvironment\n").unwrap();
    sm.flush().unwrap();
    let buf = out.lock().unwrap();
    let s = String::from_utf8_lossy(&buf);
    assert!(s.contains("1.") && s.contains("SACAgent"), "expected '1. SACAgent': {:?}", s);
    assert!(
        s.contains("2.") && s.contains("SACTrainingAgent"),
        "expected '2. SACTrainingAgent': {:?}",
        s
    );
    assert!(
        s.contains("3.") && s.contains("SACTradingEnvironment"),
        "expected '3. SACTradingEnvironment': {:?}",
        s
    );
}

#[test]
fn stream_markdown_numbered_list_empty_line_between_items_still_increments() {
    let (mut sm, out) = StreamMarkdown::new_for_test(80);
    sm.push_chunk("1. First\n").unwrap();
    sm.push_chunk("\n").unwrap();
    sm.push_chunk("1. Second\n").unwrap();
    sm.flush().unwrap();
    let buf = out.lock().unwrap();
    let s = String::from_utf8_lossy(&buf);
    assert!(s.contains("1.") && s.contains("First"), "expected '1. First': {:?}", s);
    assert!(s.contains("2.") && s.contains("Second"), "expected '2. Second' after empty line: {:?}", s);
}

#[test]
fn stream_markdown_theme_light_produces_styled_output() {
    let (mut sm, out) = StreamMarkdown::new_for_test_with_theme(80, Theme::Light);
    sm.push_chunk("# Title\n").unwrap();
    sm.flush().unwrap();
    let buf = out.lock().unwrap();
    let s = String::from_utf8_lossy(&buf);
    assert!(!s.is_empty());
    assert!(s.contains("Title"));
    assert!(s.contains("\x1b["), "Light theme should emit ANSI: {:?}", s);
}

#[test]
fn stream_markdown_theme_dark_produces_styled_output() {
    let (mut sm, out) = StreamMarkdown::new_for_test_with_theme(80, Theme::Dark);
    sm.push_chunk("# Title\n").unwrap();
    sm.flush().unwrap();
    let buf = out.lock().unwrap();
    let s = String::from_utf8_lossy(&buf);
    assert!(!s.is_empty());
    assert!(s.contains("Title"));
    assert!(s.contains("\x1b["), "Dark theme should emit ANSI: {:?}", s);
}

#[test]
fn stream_markdown_theme_ansi_produces_styled_output() {
    let (mut sm, out) = StreamMarkdown::new_for_test_with_theme(80, Theme::Ansi);
    sm.push_chunk("# Title\n").unwrap();
    sm.flush().unwrap();
    let buf = out.lock().unwrap();
    let s = String::from_utf8_lossy(&buf);
    assert!(!s.is_empty());
    assert!(s.contains("Title"));
    assert!(s.contains("\x1b["), "Ansi theme should emit ANSI: {:?}", s);
}
