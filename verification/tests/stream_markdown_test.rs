use goose_cli_tui::content_render::Theme;
use goose_cli_tui::stream_markdown::{
    render_palette, stream_markdown_enabled, syntax_theme_name, LineBuffer, StreamMarkdownCmd,
    STREAM_MARKDOWN_CHANNEL_CAP,
};

#[test]
fn chunks_are_cut_into_whole_lines() {
    let mut b = LineBuffer::new();
    assert_eq!(b.push_chunk("# H"), Vec::<String>::new());
    assert_eq!(b.push_chunk("i\n**bo"), vec!["# Hi".to_string()]);
    assert_eq!(b.push_chunk("ld**\n\n1. x"), vec!["**bold**".to_string(), "".to_string()]);
    assert_eq!(b.flush(), Some("1. x".to_string()));
    assert_eq!(b.flush(), None);
}

#[test]
fn reassembled_lines_give_back_the_text() {
    let text = "1. First\n2. Second\n3. Th";
    let mut b = LineBuffer::new();
    let mut out = String::new();
    for chunk in ["1. Fi", "rst\n2. Second\n", "3. Th"] {
        for line in b.push_chunk(chunk) {
            out.push_str(&line);
            out.push('\n');
        }
    }
    out.push_str(&b.flush().unwrap_or_default());
    assert_eq!(out, text);
}

#[test]
fn palettes_per_theme() {
    assert!(render_palette(Theme::Dark).is_none());
    let light = render_palette(Theme::Light).unwrap();
    assert_eq!(light.bright, "#0969da");
    assert_eq!(light.light, "#d0d7de");
    let ansi = render_palette(Theme::Ansi).unwrap();
    assert_eq!(ansi.head, "#56d364");
    assert_eq!(ansi.dark, "#0d1117");
    assert_eq!(syntax_theme_name(Theme::Light), "GitHub");
    assert_eq!(syntax_theme_name(Theme::Dark), "zenburn");
    assert_eq!(syntax_theme_name(Theme::Ansi), "base16");
}

#[test]
fn streaming_markdown_setting() {
    assert!(!stream_markdown_enabled(true, Some("false")));
    assert!(!stream_markdown_enabled(true, Some("0")));
    assert!(!stream_markdown_enabled(true, Some("FaLsE")));
    assert!(stream_markdown_enabled(true, Some("true")));
    assert!(stream_markdown_enabled(true, Some("00")));
    assert!(stream_markdown_enabled(true, None));
    assert!(!stream_markdown_enabled(false, None));
}

#[test]
fn channel_holds_one_command() {
    assert_eq!(STREAM_MARKDOWN_CHANNEL_CAP, 1);
    assert!(matches!(StreamMarkdownCmd::Chunk("x".to_string()), StreamMarkdownCmd::Chunk(_)));
    assert!(matches!(StreamMarkdownCmd::Flush, StreamMarkdownCmd::Flush));
}

#[test]
fn chunk_boundaries_do_not_change_the_lines() {
    let mut whole = LineBuffer::new();
    let all = whole.push_chunk("# Title\n1. a\n   sub\n2. b");
    let mut parts = LineBuffer::new();
    let mut got = Vec::new();
    for chunk in ["# Ti", "tle\n1", ". a\n   s", "ub\n2. b"] {
        got.extend(parts.push_chunk(chunk));
    }
    assert_eq!(got, all);
    assert_eq!(parts.flush(), whole.flush());
}
