use goose_cli_tui::content_layout::Alignment;
use goose_cli_tui::content_render::{
    code_block_lines, highlight_code, markdown_blocks, CodeHighlighter, markdown_to_text, HlRange, MdBlock, MdColor, MdEvent,
    SpanStyle, Theme,
};

fn style(fg: Option<MdColor>, bold: bool, italic: bool, underlined: bool, dim: bool) -> SpanStyle {
    SpanStyle { fg, bold, italic, underlined, dim }
}

fn white() -> SpanStyle {
    style(Some(MdColor::White), false, false, false, false)
}

fn line(b: &MdBlock) -> (Vec<(String, SpanStyle)>, Alignment) {
    match b {
        MdBlock::Line { spans, alignment } => {
            (spans.iter().map(|s| (s.text.clone(), s.style)).collect(), *alignment)
        }
        other => panic!("expected a line, got {:?}", other),
    }
}

#[test]
fn theme_names_for_code_highlighting() {
    assert_eq!(Theme::Dark.syntect_theme_name(), "zenburn");
    assert_eq!(Theme::Light.syntect_theme_name(), "GitHub");
    assert_eq!(Theme::Ansi.syntect_theme_name(), "base16");
    assert_eq!(Theme::default(), Theme::Dark);
}

#[test]
fn heading_and_styled_paragraph() {
    let blocks = markdown_to_text("# Title\n\nHello **bold** and `code`\n", Theme::Dark);
    assert_eq!(blocks.len(), 2);
    let (spans, align) = line(&blocks[0]);
    assert_eq!(align, Alignment::Left);
    assert_eq!(
        spans,
        vec![("Title".to_string(), style(Some(MdColor::Cyan), true, false, false, false))]
    );
    let (spans, _) = line(&blocks[1]);
    assert_eq!(
        spans,
        vec![
            ("Hello ".to_string(), white()),
            ("bold".to_string(), style(Some(MdColor::White), true, false, false, false)),
            (" and ".to_string(), white()),
            ("code".to_string(), style(Some(MdColor::Yellow), false, false, false, true)),
        ]
    );
}

#[test]
fn soft_break_and_link_and_emphasis() {
    let blocks = markdown_to_text("*a*\n[b](http://x)\n", Theme::Light);
    assert_eq!(blocks.len(), 1);
    let (spans, _) = line(&blocks[0]);
    assert_eq!(
        spans,
        vec![
            ("a".to_string(), style(Some(MdColor::White), false, true, false, false)),
            (" ".to_string(), style(None, false, false, false, false)),
            ("b".to_string(), style(Some(MdColor::LightBlue), false, false, true, false)),
        ]
    );
}

#[test]
fn rule_is_forty_dashes() {
    let blocks = markdown_to_text("a\n\n---\n", Theme::Dark);
    assert_eq!(blocks.len(), 2);
    let (spans, _) = line(&blocks[1]);
    assert_eq!(spans.len(), 1);
    assert_eq!(spans[0].0, "─".repeat(40));
    assert_eq!(spans[0].1, style(None, false, false, false, true));
}

#[test]
fn fenced_code_is_highlighted_line_by_line() {
    let blocks = markdown_to_text("```rust\nfn main() {}\nlet x = 1;\n```\n", Theme::Dark);
    assert_eq!(blocks.len(), 2);
    let (first, _) = line(&blocks[0]);
    let text: String = first.iter().map(|(t, _)| t.as_str()).collect();
    assert_eq!(text, "fn main() {}\n");
    assert!(first.iter().all(|(_, s)| matches!(s.fg, Some(MdColor::Rgb(_, _, _)))));
    let (second, _) = line(&blocks[1]);
    let text: String = second.iter().map(|(t, _)| t.as_str()).collect();
    assert_eq!(text, "let x = 1;\n");
}

#[test]
fn empty_code_block_is_one_blank_line() {
    let blocks = markdown_to_text("```\n```\n", Theme::Ansi);
    assert_eq!(blocks.len(), 1);
    assert!(matches!(blocks[0], MdBlock::Blank));
}

#[test]
fn code_lines_from_highlighter_result() {
    let ranges = vec![
        HlRange { r: 1, g: 2, b: 3, font: 1, text: "fn".to_string() },
        HlRange { r: 4, g: 5, b: 6, font: 4, text: " x\n".to_string() },
    ];
    let hl = Some(vec![Some(ranges), None, Some(vec![])]);
    let blocks = code_block_lines("fn x\nbad\r\nempty\nextra", &hl);
    assert_eq!(blocks.len(), 4);
    let (spans, _) = line(&blocks[0]);
    assert_eq!(
        spans,
        vec![
            ("fn".to_string(), style(Some(MdColor::Rgb(1, 2, 3)), true, false, false, false)),
            (" x\n".to_string(), style(Some(MdColor::Rgb(4, 5, 6)), false, true, false, false)),
        ]
    );
    let inline = style(Some(MdColor::Yellow), false, false, false, true);
    assert_eq!(line(&blocks[1]).0, vec![("bad".to_string(), inline)]);
    assert!(matches!(blocks[2], MdBlock::Blank));
    assert_eq!(line(&blocks[3]).0, vec![("extra".to_string(), inline)]);
    let plain = code_block_lines("a\nb\n", &None);
    assert_eq!(plain.len(), 2);
    assert_eq!(line(&plain[1]).0, vec![("b".to_string(), inline)]);
}

#[test]
fn html_alignment_holds_until_its_closing_tag() {
    let evs = vec![
        MdEvent::Html("<P ALIGN='RIGHT'>".to_string()),
        MdEvent::StartParagraph,
        MdEvent::Text("x".to_string()),
        MdEvent::HardBreak,
        MdEvent::Text("y".to_string()),
        MdEvent::EndParagraph,
        MdEvent::InlineHtml("</b>".to_string()),
        MdEvent::StartParagraph,
        MdEvent::Text("z".to_string()),
        MdEvent::Html("</p>\n".to_string()),
        MdEvent::StartParagraph,
        MdEvent::Text("w".to_string()),
    ];
    let blocks = markdown_blocks(&evs);
    assert_eq!(blocks.len(), 4);
    assert_eq!(line(&blocks[0]), (vec![("x".to_string(), white())], Alignment::Right));
    assert_eq!(line(&blocks[1]), (vec![("y".to_string(), white())], Alignment::Right));
    assert_eq!(line(&blocks[2]), (vec![("z".to_string(), white())], Alignment::Right));
    assert_eq!(line(&blocks[3]), (vec![("w".to_string(), white())], Alignment::Left));
}

#[test]
fn div_alignment_applies_to_enclosed_paragraphs() {
    let blocks = markdown_to_text("<div align='right'>\n\ntext\n\n</div>", Theme::Dark);
    assert_eq!(blocks.len(), 1);
    assert_eq!(line(&blocks[0]), (vec![("text".to_string(), white())], Alignment::Right));
    let centered = markdown_to_text("<div align=\"center\">\n\na\n\nb\n\n</div>\n\nc\n", Theme::Dark);
    assert_eq!(centered.len(), 3);
    assert_eq!(line(&centered[0]).1, Alignment::Center);
    assert_eq!(line(&centered[1]).1, Alignment::Center);
    assert_eq!(line(&centered[2]).1, Alignment::Left);
}

#[test]
fn unfinished_code_block_is_kept_and_fence_language_is_first_word() {
    let evs = vec![
        MdEvent::StartFencedCode("  py  extra".to_string()),
        MdEvent::Text("print(1)\n".to_string()),
    ];
    let blocks = markdown_blocks(&evs);
    assert_eq!(blocks.len(), 1);
    match &blocks[0] {
        MdBlock::Code { code, lang } => {
            assert_eq!(code, "print(1)\n");
            assert_eq!(lang.as_deref(), None);
        }
        other => panic!("expected code, got {:?}", other),
    }
    let evs = vec![MdEvent::StartFencedCode("py extra".to_string()), MdEvent::EndCodeBlock];
    assert!(matches!(markdown_blocks(&evs)[0], MdBlock::Blank));
}

#[test]
fn highlighting_falls_back_to_first_theme_and_plain_text() {
    let h = CodeHighlighter::new();
    let r = highlight_code(&h, "a\nb\n", Some("no-such-language"), "no-such-theme").unwrap();
    assert_eq!(r.len(), 2);
    let first = r[0].as_ref().unwrap();
    let text: String = first.iter().map(|x| x.text.as_str()).collect();
    assert_eq!(text, "a\n");
    let rust = highlight_code(&h, "fn main() {}", Some("rs"), "InspiredGitHub").unwrap();
    assert_eq!(rust.len(), 1);
    assert!(rust[0].as_ref().unwrap().len() > 1);
    assert!(highlight_code(&h, "", None, "base16-ocean.dark").unwrap().is_empty());
}
