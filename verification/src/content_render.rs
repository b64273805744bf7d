//! Markdown content of the content area: the structure of styled lines, alignment
//! and code blocks that markdown text turns into, and the colour themes. Markdown is
//! parsed by `pulldown-cmark`; code blocks are highlighted by the caller.
use vstd::prelude::*;

use crate::content_layout::Alignment;
use pulldown_cmark::{CodeBlockKind, Event, Tag, TagEnd};
use syntect::easy::HighlightLines;
use syntect::highlighting::ThemeSet;
use syntect::parsing::SyntaxSet;
use crate::text::{chars_of, contains_chars, contains_seq, is_whitespace, is_ws, lines_of, push_char, string_from_chars, text_lines, trim, trim_chars, views};

verus! {

/// Colour theme of the TUI; `Dark` is the default.
#[derive(Clone, Copy, Debug, PartialEq, Eq, Structural)]
pub enum Theme {
    Dark,
    Light,
    Ansi,
}

/// Name of the syntax-highlighting theme used for a TUI theme.
pub open spec fn spec_syntect_theme_name(theme: Theme) -> Seq<char> {
    match theme {
        Theme::Dark => "zenburn"@,
        Theme::Light => "GitHub"@,
        Theme::Ansi => "base16"@,
    }
}

impl Theme {
    /// The syntect theme that highlights code blocks under this theme.
    pub fn syntect_theme_name(self) -> (name: &'static str)
        ensures
            name@ == spec_syntect_theme_name(self),
    {
        match self {
            Theme::Dark => "zenburn",
            Theme::Light => "GitHub",
            Theme::Ansi => "base16",
        }
    }
}

impl Default for Theme {
    fn default() -> (t: Theme)
        ensures
            t == Theme::Dark,
    {
        Theme::Dark
    }
}


/// A markdown parser event, as far as the content renderer tells events apart.
#[derive(Clone, Debug)]
pub enum MdEvent {
    StartParagraph,
    StartHeading,
    /// Start of a fenced code block, with its info string.
    StartFencedCode(String),
    StartIndentedCode,
    StartStrong,
    StartEmphasis,
    StartLink,
    StartList,
    StartItem,
    StartOther,
    EndCodeBlock,
    EndHeading,
    EndStrong,
    EndEmphasis,
    EndLink,
    EndParagraph,
    EndHtmlBlock,
    EndOther,
    Html(String),
    InlineHtml(String),
    Text(String),
    Code(String),
    SoftBreak,
    HardBreak,
    Rule,
    Other,
}

/// The value an `MdEvent` stands for.
pub enum MdEventView {
    StartParagraph,
    StartHeading,
    StartFencedCode(Seq<char>),
    StartIndentedCode,
    StartStrong,
    StartEmphasis,
    StartLink,
    StartList,
    StartItem,
    StartOther,
    EndCodeBlock,
    EndHeading,
    EndStrong,
    EndEmphasis,
    EndLink,
    EndParagraph,
    EndHtmlBlock,
    EndOther,
    Html(Seq<char>),
    InlineHtml(Seq<char>),
    Text(Seq<char>),
    Code(Seq<char>),
    SoftBreak,
    HardBreak,
    Rule,
    Other,
}

impl View for MdEvent {
    type V = MdEventView;

    open spec fn view(&self) -> MdEventView {
        match self {
            MdEvent::StartParagraph => MdEventView::StartParagraph,
            MdEvent::StartHeading => MdEventView::StartHeading,
            MdEvent::StartFencedCode(s) => MdEventView::StartFencedCode(s@),
            MdEvent::StartIndentedCode => MdEventView::StartIndentedCode,
            MdEvent::StartStrong => MdEventView::StartStrong,
            MdEvent::StartEmphasis => MdEventView::StartEmphasis,
            MdEvent::StartLink => MdEventView::StartLink,
            MdEvent::StartList => MdEventView::StartList,
            MdEvent::StartItem => MdEventView::StartItem,
            MdEvent::StartOther => MdEventView::StartOther,
            MdEvent::EndCodeBlock => MdEventView::EndCodeBlock,
            MdEvent::EndHeading => MdEventView::EndHeading,
            MdEvent::EndStrong => MdEventView::EndStrong,
            MdEvent::EndEmphasis => MdEventView::EndEmphasis,
            MdEvent::EndLink => MdEventView::EndLink,
            MdEvent::EndParagraph => MdEventView::EndParagraph,
            MdEvent::EndHtmlBlock => MdEventView::EndHtmlBlock,
            MdEvent::EndOther => MdEventView::EndOther,
            MdEvent::Html(s) => MdEventView::Html(s@),
            MdEvent::InlineHtml(s) => MdEventView::InlineHtml(s@),
            MdEvent::Text(s) => MdEventView::Text(s@),
            MdEvent::Code(s) => MdEventView::Code(s@),
            MdEvent::SoftBreak => MdEventView::SoftBreak,
            MdEvent::HardBreak => MdEventView::HardBreak,
            MdEvent::Rule => MdEventView::Rule,
            MdEvent::Other => MdEventView::Other,
        }
    }
}

/// The views of a sequence of events.
pub open spec fn md_event_views(evs: Seq<MdEvent>) -> Seq<MdEventView> {
    evs.map_values(|e: MdEvent| e@)
}

/// The events that `pulldown_cmark::Parser::new` yields for a text, as `MdEvent`s.
pub uninterp spec fn markdown_events(content: Seq<char>) -> Seq<MdEventView>;

#[verifier::external_type_specification]
#[verifier::external_body]
pub struct ExMdParserEvent<'a>(pulldown_cmark::Event<'a>);

#[verifier::external_type_specification]
#[verifier::external_body]
pub struct ExMdParserTag<'a>(pulldown_cmark::Tag<'a>);

#[verifier::external_type_specification]
#[verifier::external_body]
pub struct ExMdParserTagEnd(pulldown_cmark::TagEnd);

/// The `MdEvent` for a start tag of `pulldown_cmark`, one arm per tag told apart.
#[verifier::external_body]
fn md_start_event(tag: pulldown_cmark::Tag<'_>) -> MdEvent {
    match tag {
        Tag::Paragraph => MdEvent::StartParagraph,
        Tag::Heading { .. } => MdEvent::StartHeading,
        Tag::CodeBlock(CodeBlockKind::Fenced(info)) => MdEvent::StartFencedCode(info.to_string()),
        Tag::CodeBlock(CodeBlockKind::Indented) => MdEvent::StartIndentedCode,
        Tag::Strong => MdEvent::StartStrong,
        Tag::Emphasis => MdEvent::StartEmphasis,
        Tag::Link { .. } => MdEvent::StartLink,
        Tag::List(_) => MdEvent::StartList,
        Tag::Item => MdEvent::StartItem,
        _ => MdEvent::StartOther,
    }
}

/// The `MdEvent` for an end tag of `pulldown_cmark`, one arm per tag told apart.
#[verifier::external_body]
fn md_end_event(tag: pulldown_cmark::TagEnd) -> MdEvent {
    match tag {
        TagEnd::CodeBlock => MdEvent::EndCodeBlock,
        TagEnd::Heading(_) => MdEvent::EndHeading,
        TagEnd::Strong => MdEvent::EndStrong,
        TagEnd::Emphasis => MdEvent::EndEmphasis,
        TagEnd::Link => MdEvent::EndLink,
        TagEnd::Paragraph => MdEvent::EndParagraph,
        TagEnd::HtmlBlock => MdEvent::EndHtmlBlock,
        _ => MdEvent::EndOther,
    }
}

/// The `MdEvent` for an event of `pulldown_cmark`, one arm per event told apart.
#[verifier::external_body]
fn md_event(e: pulldown_cmark::Event<'_>) -> MdEvent {
    match e {
        Event::Start(tag) => md_start_event(tag),
        Event::End(tag) => md_end_event(tag),
        Event::Html(s) => MdEvent::Html(s.to_string()),
        Event::InlineHtml(s) => MdEvent::InlineHtml(s.to_string()),
        Event::Text(s) => MdEvent::Text(s.to_string()),
        Event::Code(s) => MdEvent::Code(s.to_string()),
        Event::SoftBreak => MdEvent::SoftBreak,
        Event::HardBreak => MdEvent::HardBreak,
        Event::Rule => MdEvent::Rule,
        _ => MdEvent::Other,
    }
}

/// `pulldown_cmark::Parser::new(content)` run to its end: the parser's events for the
/// text (CommonMark without extensions), each converted to an `MdEvent`. The events are
/// named, not described.
#[verifier::external_body]
pub(crate) fn parse_markdown(content: &str) -> (evs: Vec<MdEvent>)
    ensures
        md_event_views(evs@) == markdown_events(content@),
{
    let mut evs = Vec::new();
    for e in pulldown_cmark::Parser::new(content) {
        evs.push(md_event(e));
    }
    evs
}

/// The Unicode lowercase mapping of a text, as `str::to_lowercase` gives it.
pub uninterp spec fn lowercase(s: Seq<char>) -> Seq<char>;

/// `str::to_lowercase`: the text with every character mapped to its Unicode lowercase.
/// The mapping is named, not described.
#[verifier::external_body]
fn to_lowercase(s: &str) -> (r: String)
    ensures
        r@ == lowercase(s@),
{
    s.to_lowercase()
}

/// A foreground colour of markdown text.
#[derive(Clone, Copy, Debug, PartialEq, Eq, Structural)]
pub enum MdColor {
    White,
    Cyan,
    Yellow,
    LightBlue,
    Magenta,
    Green,
    Red,
    DarkGray,
    /// A colour given by its red, green and blue components.
    Rgb(u8, u8, u8),
}

/// The style of a span of markdown text: a colour and modifiers.
#[derive(Clone, Copy, Debug, PartialEq, Eq, Structural)]
pub struct SpanStyle {
    pub fg: Option<MdColor>,
    pub bold: bool,
    pub italic: bool,
    pub underlined: bool,
    pub dim: bool,
}

/// No colour, no modifiers.
pub open spec fn plain_style() -> SpanStyle {
    SpanStyle { fg: None, bold: false, italic: false, underlined: false, dim: false }
}

/// `acc` with `s` laid over it: its colour if it has one, and its modifiers added.
pub open spec fn patch(acc: SpanStyle, s: SpanStyle) -> SpanStyle {
    SpanStyle {
        fg: if s.fg is Some {
            s.fg
        } else {
            acc.fg
        },
        bold: acc.bold || s.bold,
        italic: acc.italic || s.italic,
        underlined: acc.underlined || s.underlined,
        dim: acc.dim || s.dim,
    }
}

/// The style the nested styles of the stack give together.
pub open spec fn stacked_style(stack: Seq<SpanStyle>) -> SpanStyle
    decreases stack.len(),
{
    if stack.len() == 0 {
        plain_style()
    } else {
        patch(stacked_style(stack.drop_last()), stack.last())
    }
}

/// Base text style: white.
pub open spec fn base_style() -> SpanStyle {
    SpanStyle { fg: Some(MdColor::White), ..plain_style() }
}

/// Headings: cyan and bold.
pub open spec fn heading_style() -> SpanStyle {
    SpanStyle { fg: Some(MdColor::Cyan), bold: true, ..plain_style() }
}

/// Strong text: bold.
pub open spec fn strong_style() -> SpanStyle {
    SpanStyle { bold: true, ..plain_style() }
}

/// Emphasis: italic.
pub open spec fn emphasis_style() -> SpanStyle {
    SpanStyle { italic: true, ..plain_style() }
}

/// Links: light blue and underlined.
pub open spec fn link_style() -> SpanStyle {
    SpanStyle { fg: Some(MdColor::LightBlue), underlined: true, ..plain_style() }
}

/// Inline code: yellow and dim.
pub open spec fn code_inline_style() -> SpanStyle {
    SpanStyle { fg: Some(MdColor::Yellow), dim: true, ..plain_style() }
}

/// A horizontal rule: dim.
pub open spec fn rule_style() -> SpanStyle {
    SpanStyle { dim: true, ..plain_style() }
}

/// The text of a horizontal rule: 40 box-drawing dashes.
pub open spec fn rule_text() -> Seq<char> {
    Seq::new(40, |i: int| '\u{2500}')
}

/// A span of styled text.
#[derive(Clone, Debug)]
pub struct MdSpan {
    pub text: String,
    pub style: SpanStyle,
}

/// A block of rendered markdown: a line of spans, a code block for the highlighter,
/// or an empty line.
#[derive(Clone, Debug)]
pub enum MdBlock {
    Line { spans: Vec<MdSpan>, alignment: Alignment },
    Code { code: String, lang: Option<String> },
    Blank,
}

/// The value an `MdBlock` stands for.
pub enum MdBlockView {
    Line { spans: Seq<(Seq<char>, SpanStyle)>, alignment: Alignment },
    Code { code: Seq<char>, lang: Option<Seq<char>> },
    Blank,
}

/// The views of a sequence of spans.
pub open spec fn span_views(spans: Seq<MdSpan>) -> Seq<(Seq<char>, SpanStyle)> {
    spans.map_values(|s: MdSpan| (s.text@, s.style))
}

/// The view of an optional string.
pub open spec fn opt_str_view(s: Option<String>) -> Option<Seq<char>> {
    match s {
        Some(t) => Some(t@),
        None => None,
    }
}

impl View for MdBlock {
    type V = MdBlockView;

    open spec fn view(&self) -> MdBlockView {
        match self {
            MdBlock::Line { spans, alignment } => MdBlockView::Line {
                spans: span_views(spans@),
                alignment: *alignment,
            },
            MdBlock::Code { code, lang } => MdBlockView::Code { code: code@, lang: opt_str_view(*lang) },
            MdBlock::Blank => MdBlockView::Blank,
        }
    }
}

/// The views of a sequence of blocks.
pub open spec fn block_views(blocks: Seq<MdBlock>) -> Seq<MdBlockView> {
    blocks.map_values(|b: MdBlock| b@)
}

/// The state of the markdown renderer between events.
pub struct MdState {
    pub blocks: Seq<MdBlockView>,
    pub current: Seq<(Seq<char>, SpanStyle)>,
    pub styles: Seq<SpanStyle>,
    pub in_code: bool,
    pub lang: Option<Seq<char>>,
    pub code: Seq<char>,
    pub aligns: Seq<Alignment>,
    /// The names of the HTML elements that opened the alignments after the first.
    pub align_tags: Seq<Seq<char>>,
}

/// The renderer's state before the first event.
pub open spec fn md_start() -> MdState {
    MdState {
        blocks: Seq::empty(),
        current: Seq::empty(),
        styles: seq![base_style()],
        in_code: false,
        lang: None,
        code: Seq::empty(),
        aligns: seq![Alignment::Left],
        align_tags: Seq::empty(),
    }
}

/// The alignment in force: the innermost one.
pub open spec fn current_alignment(aligns: Seq<Alignment>) -> Alignment {
    if aligns.len() > 0 {
        aligns.last()
    } else {
        Alignment::Left
    }
}

/// The line in progress, if it has spans, becomes a block.
pub open spec fn md_flush(st: MdState) -> MdState {
    if st.current.len() > 0 {
        MdState {
            blocks: st.blocks.push(
                MdBlockView::Line { spans: st.current, alignment: current_alignment(st.aligns) },
            ),
            current: Seq::empty(),
            ..st
        }
    } else {
        st
    }
}

/// The block a finished code block becomes: an empty line when it has no code.
pub open spec fn code_block(code: Seq<char>, lang: Option<Seq<char>>) -> MdBlockView {
    if code.len() == 0 {
        MdBlockView::Blank
    } else {
        MdBlockView::Code { code, lang }
    }
}

/// The characters of `s` before its first white space.
pub open spec fn first_token(s: Seq<char>) -> Seq<char>
    decreases s.len(),
{
    if s.len() == 0 || is_ws(s[0]) {
        Seq::empty()
    } else {
        seq![s[0]] + first_token(s.drop_first())
    }
}

/// The language a fence's info string names: its first word, if any.
pub open spec fn fence_lang(info: Seq<char>) -> Option<Seq<char>> {
    let lang = trim(first_token(info));
    if lang.len() == 0 {
        None
    } else {
        Some(lang)
    }
}

/// The alignment an HTML tag asks for with `align="center"` or `align="right"` (either
/// quote, any case).
pub open spec fn html_align(html: Seq<char>) -> Option<Alignment> {
    let lower = lowercase(html);
    if contains_seq(lower, "align=\"center\""@) || contains_seq(lower, "align='center'"@) {
        Some(Alignment::Center)
    } else if contains_seq(lower, "align=\"right\""@) || contains_seq(lower, "align='right'"@) {
        Some(Alignment::Right)
    } else {
        None
    }
}

/// The innermost style ends (the base style stays).
pub open spec fn pop_style(st: MdState) -> MdState {
    if st.styles.len() > 1 {
        MdState { styles: st.styles.drop_last(), ..st }
    } else {
        st
    }
}

/// A letter or digit of a tag name.
pub open spec fn is_tag_char(c: char) -> bool {
    ('a' <= c <= 'z') || ('A' <= c <= 'Z') || ('0' <= c <= '9')
}

/// The letters and digits `s` starts with.
pub open spec fn tag_char_prefix(s: Seq<char>) -> Seq<char>
    decreases s.len(),
{
    if s.len() > 0 && is_tag_char(s[0]) {
        seq![s[0]] + tag_char_prefix(s.drop_first())
    } else {
        Seq::empty()
    }
}

/// HTML text in lower case, without surrounding white space.
pub open spec fn tag_text(html: Seq<char>) -> Seq<char> {
    trim(lowercase(html))
}

/// The HTML text is a closing tag (`</...`).
pub open spec fn is_closing_tag(html: Seq<char>) -> bool {
    let t = tag_text(html);
    t.len() >= 2 && t[0] == '<' && t[1] == '/'
}

/// The name of the HTML element the text's first tag opens or closes, in lower case.
pub open spec fn tag_name(html: Seq<char>) -> Seq<char> {
    let t = tag_text(html);
    if t.len() >= 1 && t[0] == '<' {
        let r = t.skip(1);
        tag_char_prefix(
            if r.len() > 0 && r[0] == '/' {
                r.skip(1)
            } else {
                r
            },
        )
    } else {
        Seq::empty()
    }
}

/// An HTML element's alignment ends: the line in progress is finished under it, then
/// the alignment before it is in force again.
pub open spec fn close_align(st: MdState) -> MdState {
    let f = md_flush(st);
    MdState { aligns: f.aligns.drop_last(), align_tags: f.align_tags.drop_last(), ..f }
}

/// HTML text: a tag with an `align` attribute makes its alignment the one in force; the
/// closing tag of the element that set the alignment in force ends it, so that the
/// lines inside the element take its alignment.
pub open spec fn html_step(st: MdState, h: Seq<char>) -> MdState {
    if is_closing_tag(h) {
        if st.aligns.len() > 1 && st.align_tags.len() > 0 && st.align_tags.last() == tag_name(h) {
            close_align(st)
        } else {
            st
        }
    } else {
        match html_align(h) {
            Some(a) => MdState { aligns: st.aligns.push(a), align_tags: st.align_tags.push(tag_name(h)), ..st },
            None => st,
        }
    }
}

/// The renderer's state after one more event.
pub open spec fn md_step(st: MdState, ev: MdEventView) -> MdState {
    match ev {
        MdEventView::StartParagraph => md_flush(st),
        MdEventView::StartHeading => {
            let f = md_flush(st);
            MdState { styles: f.styles.push(heading_style()), ..f }
        },
        MdEventView::StartFencedCode(info) => MdState {
            in_code: true,
            lang: fence_lang(info),
            code: Seq::empty(),
            ..md_flush(st)
        },
        MdEventView::StartIndentedCode => MdState {
            in_code: true,
            lang: None,
            code: Seq::empty(),
            ..md_flush(st)
        },
        MdEventView::StartStrong => MdState { styles: st.styles.push(strong_style()), ..st },
        MdEventView::StartEmphasis => MdState { styles: st.styles.push(emphasis_style()), ..st },
        MdEventView::StartLink => MdState { styles: st.styles.push(link_style()), ..st },
        MdEventView::StartList => md_flush(st),
        MdEventView::StartItem => md_flush(st),
        MdEventView::EndCodeBlock => MdState {
            blocks: st.blocks.push(code_block(st.code, st.lang)),
            in_code: false,
            lang: None,
            code: Seq::empty(),
            ..st
        },
        MdEventView::EndHeading => pop_style(st),
        MdEventView::EndStrong => pop_style(st),
        MdEventView::EndEmphasis => pop_style(st),
        MdEventView::EndLink => pop_style(st),
        MdEventView::Html(h) => html_step(st, h),
        MdEventView::InlineHtml(h) => html_step(st, h),
        MdEventView::Text(t) => if st.in_code {
            MdState { code: st.code + t, ..st }
        } else {
            MdState { current: st.current.push((t, stacked_style(st.styles))), ..st }
        },
        MdEventView::Code(t) => MdState { current: st.current.push((t, code_inline_style())), ..st },
        MdEventView::SoftBreak => MdState { current: st.current.push((seq![' '], plain_style())), ..st },
        MdEventView::HardBreak => md_flush(st),
        MdEventView::Rule => {
            let f = md_flush(st);
            md_flush(MdState { current: f.current.push((rule_text(), rule_style())), ..f })
        },
        _ => st,
    }
}

/// The renderer's state after all the events.
pub open spec fn md_steps(evs: Seq<MdEventView>) -> MdState
    decreases evs.len(),
{
    if evs.len() == 0 {
        md_start()
    } else {
        md_step(md_steps(evs.drop_last()), evs.last())
    }
}

/// The blocks once the events are over: an unfinished code block with code is kept,
/// else the line in progress is finished.
pub open spec fn md_finish(st: MdState) -> Seq<MdBlockView> {
    if st.in_code && st.code.len() > 0 {
        st.blocks.push(code_block(st.code, st.lang))
    } else {
        md_flush(st).blocks
    }
}

/// The blocks that markdown events render to.
pub open spec fn spec_markdown_blocks(evs: Seq<MdEventView>) -> Seq<MdBlockView> {
    md_finish(md_steps(evs))
}


fn plain_style_exec() -> (s: SpanStyle)
    ensures
        s == plain_style(),
{
    SpanStyle { fg: None, bold: false, italic: false, underlined: false, dim: false }
}

/// The style the nested styles give together.
fn stacked_style_exec(stack: &Vec<SpanStyle>) -> (s: SpanStyle)
    ensures
        s == stacked_style(stack@),
{
    let mut acc = plain_style_exec();
    let mut i: usize = 0;
    while i < stack.len()
        invariant
            i <= stack@.len(),
            acc == stacked_style(stack@.take(i as int)),
        decreases stack.len() - i,
    {
        assert(stack@.take(i + 1).drop_last() =~= stack@.take(i as int));
        let st = stack[i];
        acc = SpanStyle {
            fg: if st.fg.is_some() {
                st.fg
            } else {
                acc.fg
            },
            bold: acc.bold || st.bold,
            italic: acc.italic || st.italic,
            underlined: acc.underlined || st.underlined,
            dim: acc.dim || st.dim,
        };
        i += 1;
    }
    assert(stack@.take(stack@.len() as int) =~= stack@);
    acc
}

/// The characters of `s` before its first white space.
fn first_token_exec(s: &[char]) -> (r: Vec<char>)
    ensures
        r@ == first_token(s@),
{
    let mut r: Vec<char> = Vec::new();
    let mut i: usize = 0;
    assert(s@.skip(0) =~= s@);
    assert(r@ + first_token(s@.skip(0)) =~= first_token(s@));
    while i < s.len() && !is_whitespace(s[i])
        invariant
            i <= s@.len(),
            first_token(s@) == r@ + first_token(s@.skip(i as int)),
        decreases s.len() - i,
    {
        assert(s@.skip(i as int).drop_first() =~= s@.skip(i + 1));
        assert(s@.skip(i as int)[0] == s@[i as int]);
        r.push(s[i]);
        assert(r@ + first_token(s@.skip(i + 1)) =~= r@.drop_last() + (seq![s@[i as int]] + first_token(
            s@.skip(i + 1),
        )));
        i += 1;
    }
    if i < s.len() {
        assert(s@.skip(i as int)[0] == s@[i as int]);
    }
    assert(r@ + first_token(s@.skip(i as int)) =~= r@);
    r
}

/// The language a fence's info string names (see `fence_lang`).
fn fence_lang_exec(info: &str) -> (l: Option<String>)
    ensures
        opt_str_view(l) == fence_lang(info@),
{
    let cs = chars_of(info);
    let tok = first_token_exec(cs.as_slice());
    let lang = trim_chars(tok.as_slice());
    if lang.len() == 0 {
        None
    } else {
        Some(string_from_chars(lang.as_slice()))
    }
}

/// Whether `hay` contains the text of `pattern`.
fn contains_str(hay: &[char], pattern: &str) -> (b: bool)
    ensures
        b == contains_seq(hay@, pattern@),
{
    let p = chars_of(pattern);
    contains_chars(hay, p.as_slice())
}

/// The alignment an HTML tag asks for (see `html_align`), given the tag in lower case.
fn html_align_exec(html: &str, lower: &String) -> (a: Option<Alignment>)
    requires
        lower@ == lowercase(html@),
    ensures
        a == html_align(html@),
{
    let cs = chars_of(lower.as_str());
    if contains_str(cs.as_slice(), "align=\"center\"") || contains_str(cs.as_slice(), "align='center'") {
        Some(Alignment::Center)
    } else if contains_str(cs.as_slice(), "align=\"right\"") || contains_str(
        cs.as_slice(),
        "align='right'",
    ) {
        Some(Alignment::Right)
    } else {
        None
    }
}

/// The letters and digits `s` starts with, from position `i` on.
fn tag_char_prefix_exec(s: &[char], i: usize) -> (r: Vec<char>)
    requires
        i <= s@.len(),
    ensures
        r@ == tag_char_prefix(s@.skip(i as int)),
    decreases s@.len() - i,
{
    if i < s.len() && (('a' <= s[i] && s[i] <= 'z') || ('A' <= s[i] && s[i] <= 'Z') || ('0' <= s[i] && s[i] <= '9')) {
        assert(s@.skip(i as int)[0] == s@[i as int]);
        assert(s@.skip(i as int).drop_first() =~= s@.skip(i + 1));
        let rest = tag_char_prefix_exec(s, i + 1);
        let mut r: Vec<char> = Vec::new();
        r.push(s[i]);
        let mut k: usize = 0;
        while k < rest.len()
            invariant
                k <= rest@.len(),
                r@ == seq![s@[i as int]] + rest@.take(k as int),
            decreases rest.len() - k,
        {
            r.push(rest[k]);
            k += 1;
            assert(r@ =~= seq![s@[i as int]] + rest@.take(k as int));
        }
        assert(rest@.take(rest@.len() as int) =~= rest@);
        r
    } else {
        if i < s.len() {
            assert(s@.skip(i as int)[0] == s@[i as int]);
        }
        Vec::new()
    }
}

/// Whether the HTML text is a closing tag, and the name of its first tag (see
/// `is_closing_tag` and `tag_name`), given the text in lower case.
fn tag_info(html: &str, lower: &String) -> (r: (bool, String))
    requires
        lower@ == lowercase(html@),
    ensures
        r.0 == is_closing_tag(html@),
        r.1@ == tag_name(html@),
{
    let cs = chars_of(lower.as_str());
    let t = trim_chars(cs.as_slice());
    let closing = t.len() >= 2 && t[0] == '<' && t[1] == '/';
    if t.len() >= 1 && t[0] == '<' {
        let start: usize = if t.len() > 1 && t[1] == '/' {
            2
        } else {
            1
        };
        let name = tag_char_prefix_exec(t.as_slice(), start);
        proof {
            let r = t@.skip(1);
            if r.len() > 0 && r[0] == '/' {
                assert(r.skip(1) =~= t@.skip(2));
            } else {
                assert(r =~= t@.skip(1));
            }
        }
        (closing, string_from_chars(name.as_slice()))
    } else {
        (closing, String::new())
    }
}

/// The text of a horizontal rule.
fn rule_text_exec() -> (s: String)
    ensures
        s@ == rule_text(),
{
    let mut s = String::new();
    let mut i: usize = 0;
    while i < 40
        invariant
            i <= 40,
            s@ == Seq::new(i as nat, |k: int| '\u{2500}'),
        decreases 40 - i,
    {
        push_char(&mut s, '\u{2500}');
        i += 1;
        assert(s@ =~= Seq::new(i as nat, |k: int| '\u{2500}'));
    }
    s
}

/// The markdown renderer's working state.
struct MdBuilder {
    blocks: Vec<MdBlock>,
    current: Vec<MdSpan>,
    styles: Vec<SpanStyle>,
    in_code: bool,
    lang: Option<String>,
    code: String,
    aligns: Vec<Alignment>,
    align_tags: Vec<String>,
}

/// The views of a vector of strings.
pub open spec fn tag_views(v: Seq<String>) -> Seq<Seq<char>> {
    v.map_values(|t: String| t@)
}

impl View for MdBuilder {
    type V = MdState;

    closed spec fn view(&self) -> MdState {
        MdState {
            blocks: block_views(self.blocks@),
            current: span_views(self.current@),
            styles: self.styles@,
            in_code: self.in_code,
            lang: opt_str_view(self.lang),
            code: self.code@,
            aligns: self.aligns@,
            align_tags: tag_views(self.align_tags@),
        }
    }
}

impl MdBuilder {
    fn new() -> (b: MdBuilder)
        ensures
            b@ == md_start(),
    {
        let mut styles = Vec::new();
        styles.push(SpanStyle { fg: Some(MdColor::White), ..plain_style_exec() });
        let mut aligns = Vec::new();
        aligns.push(Alignment::Left);
        let b = MdBuilder {
            blocks: Vec::new(),
            current: Vec::new(),
            styles,
            in_code: false,
            lang: None,
            code: String::new(),
            aligns,
            align_tags: Vec::new(),
        };
        assert(b@.blocks =~= Seq::empty());
        assert(b@.current =~= Seq::empty());
        assert(b@.styles =~= seq![base_style()]);
        assert(b@.aligns =~= seq![Alignment::Left]);
        assert(b@.align_tags =~= Seq::<Seq<char>>::empty());
        b
    }

    fn push_block(&mut self, block: MdBlock)
        ensures
            final(self)@ == (MdState { blocks: old(self)@.blocks.push(block@), ..old(self)@ }),
    {
        self.blocks.push(block);
        assert(block_views(self.blocks@) =~= block_views(old(self).blocks@).push(block@));
    }

    fn push_span(&mut self, text: String, style: SpanStyle)
        ensures
            final(self)@ == (MdState { current: old(self)@.current.push((text@, style)), ..old(self)@ }),
    {
        self.current.push(MdSpan { text, style });
        assert(span_views(self.current@) =~= span_views(old(self).current@).push((text@, style)));
    }

    fn flush(&mut self)
        ensures
            final(self)@ == md_flush(old(self)@),
    {
        if self.current.len() > 0 {
            let alignment = if self.aligns.len() > 0 {
                self.aligns[self.aligns.len() - 1]
            } else {
                Alignment::Left
            };
            let mut spans: Vec<MdSpan> = Vec::new();
            std::mem::swap(&mut spans, &mut self.current);
            self.push_block(MdBlock::Line { spans, alignment });
            assert(span_views(self.current@) =~= Seq::empty());
        }
    }

    fn push_style(&mut self, style: SpanStyle)
        ensures
            final(self)@ == (MdState { styles: old(self)@.styles.push(style), ..old(self)@ }),
    {
        self.styles.push(style);
    }

    fn pop_style(&mut self)
        ensures
            final(self)@ == pop_style(old(self)@),
    {
        if self.styles.len() > 1 {
            self.styles.pop();
        }
    }

    fn html(&mut self, h: &str)
        ensures
            final(self)@ == html_step(old(self)@, h@),
    {
        let lower = to_lowercase(h);
        let (closing, name) = tag_info(h, &lower);
        if closing {
            if self.aligns.len() > 1 && self.align_tags.len() > 0
                && self.align_tags[self.align_tags.len() - 1] == name {
                self.flush();
                let ghost before = self@;
                self.aligns.pop();
                self.align_tags.pop();
                assert(self@.aligns =~= before.aligns.drop_last());
                assert(self@.align_tags =~= before.align_tags.drop_last());
                assert(self@ == close_align(old(self)@));
            }
        } else {
            match html_align_exec(h, &lower) {
                Some(a) => {
                    self.aligns.push(a);
                    let ghost before = tag_views(self.align_tags@);
                    self.align_tags.push(name);
                    assert(tag_views(self.align_tags@) =~= before.push(tag_name(h@)));
                },
                None => {},
            }
        }
    }

    fn take_code_block(&mut self) -> (b: MdBlock)
        ensures
            b@ == code_block(old(self)@.code, old(self)@.lang),
            final(self)@ == (MdState { lang: None, code: Seq::empty(), ..old(self)@ }),
    {
        let mut code = String::new();
        std::mem::swap(&mut code, &mut self.code);
        let mut lang: Option<String> = None;
        std::mem::swap(&mut lang, &mut self.lang);
        if code.as_str().is_empty() {
            MdBlock::Blank
        } else {
            MdBlock::Code { code, lang }
        }
    }

    fn step(&mut self, ev: &MdEvent)
        ensures
            final(self)@ == md_step(old(self)@, ev@),
    {
        match ev {
            MdEvent::StartParagraph => self.flush(),
            MdEvent::StartHeading => {
                self.flush();
                self.push_style(
                    SpanStyle { fg: Some(MdColor::Cyan), bold: true, ..plain_style_exec() },
                );
            },
            MdEvent::StartFencedCode(info) => {
                self.flush();
                self.in_code = true;
                self.lang = fence_lang_exec(info.as_str());
                self.code = String::new();
            },
            MdEvent::StartIndentedCode => {
                self.flush();
                self.in_code = true;
                self.lang = None;
                self.code = String::new();
            },
            MdEvent::StartStrong => self.push_style(SpanStyle { bold: true, ..plain_style_exec() }),
            MdEvent::StartEmphasis => self.push_style(
                SpanStyle { italic: true, ..plain_style_exec() },
            ),
            MdEvent::StartLink => self.push_style(
                SpanStyle { fg: Some(MdColor::LightBlue), underlined: true, ..plain_style_exec() },
            ),
            MdEvent::StartList => self.flush(),
            MdEvent::StartItem => self.flush(),
            MdEvent::EndCodeBlock => {
                let block = self.take_code_block();
                self.push_block(block);
                self.in_code = false;
            },
            MdEvent::EndHeading => self.pop_style(),
            MdEvent::EndStrong => self.pop_style(),
            MdEvent::EndEmphasis => self.pop_style(),
            MdEvent::EndLink => self.pop_style(),
            MdEvent::Html(h) => self.html(h.as_str()),
            MdEvent::InlineHtml(h) => self.html(h.as_str()),
            MdEvent::Text(t) => {
                if self.in_code {
                    self.code.append(t.as_str());
                } else {
                    let style = stacked_style_exec(&self.styles);
                    self.push_span(t.clone(), style);
                }
            },
            MdEvent::Code(t) => {
                self.push_span(
                    t.clone(),
                    SpanStyle { fg: Some(MdColor::Yellow), dim: true, ..plain_style_exec() },
                );
            },
            MdEvent::SoftBreak => {
                let sp = " ".to_string();
                proof {
                    reveal_strlit(" ");
                }
                assert(sp@ =~= seq![' ']);
                self.push_span(sp, plain_style_exec());
            },
            MdEvent::HardBreak => self.flush(),
            MdEvent::Rule => {
                self.flush();
                self.push_span(rule_text_exec(), SpanStyle { dim: true, ..plain_style_exec() });
                self.flush();
            },
            _ => {},
        }
    }

    fn finish(self) -> (blocks: Vec<MdBlock>)
        ensures
            block_views(blocks@) == md_finish(self@),
    {
        let mut me = self;
        if me.in_code && !me.code.as_str().is_empty() {
            let block = me.take_code_block();
            me.push_block(block);
        } else {
            me.flush();
        }
        me.blocks
    }
}

/// A highlighted range of a code line: its colour, syntect's font-style bits, its text.
#[derive(Clone, Debug)]
pub struct HlRange {
    pub r: u8,
    pub g: u8,
    pub b: u8,
    pub font: u8,
    pub text: String,
}

/// The value of a highlighted range.
pub open spec fn hl_view(h: HlRange) -> (u8, u8, u8, u8, Seq<char>) {
    (h.r, h.g, h.b, h.font, h.text@)
}

/// The value of the ranges of a line, or of a line that could not be highlighted.
pub open spec fn hl_line_view(l: Option<Vec<HlRange>>) -> Option<Seq<(u8, u8, u8, u8, Seq<char>)>> {
    match l {
        Some(v) => Some(v@.map_values(|h: HlRange| hl_view(h))),
        None => None,
    }
}

/// The value of a highlighting result.
pub open spec fn hl_views(r: Option<Vec<Option<Vec<HlRange>>>>) -> Option<
    Seq<Option<Seq<(u8, u8, u8, u8, Seq<char>)>>>,
> {
    match r {
        Some(v) => Some(v@.map_values(|l: Option<Vec<HlRange>>| hl_line_view(l))),
        None => None,
    }
}

/// The value of an optional string slice.
pub open spec fn opt_view(s: Option<&str>) -> Option<Seq<char>> {
    match s {
        Some(t) => Some(t@),
        None => None,
    }
}

#[verifier::external_type_specification]
#[verifier::external_body]
pub struct ExSyntectStyle(syntect::highlighting::Style);

/// A syntect style and the text it covers as an `HlRange`: the foreground's red, green
/// and blue, the font-style bits, and the text.
#[verifier::external_body]
fn hl_range(st: syntect::highlighting::Style, t: &str) -> HlRange {
    HlRange {
        r: st.foreground.r,
        g: st.foreground.g,
        b: st.foreground.b,
        font: st.font_style.bits(),
        text: t.to_string(),
    }
}

#[verifier::external_type_specification]
#[verifier::external_body]
pub struct ExSyntaxSet(SyntaxSet);

#[verifier::external_type_specification]
#[verifier::external_body]
pub struct ExThemeSet(ThemeSet);

#[verifier::external_type_specification]
#[verifier::external_body]
pub struct ExHighlightLines<'a>(HighlightLines<'a>);

/// `SyntaxSet::load_defaults_newlines`: syntect's built-in syntaxes, for lines that keep
/// their line break. Nothing is stated of the value.
#[verifier::external_body]
fn default_syntaxes() -> SyntaxSet {
    SyntaxSet::load_defaults_newlines()
}

/// `ThemeSet::load_defaults`: syntect's built-in themes. Nothing is stated of the value.
#[verifier::external_body]
fn default_themes() -> ThemeSet {
    ThemeSet::load_defaults()
}

/// syntect's built-in syntaxes and themes, loaded once for a code block.
pub struct CodeHighlighter {
    syntaxes: SyntaxSet,
    themes: ThemeSet,
}

impl CodeHighlighter {
    /// Loads syntect's built-in syntaxes and themes.
    pub fn new() -> (h: CodeHighlighter) {
        CodeHighlighter { syntaxes: default_syntaxes(), themes: default_themes() }
    }
}

/// Whether syntect's built-in themes have one of this name.
pub uninterp spec fn default_theme_known(name: Seq<char>) -> bool;

/// The name of the built-in theme at position `i` in name order, if there is one.
pub uninterp spec fn default_theme_at(i: usize) -> Option<Seq<char>>;

/// The position of the built-in syntax that `find_syntax_by_token` finds for a token.
pub uninterp spec fn token_syntax(token: Seq<char>) -> Option<usize>;

/// The position of the built-in syntax that `find_syntax_by_extension` finds.
pub uninterp spec fn extension_syntax(ext: Seq<char>) -> Option<usize>;

/// Whether `i` is the position of a built-in syntax.
pub uninterp spec fn syntax_index_valid(i: usize) -> bool;

/// What `HighlightLines::highlight_line` gives for `line` after `given` were highlighted,
/// for the built-in syntax at a position (plain text for none) and the built-in theme of
/// that name: the ranges, or nothing when the line could not be parsed.
pub uninterp spec fn highlighted_line(
    syntax: Option<usize>,
    theme: Seq<char>,
    given: Seq<Seq<char>>,
    line: Seq<char>,
) -> Option<Seq<(u8, u8, u8, u8, Seq<char>)>>;

/// `themes.contains_key`: whether a built-in theme has this name.
#[verifier::external_body]
fn has_theme(h: &CodeHighlighter, name: &str) -> (b: bool)
    ensures
        b == default_theme_known(name@),
{
    h.themes.themes.contains_key(name)
}

/// `themes.keys().nth(i)`: the name of the built-in theme at position `i` in name order;
/// such a name is one of the themes.
#[verifier::external_body]
fn theme_name_at(h: &CodeHighlighter, i: usize) -> (r: Option<String>)
    ensures
        opt_str_view(r) == default_theme_at(i),
        r matches Some(n) ==> default_theme_known(n@),
{
    h.themes.themes.keys().nth(i).cloned()
}

/// `SyntaxSet::find_syntax_by_token`, the syntax found given by its position among the
/// built-in syntaxes.
#[verifier::external_body]
fn syntax_by_token(h: &CodeHighlighter, token: &str) -> (r: Option<usize>)
    ensures
        r == token_syntax(token@),
        r matches Some(i) ==> syntax_index_valid(i),
{
    let found = h.syntaxes.find_syntax_by_token(token)?;
    h.syntaxes.syntaxes().iter().position(|s| std::ptr::eq(s, found))
}

/// `SyntaxSet::find_syntax_by_extension`, the syntax found given by its position among
/// the built-in syntaxes.
#[verifier::external_body]
fn syntax_by_extension(h: &CodeHighlighter, ext: &str) -> (r: Option<usize>)
    ensures
        r == extension_syntax(ext@),
        r matches Some(i) ==> syntax_index_valid(i),
{
    let found = h.syntaxes.find_syntax_by_extension(ext)?;
    h.syntaxes.syntaxes().iter().position(|s| std::ptr::eq(s, found))
}

/// A highlighter part-way through a code block: the syntax and theme it highlights with
/// and the lines it was given so far.
pub struct CodeLines<'a> {
    lines: HighlightLines<'a>,
    syntax: Ghost<Option<usize>>,
    theme: Ghost<Seq<char>>,
    given: Ghost<Seq<Seq<char>>>,
}

/// `HighlightLines::new` for the built-in syntax at a position (the plain-text syntax for
/// none) and the built-in theme of that name, no line given yet.
#[verifier::external_body]
fn start_lines<'a>(h: &'a CodeHighlighter, syntax: Option<usize>, theme: &str) -> (c: CodeLines<'a>)
    requires
        default_theme_known(theme@),
        syntax matches Some(i) ==> syntax_index_valid(i),
    ensures
        c.syntax@ == syntax,
        c.theme@ == theme@,
        c.given@ == Seq::<Seq<char>>::empty(),
{
    let s = match syntax {
        Some(i) => &h.syntaxes.syntaxes()[i],
        None => h.syntaxes.find_syntax_plain_text(),
    };
    let lines = HighlightLines::new(s, &h.themes.themes[theme]);
    CodeLines { lines, syntax: Ghost(syntax), theme: Ghost(theme@), given: Ghost(Seq::empty()) }
}

/// `HighlightLines::highlight_line` on the next line with the built-in syntaxes, each
/// range kept as its foreground colour, font-style bits and text; nothing when the line
/// could not be parsed. The result is named, not described.
#[verifier::external_body]
fn highlight_next_line(c: &mut CodeLines, h: &CodeHighlighter, line: &str) -> (r: Option<Vec<HlRange>>)
    ensures
        final(c).syntax == old(c).syntax,
        final(c).theme == old(c).theme,
        final(c).given@ == old(c).given@.push(line@),
        hl_line_view(r) == highlighted_line(old(c).syntax@, old(c).theme@, old(c).given@, line@),
{
    let r = c.lines.highlight_line(line, &h.syntaxes).ok();
    c.given = Ghost(c.given@.push(line@));
    r.map(|rs| rs.into_iter().map(|(st, t)| hl_range(st, t)).collect())
}

/// The theme a code block is highlighted with: the built-in one of that name, else the
/// first built-in theme.
pub open spec fn chosen_theme(name: Seq<char>) -> Option<Seq<char>> {
    if default_theme_known(name) {
        Some(name)
    } else {
        default_theme_at(0)
    }
}

/// The syntax a code block is highlighted with: the one its language names as a token,
/// else as an extension, else none (plain text).
pub open spec fn chosen_syntax(lang: Option<Seq<char>>) -> Option<usize> {
    match lang {
        Some(l) => match token_syntax(l) {
            Some(i) => Some(i),
            None => extension_syntax(l),
        },
        None => None,
    }
}

/// The highlighting of lines `ls`, each with a line break added, after `given`.
pub open spec fn highlight_from(
    syntax: Option<usize>,
    theme: Seq<char>,
    given: Seq<Seq<char>>,
    ls: Seq<Seq<char>>,
) -> Seq<Option<Seq<(u8, u8, u8, u8, Seq<char>)>>>
    decreases ls.len(),
{
    if ls.len() == 0 {
        Seq::empty()
    } else {
        let line = ls[0].push('\n');
        seq![highlighted_line(syntax, theme, given, line)] + highlight_from(
            syntax,
            theme,
            given.push(line),
            ls.drop_first(),
        )
    }
}

/// What the highlighter makes of a code block in a language under a theme name: nothing
/// when no theme can be had, else for each line of the code (with its line break) its
/// ranges, or nothing where the line could not be parsed.
pub open spec fn spec_highlight(code: Seq<char>, lang: Option<Seq<char>>, theme_name: Seq<char>) -> Option<
    Seq<Option<Seq<(u8, u8, u8, u8, Seq<char>)>>>,
> {
    match chosen_theme(theme_name) {
        None => None,
        Some(t) => Some(highlight_from(chosen_syntax(lang), t, Seq::empty(), text_lines(code))),
    }
}

/// Highlights a code block (see `spec_highlight`).
pub fn highlight_code(h: &CodeHighlighter, code: &str, lang: Option<&str>, theme_name: &str) -> (r: Option<
    Vec<Option<Vec<HlRange>>>,
>)
    ensures
        hl_views(r) == spec_highlight(code@, opt_view(lang), theme_name@),
{
    let theme = if has_theme(h, theme_name) {
        theme_name.to_string()
    } else {
        match theme_name_at(h, 0) {
            Some(t) => t,
            None => return None,
        }
    };
    let syntax = match lang {
        Some(l) => match syntax_by_token(h, l) {
            Some(i) => Some(i),
            None => syntax_by_extension(h, l),
        },
        None => None,
    };
    let mut c = start_lines(h, syntax, theme.as_str());
    let cs = chars_of(code);
    let ls = lines_of(cs.as_slice());
    let ghost lv = views(ls@);
    let ghost whole = highlight_from(syntax, theme@, Seq::empty(), lv);
    let mut out: Vec<Option<Vec<HlRange>>> = Vec::new();
    let mut i: usize = 0;
    assert(lv.skip(0) =~= lv);
    assert(out@.map_values(|l: Option<Vec<HlRange>>| hl_line_view(l)) + highlight_from(syntax, theme@, c.given@, lv.skip(0))
        =~= whole);
    while i < ls.len()
        invariant
            i <= ls@.len(),
            lv == views(ls@),
            c.syntax@ == syntax,
            c.theme@ == theme@,
            whole == highlight_from(syntax, theme@, Seq::empty(), lv),
            out@.map_values(|l: Option<Vec<HlRange>>| hl_line_view(l)) + highlight_from(syntax, theme@, c.given@, lv.skip(i as int))
                == whole,
        decreases ls.len() - i,
    {
        let mut line = string_from_chars(ls[i].as_slice());
        push_char(&mut line, '\n');
        let ghost given = c.given@;
        let ghost rest = lv.skip(i as int);
        assert(rest[0] == lv[i as int]);
        assert(rest.drop_first() =~= lv.skip(i + 1));
        let r = highlight_next_line(&mut c, h, line.as_str());
        let ghost before = out@.map_values(|l: Option<Vec<HlRange>>| hl_line_view(l));
        out.push(r);
        assert(out@.map_values(|l: Option<Vec<HlRange>>| hl_line_view(l)) =~= before.push(hl_line_view(r)));
        assert(out@.map_values(|l: Option<Vec<HlRange>>| hl_line_view(l)) + highlight_from(syntax, theme@, c.given@, lv.skip(i + 1))
            =~= before + highlight_from(syntax, theme@, given, rest));
        i += 1;
    }
    assert(lv.skip(ls@.len() as int) =~= Seq::<Seq<char>>::empty());
    assert(out@.map_values(|l: Option<Vec<HlRange>>| hl_line_view(l)) =~= whole);
    Some(out)
}

/// The style of a highlighted range: its colour, bold and italic from the font bits.
pub open spec fn hl_style(r: u8, g: u8, b: u8, font: u8) -> SpanStyle {
    SpanStyle {
        fg: Some(MdColor::Rgb(r, g, b)),
        bold: font & 1 != 0,
        italic: font & 4 != 0,
        underlined: false,
        dim: false,
    }
}

/// The spans of a highlighted line.
pub open spec fn hl_spans(ranges: Seq<(u8, u8, u8, u8, Seq<char>)>) -> Seq<(Seq<char>, SpanStyle)> {
    ranges.map_values(|h: (u8, u8, u8, u8, Seq<char>)| (h.4, hl_style(h.0, h.1, h.2, h.3)))
}

/// A code line shown without highlighting: the line in the inline-code style.
pub open spec fn plain_code_line(line: Seq<char>) -> MdBlockView {
    MdBlockView::Line { spans: seq![(line, code_inline_style())], alignment: Alignment::Left }
}

/// The block a code line becomes given its highlighting: its ranges as spans (an empty
/// line when there are none), or the plain line where highlighting failed.
pub open spec fn code_line(line: Seq<char>, ranges: Option<Seq<(u8, u8, u8, u8, Seq<char>)>>) -> MdBlockView {
    match ranges {
        Some(rs) => if rs.len() == 0 {
            MdBlockView::Blank
        } else {
            MdBlockView::Line { spans: hl_spans(rs), alignment: Alignment::Left }
        },
        None => plain_code_line(line),
    }
}

/// The highlighting of line `i`, if there is one.
pub open spec fn line_ranges(
    hl: Seq<Option<Seq<(u8, u8, u8, u8, Seq<char>)>>>,
    i: int,
) -> Option<Seq<(u8, u8, u8, u8, Seq<char>)>> {
    if 0 <= i < hl.len() {
        hl[i]
    } else {
        None
    }
}

/// The lines of a non-empty code block given the highlighter's result: each line of the
/// code as its highlighting gives it, or every line plain when there was no theme.
pub open spec fn spec_code_lines(
    code: Seq<char>,
    hl: Option<Seq<Option<Seq<(u8, u8, u8, u8, Seq<char>)>>>>,
) -> Seq<MdBlockView> {
    let ls = text_lines(code);
    match hl {
        None => Seq::new(ls.len(), |i: int| plain_code_line(ls[i])),
        Some(h) => Seq::new(ls.len(), |i: int| code_line(ls[i], line_ranges(h, i))),
    }
}

/// A code block as lines: an empty line when it has no code, else its lines highlighted
/// for the theme.
pub open spec fn spec_highlight_block(code: Seq<char>, lang: Option<Seq<char>>, theme: Theme) -> Seq<
    MdBlockView,
> {
    if code.len() == 0 {
        seq![MdBlockView::Blank]
    } else {
        spec_code_lines(code, spec_highlight(code, lang, spec_syntect_theme_name(theme)))
    }
}

/// The blocks with each code block replaced by its highlighted lines.
pub open spec fn spec_render_code(bs: Seq<MdBlockView>, theme: Theme) -> Seq<MdBlockView>
    decreases bs.len(),
{
    if bs.len() == 0 {
        Seq::empty()
    } else {
        spec_render_code(bs.drop_last(), theme) + match bs.last() {
            MdBlockView::Code { code, lang } => spec_highlight_block(code, lang, theme),
            b => seq![b],
        }
    }
}

impl MdBlock {
    /// A copy of the block.
    pub fn clone_block(&self) -> (b: MdBlock)
        ensures
            b@ == self@,
    {
        match self {
            MdBlock::Line { spans, alignment } => {
                let mut copy: Vec<MdSpan> = Vec::new();
                let mut i: usize = 0;
                while i < spans.len()
                    invariant
                        i <= spans@.len(),
                        span_views(copy@) == span_views(spans@).take(i as int),
                    decreases spans.len() - i,
                {
                    let ghost before = copy@;
                    copy.push(MdSpan { text: spans[i].text.clone(), style: spans[i].style });
                    assert(span_views(copy@) =~= span_views(before).push((spans@[i as int].text@, spans@[i as int].style)));
                    assert(span_views(spans@).take(i + 1) =~= span_views(spans@).take(i as int).push(
                        span_views(spans@)[i as int],
                    ));
                    i += 1;
                }
                assert(span_views(spans@).take(spans@.len() as int) =~= span_views(spans@));
                MdBlock::Line { spans: copy, alignment: *alignment }
            },
            MdBlock::Code { code, lang } => {
                let l = match lang {
                    Some(x) => Some(x.clone()),
                    None => None,
                };
                MdBlock::Code { code: code.clone(), lang: l }
            },
            MdBlock::Blank => MdBlock::Blank,
        }
    }
}

/// The spans of a highlighted line.
fn hl_line_spans(ranges: &Vec<HlRange>) -> (spans: Vec<MdSpan>)
    ensures
        span_views(spans@) == hl_spans(ranges@.map_values(|h: HlRange| hl_view(h))),
{
    let ghost rv = ranges@.map_values(|h: HlRange| hl_view(h));
    let mut spans: Vec<MdSpan> = Vec::new();
    let mut i: usize = 0;
    while i < ranges.len()
        invariant
            i <= ranges@.len(),
            rv == ranges@.map_values(|h: HlRange| hl_view(h)),
            span_views(spans@) == hl_spans(rv).take(i as int),
        decreases ranges.len() - i,
    {
        let h = &ranges[i];
        let style = SpanStyle {
            fg: Some(MdColor::Rgb(h.r, h.g, h.b)),
            bold: h.font & 1 != 0,
            italic: h.font & 4 != 0,
            underlined: false,
            dim: false,
        };
        let ghost before = spans@;
        spans.push(MdSpan { text: h.text.clone(), style });
        assert(span_views(spans@) =~= span_views(before).push((h.text@, style)));
        assert(hl_spans(rv).take(i + 1) =~= hl_spans(rv).take(i as int).push(hl_spans(rv)[i as int]));
        i += 1;
    }
    assert(hl_spans(rv).take(ranges@.len() as int) =~= hl_spans(rv));
    spans
}

/// A code line in the inline-code style.
fn plain_code_line_exec(line: &Vec<char>) -> (b: MdBlock)
    ensures
        b@ == plain_code_line(line@),
{
    let mut spans: Vec<MdSpan> = Vec::new();
    let style = SpanStyle { fg: Some(MdColor::Yellow), dim: true, ..plain_style_exec() };
    spans.push(MdSpan { text: string_from_chars(line.as_slice()), style });
    assert(span_views(spans@) =~= seq![(line@, code_inline_style())]);
    MdBlock::Line { spans, alignment: Alignment::Left }
}

/// The lines of a non-empty code block given what the highlighter returned for it (see
/// `spec_code_lines`).
pub fn code_block_lines(code: &str, hl: &Option<Vec<Option<Vec<HlRange>>>>) -> (blocks: Vec<MdBlock>)
    ensures
        block_views(blocks@) == spec_code_lines(code@, hl_views(*hl)),
{
    let cs = chars_of(code);
    let ls = lines_of(cs.as_slice());
    let ghost lv = views(ls@);
    let ghost target = spec_code_lines(code@, hl_views(*hl));
    let mut out: Vec<MdBlock> = Vec::new();
    let mut i: usize = 0;
    while i < ls.len()
        invariant
            i <= ls@.len(),
            lv == views(ls@),
            lv == text_lines(code@),
            target == spec_code_lines(code@, hl_views(*hl)),
            target.len() == lv.len(),
            block_views(out@) == target.take(i as int),
        decreases ls.len() - i,
    {
        let block = match hl {
            None => plain_code_line_exec(&ls[i]),
            Some(h) => {
                if i < h.len() {
                    match &h[i] {
                        Some(ranges) => {
                            if ranges.len() == 0 {
                                MdBlock::Blank
                            } else {
                                MdBlock::Line { spans: hl_line_spans(ranges), alignment: Alignment::Left }
                            }
                        },
                        None => plain_code_line_exec(&ls[i]),
                    }
                } else {
                    plain_code_line_exec(&ls[i])
                }
            },
        };
        assert(block@ == target[i as int]);
        let ghost before = out@;
        out.push(block);
        assert(block_views(out@) =~= block_views(before).push(block@));
        assert(target.take(i + 1) =~= target.take(i as int).push(target[i as int]));
        i += 1;
    }
    assert(target.take(ls@.len() as int) =~= target);
    out
}

/// A code block as lines highlighted for the theme (see `spec_highlight_block`).
pub fn highlight_block(code: &str, lang: Option<&str>, theme: Theme) -> (blocks: Vec<MdBlock>)
    ensures
        block_views(blocks@) == spec_highlight_block(code@, opt_view(lang), theme),
{
    if code.is_empty() {
        let mut v = Vec::new();
        v.push(MdBlock::Blank);
        assert(block_views(v@) =~= seq![MdBlockView::Blank]);
        return v;
    }
    let h = CodeHighlighter::new();
    let hl = highlight_code(&h, code, lang, theme.syntect_theme_name());
    code_block_lines(code, &hl)
}

/// The blocks with each code block replaced by its lines highlighted for the theme.
pub fn render_code_blocks(blocks: Vec<MdBlock>, theme: Theme) -> (out: Vec<MdBlock>)
    ensures
        block_views(out@) == spec_render_code(block_views(blocks@), theme),
{
    let ghost bv = block_views(blocks@);
    let mut out: Vec<MdBlock> = Vec::new();
    let mut i: usize = 0;
    while i < blocks.len()
        invariant
            i <= blocks@.len(),
            bv == block_views(blocks@),
            block_views(out@) == spec_render_code(bv.take(i as int), theme),
        decreases blocks.len() - i,
    {
        assert(bv.take(i + 1).drop_last() =~= bv.take(i as int));
        assert(bv.take(i + 1).last() == blocks@[i as int]@);
        let ghost before = block_views(out@);
        match &blocks[i] {
            MdBlock::Code { code, lang } => {
                let lang_ref: Option<&str> = match lang {
                    Some(l) => Some(l.as_str()),
                    None => None,
                };
                let mut lines = highlight_block(code.as_str(), lang_ref, theme);
                let ghost prev = out@;
                let ghost lv = lines@;
                out.append(&mut lines);
                assert(block_views(out@) =~= block_views(prev) + block_views(lv));
            },
            b => {
                let ghost prev = out@;
                out.push(b.clone_block());
                assert(block_views(out@) =~= block_views(prev).push(blocks@[i as int]@));
            },
        }
        i += 1;
    }
    assert(bv.take(blocks@.len() as int) =~= bv);
    out
}

/// The blocks that markdown events render to (see `spec_markdown_blocks`).
pub fn markdown_blocks(evs: &[MdEvent]) -> (blocks: Vec<MdBlock>)
    ensures
        block_views(blocks@) == spec_markdown_blocks(md_event_views(evs@)),
{
    let mut b = MdBuilder::new();
    let ghost all = md_event_views(evs@);
    let mut i: usize = 0;
    while i < evs.len()
        invariant
            all == md_event_views(evs@),
            i <= evs@.len(),
            b@ == md_steps(all.take(i as int)),
        decreases evs.len() - i,
    {
        assert(all.take(i + 1).drop_last() =~= all.take(i as int));
        assert(all.take(i + 1).last() == evs@[i as int]@);
        b.step(&evs[i]);
        i += 1;
    }
    assert(all.take(evs@.len() as int) =~= all);
    b.finish()
}

/// Markdown content as lines of styled spans (headings, bold, italic, links, inline
/// code, rules, alignment from HTML `align` attributes), code blocks highlighted for the
/// theme.
pub fn markdown_to_text(content: &str, theme: Theme) -> (blocks: Vec<MdBlock>)
    ensures
        block_views(blocks@) == spec_render_code(spec_markdown_blocks(markdown_events(content@)), theme),
{
    let evs = parse_markdown(content);
    render_code_blocks(markdown_blocks(evs.as_slice()), theme)
}

/// The parser's events for one item of a tight list holding plain text.
pub open spec fn item_events(text: Seq<char>) -> Seq<MdEventView> {
    seq![MdEventView::StartItem, MdEventView::Text(text), MdEventView::EndOther]
}

/// The events of the items, in order.
pub open spec fn items_events(texts: Seq<Seq<char>>) -> Seq<MdEventView>
    decreases texts.len(),
{
    if texts.len() == 0 {
        Seq::empty()
    } else {
        items_events(texts.drop_last()) + item_events(texts.last())
    }
}

/// The parser's events for a tight list whose items hold the texts.
pub open spec fn tight_list_events(texts: Seq<Seq<char>>) -> Seq<MdEventView> {
    seq![MdEventView::StartList] + items_events(texts) + seq![MdEventView::EndOther]
}

/// One line of plain text in the base style, left-aligned.
pub open spec fn plain_text_line(text: Seq<char>) -> MdBlockView {
    MdBlockView::Line { spans: seq![(text, base_style())], alignment: Alignment::Left }
}

/// The renderer's state within a tight list after its first `k` items: the items before
/// the last one are finished lines, the last one's text is the line in progress.
proof fn lemma_list_prefix(texts: Seq<Seq<char>>, k: int)
    requires
        0 <= k <= texts.len(),
    ensures
        ({
            let st = md_steps(seq![MdEventView::StartList] + items_events(texts.take(k)));
            &&& st.styles == seq![base_style()]
            &&& !st.in_code
            &&& st.aligns == md_start().aligns
            &&& k == 0 ==> st == md_start()
            &&& k > 0 ==> st.blocks == Seq::new((k - 1) as nat, |j: int| plain_text_line(texts[j]))
                && st.current == seq![(texts[k - 1], base_style())]
        }),
    decreases k,
{
    if k == 0 {
        assert(texts.take(0) =~= Seq::<Seq<char>>::empty());
        assert(seq![MdEventView::StartList] + items_events(texts.take(0)) =~= seq![MdEventView::StartList]);
        assert(seq![MdEventView::StartList].drop_last() =~= Seq::<MdEventView>::empty());
        assert(md_steps(Seq::<MdEventView>::empty()) == md_start());
        assert(md_steps(seq![MdEventView::StartList]) == md_step(md_start(), MdEventView::StartList));
    } else {
        lemma_list_prefix(texts, k - 1);
        let before = seq![MdEventView::StartList] + items_events(texts.take(k - 1));
        let st0 = md_steps(before);
        assert(texts.take(k).drop_last() =~= texts.take(k - 1));
        assert(texts.take(k).last() == texts[k - 1]);
        let p1 = before.push(MdEventView::StartItem);
        let p2 = p1.push(MdEventView::Text(texts[k - 1]));
        let p3 = p2.push(MdEventView::EndOther);
        assert(seq![MdEventView::StartList] + items_events(texts.take(k)) =~= p3);
        assert(p3.drop_last() =~= p2);
        assert(p2.drop_last() =~= p1);
        assert(p1.drop_last() =~= before);
        let s1 = md_step(st0, MdEventView::StartItem);
        assert(md_steps(p1) == s1);
        assert(s1.current.len() == 0);
        assert(s1.blocks =~= Seq::new((k - 1) as nat, |j: int| plain_text_line(texts[j])));
        let s2 = md_step(s1, MdEventView::Text(texts[k - 1]));
        assert(md_steps(p2) == s2);
        assert(stacked_style(seq![base_style()]) == base_style()) by {
            assert(seq![base_style()].drop_last() =~= Seq::<SpanStyle>::empty());
            assert(stacked_style(Seq::<SpanStyle>::empty()) == plain_style());
            assert(seq![base_style()].last() == base_style());
            assert(patch(plain_style(), base_style()) == base_style());
        }
        assert(s2.current =~= seq![(texts[k - 1], base_style())]);
        assert(md_steps(p3) == md_step(s2, MdEventView::EndOther));
    }
}

/// Every item of a list begins its own line: a tight list of plain-text items renders to
/// one line per item, the k-th line holding the k-th item's text, whatever the theme.
pub proof fn lemma_list_items_are_lines(texts: Seq<Seq<char>>, theme: Theme)
    ensures
        spec_markdown_blocks(tight_list_events(texts)) == Seq::new(texts.len(), |k: int| plain_text_line(texts[k])),
        spec_render_code(spec_markdown_blocks(tight_list_events(texts)), theme) == Seq::new(
            texts.len(),
            |k: int| plain_text_line(texts[k]),
        ),
{
    let n = texts.len() as int;
    lemma_list_prefix(texts, n);
    assert(texts.take(n) =~= texts);
    let body = seq![MdEventView::StartList] + items_events(texts);
    let evs = tight_list_events(texts);
    assert(evs =~= body.push(MdEventView::EndOther));
    assert(evs.drop_last() =~= body);
    let st = md_steps(body);
    assert(md_steps(evs) == md_step(st, MdEventView::EndOther));
    let blocks = spec_markdown_blocks(evs);
    let expected = Seq::new(texts.len(), |k: int| plain_text_line(texts[k]));
    if n == 0 {
        assert(blocks =~= expected);
    } else {
        assert(blocks =~= expected);
    }
    lemma_render_code_keeps_lines(expected, theme);
}

/// Rendering code blocks leaves blocks without code as they are.
proof fn lemma_render_code_keeps_lines(bs: Seq<MdBlockView>, theme: Theme)
    requires
        forall|i: int| 0 <= i < bs.len() ==> !((#[trigger] bs[i]) is Code),
    ensures
        spec_render_code(bs, theme) == bs,
    decreases bs.len(),
{
    if bs.len() > 0 {
        let rest = bs.drop_last();
        assert forall|i: int| 0 <= i < rest.len() implies !((#[trigger] rest[i]) is Code) by {
            assert(rest[i] == bs[i]);
        }
        lemma_render_code_keeps_lines(rest, theme);
        assert(!(bs[bs.len() - 1] is Code));
        assert(bs =~= rest.push(bs.last()));
    }
}

} // verus!
