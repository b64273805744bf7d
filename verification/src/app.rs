//! Layout arithmetic and text of the TUI's panes: content-area window, cursor
//! position, overlay placement, the lines each history record shows, the status line
//! and the overlay panels. Drawing them with a terminal library is left to the caller.
use vstd::prelude::*;
use vstd::string::StringSliceAdditionalSpecFns;
use vstd::utf8::{decode_utf8, encode_utf8, is_char_boundary};

use crate::content_render::{
    block_views, markdown_to_text, markdown_events, spec_markdown_blocks, spec_render_code, MdBlock,
    MdBlockView, MdColor, MdSpan, SpanStyle, Theme,
};
use crate::content_layout::{compute_content_rows, row_views, rows_after_cache, Alignment, Cell, CellView, RowsCache};
use crate::cache_key::{history_cache_key, spec_history_cache_key};
use crate::state::{TuiState, TuiView};
use ratatui::layout::Constraint;
use crate::history::events::{DiffLine, DiffLineView};
use crate::history::state::{record_views, spec_apply_event, HistoryId, HistoryRecord, RecordView};
use crate::history::events::EventView;
use crate::overlay::{spec_theme_label, spec_themes, theme_label, themes, Overlay, OverlayView};

verus! {

broadcast use {
    vstd::string::group_string_axioms,
    vstd::utf8::encode_utf8_decode_utf8,
    vstd::utf8::encode_utf8_valid_utf8,
};

/// A rectangle of terminal cells.
#[derive(Clone, Copy, Debug, PartialEq, Eq, Structural)]
pub struct Rect {
    pub x: u16,
    pub y: u16,
    pub width: u16,
    pub height: u16,
}

impl Rect {
    /// The rectangle lies on the addressable screen (as terminal libraries keep it).
    pub open spec fn fits(self) -> bool {
        self.x + self.width <= u16::MAX && self.y + self.height <= u16::MAX
    }
}

/// Rows of the status pane: border, line, border.
pub const THINKING_HEIGHT: u16 = 3;

/// Rows of the input pane: border, up to four lines of wrapped input, border.
pub const INPUT_HEIGHT: u16 = 6;

/// Rows of an overlay panel.
pub const OVERLAY_HEIGHT: u16 = 8;

/// The three areas that ratatui's vertical `Layout` splits `area` into for a flexible
/// first part of at least `min` rows followed by parts of `middle` and `bottom` rows.
pub uninterp spec fn vertical_chunks(area: Rect, min: u16, middle: u16, bottom: u16) -> (Rect, Rect, Rect);

/// `ratatui::layout::Layout::vertical([Min(min), Length(middle), Length(bottom)]).split`
/// on the area, each resulting rectangle converted field by field. The solver's result
/// is named, not described.
#[verifier::external_body]
fn split_vertical(area: Rect, min: u16, middle: u16, bottom: u16) -> (r: (Rect, Rect, Rect))
    ensures
        r == vertical_chunks(area, min, middle, bottom),
{
    let constraints = [Constraint::Min(min), Constraint::Length(middle), Constraint::Length(bottom)];
    let outer = ratatui::layout::Rect { x: area.x, y: area.y, width: area.width, height: area.height };
    let chunks = ratatui::layout::Layout::vertical(constraints).split(outer);
    let conv = |c: ratatui::layout::Rect| Rect { x: c.x, y: c.y, width: c.width, height: c.height };
    (conv(chunks[0]), conv(chunks[1]), conv(chunks[2]))
}

/// The content, status and input areas of the main area: the status and input panes
/// keep their heights at the bottom and the content area takes the rest.
pub fn layout_chunks(area: Rect) -> (r: (Rect, Rect, Rect))
    ensures
        r == vertical_chunks(area, 0, THINKING_HEIGHT, INPUT_HEIGHT),
{
    split_vertical(area, 0, THINKING_HEIGHT, INPUT_HEIGHT)
}

/// Width of the input prompt ` > `.
pub const PROMPT_LEN: usize = 3;

/// `a - b`, or zero.
pub open spec fn sub0(a: int, b: int) -> int {
    if a >= b {
        a - b
    } else {
        0
    }
}

/// Width inside the left and right borders.
pub fn content_inner_width(area: Rect) -> (w: u16)
    ensures
        w == sub0(area.width as int, 2),
{
    if area.width >= 2 {
        area.width - 2
    } else {
        0
    }
}

/// Height inside the top and bottom borders.
pub fn content_inner_height(area: Rect) -> (h: u16)
    ensures
        h == sub0(area.height as int, 2),
{
    if area.height >= 2 {
        area.height - 2
    } else {
        0
    }
}

/// The screen cell of the input cursor, after the prompt and `buffer_len` characters,
/// wrapping at the inner width and kept on the pane's last inner row.
pub open spec fn spec_cursor_position(area: Rect, buffer_len: usize) -> (u16, u16) {
    let inner_width = sub0(area.width as int, 2);
    if inner_width == 0 {
        ((area.x + 1) as u16, (area.y + 1) as u16)
    } else {
        let index = PROMPT_LEN + buffer_len;
        let row = index / inner_width;
        let col = index % inner_width;
        let max_row = sub0(sub0(area.height as int, 2), 1);
        let row = if row <= max_row {
            row
        } else {
            max_row
        };
        ((area.x + 1 + col) as u16, (area.y + 1 + row) as u16)
    }
}

/// Cursor position for the input field (after ` > ` and the buffer), with wrapping.
pub fn input_cursor_position(input_area: Rect, buffer_len: usize) -> (pos: (u16, u16))
    requires
        input_area.fits(),
        input_area.x < u16::MAX,
        input_area.y < u16::MAX,
        buffer_len + PROMPT_LEN <= usize::MAX,
    ensures
        pos == spec_cursor_position(input_area, buffer_len),
        pos.0 <= input_area.x + input_area.width || input_area.width < 2,
        pos.1 <= input_area.y + input_area.height || input_area.height < 3,
{
    let inner_width = content_inner_width(input_area) as usize;
    if inner_width == 0 {
        return (input_area.x + 1, input_area.y + 1);
    }
    let cursor_index = PROMPT_LEN + buffer_len;
    let row = cursor_index / inner_width;
    let col = cursor_index % inner_width;
    let inner_height = content_inner_height(input_area) as usize;
    let max_row = if inner_height >= 1 {
        inner_height - 1
    } else {
        0
    };
    let row = if row <= max_row {
        row
    } else {
        max_row
    };
    let x = input_area.x + 1 + (col as u16);
    let y = input_area.y + 1 + (row as u16);
    (x, y)
}

/// The bottom `OVERLAY_HEIGHT` rows of the area (all of it when shorter).
pub fn overlay_area(area: Rect) -> (r: Rect)
    requires
        area.fits(),
    ensures
        r.x == area.x,
        r.width == area.width,
        r.height == (if area.height <= OVERLAY_HEIGHT {
            area.height
        } else {
            OVERLAY_HEIGHT
        }),
        r.y + r.height == area.y + area.height,
{
    let overlay_h = if area.height <= OVERLAY_HEIGHT {
        area.height
    } else {
        OVERLAY_HEIGHT
    };
    let y = area.y + (area.height - overlay_h);
    Rect { x: area.x, y, width: area.width, height: overlay_h }
}

/// The area left above an overlay, when one is shown.
pub fn content_area_with_overlay(area: Rect, overlay_active: bool) -> (r: Rect)
    ensures
        !overlay_active ==> r == area,
        overlay_active ==> r == (Rect {
            height: sub0(area.height as int, OVERLAY_HEIGHT as int) as u16,
            ..area
        }),
{
    if overlay_active {
        Rect {
            height: if area.height >= OVERLAY_HEIGHT {
                area.height - OVERLAY_HEIGHT
            } else {
                0
            },
            ..area
        }
    } else {
        area
    }
}

/// The first content row shown: the top when everything fits, the bottom while
/// following a stream, else the requested offset kept within range.
pub open spec fn spec_effective_scroll(
    total_rows: usize,
    viewport_height: usize,
    scroll_offset: usize,
    follows_stream: bool,
    streaming: bool,
) -> usize {
    let max_scroll = sub0(total_rows as int, viewport_height as int);
    if viewport_height >= total_rows {
        0
    } else if follows_stream && streaming {
        max_scroll as usize
    } else if scroll_offset <= max_scroll {
        scroll_offset
    } else {
        max_scroll as usize
    }
}

/// While the view follows a streaming reply and the rows overflow the viewport, the
/// window shows the last rows.
pub proof fn lemma_following_shows_bottom(total_rows: usize, viewport_height: usize, scroll_offset: usize)
    requires
        viewport_height < total_rows,
    ensures
        spec_effective_scroll(total_rows, viewport_height, scroll_offset, true, true) + viewport_height
            == total_rows,
{
}

/// The window of content rows shown: its first row and its length.
pub fn visible_window(
    total_rows: usize,
    viewport_height: usize,
    scroll_offset: usize,
    follows_stream: bool,
    streaming: bool,
) -> (w: (usize, usize))
    ensures
        w.0 == spec_effective_scroll(
            total_rows,
            viewport_height,
            scroll_offset,
            follows_stream,
            streaming,
        ),
        w.1 == (if viewport_height <= total_rows - w.0 {
            viewport_height as int
        } else {
            total_rows - w.0
        }),
        w.0 + w.1 <= total_rows,
        w.1 <= viewport_height,
{
    let max_scroll = if total_rows >= viewport_height {
        total_rows - viewport_height
    } else {
        0
    };
    let effective = if viewport_height >= total_rows {
        0
    } else if follows_stream && streaming {
        max_scroll
    } else if scroll_offset <= max_scroll {
        scroll_offset
    } else {
        max_scroll
    };
    let rest = total_rows - effective;
    let len = if viewport_height <= rest {
        viewport_height
    } else {
        rest
    };
    (effective, len)
}

/// Whether the last record is an assistant cell still streaming.
pub open spec fn spec_last_is_streaming(records: Seq<RecordView>) -> bool {
    records.len() > 0 && records.last() matches RecordView::AssistantContent { streaming: true, .. }
}

/// Whether the last record is an assistant cell still streaming.
pub fn last_is_streaming(records: &[HistoryRecord]) -> (b: bool)
    ensures
        b == (records@.len() > 0 && records@.last()@ matches RecordView::AssistantContent {
            streaming: true,
            ..
        }),
{
    if records.len() == 0 {
        return false;
    }
    match &records[records.len() - 1] {
        HistoryRecord::AssistantContent { streaming, .. } => *streaming,
        _ => false,
    }
}

/// The largest character boundary of `bytes` at or below `k`.
pub open spec fn char_floor(bytes: Seq<u8>, k: int) -> int
    decreases k,
{
    if k <= 0 {
        0
    } else if is_char_boundary(bytes, k) {
        k
    } else {
        char_floor(bytes, k - 1)
    }
}

/// A preview of `s` in at most `max_bytes` bytes of UTF-8: `s` itself when it fits,
/// else its longest prefix of whole characters within the limit followed by `...`.
pub open spec fn spec_truncate_preview(s: Seq<char>, max_bytes: usize) -> Seq<char> {
    let bytes = encode_utf8(s);
    if bytes.len() <= max_bytes {
        s
    } else {
        decode_utf8(bytes.take(char_floor(bytes, max_bytes as int))) + "..."@
    }
}

/// `s`, cut to at most `max_bytes` bytes at a character boundary, with `...` when cut.
pub fn truncate_preview(s: &str, max_bytes: usize) -> (r: String)
    ensures
        r@ == spec_truncate_preview(s@, max_bytes),
{
    if s.as_bytes().len() <= max_bytes {
        return s.to_string();
    }
    let mut end = max_bytes;
    while end > 0 && !s.is_char_boundary(end)
        invariant
            end <= max_bytes,
            char_floor(s.spec_bytes(), max_bytes as int) == char_floor(s.spec_bytes(), end as int),
        decreases end,
    {
        end -= 1;
    }
    let (head, _) = s.split_at(end);
    proof {
        assert(head@ == decode_utf8(head.spec_bytes()));
    }
    let mut r = head.to_string();
    r.append("...");
    r
}

/// How a line of the content area is styled.
#[derive(Clone, Copy, Debug, PartialEq, Eq, Structural)]
pub enum LineStyle {
    Plain,
    Header,
    ToolCall,
    ToolOk,
    ToolError,
    Thinking,
    ActionRequired,
    DiffHeader,
    DiffContext,
    DiffAdd,
    DiffRemove,
}

/// A line a history record shows: styled text, or markdown that the content renderer
/// turns into styled lines.
#[derive(Clone, Debug)]
pub enum RecordLine {
    Styled { text: String, style: LineStyle },
    Markdown { text: String },
}

/// The value a `RecordLine` stands for.
pub enum RecordLineView {
    Styled { text: Seq<char>, style: LineStyle },
    Markdown { text: Seq<char> },
}

impl View for RecordLine {
    type V = RecordLineView;

    open spec fn view(&self) -> RecordLineView {
        match self {
            RecordLine::Styled { text, style } => RecordLineView::Styled { text: text@, style: *style },
            RecordLine::Markdown { text } => RecordLineView::Markdown { text: text@ },
        }
    }
}

/// The views of a sequence of record lines.
pub open spec fn record_line_views(lines: Seq<RecordLine>) -> Seq<RecordLineView> {
    lines.map_values(|l: RecordLine| l@)
}

/// Bytes of tool arguments and results a cell previews.
pub const PREVIEW_BYTES: usize = 500;

/// The line a diff line shows.
pub open spec fn diff_line_line(d: DiffLineView) -> RecordLineView {
    match d {
        DiffLineView::Context(s) => RecordLineView::Styled { text: s, style: LineStyle::DiffContext },
        DiffLineView::Add(s) => RecordLineView::Styled {
            text: seq!['+'] + s,
            style: LineStyle::DiffAdd,
        },
        DiffLineView::Remove(s) => RecordLineView::Styled {
            text: seq!['-'] + s,
            style: LineStyle::DiffRemove,
        },
    }
}

/// The lines of all the hunks of a diff, in order.
pub open spec fn diff_body_lines(hunks: Seq<crate::history::events::DiffHunkView>) -> Seq<RecordLineView>
    decreases hunks.len(),
{
    if hunks.len() == 0 {
        Seq::empty()
    } else {
        diff_body_lines(hunks.drop_last()) + hunks.last().lines.map_values(
            |d: DiffLineView| diff_line_line(d),
        )
    }
}

/// The lines a history record shows.
pub open spec fn spec_record_lines(r: RecordView) -> Seq<RecordLineView> {
    match r {
        RecordView::UserMessage { text, .. } => seq![
            RecordLineView::Styled { text: "You:"@, style: LineStyle::Header },
            RecordLineView::Markdown { text },
        ],
        RecordView::AssistantContent { text, streaming, .. } => seq![
            RecordLineView::Styled {
                text: if streaming {
                    "Assistant (streaming):"@
                } else {
                    "Assistant:"@
                },
                style: LineStyle::Header,
            },
            RecordLineView::Markdown { text },
        ],
        RecordView::ToolCall { tool_name, args_preview, .. } => seq![
            RecordLineView::Styled {
                text: "\u{2500}\u{2500}\u{2500} "@ + tool_name + " \u{2500}\u{2500}\u{2500}"@,
                style: LineStyle::ToolCall,
            },
            RecordLineView::Styled {
                text: spec_truncate_preview(args_preview, PREVIEW_BYTES),
                style: LineStyle::Plain,
            },
        ],
        RecordView::ToolResult { tool_name, result_preview, is_error, .. } => seq![
            RecordLineView::Styled {
                text: tool_name + " response:"@,
                style: if is_error {
                    LineStyle::ToolError
                } else {
                    LineStyle::ToolOk
                },
            },
            RecordLineView::Styled {
                text: spec_truncate_preview(result_preview, PREVIEW_BYTES),
                style: LineStyle::Plain,
            },
        ],
        RecordView::Thinking { message, .. } => seq![
            RecordLineView::Styled {
                text: " \u{23f3} "@ + if message.len() == 0 {
                    "Thinking..."@
                } else {
                    message
                },
                style: LineStyle::Thinking,
            },
        ],
        RecordView::ActionRequired { message, .. } => seq![
            RecordLineView::Styled {
                text: "[Action required] "@ + message,
                style: LineStyle::ActionRequired,
            },
        ],
        RecordView::Diff { path, hunks, .. } => seq![
            RecordLineView::Styled { text: "diff "@ + path, style: LineStyle::DiffHeader },
        ] + diff_body_lines(hunks),
    }
}

/// A styled line.
fn styled(text: String, style: LineStyle) -> (l: RecordLine)
    ensures
        l@ == (RecordLineView::Styled { text: text@, style }),
{
    RecordLine::Styled { text, style }
}

/// `a` followed by `b`.
fn concat_str(a: &str, b: &str) -> (r: String)
    ensures
        r@ == a@ + b@,
{
    let mut r = a.to_string();
    r.append(b);
    r
}

/// The line a diff line shows.
fn diff_line_to_line(d: &DiffLine) -> (l: RecordLine)
    ensures
        l@ == diff_line_line(d@),
{
    match d {
        DiffLine::Context(s) => styled(s.clone(), LineStyle::DiffContext),
        DiffLine::Add(s) => {
            let t = concat_str("+", s.as_str());
            proof {
                reveal_strlit("+");
            }
            assert(t@ =~= seq!['+'] + s@);
            styled(t, LineStyle::DiffAdd)
        },
        DiffLine::Remove(s) => {
            let t = concat_str("-", s.as_str());
            proof {
                reveal_strlit("-");
            }
            assert(t@ =~= seq!['-'] + s@);
            styled(t, LineStyle::DiffRemove)
        },
    }
}

/// The lines a history record shows: a header, then its text (markdown for messages),
/// a preview of at most 500 bytes for tool calls and results, or the diff's lines.
pub fn record_lines(record: &HistoryRecord) -> (lines: Vec<RecordLine>)
    ensures
        record_line_views(lines@) == spec_record_lines(record@),
{
    let mut lines: Vec<RecordLine> = Vec::new();
    match record {
        HistoryRecord::UserMessage { text, .. } => {
            lines.push(styled("You:".to_string(), LineStyle::Header));
            lines.push(RecordLine::Markdown { text: text.clone() });
        },
        HistoryRecord::AssistantContent { text, streaming, .. } => {
            let label = if *streaming {
                "Assistant (streaming):".to_string()
            } else {
                "Assistant:".to_string()
            };
            lines.push(styled(label, LineStyle::Header));
            lines.push(RecordLine::Markdown { text: text.clone() });
        },
        HistoryRecord::ToolCall { tool_name, args_preview, .. } => {
            let mut head = concat_str("\u{2500}\u{2500}\u{2500} ", tool_name.as_str());
            head.append(" \u{2500}\u{2500}\u{2500}");
            lines.push(styled(head, LineStyle::ToolCall));
            lines.push(styled(truncate_preview(args_preview.as_str(), PREVIEW_BYTES), LineStyle::Plain));
        },
        HistoryRecord::ToolResult { tool_name, result_preview, is_error, .. } => {
            let style = if *is_error {
                LineStyle::ToolError
            } else {
                LineStyle::ToolOk
            };
            lines.push(styled(concat_str(tool_name.as_str(), " response:"), style));
            lines.push(
                styled(truncate_preview(result_preview.as_str(), PREVIEW_BYTES), LineStyle::Plain),
            );
        },
        HistoryRecord::Thinking { message, .. } => {
            let text = if message.as_str().is_empty() {
                concat_str(" \u{23f3} ", "Thinking...")
            } else {
                concat_str(" \u{23f3} ", message.as_str())
            };
            lines.push(styled(text, LineStyle::Thinking));
        },
        HistoryRecord::ActionRequired { message, .. } => {
            lines.push(styled(concat_str("[Action required] ", message.as_str()), LineStyle::ActionRequired));
        },
        HistoryRecord::Diff { path, hunks, .. } => {
            lines.push(styled(concat_str("diff ", path.as_str()), LineStyle::DiffHeader));
            let ghost first = record_line_views(lines@);
            let mut i: usize = 0;
            while i < hunks.len()
                invariant
                    i <= hunks@.len(),
                    record_line_views(lines@) == first + diff_body_lines(
                        crate::history::events::hunk_views(hunks@).take(i as int),
                    ),
                decreases hunks.len() - i,
            {
                let hunk = &hunks[i];
                let ghost before = record_line_views(lines@);
                let mut j: usize = 0;
                while j < hunk.lines.len()
                    invariant
                        j <= hunk.lines@.len(),
                        record_line_views(lines@) == before + hunk@.lines.take(j as int).map_values(
                            |d: DiffLineView| diff_line_line(d),
                        ),
                    decreases hunk.lines.len() - j,
                {
                    let l = diff_line_to_line(&hunk.lines[j]);
                    let ghost prev = lines@;
                    lines.push(l);
                    assert(record_line_views(lines@) =~= record_line_views(prev).push(l@));
                    assert(hunk@.lines[j as int] == hunk.lines@[j as int]@);
                    assert(hunk@.lines.take(j + 1).map_values(|d: DiffLineView| diff_line_line(d))
                        =~= hunk@.lines.take(j as int).map_values(|d: DiffLineView| diff_line_line(d)).push(
                        diff_line_line(hunk@.lines[j as int]),
                    ));
                    assert(record_line_views(lines@) =~= before + hunk@.lines.take(j + 1).map_values(
                        |d: DiffLineView| diff_line_line(d),
                    ));
                    j += 1;
                }
                assert(hunk@.lines.take(hunk@.lines.len() as int) =~= hunk@.lines);
                let ghost hv = crate::history::events::hunk_views(hunks@);
                assert(hv.take(i + 1).drop_last() =~= hv.take(i as int));
                assert(hv.take(i + 1).last() == hunk@);
                assert(record_line_views(lines@) =~= first + diff_body_lines(hv.take(i + 1)));
                i += 1;
            }
            assert(crate::history::events::hunk_views(hunks@).take(hunks@.len() as int)
                =~= crate::history::events::hunk_views(hunks@));
        },
    }
    assert(record_line_views(lines@) =~= spec_record_lines(record@));
    lines
}


/// Milliseconds per frame of the "Thinking" dots animation.
pub const THINKING_DOT_MS: u128 = 400;

/// What the status pane shows.
#[derive(Clone, Debug)]
pub enum StatusLine {
    /// The thinking line.
    Thinking(String),
    /// The session's status, dimmed.
    Status(String),
    Blank,
}

/// The value a `StatusLine` stands for.
pub enum StatusLineView {
    Thinking(Seq<char>),
    Status(Seq<char>),
    Blank,
}

impl View for StatusLine {
    type V = StatusLineView;

    open spec fn view(&self) -> StatusLineView {
        match self {
            StatusLine::Thinking(t) => StatusLineView::Thinking(t@),
            StatusLine::Status(t) => StatusLineView::Status(t@),
            StatusLine::Blank => StatusLineView::Blank,
        }
    }
}

/// The animated dots after "Thinking": one, two or three, changing every 400 ms;
/// three when the start time is unknown.
pub open spec fn thinking_dots(elapsed_ms: Option<u128>) -> Seq<char> {
    match elapsed_ms {
        Some(ms) => if (ms / THINKING_DOT_MS) % 3 == 0 {
            "."@
        } else if (ms / THINKING_DOT_MS) % 3 == 1 {
            ".."@
        } else {
            "..."@
        },
        None => "..."@,
    }
}

/// What the status pane shows: the thinking line while thinking (the message, or
/// animated "Thinking" dots when there is none), else the session status, else nothing.
pub open spec fn spec_status_line(
    thinking_visible: bool,
    thinking_message: Seq<char>,
    elapsed_ms: Option<u128>,
    session_status: Option<Seq<char>>,
) -> StatusLineView {
    if thinking_visible {
        StatusLineView::Thinking(
            " \u{23f3} "@ + if thinking_message.len() == 0 {
                "Thinking"@ + thinking_dots(elapsed_ms)
            } else {
                thinking_message
            },
        )
    } else {
        match session_status {
            Some(st) => StatusLineView::Status(st),
            None => StatusLineView::Blank,
        }
    }
}

/// The status pane's line; `elapsed_ms` is the time since thinking started, if known.
pub fn status_line(
    thinking_visible: bool,
    thinking_message: &str,
    elapsed_ms: Option<u128>,
    session_status: Option<&str>,
) -> (l: StatusLine)
    ensures
        l@ == spec_status_line(
            thinking_visible,
            thinking_message@,
            elapsed_ms,
            match session_status {
                Some(st) => Some(st@),
                None => None,
            },
        ),
{
    if thinking_visible {
        let msg = if thinking_message.is_empty() {
            let dots = match elapsed_ms {
                Some(ms) => {
                    let frame = (ms / THINKING_DOT_MS) % 3;
                    if frame == 0 {
                        "."
                    } else if frame == 1 {
                        ".."
                    } else {
                        "..."
                    }
                },
                None => "...",
            };
            concat_str("Thinking", dots)
        } else {
            thinking_message.to_string()
        };
        let mut text = " \u{23f3} ".to_string();
        text.append(msg.as_str());
        StatusLine::Thinking(text)
    } else {
        match session_status {
            Some(st) => StatusLine::Status(st.to_string()),
            None => StatusLine::Blank,
        }
    }
}

/// How the tool-approval mode is configured.
#[derive(Clone, Copy, Debug, PartialEq, Eq, Structural)]
pub enum ApprovalMode {
    Auto,
    Approve,
    SmartApprove,
    Chat,
}

/// The settings panel's description of an approval mode.
pub open spec fn spec_approval_label(mode: ApprovalMode) -> Seq<char> {
    match mode {
        ApprovalMode::Auto => "auto (no approval)"@,
        ApprovalMode::Approve => "approve (ask before)"@,
        ApprovalMode::SmartApprove => "smart_approve"@,
        ApprovalMode::Chat => "chat (no tools)"@,
    }
}

/// The settings panel's description of an approval mode.
pub fn approval_label(mode: ApprovalMode) -> (l: &'static str)
    ensures
        l@ == spec_approval_label(mode),
{
    match mode {
        ApprovalMode::Auto => "auto (no approval)",
        ApprovalMode::Approve => "approve (ask before)",
        ApprovalMode::SmartApprove => "smart_approve",
        ApprovalMode::Chat => "chat (no tools)",
    }
}

/// How a line of an overlay panel is styled.
#[derive(Clone, Copy, Debug, PartialEq, Eq, Structural)]
pub enum PanelStyle {
    /// The panel's heading (bold).
    Heading,
    /// A heading asking for a decision (bold, warning colour).
    Question,
    /// The selected entry of a list (bold).
    Selected,
    Plain,
    /// Key hints (dimmed).
    Hint,
}

/// A line of an overlay panel.
#[derive(Clone, Debug)]
pub struct PanelLine {
    pub text: String,
    pub style: PanelStyle,
}

/// An overlay panel: its frame title and its lines.
#[derive(Clone, Debug)]
pub struct OverlayPanel {
    pub title: String,
    pub lines: Vec<PanelLine>,
}

/// The value an `OverlayPanel` stands for: title and (text, style) lines.
pub open spec fn panel_view(p: OverlayPanel) -> (Seq<char>, Seq<(Seq<char>, PanelStyle)>) {
    (p.title@, p.lines@.map_values(|l: PanelLine| (l.text@, l.style)))
}

/// The theme picker's entry for the theme at position `i`.
pub open spec fn picker_entry(i: int, selected: usize) -> (Seq<char>, PanelStyle) {
    if i == selected {
        ("\u{25b8} "@ + spec_theme_label(spec_themes()[i]), PanelStyle::Selected)
    } else {
        ("  "@ + spec_theme_label(spec_themes()[i]), PanelStyle::Plain)
    }
}

/// The panel an overlay shows; settings show the model, the theme and the approval mode.
pub open spec fn spec_overlay_panel(
    overlay: OverlayView,
    theme: Theme,
    model: Seq<char>,
    mode: ApprovalMode,
) -> Option<(Seq<char>, Seq<(Seq<char>, PanelStyle)>)> {
    match overlay {
        OverlayView::Hidden => None,
        OverlayView::ThemePicker { selected } => Some(
            (
                " Theme "@,
                seq![
                    (" Theme (\u{2191}/\u{2193} select, Enter apply, Esc close) "@, PanelStyle::Heading),
                    picker_entry(0, selected),
                    picker_entry(1, selected),
                    picker_entry(2, selected),
                ],
            ),
        ),
        OverlayView::Settings => Some(
            (
                " Settings "@,
                seq![
                    (" Settings (read from config) "@, PanelStyle::Heading),
                    (Seq::empty(), PanelStyle::Plain),
                    (" Model:   "@ + model, PanelStyle::Plain),
                    (" Theme:   "@ + spec_theme_label(theme) + " (Ctrl+T to change)"@, PanelStyle::Plain),
                    (" Approval: "@ + spec_approval_label(mode) + " "@, PanelStyle::Plain),
                    (" [Esc] Close "@, PanelStyle::Hint),
                ],
            ),
        ),
        OverlayView::Approval { tool_name, message, .. } => Some(
            (
                " Approval "@,
                seq![
                    (" Approve tool: "@ + tool_name + "? "@, PanelStyle::Question),
                    (message, PanelStyle::Plain),
                    (" [Y] Approve  [N] Deny  [Esc] Cancel "@, PanelStyle::Hint),
                ],
            ),
        ),
        OverlayView::FilePicker => Some(
            (" File "@, seq![("File picker (placeholder)"@, PanelStyle::Plain)]),
        ),
    }
}

fn panel_line(text: String, style: PanelStyle) -> (l: PanelLine)
    ensures
        l.text@ == text@,
        l.style == style,
{
    PanelLine { text, style }
}

/// The panel an overlay shows, if one is shown.
pub fn overlay_panel(overlay: &Overlay, theme: Theme, model: &str, mode: ApprovalMode) -> (p: Option<
    OverlayPanel,
>)
    ensures
        match p {
            Some(panel) => spec_overlay_panel(overlay@, theme, model@, mode) == Some(panel_view(panel)),
            None => spec_overlay_panel(overlay@, theme, model@, mode).is_none(),
        },
{
    match overlay {
        Overlay::Hidden => None,
        Overlay::ThemePicker { selected } => {
            let mut lines: Vec<PanelLine> = Vec::new();
            lines.push(
                panel_line(
                    " Theme (\u{2191}/\u{2193} select, Enter apply, Esc close) ".to_string(),
                    PanelStyle::Heading,
                ),
            );
            let all = themes();
            let mut i: usize = 0;
            while i < all.len()
                invariant
                    all@ == spec_themes(),
                    i <= all@.len(),
                    lines@.len() == i + 1,
                    lines@[0].text@ == " Theme (\u{2191}/\u{2193} select, Enter apply, Esc close) "@,
                    lines@[0].style == PanelStyle::Heading,
                    forall|k: int|
                        0 <= k < i ==> ((#[trigger] lines@[k + 1]).text@, lines@[k + 1].style)
                            == picker_entry(k, *selected),
                decreases all.len() - i,
            {
                let label = theme_label(all[i]);
                let line = if i == *selected {
                    panel_line(concat_str("\u{25b8} ", label), PanelStyle::Selected)
                } else {
                    panel_line(concat_str("  ", label), PanelStyle::Plain)
                };
                lines.push(line);
                i += 1;
            }
            assert((lines@[0int + 1].text@, lines@[0int + 1].style) == picker_entry(0, *selected));
            assert((lines@[1int + 1].text@, lines@[1int + 1].style) == picker_entry(1, *selected));
            assert((lines@[2int + 1].text@, lines@[2int + 1].style) == picker_entry(2, *selected));
            let p = OverlayPanel { title: " Theme ".to_string(), lines };
            assert(panel_view(p).1 =~= spec_overlay_panel(overlay@, theme, model@, mode).unwrap().1);
            Some(p)
        },
        Overlay::Settings => {
            let mut lines: Vec<PanelLine> = Vec::new();
            lines.push(panel_line(" Settings (read from config) ".to_string(), PanelStyle::Heading));
            lines.push(panel_line(String::new(), PanelStyle::Plain));
            lines.push(panel_line(concat_str(" Model:   ", model), PanelStyle::Plain));
            let mut theme_line = concat_str(" Theme:   ", theme_label(theme));
            theme_line.append(" (Ctrl+T to change)");
            lines.push(panel_line(theme_line, PanelStyle::Plain));
            let mut mode_line = concat_str(" Approval: ", approval_label(mode));
            mode_line.append(" ");
            lines.push(panel_line(mode_line, PanelStyle::Plain));
            lines.push(panel_line(" [Esc] Close ".to_string(), PanelStyle::Hint));
            let p = OverlayPanel { title: " Settings ".to_string(), lines };
            assert(panel_view(p).1 =~= spec_overlay_panel(overlay@, theme, model@, mode).unwrap().1);
            Some(p)
        },
        Overlay::Approval { tool_name, message, .. } => {
            let mut lines: Vec<PanelLine> = Vec::new();
            let mut head = concat_str(" Approve tool: ", tool_name.as_str());
            head.append("? ");
            lines.push(panel_line(head, PanelStyle::Question));
            lines.push(panel_line(message.clone(), PanelStyle::Plain));
            lines.push(panel_line(" [Y] Approve  [N] Deny  [Esc] Cancel ".to_string(), PanelStyle::Hint));
            let p = OverlayPanel { title: " Approval ".to_string(), lines };
            assert(panel_view(p).1 =~= spec_overlay_panel(overlay@, theme, model@, mode).unwrap().1);
            Some(p)
        },
        Overlay::FilePicker => {
            let mut lines: Vec<PanelLine> = Vec::new();
            lines.push(panel_line("File picker (placeholder)".to_string(), PanelStyle::Plain));
            let p = OverlayPanel { title: " File ".to_string(), lines };
            assert(panel_view(p).1 =~= spec_overlay_panel(overlay@, theme, model@, mode).unwrap().1);
            Some(p)
        },
    }
}

/// The span style of a styled record line.
pub open spec fn line_span_style(s: LineStyle) -> SpanStyle {
    let none = SpanStyle { fg: None, bold: false, italic: false, underlined: false, dim: false };
    match s {
        LineStyle::Plain => none,
        LineStyle::Header => SpanStyle { fg: Some(MdColor::Cyan), dim: true, ..none },
        LineStyle::ToolCall => SpanStyle { fg: Some(MdColor::Magenta), dim: true, ..none },
        LineStyle::ToolOk => SpanStyle { fg: Some(MdColor::Green), dim: true, ..none },
        LineStyle::ToolError => SpanStyle { fg: Some(MdColor::Red), ..none },
        LineStyle::Thinking => SpanStyle { fg: Some(MdColor::Cyan), dim: true, ..none },
        LineStyle::ActionRequired => SpanStyle { fg: Some(MdColor::Yellow), ..none },
        LineStyle::DiffHeader => SpanStyle { fg: Some(MdColor::Magenta), dim: true, ..none },
        LineStyle::DiffContext => SpanStyle { fg: Some(MdColor::DarkGray), ..none },
        LineStyle::DiffAdd => SpanStyle { fg: Some(MdColor::Green), ..none },
        LineStyle::DiffRemove => SpanStyle { fg: Some(MdColor::Red), ..none },
    }
}

/// The lines a record line becomes: a styled line of one span, or the markdown rendered
/// for the theme.
pub open spec fn expand_record_line(l: RecordLineView, theme: Theme) -> Seq<MdBlockView> {
    match l {
        RecordLineView::Styled { text, style } => seq![
            MdBlockView::Line { spans: seq![(text, line_span_style(style))], alignment: Alignment::Left },
        ],
        RecordLineView::Markdown { text } => spec_render_code(spec_markdown_blocks(markdown_events(text)), theme),
    }
}

/// The lines the record lines become, in order.
pub open spec fn expand_record_lines(ls: Seq<RecordLineView>, theme: Theme) -> Seq<MdBlockView>
    decreases ls.len(),
{
    if ls.len() == 0 {
        Seq::empty()
    } else {
        expand_record_lines(ls.drop_last(), theme) + expand_record_line(ls.last(), theme)
    }
}

/// The styled lines a history record shows under a theme.
pub open spec fn spec_record_to_text(r: RecordView, theme: Theme) -> Seq<MdBlockView> {
    expand_record_lines(spec_record_lines(r), theme)
}

/// The lines of all records, each followed by an empty line.
pub open spec fn spec_flat_lines(rs: Seq<RecordView>, theme: Theme) -> Seq<MdBlockView>
    decreases rs.len(),
{
    if rs.len() == 0 {
        Seq::empty()
    } else {
        spec_flat_lines(rs.drop_last(), theme) + spec_record_to_text(rs.last(), theme).push(MdBlockView::Blank)
    }
}

fn line_style_exec(s: LineStyle) -> (st: SpanStyle)
    ensures
        st == line_span_style(s),
{
    let none = SpanStyle { fg: None, bold: false, italic: false, underlined: false, dim: false };
    match s {
        LineStyle::Plain => none,
        LineStyle::Header => SpanStyle { fg: Some(MdColor::Cyan), dim: true, ..none },
        LineStyle::ToolCall => SpanStyle { fg: Some(MdColor::Magenta), dim: true, ..none },
        LineStyle::ToolOk => SpanStyle { fg: Some(MdColor::Green), dim: true, ..none },
        LineStyle::ToolError => SpanStyle { fg: Some(MdColor::Red), ..none },
        LineStyle::Thinking => SpanStyle { fg: Some(MdColor::Cyan), dim: true, ..none },
        LineStyle::ActionRequired => SpanStyle { fg: Some(MdColor::Yellow), ..none },
        LineStyle::DiffHeader => SpanStyle { fg: Some(MdColor::Magenta), dim: true, ..none },
        LineStyle::DiffContext => SpanStyle { fg: Some(MdColor::DarkGray), ..none },
        LineStyle::DiffAdd => SpanStyle { fg: Some(MdColor::Green), ..none },
        LineStyle::DiffRemove => SpanStyle { fg: Some(MdColor::Red), ..none },
    }
}

/// The styled lines of a history record under a theme: its record lines, with message
/// text rendered as markdown.
pub fn record_to_text(record: &HistoryRecord, theme: Theme) -> (blocks: Vec<MdBlock>)
    ensures
        block_views(blocks@) == spec_record_to_text(record@, theme),
{
    let lines = record_lines(record);
    let ghost lv = record_line_views(lines@);
    let mut out: Vec<MdBlock> = Vec::new();
    let mut i: usize = 0;
    while i < lines.len()
        invariant
            i <= lines@.len(),
            lv == record_line_views(lines@),
            lv == spec_record_lines(record@),
            block_views(out@) == expand_record_lines(lv.take(i as int), theme),
        decreases lines.len() - i,
    {
        assert(lv.take(i + 1).drop_last() =~= lv.take(i as int));
        assert(lv.take(i + 1).last() == lines@[i as int]@);
        let ghost before = block_views(out@);
        match &lines[i] {
            RecordLine::Styled { text, style } => {
                let mut spans: Vec<MdSpan> = Vec::new();
                spans.push(MdSpan { text: text.clone(), style: line_style_exec(*style) });
                assert(crate::content_render::span_views(spans@) =~= seq![(text@, line_span_style(*style))]);
                let b = MdBlock::Line { spans, alignment: Alignment::Left };
                assert(b@ == expand_record_line(lines@[i as int]@, theme)[0]);
                out.push(b);
                assert(block_views(out@) =~= before + expand_record_line(lines@[i as int]@, theme));
            },
            RecordLine::Markdown { text } => {
                let mut md = markdown_to_text(text.as_str(), theme);
                let ghost mv = md@;
                out.append(&mut md);
                assert(block_views(out@) =~= before + block_views(mv));
            },
        }
        i += 1;
    }
    assert(lv.take(lines@.len() as int) =~= lv);
    out
}

/// The styled lines of all records under a theme, each record followed by an empty line.
pub fn build_flat_lines(records: &[HistoryRecord], theme: Theme) -> (blocks: Vec<MdBlock>)
    ensures
        block_views(blocks@) == spec_flat_lines(record_views(records@), theme),
{
    let ghost rv = record_views(records@);
    let mut out: Vec<MdBlock> = Vec::new();
    let mut i: usize = 0;
    while i < records.len()
        invariant
            i <= records@.len(),
            rv == record_views(records@),
            block_views(out@) == spec_flat_lines(rv.take(i as int), theme),
        decreases records.len() - i,
    {
        assert(rv.take(i + 1).drop_last() =~= rv.take(i as int));
        assert(rv.take(i + 1).last() == records@[i as int]@);
        let ghost before = block_views(out@);
        let mut t = record_to_text(&records[i], theme);
        let ghost tv = block_views(t@);
        out.append(&mut t);
        out.push(MdBlock::Blank);
        assert(block_views(out@) =~= before + tv.push(MdBlockView::Blank));
        i += 1;
    }
    assert(rv.take(records@.len() as int) =~= rv);
    out
}

/// The rows of the content area for a state: the rows of its history's lines at the
/// area's inner width (from the cache when it holds them for this history and width).
pub open spec fn all_content_rows(
    cache: Option<(u64, u16, Seq<Seq<CellView>>)>,
    s: TuiView,
    area: Rect,
) -> Seq<Seq<CellView>> {
    rows_after_cache(
        cache,
        spec_flat_lines(s.history, s.theme),
        sub0(area.width as int, 2) as u16,
        spec_history_cache_key(s.history, s.theme),
    )
}

/// The first row shown for a state in an area.
pub open spec fn shown_scroll(cache: Option<(u64, u16, Seq<Seq<CellView>>)>, s: TuiView, area: Rect) -> usize {
    spec_effective_scroll(
        all_content_rows(cache, s, area).len() as usize,
        sub0(area.height as int, 2) as usize,
        s.scroll_offset,
        s.scroll_follows_stream,
        spec_last_is_streaming(s.history),
    )
}

/// The rows of the content area that show in `area`: the window of the history's rows
/// that the scroll position selects (following the bottom while the reply streams); the
/// state keeps that position as its scroll offset. The history's lines are only built
/// when the cache does not hold its rows.
pub fn visible_content_rows(state: &mut TuiState, area: Rect, cache: &mut RowsCache) -> (rows: Vec<Vec<Cell>>)
    ensures
        ({
            let all = all_content_rows(old(cache)@, old(state)@, area);
            let eff = shown_scroll(old(cache)@, old(state)@, area);
            let vh = sub0(area.height as int, 2);
            let len = if vh <= all.len() - eff {
                vh
            } else {
                all.len() - eff
            };
            &&& row_views(rows@) == all.subrange(eff as int, eff + len)
            &&& final(state)@ == (TuiView { scroll_offset: eff, ..old(state)@ })
        }),
{
    let theme = state.theme;
    let inner_width = content_inner_width(area);
    let viewport_height = content_inner_height(area) as usize;
    let (effective, len, mut rows) = {
        let records = state.history.records();
        let key = history_cache_key(records, theme);
        let lines = if inner_width == 0 || cache.holds(key, inner_width) {
            Vec::new()
        } else {
            build_flat_lines(records, theme)
        };
        let rows = compute_content_rows(cache, lines.as_slice(), inner_width, key);
        let streaming = last_is_streaming(records);
        let (effective, len) = visible_window(
            rows.len(),
            viewport_height,
            state.scroll_offset,
            state.scroll_follows_stream,
            streaming,
        );
        (effective, len, rows)
    };
    if effective != state.scroll_offset {
        state.scroll_offset = effective;
    }
    let ghost all = row_views(rows@);
    let mut shown = rows.split_off(effective);
    shown.truncate(len);
    assert(row_views(shown@) =~= all.subrange(effective as int, effective + len));
    shown
}

/// The thinking cell shows what the session says it is doing: after thinking starts and
/// a non-empty message arrives, the last cell of any history shows exactly one line,
/// the hourglass followed by that message; a cell whose message is still empty shows
/// "Thinking...".
pub proof fn lemma_thinking_cell_shows_message(records: Seq<RecordView>, message: Seq<char>)
    ensures
        ({
            let started = spec_apply_event(records, EventView::ThinkingStart);
            let updated = spec_apply_event(started, EventView::ThinkingUpdate { message });
            &&& spec_record_lines(started.last()) == seq![
                RecordLineView::Styled { text: " \u{23f3} Thinking..."@, style: LineStyle::Thinking },
            ]
            &&& message.len() > 0 ==> spec_record_lines(updated.last()) == seq![
                RecordLineView::Styled { text: " \u{23f3} "@ + message, style: LineStyle::Thinking },
            ]
        }),
{
    let started = spec_apply_event(records, EventView::ThinkingStart);
    assert(started.last() matches RecordView::Thinking { message: m, .. } && m.len() == 0);
    reveal_strlit(" \u{23f3} ");
    reveal_strlit("Thinking...");
    reveal_strlit(" \u{23f3} Thinking...");
    assert(" \u{23f3} "@ + "Thinking..."@ =~= " \u{23f3} Thinking..."@);
    let updated = spec_apply_event(started, EventView::ThinkingUpdate { message });
    assert(updated.last() matches RecordView::Thinking { message: m, .. } && m == message);
}

/// A thinking cell with a non-empty message shows exactly one line, the hourglass
/// followed by that message; only a cell whose message is empty shows "Thinking...".
pub proof fn lemma_thinking_record_lines(id: HistoryId, message: Seq<char>)
    ensures
        message.len() > 0 ==> spec_record_lines(RecordView::Thinking { id, message }) == seq![
            RecordLineView::Styled { text: " \u{23f3} "@ + message, style: LineStyle::Thinking },
        ],
        message.len() == 0 ==> spec_record_lines(RecordView::Thinking { id, message }) == seq![
            RecordLineView::Styled { text: " \u{23f3} Thinking..."@, style: LineStyle::Thinking },
        ],
{
    reveal_strlit(" \u{23f3} ");
    reveal_strlit("Thinking...");
    reveal_strlit(" \u{23f3} Thinking...");
    assert(" \u{23f3} "@ + "Thinking..."@ =~= " \u{23f3} Thinking..."@);
}

} // verus!
