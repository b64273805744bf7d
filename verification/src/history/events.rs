//! History domain events, and the unified-diff parser that turns tool output into
//! diff cells.
use vstd::prelude::*;

use crate::text::{
    chars1, chars2, chars3, chars4,
    chars_of, has_prefix, has_suffix, lines_of, parse_u32, pieces, spec_parse_u32,
    split_on, starts_with, ends_with, string_from_chars, sub_chars, text_lines, trim_end,
    trim_end_len, views, words, words_of,
};

verus! {

/// One line of a diff hunk.
#[derive(Clone, Debug)]
pub enum DiffLine {
    Context(String),
    Add(String),
    Remove(String),
}

/// The value a `DiffLine` stands for.
pub enum DiffLineView {
    Context(Seq<char>),
    Add(Seq<char>),
    Remove(Seq<char>),
}

impl View for DiffLine {
    type V = DiffLineView;

    open spec fn view(&self) -> DiffLineView {
        match self {
            DiffLine::Context(s) => DiffLineView::Context(s@),
            DiffLine::Add(s) => DiffLineView::Add(s@),
            DiffLine::Remove(s) => DiffLineView::Remove(s@),
        }
    }
}

/// One hunk of a unified diff: its header ranges and its lines.
#[derive(Clone, Debug)]
pub struct DiffHunk {
    pub old_start: u32,
    pub old_count: u32,
    pub new_start: u32,
    pub new_count: u32,
    pub lines: Vec<DiffLine>,
}

/// The value a `DiffHunk` stands for.
pub struct DiffHunkView {
    pub old_start: u32,
    pub old_count: u32,
    pub new_start: u32,
    pub new_count: u32,
    pub lines: Seq<DiffLineView>,
}

/// The views of a sequence of diff lines.
pub open spec fn line_views(lines: Seq<DiffLine>) -> Seq<DiffLineView> {
    lines.map_values(|l: DiffLine| l@)
}

/// The views of a sequence of hunks.
pub open spec fn hunk_views(hunks: Seq<DiffHunk>) -> Seq<DiffHunkView> {
    hunks.map_values(|h: DiffHunk| h@)
}

impl View for DiffHunk {
    type V = DiffHunkView;

    open spec fn view(&self) -> DiffHunkView {
        DiffHunkView {
            old_start: self.old_start,
            old_count: self.old_count,
            new_start: self.new_start,
            new_count: self.new_count,
            lines: line_views(self.lines@),
        }
    }
}

/// Domain events emitted by the session/output layer and applied to `HistoryState`.
#[derive(Clone, Debug)]
pub enum HistoryEvent {
    UserMessage { text: String },
    AssistantStart,
    StreamChunk { text: String },
    StreamEnd,
    ToolRequest { id: String, tool_name: String, args_preview: String },
    ToolResponse { id: String, tool_name: String, result_preview: String, is_error: bool },
    ActionRequired { id: String, message: String },
    ThinkingStart,
    ThinkingUpdate { message: String },
    ThinkingEnd,
    DiffShown { path: String, hunks: Vec<DiffHunk> },
}

/// The value a `HistoryEvent` stands for.
pub enum EventView {
    UserMessage { text: Seq<char> },
    AssistantStart,
    StreamChunk { text: Seq<char> },
    StreamEnd,
    ToolRequest { id: Seq<char>, tool_name: Seq<char>, args_preview: Seq<char> },
    ToolResponse {
        id: Seq<char>,
        tool_name: Seq<char>,
        result_preview: Seq<char>,
        is_error: bool,
    },
    ActionRequired { id: Seq<char>, message: Seq<char> },
    ThinkingStart,
    ThinkingUpdate { message: Seq<char> },
    ThinkingEnd,
    DiffShown { path: Seq<char>, hunks: Seq<DiffHunkView> },
}

impl View for HistoryEvent {
    type V = EventView;

    open spec fn view(&self) -> EventView {
        match self {
            HistoryEvent::UserMessage { text } => EventView::UserMessage { text: text@ },
            HistoryEvent::AssistantStart => EventView::AssistantStart,
            HistoryEvent::StreamChunk { text } => EventView::StreamChunk { text: text@ },
            HistoryEvent::StreamEnd => EventView::StreamEnd,
            HistoryEvent::ToolRequest { id, tool_name, args_preview } => EventView::ToolRequest {
                id: id@,
                tool_name: tool_name@,
                args_preview: args_preview@,
            },
            HistoryEvent::ToolResponse { id, tool_name, result_preview, is_error } =>
                EventView::ToolResponse {
                    id: id@,
                    tool_name: tool_name@,
                    result_preview: result_preview@,
                    is_error: *is_error,
                },
            HistoryEvent::ActionRequired { id, message } => EventView::ActionRequired {
                id: id@,
                message: message@,
            },
            HistoryEvent::ThinkingStart => EventView::ThinkingStart,
            HistoryEvent::ThinkingUpdate { message } => EventView::ThinkingUpdate {
                message: message@,
            },
            HistoryEvent::ThinkingEnd => EventView::ThinkingEnd,
            HistoryEvent::DiffShown { path, hunks } => EventView::DiffShown {
                path: path@,
                hunks: hunk_views(hunks@),
            },
        }
    }
}

/// The state of the diff parser between two lines.
pub struct DiffScan {
    pub path: Seq<char>,
    pub hunks: Seq<DiffHunkView>,
    pub in_hunk: bool,
    pub lines: Seq<DiffLineView>,
    pub old_start: u32,
    pub old_count: u32,
    pub new_start: u32,
    pub new_count: u32,
}

/// The parser's state before the first line.
pub open spec fn scan_start() -> DiffScan {
    DiffScan {
        path: Seq::empty(),
        hunks: Seq::empty(),
        in_hunk: false,
        lines: Seq::empty(),
        old_start: 0,
        old_count: 0,
        new_start: 0,
        new_count: 0,
    }
}

/// The hunk made of the current header ranges and lines.
pub open spec fn current_hunk(st: DiffScan) -> DiffHunkView {
    DiffHunkView {
        old_start: st.old_start,
        old_count: st.old_count,
        new_start: st.new_start,
        new_count: st.new_count,
        lines: st.lines,
    }
}

/// The hunks with the current one closed, when a hunk with lines is open.
pub open spec fn closed_hunks(st: DiffScan) -> Seq<DiffHunkView> {
    if st.in_hunk && st.lines.len() > 0 {
        st.hunks.push(current_hunk(st))
    } else {
        st.hunks
    }
}

/// The path named by a `--- ` line, without an `a/` prefix.
pub open spec fn minus_path(line: Seq<char>) -> Seq<char> {
    let p = line.skip(4);
    if has_prefix(p, seq!['a', '/']) {
        p.skip(2)
    } else {
        p
    }
}

/// The path named by a `+++ ` line, without a `b/` prefix.
pub open spec fn plus_path(line: Seq<char>) -> Seq<char> {
    let p = line.skip(4);
    if has_prefix(p, seq!['b', '/']) {
        p.skip(2)
    } else {
        p
    }
}

/// The numbers among the pieces, those that do not parse left out.
pub open spec fn parsed_numbers(ps: Seq<Seq<char>>) -> Seq<u32>
    decreases ps.len(),
{
    if ps.len() == 0 {
        Seq::empty()
    } else {
        let prev = parsed_numbers(ps.drop_last());
        match spec_parse_u32(ps.last()) {
            Some(n) => prev.push(n),
            None => prev,
        }
    }
}

/// The text of a `@@ ` header after the marker, without trailing white space and
/// without a closing ` @@`.
pub open spec fn header_body(line: Seq<char>) -> Seq<char> {
    let t = trim_end(line.skip(3));
    if has_suffix(t, seq![' ', '@', '@']) {
        t.take(t.len() - 3)
    } else {
        t
    }
}

/// The numbers of the `-a,b +c,d` ranges of a hunk header, when the header has them.
pub open spec fn header_ranges(line: Seq<char>) -> Option<(Seq<u32>, Seq<u32>)> {
    let parts = words(header_body(line));
    if parts.len() >= 2 && has_prefix(parts[0], seq!['-']) && has_prefix(parts[1], seq!['+']) {
        Some(
            (
                parsed_numbers(pieces(parts[0].drop_first(), ',')),
                parsed_numbers(pieces(parts[1].drop_first(), ',')),
            ),
        )
    } else {
        None
    }
}

/// The first number, or `dflt` when there is none.
pub open spec fn first_or(ns: Seq<u32>, dflt: u32) -> u32 {
    if ns.len() > 0 {
        ns[0]
    } else {
        dflt
    }
}

/// The second number, or `dflt` when there is none.
pub open spec fn second_or(ns: Seq<u32>, dflt: u32) -> u32 {
    if ns.len() > 1 {
        ns[1]
    } else {
        dflt
    }
}

/// A line inside a hunk: an addition, a removal or context.
pub open spec fn classify_line(line: Seq<char>) -> DiffLineView {
    if has_prefix(line, seq!['+']) && !has_prefix(line, seq!['+', '+', '+']) {
        DiffLineView::Add(line.drop_first())
    } else if has_prefix(line, seq!['-']) && !has_prefix(line, seq!['-', '-', '-']) {
        DiffLineView::Remove(line.drop_first())
    } else {
        DiffLineView::Context(line)
    }
}

/// The parser's state after one more line.
pub open spec fn scan_step(st: DiffScan, line: Seq<char>) -> DiffScan {
    if has_prefix(line, seq!['-', '-', '-', ' ']) {
        DiffScan { path: minus_path(line), ..st }
    } else if has_prefix(line, seq!['+', '+', '+', ' ']) {
        if st.path.len() == 0 {
            DiffScan { path: plus_path(line), ..st }
        } else {
            st
        }
    } else if has_prefix(line, seq!['@', '@', ' ']) {
        let hunks = closed_hunks(st);
        match header_ranges(line) {
            Some((a, b)) => DiffScan {
                path: st.path,
                hunks,
                in_hunk: true,
                lines: Seq::empty(),
                old_start: first_or(a, 0),
                old_count: second_or(a, 1),
                new_start: first_or(b, 0),
                new_count: second_or(b, 1),
            },
            None => DiffScan { hunks, in_hunk: true, lines: Seq::empty(), ..st },
        }
    } else if st.in_hunk {
        DiffScan { lines: st.lines.push(classify_line(line)), ..st }
    } else {
        st
    }
}

/// The parser's state after all the lines.
pub open spec fn scan_lines(lines: Seq<Seq<char>>) -> DiffScan
    decreases lines.len(),
{
    if lines.len() == 0 {
        scan_start()
    } else {
        scan_step(scan_lines(lines.drop_last()), lines.last())
    }
}

/// What the parser makes of a finished scan: the path and the hunks, when there are both.
pub open spec fn scan_result(st: DiffScan) -> Option<(Seq<char>, Seq<DiffHunkView>)> {
    let hunks = closed_hunks(st);
    if st.path.len() == 0 || hunks.len() == 0 {
        None
    } else {
        Some((st.path, hunks))
    }
}

/// The path and hunks that a unified diff in `text` describes, if it names a path and
/// holds at least one hunk with lines.
pub open spec fn spec_parse_unified_diff(text: Seq<char>) -> Option<(Seq<char>, Seq<DiffHunkView>)> {
    scan_result(scan_lines(text_lines(text)))
}


/// The parser's working state.
struct DiffScanner {
    path: Vec<char>,
    hunks: Vec<DiffHunk>,
    in_hunk: bool,
    lines: Vec<DiffLine>,
    old_start: u32,
    old_count: u32,
    new_start: u32,
    new_count: u32,
}

impl View for DiffScanner {
    type V = DiffScan;

    closed spec fn view(&self) -> DiffScan {
        DiffScan {
            path: self.path@,
            hunks: hunk_views(self.hunks@),
            in_hunk: self.in_hunk,
            lines: line_views(self.lines@),
            old_start: self.old_start,
            old_count: self.old_count,
            new_start: self.new_start,
            new_count: self.new_count,
        }
    }
}

/// The diff line that a line inside a hunk stands for.
fn classify(line: &[char]) -> (d: DiffLine)
    ensures
        d@ == classify_line(line@),
{
    if starts_with(line, chars1('+').as_slice()) && !starts_with(line, chars3('+', '+', '+').as_slice()) {
        let rest = sub_chars(line, 1, line.len());
        assert(rest@ =~= line@.drop_first());
        DiffLine::Add(string_from_chars(rest.as_slice()))
    } else if starts_with(line, chars1('-').as_slice()) && !starts_with(line, chars3('-', '-', '-').as_slice()) {
        let rest = sub_chars(line, 1, line.len());
        assert(rest@ =~= line@.drop_first());
        DiffLine::Remove(string_from_chars(rest.as_slice()))
    } else {
        DiffLine::Context(string_from_chars(line))
    }
}

/// `line[4..]`, without the two-character prefix `a b` when it starts with it.
fn path_after_marker(line: &[char], a: char, b: char) -> (p: Vec<char>)
    requires
        line@.len() >= 4,
    ensures
        p@ == (if has_prefix(line@.skip(4), seq![a, b]) {
            line@.skip(4).skip(2)
        } else {
            line@.skip(4)
        }),
{
    let rest = sub_chars(line, 4, line.len());
    assert(rest@ =~= line@.skip(4));
    if starts_with(rest.as_slice(), chars2(a, b).as_slice()) {
        let r = sub_chars(rest.as_slice(), 2, rest.len());
        assert(r@ =~= line@.skip(4).skip(2));
        r
    } else {
        rest
    }
}

/// The numbers among the pieces (see `parsed_numbers`).
fn numbers_of(ps: &Vec<Vec<char>>) -> (ns: Vec<u32>)
    ensures
        ns@ == parsed_numbers(views(ps@)),
{
    let mut ns: Vec<u32> = Vec::new();
    let mut i: usize = 0;
    while i < ps.len()
        invariant
            i <= ps@.len(),
            ns@ == parsed_numbers(views(ps@).take(i as int)),
        decreases ps.len() - i,
    {
        assert(views(ps@).take(i + 1).drop_last() =~= views(ps@).take(i as int));
        assert(views(ps@).take(i + 1).last() == ps@[i as int]@);
        match parse_u32(ps[i].as_slice()) {
            Some(n) => ns.push(n),
            None => {},
        }
        i += 1;
    }
    assert(views(ps@).take(ps@.len() as int) =~= views(ps@));
    ns
}

/// The ranges of a hunk header (see `header_ranges`).
fn parse_header_ranges(line: &[char]) -> (r: Option<(Vec<u32>, Vec<u32>)>)
    requires
        line@.len() >= 3,
    ensures
        match r {
            Some((a, b)) => header_ranges(line@) == Some((a@, b@)),
            None => header_ranges(line@).is_none(),
        },
{
    let rest = sub_chars(line, 3, line.len());
    assert(rest@ =~= line@.skip(3));
    let n = trim_end_len(rest.as_slice());
    let trimmed = sub_chars(rest.as_slice(), 0, n);
    assert(trimmed@ =~= rest@.take(n as int));
    let body = if ends_with(trimmed.as_slice(), chars3(' ', '@', '@').as_slice()) {
        sub_chars(trimmed.as_slice(), 0, trimmed.len() - 3)
    } else {
        trimmed
    };
    assert(body@ =~= header_body(line@));
    let parts = words_of(body.as_slice());
    if parts.len() >= 2 && starts_with(parts[0].as_slice(), chars1('-').as_slice()) && starts_with(
        parts[1].as_slice(),
        chars1('+').as_slice(),
    ) {
        assert(views(parts@)[0] == parts@[0]@);
        assert(views(parts@)[1] == parts@[1]@);
        let a_text = sub_chars(parts[0].as_slice(), 1, parts[0].len());
        let b_text = sub_chars(parts[1].as_slice(), 1, parts[1].len());
        assert(a_text@ =~= parts@[0]@.drop_first());
        assert(b_text@ =~= parts@[1]@.drop_first());
        let a_pieces = split_on(a_text.as_slice(), ',');
        let b_pieces = split_on(b_text.as_slice(), ',');
        let a = numbers_of(&a_pieces);
        let b = numbers_of(&b_pieces);
        assert(words(header_body(line@)) == views(parts@));
        assert(has_prefix(views(parts@)[0], seq!['-']));
        assert(has_prefix(views(parts@)[1], seq!['+']));
        assert(views(a_pieces@) == pieces(views(parts@)[0].drop_first(), ','));
        assert(views(b_pieces@) == pieces(views(parts@)[1].drop_first(), ','));
        Some((a, b))
    } else {
        proof {
            if parts@.len() >= 2 {
                assert(views(parts@)[0] == parts@[0]@);
                assert(views(parts@)[1] == parts@[1]@);
            }
        }
        None
    }
}

impl DiffScanner {
    fn new() -> (s: Self)
        ensures
            s@ == scan_start(),
    {
        let s = DiffScanner {
            path: Vec::new(),
            hunks: Vec::new(),
            in_hunk: false,
            lines: Vec::new(),
            old_start: 0,
            old_count: 0,
            new_start: 0,
            new_count: 0,
        };
        assert(s@.hunks =~= Seq::empty());
        assert(s@.lines =~= Seq::empty());
        s
    }

    /// Closes the open hunk when it has lines; the line buffer is left empty.
    fn close_hunk(&mut self)
        ensures
            final(self)@ == (DiffScan {
                hunks: closed_hunks(old(self)@),
                lines: if old(self)@.in_hunk && old(self)@.lines.len() > 0 {
                    Seq::empty()
                } else {
                    old(self)@.lines
                },
                ..old(self)@
            }),
    {
        if self.in_hunk && self.lines.len() > 0 {
            let mut taken: Vec<DiffLine> = Vec::new();
            std::mem::swap(&mut taken, &mut self.lines);
            let hunk = DiffHunk {
                old_start: self.old_start,
                old_count: self.old_count,
                new_start: self.new_start,
                new_count: self.new_count,
                lines: taken,
            };
            self.hunks.push(hunk);
            assert(hunk_views(self.hunks@) =~= closed_hunks(old(self)@));
            assert(line_views(self.lines@) =~= Seq::empty());
        }
    }

    /// Reads one more line.
    fn step(&mut self, line: &[char])
        ensures
            final(self)@ == scan_step(old(self)@, line@),
    {
        if starts_with(line, chars4('-', '-', '-', ' ').as_slice()) {
            self.path = path_after_marker(line, 'a', '/');
        } else if starts_with(line, chars4('+', '+', '+', ' ').as_slice()) {
            if self.path.len() == 0 {
                self.path = path_after_marker(line, 'b', '/');
            }
        } else if starts_with(line, chars3('@', '@', ' ').as_slice()) {
            self.close_hunk();
            self.in_hunk = true;
            self.lines = Vec::new();
            match parse_header_ranges(line) {
                Some((a, b)) => {
                    self.old_start = if a.len() > 0 { a[0] } else { 0 };
                    self.old_count = if a.len() > 1 { a[1] } else { 1 };
                    self.new_start = if b.len() > 0 { b[0] } else { 0 };
                    self.new_count = if b.len() > 1 { b[1] } else { 1 };
                },
                None => {},
            }
            assert(line_views(self.lines@) =~= Seq::empty());
        } else if self.in_hunk {
            let d = classify(line);
            self.lines.push(d);
            assert(line_views(self.lines@) =~= old(self)@.lines.push(classify_line(line@)));
        }
    }
}

/// Minimal unified-diff parser: the path and hunks of the diff in `text`, if it
/// names a path and holds a hunk with lines.
pub fn parse_unified_diff(text: &str) -> (r: Option<(String, Vec<DiffHunk>)>)
    ensures
        match r {
            Some((path, hunks)) => spec_parse_unified_diff(text@) == Some(
                (path@, hunk_views(hunks@)),
            ),
            None => spec_parse_unified_diff(text@).is_none(),
        },
{
    let chars = chars_of(text);
    let lines = lines_of(chars.as_slice());
    let mut scanner = DiffScanner::new();
    let mut i: usize = 0;
    while i < lines.len()
        invariant
            i <= lines@.len(),
            views(lines@) == text_lines(text@),
            scanner@ == scan_lines(views(lines@).take(i as int)),
        decreases lines.len() - i,
    {
        assert(views(lines@).take(i + 1).drop_last() =~= views(lines@).take(i as int));
        assert(views(lines@).take(i + 1).last() == lines@[i as int]@);
        scanner.step(lines[i].as_slice());
        i += 1;
    }
    assert(views(lines@).take(lines@.len() as int) =~= views(lines@));
    scanner.close_hunk();
    if scanner.path.len() == 0 || scanner.hunks.len() == 0 {
        None
    } else {
        Some((string_from_chars(scanner.path.as_slice()), scanner.hunks))
    }
}

} // verus!
