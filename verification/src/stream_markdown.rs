//! Streaming markdown output: the commands of the render task, how streamed text is
//! re-cut into whole lines for the line-based renderer, the renderer palette of each
//! theme, and when streaming markdown is used.
use vstd::prelude::*;

use crate::content_render::Theme;
use streamdown_parser::{ParseEvent, Parser};
use crate::text::{chars_of, pieces, split_on, string_from_chars, views};

verus! {

broadcast use vstd::string::group_string_axioms;

/// A command to the markdown render task.
#[derive(Debug)]
pub enum StreamMarkdownCmd {
    Chunk(String),
    Flush,
}

/// Capacity of the channel to the render task: one, so that each chunk is rendered
/// before the next is sent.
pub const STREAM_MARKDOWN_CHANNEL_CAP: usize = 1;

/// Streamed text not yet ended by a line break.
pub struct LineBuffer {
    pending: String,
}

impl View for LineBuffer {
    type V = Seq<char>;

    closed spec fn view(&self) -> Seq<char> {
        self.pending@
    }
}

/// The views of a vector of strings.
pub open spec fn line_views(v: Seq<String>) -> Seq<Seq<char>> {
    v.map_values(|s: String| s@)
}

/// The complete lines in `text`: the pieces before each `\n`.
pub open spec fn complete_lines(text: Seq<char>) -> Seq<Seq<char>> {
    pieces(text, '\n').drop_last()
}

/// What is left after the last `\n` of `text`.
pub open spec fn unfinished_line(text: Seq<char>) -> Seq<char> {
    pieces(text, '\n').last()
}

impl LineBuffer {
    /// An empty buffer.
    pub fn new() -> (b: LineBuffer)
        ensures
            b@ == Seq::<char>::empty(),
    {
        LineBuffer { pending: String::new() }
    }

    /// Adds streamed text; returns the lines it completes, in order, without their
    /// `\n`, and keeps the rest.
    pub fn push_chunk(&mut self, text: &str) -> (lines: Vec<String>)
        ensures
            line_views(lines@) == complete_lines(old(self)@ + text@),
            final(self)@ == unfinished_line(old(self)@ + text@),
    {
        let mut all = chars_of(self.pending.as_str());
        let more = chars_of(text);
        let mut k: usize = 0;
        let ghost start = all@;
        while k < more.len()
            invariant
                k <= more@.len(),
                all@ == start + more@.take(k as int),
            decreases more.len() - k,
        {
            all.push(more[k]);
            k += 1;
            assert(all@ =~= start + more@.take(k as int));
        }
        assert(more@.take(more@.len() as int) =~= more@);
        let ps = split_on(all.as_slice(), '\n');
        assert(views(ps@).len() > 0);
        let n = ps.len() - 1;
        let mut lines: Vec<String> = Vec::new();
        let mut i: usize = 0;
        while i < n
            invariant
                n + 1 == ps@.len(),
                i <= n,
                line_views(lines@) == views(ps@).take(i as int),
            decreases n - i,
        {
            let line = string_from_chars(ps[i].as_slice());
            let ghost prev = lines@;
            lines.push(line);
            assert(line_views(lines@) =~= line_views(prev).push(line@));
            assert(views(ps@).take(i + 1) =~= views(ps@).take(i as int).push(ps@[i as int]@));
            i += 1;
        }
        assert(views(ps@).take(n as int) =~= views(ps@).drop_last());
        self.pending = string_from_chars(ps[n].as_slice());
        lines
    }

    /// Takes out what remains, if anything.
    pub fn flush(&mut self) -> (rest: Option<String>)
        ensures
            old(self)@.len() == 0 ==> rest is None,
            old(self)@.len() > 0 ==> (rest matches Some(r) && r@ == old(self)@),
            final(self)@ == Seq::<char>::empty(),
    {
        if self.pending.as_str().is_empty() {
            None
        } else {
            let mut rest = String::new();
            std::mem::swap(&mut rest, &mut self.pending);
            Some(rest)
        }
    }
}

/// The lines joined, each followed by a line break.
pub open spec fn joined_lines(lines: Seq<Seq<char>>) -> Seq<char>
    decreases lines.len(),
{
    if lines.len() == 0 {
        Seq::empty()
    } else {
        joined_lines(lines.drop_last()) + lines.last().push('\n')
    }
}

/// Re-cutting into lines loses nothing: the complete lines, each with its line break,
/// followed by the unfinished rest, are the text again.
pub proof fn lemma_lines_reassemble(text: Seq<char>)
    ensures
        joined_lines(complete_lines(text)) + unfinished_line(text) == text,
{
    lemma_piece_scan_reassembles(text);
    let scan = crate::text::piece_scan(text, '\n');
    assert(complete_lines(text) =~= scan.0);
    assert(unfinished_line(text) == scan.1);
}

/// The finished pieces of a scan, each with its separator, then the piece in progress,
/// are the text scanned.
proof fn lemma_piece_scan_reassembles(text: Seq<char>)
    ensures
        joined_lines(crate::text::piece_scan(text, '\n').0) + crate::text::piece_scan(text, '\n').1
            == text,
    decreases text.len(),
{
    if text.len() > 0 {
        lemma_piece_scan_reassembles(text.drop_last());
        let prev = crate::text::piece_scan(text.drop_last(), '\n');
        let j = joined_lines(prev.0);
        assert(j + prev.1 == text.drop_last());
        assert(text =~= text.drop_last().push(text.last()));
        if text.last() == '\n' {
            assert(prev.0.push(prev.1).drop_last() =~= prev.0);
            assert(joined_lines(prev.0.push(prev.1)) == j + prev.1.push('\n'));
            assert(j + prev.1.push('\n') =~= (j + prev.1).push('\n'));
            assert(joined_lines(prev.0.push(prev.1)) + Seq::<char>::empty() =~= text);
        } else {
            assert(j + prev.1.push(text.last()) =~= (j + prev.1).push(text.last()));
        }
    }
}

/// The piece in progress of a scan holds no separator.
proof fn lemma_scan_rest_has_no_separator(s: Seq<char>, sep: char)
    ensures
        !crate::text::piece_scan(s, sep).1.contains(sep),
    decreases s.len(),
{
    if s.len() > 0 {
        lemma_scan_rest_has_no_separator(s.drop_last(), sep);
        let prev = crate::text::piece_scan(s.drop_last(), sep);
        if s.last() != sep {
            assert forall|i: int| 0 <= i < prev.1.push(s.last()).len() implies prev.1.push(s.last())[i] != sep by {
                if i < prev.1.len() {
                    assert(prev.1.push(s.last())[i] == prev.1[i]);
                }
            }
        }
    }
}

/// Scanning text without a separator finishes no piece.
proof fn lemma_scan_without_separator(s: Seq<char>, sep: char)
    requires
        !s.contains(sep),
    ensures
        crate::text::piece_scan(s, sep) == (Seq::<Seq<char>>::empty(), s),
    decreases s.len(),
{
    if s.len() > 0 {
        assert(s.drop_last().len() < s.len());
        assert forall|i: int| 0 <= i < s.drop_last().len() implies s.drop_last()[i] != sep by {
            assert(s.drop_last()[i] == s[i]);
        }
        lemma_scan_without_separator(s.drop_last(), sep);
        assert(s[s.len() - 1] != sep);
        assert(s.drop_last().push(s.last()) =~= s);
    }
}

/// Scanning `x + y` is scanning `x`, then scanning its piece in progress followed by `y`.
proof fn lemma_scan_concat(x: Seq<char>, y: Seq<char>, sep: char)
    ensures
        crate::text::piece_scan(x + y, sep) == (
            crate::text::piece_scan(x, sep).0 + crate::text::piece_scan(crate::text::piece_scan(x, sep).1 + y, sep).0,
            crate::text::piece_scan(crate::text::piece_scan(x, sep).1 + y, sep).1,
        ),
    decreases y.len(),
{
    let sx = crate::text::piece_scan(x, sep);
    if y.len() == 0 {
        assert(x + y =~= x);
        assert(sx.1 + y =~= sx.1);
        lemma_scan_rest_has_no_separator(x, sep);
        lemma_scan_without_separator(sx.1, sep);
        assert(sx.0 + Seq::<Seq<char>>::empty() =~= sx.0);
    } else {
        lemma_scan_concat(x, y.drop_last(), sep);
        assert((x + y).drop_last() =~= x + y.drop_last());
        assert((x + y).last() == y.last());
        assert((sx.1 + y).drop_last() =~= sx.1 + y.drop_last());
        assert((sx.1 + y).last() == y.last());
        let p = crate::text::piece_scan(sx.1 + y.drop_last(), sep);
        if y.last() == sep {
            assert((sx.0 + p.0).push(p.1) =~= sx.0 + p.0.push(p.1));
        }
    }
}

/// Cutting streamed text into chunks changes nothing: the lines that pushing `a` and
/// then `b` completes are the lines that pushing `a + b` at once completes, and the
/// same text is left over.
pub proof fn lemma_chunks_are_invisible(pending: Seq<char>, a: Seq<char>, b: Seq<char>)
    ensures
        complete_lines(pending + a) + complete_lines(unfinished_line(pending + a) + b)
            == complete_lines(pending + a + b),
        unfinished_line(unfinished_line(pending + a) + b) == unfinished_line(pending + a + b),
{
    let x = pending + a;
    lemma_scan_concat(x, b, '\n');
    let sx = crate::text::piece_scan(x, '\n');
    let sy = crate::text::piece_scan(sx.1 + b, '\n');
    assert(complete_lines(x) =~= sx.0);
    assert(unfinished_line(x) == sx.1);
    assert(complete_lines(sx.1 + b) =~= sy.0);
    assert(complete_lines(x + b) =~= sx.0 + sy.0);
}

/// The colours of the streaming renderer under a theme, as `#rrggbb` strings.
#[derive(Clone, Debug)]
pub struct Palette {
    pub bright: String,
    pub head: String,
    pub symbol: String,
    pub grey: String,
    pub dark: String,
    pub mid: String,
    pub light: String,
}

/// The palette's colours, in field order.
pub open spec fn palette_view(p: Palette) -> Seq<Seq<char>> {
    seq![p.bright@, p.head@, p.symbol@, p.grey@, p.dark@, p.mid@, p.light@]
}

/// The palette a theme uses; `None` for the dark theme, which keeps the renderer's
/// default style.
pub open spec fn spec_render_palette(theme: Theme) -> Option<Seq<Seq<char>>> {
    match theme {
        Theme::Light => Some(
            seq![
                "#0969da"@,
                "#1f2328"@,
                "#8250df"@,
                "#656d76"@,
                "#f6f8fa"@,
                "#eaeef2"@,
                "#d0d7de"@,
            ],
        ),
        Theme::Dark => None,
        Theme::Ansi => Some(
            seq![
                "#6cb6ff"@,
                "#56d364"@,
                "#d2a8ff"@,
                "#8b949e"@,
                "#0d1117"@,
                "#161b22"@,
                "#21262d"@,
            ],
        ),
    }
}

/// The palette a theme uses (see `spec_render_palette`).
pub fn render_palette(theme: Theme) -> (p: Option<Palette>)
    ensures
        match p {
            Some(pal) => spec_render_palette(theme) == Some(palette_view(pal)),
            None => spec_render_palette(theme).is_none(),
        },
{
    match theme {
        Theme::Light => Some(
            Palette {
                bright: "#0969da".to_string(),
                head: "#1f2328".to_string(),
                symbol: "#8250df".to_string(),
                grey: "#656d76".to_string(),
                dark: "#f6f8fa".to_string(),
                mid: "#eaeef2".to_string(),
                light: "#d0d7de".to_string(),
            },
        ),
        Theme::Dark => None,
        Theme::Ansi => Some(
            Palette {
                bright: "#6cb6ff".to_string(),
                head: "#56d364".to_string(),
                symbol: "#d2a8ff".to_string(),
                grey: "#8b949e".to_string(),
                dark: "#0d1117".to_string(),
                mid: "#161b22".to_string(),
                light: "#21262d".to_string(),
            },
        ),
    }
}

/// The syntax-highlighting theme for code blocks under a theme.
pub fn syntax_theme_name(theme: Theme) -> (name: &'static str)
    ensures
        name@ == crate::content_render::spec_syntect_theme_name(theme),
{
    theme.syntect_theme_name()
}

/// A character in ASCII lowercase.
pub open spec fn ascii_lower(c: char) -> char {
    if 'A' <= c <= 'Z' {
        ((c as u8) + 32) as char
    } else {
        c
    }
}

/// Equal up to ASCII case (`str::eq_ignore_ascii_case`).
pub open spec fn eq_ignore_ascii_case(a: Seq<char>, b: Seq<char>) -> bool {
    a.len() == b.len() && forall|i: int| 0 <= i < a.len() ==> ascii_lower(#[trigger] a[i]) == ascii_lower(b[i])
}

fn lower_char(c: char) -> (r: char)
    ensures
        r == ascii_lower(c),
{
    if 'A' <= c && c <= 'Z' {
        ((c as u8) + 32) as char
    } else {
        c
    }
}

/// Whether two texts are equal up to ASCII case.
fn eq_ignore_case(a: &str, b: &str) -> (r: bool)
    ensures
        r == eq_ignore_ascii_case(a@, b@),
{
    let x = chars_of(a);
    let y = chars_of(b);
    if x.len() != y.len() {
        return false;
    }
    let mut i: usize = 0;
    while i < x.len()
        invariant
            x@ == a@,
            y@ == b@,
            x@.len() == y@.len(),
            i <= x@.len(),
            forall|k: int| 0 <= k < i ==> ascii_lower(#[trigger] x@[k]) == ascii_lower(y@[k]),
        decreases x.len() - i,
    {
        if lower_char(x[i]) != lower_char(y[i]) {
            assert(ascii_lower(x@[i as int]) != ascii_lower(y@[i as int]));
            return false;
        }
        i += 1;
    }
    true
}

/// Streaming markdown is used on a terminal unless the setting is `false` or `0`
/// (any case); an absent setting leaves it on.
pub open spec fn spec_stream_markdown_enabled(is_terminal: bool, setting: Option<Seq<char>>) -> bool {
    is_terminal && match setting {
        Some(v) => !eq_ignore_ascii_case(v, "false"@) && !eq_ignore_ascii_case(v, "0"@),
        None => true,
    }
}

/// Whether streaming markdown is used, given whether standard output is a terminal and
/// the value of the `GOOSE_CLI_STREAM_MARKDOWN` setting, if set.
pub fn stream_markdown_enabled(is_terminal: bool, setting: Option<&str>) -> (b: bool)
    ensures
        b == spec_stream_markdown_enabled(
            is_terminal,
            match setting {
                Some(v) => Some(v@),
                None => None,
            },
        ),
{
    if !is_terminal {
        return false;
    }
    match setting {
        Some(v) => !eq_ignore_case(v, "false") && !eq_ignore_case(v, "0"),
        None => true,
    }
}

#[verifier::external_type_specification]
#[verifier::external_body]
pub struct ExParseEvent(ParseEvent);

#[verifier::external_type_specification]
#[verifier::external_body]
pub struct ExStreamParser(Parser);

/// `streamdown_parser::Parser::new`: a parser that has seen no line. Nothing is stated of
/// the value.
#[verifier::external_body]
fn fresh_parser() -> Parser {
    Parser::new()
}

/// The streaming markdown parser, with the lines it was given so far.
pub struct StreamParser {
    parser: Parser,
    given: Ghost<Seq<Seq<char>>>,
}

impl StreamParser {
    /// The lines the parser was given, in order.
    pub closed spec fn given(&self) -> Seq<Seq<char>> {
        self.given@
    }

    /// A parser that has seen no line.
    pub fn new() -> (p: StreamParser)
        ensures
            p.given() == Seq::<Seq<char>>::empty(),
    {
        StreamParser { parser: fresh_parser(), given: Ghost(Seq::empty()) }
    }
}

/// For each event that the parser gives for `line` after `given`, whether it is the end
/// of a list.
pub uninterp spec fn list_end_flags(given: Seq<Seq<char>>, line: Seq<char>) -> Seq<bool>;

/// `Parser::parse_line` on the next line: its events in order, each with whether it is
/// `ParseEvent::ListEnd`. Which events come is named by their list-end flags.
#[verifier::external_body]
fn parse_stream_line(p: &mut StreamParser, line: &str) -> (evs: Vec<(bool, ParseEvent)>)
    ensures
        final(p).given() == old(p).given().push(line@),
        evs@.map_values(|e: (bool, ParseEvent)| e.0) == list_end_flags(old(p).given(), line@),
{
    let evs = p.parser.parse_line(line);
    p.given = Ghost(p.given@.push(line@));
    evs.into_iter().map(|e| (matches!(e, ParseEvent::ListEnd), e)).collect()
}

/// The events not flagged as list ends, in order.
pub open spec fn unflagged(all: Seq<(bool, ParseEvent)>) -> Seq<ParseEvent>
    decreases all.len(),
{
    if all.len() == 0 {
        Seq::empty()
    } else if all.last().0 {
        unflagged(all.drop_last())
    } else {
        unflagged(all.drop_last()).push(all.last().1)
    }
}

/// How many of the flags are false.
pub open spec fn unflagged_count(flags: Seq<bool>) -> nat
    decreases flags.len(),
{
    if flags.len() == 0 {
        0
    } else if flags.last() {
        unflagged_count(flags.drop_last())
    } else {
        unflagged_count(flags.drop_last()) + 1
    }
}

/// The kept events are as many as the flags that are false.
proof fn lemma_unflagged_len(all: Seq<(bool, ParseEvent)>)
    ensures
        unflagged(all).len() == unflagged_count(all.map_values(|e: (bool, ParseEvent)| e.0)),
    decreases all.len(),
{
    if all.len() > 0 {
        lemma_unflagged_len(all.drop_last());
        assert(all.drop_last().map_values(|e: (bool, ParseEvent)| e.0) =~= all.map_values(
            |e: (bool, ParseEvent)| e.0,
        ).drop_last());
    }
}

/// The events to render for the next streamed line: the parser's events for it, in
/// order, without the list ends, so that the renderer keeps its list numbering across
/// nested content and blank lines.
pub fn line_events(p: &mut StreamParser, line: &str) -> (evs: Vec<ParseEvent>)
    ensures
        final(p).given() == old(p).given().push(line@),
        exists|all: Seq<(bool, ParseEvent)>|
            #![trigger unflagged(all)]
            all.map_values(|e: (bool, ParseEvent)| e.0) == list_end_flags(old(p).given(), line@)
                && evs@ == unflagged(all),
        evs@.len() == unflagged_count(list_end_flags(old(p).given(), line@)),
{
    let mut parsed = parse_stream_line(p, line);
    let ghost all = parsed@;
    let n = parsed.len();
    let mut out: Vec<ParseEvent> = Vec::new();
    let mut k: usize = 0;
    while parsed.len() > 0
        invariant
            all.len() == n,
            k <= all.len(),
            parsed@ == all.skip(k as int),
            out@ == unflagged(all.take(k as int)),
        decreases parsed.len(),
    {
        let (end, ev) = parsed.remove(0);
        assert(all.skip(k as int)[0] == all[k as int]);
        assert(all.skip(k as int).remove(0) =~= all.skip(k + 1));
        assert(all.take(k + 1).drop_last() =~= all.take(k as int));
        assert(all.take(k + 1).last() == all[k as int]);
        if !end {
            out.push(ev);
        }
        k += 1;
    }
    assert(all.take(k as int) =~= all);
    proof {
        lemma_unflagged_len(all);
    }
    out
}

} // verus!
