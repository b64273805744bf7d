//! Content layout: word-wrapping lines at the content width, and placing the grapheme
//! clusters of a line into a row of cells (alignment-aware). Display widths and
//! grapheme clusters come from the `unicode-width` and `unicode-segmentation` crates.
use vstd::prelude::*;

use crate::content_render::{block_views, plain_style, span_views, MdBlock, MdBlockView, MdSpan, SpanStyle};
use crate::text::{chars_of, string_from_chars, views, word_scan, words, words_of};

verus! {

broadcast use vstd::string::group_string_axioms;

/// The display width in terminal columns that `unicode_width` gives a string.
pub uninterp spec fn display_width(s: Seq<char>) -> usize;

/// `UnicodeWidthStr::width`: the string's displayed width in columns (ambiguous-width
/// characters counted as one column). The value is named, not described.
#[verifier::external_body]
fn str_width(s: &str) -> (w: usize)
    ensures
        w == display_width(s@),
{
    unicode_width::UnicodeWidthStr::width(s)
}

/// The extended grapheme clusters of a string, as `unicode_segmentation` splits it.
pub uninterp spec fn grapheme_clusters(s: Seq<char>) -> Seq<Seq<char>>;

/// `UnicodeSegmentation::graphemes(s, true)`: the extended grapheme clusters of `s`,
/// in order. The split is named, not described.
#[verifier::external_body]
fn graphemes_of(s: &str) -> (gs: Vec<String>)
    ensures
        gs@.map_values(|g: String| g@) == grapheme_clusters(s@),
{
    let mut gs = Vec::new();
    for g in unicode_segmentation::UnicodeSegmentation::graphemes(s, true) {
        gs.push(g.to_string());
    }
    gs
}

/// The width of a string of characters.
fn chars_width(s: &[char]) -> (w: usize)
    ensures
        w == display_width(s@),
{
    let t = string_from_chars(s);
    str_width(t.as_str())
}

/// The total display width of the pieces.
pub open spec fn total_width(pieces: Seq<Seq<char>>) -> int
    decreases pieces.len(),
{
    if pieces.len() == 0 {
        0
    } else {
        total_width(pieces.drop_last()) + display_width(pieces.last())
    }
}

/// The pieces joined together.
pub open spec fn joined(pieces: Seq<Seq<char>>) -> Seq<char>
    decreases pieces.len(),
{
    if pieces.len() == 0 {
        Seq::empty()
    } else {
        joined(pieces.drop_last()) + pieces.last()
    }
}

/// The longest prefix of the clusters, joined, whose width stays within `max`.
pub open spec fn fit_clusters(gs: Seq<Seq<char>>, max: int) -> Seq<char>
    decreases gs.len(),
{
    if gs.len() == 0 || display_width(gs[0]) > max {
        Seq::empty()
    } else {
        gs[0] + fit_clusters(gs.drop_first(), max - display_width(gs[0]))
    }
}

/// The state of word wrapping: lines done, the line being filled, and its width.
pub struct WrapState {
    pub out: Seq<Seq<char>>,
    pub current: Seq<char>,
    pub width: int,
}

/// Wrapping after one more word: it joins the current line (after a space) when it
/// fits; else the current line is finished and the word starts the next one, cut to
/// the width (and finished at once) when it alone is too wide.
pub open spec fn wrap_step(st: WrapState, word: Seq<char>, max: int) -> WrapState {
    let ww = display_width(word);
    let sw = if st.current.len() > 0 {
        1int
    } else {
        0int
    };
    if st.width + sw + ww <= max {
        WrapState {
            out: st.out,
            current: if sw == 1 {
                st.current.push(' ') + word
            } else {
                st.current + word
            },
            width: st.width + sw + ww,
        }
    } else {
        let out = if st.current.len() > 0 {
            st.out.push(st.current)
        } else {
            st.out
        };
        if ww > max {
            WrapState {
                out: out.push(fit_clusters(grapheme_clusters(word), max)),
                current: Seq::empty(),
                width: 0,
            }
        } else {
            WrapState { out, current: word, width: ww as int }
        }
    }
}

/// Wrapping after all the words.
pub open spec fn wrap_words(ws: Seq<Seq<char>>, max: int) -> WrapState
    decreases ws.len(),
{
    if ws.len() == 0 {
        WrapState { out: Seq::empty(), current: Seq::empty(), width: 0 }
    } else {
        wrap_step(wrap_words(ws.drop_last(), max), ws.last(), max)
    }
}

/// The lines that the words of `text` wrap into at width `max`: at least one line.
pub open spec fn wrapped_text(text: Seq<char>, max: int) -> Seq<Seq<char>> {
    let st = wrap_words(words(text), max);
    let out = if st.current.len() > 0 {
        st.out.push(st.current)
    } else {
        st.out
    };
    if out.len() == 0 {
        seq![Seq::empty()]
    } else {
        out
    }
}

/// How a line is wrapped at a width.
#[derive(Clone, Debug)]
pub enum Wrapped {
    /// No width: the line shows nothing.
    NoRoom,
    /// The line fits and stays as it is.
    Fits,
    /// The line's text, re-flowed into these lines.
    Lines(Vec<String>),
}

/// The value a `Wrapped` stands for.
pub enum WrappedView {
    NoRoom,
    Fits,
    Lines(Seq<Seq<char>>),
}

/// The views of a vector of strings.
pub open spec fn string_views(v: Seq<String>) -> Seq<Seq<char>> {
    v.map_values(|s: String| s@)
}

impl View for Wrapped {
    type V = WrappedView;

    open spec fn view(&self) -> WrappedView {
        match self {
            Wrapped::NoRoom => WrappedView::NoRoom,
            Wrapped::Fits => WrappedView::Fits,
            Wrapped::Lines(ls) => WrappedView::Lines(string_views(ls@)),
        }
    }
}

/// Word-wrapping of a line made of the given spans at `max_width`: nothing at width
/// zero, the line as it is when its width fits, else its text split at white space
/// into lines of at most `max_width` columns (words wider than that cut to fit).
pub open spec fn spec_wrap_line(spans: Seq<Seq<char>>, max_width: usize) -> WrappedView {
    if max_width == 0 {
        WrappedView::NoRoom
    } else if total_width(spans) <= max_width {
        WrappedView::Fits
    } else {
        WrappedView::Lines(wrapped_text(joined(spans), max_width as int))
    }
}

/// The word, cut to its longest prefix of grapheme clusters within `max` columns.
fn fit_word(word: &[char], max: usize) -> (r: Vec<char>)
    ensures
        r@ == fit_clusters(grapheme_clusters(word@), max as int),
{
    let s = string_from_chars(word);
    let gs = graphemes_of(s.as_str());
    let ghost all = gs@.map_values(|g: String| g@);
    let mut acc: Vec<char> = Vec::new();
    let mut w: usize = 0;
    let mut i: usize = 0;
    assert(all.skip(0) =~= all);
    while i < gs.len()
        invariant
            all == gs@.map_values(|g: String| g@),
            all == grapheme_clusters(word@),
            i <= gs@.len(),
            w <= max,
            fit_clusters(all, max as int) == acc@ + fit_clusters(all.skip(i as int), max - w),
        decreases gs.len() - i,
    {
        let g = chars_of(gs[i].as_str());
        let gw = str_width(gs[i].as_str());
        assert(all.skip(i as int)[0] == g@);
        if gw > max - w {
            return acc;
        }
        assert(all.skip(i as int).drop_first() =~= all.skip(i + 1));
        let mut k: usize = 0;
        let ghost before = acc@;
        while k < g.len()
            invariant
                k <= g@.len(),
                acc@ == before + g@.take(k as int),
            decreases g.len() - k,
        {
            acc.push(g[k]);
            k += 1;
            assert(acc@ =~= before + g@.take(k as int));
        }
        assert(g@.take(g@.len() as int) =~= g@);
        assert(acc@ + fit_clusters(all.skip(i + 1), max - w - gw) =~= before + (g@
            + fit_clusters(all.skip(i + 1), max - w - gw)));
        w = w + gw;
        i += 1;
    }
    assert(all.skip(i as int).len() == 0);
    assert(acc@ + Seq::<char>::empty() =~= acc@);
    acc
}

/// Word-wrapping of the words of `text` (see `wrapped_text`).
fn wrap_text(text: &[char], max: usize) -> (lines: Vec<Vec<char>>)
    ensures
        views(lines@) == wrapped_text(text@, max as int),
{
    let ws = words_of(text);
    let mut out: Vec<Vec<char>> = Vec::new();
    let mut current: Vec<char> = Vec::new();
    let mut width: usize = 0;
    let mut i: usize = 0;
    assert(views(out@) =~= Seq::<Seq<char>>::empty());
    assert(views(ws@).take(0) =~= Seq::<Seq<char>>::empty());
    while i < ws.len()
        invariant
            i <= ws@.len(),
            views(ws@) == words(text@),
            width <= max,
            wrap_words(views(ws@).take(i as int), max as int) == (WrapState {
                out: views(out@),
                current: current@,
                width: width as int,
            }),
        decreases ws.len() - i,
    {
        let word = &ws[i];
        assert(views(ws@).take(i + 1).drop_last() =~= views(ws@).take(i as int));
        assert(views(ws@).take(i + 1).last() == word@);
        let ww = chars_width(word.as_slice());
        let sw: usize = if current.len() > 0 {
            1
        } else {
            0
        };
        if sw <= max - width && ww <= max - width - sw {
            if sw == 1 {
                current.push(' ');
            }
            let mut k: usize = 0;
            let ghost before = current@;
            while k < word.len()
                invariant
                    k <= word@.len(),
                    current@ == before + word@.take(k as int),
                decreases word.len() - k,
            {
                current.push(word[k]);
                k += 1;
                assert(current@ =~= before + word@.take(k as int));
            }
            assert(word@.take(word@.len() as int) =~= word@);
            width = width + sw + ww;
        } else {
            if current.len() > 0 {
                let mut done: Vec<char> = Vec::new();
                std::mem::swap(&mut done, &mut current);
                out.push(done);
            }
            if ww > max {
                out.push(fit_word(word.as_slice(), max));
                current = Vec::new();
                width = 0;
            } else {
                current = word.clone();
                width = ww;
            }
        }
        assert(views(out@) =~= wrap_words(views(ws@).take(i + 1), max as int).out);
        i += 1;
    }
    assert(views(ws@).take(ws@.len() as int) =~= views(ws@));
    if current.len() > 0 {
        out.push(current);
    }
    if out.len() == 0 {
        out.push(Vec::new());
        assert(views(out@) =~= seq![Seq::<char>::empty()]);
    }
    assert(views(out@) =~= wrapped_text(text@, max as int));
    out
}

/// Word-wrap a line, given its spans' contents, at `max_width` (see `spec_wrap_line`).
pub fn wrap_line(spans: &[String], max_width: usize) -> (w: Wrapped)
    ensures
        w@ == spec_wrap_line(string_views(spans@), max_width),
{
    if max_width == 0 {
        return Wrapped::NoRoom;
    }
    let ghost pieces = string_views(spans@);
    let mut width: usize = 0;
    let mut text: Vec<char> = Vec::new();
    let mut over = false;
    let mut i: usize = 0;
    while i < spans.len()
        invariant
            pieces == string_views(spans@),
            i <= spans@.len(),
            text@ == joined(pieces.take(i as int)),
            !over ==> width == total_width(pieces.take(i as int)),
            !over ==> width <= max_width,
            over ==> total_width(pieces.take(i as int)) > max_width,
        decreases spans.len() - i,
    {
        assert(pieces.take(i + 1).drop_last() =~= pieces.take(i as int));
        assert(pieces.take(i + 1).last() == spans@[i as int]@);
        let w = str_width(spans[i].as_str());
        if !over {
            if w <= max_width - width {
                width = width + w;
            } else {
                over = true;
            }
        }
        let cs = chars_of(spans[i].as_str());
        let mut k: usize = 0;
        let ghost before = text@;
        while k < cs.len()
            invariant
                k <= cs@.len(),
                text@ == before + cs@.take(k as int),
            decreases cs.len() - k,
        {
            text.push(cs[k]);
            k += 1;
            assert(text@ =~= before + cs@.take(k as int));
        }
        assert(cs@.take(cs@.len() as int) =~= cs@);
        i += 1;
    }
    assert(pieces.take(spans@.len() as int) =~= pieces);
    if !over {
        return Wrapped::Fits;
    }
    let lines = wrap_text(text.as_slice(), max_width);
    let mut out: Vec<String> = Vec::new();
    let mut j: usize = 0;
    while j < lines.len()
        invariant
            j <= lines@.len(),
            string_views(out@) == views(lines@).take(j as int),
        decreases lines.len() - j,
    {
        let line = string_from_chars(lines[j].as_slice());
        let ghost prev = out@;
        out.push(line);
        assert(string_views(out@) =~= string_views(prev).push(line@));
        assert(views(lines@).take(j + 1) =~= views(lines@).take(j as int).push(lines@[j as int]@));
        j += 1;
    }
    assert(views(lines@).take(lines@.len() as int) =~= views(lines@));
    Wrapped::Lines(out)
}


/// Horizontal alignment of a line.
#[derive(Clone, Copy, Debug, PartialEq, Eq, Structural)]
pub enum Alignment {
    Left,
    Center,
    Right,
}

/// A control character (general category Cc), as `char::is_control` defines it.
pub open spec fn is_ctrl(c: char) -> bool {
    c <= '\u{1f}' || ('\u{7f}' <= c <= '\u{9f}')
}

/// The cluster holds a control character.
pub open spec fn has_control(g: Seq<char>) -> bool {
    exists|i: int| 0 <= i < g.len() && is_ctrl(#[trigger] g[i])
}

/// The columns a cluster takes: its display width, kept in 16 bits.
pub open spec fn cell_width(g: Seq<char>) -> usize {
    ((display_width(g) as u16) as usize)
}

/// A grapheme cluster of span `span` placed at column `col`.
pub struct PlacementView {
    pub col: int,
    pub span: int,
    pub symbol: Seq<char>,
}

/// The placements of the clusters of span `span` starting at column `x`, and the
/// column after them: clusters with a control character or no width are skipped, and
/// placing stops at the first cluster that would start at or past `target`.
pub open spec fn place_clusters(gs: Seq<Seq<char>>, span: int, x: int, target: int) -> (Seq<PlacementView>, int)
    decreases gs.len(),
{
    if gs.len() == 0 {
        (Seq::empty(), x)
    } else if has_control(gs[0]) || cell_width(gs[0]) == 0 {
        place_clusters(gs.drop_first(), span, x, target)
    } else if x >= target {
        (Seq::empty(), x)
    } else {
        let rest = place_clusters(gs.drop_first(), span, x + cell_width(gs[0]), target);
        (seq![PlacementView { col: x, span, symbol: gs[0] }] + rest.0, rest.1)
    }
}

/// The placements of spans `i..` starting at column `x`.
pub open spec fn place_spans(spans: Seq<Seq<char>>, i: int, x: int, target: int) -> Seq<PlacementView>
    decreases spans.len() - i,
{
    if i < 0 || i >= spans.len() {
        Seq::empty()
    } else {
        let here = place_clusters(grapheme_clusters(spans[i]), i, x, target);
        here.0 + place_spans(spans, i + 1, here.1, target)
    }
}

/// The column a line of width `line_width` starts at in a row of `target` columns.
pub open spec fn start_column(alignment: Alignment, line_width: int, target: int) -> int {
    match alignment {
        Alignment::Left => 0,
        Alignment::Center => (if target >= line_width {
            target - line_width
        } else {
            0
        }) / 2,
        Alignment::Right => target - (if line_width <= target {
            line_width
        } else {
            target
        }),
    }
}

/// Where the clusters of a line go in a row of `target` columns (see `place_spans`),
/// starting at the column its alignment gives.
pub open spec fn spec_row_placements(
    spans: Seq<Seq<char>>,
    alignment: Alignment,
    target: usize,
) -> Seq<PlacementView> {
    if target == 0 {
        Seq::empty()
    } else {
        place_spans(spans, 0, start_column(alignment, total_width(spans), target as int), target as int)
    }
}

/// A grapheme cluster of a span, to be drawn at a column of the row.
#[derive(Clone, Debug)]
pub struct Placement {
    pub col: usize,
    pub span: usize,
    pub symbol: String,
}

/// The views of a sequence of placements.
pub open spec fn placement_views(ps: Seq<Placement>) -> Seq<PlacementView> {
    ps.map_values(|p: Placement| PlacementView { col: p.col as int, span: p.span as int, symbol: p.symbol@ })
}

/// Whether a cluster holds a control character.
fn contains_control(g: &[char]) -> (b: bool)
    ensures
        b == has_control(g@),
{
    let mut i: usize = 0;
    while i < g.len()
        invariant
            i <= g@.len(),
            forall|k: int| 0 <= k < i ==> !is_ctrl(#[trigger] g@[k]),
        decreases g.len() - i,
    {
        let c = g[i];
        if c <= '\u{1f}' || ('\u{7f}' <= c && c <= '\u{9f}') {
            assert(is_ctrl(g@[i as int]));
            return true;
        }
        i += 1;
    }
    false
}

/// The placements of one span's clusters from column `x`, appended to `acc`; the
/// column after them.
fn place_span(
    acc: &mut Vec<Placement>,
    span_text: &str,
    span: usize,
    x_start: usize,
    target: usize,
) -> (next: usize)
    requires
        target <= usize::MAX - 65536,
        x_start <= target + 65536,
    ensures
        placement_views(final(acc)@) == placement_views(old(acc)@) + place_clusters(
            grapheme_clusters(span_text@),
            span as int,
            x_start as int,
            target as int,
        ).0,
        next == place_clusters(grapheme_clusters(span_text@), span as int, x_start as int, target as int).1,
        next <= target + 65536,
{
    let gs = graphemes_of(span_text);
    let ghost all = gs@.map_values(|g: String| g@);
    let ghost start = placement_views(acc@);
    let ghost x0 = x_start;
    let mut x = x_start;
    let mut j: usize = 0;
    assert(all.skip(0) =~= all);
    assert(start + place_clusters(all, span as int, x0 as int, target as int).0 =~= placement_views(
        acc@,
    ) + place_clusters(all.skip(0), span as int, x as int, target as int).0);
    while j < gs.len()
        invariant
            all == gs@.map_values(|g: String| g@),
            all == grapheme_clusters(span_text@),
            start == placement_views(old(acc)@),
            x0 == x_start,
            j <= gs@.len(),
            target <= usize::MAX - 65536,
            x <= target + 65536,
            placement_views(acc@) + place_clusters(all.skip(j as int), span as int, x as int, target as int).0
                == start + place_clusters(all, span as int, x0 as int, target as int).0,
            place_clusters(all.skip(j as int), span as int, x as int, target as int).1
                == place_clusters(all, span as int, x0 as int, target as int).1,
        decreases gs.len() - j,
    {
        let ghost rest = all.skip(j as int);
        assert(rest[0] == gs@[j as int]@);
        assert(rest.drop_first() =~= all.skip(j + 1));
        let g = chars_of(gs[j].as_str());
        let w16 = str_width(gs[j].as_str()) as u16;
        let w = w16 as usize;
        if contains_control(g.as_slice()) || w == 0 {
            j += 1;
        } else if x >= target {
            assert(!has_control(rest[0]));
            assert(cell_width(rest[0]) != 0);
            assert(place_clusters(rest, span as int, x as int, target as int) == (
                Seq::<PlacementView>::empty(),
                x as int,
            ));
            assert(placement_views(acc@) + Seq::<PlacementView>::empty() =~= placement_views(acc@));
            return x;
        } else {
            let p = Placement { col: x, span, symbol: gs[j].clone() };
            let ghost prev = acc@;
            acc.push(p);
            assert(placement_views(acc@) =~= placement_views(prev).push(
                PlacementView { col: x as int, span: span as int, symbol: rest[0] },
            ));
            let ghost tail = place_clusters(all.skip(j + 1), span as int, x + w, target as int).0;
            assert(placement_views(prev) + (seq![PlacementView { col: x as int, span: span as int, symbol: rest[0] }] + tail)
                =~= placement_views(acc@) + tail);
            x = x + w;
            j += 1;
        }
    }
    assert(all.skip(j as int).len() == 0);
    assert(placement_views(acc@) + Seq::<PlacementView>::empty() =~= placement_views(acc@));
    x
}

/// The total width of the spans, or `cap` if it is larger.
fn capped_width(spans: &[String], cap: usize) -> (w: usize)
    ensures
        w == (if total_width(string_views(spans@)) <= cap {
            total_width(string_views(spans@))
        } else {
            cap as int
        }),
{
    let ghost pieces = string_views(spans@);
    let mut w: usize = 0;
    let mut i: usize = 0;
    while i < spans.len()
        invariant
            pieces == string_views(spans@),
            i <= spans@.len(),
            w == total_width(pieces.take(i as int)),
            w <= cap,
            forall|k: int| 0 <= k <= i ==> 0 <= #[trigger] total_width(pieces.take(k)),
        decreases spans.len() - i,
    {
        assert(pieces.take(i + 1).drop_last() =~= pieces.take(i as int));
        assert(pieces.take(i + 1).last() == spans@[i as int]@);
        let sw = str_width(spans[i].as_str());
        if sw > cap - w {
            proof {
                lemma_total_width_grows(pieces, i + 1);
            }
            return cap;
        }
        w = w + sw;
        i += 1;
    }
    assert(pieces.take(spans@.len() as int) =~= pieces);
    w
}

/// Width only grows as more pieces are added.
proof fn lemma_total_width_grows(pieces: Seq<Seq<char>>, k: int)
    requires
        0 <= k <= pieces.len(),
    ensures
        total_width(pieces.take(k)) <= total_width(pieces),
    decreases pieces.len(),
{
    if k < pieces.len() {
        assert(pieces.drop_last().take(k) =~= pieces.take(k));
        lemma_total_width_grows(pieces.drop_last(), k);
    } else {
        assert(pieces.take(k) =~= pieces);
    }
}

/// Where the grapheme clusters of a line go in a row of `target_width` cells: each
/// non-control cluster with a width starts at the column after the previous one, from
/// the column the line's alignment gives, until the row is full.
pub fn row_placements(spans: &[String], alignment: Alignment, target_width: usize) -> (ps: Vec<
    Placement,
>)
    requires
        target_width <= usize::MAX - 65536,
    ensures
        placement_views(ps@) == spec_row_placements(string_views(spans@), alignment, target_width),
{
    let mut ps: Vec<Placement> = Vec::new();
    if target_width == 0 {
        assert(placement_views(ps@) =~= Seq::<PlacementView>::empty());
        return ps;
    }
    let lw = capped_width(spans, target_width);
    let start = match alignment {
        Alignment::Left => 0,
        Alignment::Center => (target_width - lw) / 2,
        Alignment::Right => target_width - lw,
    };
    let ghost pieces = string_views(spans@);
    assert(start == start_column(alignment, total_width(pieces), target_width as int));
    let mut x = start;
    let mut i: usize = 0;
    assert(placement_views(ps@) =~= Seq::<PlacementView>::empty());
    assert(Seq::<PlacementView>::empty() + place_spans(pieces, 0, start as int, target_width as int)
        =~= place_spans(pieces, 0, start as int, target_width as int));
    while i < spans.len()
        invariant
            pieces == string_views(spans@),
            i <= spans@.len(),
            target_width <= usize::MAX - 65536,
            x <= target_width + 65536,
            placement_views(ps@) + place_spans(pieces, i as int, x as int, target_width as int)
                == place_spans(pieces, 0, start as int, target_width as int),
        decreases spans.len() - i,
    {
        assert(pieces[i as int] == spans@[i as int]@);
        let ghost before = placement_views(ps@);
        let ghost x_before = x;
        x = place_span(&mut ps, spans[i].as_str(), i, x, target_width);
        assert(placement_views(ps@) + place_spans(pieces, i + 1, x as int, target_width as int)
            =~= before + place_spans(pieces, i as int, x_before as int, target_width as int));
        i += 1;
    }
    assert(placement_views(ps@) + Seq::<PlacementView>::empty() =~= placement_views(ps@));
    ps
}

/// Placements that start at or after column `lo`, each inside a row of `target`
/// columns, none overlapping the next, in order.
pub open spec fn placed_in_row(ps: Seq<PlacementView>, lo: int, target: int) -> bool {
    &&& forall|i: int| 0 <= i < ps.len() ==> lo <= #[trigger] ps[i].col < target
    &&& forall|i: int, j: int|
        0 <= i < j < ps.len() ==> #[trigger] ps[i].col + cell_width(ps[i].symbol) <= #[trigger] ps[j].col
}

/// The clusters of a span are placed from `x` on, inside the row, without overlap, and
/// all end by the column that comes after them.
proof fn lemma_clusters_in_row(gs: Seq<Seq<char>>, span: int, x: int, target: int)
    ensures
        placed_in_row(place_clusters(gs, span, x, target).0, x, target),
        x <= place_clusters(gs, span, x, target).1,
        forall|i: int|
            0 <= i < place_clusters(gs, span, x, target).0.len() ==> #[trigger] place_clusters(gs, span, x, target).0[i].col
                + cell_width(place_clusters(gs, span, x, target).0[i].symbol) <= place_clusters(gs, span, x, target).1,
    decreases gs.len(),
{
    if gs.len() == 0 {
    } else if has_control(gs[0]) || cell_width(gs[0]) == 0 {
        lemma_clusters_in_row(gs.drop_first(), span, x, target);
    } else if x >= target {
    } else {
        let w = cell_width(gs[0]);
        lemma_clusters_in_row(gs.drop_first(), span, x + w, target);
        let rest = place_clusters(gs.drop_first(), span, x + w, target);
        let head = PlacementView { col: x, span, symbol: gs[0] };
        let ps = seq![head] + rest.0;
        assert(place_clusters(gs, span, x, target).0 == ps);
        assert forall|i: int| 0 <= i < ps.len() implies x <= #[trigger] ps[i].col < target by {
            if i > 0 {
                assert(ps[i] == rest.0[i - 1]);
            }
        }
        assert forall|i: int, j: int| 0 <= i < j < ps.len() implies #[trigger] ps[i].col + cell_width(ps[i].symbol)
            <= #[trigger] ps[j].col by {
            assert(ps[j] == rest.0[j - 1]);
            if i > 0 {
                assert(ps[i] == rest.0[i - 1]);
            }
        }
        assert forall|i: int| 0 <= i < ps.len() implies #[trigger] ps[i].col + cell_width(ps[i].symbol) <= rest.1 by {
            if i > 0 {
                assert(ps[i] == rest.0[i - 1]);
            }
        }
    }
}

/// The clusters of spans `i..` are placed from `x` on, inside the row, without overlap.
proof fn lemma_spans_in_row(spans: Seq<Seq<char>>, i: int, x: int, target: int)
    ensures
        placed_in_row(place_spans(spans, i, x, target), x, target),
    decreases spans.len() - i,
{
    if 0 <= i < spans.len() {
        let here = place_clusters(grapheme_clusters(spans[i]), i, x, target);
        lemma_clusters_in_row(grapheme_clusters(spans[i]), i, x, target);
        lemma_spans_in_row(spans, i + 1, here.1, target);
        let rest = place_spans(spans, i + 1, here.1, target);
        let ps = here.0 + rest;
        assert(place_spans(spans, i, x, target) == ps);
        assert forall|k: int| 0 <= k < ps.len() implies x <= #[trigger] ps[k].col < target by {
            if k >= here.0.len() {
                assert(ps[k] == rest[k - here.0.len()]);
            }
        }
        assert forall|a: int, b: int| 0 <= a < b < ps.len() implies #[trigger] ps[a].col + cell_width(ps[a].symbol)
            <= #[trigger] ps[b].col by {
            if b >= here.0.len() {
                assert(ps[b] == rest[b - here.0.len()]);
                if a >= here.0.len() {
                    assert(ps[a] == rest[a - here.0.len()]);
                } else {
                    assert(ps[a] == here.0[a]);
                }
            } else {
                assert(ps[a] == here.0[a]);
                assert(ps[b] == here.0[b]);
            }
        }
    }
}

/// A row never draws outside its width: every cluster of a line is placed at a column
/// inside the row, left to right, none overlapping the next.
pub proof fn lemma_row_stays_in_width(spans: Seq<Seq<char>>, alignment: Alignment, target: usize)
    ensures
        placed_in_row(spec_row_placements(spans, alignment, target), 0, target as int),
{
    if target > 0 {
        let start = start_column(alignment, total_width(spans), target as int);
        lemma_total_width_nonneg(spans);
        assert(start >= 0);
        lemma_spans_in_row(spans, 0, start, target as int);
    }
}

/// A total width is never negative.
proof fn lemma_total_width_nonneg(pieces: Seq<Seq<char>>)
    ensures
        total_width(pieces) >= 0,
    decreases pieces.len(),
{
    if pieces.len() > 0 {
        lemma_total_width_nonneg(pieces.drop_last());
    }
}

/// Lines joined with single spaces between them.
pub open spec fn join_spaced(ls: Seq<Seq<char>>) -> Seq<char>
    decreases ls.len(),
{
    if ls.len() == 0 {
        Seq::empty()
    } else if ls.len() == 1 {
        ls[0]
    } else {
        join_spaced(ls.drop_last()) + seq![' '] + ls.last()
    }
}

/// The words found by a scan are never empty.
proof fn lemma_word_scan_nonempty(s: Seq<char>)
    ensures
        forall|i: int| 0 <= i < word_scan(s).0.len() ==> #[trigger] word_scan(s).0[i].len() > 0,
    decreases s.len(),
{
    if s.len() > 0 {
        lemma_word_scan_nonempty(s.drop_last());
        let prev = word_scan(s.drop_last());
        let cur = word_scan(s).0;
        assert forall|i: int| 0 <= i < cur.len() implies #[trigger] cur[i].len() > 0 by {
            if i < prev.0.len() {
                assert(cur[i] == prev.0[i]);
            }
        }
    }
}

/// The words of a text are never empty.
proof fn lemma_words_nonempty(s: Seq<char>)
    ensures
        forall|i: int| 0 <= i < words(s).len() ==> #[trigger] words(s)[i].len() > 0,
{
    lemma_word_scan_nonempty(s);
    let scan = word_scan(s);
    assert forall|i: int| 0 <= i < words(s).len() implies #[trigger] words(s)[i].len() > 0 by {
        if scan.1.len() > 0 && i < scan.0.len() {
            assert(words(s)[i] == scan.0[i]);
        }
    }
}

/// The lines a wrapping state stands for: those done and the one being filled.
pub open spec fn lines_so_far(st: WrapState) -> Seq<Seq<char>> {
    if st.current.len() > 0 {
        st.out.push(st.current)
    } else {
        st.out
    }
}

/// Wrapping words that each fit keeps them all, in order, spaced as before.
proof fn lemma_wrap_words_keeps(ws: Seq<Seq<char>>, max: int)
    requires
        forall|i: int| 0 <= i < ws.len() ==> (#[trigger] ws[i]).len() > 0 && display_width(ws[i]) <= max,
    ensures
        join_spaced(lines_so_far(wrap_words(ws, max))) == join_spaced(ws),
        ws.len() > 0 ==> wrap_words(ws, max).current.len() > 0,
        ws.len() == 0 ==> wrap_words(ws, max).out.len() == 0 && wrap_words(ws, max).current.len() == 0
            && wrap_words(ws, max).width == 0,
    decreases ws.len(),
{
    if ws.len() > 0 {
        let prev = ws.drop_last();
        assert forall|i: int| 0 <= i < prev.len() implies (#[trigger] prev[i]).len() > 0 && display_width(prev[i])
            <= max by {
            assert(prev[i] == ws[i]);
        }
        lemma_wrap_words_keeps(prev, max);
        let st = wrap_words(prev, max);
        let w = ws.last();
        assert(w == ws[ws.len() - 1]);
        let next = wrap_step(st, w, max);
        assert(wrap_words(ws, max) == next);
        if prev.len() == 0 {
            assert(ws =~= seq![w]);
            assert(next.current =~= w);
            assert(lines_so_far(next) =~= seq![w]);
        } else {
            assert(join_spaced(ws) == join_spaced(prev) + seq![' '] + w);
            let c = st.current;
            let sw = 1int;
            if st.width + sw + display_width(w) <= max {
                assert(next.current == c.push(' ') + w);
                assert(lines_so_far(next) == st.out.push(c.push(' ') + w));
                if st.out.len() == 0 {
                    assert(lines_so_far(st) =~= seq![c]);
                    assert(lines_so_far(next) =~= seq![c.push(' ') + w]);
                    assert(c.push(' ') + w =~= c + seq![' '] + w);
                } else {
                    assert(st.out.push(c.push(' ') + w).drop_last() =~= st.out);
                    assert(st.out.push(c).drop_last() =~= st.out);
                    assert(join_spaced(st.out) + seq![' '] + (c.push(' ') + w) =~= (join_spaced(st.out)
                        + seq![' '] + c) + seq![' '] + w);
                }
            } else {
                assert(lines_so_far(next) == st.out.push(c).push(w));
                assert(st.out.push(c).push(w).drop_last() =~= st.out.push(c));
            }
        }
    }
}

/// Wrapping loses no word and keeps their order: when every word of the text fits the
/// width, the wrapped lines joined with single spaces are the text's words joined with
/// single spaces.
pub proof fn lemma_wrapping_keeps_words(text: Seq<char>, max: int)
    requires
        forall|i: int| 0 <= i < words(text).len() ==> display_width(#[trigger] words(text)[i]) <= max,
    ensures
        join_spaced(wrapped_text(text, max)) == join_spaced(words(text)),
{
    lemma_words_nonempty(text);
    let ws = words(text);
    assert forall|i: int| 0 <= i < ws.len() implies (#[trigger] ws[i]).len() > 0 && display_width(ws[i]) <= max by {}
    lemma_wrap_words_keeps(ws, max);
    let st = wrap_words(ws, max);
    if lines_so_far(st).len() == 0 {
        assert(ws.len() == 0);
        assert(wrapped_text(text, max) =~= seq![Seq::<char>::empty()]);
    } else {
        assert(wrapped_text(text, max) == lines_so_far(st));
    }
}

/// A line to lay out in rows: its spans (text and style) and its alignment.
#[derive(Clone, Debug)]
pub struct RowLine {
    pub spans: Vec<MdSpan>,
    pub alignment: Alignment,
}

/// The value of a row line.
pub open spec fn row_line_view(l: RowLine) -> (Seq<(Seq<char>, SpanStyle)>, Alignment) {
    (span_views(l.spans@), l.alignment)
}

/// The values of row lines.
pub open spec fn row_line_views(ls: Seq<RowLine>) -> Seq<(Seq<(Seq<char>, SpanStyle)>, Alignment)> {
    ls.map_values(|l: RowLine| row_line_view(l))
}

/// The line a block of content is: its spans and alignment (an empty line has no
/// spans; a code block, one plain span).
pub open spec fn block_line(b: MdBlockView) -> (Seq<(Seq<char>, SpanStyle)>, Alignment) {
    match b {
        MdBlockView::Line { spans, alignment } => (spans, alignment),
        MdBlockView::Code { code, .. } => (seq![(code, plain_style())], Alignment::Left),
        MdBlockView::Blank => (Seq::empty(), Alignment::Left),
    }
}

/// The texts of the spans.
pub open spec fn span_texts(spans: Seq<(Seq<char>, SpanStyle)>) -> Seq<Seq<char>> {
    spans.map_values(|s: (Seq<char>, SpanStyle)| s.0)
}

/// The style a re-flowed line takes: its first span's.
pub open spec fn first_style(spans: Seq<(Seq<char>, SpanStyle)>) -> SpanStyle {
    if spans.len() > 0 {
        spans[0].1
    } else {
        plain_style()
    }
}

/// The lines a block wraps into at `width` (see `spec_wrap_line`): none at width zero,
/// the line itself when it fits, else its re-flowed lines in its first span's style and
/// its alignment.
pub open spec fn wrap_block(b: MdBlockView, width: usize) -> Seq<(Seq<(Seq<char>, SpanStyle)>, Alignment)> {
    let l = block_line(b);
    match spec_wrap_line(span_texts(l.0), width) {
        WrappedView::NoRoom => Seq::empty(),
        WrappedView::Fits => seq![l],
        WrappedView::Lines(ls) => Seq::new(ls.len(), |i: int| (seq![(ls[i], first_style(l.0))], l.1)),
    }
}

/// The lines all blocks wrap into, in order.
pub open spec fn wrap_blocks(bs: Seq<MdBlockView>, width: usize) -> Seq<(Seq<(Seq<char>, SpanStyle)>, Alignment)>
    decreases bs.len(),
{
    if bs.len() == 0 {
        Seq::empty()
    } else {
        wrap_blocks(bs.drop_last(), width) + wrap_block(bs.last(), width)
    }
}

/// A cell of a row: the cluster drawn at a column and its style.
#[derive(Clone, Debug)]
pub struct Cell {
    pub col: usize,
    pub symbol: String,
    pub style: SpanStyle,
}

/// The value of a cell.
pub struct CellView {
    pub col: int,
    pub symbol: Seq<char>,
    pub style: SpanStyle,
}

/// The values of a row's cells.
pub open spec fn cell_views(cs: Seq<Cell>) -> Seq<CellView> {
    cs.map_values(|c: Cell| CellView { col: c.col as int, symbol: c.symbol@, style: c.style })
}

/// The values of rows.
pub open spec fn row_views(rows: Seq<Vec<Cell>>) -> Seq<Seq<CellView>> {
    rows.map_values(|r: Vec<Cell>| cell_views(r@))
}

/// The cells of a line in a row of `width` columns: its placed clusters, each in its
/// span's style.
pub open spec fn row_cells(l: (Seq<(Seq<char>, SpanStyle)>, Alignment), width: usize) -> Seq<CellView> {
    let ps = spec_row_placements(span_texts(l.0), l.1, width);
    Seq::new(ps.len(), |i: int| CellView { col: ps[i].col, symbol: ps[i].symbol, style: l.0[ps[i].span].1 })
}

/// The rows of the content area at a width: each line of the blocks, wrapped, as cells.
pub open spec fn spec_content_rows(bs: Seq<MdBlockView>, width: u16) -> Seq<Seq<CellView>> {
    if width == 0 {
        Seq::empty()
    } else {
        let ls = wrap_blocks(bs, width as usize);
        Seq::new(ls.len(), |i: int| row_cells(ls[i], width as usize))
    }
}

/// A copy of the spans.
fn copy_spans(spans: &Vec<MdSpan>) -> (r: Vec<MdSpan>)
    ensures
        span_views(r@) == span_views(spans@),
{
    let mut r: Vec<MdSpan> = Vec::new();
    let mut i: usize = 0;
    while i < spans.len()
        invariant
            i <= spans@.len(),
            span_views(r@) == span_views(spans@).take(i as int),
        decreases spans.len() - i,
    {
        let ghost before = r@;
        r.push(MdSpan { text: spans[i].text.clone(), style: spans[i].style });
        assert(span_views(r@) =~= span_views(before).push(span_views(spans@)[i as int]));
        assert(span_views(spans@).take(i + 1) =~= span_views(spans@).take(i as int).push(span_views(spans@)[i as int]));
        i += 1;
    }
    assert(span_views(spans@).take(spans@.len() as int) =~= span_views(spans@));
    r
}

/// The line a block is (see `block_line`).
fn block_row_line(b: &MdBlock) -> (l: RowLine)
    ensures
        row_line_view(l) == block_line(b@),
{
    match b {
        MdBlock::Line { spans, alignment } => RowLine { spans: copy_spans(spans), alignment: *alignment },
        MdBlock::Code { code, .. } => {
            let mut spans: Vec<MdSpan> = Vec::new();
            spans.push(MdSpan {
                text: code.clone(),
                style: SpanStyle { fg: None, bold: false, italic: false, underlined: false, dim: false },
            });
            assert(span_views(spans@) =~= seq![(code@, plain_style())]);
            RowLine { spans, alignment: Alignment::Left }
        },
        MdBlock::Blank => {
            let spans: Vec<MdSpan> = Vec::new();
            assert(span_views(spans@) =~= Seq::<(Seq<char>, SpanStyle)>::empty());
            RowLine { spans, alignment: Alignment::Left }
        },
    }
}

/// The texts of a line's spans.
fn line_texts(l: &RowLine) -> (ts: Vec<String>)
    ensures
        string_views(ts@) == span_texts(row_line_view(*l).0),
{
    let mut ts: Vec<String> = Vec::new();
    let mut i: usize = 0;
    while i < l.spans.len()
        invariant
            i <= l.spans@.len(),
            string_views(ts@) == span_texts(row_line_view(*l).0).take(i as int),
        decreases l.spans.len() - i,
    {
        let ghost before = ts@;
        ts.push(l.spans[i].text.clone());
        assert(string_views(ts@) =~= string_views(before).push(l.spans@[i as int].text@));
        assert(span_texts(row_line_view(*l).0).take(i + 1) =~= span_texts(row_line_view(*l).0).take(i as int).push(
            l.spans@[i as int].text@,
        ));
        i += 1;
    }
    assert(span_texts(row_line_view(*l).0).take(l.spans@.len() as int) =~= span_texts(row_line_view(*l).0));
    ts
}

/// The lines a block wraps into at `width` (see `wrap_block`).
fn wrap_one_block(b: &MdBlock, width: usize) -> (ls: Vec<RowLine>)
    ensures
        row_line_views(ls@) == wrap_block(b@, width),
{
    let line = block_row_line(b);
    let texts = line_texts(&line);
    let mut out: Vec<RowLine> = Vec::new();
    match wrap_line(texts.as_slice(), width) {
        Wrapped::NoRoom => {
            assert(row_line_views(out@) =~= wrap_block(b@, width));
        },
        Wrapped::Fits => {
            out.push(line);
            assert(row_line_views(out@) =~= wrap_block(b@, width));
        },
        Wrapped::Lines(ls) => {
            let style = if line.spans.len() > 0 {
                line.spans[0].style
            } else {
                SpanStyle { fg: None, bold: false, italic: false, underlined: false, dim: false }
            };
            let ghost target = wrap_block(b@, width);
            let mut i: usize = 0;
            while i < ls.len()
                invariant
                    i <= ls@.len(),
                    target == wrap_block(b@, width),
                    row_line_view(line) == block_line(b@),
                    style == first_style(row_line_view(line).0),
                    spec_wrap_line(span_texts(block_line(b@).0), width) == WrappedView::Lines(string_views(ls@)),
                    row_line_views(out@) == target.take(i as int),
                decreases ls.len() - i,
            {
                let mut spans: Vec<MdSpan> = Vec::new();
                spans.push(MdSpan { text: ls[i].clone(), style });
                assert(span_views(spans@) =~= seq![(ls@[i as int]@, style)]);
                let ghost before = out@;
                out.push(RowLine { spans, alignment: line.alignment });
                assert(row_line_views(out@) =~= row_line_views(before).push(target[i as int]));
                assert(target.take(i + 1) =~= target.take(i as int).push(target[i as int]));
                i += 1;
            }
            assert(target.take(ls@.len() as int) =~= target);
        },
    }
    out
}

/// The lines all blocks wrap into at `width`, in order (see `wrap_blocks`).
pub fn wrap_lines(blocks: &[MdBlock], width: usize) -> (ls: Vec<RowLine>)
    ensures
        row_line_views(ls@) == wrap_blocks(block_views(blocks@), width),
{
    let ghost bv = block_views(blocks@);
    let mut out: Vec<RowLine> = Vec::new();
    let mut i: usize = 0;
    while i < blocks.len()
        invariant
            i <= blocks@.len(),
            bv == block_views(blocks@),
            row_line_views(out@) == wrap_blocks(bv.take(i as int), width),
        decreases blocks.len() - i,
    {
        assert(bv.take(i + 1).drop_last() =~= bv.take(i as int));
        assert(bv.take(i + 1).last() == blocks@[i as int]@);
        let mut more = wrap_one_block(&blocks[i], width);
        let ghost before = out@;
        let ghost mv = more@;
        out.append(&mut more);
        assert(row_line_views(out@) =~= row_line_views(before) + row_line_views(mv));
        i += 1;
    }
    assert(bv.take(blocks@.len() as int) =~= bv);
    out
}

/// The cells of a line in a row of `width` columns (see `row_cells`).
pub fn build_row(line: &RowLine, width: usize) -> (cells: Vec<Cell>)
    requires
        width <= usize::MAX - 65536,
    ensures
        cell_views(cells@) == row_cells(row_line_view(*line), width),
{
    let texts = line_texts(line);
    let ps = row_placements(texts.as_slice(), line.alignment, width);
    let ghost target = row_cells(row_line_view(*line), width);
    let ghost pv = spec_row_placements(span_texts(row_line_view(*line).0), line.alignment, width);
    proof {
        lemma_placements_name_spans(span_texts(row_line_view(*line).0), line.alignment, width);
    }
    let mut cells: Vec<Cell> = Vec::new();
    let mut i: usize = 0;
    while i < ps.len()
        invariant
            i <= ps@.len(),
            placement_views(ps@) == pv,
            pv == spec_row_placements(span_texts(row_line_view(*line).0), line.alignment, width),
            target == row_cells(row_line_view(*line), width),
            forall|k: int| 0 <= k < pv.len() ==> 0 <= #[trigger] pv[k].span < line.spans@.len(),
            cell_views(cells@) == target.take(i as int),
        decreases ps.len() - i,
    {
        let p = &ps[i];
        assert(pv[i as int].span == p.span);
        let style = line.spans[p.span].style;
        let ghost before = cells@;
        cells.push(Cell { col: p.col, symbol: p.symbol.clone(), style });
        assert(cell_views(cells@) =~= cell_views(before).push(target[i as int]));
        assert(target.take(i + 1) =~= target.take(i as int).push(target[i as int]));
        i += 1;
    }
    assert(target.take(ps@.len() as int) =~= target);
    cells
}

/// Placements name spans of the line.
proof fn lemma_placements_name_spans(spans: Seq<Seq<char>>, alignment: Alignment, target: usize)
    ensures
        forall|k: int|
            0 <= k < spec_row_placements(spans, alignment, target).len() ==> 0 <= #[trigger] spec_row_placements(
                spans,
                alignment,
                target,
            )[k].span < spans.len(),
{
    if target > 0 {
        lemma_place_spans_name_spans(spans, 0, start_column(alignment, total_width(spans), target as int), target as int);
    }
}

/// The placements of spans `i..` name spans from `i` on.
proof fn lemma_place_spans_name_spans(spans: Seq<Seq<char>>, i: int, x: int, target: int)
    ensures
        forall|k: int|
            0 <= k < place_spans(spans, i, x, target).len() ==> i <= #[trigger] place_spans(spans, i, x, target)[k].span
                < spans.len(),
    decreases spans.len() - i,
{
    if 0 <= i < spans.len() {
        let here = place_clusters(grapheme_clusters(spans[i]), i, x, target);
        lemma_clusters_name_span(grapheme_clusters(spans[i]), i, x, target);
        lemma_place_spans_name_spans(spans, i + 1, here.1, target);
        let rest = place_spans(spans, i + 1, here.1, target);
        let ps = here.0 + rest;
        assert forall|k: int| 0 <= k < ps.len() implies i <= #[trigger] ps[k].span < spans.len() by {
            if k >= here.0.len() {
                assert(ps[k] == rest[k - here.0.len()]);
            } else {
                assert(ps[k] == here.0[k]);
            }
        }
    }
}

/// The clusters of one span are placed as that span's.
proof fn lemma_clusters_name_span(gs: Seq<Seq<char>>, span: int, x: int, target: int)
    ensures
        forall|k: int| 0 <= k < place_clusters(gs, span, x, target).0.len() ==> #[trigger] place_clusters(gs, span, x, target).0[k].span == span,
    decreases gs.len(),
{
    if gs.len() > 0 {
        if has_control(gs[0]) || cell_width(gs[0]) == 0 {
            lemma_clusters_name_span(gs.drop_first(), span, x, target);
            assert(place_clusters(gs, span, x, target) == place_clusters(gs.drop_first(), span, x, target));
        } else if x >= target {
            assert(place_clusters(gs, span, x, target).0.len() == 0);
        } else {
            let w = cell_width(gs[0]);
            lemma_clusters_name_span(gs.drop_first(), span, x + w, target);
            let rest = place_clusters(gs.drop_first(), span, x + w, target);
            let ps = seq![PlacementView { col: x, span, symbol: gs[0] }] + rest.0;
            assert(place_clusters(gs, span, x, target).0 == ps);
            assert forall|k: int| 0 <= k < ps.len() implies #[trigger] ps[k].span == span by {
                if k > 0 {
                    assert(ps[k] == rest.0[k - 1]);
                }
            }
        }
    }
}

/// The rows last computed, with the key and width they were computed for.
pub struct RowsCache {
    entry: Option<(u64, u16, Vec<Vec<Cell>>)>,
}

impl View for RowsCache {
    type V = Option<(u64, u16, Seq<Seq<CellView>>)>;

    closed spec fn view(&self) -> Option<(u64, u16, Seq<Seq<CellView>>)> {
        match self.entry {
            Some((k, w, rows)) => Some((k, w, row_views(rows@))),
            None => None,
        }
    }
}

impl RowsCache {
    /// An empty cache.
    pub fn new() -> (c: RowsCache)
        ensures
            c@ is None,
    {
        RowsCache { entry: None }
    }

    /// Whether the cache holds rows for this key and width.
    pub fn holds(&self, key: u64, width: u16) -> (b: bool)
        ensures
            b == (self@ matches Some((k, w, _)) && k == key && w == width),
    {
        match &self.entry {
            Some((k, w, _)) => *k == key && *w == width,
            None => false,
        }
    }
}

/// A copy of the rows.
fn copy_rows(rows: &Vec<Vec<Cell>>) -> (r: Vec<Vec<Cell>>)
    ensures
        row_views(r@) == row_views(rows@),
{
    let mut r: Vec<Vec<Cell>> = Vec::new();
    let mut i: usize = 0;
    while i < rows.len()
        invariant
            i <= rows@.len(),
            row_views(r@) == row_views(rows@).take(i as int),
        decreases rows.len() - i,
    {
        let row = &rows[i];
        let mut copy: Vec<Cell> = Vec::new();
        let mut j: usize = 0;
        while j < row.len()
            invariant
                j <= row@.len(),
                cell_views(copy@) == cell_views(row@).take(j as int),
            decreases row.len() - j,
        {
            let ghost before = copy@;
            copy.push(Cell { col: row[j].col, symbol: row[j].symbol.clone(), style: row[j].style });
            assert(cell_views(copy@) =~= cell_views(before).push(cell_views(row@)[j as int]));
            assert(cell_views(row@).take(j + 1) =~= cell_views(row@).take(j as int).push(cell_views(row@)[j as int]));
            j += 1;
        }
        assert(cell_views(row@).take(row@.len() as int) =~= cell_views(row@));
        let ghost before = r@;
        r.push(copy);
        assert(row_views(r@) =~= row_views(before).push(row_views(rows@)[i as int]));
        assert(row_views(rows@).take(i + 1) =~= row_views(rows@).take(i as int).push(row_views(rows@)[i as int]));
        i += 1;
    }
    assert(row_views(rows@).take(rows@.len() as int) =~= row_views(rows@));
    r
}

/// The rows a call of `compute_content_rows` gives back: nothing at width zero, the
/// cached rows when the cache holds rows for this key and width, else the rows computed
/// from the lines.
pub open spec fn rows_after_cache(
    cache: Option<(u64, u16, Seq<Seq<CellView>>)>,
    lines: Seq<MdBlockView>,
    width: u16,
    key: u64,
) -> Seq<Seq<CellView>> {
    if width == 0 {
        Seq::empty()
    } else {
        match cache {
            Some((k, w, cached)) => if k == key && w == width {
                cached
            } else {
                spec_content_rows(lines, width)
            },
            None => spec_content_rows(lines, width),
        }
    }
}

/// The content rows of the lines at `content_width`, cached by `cache_key` and width:
/// nothing at width zero; the cached rows when the cache holds rows for this key and
/// width; else the rows computed afresh (see `spec_content_rows`), which the cache then
/// keeps. The caller passes the key that goes with these lines.
pub fn compute_content_rows(
    cache: &mut RowsCache,
    lines: &[MdBlock],
    content_width: u16,
    cache_key: u64,
) -> (rows: Vec<Vec<Cell>>)
    ensures
        row_views(rows@) == rows_after_cache(old(cache)@, block_views(lines@), content_width, cache_key),
        content_width == 0 ==> rows@.len() == 0 && final(cache)@ == old(cache)@,
        content_width > 0 ==> match old(cache)@ {
            Some((k, w, cached)) if k == cache_key && w == content_width => row_views(rows@) == cached
                && final(cache)@ == old(cache)@,
            _ => row_views(rows@) == spec_content_rows(block_views(lines@), content_width)
                && final(cache)@ == Some((cache_key, content_width, row_views(rows@))),
        },
{
    if content_width == 0 {
        return Vec::new();
    }
    match &cache.entry {
        Some((k, w, cached)) => {
            if *k == cache_key && *w == content_width {
                return copy_rows(cached);
            }
        },
        None => {},
    }
    let width = content_width as usize;
    let wrapped = wrap_lines(lines, width);
    let ghost target = spec_content_rows(block_views(lines@), content_width);
    let mut rows: Vec<Vec<Cell>> = Vec::new();
    let mut i: usize = 0;
    while i < wrapped.len()
        invariant
            i <= wrapped@.len(),
            width == content_width as usize,
            content_width > 0,
            row_line_views(wrapped@) == wrap_blocks(block_views(lines@), width),
            target == spec_content_rows(block_views(lines@), content_width),
            row_views(rows@) == target.take(i as int),
        decreases wrapped.len() - i,
    {
        let row = build_row(&wrapped[i], width);
        assert(row_line_view(wrapped@[i as int]) == wrap_blocks(block_views(lines@), width)[i as int]);
        let ghost before = rows@;
        rows.push(row);
        assert(row_views(rows@) =~= row_views(before).push(target[i as int]));
        assert(target.take(i + 1) =~= target.take(i as int).push(target[i as int]));
        i += 1;
    }
    assert(target.take(wrapped@.len() as int) =~= target);
    let copy = copy_rows(&rows);
    cache.entry = Some((cache_key, content_width, copy));
    rows
}

/// Asking twice gives the same rows: a call stores the rows it returns under its key and
/// width, so the next call with that key and width returns them again, whatever lines
/// it is given.
pub proof fn lemma_cached_rows_repeat(
    cache: Option<(u64, u16, Seq<Seq<CellView>>)>,
    lines: Seq<MdBlockView>,
    again: Seq<MdBlockView>,
    width: u16,
    key: u64,
)
    requires
        width > 0,
    ensures
        rows_after_cache(Some((key, width, rows_after_cache(cache, lines, width, key))), again, width, key)
            == rows_after_cache(cache, lines, width, key),
{
}

/// When the cache only holds rows of the lines that go with its key (as the key of the
/// history's lines ensures), the rows returned are the rows of the lines.
pub proof fn lemma_cached_rows_are_the_lines_rows(
    cache: Option<(u64, u16, Seq<Seq<CellView>>)>,
    lines: Seq<MdBlockView>,
    width: u16,
    key: u64,
)
    requires
        cache matches Some((k, w, rows)) ==> (k == key && w == width ==> rows == spec_content_rows(lines, width)),
    ensures
        rows_after_cache(cache, lines, width, key) == spec_content_rows(lines, width),
{
}

} // verus!
