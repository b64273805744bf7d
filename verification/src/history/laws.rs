//! Properties of the history that hold across events: ids are positions, the
//! history only ever changes at its end, streamed chunks accumulate into one cell,
//! and closing events finish the stream.
use vstd::prelude::*;

use super::events::{
    classify_line, closed_hunks, current_hunk, first_or, header_body, header_ranges, parsed_numbers, scan_lines,
    scan_step, second_or, spec_parse_unified_diff, DiffHunkView, DiffLineView, DiffScan, EventView,
};
use crate::text::{
    has_prefix, has_suffix, is_digit, is_ws, piece_scan, pieces, spec_parse_u32, text_lines, trim_end, word_scan,
    words,
};
use super::state::{
    ids_follow_positions, position_id, close_streaming, lemma_next_id_value, next_id, record_id, spec_append_content,
    spec_apply_event, RecordView,
};

verus! {

broadcast use lemma_next_id_value;

/// Every record's id is its position in the history counted from one.
pub open spec fn ids_are_positions(records: Seq<RecordView>) -> bool {
    forall|i: int| 0 <= i < records.len() ==> #[trigger] record_id(records[i]).value() == i + 1
}

/// Which kind of cell a record is.
pub open spec fn record_kind(r: RecordView) -> int {
    match r {
        RecordView::UserMessage { .. } => 0,
        RecordView::AssistantContent { .. } => 1,
        RecordView::ToolCall { .. } => 2,
        RecordView::ToolResult { .. } => 3,
        RecordView::Thinking { .. } => 4,
        RecordView::ActionRequired { .. } => 5,
        RecordView::Diff { .. } => 6,
    }
}

/// Whether a record is an assistant cell that is still streaming.
pub open spec fn is_streaming(r: RecordView) -> bool {
    r matches RecordView::AssistantContent { streaming: true, .. }
}

/// `new` is `old` with at most its last cell updated in place (same id, same kind)
/// and at most one cell appended.
pub open spec fn changes_only_at_end(old: Seq<RecordView>, new: Seq<RecordView>) -> bool {
    &&& old.len() <= new.len() <= old.len() + 1
    &&& forall|i: int| 0 <= i < old.len() - 1 ==> #[trigger] new[i] == old[i]
    &&& old.len() > 0 ==> {
        &&& record_id(new[old.len() - 1]) == record_id(old.last())
        &&& record_kind(new[old.len() - 1]) == record_kind(old.last())
    }
}

/// Closing the stream changes nothing but the streaming flag of the last cell.
proof fn lemma_close_streaming(records: Seq<RecordView>)
    ensures
        changes_only_at_end(records, close_streaming(records)),
        close_streaming(records).len() == records.len(),
        records.len() > 0 ==> !is_streaming(close_streaming(records).last()),
        forall|i: int|
            0 <= i < records.len() ==> #[trigger] record_id(close_streaming(records)[i])
                == record_id(records[i]),
{
}

/// History is append-only: applying an event updates at most the last cell, keeping
/// its id and kind, and appends at most one cell.
pub proof fn lemma_apply_event_changes_only_at_end(records: Seq<RecordView>, event: EventView)
    ensures
        changes_only_at_end(records, spec_apply_event(records, event)),
{
    lemma_close_streaming(records);
}

/// Full message text also changes the history only at its end, and leaves its last
/// cell a finished assistant cell.
pub proof fn lemma_append_content_changes_only_at_end(records: Seq<RecordView>, text: Seq<char>)
    ensures
        changes_only_at_end(records, spec_append_content(records, text)),
        spec_append_content(records, text).last() is AssistantContent,
        !is_streaming(spec_append_content(records, text).last()),
{
}

/// Ids are stable and unique: when every id is its position, it stays so after any
/// event (so no two records ever share an id).
pub proof fn lemma_apply_event_keeps_ids(records: Seq<RecordView>, event: EventView)
    requires
        ids_are_positions(records),
        records.len() < u64::MAX,
    ensures
        ids_are_positions(spec_apply_event(records, event)),
{
    lemma_close_streaming(records);
    let new = spec_apply_event(records, event);
    assert forall|i: int| 0 <= i < new.len() implies #[trigger] record_id(new[i]).value() == i + 1 by {
        if i < records.len() {
            assert(record_id(records[i]).value() == i + 1);
        }
    }
}

/// Full message text keeps ids at their positions too.
pub proof fn lemma_append_content_keeps_ids(records: Seq<RecordView>, text: Seq<char>)
    requires
        ids_are_positions(records),
        records.len() < u64::MAX,
    ensures
        ids_are_positions(spec_append_content(records, text)),
{
    let new = spec_append_content(records, text);
    assert forall|i: int| 0 <= i < new.len() implies #[trigger] record_id(new[i]).value() == i + 1 by {
        if i < records.len() {
            assert(record_id(records[i]).value() == i + 1);
        }
    }
}

/// When ids are positions, no two records share one.
pub proof fn lemma_ids_unique(records: Seq<RecordView>)
    requires
        ids_are_positions(records),
    ensures
        forall|i: int, j: int|
            0 <= i < records.len() && 0 <= j < records.len() && i != j ==> record_id(
                #[trigger] records[i],
            ) != record_id(#[trigger] records[j]),
{
    assert forall|i: int, j: int|
        0 <= i < records.len() && 0 <= j < records.len() && i != j implies record_id(
        #[trigger] records[i],
    ) != record_id(#[trigger] records[j]) by {
        assert(record_id(records[i]).value() == i + 1);
        assert(record_id(records[j]).value() == j + 1);
    }
}

/// Every history (whose records carry their positions' ids, as `records` ensures) of
/// at most `u64::MAX` records has no two records sharing an id.
pub proof fn lemma_history_ids_distinct(records: Seq<RecordView>)
    requires
        ids_follow_positions(records),
        records.len() <= u64::MAX,
    ensures
        forall|i: int, j: int|
            0 <= i < records.len() && 0 <= j < records.len() && i != j ==> record_id(
                #[trigger] records[i],
            ) != record_id(#[trigger] records[j]),
{
    assert forall|i: int, j: int|
        0 <= i < records.len() && 0 <= j < records.len() && i != j implies record_id(
        #[trigger] records[i],
    ) != record_id(#[trigger] records[j]) by {
        assert(record_id(records[i]).value() == position_id(i));
        assert(record_id(records[j]).value() == position_id(j));
    }
}

/// Whether an event finishes a streaming assistant cell at the end.
pub open spec fn closes_stream(event: EventView) -> bool {
    ||| event is UserMessage
    ||| event is StreamEnd
    ||| event is ToolRequest
    ||| event is ToolResponse
    ||| event is ThinkingStart
    ||| event is DiffShown
}

/// A user message, the end of a stream, a tool request or response, the start of
/// thinking and a diff all finish the cell that was last.
pub proof fn lemma_closing_events_finish_stream(records: Seq<RecordView>, event: EventView)
    requires
        closes_stream(event),
        records.len() > 0,
    ensures
        !is_streaming(spec_apply_event(records, event)[records.len() - 1]),
{
    lemma_close_streaming(records);
}

/// The history after a sequence of events, applied in order.
pub open spec fn spec_apply_events(records: Seq<RecordView>, events: Seq<EventView>) -> Seq<RecordView>
    decreases events.len(),
{
    if events.len() == 0 {
        records
    } else {
        spec_apply_event(spec_apply_events(records, events.drop_last()), events.last())
    }
}

/// The stream-chunk events carrying the given texts.
pub open spec fn chunk_events(chunks: Seq<Seq<char>>) -> Seq<EventView> {
    chunks.map_values(|c: Seq<char>| EventView::StreamChunk { text: c })
}

/// The texts joined together.
pub open spec fn concat_texts(chunks: Seq<Seq<char>>) -> Seq<char>
    decreases chunks.len(),
{
    if chunks.len() == 0 {
        Seq::empty()
    } else {
        concat_texts(chunks.drop_last()) + chunks.last()
    }
}

/// Applying `a` then `b` is applying `a + b`.
proof fn lemma_apply_events_concat(records: Seq<RecordView>, a: Seq<EventView>, b: Seq<EventView>)
    ensures
        spec_apply_events(records, a + b) == spec_apply_events(spec_apply_events(records, a), b),
    decreases b.len(),
{
    if b.len() == 0 {
        assert(a + b =~= a);
    } else {
        assert((a + b).drop_last() =~= a + b.drop_last());
        lemma_apply_events_concat(records, a, b.drop_last());
    }
}

/// The chunks streamed after a start accumulate in the streaming cell.
proof fn lemma_chunks_accumulate(records: Seq<RecordView>, chunks: Seq<Seq<char>>)
    ensures
        spec_apply_events(
            records.push(
                RecordView::AssistantContent { id: next_id(records), text: Seq::empty(), streaming: true },
            ),
            chunk_events(chunks),
        ) == records.push(
            RecordView::AssistantContent {
                id: next_id(records),
                text: concat_texts(chunks),
                streaming: true,
            },
        ),
    decreases chunks.len(),
{
    if chunks.len() > 0 {
        assert(chunk_events(chunks).drop_last() =~= chunk_events(chunks.drop_last()));
        lemma_chunks_accumulate(records, chunks.drop_last());
        let before = records.push(
            RecordView::AssistantContent {
                id: next_id(records),
                text: concat_texts(chunks.drop_last()),
                streaming: true,
            },
        );
        assert(before.update(
            before.len() - 1,
            RecordView::AssistantContent {
                id: next_id(records),
                text: concat_texts(chunks.drop_last()) + chunks.last(),
                streaming: true,
            },
        ) =~= records.push(
            RecordView::AssistantContent {
                id: next_id(records),
                text: concat_texts(chunks),
                streaming: true,
            },
        ));
    } else {
        assert(records.push(
            RecordView::AssistantContent { id: next_id(records), text: Seq::empty(), streaming: true },
        ) =~= records.push(
            RecordView::AssistantContent {
                id: next_id(records),
                text: concat_texts(chunks),
                streaming: true,
            },
        ));
    }
}

/// A streamed reply (an assistant start, any number of chunks, then the end of the
/// stream) becomes exactly one new finished assistant cell holding the chunks joined
/// in order.
pub proof fn lemma_streamed_reply_is_one_cell(records: Seq<RecordView>, chunks: Seq<Seq<char>>)
    ensures
        spec_apply_events(
            records,
            seq![EventView::AssistantStart] + chunk_events(chunks) + seq![EventView::StreamEnd],
        ) == records.push(
            RecordView::AssistantContent {
                id: next_id(records),
                text: concat_texts(chunks),
                streaming: false,
            },
        ),
{
    let start = seq![EventView::AssistantStart];
    let mid = chunk_events(chunks);
    let end = seq![EventView::StreamEnd];
    lemma_apply_events_concat(records, start + mid, end);
    lemma_apply_events_concat(records, start, mid);
    assert(start.drop_last() =~= Seq::<EventView>::empty());
    assert(end.drop_last() =~= Seq::<EventView>::empty());
    lemma_chunks_accumulate(records, chunks);
    assert(spec_apply_events(records, start.drop_last()) == records);
    assert(spec_apply_events(records, start) == records.push(
        RecordView::AssistantContent { id: next_id(records), text: Seq::empty(), streaming: true },
    ));
    let streamed = records.push(
        RecordView::AssistantContent {
            id: next_id(records),
            text: concat_texts(chunks),
            streaming: true,
        },
    );
    assert(close_streaming(streamed) =~= records.push(
        RecordView::AssistantContent {
            id: next_id(records),
            text: concat_texts(chunks),
            streaming: false,
        },
    ));
    assert(spec_apply_events(streamed, end.drop_last()) == streamed);
    assert(spec_apply_events(streamed, end) == close_streaming(streamed));
}

/// Every hunk a scan has closed has lines.
proof fn lemma_scan_hunks_have_lines(lines: Seq<Seq<char>>)
    ensures
        forall|i: int| 0 <= i < scan_lines(lines).hunks.len() ==> (#[trigger] scan_lines(lines).hunks[i]).lines.len() > 0,
    decreases lines.len(),
{
    if lines.len() > 0 {
        lemma_scan_hunks_have_lines(lines.drop_last());
        let st: DiffScan = scan_lines(lines.drop_last());
        let next = scan_step(st, lines.last());
        let ch = closed_hunks(st);
        assert forall|i: int| 0 <= i < ch.len() implies (#[trigger] ch[i]).lines.len() > 0 by {
            if i < st.hunks.len() {
                assert(ch[i] == st.hunks[i]);
            }
        }
        assert(scan_lines(lines) == next);
    }
}

/// A unified diff parses exactly when it names a path and holds a hunk with lines; then
/// the path is not empty and every hunk it gives has lines.
pub proof fn lemma_parsed_diff_hunks_have_lines(text: Seq<char>)
    ensures
        spec_parse_unified_diff(text) is Some <==> (scan_lines(text_lines(text)).path.len() > 0 && closed_hunks(
            scan_lines(text_lines(text)),
        ).len() > 0),
        spec_parse_unified_diff(text) matches Some((path, hunks)) ==> {
            &&& path.len() > 0
            &&& hunks.len() > 0
            &&& forall|i: int| 0 <= i < hunks.len() ==> (#[trigger] hunks[i]).lines.len() > 0
        },
{
    let st = scan_lines(text_lines(text));
    lemma_scan_hunks_have_lines(text_lines(text));
    let ch = closed_hunks(st);
    assert forall|i: int| 0 <= i < ch.len() implies (#[trigger] ch[i]).lines.len() > 0 by {
        if i < st.hunks.len() {
            assert(ch[i] == st.hunks[i]);
        }
    }
}

/// The parser's state after the lines `ys`, started from `st`.
pub open spec fn scan_from(st: DiffScan, ys: Seq<Seq<char>>) -> DiffScan
    decreases ys.len(),
{
    if ys.len() == 0 {
        st
    } else {
        scan_step(scan_from(st, ys.drop_last()), ys.last())
    }
}

proof fn lemma_scan_from_concat(st: DiffScan, ys: Seq<Seq<char>>, zs: Seq<Seq<char>>)
    ensures
        scan_from(st, ys + zs) == scan_from(scan_from(st, ys), zs),
    decreases zs.len(),
{
    if zs.len() == 0 {
        assert(ys + zs =~= ys);
    } else {
        lemma_scan_from_concat(st, ys, zs.drop_last());
        assert((ys + zs).drop_last() =~= ys + zs.drop_last());
        assert((ys + zs).last() == zs.last());
    }
}

proof fn lemma_scan_lines_split(xs: Seq<Seq<char>>, ys: Seq<Seq<char>>)
    ensures
        scan_lines(xs + ys) == scan_from(scan_lines(xs), ys),
    decreases ys.len(),
{
    if ys.len() == 0 {
        assert(xs + ys =~= xs);
    } else {
        lemma_scan_lines_split(xs, ys.drop_last());
        assert((xs + ys).drop_last() =~= xs + ys.drop_last());
        assert((xs + ys).last() == ys.last());
    }
}

/// A line that can stand in a hunk's body: it starts no file header and no hunk header.
pub open spec fn is_body_line(line: Seq<char>) -> bool {
    &&& !has_prefix(line, seq!['-', '-', '-', ' '])
    &&& !has_prefix(line, seq!['+', '+', '+', ' '])
    &&& !has_prefix(line, seq!['@', '@', ' '])
}

/// The lines of a run of hunks, each written as its header line followed by its body.
pub open spec fn hunk_lines(hs: Seq<(Seq<char>, Seq<Seq<char>>)>) -> Seq<Seq<char>>
    decreases hs.len(),
{
    if hs.len() == 0 {
        Seq::empty()
    } else {
        hunk_lines(hs.drop_last()) + seq![hs.last().0] + hs.last().1
    }
}

/// A hunk written out plainly: a `@@ ` header whose `-a,b +c,d` ranges are there, and a
/// body of at least one line that starts no header.
pub open spec fn is_plain_hunk(h: (Seq<char>, Seq<Seq<char>>)) -> bool {
    &&& has_prefix(h.0, seq!['@', '@', ' '])
    &&& header_ranges(h.0) is Some
    &&& h.1.len() > 0
    &&& forall|j: int| 0 <= j < h.1.len() ==> is_body_line(#[trigger] h.1[j])
}

/// The hunk that a header and its body describe: the ranges written in that header
/// (a missing count is 1) and the body's lines, each an addition, a removal or context.
pub open spec fn hunk_of(h: (Seq<char>, Seq<Seq<char>>)) -> DiffHunkView {
    let ranges = header_ranges(h.0)->0;
    let a = ranges.0;
    let b = ranges.1;
    DiffHunkView {
        old_start: first_or(a, 0),
        old_count: second_or(a, 1),
        new_start: first_or(b, 0),
        new_count: second_or(b, 1),
        lines: h.1.map_values(|l: Seq<char>| classify_line(l)),
    }
}

/// The hunks that a run of plainly written hunks describes, in order.
pub open spec fn hunks_of(hs: Seq<(Seq<char>, Seq<Seq<char>>)>) -> Seq<DiffHunkView> {
    hs.map_values(|h: (Seq<char>, Seq<Seq<char>>)| hunk_of(h))
}

proof fn lemma_scan_body(st: DiffScan, body: Seq<Seq<char>>)
    requires
        st.in_hunk,
        forall|j: int| 0 <= j < body.len() ==> is_body_line(#[trigger] body[j]),
    ensures
        scan_from(st, body) == (DiffScan {
            lines: st.lines + body.map_values(|l: Seq<char>| classify_line(l)),
            ..st
        }),
    decreases body.len(),
{
    if body.len() == 0 {
        assert(st.lines + body.map_values(|l: Seq<char>| classify_line(l)) =~= st.lines);
    } else {
        let pre = body.drop_last();
        assert forall|j: int| 0 <= j < pre.len() implies is_body_line(#[trigger] pre[j]) by {
            assert(pre[j] == body[j]);
        }
        lemma_scan_body(st, pre);
        let x = body.last();
        assert(is_body_line(body[body.len() - 1]));
        assert((st.lines + pre.map_values(|l: Seq<char>| classify_line(l))).push(classify_line(x))
            =~= st.lines + body.map_values(|l: Seq<char>| classify_line(l)));
    }
}

proof fn lemma_header_is_no_file_line(line: Seq<char>)
    requires
        has_prefix(line, seq!['@', '@', ' ']),
    ensures
        !has_prefix(line, seq!['-', '-', '-', ' ']),
        !has_prefix(line, seq!['+', '+', '+', ' ']),
{
    assert(line.take(3)[0] == line[0]);
    assert(seq!['@', '@', ' '][0] == '@');
    if has_prefix(line, seq!['-', '-', '-', ' ']) {
        assert(line.take(4)[0] == line[0]);
        assert(seq!['-', '-', '-', ' '][0] == '-');
    }
    if has_prefix(line, seq!['+', '+', '+', ' ']) {
        assert(line.take(4)[0] == line[0]);
        assert(seq!['+', '+', '+', ' '][0] == '+');
    }
}

proof fn lemma_scan_hunks(st0: DiffScan, hs: Seq<(Seq<char>, Seq<Seq<char>>)>)
    requires
        hs.len() > 0,
        forall|i: int| 0 <= i < hs.len() ==> is_plain_hunk(#[trigger] hs[i]),
    ensures
        scan_from(st0, hunk_lines(hs)).path == st0.path,
        scan_from(st0, hunk_lines(hs)).in_hunk,
        scan_from(st0, hunk_lines(hs)).lines.len() > 0,
        scan_from(st0, hunk_lines(hs)).hunks == closed_hunks(st0) + hunks_of(hs.drop_last()),
        current_hunk(scan_from(st0, hunk_lines(hs))) == hunk_of(hs.last()),
    decreases hs.len(),
{
    let h = hs.last();
    let pre = hs.drop_last();
    assert(is_plain_hunk(hs[hs.len() - 1]));
    let s1 = scan_from(st0, hunk_lines(pre));
    assert(hunk_lines(hs) == hunk_lines(pre) + seq![h.0] + h.1);
    lemma_scan_from_concat(st0, hunk_lines(pre) + seq![h.0], h.1);
    lemma_scan_from_concat(st0, hunk_lines(pre), seq![h.0]);
    assert(seq![h.0].drop_last() =~= Seq::<Seq<char>>::empty());
    assert(seq![h.0].last() == h.0);
    assert(scan_from(s1, Seq::<Seq<char>>::empty()) == s1);
    assert(scan_from(s1, seq![h.0]) == scan_step(s1, h.0));
    lemma_header_is_no_file_line(h.0);
    let s2 = scan_step(s1, h.0);
    assert(s2.in_hunk && s2.lines.len() == 0 && s2.path == s1.path && s2.hunks == closed_hunks(s1));
    lemma_scan_body(s2, h.1);
    let st = scan_from(st0, hunk_lines(hs));
    assert(st == scan_from(s2, h.1));
    assert(st.lines =~= h.1.map_values(|l: Seq<char>| classify_line(l)));
    assert(current_hunk(st) == hunk_of(h));
    if pre.len() == 0 {
        assert(hunk_lines(pre) =~= Seq::<Seq<char>>::empty());
        assert(s1 == st0);
        assert(closed_hunks(st0) + hunks_of(pre) =~= closed_hunks(st0));
    } else {
        assert forall|i: int| 0 <= i < pre.len() implies is_plain_hunk(#[trigger] pre[i]) by {
            assert(pre[i] == hs[i]);
        }
        lemma_scan_hunks(st0, pre);
        assert(closed_hunks(s1) == s1.hunks.push(current_hunk(s1)));
        assert(pre.drop_last().push(pre.last()) =~= pre);
        assert((closed_hunks(st0) + hunks_of(pre.drop_last())).push(hunk_of(pre.last()))
            =~= closed_hunks(st0) + hunks_of(pre));
    }
}

/// Each hunk carries the ranges of its own `@@` header and the lines below that header:
/// after a part that names the file, a run of plainly written hunks parses to the hunks
/// that part left open, followed by one hunk per header, in order, the `i`-th with the
/// ranges of the `i`-th header and the lines of the `i`-th body.
pub proof fn lemma_hunks_carry_their_own_headers(
    text: Seq<char>,
    prefix: Seq<Seq<char>>,
    hs: Seq<(Seq<char>, Seq<Seq<char>>)>,
)
    requires
        text_lines(text) == prefix + hunk_lines(hs),
        scan_lines(prefix).path.len() > 0,
        hs.len() > 0,
        forall|i: int| 0 <= i < hs.len() ==> is_plain_hunk(#[trigger] hs[i]),
    ensures
        spec_parse_unified_diff(text) == Some(
            (scan_lines(prefix).path, closed_hunks(scan_lines(prefix)) + hunks_of(hs)),
        ),
        forall|i: int|
            0 <= i < hs.len() ==> (spec_parse_unified_diff(text) matches Some(r) && r.1[closed_hunks(
                scan_lines(prefix),
            ).len() + i] == hunk_of(#[trigger] hs[i])),
{
    let st0 = scan_lines(prefix);
    lemma_scan_lines_split(prefix, hunk_lines(hs));
    lemma_scan_hunks(st0, hs);
    let st = scan_lines(text_lines(text));
    assert(st == scan_from(st0, hunk_lines(hs)));
    assert(hs.drop_last().push(hs.last()) =~= hs);
    assert(closed_hunks(st) == st.hunks.push(current_hunk(st)));
    assert(closed_hunks(st) =~= closed_hunks(st0) + hunks_of(hs));
}

/// A run of decimal digits.
pub open spec fn is_digits(s: Seq<char>) -> bool {
    s.len() > 0 && forall|i: int| 0 <= i < s.len() ==> is_digit(#[trigger] s[i])
}

/// The header `@@ -x,y +z,w @@` of a hunk.
pub open spec fn plain_header(x: Seq<char>, y: Seq<char>, z: Seq<char>, w: Seq<char>) -> Seq<char> {
    seq!['@', '@', ' ', '-'] + x + seq![','] + y + seq![' ', '+'] + z + seq![','] + w + seq![' ', '@', '@']
}

proof fn lemma_word_scan_extend(s: Seq<char>, u: Seq<char>)
    requires
        forall|i: int| 0 <= i < u.len() ==> !is_ws(#[trigger] u[i]),
    ensures
        word_scan(s + u) == (word_scan(s).0, word_scan(s).1 + u),
    decreases u.len(),
{
    if u.len() == 0 {
        assert(s + u =~= s);
        assert(word_scan(s).1 + u =~= word_scan(s).1);
    } else {
        let v = u.drop_last();
        assert forall|i: int| 0 <= i < v.len() implies !is_ws(#[trigger] v[i]) by {
            assert(v[i] == u[i]);
        }
        lemma_word_scan_extend(s, v);
        assert((s + u).drop_last() =~= s + v);
        assert((s + u).last() == u.last());
        assert(!is_ws(u[u.len() - 1]));
        assert((word_scan(s).1 + v).push(u.last()) =~= word_scan(s).1 + u);
    }
}

proof fn lemma_piece_scan_extend(s: Seq<char>, u: Seq<char>, sep: char)
    requires
        forall|i: int| 0 <= i < u.len() ==> #[trigger] u[i] != sep,
    ensures
        piece_scan(s + u, sep) == (piece_scan(s, sep).0, piece_scan(s, sep).1 + u),
    decreases u.len(),
{
    if u.len() == 0 {
        assert(s + u =~= s);
        assert(piece_scan(s, sep).1 + u =~= piece_scan(s, sep).1);
    } else {
        let v = u.drop_last();
        assert forall|i: int| 0 <= i < v.len() implies #[trigger] v[i] != sep by {
            assert(v[i] == u[i]);
        }
        lemma_piece_scan_extend(s, v, sep);
        assert((s + u).drop_last() =~= s + v);
        assert((s + u).last() == u.last());
        assert(u[u.len() - 1] != sep);
        assert((piece_scan(s, sep).1 + v).push(u.last()) =~= piece_scan(s, sep).1 + u);
    }
}

/// `x,y` splits at its comma into the two runs of digits, which parse to their numbers.
proof fn lemma_range_numbers(x: Seq<char>, y: Seq<char>, a: u32, b: u32)
    requires
        is_digits(x),
        is_digits(y),
        spec_parse_u32(x) == Some(a),
        spec_parse_u32(y) == Some(b),
    ensures
        parsed_numbers(pieces(x + seq![','] + y, ',')) == seq![a, b],
{
    let e = Seq::<char>::empty();
    assert forall|i: int| 0 <= i < x.len() implies #[trigger] x[i] != ',' by {
        assert(is_digit(x[i]));
    }
    assert forall|i: int| 0 <= i < y.len() implies #[trigger] y[i] != ',' by {
        assert(is_digit(y[i]));
    }
    lemma_piece_scan_extend(e, x, ',');
    assert(e + x =~= x);
    assert(piece_scan(e, ',') == (Seq::<Seq<char>>::empty(), e));
    assert(e + x =~= x);
    let xc = x + seq![','];
    assert(xc.drop_last() =~= x);
    assert(piece_scan(xc, ',') == (seq![x], e));
    lemma_piece_scan_extend(xc, y, ',');
    assert(e + y =~= y);
    let ps = pieces(x + seq![','] + y, ',');
    assert(ps =~= seq![x, y]);
    assert(seq![x, y].drop_last() =~= seq![x]);
    assert(seq![x].drop_last() =~= Seq::<Seq<char>>::empty());
    assert(parsed_numbers(Seq::<Seq<char>>::empty()) =~= Seq::<u32>::empty());
    assert(seq![x].last() == x);
    assert(seq![x, y].last() == y);
    assert(parsed_numbers(seq![x]) =~= seq![a]);
    assert(parsed_numbers(seq![x, y]) =~= seq![a, b]);
}

/// `sx,y` with a sign `s` and runs of digits holds no white space.
proof fn lemma_range_has_no_space(sign: char, x: Seq<char>, y: Seq<char>)
    requires
        sign == '-' || sign == '+',
        is_digits(x),
        is_digits(y),
    ensures
        forall|i: int|
            0 <= i < (seq![sign] + x + seq![','] + y).len() ==> !is_ws(#[trigger] (seq![sign] + x + seq![','] + y)[i]),
{
    let p = seq![sign] + x + seq![','] + y;
    assert forall|i: int| 0 <= i < p.len() implies !is_ws(#[trigger] p[i]) by {
        if 1 <= i < 1 + x.len() {
            assert(p[i] == x[i - 1] && is_digit(x[i - 1]));
        } else if 2 + x.len() <= i {
            assert(p[i] == y[i - 2 - x.len()] && is_digit(y[i - 2 - x.len()]));
        }
    }
}

/// Two runs without white space, one space between them, are two words.
proof fn lemma_two_words(p1: Seq<char>, p2: Seq<char>)
    requires
        p1.len() > 0,
        p2.len() > 0,
        forall|i: int| 0 <= i < p1.len() ==> !is_ws(#[trigger] p1[i]),
        forall|i: int| 0 <= i < p2.len() ==> !is_ws(#[trigger] p2[i]),
    ensures
        words(p1 + seq![' '] + p2) == seq![p1, p2],
{
    let e = Seq::<char>::empty();
    lemma_word_scan_extend(e, p1);
    assert(e + p1 =~= p1);
    assert(word_scan(e) == (Seq::<Seq<char>>::empty(), e));
    let p1s = p1 + seq![' '];
    assert(p1s.drop_last() =~= p1);
    assert(p1s.last() == ' ');
    assert(word_scan(p1s) == (seq![p1], e));
    lemma_word_scan_extend(p1s, p2);
    assert(e + p2 =~= p2);
    assert(words(p1 + seq![' '] + p2) =~= seq![p1, p2]);
}

/// The text of a header `@@ -x,y +z,w @@` between the markers.
proof fn lemma_plain_header_body(x: Seq<char>, y: Seq<char>, z: Seq<char>, w: Seq<char>)
    ensures
        has_prefix(plain_header(x, y, z, w), seq!['@', '@', ' ']),
        header_body(plain_header(x, y, z, w)) == (seq!['-'] + x + seq![','] + y) + seq![' '] + (seq!['+'] + z
            + seq![','] + w),
{
    let h = plain_header(x, y, z, w);
    let p1 = seq!['-'] + x + seq![','] + y;
    let p2 = seq!['+'] + z + seq![','] + w;
    let body = p1 + seq![' '] + p2;
    let t = body + seq![' ', '@', '@'];
    assert(h =~= seq!['@', '@', ' '] + t);
    assert(h.take(3) =~= seq!['@', '@', ' ']);
    assert(h.skip(3) =~= t);
    assert(t.last() == '@');
    assert(trim_end(t) == t);
    assert(t.skip(t.len() - 3) =~= seq![' ', '@', '@']);
    assert(t.take(t.len() - 3) =~= body);
}

/// A header written `@@ -x,y +z,w @@` with runs of digits gives the numbers of those
/// digits: `x,y` for the old side and `z,w` for the new.
pub proof fn lemma_plain_header_ranges(
    x: Seq<char>,
    y: Seq<char>,
    z: Seq<char>,
    w: Seq<char>,
    a: u32,
    b: u32,
    c: u32,
    d: u32,
)
    requires
        is_digits(x),
        is_digits(y),
        is_digits(z),
        is_digits(w),
        spec_parse_u32(x) == Some(a),
        spec_parse_u32(y) == Some(b),
        spec_parse_u32(z) == Some(c),
        spec_parse_u32(w) == Some(d),
    ensures
        has_prefix(plain_header(x, y, z, w), seq!['@', '@', ' ']),
        header_ranges(plain_header(x, y, z, w)) == Some((seq![a, b], seq![c, d])),
{
    let p1 = seq!['-'] + x + seq![','] + y;
    let p2 = seq!['+'] + z + seq![','] + w;
    lemma_plain_header_body(x, y, z, w);
    lemma_range_has_no_space('-', x, y);
    lemma_range_has_no_space('+', z, w);
    lemma_two_words(p1, p2);
    let parts = words(header_body(plain_header(x, y, z, w)));
    assert(parts == seq![p1, p2]);
    assert(parts[0] == p1 && parts[1] == p2);
    assert(p1.take(1) =~= seq!['-']);
    assert(p2.take(1) =~= seq!['+']);
    assert(p1.drop_first() =~= x + seq![','] + y);
    assert(p2.drop_first() =~= z + seq![','] + w);
    lemma_range_numbers(x, y, a, b);
    lemma_range_numbers(z, w, c, d);
}

/// A hunk written with the header `@@ -x,y +z,w @@` over a body of lines that start no
/// header is written plainly, and describes old start `x`, old count `y`, new start `z`
/// and new count `w`.
pub proof fn lemma_plain_hunk_ranges(
    x: Seq<char>,
    y: Seq<char>,
    z: Seq<char>,
    w: Seq<char>,
    a: u32,
    b: u32,
    c: u32,
    d: u32,
    body: Seq<Seq<char>>,
)
    requires
        is_digits(x),
        is_digits(y),
        is_digits(z),
        is_digits(w),
        spec_parse_u32(x) == Some(a),
        spec_parse_u32(y) == Some(b),
        spec_parse_u32(z) == Some(c),
        spec_parse_u32(w) == Some(d),
        body.len() > 0,
        forall|j: int| 0 <= j < body.len() ==> is_body_line(#[trigger] body[j]),
    ensures
        is_plain_hunk((plain_header(x, y, z, w), body)),
        hunk_of((plain_header(x, y, z, w), body)).old_start == a,
        hunk_of((plain_header(x, y, z, w), body)).old_count == b,
        hunk_of((plain_header(x, y, z, w), body)).new_start == c,
        hunk_of((plain_header(x, y, z, w), body)).new_count == d,
{
    lemma_plain_header_ranges(x, y, z, w, a, b, c, d);
}

/// In a hunk's body a line that starts with `+` is an addition and one that starts with
/// `-` a removal, the marker taken off (unless the marker is tripled), and any other line
/// is context, kept whole.
pub proof fn lemma_hunk_line_kinds(t: Seq<char>)
    ensures
        !has_prefix(t, seq!['+', '+']) ==> classify_line(seq!['+'] + t) == DiffLineView::Add(t),
        !has_prefix(t, seq!['-', '-']) ==> classify_line(seq!['-'] + t) == DiffLineView::Remove(t),
        (t.len() == 0 || (t[0] != '+' && t[0] != '-')) ==> classify_line(t) == DiffLineView::Context(t),
{
    let pa = seq!['+'] + t;
    let pr = seq!['-'] + t;
    assert(pa.take(1) =~= seq!['+']);
    assert(pr.take(1) =~= seq!['-']);
    assert(pa.drop_first() =~= t);
    assert(pr.drop_first() =~= t);
    if has_prefix(pa, seq!['+', '+', '+']) {
        assert(pa.take(3).skip(1) =~= t.take(2));
        assert(seq!['+', '+', '+'].skip(1) =~= seq!['+', '+']);
    }
    if has_prefix(pr, seq!['+']) {
        assert(pr.take(1)[0] == pr[0]);
        assert(pr[0] == '-');
    }
    if has_prefix(pr, seq!['-', '-', '-']) {
        assert(pr.take(3).skip(1) =~= t.take(2));
        assert(seq!['-', '-', '-'].skip(1) =~= seq!['-', '-']);
    }
    if t.len() > 0 && t[0] != '+' && t[0] != '-' {
        if has_prefix(t, seq!['+']) {
            assert(t.take(1)[0] == t[0]);
        }
        if has_prefix(t, seq!['-']) {
            assert(t.take(1)[0] == t[0]);
        }
    }
}

} // verus!
