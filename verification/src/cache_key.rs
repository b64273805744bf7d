//! The cache key of the content area's rows: a hash, with the standard library's
//! default hasher, of the theme and of everything in the history that its lines show
//! (record ids are left out: they do not change what is drawn).
use vstd::prelude::*;
use vstd::string::StringSliceAdditionalSpecFns;
use vstd::utf8::{encode_utf8, encode_utf8_decode_utf8};
use std::collections::hash_map::DefaultHasher;
use std::hash::Hasher;
use vstd::std_specs::hash::DefaultHasherAdditionalSpecFns;

use crate::content_render::Theme;
use crate::history::events::{hunk_views, DiffHunk, DiffHunkView, DiffLine, DiffLineView, line_views};
use crate::history::laws::record_kind;
use crate::history::state::{record_views, HistoryRecord, RecordView};

verus! {

/// The `k` low bytes of `n`, least significant first.
pub open spec fn le_bytes(n: nat, k: nat) -> Seq<u8>
    decreases k,
{
    if k == 0 {
        Seq::empty()
    } else {
        seq![(n % 256) as u8] + le_bytes(n / 256, (k - 1) as nat)
    }
}

/// A discriminant or a count, as eight bytes.
pub open spec fn word_chunk(n: nat) -> Seq<u8> {
    le_bytes(n, 8)
}

/// A 32-bit number, as four bytes.
pub open spec fn u32_chunk(n: u32) -> Seq<u8> {
    le_bytes(n as nat, 4)
}

/// A flag, as one byte.
pub open spec fn flag_chunk(b: bool) -> Seq<u8> {
    seq![if b {
        1u8
    } else {
        0u8
    }]
}

/// A text: its UTF-8 bytes, then the byte `0xff` that ends it.
pub open spec fn text_chunks(s: Seq<char>) -> Seq<Seq<u8>> {
    seq![encode_utf8(s), seq![0xffu8]]
}

/// The number that tells a theme apart.
pub open spec fn theme_tag(t: Theme) -> nat {
    match t {
        Theme::Dark => 0,
        Theme::Light => 1,
        Theme::Ansi => 2,
    }
}

/// What a diff line contributes: its kind, then its text.
pub open spec fn diff_line_feed(l: DiffLineView) -> Seq<Seq<u8>> {
    match l {
        DiffLineView::Context(s) => seq![word_chunk(0)] + text_chunks(s),
        DiffLineView::Add(s) => seq![word_chunk(1)] + text_chunks(s),
        DiffLineView::Remove(s) => seq![word_chunk(2)] + text_chunks(s),
    }
}

/// What the lines of a hunk contribute, in order.
pub open spec fn diff_lines_feed(ls: Seq<DiffLineView>) -> Seq<Seq<u8>>
    decreases ls.len(),
{
    if ls.len() == 0 {
        Seq::empty()
    } else {
        diff_lines_feed(ls.drop_last()) + diff_line_feed(ls.last())
    }
}

/// What a hunk contributes: its four range numbers, then its lines.
pub open spec fn hunk_feed(h: DiffHunkView) -> Seq<Seq<u8>> {
    seq![u32_chunk(h.old_start), u32_chunk(h.old_count), u32_chunk(h.new_start), u32_chunk(h.new_count)]
        + diff_lines_feed(h.lines)
}

/// What the hunks of a diff contribute, in order.
pub open spec fn hunks_feed(hs: Seq<DiffHunkView>) -> Seq<Seq<u8>>
    decreases hs.len(),
{
    if hs.len() == 0 {
        Seq::empty()
    } else {
        hunks_feed(hs.drop_last()) + hunk_feed(hs.last())
    }
}

/// What a record contributes: its kind, then the fields its lines show.
pub open spec fn record_feed(r: RecordView) -> Seq<Seq<u8>> {
    match r {
        RecordView::UserMessage { text, .. } => seq![word_chunk(0)] + text_chunks(text),
        RecordView::AssistantContent { text, streaming, .. } => seq![word_chunk(1)] + text_chunks(text)
            + seq![flag_chunk(streaming)],
        RecordView::ToolCall { tool_name, args_preview, .. } => seq![word_chunk(2)] + text_chunks(
            tool_name,
        ) + text_chunks(args_preview),
        RecordView::ToolResult { tool_name, result_preview, is_error, .. } => seq![word_chunk(3)]
            + text_chunks(tool_name) + text_chunks(result_preview) + seq![flag_chunk(is_error)],
        RecordView::Thinking { message, .. } => seq![word_chunk(4)] + text_chunks(message),
        RecordView::ActionRequired { message, .. } => seq![word_chunk(5)] + text_chunks(message),
        RecordView::Diff { path, hunks, .. } => seq![word_chunk(6)] + text_chunks(path) + hunks_feed(
            hunks,
        ),
    }
}

/// What the records contribute, in order.
pub open spec fn records_feed(rs: Seq<RecordView>) -> Seq<Seq<u8>>
    decreases rs.len(),
{
    if rs.len() == 0 {
        Seq::empty()
    } else {
        records_feed(rs.drop_last()) + record_feed(rs.last())
    }
}

/// Everything the key is hashed from: the theme, the number of records, then each
/// record.
pub open spec fn cache_feed(rs: Seq<RecordView>, theme: Theme) -> Seq<Seq<u8>> {
    seq![word_chunk(theme_tag(theme)), word_chunk(rs.len())] + records_feed(rs)
}

/// The key of the rows drawn for these records under this theme.
pub open spec fn spec_history_cache_key(rs: Seq<RecordView>, theme: Theme) -> u64 {
    DefaultHasher::spec_finish(cache_feed(rs, theme))
}

/// Feeds the `k` low bytes of `n` to the hasher.
fn write_number(h: &mut DefaultHasher, n: u64, k: usize)
    ensures
        final(h)@ == old(h)@.push(le_bytes(n as nat, k as nat)),
{
    let mut bytes: Vec<u8> = Vec::new();
    let mut x: u64 = n;
    let mut i: usize = 0;
    while i < k
        invariant
            i <= k,
            bytes@ + le_bytes(x as nat, (k - i) as nat) == le_bytes(n as nat, k as nat),
        decreases k - i,
    {
        let b = (x % 256) as u8;
        let ghost before = bytes@;
        bytes.push(b);
        assert(le_bytes(x as nat, (k - i) as nat) == seq![b] + le_bytes((x / 256) as nat, (k - i - 1) as nat));
        assert(bytes@ + le_bytes((x / 256) as nat, (k - i - 1) as nat) =~= before + le_bytes(x as nat, (k - i) as nat));
        x = x / 256;
        i += 1;
    }
    assert(bytes@ =~= le_bytes(n as nat, k as nat));
    h.write(bytes.as_slice());
}

/// Feeds a flag to the hasher.
fn write_flag(h: &mut DefaultHasher, b: bool)
    ensures
        final(h)@ == old(h)@.push(flag_chunk(b)),
{
    let mut bytes: Vec<u8> = Vec::new();
    bytes.push(if b {
        1u8
    } else {
        0u8
    });
    assert(bytes@ =~= flag_chunk(b));
    h.write(bytes.as_slice());
}

/// Feeds a text to the hasher.
fn write_text(h: &mut DefaultHasher, s: &str)
    ensures
        final(h)@ == old(h)@ + text_chunks(s@),
{
    h.write(s.as_bytes());
    let mut end: Vec<u8> = Vec::new();
    end.push(0xffu8);
    h.write(end.as_slice());
    assert(final(h)@ =~= old(h)@ + text_chunks(s@));
}

/// Feeds the lines of a hunk to the hasher.
fn write_diff_lines(h: &mut DefaultHasher, lines: &Vec<DiffLine>)
    ensures
        final(h)@ == old(h)@ + diff_lines_feed(line_views(lines@)),
{
    let ghost start = h@;
    let ghost lv = line_views(lines@);
    let mut i: usize = 0;
    while i < lines.len()
        invariant
            i <= lines@.len(),
            lv == line_views(lines@),
            h@ == start + diff_lines_feed(lv.take(i as int)),
        decreases lines.len() - i,
    {
        assert(lv.take(i + 1).drop_last() =~= lv.take(i as int));
        assert(lv.take(i + 1).last() == lines@[i as int]@);
        let ghost before = h@;
        match &lines[i] {
            DiffLine::Context(s) => {
                write_number(h, 0, 8);
                write_text(h, s.as_str());
            },
            DiffLine::Add(s) => {
                write_number(h, 1, 8);
                write_text(h, s.as_str());
            },
            DiffLine::Remove(s) => {
                write_number(h, 2, 8);
                write_text(h, s.as_str());
            },
        }
        assert(h@ =~= before + diff_line_feed(lines@[i as int]@));
        i += 1;
    }
    assert(lv.take(lines@.len() as int) =~= lv);
}

/// Feeds the hunks of a diff to the hasher.
fn write_hunks(h: &mut DefaultHasher, hunks: &Vec<DiffHunk>)
    ensures
        final(h)@ == old(h)@ + hunks_feed(hunk_views(hunks@)),
{
    let ghost start = h@;
    let ghost hv = hunk_views(hunks@);
    let mut i: usize = 0;
    while i < hunks.len()
        invariant
            i <= hunks@.len(),
            hv == hunk_views(hunks@),
            h@ == start + hunks_feed(hv.take(i as int)),
        decreases hunks.len() - i,
    {
        assert(hv.take(i + 1).drop_last() =~= hv.take(i as int));
        assert(hv.take(i + 1).last() == hunks@[i as int]@);
        let ghost before = h@;
        let hunk = &hunks[i];
        write_number(h, hunk.old_start as u64, 4);
        write_number(h, hunk.old_count as u64, 4);
        write_number(h, hunk.new_start as u64, 4);
        write_number(h, hunk.new_count as u64, 4);
        write_diff_lines(h, &hunk.lines);
        assert(h@ =~= before + hunk_feed(hunks@[i as int]@));
        i += 1;
    }
    assert(hv.take(hunks@.len() as int) =~= hv);
}

/// Feeds a record to the hasher.
fn write_record(h: &mut DefaultHasher, r: &HistoryRecord)
    ensures
        final(h)@ == old(h)@ + record_feed(r@),
{
    let ghost before = h@;
    match r {
        HistoryRecord::UserMessage { text, .. } => {
            write_number(h, 0, 8);
            write_text(h, text.as_str());
        },
        HistoryRecord::AssistantContent { text, streaming, .. } => {
            write_number(h, 1, 8);
            write_text(h, text.as_str());
            write_flag(h, *streaming);
        },
        HistoryRecord::ToolCall { tool_name, args_preview, .. } => {
            write_number(h, 2, 8);
            write_text(h, tool_name.as_str());
            write_text(h, args_preview.as_str());
        },
        HistoryRecord::ToolResult { tool_name, result_preview, is_error, .. } => {
            write_number(h, 3, 8);
            write_text(h, tool_name.as_str());
            write_text(h, result_preview.as_str());
            write_flag(h, *is_error);
        },
        HistoryRecord::Thinking { message, .. } => {
            write_number(h, 4, 8);
            write_text(h, message.as_str());
        },
        HistoryRecord::ActionRequired { message, .. } => {
            write_number(h, 5, 8);
            write_text(h, message.as_str());
        },
        HistoryRecord::Diff { path, hunks, .. } => {
            write_number(h, 6, 8);
            write_text(h, path.as_str());
            write_hunks(h, hunks);
        },
    }
    assert(h@ =~= before + record_feed(r@));
}

/// The cache key of the content rows for these records under this theme: the default
/// hasher's digest of the theme, the number of records and each record's shown fields.
pub fn history_cache_key(records: &[HistoryRecord], theme: Theme) -> (key: u64)
    ensures
        key == spec_history_cache_key(record_views(records@), theme),
{
    let mut h = DefaultHasher::new();
    let tag: u64 = match theme {
        Theme::Dark => 0,
        Theme::Light => 1,
        Theme::Ansi => 2,
    };
    write_number(&mut h, tag, 8);
    write_number(&mut h, records.len() as u64, 8);
    let ghost start = h@;
    let ghost rv = record_views(records@);
    let mut i: usize = 0;
    while i < records.len()
        invariant
            i <= records@.len(),
            rv == record_views(records@),
            h@ == start + records_feed(rv.take(i as int)),
        decreases records.len() - i,
    {
        assert(rv.take(i + 1).drop_last() =~= rv.take(i as int));
        assert(rv.take(i + 1).last() == records@[i as int]@);
        write_record(&mut h, &records[i]);
        i += 1;
    }
    assert(rv.take(records@.len() as int) =~= rv);
    assert(h@ =~= cache_feed(rv, theme));
    h.finish()
}

/// Two records show the same: same kind, same fields, whatever their ids.
pub open spec fn same_shown(a: RecordView, b: RecordView) -> bool {
    match (a, b) {
        (RecordView::UserMessage { text: x, .. }, RecordView::UserMessage { text: y, .. }) => x == y,
        (
            RecordView::AssistantContent { text: x, streaming: f, .. },
            RecordView::AssistantContent { text: y, streaming: g, .. },
        ) => x == y && f == g,
        (
            RecordView::ToolCall { tool_name: n, args_preview: x, .. },
            RecordView::ToolCall { tool_name: m, args_preview: y, .. },
        ) => n == m && x == y,
        (
            RecordView::ToolResult { tool_name: n, result_preview: x, is_error: e, .. },
            RecordView::ToolResult { tool_name: m, result_preview: y, is_error: f, .. },
        ) => n == m && x == y && e == f,
        (RecordView::Thinking { message: x, .. }, RecordView::Thinking { message: y, .. }) => x == y,
        (RecordView::ActionRequired { message: x, .. }, RecordView::ActionRequired { message: y, .. }) => x == y,
        (RecordView::Diff { path: p, hunks: h, .. }, RecordView::Diff { path: q, hunks: k, .. }) => p == q && h == k,
        _ => false,
    }
}

/// The key depends on what the records show, not on their ids: histories whose records
/// show the same, one for one, get the same key under the same theme.
pub proof fn lemma_cache_key_ignores_ids(a: Seq<RecordView>, b: Seq<RecordView>, theme: Theme)
    requires
        a.len() == b.len(),
        forall|i: int| 0 <= i < a.len() ==> same_shown(#[trigger] a[i], b[i]),
    ensures
        spec_history_cache_key(a, theme) == spec_history_cache_key(b, theme),
{
    lemma_records_feed_ignores_ids(a, b);
}

/// Records that show the same feed the same bytes.
proof fn lemma_records_feed_ignores_ids(a: Seq<RecordView>, b: Seq<RecordView>)
    requires
        a.len() == b.len(),
        forall|i: int| 0 <= i < a.len() ==> same_shown(#[trigger] a[i], b[i]),
    ensures
        records_feed(a) == records_feed(b),
    decreases a.len(),
{
    if a.len() > 0 {
        assert forall|i: int| 0 <= i < a.drop_last().len() implies same_shown(#[trigger] a.drop_last()[i], b.drop_last()[i]) by {
            assert(a.drop_last()[i] == a[i]);
            assert(b.drop_last()[i] == b[i]);
        }
        lemma_records_feed_ignores_ids(a.drop_last(), b.drop_last());
        assert(same_shown(a[a.len() - 1], b[b.len() - 1]));
        assert(record_feed(a.last()) == record_feed(b.last()));
    }
}

proof fn lemma_le_bytes_len(n: nat, k: nat)
    ensures
        le_bytes(n, k).len() == k,
    decreases k,
{
    if k > 0 {
        lemma_le_bytes_len(n / 256, (k - 1) as nat);
    }
}

/// A small number's word is eight bytes, the first of them the number itself.
proof fn lemma_word_chunk(n: nat)
    requires
        n < 256,
    ensures
        word_chunk(n).len() == 8,
        word_chunk(n)[0] == n,
{
    lemma_le_bytes_len(n / 256, 7);
}

proof fn lemma_u32_chunk_injective(m: u32, n: u32)
    requires
        u32_chunk(m) == u32_chunk(n),
    ensures
        m == n,
{
    reveal_with_fuel(le_bytes, 5);
    let cm = u32_chunk(m);
    let cn = u32_chunk(n);
    let m0 = m as nat;
    let m1 = m0 / 256;
    let m2 = m1 / 256;
    let m3 = m2 / 256;
    let n0 = n as nat;
    let n1 = n0 / 256;
    let n2 = n1 / 256;
    let n3 = n2 / 256;
    assert(cm =~= seq![(m0 % 256) as u8, (m1 % 256) as u8, (m2 % 256) as u8, (m3 % 256) as u8]);
    assert(cn =~= seq![(n0 % 256) as u8, (n1 % 256) as u8, (n2 % 256) as u8, (n3 % 256) as u8]);
    assert(cm[0] == cn[0] && cm[1] == cn[1] && cm[2] == cn[2] && cm[3] == cn[3]);
    assert(m0 % 256 == n0 % 256);
    assert(m1 % 256 == n1 % 256);
    assert(m2 % 256 == n2 % 256);
    assert(m3 % 256 == n3 % 256);
    assert(m % 256 == n % 256);
    assert((m / 256) % 256 == (n / 256) % 256);
    assert(((m / 256) / 256) % 256 == ((n / 256) / 256) % 256);
    assert((((m / 256) / 256) / 256) % 256 == (((n / 256) / 256) / 256) % 256);
    assert(m == n) by (bit_vector)
        requires
            m % 256 == n % 256,
            (m / 256) % 256 == (n / 256) % 256,
            ((m / 256) / 256) % 256 == ((n / 256) / 256) % 256,
            (((m / 256) / 256) / 256) % 256 == (((n / 256) / 256) / 256) % 256,
    ;
}

proof fn lemma_text_injective(s: Seq<char>, t: Seq<char>)
    requires
        encode_utf8(s) == encode_utf8(t),
    ensures
        s == t,
{
    encode_utf8_decode_utf8(s);
    encode_utf8_decode_utf8(t);
}

/// Equal sequences that start with equal parts go on equally.
proof fn lemma_rest_equal(p1: Seq<Seq<u8>>, r1: Seq<Seq<u8>>, p2: Seq<Seq<u8>>, r2: Seq<Seq<u8>>)
    requires
        p1 + r1 == p2 + r2,
        p1 == p2,
    ensures
        r1 == r2,
{
    assert((p1 + r1).skip(p1.len() as int) =~= r1);
    assert((p2 + r2).skip(p2.len() as int) =~= r2);
}

proof fn lemma_lines_feed_front(ls: Seq<DiffLineView>)
    requires
        ls.len() > 0,
    ensures
        diff_lines_feed(ls) == diff_line_feed(ls[0]) + diff_lines_feed(ls.drop_first()),
    decreases ls.len(),
{
    if ls.len() == 1 {
        assert(ls.drop_last() =~= Seq::<DiffLineView>::empty());
        assert(ls.drop_first() =~= Seq::<DiffLineView>::empty());
        assert(diff_line_feed(ls[0]) + Seq::<Seq<u8>>::empty() =~= diff_line_feed(ls[0]));
    } else {
        lemma_lines_feed_front(ls.drop_last());
        assert(ls.drop_last().drop_first() =~= ls.drop_first().drop_last());
        assert(ls.drop_last()[0] == ls[0]);
        assert(ls.drop_first().last() == ls.last());
        assert(diff_line_feed(ls[0]) + diff_lines_feed(ls.drop_last().drop_first()) + diff_line_feed(ls.last())
            =~= diff_line_feed(ls[0]) + (diff_lines_feed(ls.drop_first().drop_last()) + diff_line_feed(
            ls.drop_first().last(),
        )));
    }
}

proof fn lemma_hunks_feed_front(hs: Seq<DiffHunkView>)
    requires
        hs.len() > 0,
    ensures
        hunks_feed(hs) == hunk_feed(hs[0]) + hunks_feed(hs.drop_first()),
    decreases hs.len(),
{
    if hs.len() == 1 {
        assert(hs.drop_last() =~= Seq::<DiffHunkView>::empty());
        assert(hs.drop_first() =~= Seq::<DiffHunkView>::empty());
        assert(hunk_feed(hs[0]) + Seq::<Seq<u8>>::empty() =~= hunk_feed(hs[0]));
    } else {
        lemma_hunks_feed_front(hs.drop_last());
        assert(hs.drop_last().drop_first() =~= hs.drop_first().drop_last());
        assert(hs.drop_last()[0] == hs[0]);
        assert(hs.drop_first().last() == hs.last());
        assert(hunk_feed(hs[0]) + hunks_feed(hs.drop_last().drop_first()) + hunk_feed(hs.last())
            =~= hunk_feed(hs[0]) + (hunks_feed(hs.drop_first().drop_last()) + hunk_feed(
            hs.drop_first().last(),
        )));
    }
}

proof fn lemma_records_feed_front(rs: Seq<RecordView>)
    requires
        rs.len() > 0,
    ensures
        records_feed(rs) == record_feed(rs[0]) + records_feed(rs.drop_first()),
    decreases rs.len(),
{
    if rs.len() == 1 {
        assert(rs.drop_last() =~= Seq::<RecordView>::empty());
        assert(rs.drop_first() =~= Seq::<RecordView>::empty());
        assert(record_feed(rs[0]) + Seq::<Seq<u8>>::empty() =~= record_feed(rs[0]));
    } else {
        lemma_records_feed_front(rs.drop_last());
        assert(rs.drop_last().drop_first() =~= rs.drop_first().drop_last());
        assert(rs.drop_last()[0] == rs[0]);
        assert(rs.drop_first().last() == rs.last());
        assert(record_feed(rs[0]) + records_feed(rs.drop_last().drop_first()) + record_feed(rs.last())
            =~= record_feed(rs[0]) + (records_feed(rs.drop_first().drop_last()) + record_feed(
            rs.drop_first().last(),
        )));
    }
}

/// The discriminant a diff line is fed with.
spec fn line_tag(l: DiffLineView) -> nat {
    match l {
        DiffLineView::Context(_) => 0,
        DiffLineView::Add(_) => 1,
        DiffLineView::Remove(_) => 2,
    }
}

/// A diff line's text.
spec fn line_text(l: DiffLineView) -> Seq<char> {
    match l {
        DiffLineView::Context(s) => s,
        DiffLineView::Add(s) => s,
        DiffLineView::Remove(s) => s,
    }
}

proof fn lemma_line_feed_shape(l: DiffLineView)
    ensures
        diff_line_feed(l) == seq![word_chunk(line_tag(l))] + text_chunks(line_text(l)),
        diff_line_feed(l).len() == 3,
        diff_line_feed(l)[0].len() == 8,
        diff_line_feed(l)[0][0] == line_tag(l),
        line_tag(l) <= 2,
        diff_line_feed(l)[1] == encode_utf8(line_text(l)),
{
    lemma_word_chunk(line_tag(l));
}

proof fn lemma_line_feed_prefix(x: DiffLineView, y: DiffLineView, r1: Seq<Seq<u8>>, r2: Seq<Seq<u8>>)
    requires
        diff_line_feed(x) + r1 == diff_line_feed(y) + r2,
    ensures
        x == y,
        r1 == r2,
{
    lemma_line_feed_shape(x);
    lemma_line_feed_shape(y);
    let s = diff_line_feed(x) + r1;
    assert(s[0] == diff_line_feed(x)[0] && s[1] == diff_line_feed(x)[1]);
    assert(s[0] == diff_line_feed(y)[0] && s[1] == diff_line_feed(y)[1]);
    assert(line_tag(x) == line_tag(y));
    lemma_text_injective(line_text(x), line_text(y));
    assert(x == y);
    lemma_rest_equal(diff_line_feed(x), r1, diff_line_feed(y), r2);
}

/// What may come right after the lines of a hunk: what may come after the hunks, or
/// another hunk (its first two ranges, four bytes each).
spec fn after_lines_ok(t: Seq<Seq<u8>>) -> bool {
    after_hunks_ok(t) || (t.len() >= 2 && t[0].len() == 4 && t[1].len() == 4)
}

/// What may come right after the hunks of a diff: nothing, or the start of a record
/// that is no user message (a word, then a text, then the record's further chunks).
#[verifier::opaque]
spec fn after_hunks_ok(f: Seq<Seq<u8>>) -> bool {
    ||| f.len() == 0
    ||| (f.len() >= 3 && f[0].len() == 8 && f[0][0] >= 3 && f[1] != seq![0xffu8])
    ||| (f.len() >= 4 && f[0] == word_chunk(1) && f[1] != seq![0xffu8] && f[3].len() == 1)
    ||| (f.len() >= 5 && f[0] == word_chunk(2) && f[1] != seq![0xffu8] && f[4] == seq![0xffu8])
}

/// No text's bytes are the single byte that ends a text.
proof fn lemma_text_is_not_end(t: Seq<char>)
    ensures
        encode_utf8(t) != seq![0xffu8],
{
    vstd::utf8::encode_utf8_valid_utf8(t);
    if encode_utf8(t) == seq![0xffu8] {
        let b = seq![0xffu8];
        assert(vstd::utf8::valid_utf8(b));
        assert(vstd::utf8::valid_first_scalar(b));
        assert(b[0] == 0xffu8);
    }
}

/// What follows a diff line: nothing, or a chunk of four or eight bytes and then
/// something other than the end of a text.
proof fn lemma_after_line(ls: Seq<DiffLineView>, t: Seq<Seq<u8>>)
    requires
        after_lines_ok(t),
    ensures
        (diff_lines_feed(ls) + t).len() == 0 || ((diff_lines_feed(ls) + t).len() >= 2 && ((diff_lines_feed(ls)
            + t)[0].len() == 4 || (diff_lines_feed(ls) + t)[0].len() == 8) && (diff_lines_feed(ls) + t)[1]
            != seq![0xffu8]),
{
    reveal(after_hunks_ok);
    if ls.len() > 0 {
        lemma_lines_feed_front(ls);
        lemma_line_feed_shape(ls[0]);
        lemma_text_is_not_end(line_text(ls[0]));
        let u = diff_lines_feed(ls) + t;
        assert(u =~= diff_line_feed(ls[0]) + (diff_lines_feed(ls.drop_first()) + t));
        assert(u[0] == diff_line_feed(ls[0])[0] && u[1] == diff_line_feed(ls[0])[1]);
    } else {
        assert(diff_lines_feed(ls) + t =~= t);
        lemma_word_chunk(1);
        lemma_word_chunk(2);
    }
}

/// Lines with something after them never read as no lines before what may follow them.
proof fn lemma_lines_empty_side(l: Seq<DiffLineView>, t: Seq<Seq<u8>>, other: Seq<Seq<u8>>)
    requires
        l.len() > 0,
        after_lines_ok(t),
        after_lines_ok(other),
    ensures
        diff_lines_feed(Seq::<DiffLineView>::empty()) + other != diff_lines_feed(l) + t,
{
    assert(diff_lines_feed(Seq::<DiffLineView>::empty()) + other =~= other);
    lemma_lines_feed_front(l);
    lemma_line_feed_shape(l[0]);
    lemma_after_line(l.drop_first(), t);
    lemma_word_chunk(1);
    lemma_word_chunk(2);
    reveal(after_hunks_ok);
    let u = diff_lines_feed(l.drop_first()) + t;
    let s = diff_lines_feed(l) + t;
    assert(s =~= diff_line_feed(l[0]) + u);
    assert(s[0] == diff_line_feed(l[0])[0]);
    if u.len() > 0 {
        assert(s[3] == u[0]);
    }
    if u.len() >= 2 {
        assert(s[4] == u[1]);
    }
}

proof fn lemma_lines_prefix(l1: Seq<DiffLineView>, l2: Seq<DiffLineView>, t1: Seq<Seq<u8>>, t2: Seq<Seq<u8>>)
    requires
        diff_lines_feed(l1) + t1 == diff_lines_feed(l2) + t2,
        after_lines_ok(t1),
        after_lines_ok(t2),
    ensures
        l1 == l2,
        t1 == t2,
    decreases l1.len() + l2.len(),
{
    if l1.len() == 0 && l2.len() == 0 {
        assert(diff_lines_feed(l1) + t1 =~= t1);
        assert(diff_lines_feed(l2) + t2 =~= t2);
        assert(l1 =~= l2);
    } else if l1.len() == 0 {
        assert(l1 =~= Seq::<DiffLineView>::empty());
        lemma_lines_empty_side(l2, t2, t1);
    } else if l2.len() == 0 {
        assert(l2 =~= Seq::<DiffLineView>::empty());
        lemma_lines_empty_side(l1, t1, t2);
    } else {
        lemma_lines_feed_front(l1);
        lemma_lines_feed_front(l2);
        assert(diff_lines_feed(l1) + t1 =~= diff_line_feed(l1[0]) + (diff_lines_feed(l1.drop_first()) + t1));
        assert(diff_lines_feed(l2) + t2 =~= diff_line_feed(l2[0]) + (diff_lines_feed(l2.drop_first()) + t2));
        lemma_line_feed_prefix(
            l1[0],
            l2[0],
            diff_lines_feed(l1.drop_first()) + t1,
            diff_lines_feed(l2.drop_first()) + t2,
        );
        lemma_lines_prefix(l1.drop_first(), l2.drop_first(), t1, t2);
        assert(l1 =~= seq![l1[0]] + l1.drop_first());
        assert(l2 =~= seq![l2[0]] + l2.drop_first());
    }
}

proof fn lemma_hunk_feed_shape(h: DiffHunkView, t: Seq<Seq<u8>>)
    ensures
        hunk_feed(h) + t == seq![
            u32_chunk(h.old_start),
            u32_chunk(h.old_count),
            u32_chunk(h.new_start),
            u32_chunk(h.new_count),
        ] + (diff_lines_feed(h.lines) + t),
        (hunk_feed(h) + t).len() >= 4,
        (hunk_feed(h) + t)[0].len() == 4,
        (hunk_feed(h) + t)[1].len() == 4,
{
    lemma_le_bytes_len(h.old_start as nat, 4);
    lemma_le_bytes_len(h.old_count as nat, 4);
    assert(hunk_feed(h) + t =~= seq![
        u32_chunk(h.old_start),
        u32_chunk(h.old_count),
        u32_chunk(h.new_start),
        u32_chunk(h.new_count),
    ] + (diff_lines_feed(h.lines) + t));
}

proof fn lemma_hunk_prefix(x: DiffHunkView, y: DiffHunkView, t1: Seq<Seq<u8>>, t2: Seq<Seq<u8>>)
    requires
        hunk_feed(x) + t1 == hunk_feed(y) + t2,
        after_lines_ok(t1),
        after_lines_ok(t2),
    ensures
        x == y,
        t1 == t2,
{
    lemma_hunk_feed_shape(x, t1);
    lemma_hunk_feed_shape(y, t2);
    let hx = seq![u32_chunk(x.old_start), u32_chunk(x.old_count), u32_chunk(x.new_start), u32_chunk(x.new_count)];
    let hy = seq![u32_chunk(y.old_start), u32_chunk(y.old_count), u32_chunk(y.new_start), u32_chunk(y.new_count)];
    let sx = hx + (diff_lines_feed(x.lines) + t1);
    let sy = hy + (diff_lines_feed(y.lines) + t2);
    assert(sx == sy);
    assert(sx[0] == hx[0] && sx[1] == hx[1] && sx[2] == hx[2] && sx[3] == hx[3]);
    assert(sy[0] == hy[0] && sy[1] == hy[1] && sy[2] == hy[2] && sy[3] == hy[3]);
    lemma_u32_chunk_injective(x.old_start, y.old_start);
    lemma_u32_chunk_injective(x.old_count, y.old_count);
    lemma_u32_chunk_injective(x.new_start, y.new_start);
    lemma_u32_chunk_injective(x.new_count, y.new_count);
    assert(hx == hy);
    lemma_rest_equal(hx, diff_lines_feed(x.lines) + t1, hy, diff_lines_feed(y.lines) + t2);
    lemma_lines_prefix(x.lines, y.lines, t1, t2);
}

/// After a hunk, what follows is another hunk or what may follow the hunks.
proof fn lemma_after_hunk(hs: Seq<DiffHunkView>, f: Seq<Seq<u8>>)
    requires
        after_hunks_ok(f),
    ensures
        after_lines_ok(hunks_feed(hs) + f),
        hs.len() > 0 ==> (hunks_feed(hs) + f).len() >= 4 && (hunks_feed(hs) + f)[0].len() == 4,
{
    if hs.len() > 0 {
        lemma_hunks_feed_front(hs);
        assert(hunks_feed(hs) + f =~= hunk_feed(hs[0]) + (hunks_feed(hs.drop_first()) + f));
        lemma_hunk_feed_shape(hs[0], hunks_feed(hs.drop_first()) + f);
    } else {
        assert(hunks_feed(hs) + f =~= f);
    }
}

proof fn lemma_hunks_prefix(h1: Seq<DiffHunkView>, h2: Seq<DiffHunkView>, f1: Seq<Seq<u8>>, f2: Seq<Seq<u8>>)
    requires
        hunks_feed(h1) + f1 == hunks_feed(h2) + f2,
        after_hunks_ok(f1),
        after_hunks_ok(f2),
    ensures
        h1 == h2,
        f1 == f2,
    decreases h1.len() + h2.len(),
{
    if h1.len() == 0 && h2.len() == 0 {
        assert(hunks_feed(h1) + f1 =~= f1);
        assert(hunks_feed(h2) + f2 =~= f2);
        assert(h1 =~= h2);
    } else if h1.len() == 0 || h2.len() == 0 {
        reveal(after_hunks_ok);
        lemma_word_chunk(1);
        lemma_word_chunk(2);
        lemma_after_hunk(h1, f1);
        lemma_after_hunk(h2, f2);
        if h1.len() == 0 {
            assert(hunks_feed(h1) + f1 =~= f1);
        } else {
            assert(hunks_feed(h2) + f2 =~= f2);
        }
    } else {
        lemma_hunks_feed_front(h1);
        lemma_hunks_feed_front(h2);
        let t1 = hunks_feed(h1.drop_first()) + f1;
        let t2 = hunks_feed(h2.drop_first()) + f2;
        assert(hunks_feed(h1) + f1 =~= hunk_feed(h1[0]) + t1);
        assert(hunks_feed(h2) + f2 =~= hunk_feed(h2[0]) + t2);
        lemma_after_hunk(h1.drop_first(), f1);
        lemma_after_hunk(h2.drop_first(), f2);
        lemma_hunk_prefix(h1[0], h2[0], t1, t2);
        lemma_hunks_prefix(h1.drop_first(), h2.drop_first(), f1, f2);
        assert(h1 =~= seq![h1[0]] + h1.drop_first());
        assert(h2 =~= seq![h2[0]] + h2.drop_first());
    }
}

proof fn lemma_record_prefix(x: RecordView, y: RecordView, f1: Seq<Seq<u8>>, f2: Seq<Seq<u8>>)
    requires
        record_feed(x) + f1 == record_feed(y) + f2,
        x is Diff ==> after_hunks_ok(f1),
        y is Diff ==> after_hunks_ok(f2),
    ensures
        same_shown(x, y),
        f1 == f2,
{
    let s = record_feed(x) + f1;
    let ff = seq![0xffu8];
    lemma_word_chunk(record_kind(x) as nat);
    lemma_word_chunk(record_kind(y) as nat);
    assert(record_feed(x)[0] == word_chunk(record_kind(x) as nat));
    assert(record_feed(y)[0] == word_chunk(record_kind(y) as nat));
    assert(s[0] == record_feed(x)[0]);
    assert(s[0] == record_feed(y)[0]);
    assert(record_kind(x) == record_kind(y));
    match (x, y) {
        (RecordView::UserMessage { text: a, .. }, RecordView::UserMessage { text: b, .. }) => {
            assert(record_feed(x) =~= seq![word_chunk(0), encode_utf8(a), ff]);
            assert(record_feed(y) =~= seq![word_chunk(0), encode_utf8(b), ff]);
            assert(s[1] == encode_utf8(a) && s[1] == encode_utf8(b));
            lemma_text_injective(a, b);
            lemma_rest_equal(record_feed(x), f1, record_feed(y), f2);
        },
        (
            RecordView::AssistantContent { text: a, streaming: e, .. },
            RecordView::AssistantContent { text: b, streaming: g, .. },
        ) => {
            assert(record_feed(x) =~= seq![word_chunk(1), encode_utf8(a), ff, flag_chunk(e)]);
            assert(record_feed(y) =~= seq![word_chunk(1), encode_utf8(b), ff, flag_chunk(g)]);
            assert(s[1] == encode_utf8(a) && s[1] == encode_utf8(b));
            assert(s[3] == flag_chunk(e) && s[3] == flag_chunk(g));
            assert(flag_chunk(e)[0] == flag_chunk(g)[0]);
            lemma_text_injective(a, b);
            lemma_rest_equal(record_feed(x), f1, record_feed(y), f2);
        },
        (
            RecordView::ToolCall { tool_name: n, args_preview: a, .. },
            RecordView::ToolCall { tool_name: m, args_preview: b, .. },
        ) => {
            assert(record_feed(x) =~= seq![word_chunk(2), encode_utf8(n), ff, encode_utf8(a), ff]);
            assert(record_feed(y) =~= seq![word_chunk(2), encode_utf8(m), ff, encode_utf8(b), ff]);
            assert(s[1] == encode_utf8(n) && s[1] == encode_utf8(m));
            assert(s[3] == encode_utf8(a) && s[3] == encode_utf8(b));
            lemma_text_injective(n, m);
            lemma_text_injective(a, b);
            lemma_rest_equal(record_feed(x), f1, record_feed(y), f2);
        },
        (
            RecordView::ToolResult { tool_name: n, result_preview: a, is_error: e, .. },
            RecordView::ToolResult { tool_name: m, result_preview: b, is_error: g, .. },
        ) => {
            assert(record_feed(x) =~= seq![word_chunk(3), encode_utf8(n), ff, encode_utf8(a), ff, flag_chunk(e)]);
            assert(record_feed(y) =~= seq![word_chunk(3), encode_utf8(m), ff, encode_utf8(b), ff, flag_chunk(g)]);
            assert(s[1] == encode_utf8(n) && s[1] == encode_utf8(m));
            assert(s[3] == encode_utf8(a) && s[3] == encode_utf8(b));
            assert(s[5] == flag_chunk(e) && s[5] == flag_chunk(g));
            assert(flag_chunk(e)[0] == flag_chunk(g)[0]);
            lemma_text_injective(n, m);
            lemma_text_injective(a, b);
            lemma_rest_equal(record_feed(x), f1, record_feed(y), f2);
        },
        (RecordView::Thinking { message: a, .. }, RecordView::Thinking { message: b, .. }) => {
            assert(record_feed(x) =~= seq![word_chunk(4), encode_utf8(a), ff]);
            assert(record_feed(y) =~= seq![word_chunk(4), encode_utf8(b), ff]);
            assert(s[1] == encode_utf8(a) && s[1] == encode_utf8(b));
            lemma_text_injective(a, b);
            lemma_rest_equal(record_feed(x), f1, record_feed(y), f2);
        },
        (RecordView::ActionRequired { message: a, .. }, RecordView::ActionRequired { message: b, .. }) => {
            assert(record_feed(x) =~= seq![word_chunk(5), encode_utf8(a), ff]);
            assert(record_feed(y) =~= seq![word_chunk(5), encode_utf8(b), ff]);
            assert(s[1] == encode_utf8(a) && s[1] == encode_utf8(b));
            lemma_text_injective(a, b);
            lemma_rest_equal(record_feed(x), f1, record_feed(y), f2);
        },
        (RecordView::Diff { path: p, hunks: h, .. }, RecordView::Diff { path: q, hunks: k, .. }) => {
            let hx = seq![word_chunk(6), encode_utf8(p), ff];
            let hy = seq![word_chunk(6), encode_utf8(q), ff];
            assert(s =~= hx + (hunks_feed(h) + f1));
            assert(record_feed(y) + f2 =~= hy + (hunks_feed(k) + f2));
            assert(s[1] == encode_utf8(p) && s[1] == encode_utf8(q));
            lemma_text_injective(p, q);
            lemma_rest_equal(hx, hunks_feed(h) + f1, hy, hunks_feed(k) + f2);
            lemma_hunks_prefix(h, k, f1, f2);
        },
        _ => {},
    }
}

/// No diff cell of the history is directly followed by a user message.
pub open spec fn no_message_right_after_diff(rs: Seq<RecordView>) -> bool {
    forall|i: int| 0 <= i < rs.len() - 1 && (#[trigger] rs[i]) is Diff ==> !(rs[i + 1] is UserMessage)
}

/// A record that is no user message may follow the hunks of a diff.
proof fn lemma_record_may_follow_hunks(r: RecordView, g: Seq<Seq<u8>>)
    requires
        !(r is UserMessage),
    ensures
        after_hunks_ok(record_feed(r) + g),
{
    reveal(after_hunks_ok);
    let f = record_feed(r) + g;
    let ff = seq![0xffu8];
    lemma_word_chunk(record_kind(r) as nat);
    match r {
        RecordView::UserMessage { .. } => {},
        RecordView::AssistantContent { text, streaming, .. } => {
            lemma_text_is_not_end(text);
            assert(record_feed(r) =~= seq![word_chunk(1), encode_utf8(text), ff, flag_chunk(streaming)]);
            assert(f[0] == word_chunk(1) && f[1] == encode_utf8(text) && f[3] == flag_chunk(streaming));
        },
        RecordView::ToolCall { tool_name, args_preview, .. } => {
            lemma_text_is_not_end(tool_name);
            assert(record_feed(r) =~= seq![word_chunk(2), encode_utf8(tool_name), ff, encode_utf8(args_preview), ff]);
            assert(f[0] == word_chunk(2) && f[1] == encode_utf8(tool_name) && f[4] == ff);
        },
        RecordView::ToolResult { tool_name, result_preview, is_error, .. } => {
            lemma_text_is_not_end(tool_name);
            assert(record_feed(r) =~= seq![
                word_chunk(3),
                encode_utf8(tool_name),
                ff,
                encode_utf8(result_preview),
                ff,
                flag_chunk(is_error),
            ]);
            assert(f[0] == word_chunk(3) && f[1] == encode_utf8(tool_name));
        },
        RecordView::Thinking { message, .. } => {
            lemma_text_is_not_end(message);
            assert(record_feed(r) =~= seq![word_chunk(4), encode_utf8(message), ff]);
            assert(f[0] == word_chunk(4) && f[1] == encode_utf8(message));
        },
        RecordView::ActionRequired { message, .. } => {
            lemma_text_is_not_end(message);
            assert(record_feed(r) =~= seq![word_chunk(5), encode_utf8(message), ff]);
            assert(f[0] == word_chunk(5) && f[1] == encode_utf8(message));
        },
        RecordView::Diff { path, hunks, .. } => {
            lemma_text_is_not_end(path);
            assert(f =~= seq![word_chunk(6), encode_utf8(path), ff] + (hunks_feed(hunks) + g));
            assert(f[0] == word_chunk(6) && f[1] == encode_utf8(path));
        },
    }
}

proof fn lemma_records_prefix(a: Seq<RecordView>, b: Seq<RecordView>)
    requires
        records_feed(a) == records_feed(b),
        a.len() == b.len(),
        no_message_right_after_diff(a),
        no_message_right_after_diff(b),
    ensures
        forall|i: int| 0 <= i < a.len() ==> same_shown(#[trigger] a[i], b[i]),
    decreases a.len(),
{
    if a.len() > 0 {
        lemma_records_feed_front(a);
        lemma_records_feed_front(b);
        let ra = a.drop_first();
        let rb = b.drop_first();
        if ra.len() > 0 {
            lemma_records_feed_front(ra);
            assert(a[0] is Diff ==> !(a[1] is UserMessage));
            assert(ra[0] == a[1]);
            if a[0] is Diff {
                lemma_record_may_follow_hunks(ra[0], records_feed(ra.drop_first()));
            }
            lemma_records_feed_front(rb);
            assert(b[0] is Diff ==> !(b[1] is UserMessage));
            assert(rb[0] == b[1]);
            if b[0] is Diff {
                lemma_record_may_follow_hunks(rb[0], records_feed(rb.drop_first()));
            }
        } else {
            assert(after_hunks_ok(records_feed(ra)) && after_hunks_ok(records_feed(rb))) by {
                reveal(after_hunks_ok);
            }
        }
        lemma_record_prefix(a[0], b[0], records_feed(ra), records_feed(rb));
        assert forall|i: int| 0 <= i < ra.len() - 1 && (#[trigger] ra[i]) is Diff implies !(ra[i + 1] is UserMessage) by {
            assert(ra[i] == a[i + 1] && ra[i + 1] == a[i + 2]);
        }
        assert forall|i: int| 0 <= i < rb.len() - 1 && (#[trigger] rb[i]) is Diff implies !(rb[i + 1] is UserMessage) by {
            assert(rb[i] == b[i + 1] && rb[i + 1] == b[i + 2]);
        }
        lemma_records_prefix(ra, rb);
        assert forall|i: int| 0 <= i < a.len() implies same_shown(#[trigger] a[i], b[i]) by {
            if i > 0 {
                assert(a[i] == ra[i - 1] && b[i] == rb[i - 1]);
            }
        }
    }
}

/// The key's input tells histories apart: of two histories of one length, under one
/// theme, where one record shows differently from its counterpart (another kind, or
/// another text, flag, path, range or diff line), the hasher is fed differently, so the
/// rows cached for one are never taken for the other's but by a collision of the hash.
/// Stated of histories in which no diff cell is directly followed by a user message:
/// the key's input does not tell a user message right after a diff from a context line
/// at the end of that diff.
pub proof fn lemma_cache_feed_separates_histories(a: Seq<RecordView>, b: Seq<RecordView>, theme: Theme)
    requires
        a.len() == b.len(),
        no_message_right_after_diff(a),
        no_message_right_after_diff(b),
    ensures
        (exists|i: int| 0 <= i < a.len() && !same_shown(#[trigger] a[i], b[i])) ==> cache_feed(a, theme)
            != cache_feed(b, theme),
{
    if cache_feed(a, theme) == cache_feed(b, theme) {
        let head = seq![word_chunk(theme_tag(theme)), word_chunk(a.len())];
        assert(head == seq![word_chunk(theme_tag(theme)), word_chunk(b.len())]);
        lemma_rest_equal(head, records_feed(a), head, records_feed(b));
        lemma_records_prefix(a, b);
    }
}

} // verus!
