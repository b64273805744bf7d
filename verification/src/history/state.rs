//! History state: the records of the conversation with stable ids, and how each
//! domain event changes them.
use vstd::prelude::*;

use super::events::{hunk_views, DiffHunk, DiffHunkView, EventView, HistoryEvent};

verus! {

broadcast use vstd::string::group_string_axioms;

/// Identity of a history record: its position in the history, counted from one. Ids
/// are unique within one history (two histories number their records alike).
#[derive(Clone, Copy, Debug, Hash, PartialEq, Eq, Structural)]
pub struct HistoryId(u64);

impl HistoryId {
    /// The id as a number; never zero.
    pub closed spec fn value(self) -> u64 {
        self.0
    }

    /// The id as a number.
    pub fn get(self) -> (n: u64)
        ensures
            n == self.value(),
    {
        self.0
    }
}

/// One cell of the history.
#[derive(Clone, Debug)]
pub enum HistoryRecord {
    UserMessage { id: HistoryId, text: String },
    AssistantContent { id: HistoryId, text: String, streaming: bool },
    ToolCall { id: HistoryId, tool_name: String, args_preview: String },
    ToolResult { id: HistoryId, tool_name: String, result_preview: String, is_error: bool },
    Thinking { id: HistoryId, message: String },
    ActionRequired { id: HistoryId, message: String },
    Diff { id: HistoryId, path: String, hunks: Vec<DiffHunk> },
}

/// The value a `HistoryRecord` stands for.
pub enum RecordView {
    UserMessage { id: HistoryId, text: Seq<char> },
    AssistantContent { id: HistoryId, text: Seq<char>, streaming: bool },
    ToolCall { id: HistoryId, tool_name: Seq<char>, args_preview: Seq<char> },
    ToolResult {
        id: HistoryId,
        tool_name: Seq<char>,
        result_preview: Seq<char>,
        is_error: bool,
    },
    Thinking { id: HistoryId, message: Seq<char> },
    ActionRequired { id: HistoryId, message: Seq<char> },
    Diff { id: HistoryId, path: Seq<char>, hunks: Seq<DiffHunkView> },
}

impl View for HistoryRecord {
    type V = RecordView;

    open spec fn view(&self) -> RecordView {
        match self {
            HistoryRecord::UserMessage { id, text } => RecordView::UserMessage {
                id: *id,
                text: text@,
            },
            HistoryRecord::AssistantContent { id, text, streaming } =>
                RecordView::AssistantContent { id: *id, text: text@, streaming: *streaming },
            HistoryRecord::ToolCall { id, tool_name, args_preview } => RecordView::ToolCall {
                id: *id,
                tool_name: tool_name@,
                args_preview: args_preview@,
            },
            HistoryRecord::ToolResult { id, tool_name, result_preview, is_error } =>
                RecordView::ToolResult {
                    id: *id,
                    tool_name: tool_name@,
                    result_preview: result_preview@,
                    is_error: *is_error,
                },
            HistoryRecord::Thinking { id, message } => RecordView::Thinking {
                id: *id,
                message: message@,
            },
            HistoryRecord::ActionRequired { id, message } => RecordView::ActionRequired {
                id: *id,
                message: message@,
            },
            HistoryRecord::Diff { id, path, hunks } => RecordView::Diff {
                id: *id,
                path: path@,
                hunks: hunk_views(hunks@),
            },
        }
    }
}

/// The id of a record.
pub open spec fn record_id(r: RecordView) -> HistoryId {
    match r {
        RecordView::UserMessage { id, .. } => id,
        RecordView::AssistantContent { id, .. } => id,
        RecordView::ToolCall { id, .. } => id,
        RecordView::ToolResult { id, .. } => id,
        RecordView::Thinking { id, .. } => id,
        RecordView::ActionRequired { id, .. } => id,
        RecordView::Diff { id, .. } => id,
    }
}

impl HistoryRecord {
    /// The id of this record.
    pub fn id(&self) -> (id: HistoryId)
        ensures
            id == record_id(self@),
    {
        match self {
            HistoryRecord::UserMessage { id, .. } => *id,
            HistoryRecord::AssistantContent { id, .. } => *id,
            HistoryRecord::ToolCall { id, .. } => *id,
            HistoryRecord::ToolResult { id, .. } => *id,
            HistoryRecord::Thinking { id, .. } => *id,
            HistoryRecord::ActionRequired { id, .. } => *id,
            HistoryRecord::Diff { id, .. } => *id,
        }
    }
}

/// The records of the history, oldest first.
pub struct HistoryState {
    records: Vec<HistoryRecord>,
}

/// The views of a sequence of records.
pub open spec fn record_views(records: Seq<HistoryRecord>) -> Seq<RecordView> {
    records.map_values(|r: HistoryRecord| r@)
}

impl View for HistoryState {
    type V = Seq<RecordView>;

    closed spec fn view(&self) -> Seq<RecordView> {
        record_views(self.records@)
    }
}

/// The id number of the record at position `i`: the position counted from one (one
/// again past the largest number).
pub open spec fn position_id(i: int) -> u64 {
    if i < u64::MAX {
        (i + 1) as u64
    } else {
        1
    }
}

/// Every record carries the id of its position.
pub open spec fn ids_follow_positions(records: Seq<RecordView>) -> bool {
    forall|i: int| 0 <= i < records.len() ==> #[trigger] record_id(records[i]).value() == position_id(i)
}

/// A record the history gains has an id that no earlier record has (while fewer than
/// `u64::MAX` records came before it).
pub open spec fn new_record_is_fresh(old: Seq<RecordView>, new: Seq<RecordView>) -> bool {
    (new.len() > old.len() && old.len() < u64::MAX) ==> forall|i: int|
        0 <= i < old.len() ==> #[trigger] record_id(old[i]) != record_id(new.last())
}

/// When both histories carry the ids of their positions and at most one record was
/// gained, the gained record's id is new.
proof fn lemma_gained_record_is_fresh(old: Seq<RecordView>, new: Seq<RecordView>)
    requires
        ids_follow_positions(old),
        ids_follow_positions(new),
        new.len() <= old.len() + 1,
    ensures
        new_record_is_fresh(old, new),
{
    if new.len() > old.len() && old.len() < u64::MAX {
        assert(record_id(new[new.len() - 1]).value() == position_id(old.len() as int));
        assert forall|i: int| 0 <= i < old.len() implies #[trigger] record_id(old[i]) != record_id(new.last()) by {
            assert(record_id(old[i]).value() == position_id(i));
        }
    }
}

impl HistoryState {
    /// The records always carry the ids of their positions.
    #[verifier::type_invariant]
    spec fn ids_at_positions(self) -> bool {
        ids_follow_positions(self@)
    }
}

/// The id that the next record pushed onto `records` gets: its position counted
/// from one (one again should that overflow).
pub closed spec fn next_id(records: Seq<RecordView>) -> HistoryId {
    HistoryId(
        if records.len() < u64::MAX {
            (records.len() + 1) as u64
        } else {
            1
        },
    )
}

/// The number in the id that the next record gets.
pub broadcast proof fn lemma_next_id_value(records: Seq<RecordView>)
    ensures
        #[trigger] next_id(records).value() == (if records.len() < u64::MAX {
            (records.len() + 1) as u64
        } else {
            1
        }),
{
}

/// `records` with a streaming assistant cell at the end marked as finished.
pub open spec fn close_streaming(records: Seq<RecordView>) -> Seq<RecordView> {
    if records.len() > 0 {
        match records.last() {
            RecordView::AssistantContent { id, text, .. } => records.update(
                records.len() - 1,
                RecordView::AssistantContent { id, text, streaming: false },
            ),
            _ => records,
        }
    } else {
        records
    }
}

/// `records` with `r` appended.
pub open spec fn push_record(records: Seq<RecordView>, r: RecordView) -> Seq<RecordView> {
    records.push(r)
}

/// The history after full message text arrives: it finishes a streaming assistant
/// cell at the end (appending the text), or else becomes a new finished assistant cell.
pub open spec fn spec_append_content(records: Seq<RecordView>, text: Seq<char>) -> Seq<RecordView> {
    let fresh = records.push(
        RecordView::AssistantContent { id: next_id(records), text, streaming: false },
    );
    if records.len() > 0 {
        match records.last() {
            RecordView::AssistantContent { id, text: t, streaming } => if streaming {
                records.update(
                    records.len() - 1,
                    RecordView::AssistantContent { id, text: t + text, streaming: false },
                )
            } else {
                fresh
            },
            _ => fresh,
        }
    } else {
        fresh
    }
}

/// The history after one domain event.
pub open spec fn spec_apply_event(records: Seq<RecordView>, event: EventView) -> Seq<RecordView> {
    match event {
        EventView::UserMessage { text } => {
            let r = close_streaming(records);
            r.push(RecordView::UserMessage { id: next_id(r), text })
        },
        EventView::AssistantStart => records.push(
            RecordView::AssistantContent { id: next_id(records), text: Seq::empty(), streaming: true },
        ),
        EventView::StreamChunk { text } => {
            if records.len() > 0 && records.last() is AssistantContent {
                match records.last() {
                    RecordView::AssistantContent { id, text: t, streaming } => if streaming {
                        records.update(
                            records.len() - 1,
                            RecordView::AssistantContent { id, text: t + text, streaming },
                        )
                    } else {
                        records
                    },
                    _ => records,
                }
            } else {
                records.push(
                    RecordView::AssistantContent { id: next_id(records), text, streaming: true },
                )
            }
        },
        EventView::StreamEnd => close_streaming(records),
        EventView::ToolRequest { tool_name, args_preview, .. } => {
            let r = close_streaming(records);
            r.push(RecordView::ToolCall { id: next_id(r), tool_name, args_preview })
        },
        EventView::ToolResponse { tool_name, result_preview, is_error, .. } => {
            let r = close_streaming(records);
            r.push(RecordView::ToolResult { id: next_id(r), tool_name, result_preview, is_error })
        },
        EventView::ActionRequired { message, .. } => records.push(
            RecordView::ActionRequired { id: next_id(records), message },
        ),
        EventView::ThinkingStart => {
            let r = close_streaming(records);
            r.push(RecordView::Thinking { id: next_id(r), message: Seq::empty() })
        },
        EventView::ThinkingUpdate { message } => {
            let fresh = records.push(RecordView::Thinking { id: next_id(records), message });
            if records.len() > 0 {
                match records.last() {
                    RecordView::Thinking { id, .. } => records.update(
                        records.len() - 1,
                        RecordView::Thinking { id, message },
                    ),
                    _ => fresh,
                }
            } else {
                fresh
            }
        },
        EventView::ThinkingEnd => records,
        EventView::DiffShown { path, hunks } => {
            let r = close_streaming(records);
            r.push(RecordView::Diff { id: next_id(r), path, hunks })
        },
    }
}


impl Default for HistoryState {
    fn default() -> (s: Self)
        ensures
            s@ == Seq::<RecordView>::empty(),
    {
        HistoryState::new()
    }
}

impl HistoryState {
    /// An empty history.
    pub fn new() -> (s: Self)
        ensures
            s@ == Seq::<RecordView>::empty(),
    {
        let s = HistoryState { records: Vec::new() };
        assert(s@ =~= Seq::<RecordView>::empty());
        s
    }

    /// The records, oldest first.
    pub fn records(&self) -> (r: &[HistoryRecord])
        ensures
            record_views(r@) == self@,
            ids_follow_positions(self@),
    {
        proof {
            use_type_invariant(self);
        }
        self.records.as_slice()
    }

    /// The id for a record pushed now.
    fn fresh_id(&self) -> (id: HistoryId)
        ensures
            id == next_id(self@),
    {
        let n = self.records.len() as u64;
        HistoryId(
            if n < u64::MAX {
                n + 1
            } else {
                1
            },
        )
    }

    /// Appends a record carrying the id of its position.
    fn push(&mut self, r: HistoryRecord)
        requires
            record_id(r@).value() == position_id(old(self)@.len() as int),
        ensures
            final(self)@ == old(self)@.push(r@),
    {
        proof {
            use_type_invariant(&*self);
        }
        let mut v: Vec<HistoryRecord> = Vec::new();
        std::mem::swap(&mut v, &mut self.records);
        let ghost before = record_views(v@);
        v.push(r);
        assert(record_views(v@) =~= before.push(r@));
        assert forall|i: int| 0 <= i < record_views(v@).len() implies #[trigger] record_id(record_views(v@)[i]).value()
            == position_id(i) by {
            if i < before.len() {
                assert(record_views(v@)[i] == before[i]);
            }
        }
        self.records = v;
    }

    /// Takes the last record out.
    fn pop_last(&mut self) -> (r: HistoryRecord)
        requires
            old(self)@.len() > 0,
        ensures
            final(self)@ == old(self)@.drop_last(),
            r@ == old(self)@.last(),
            record_id(r@).value() == position_id(final(self)@.len() as int),
    {
        proof {
            use_type_invariant(&*self);
        }
        let mut v: Vec<HistoryRecord> = Vec::new();
        std::mem::swap(&mut v, &mut self.records);
        let ghost before = record_views(v@);
        let r = v.pop().unwrap();
        assert(record_views(v@) =~= before.drop_last());
        assert(before[before.len() - 1] == r@);
        assert forall|i: int| 0 <= i < record_views(v@).len() implies #[trigger] record_id(record_views(v@)[i]).value()
            == position_id(i) by {
            assert(record_views(v@)[i] == before[i]);
        }
        self.records = v;
        r
    }

    /// Marks a streaming assistant cell at the end as finished.
    fn close_streaming_assistant(&mut self)
        ensures
            final(self)@ == close_streaming(old(self)@),
    {
        if self.records.len() > 0 {
            let last = self.pop_last();
            match last {
                HistoryRecord::AssistantContent { id, text, streaming: _ } => {
                    self.push(HistoryRecord::AssistantContent { id, text, streaming: false });
                },
                other => {
                    self.push(other);
                },
            }
            assert(self@ =~= close_streaming(old(self)@));
        }
    }

    /// When the session sends full message markdown (e.g. after streaming or for a
    /// non-streamed message), finalize the last streaming assistant cell or push a new
    /// assistant content cell.
    pub fn append_content(&mut self, text: &str)
        ensures
            final(self)@ == spec_append_content(old(self)@, text@),
            ids_follow_positions(final(self)@),
            new_record_is_fresh(old(self)@, final(self)@),
    {
        proof {
            use_type_invariant(&*self);
            super::laws::lemma_append_content_changes_only_at_end(self@, text@);
        }
        if self.records.len() > 0 {
            let last = self.pop_last();
            match last {
                HistoryRecord::AssistantContent { id, text: t, streaming } => {
                    if streaming {
                        let mut t = t;
                        t.append(text);
                        self.push(HistoryRecord::AssistantContent { id, text: t, streaming: false });
                        assert(self@ =~= spec_append_content(old(self)@, text@));
                        proof {
                            use_type_invariant(&*self);
                            lemma_gained_record_is_fresh(old(self)@, self@);
                        }
                        return ;
                    }
                    self.push(HistoryRecord::AssistantContent { id, text: t, streaming });
                },
                other => {
                    self.push(other);
                },
            }
            assert(self@ =~= old(self)@);
        }
        let id = self.fresh_id();
        self.push(HistoryRecord::AssistantContent { id, text: text.to_string(), streaming: false });
        proof {
            use_type_invariant(&*self);
            lemma_gained_record_is_fresh(old(self)@, self@);
        }
    }

    /// Applies one domain event to the history.
    pub fn apply_event(&mut self, event: HistoryEvent)
        ensures
            final(self)@ == spec_apply_event(old(self)@, event@),
            ids_follow_positions(final(self)@),
            new_record_is_fresh(old(self)@, final(self)@),
    {
        proof {
            use_type_invariant(&*self);
            super::laws::lemma_apply_event_changes_only_at_end(self@, event@);
        }
        self.apply_event_inner(event);
        proof {
            use_type_invariant(&*self);
            lemma_gained_record_is_fresh(old(self)@, self@);
        }
    }

    fn apply_event_inner(&mut self, event: HistoryEvent)
        ensures
            final(self)@ == spec_apply_event(old(self)@, event@),
    {
        match event {
            HistoryEvent::UserMessage { text } => {
                self.close_streaming_assistant();
                let id = self.fresh_id();
                self.push(HistoryRecord::UserMessage { id, text });
            },
            HistoryEvent::AssistantStart => {
                let id = self.fresh_id();
                self.push(HistoryRecord::AssistantContent { id, text: String::new(), streaming: true });
            },
            HistoryEvent::StreamChunk { text } => {
                if self.records.len() > 0 {
                    let last = self.pop_last();
                    match last {
                        HistoryRecord::AssistantContent { id, text: t, streaming } => {
                            let mut t = t;
                            if streaming {
                                t.append(text.as_str());
                            }
                            self.push(HistoryRecord::AssistantContent { id, text: t, streaming });
                            assert(self@ =~= spec_apply_event(old(self)@, event@));
                        },
                        other => {
                            self.push(other);
                            assert(self@ =~= old(self)@);
                            let id = self.fresh_id();
                            self.push(HistoryRecord::AssistantContent { id, text, streaming: true });
                        },
                    }
                } else {
                    let id = self.fresh_id();
                    self.push(HistoryRecord::AssistantContent { id, text, streaming: true });
                }
            },
            HistoryEvent::StreamEnd => {
                self.close_streaming_assistant();
            },
            HistoryEvent::ToolRequest { id: _, tool_name, args_preview } => {
                self.close_streaming_assistant();
                let id = self.fresh_id();
                self.push(HistoryRecord::ToolCall { id, tool_name, args_preview });
            },
            HistoryEvent::ToolResponse { id: _, tool_name, result_preview, is_error } => {
                self.close_streaming_assistant();
                let id = self.fresh_id();
                self.push(HistoryRecord::ToolResult { id, tool_name, result_preview, is_error });
            },
            HistoryEvent::ActionRequired { id: _, message } => {
                let id = self.fresh_id();
                self.push(HistoryRecord::ActionRequired { id, message });
            },
            HistoryEvent::ThinkingStart => {
                self.close_streaming_assistant();
                let id = self.fresh_id();
                self.push(HistoryRecord::Thinking { id, message: String::new() });
            },
            HistoryEvent::ThinkingUpdate { message } => {
                if self.records.len() > 0 {
                    let last = self.pop_last();
                    match last {
                        HistoryRecord::Thinking { id, message: _ } => {
                            self.push(HistoryRecord::Thinking { id, message });
                            assert(self@ =~= spec_apply_event(old(self)@, event@));
                        },
                        other => {
                            self.push(other);
                            assert(self@ =~= old(self)@);
                            let id = self.fresh_id();
                            self.push(HistoryRecord::Thinking { id, message });
                        },
                    }
                } else {
                    let id = self.fresh_id();
                    self.push(HistoryRecord::Thinking { id, message });
                }
            },
            HistoryEvent::ThinkingEnd => {},
            HistoryEvent::DiffShown { path, hunks } => {
                self.close_streaming_assistant();
                let id = self.fresh_id();
                self.push(HistoryRecord::Diff { id, path, hunks });
            },
        }
    }
}

} // verus!
