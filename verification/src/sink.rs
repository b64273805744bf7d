//! What each call of the session's output sink does to the TUI state: it pushes
//! history domain events so that the TUI renders from cell-based history.
use vstd::prelude::*;

use crate::history::events::{parse_unified_diff, spec_parse_unified_diff, EventView, HistoryEvent};
use crate::history::state::{spec_append_content, spec_apply_event};
use crate::overlay::{Overlay, OverlayView};
use crate::state::{TuiState, TuiView};
use crate::text::{chars_of, chars3, chars4, contains_chars, contains_seq};

verus! {

broadcast use vstd::string::group_string_axioms;

/// `s` with the history replaced.
pub open spec fn with_history(s: TuiView, h: Seq<crate::history::state::RecordView>) -> TuiView {
    TuiView { history: h, ..s }
}

/// A streamed chunk of assistant text.
pub fn write_stream_chunk(state: &mut TuiState, text: &str)
    ensures
        final(state)@ == with_history(
            old(state)@,
            spec_apply_event(old(state)@.history, EventView::StreamChunk { text: text@ }),
        ),
{
    state.history.apply_event(HistoryEvent::StreamChunk { text: text.to_string() });
}

/// Thinking starts: a thinking cell opens and the thinking line shows.
pub fn show_thinking(state: &mut TuiState)
    ensures
        final(state)@ == (TuiView {
            history: spec_apply_event(old(state)@.history, EventView::ThinkingStart),
            thinking_visible: true,
            thinking_started_at: final(state)@.thinking_started_at,
            ..old(state)@
        }),
        final(state)@.thinking_started_at is Some,
{
    state.history.apply_event(HistoryEvent::ThinkingStart);
    state.show_thinking();
}

/// A new thinking message: the thinking cell and the thinking line show it.
pub fn set_thinking_message(state: &mut TuiState, msg: &str)
    ensures
        final(state)@ == (TuiView {
            history: spec_apply_event(
                old(state)@.history,
                EventView::ThinkingUpdate { message: msg@ },
            ),
            thinking_message: msg@,
            ..old(state)@
        }),
{
    state.history.apply_event(HistoryEvent::ThinkingUpdate { message: msg.to_string() });
    state.set_thinking_message(msg);
}

/// Thinking ends: the thinking line hides.
pub fn hide_thinking(state: &mut TuiState)
    ensures
        final(state)@ == (TuiView {
            history: spec_apply_event(old(state)@.history, EventView::ThinkingEnd),
            thinking_visible: false,
            thinking_started_at: None,
            ..old(state)@
        }),
{
    state.history.apply_event(HistoryEvent::ThinkingEnd);
    state.hide_thinking();
}

/// The assistant starts streaming a reply.
pub fn print_stream_start(state: &mut TuiState)
    ensures
        final(state)@ == with_history(
            old(state)@,
            spec_apply_event(old(state)@.history, EventView::AssistantStart),
        ),
{
    state.history.apply_event(HistoryEvent::AssistantStart);
}

/// Whether full message text is shown as a diff: it holds a hunk header after a line
/// break and a `--- ` marker, and parses as a diff.
pub open spec fn shows_as_diff(text: Seq<char>) -> bool {
    &&& contains_seq(text, seq!['\n', '@', '@', ' '])
    &&& contains_seq(text, seq!['-', '-', '-', ' '])
    &&& spec_parse_unified_diff(text) is Some
}

/// Full message text: a diff becomes a diff cell, anything else finishes the streaming
/// assistant cell or becomes a new assistant cell.
pub fn append_content(state: &mut TuiState, text: &str)
    ensures
        shows_as_diff(text@) ==> final(state)@ == with_history(
            old(state)@,
            spec_apply_event(
                old(state)@.history,
                EventView::DiffShown {
                    path: spec_parse_unified_diff(text@).unwrap().0,
                    hunks: spec_parse_unified_diff(text@).unwrap().1,
                },
            ),
        ),
        !shows_as_diff(text@) ==> final(state)@ == with_history(
            old(state)@,
            spec_append_content(old(state)@.history, text@),
        ),
{
    let chars = chars_of(text);
    if contains_chars(chars.as_slice(), chars4('\n', '@', '@', ' ').as_slice()) && contains_chars(
        chars.as_slice(),
        chars4('-', '-', '-', ' ').as_slice(),
    ) {
        match parse_unified_diff(text) {
            Some((path, hunks)) => {
                state.history.apply_event(HistoryEvent::DiffShown { path, hunks });
                return ;
            },
            None => {},
        }
    }
    state.history.append_content(text);
}

/// The assistant's stream ends.
pub fn end_stream(state: &mut TuiState)
    ensures
        final(state)@ == with_history(
            old(state)@,
            spec_apply_event(old(state)@.history, EventView::StreamEnd),
        ),
{
    state.history.apply_event(HistoryEvent::StreamEnd);
}

/// A tool call is requested.
pub fn push_tool_request(state: &mut TuiState, id: &str, tool_name: &str, args_preview: &str)
    ensures
        final(state)@ == with_history(
            old(state)@,
            spec_apply_event(
                old(state)@.history,
                EventView::ToolRequest {
                    id: id@,
                    tool_name: tool_name@,
                    args_preview: args_preview@,
                },
            ),
        ),
{
    state.history.apply_event(
        HistoryEvent::ToolRequest {
            id: id.to_string(),
            tool_name: tool_name.to_string(),
            args_preview: args_preview.to_string(),
        },
    );
}

/// A tool call answered.
pub fn push_tool_response(
    state: &mut TuiState,
    id: &str,
    tool_name: &str,
    result_preview: &str,
    is_error: bool,
)
    ensures
        final(state)@ == with_history(
            old(state)@,
            spec_apply_event(
                old(state)@.history,
                EventView::ToolResponse {
                    id: id@,
                    tool_name: tool_name@,
                    result_preview: result_preview@,
                    is_error,
                },
            ),
        ),
{
    state.history.apply_event(
        HistoryEvent::ToolResponse {
            id: id.to_string(),
            tool_name: tool_name.to_string(),
            result_preview: result_preview.to_string(),
            is_error,
        },
    );
}

/// The session's status line.
pub fn set_session_status(state: &mut TuiState, status: &str)
    ensures
        final(state)@ == (TuiView { session_status: Some(status@), ..old(state)@ }),
{
    state.session_status = Some(status.to_string());
}

/// The question asked when a tool call needs approval and no prompt was given.
pub open spec fn default_approval_prompt() -> Seq<char> {
    "Allow this tool call?"@
}

/// A tool call awaits approval: the approval overlay shows the tool and the prompt
/// (or the default question).
pub fn begin_tool_approval(state: &mut TuiState, id: &str, tool_name: &str, prompt: Option<&str>)
    ensures
        final(state)@ == (TuiView {
            overlay: OverlayView::Approval {
                id: id@,
                tool_name: tool_name@,
                message: match prompt {
                    Some(p) => p@,
                    None => default_approval_prompt(),
                },
            },
            ..old(state)@
        }),
{
    let message = match prompt {
        Some(p) => p.to_string(),
        None => "Allow this tool call?".to_string(),
    };
    state.overlay = Overlay::Approval {
        id: id.to_string(),
        tool_name: tool_name.to_string(),
        message,
    };
}

/// The approval was answered: the overlay closes.
pub fn end_tool_approval(state: &mut TuiState)
    ensures
        final(state)@ == (TuiView { overlay: OverlayView::Hidden, ..old(state)@ }),
{
    state.overlay = Overlay::Hidden;
}

} // verus!
