use goose_cli_tui::history::{HistoryEvent, HistoryRecord, HistoryState};

fn chunk(t: &str) -> HistoryEvent {
    HistoryEvent::StreamChunk { text: t.to_string() }
}

#[test]
fn record_ids_are_positions() {
    let mut state = HistoryState::new();
    state.apply_event(HistoryEvent::UserMessage { text: "a".to_string() });
    state.apply_event(HistoryEvent::AssistantStart);
    state.apply_event(chunk("b"));
    state.apply_event(HistoryEvent::ThinkingStart);
    state.append_content("c");
    for (i, r) in state.records().iter().enumerate() {
        assert_eq!(r.id().get(), i as u64 + 1);
    }
    assert_eq!(state.records().len(), 4);
}

#[test]
fn streamed_reply_becomes_one_finished_cell() {
    let mut state = HistoryState::new();
    state.apply_event(HistoryEvent::UserMessage { text: "q".to_string() });
    state.apply_event(HistoryEvent::AssistantStart);
    for t in ["a", "b", "c"] {
        state.apply_event(chunk(t));
    }
    state.apply_event(HistoryEvent::StreamEnd);
    let records = state.records();
    assert_eq!(records.len(), 2);
    match &records[1] {
        HistoryRecord::AssistantContent { id, text, streaming } => {
            assert_eq!(id.get(), 2);
            assert_eq!(text, "abc");
            assert!(!streaming);
        }
        _ => panic!("expected AssistantContent"),
    }
}

#[test]
fn chunk_without_start_opens_streaming_cell() {
    let mut state = HistoryState::new();
    state.apply_event(chunk("x"));
    match &state.records()[0] {
        HistoryRecord::AssistantContent { text, streaming, .. } => {
            assert_eq!(text, "x");
            assert!(*streaming);
        }
        _ => panic!("expected AssistantContent"),
    }
}

#[test]
fn chunk_after_finished_reply_is_dropped() {
    let mut state = HistoryState::new();
    state.apply_event(HistoryEvent::AssistantStart);
    state.apply_event(chunk("a"));
    state.apply_event(HistoryEvent::StreamEnd);
    state.apply_event(chunk("b"));
    assert_eq!(state.records().len(), 1);
    match &state.records()[0] {
        HistoryRecord::AssistantContent { text, .. } => assert_eq!(text, "a"),
        _ => panic!("expected AssistantContent"),
    }
}

#[test]
fn append_content_finishes_streaming_cell() {
    let mut state = HistoryState::new();
    state.apply_event(HistoryEvent::AssistantStart);
    state.apply_event(chunk("a"));
    state.append_content("b");
    assert_eq!(state.records().len(), 1);
    match &state.records()[0] {
        HistoryRecord::AssistantContent { text, streaming, .. } => {
            assert_eq!(text, "ab");
            assert!(!streaming);
        }
        _ => panic!("expected AssistantContent"),
    }
    state.append_content("c");
    assert_eq!(state.records().len(), 2);
    match &state.records()[1] {
        HistoryRecord::AssistantContent { text, streaming, .. } => {
            assert_eq!(text, "c");
            assert!(!streaming);
        }
        _ => panic!("expected AssistantContent"),
    }
}

#[test]
fn thinking_update_replaces_message() {
    let mut state = HistoryState::new();
    state.apply_event(HistoryEvent::ThinkingStart);
    state.apply_event(HistoryEvent::ThinkingUpdate { message: "one".to_string() });
    state.apply_event(HistoryEvent::ThinkingUpdate { message: "two".to_string() });
    state.apply_event(HistoryEvent::ThinkingEnd);
    assert_eq!(state.records().len(), 1);
    match &state.records()[0] {
        HistoryRecord::Thinking { message, .. } => assert_eq!(message, "two"),
        _ => panic!("expected Thinking"),
    }
    state.apply_event(HistoryEvent::UserMessage { text: "u".to_string() });
    state.apply_event(HistoryEvent::ThinkingUpdate { message: "three".to_string() });
    assert_eq!(state.records().len(), 3);
}

#[test]
fn closing_events_finish_the_stream() {
    let events = [
        HistoryEvent::ToolRequest {
            id: "1".to_string(),
            tool_name: "t".to_string(),
            args_preview: "{}".to_string(),
        },
        HistoryEvent::ThinkingStart,
        HistoryEvent::DiffShown { path: "p".to_string(), hunks: vec![] },
        HistoryEvent::StreamEnd,
    ];
    for ev in events {
        let mut state = HistoryState::new();
        state.apply_event(HistoryEvent::AssistantStart);
        state.apply_event(ev);
        match &state.records()[0] {
            HistoryRecord::AssistantContent { streaming, .. } => assert!(!streaming),
            _ => panic!("expected AssistantContent"),
        }
    }
}

#[test]
fn action_required_leaves_stream_open() {
    let mut state = HistoryState::new();
    state.apply_event(HistoryEvent::AssistantStart);
    state.apply_event(HistoryEvent::ActionRequired {
        id: "1".to_string(),
        message: "confirm".to_string(),
    });
    assert_eq!(state.records().len(), 2);
    match &state.records()[0] {
        HistoryRecord::AssistantContent { streaming, .. } => assert!(*streaming),
        _ => panic!("expected AssistantContent"),
    }
}

#[test]
fn pushed_records_get_new_ids() {
    let mut state = HistoryState::new();
    for i in 0..5 {
        state.apply_event(HistoryEvent::UserMessage { text: format!("m{}", i) });
        state.append_content("reply");
    }
    let ids: Vec<u64> = state.records().iter().map(|r| r.id().get()).collect();
    let mut sorted = ids.clone();
    sorted.dedup();
    assert_eq!(ids.len(), 10);
    assert_eq!(sorted, ids);
    assert_eq!(ids, (1..=10).collect::<Vec<u64>>());
}
