use goose_cli_tui::cache_key::history_cache_key;
use goose_cli_tui::content_render::Theme;
use goose_cli_tui::history::{parse_unified_diff, HistoryEvent, HistoryState};

fn history(texts: &[&str]) -> HistoryState {
    let mut state = HistoryState::new();
    for t in texts {
        state.apply_event(HistoryEvent::UserMessage { text: t.to_string() });
    }
    state
}

#[test]
fn same_history_same_key() {
    let a = history(&["hello", "world"]);
    let b = history(&["hello", "world"]);
    assert_eq!(
        history_cache_key(a.records(), Theme::Dark),
        history_cache_key(b.records(), Theme::Dark)
    );
}

#[test]
fn key_follows_content_and_theme() {
    let a = history(&["hello"]);
    let b = history(&["hellp"]);
    let k = history_cache_key(a.records(), Theme::Dark);
    assert_ne!(k, history_cache_key(b.records(), Theme::Dark));
    assert_ne!(k, history_cache_key(a.records(), Theme::Light));
    assert_ne!(k, history_cache_key(&[], Theme::Dark));
}

#[test]
fn ids_do_not_change_the_key() {
    let a = history(&["first", "same"]);
    let b = history(&["same"]);
    assert_eq!(
        history_cache_key(&a.records()[1..], Theme::Ansi),
        history_cache_key(b.records(), Theme::Ansi)
    );
}

#[test]
fn streaming_flag_and_diffs_count() {
    let mut a = HistoryState::new();
    a.apply_event(HistoryEvent::AssistantStart);
    a.apply_event(HistoryEvent::StreamChunk { text: "x".to_string() });
    let open = history_cache_key(a.records(), Theme::Dark);
    a.apply_event(HistoryEvent::StreamEnd);
    assert_ne!(open, history_cache_key(a.records(), Theme::Dark));

    let (path, hunks) = parse_unified_diff("--- a/f.rs\n+++ b/f.rs\n@@ -1,1 +1,1 @@\n-a\n+b\n").unwrap();
    let (_, other) = parse_unified_diff("--- a/f.rs\n+++ b/f.rs\n@@ -1,1 +1,1 @@\n-a\n+c\n").unwrap();
    let mut d1 = HistoryState::new();
    d1.apply_event(HistoryEvent::DiffShown { path: path.clone(), hunks });
    let mut d2 = HistoryState::new();
    d2.apply_event(HistoryEvent::DiffShown { path, hunks: other });
    assert_ne!(
        history_cache_key(d1.records(), Theme::Dark),
        history_cache_key(d2.records(), Theme::Dark)
    );
}
