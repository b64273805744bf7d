use goose_cli_tui::gemini_cli::{
    build_prompt, command_failed, description_shortcut, escape_prompt_newlines, exit_code_text, gemini_cli_known_models, is_description_request, is_known_model,
    output_line, parse_response, session_description, stream_line, stream_value,
    GeminiCliProvider, Json, PromptMessage, ProviderError, Role, StreamLine, StreamTracker, Usage,
    GEMINI_CLI_DEFAULT_MODEL,
};

fn obj(members: Vec<(&str, Json)>) -> Json {
    Json::Object(members.into_iter().map(|(k, v)| (k.to_string(), v)).collect())
}

fn num(n: u64) -> Json {
    Json::Number(Some(n))
}

fn msg(role: Role, visible: bool, texts: &[&str]) -> PromptMessage {
    PromptMessage {
        role,
        agent_visible: visible,
        texts: texts.iter().map(|t| t.to_string()).collect(),
    }
}

#[test]
fn test_usage_from_value_parses_stats() {
    let value = obj(vec![(
        "stats",
        obj(vec![(
            "models",
            obj(vec![(
                "gemini-2.5-pro",
                obj(vec![(
                    "tokens",
                    obj(vec![("prompt", num(10)), ("candidates", num(20)), ("total", num(30))]),
                )]),
            )]),
        )]),
    )]);
    let usage = GeminiCliProvider::usage_from_value(&value, "gemini-2.5-pro");
    assert_eq!(usage.input_tokens, Some(10));
    assert_eq!(usage.output_tokens, Some(20));
    assert_eq!(usage.total_tokens, Some(30));
}

#[test]
fn test_usage_from_value_missing_stats_returns_default() {
    let value = obj(vec![("response", Json::Str("hello".to_string()))]);
    let usage = GeminiCliProvider::usage_from_value(&value, "gemini-2.5-pro");
    assert_eq!(usage.input_tokens, None);
    assert_eq!(usage.output_tokens, None);
    assert_eq!(usage.total_tokens, None);
}

#[test]
fn usage_falls_back_to_first_model_and_sums_total() {
    let value = obj(vec![(
        "stats",
        obj(vec![(
            "models",
            obj(vec![(
                "other-model",
                obj(vec![("tokens", obj(vec![("prompt", num(3)), ("candidates", num(4))]))]),
            )]),
        )]),
    )]);
    let usage = GeminiCliProvider::usage_from_value(&value, "gemini-2.5-pro");
    assert_eq!(
        usage,
        Usage { input_tokens: Some(3), output_tokens: Some(4), total_tokens: Some(7) }
    );
}

#[test]
fn usage_without_models_is_default() {
    let value = obj(vec![("stats", obj(vec![]))]);
    let usage = GeminiCliProvider::usage_from_value(&value, "gemini-2.5-pro");
    assert_eq!(usage, Usage { input_tokens: None, output_tokens: None, total_tokens: None });
}

#[test]
fn known_models_and_model_arg() {
    assert_eq!(
        gemini_cli_known_models(),
        vec!["gemini-2.5-pro", "gemini-2.5-flash", "gemini-2.5-flash-lite"]
    );
    assert!(is_known_model(GEMINI_CLI_DEFAULT_MODEL));
    assert!(!is_known_model("gpt-4o"));
    let p = GeminiCliProvider::new("gemini".to_string(), "gemini-2.5-flash".to_string());
    assert_eq!(p.get_name(), "gemini-cli");
    assert!(p.supports_streaming());
    assert_eq!(p.model_arg(), Some("gemini-2.5-flash"));
    let q = GeminiCliProvider::new("gemini".to_string(), "custom".to_string());
    assert_eq!(q.model_arg(), None);
}

#[test]
fn prompt_lists_visible_messages() {
    let messages = vec![
        msg(Role::User, true, &["Hello", "there"]),
        msg(Role::Assistant, false, &["hidden"]),
        msg(Role::Assistant, true, &["Hi!"]),
    ];
    let p = build_prompt("Be nice.", &messages);
    assert_eq!(
        p,
        "Be nice.\n\nHuman: Hello\nthere\n\nAssistant: Hi!\n\nAssistant: "
    );
    assert_eq!(build_prompt("", &[]), "\n\nAssistant: ");
}

#[test]
fn output_lines_are_trimmed_and_filtered() {
    assert_eq!(output_line("  answer \r"), Some("answer".to_string()));
    assert_eq!(output_line("   "), None);
    assert_eq!(output_line("Loaded cached credentials."), None);
}

#[test]
fn response_is_joined_or_empty_error() {
    let lines = vec!["one".to_string(), "two".to_string()];
    assert_eq!(parse_response(&lines).unwrap(), "one\ntwo");
    let blank = vec![" ".to_string(), "".to_string()];
    match parse_response(&blank) {
        Err(ProviderError::RequestFailed(m)) => {
            assert_eq!(m, "Empty response from gemini command")
        }
        Ok(t) => panic!("unexpected reply {:?}", t),
    }
}

#[test]
fn session_description_shortcut() {
    assert!(is_description_request("Reply with only a description in four words or less"));
    assert!(is_description_request("in 4 words or less please"));
    assert!(!is_description_request("You are helpful."));
    let messages = vec![
        msg(Role::Assistant, true, &["ignored words here"]),
        msg(Role::User, true, &["  First user   message here today"]),
    ];
    assert_eq!(session_description(&messages), "First user message here");
    assert_eq!(session_description(&[msg(Role::User, true, &["Two words"])]), "Two words");
    assert_eq!(session_description(&[]), "Simple task");
    assert_eq!(session_description(&[msg(Role::User, true, &[])]), "Simple task");
}

#[test]
fn stream_lines_yield_text_usage_and_errors() {
    match stream_line("{\"text\":\"Hello\"}", "gemini-2.5-pro") {
        StreamLine::Items { text, usage } => {
            assert_eq!(text, Some("Hello".to_string()));
            assert_eq!(usage, None);
        }
        other => panic!("unexpected {:?}", other),
    }
    match stream_line("{\"response\":\"\",\"stats\":{}}", "gemini-2.5-pro") {
        StreamLine::Items { text, usage } => {
            assert_eq!(text, None);
            assert_eq!(
                usage,
                Some(Usage { input_tokens: None, output_tokens: None, total_tokens: None })
            );
        }
        other => panic!("unexpected {:?}", other),
    }
    match stream_line("{\"error\":{\"message\":\"quota\"}}", "gemini-2.5-pro") {
        StreamLine::Error(m) => assert_eq!(m, "quota"),
        other => panic!("unexpected {:?}", other),
    }
    match stream_line("{\"error\":{}}", "gemini-2.5-pro") {
        StreamLine::Error(m) => assert_eq!(m, "Unknown Gemini CLI error"),
        other => panic!("unexpected {:?}", other),
    }
    assert!(matches!(stream_line("not json", "gemini-2.5-pro"), StreamLine::Skip));
    assert!(matches!(stream_line("   ", "gemini-2.5-pro"), StreamLine::Skip));
}

#[test]
fn stream_value_reads_stats_for_model() {
    let value = obj(vec![
        ("text", Json::Str("ok".to_string())),
        (
            "stats",
            obj(vec![(
                "models",
                obj(vec![(
                    "gemini-2.5-pro",
                    obj(vec![("tokens", obj(vec![("prompt", num(1)), ("candidates", num(2)), ("total", num(5))]))]),
                )]),
            )]),
        ),
    ]);
    match stream_value(&value, "gemini-2.5-pro") {
        StreamLine::Items { text, usage } => {
            assert_eq!(text, Some("ok".to_string()));
            assert_eq!(
                usage,
                Some(Usage { input_tokens: Some(1), output_tokens: Some(2), total_tokens: Some(5) })
            );
        }
        other => panic!("unexpected {:?}", other),
    }
}

#[test]
fn windows_prompt_escapes_line_breaks() {
    assert_eq!(escape_prompt_newlines("a\r\nb\nc\rd"), "a\\nb\\nc\rd");
    assert_eq!(escape_prompt_newlines(""), "");
    assert_eq!(escape_prompt_newlines("\r\n\r\n"), "\\n\\n");
}

#[test]
fn cli_arguments() {
    let known = GeminiCliProvider::new("gemini".to_string(), "gemini-2.5-pro".to_string());
    assert_eq!(
        known.cli_args("hi\nthere", false, false),
        vec!["-m", "gemini-2.5-pro", "-p", "hi\nthere", "--yolo"]
    );
    let custom = GeminiCliProvider::new("gemini".to_string(), "my-model".to_string());
    assert_eq!(
        custom.cli_args("hi\nthere", true, true),
        vec!["-p", "hi\\nthere", "--yolo", "--output-format", "stream-json"]
    );
}

#[test]
fn exit_codes_are_written_like_debug() {
    assert_eq!(exit_code_text(Some(1)), format!("{:?}", Some(1)));
    assert_eq!(exit_code_text(Some(-2147483648)), format!("{:?}", Some(i32::MIN)));
    assert_eq!(exit_code_text(Some(2147483647)), format!("{:?}", Some(i32::MAX)));
    assert_eq!(exit_code_text(Some(0)), "Some(0)");
    assert_eq!(exit_code_text(None), "None");
    match command_failed(Some(127)) {
        ProviderError::RequestFailed(m) => assert_eq!(m, "Command failed with exit code: Some(127)"),
    }
}

#[test]
fn stream_skips_malformed_lines_and_tracks_replies() {
    let mut t = StreamTracker::new();
    assert!(matches!(t.on_line("not json", "gemini-2.5-pro"), StreamLine::Skip));
    match t.on_line("{\"text\":\"ok\"}", "gemini-2.5-pro") {
        StreamLine::Items { text, .. } => assert_eq!(text, Some("ok".to_string())),
        other => panic!("unexpected {:?}", other),
    }
    match t.on_line("{\"stats\":{}}", "gemini-2.5-pro") {
        StreamLine::Items { text, usage } => {
            assert_eq!(text, None);
            assert!(usage.is_some());
        }
        other => panic!("unexpected {:?}", other),
    }
    assert!(t.yielded_any_message);
    assert!(matches!(t.finish(true, Some(0)), Ok(false)));
    let quiet = StreamTracker::new();
    assert!(matches!(quiet.finish(true, Some(0)), Ok(true)));
    match quiet.finish(false, Some(2)) {
        Err(ProviderError::RequestFailed(m)) => assert_eq!(m, "Gemini CLI exited with code: Some(2)"),
        other => panic!("unexpected {:?}", other),
    }
}

#[test]
fn description_requests_are_answered_without_the_cli() {
    let messages = vec![msg(Role::User, true, &["Fix the flaky build please now"])];
    assert_eq!(
        description_shortcut("Reply with only a description in four words or less", &messages),
        Some("Fix the flaky build".to_string())
    );
    assert_eq!(description_shortcut("You are helpful.", &messages), None);
}
