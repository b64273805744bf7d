//! The Gemini CLI provider's own logic: the prompt it sends, which output lines count,
//! the reply it makes of them, the session-description shortcut, and how each line of
//! the CLI's JSON stream is read (text, errors, token usage). JSON is parsed by
//! `serde_json`; running the CLI is left to the caller.
use vstd::prelude::*;

use crate::text::{chars_of, contains_chars, contains_seq, has_prefix, starts_with, string_from_chars, trim, trim_chars, words, words_of, views};

verus! {

broadcast use vstd::string::group_string_axioms;

/// A JSON value, as the provider reads it.
#[derive(Debug)]
pub enum Json {
    Null,
    Bool(bool),
    /// A number, by its value as an unsigned 64-bit integer when it is one.
    Number(Option<u64>),
    Str(String),
    Array(Vec<Json>),
    /// An object's members in the order the parser's map keeps them (by key).
    Object(Vec<(String, Json)>),
}

#[verifier::external_type_specification]
#[verifier::external_body]
pub struct ExJsonValue(serde_json::Value);

/// The `Json` for a `serde_json::Value`, one arm per kind of value; a number is kept
/// as `Number::as_u64`.
#[verifier::external_body]
fn json_from_value(v: &serde_json::Value) -> Json {
    match v {
        serde_json::Value::Null => Json::Null,
        serde_json::Value::Bool(b) => Json::Bool(*b),
        serde_json::Value::Number(n) => Json::Number(n.as_u64()),
        serde_json::Value::String(s) => Json::Str(s.clone()),
        serde_json::Value::Array(a) => Json::Array(a.iter().map(json_from_value).collect()),
        serde_json::Value::Object(m) => Json::Object(
            m.iter().map(|(k, x)| (k.clone(), json_from_value(x))).collect(),
        ),
    }
}

/// The value `serde_json::from_str::<Value>` parses a line into, if it is JSON.
pub uninterp spec fn json_parse(line: Seq<char>) -> Option<Json>;

/// `serde_json::from_str::<serde_json::Value>`: the line's JSON value, or `None` when
/// it is not JSON. The parse is named, not described.
#[verifier::external_body]
fn parse_json(line: &str) -> (r: Option<Json>)
    ensures
        r == json_parse(line@),
{
    match serde_json::from_str::<serde_json::Value>(line) {
        Ok(v) => Some(json_from_value(&v)),
        Err(_) => None,
    }
}

/// The value of the first member named `key`.
pub open spec fn member(entries: Seq<(String, Json)>, key: Seq<char>) -> Option<Json>
    decreases entries.len(),
{
    if entries.len() == 0 {
        None
    } else if entries[0].0@ == key {
        Some(entries[0].1)
    } else {
        member(entries.drop_first(), key)
    }
}

/// The member `key` of an object (`Value::get`); nothing for other values.
pub open spec fn json_get(v: Json, key: Seq<char>) -> Option<Json> {
    match v {
        Json::Object(es) => member(es@, key),
        _ => None,
    }
}

/// A string value's text (`Value::as_str`).
pub open spec fn json_str(v: Option<Json>) -> Option<Seq<char>> {
    match v {
        Some(Json::Str(s)) => Some(s@),
        _ => None,
    }
}

/// A number's value as `u64` (`Value::as_u64`).
pub open spec fn json_u64(v: Option<Json>) -> Option<u64> {
    match v {
        Some(Json::Number(n)) => n,
        _ => None,
    }
}

/// The member `key` of an object.
pub fn get<'a>(v: &'a Json, key: &str) -> (r: Option<&'a Json>)
    ensures
        match r {
            Some(x) => json_get(*v, key@) == Some(*x),
            None => json_get(*v, key@) is None,
        },
{
    match v {
        Json::Object(es) => {
            let k = key.to_string();
            let mut i: usize = 0;
            assert(es@.skip(0) =~= es@);
            while i < es.len()
                invariant
                    i <= es@.len(),
                    k@ == key@,
                    json_get(*v, key@) == member(es@, key@),
                    member(es@, key@) == member(es@.skip(i as int), key@),
                decreases es.len() - i,
            {
                assert(es@.skip(i as int)[0] == es@[i as int]);
                if es[i].0 == k {
                    return Some(&es[i].1);
                }
                assert(es@.skip(i as int).drop_first() =~= es@.skip(i + 1));
                i += 1;
            }
            None
        },
        _ => None,
    }
}

fn as_str(v: Option<&Json>) -> (r: Option<&String>)
    ensures
        match r {
            Some(s) => json_str(match v {
                Some(x) => Some(*x),
                None => None,
            }) == Some(s@),
            None => json_str(match v {
                Some(x) => Some(*x),
                None => None,
            }) is None,
        },
{
    match v {
        Some(Json::Str(s)) => Some(s),
        _ => None,
    }
}

fn as_u64(v: Option<&Json>) -> (r: Option<u64>)
    ensures
        r == json_u64(match v {
            Some(x) => Some(*x),
            None => None,
        }),
{
    match v {
        Some(Json::Number(n)) => *n,
        _ => None,
    }
}

/// Token usage of a reply.
#[derive(Clone, Copy, Debug, PartialEq, Eq, Structural)]
pub struct Usage {
    pub input_tokens: Option<i32>,
    pub output_tokens: Option<i32>,
    pub total_tokens: Option<i32>,
}

/// No usage known.
pub open spec fn no_usage() -> Usage {
    Usage { input_tokens: None, output_tokens: None, total_tokens: None }
}

/// A token count as the provider keeps it: the low 32 bits, as `as i32` gives them.
pub open spec fn as_count(n: Option<u64>) -> Option<i32> {
    match n {
        Some(v) => Some(v as i32),
        None => None,
    }
}

/// `i + o` wrapped into 32 bits.
pub open spec fn wrapping_sum(i: i32, o: i32) -> i32 {
    if i + o > i32::MAX {
        (i + o - 0x1_0000_0000) as i32
    } else if i + o < i32::MIN {
        (i + o + 0x1_0000_0000) as i32
    } else {
        (i + o) as i32
    }
}

/// The token counts of `tokens`: prompt, candidates, and the total (or, when there is no
/// total, the sum of the two others, wrapping around like release builds).
pub open spec fn usage_of_tokens(tokens: Json) -> Usage {
    let input = as_count(json_u64(json_get(tokens, "prompt"@)));
    let output = as_count(json_u64(json_get(tokens, "candidates"@)));
    let total = match as_count(json_u64(json_get(tokens, "total"@))) {
        Some(t) => Some(t),
        None => match (input, output) {
            (Some(i), Some(o)) => Some(wrapping_sum(i, o)),
            _ => None,
        },
    };
    Usage { input_tokens: input, output_tokens: output, total_tokens: total }
}

/// The usage in `stats.models.<model>.tokens` of a stream or final JSON value; the first
/// model's when the named one is missing; no usage when there are no tokens.
pub open spec fn spec_usage_from_value(value: Json, model_name: Seq<char>) -> Usage {
    let models = match json_get(value, "stats"@) {
        Some(stats) => json_get(stats, "models"@),
        None => None,
    };
    match models {
        Some(Json::Object(entries)) => {
            let model = match member(entries@, model_name) {
                Some(m) => Some(m),
                None => if entries@.len() > 0 {
                    Some(entries@[0].1)
                } else {
                    None
                },
            };
            let tokens = match model {
                Some(m) => json_get(m, "tokens"@),
                None => None,
            };
            match tokens {
                Some(t) => usage_of_tokens(t),
                None => no_usage(),
            }
        },
        _ => no_usage(),
    }
}

fn count_of(n: Option<u64>) -> (c: Option<i32>)
    ensures
        c == as_count(n),
{
    match n {
        Some(v) => Some(v as i32),
        None => None,
    }
}

/// The usage reported in `value` for `model_name` (see `spec_usage_from_value`).
fn usage_in(value: &Json, model_name: &str) -> (u: Usage)
    ensures
        u == spec_usage_from_value(*value, model_name@),
{
    let none = Usage { input_tokens: None, output_tokens: None, total_tokens: None };
    let models = match get(value, "stats") {
        Some(stats) => get(stats, "models"),
        None => None,
    };
    let entries = match models {
        Some(Json::Object(entries)) => entries,
        _ => return none,
    };
    let model = match get(models.unwrap(), model_name) {
        Some(m) => Some(m),
        None => if entries.len() > 0 {
            Some(&entries[0].1)
        } else {
            None
        },
    };
    let tokens = match model {
        Some(m) => get(m, "tokens"),
        None => None,
    };
    let t = match tokens {
        Some(t) => t,
        None => return none,
    };
    let input = count_of(as_u64(get(t, "prompt")));
    let output = count_of(as_u64(get(t, "candidates")));
    let total = match count_of(as_u64(get(t, "total"))) {
        Some(x) => Some(x),
        None => match (input, output) {
            (Some(i), Some(o)) => Some(i.wrapping_add(o)),
            _ => None,
        },
    };
    Usage { input_tokens: input, output_tokens: output, total_tokens: total }
}


/// The model used when none is configured.
pub const GEMINI_CLI_DEFAULT_MODEL: &'static str = "gemini-2.5-pro";

/// Where the Gemini API is documented.
pub const GEMINI_CLI_DOC_URL: &'static str = "https://ai.google.dev/gemini-api/docs";

/// The models the CLI is known to accept.
pub open spec fn known_models() -> Seq<Seq<char>> {
    seq!["gemini-2.5-pro"@, "gemini-2.5-flash"@, "gemini-2.5-flash-lite"@]
}

/// The models the CLI is known to accept.
pub fn gemini_cli_known_models() -> (v: Vec<&'static str>)
    ensures
        v@.map_values(|m: &str| m@) == known_models(),
{
    let mut v = Vec::new();
    v.push("gemini-2.5-pro");
    v.push("gemini-2.5-flash");
    v.push("gemini-2.5-flash-lite");
    assert(v@.map_values(|m: &str| m@) =~= known_models());
    v
}

/// Whether the CLI is known to accept the model (only then is it passed with `-m`).
pub fn is_known_model(model_name: &str) -> (b: bool)
    ensures
        b == known_models().contains(model_name@),
{
    let known = gemini_cli_known_models();
    let name = model_name.to_string();
    let mut i: usize = 0;
    while i < known.len()
        invariant
            i <= known@.len(),
            known@.map_values(|m: &str| m@) == known_models(),
            name@ == model_name@,
            forall|k: int| 0 <= k < i ==> known_models()[k] != model_name@,
        decreases known.len() - i,
    {
        assert(known_models()[i as int] == known@[i as int]@);
        if known[i].to_string() == name {
            assert(known_models()[i as int] == model_name@);
            return true;
        }
        i += 1;
    }
    proof {
        if known_models().contains(model_name@) {
            let k = choose|k: int| 0 <= k < known_models().len() && known_models()[k] == model_name@;
            assert(known_models()[k] != model_name@);
        }
    }
    false
}

/// The provider: the CLI command it runs and the model it asks for.
#[derive(Debug)]
pub struct GeminiCliProvider {
    pub command: String,
    pub model_name: String,
    pub name: String,
}

impl GeminiCliProvider {
    /// A provider running `command` for `model_name`, named `gemini-cli`.
    pub fn new(command: String, model_name: String) -> (p: GeminiCliProvider)
        ensures
            p.command == command,
            p.model_name == model_name,
            p.name@ == "gemini-cli"@,
    {
        GeminiCliProvider { command, model_name, name: "gemini-cli".to_string() }
    }

    /// The name of the provider.
    pub fn get_name(&self) -> (n: &str)
        ensures
            n@ == self.name@,
    {
        self.name.as_str()
    }

    /// Streaming is supported.
    pub fn supports_streaming(&self) -> (b: bool)
        ensures
            b,
    {
        true
    }

    /// The usage reported in `value` for `model_name`: the token counts under
    /// `stats.models.<model>.tokens` (or the first model's), none when missing.
    pub fn usage_from_value(value: &Json, model_name: &str) -> (u: Usage)
        ensures
            u == spec_usage_from_value(*value, model_name@),
    {
        usage_in(value, model_name)
    }

    /// The model to pass with `-m`, when the CLI is known to accept it.
    pub fn model_arg(&self) -> (m: Option<&str>)
        ensures
            match m {
                Some(x) => x@ == self.model_name@ && known_models().contains(self.model_name@),
                None => !known_models().contains(self.model_name@),
            },
    {
        if is_known_model(self.model_name.as_str()) {
            Some(self.model_name.as_str())
        } else {
            None
        }
    }
}

/// Who wrote a message.
#[derive(Clone, Copy, Debug, PartialEq, Eq, Structural)]
pub enum Role {
    User,
    Assistant,
}

/// A conversation message as the prompt needs it: its role, whether the agent sees
/// it, and its text contents in order.
#[derive(Clone, Debug)]
pub struct PromptMessage {
    pub role: Role,
    pub agent_visible: bool,
    pub texts: Vec<String>,
}

/// The texts, each followed by a line break.
pub open spec fn texts_block(texts: Seq<Seq<char>>) -> Seq<char>
    decreases texts.len(),
{
    if texts.len() == 0 {
        Seq::empty()
    } else {
        texts_block(texts.drop_last()) + texts.last().push('\n')
    }
}

/// The prefix of a message of this role.
pub open spec fn role_prefix(role: Role) -> Seq<char> {
    match role {
        Role::User => "Human: "@,
        Role::Assistant => "Assistant: "@,
    }
}

/// The part of the prompt a message contributes: nothing when the agent does not see
/// it, else its role prefix, its texts line by line, and an empty line.
pub open spec fn message_block(m: PromptMessage) -> Seq<char> {
    if m.agent_visible {
        role_prefix(m.role) + texts_block(m.texts@.map_values(|t: String| t@)) + seq!['\n']
    } else {
        Seq::empty()
    }
}

/// The blocks of all messages, in order.
pub open spec fn messages_block(ms: Seq<PromptMessage>) -> Seq<char>
    decreases ms.len(),
{
    if ms.len() == 0 {
        Seq::empty()
    } else {
        messages_block(ms.drop_last()) + message_block(ms.last())
    }
}

/// The prompt: the system prompt, an empty line, the visible messages, then the cue
/// `Assistant: `.
pub open spec fn spec_build_prompt(system: Seq<char>, messages: Seq<PromptMessage>) -> Seq<char> {
    system + seq!['\n', '\n'] + messages_block(messages) + "Assistant: "@
}

/// Appends one character.
fn push_ch(s: &mut String, c: char)
    ensures
        final(s)@ == old(s)@.push(c),
{
    crate::text::push_char(s, c);
}

/// The prompt for the CLI, from the (already filtered) system prompt and the messages.
pub fn build_prompt(system: &str, messages: &[PromptMessage]) -> (p: String)
    ensures
        p@ == spec_build_prompt(system@, messages@),
{
    let mut full = system.to_string();
    push_ch(&mut full, '\n');
    push_ch(&mut full, '\n');
    let ghost head = system@ + seq!['\n', '\n'];
    assert(full@ =~= head);
    let mut i: usize = 0;
    while i < messages.len()
        invariant
            i <= messages@.len(),
            full@ == head + messages_block(messages@.take(i as int)),
        decreases messages.len() - i,
    {
        let m = &messages[i];
        assert(messages@.take(i + 1).drop_last() =~= messages@.take(i as int));
        let ghost before = full@;
        if m.agent_visible {
            let prefix = match m.role {
                Role::User => "Human: ",
                Role::Assistant => "Assistant: ",
            };
            full.append(prefix);
            let ghost ts = m.texts@.map_values(|t: String| t@);
            let mut j: usize = 0;
            while j < m.texts.len()
                invariant
                    j <= m.texts@.len(),
                    ts == m.texts@.map_values(|t: String| t@),
                    full@ == before + role_prefix(m.role) + texts_block(ts.take(j as int)),
                decreases m.texts.len() - j,
            {
                assert(ts.take(j + 1).drop_last() =~= ts.take(j as int));
                full.append(m.texts[j].as_str());
                push_ch(&mut full, '\n');
                j += 1;
                assert(full@ =~= before + role_prefix(m.role) + texts_block(ts.take(j as int)));
            }
            assert(ts.take(m.texts@.len() as int) =~= ts);
            push_ch(&mut full, '\n');
            assert(full@ =~= before + message_block(*m));
        } else {
            assert(full@ =~= before + message_block(*m));
        }
        i += 1;
        assert(full@ =~= head + messages_block(messages@.take(i as int)));
    }
    assert(messages@.take(messages@.len() as int) =~= messages@);
    full.append("Assistant: ");
    full
}

/// What a line of the CLI's output contributes: the line without surrounding white
/// space, unless that is empty or the CLI's credentials notice.
pub open spec fn spec_output_line(line: Seq<char>) -> Option<Seq<char>> {
    let t = trim(line);
    if t.len() == 0 || has_prefix(t, "Loaded cached credentials"@) {
        None
    } else {
        Some(t)
    }
}

/// What a line of the CLI's output contributes (see `spec_output_line`).
pub fn output_line(line: &str) -> (r: Option<String>)
    ensures
        match r {
            Some(t) => spec_output_line(line@) == Some(t@),
            None => spec_output_line(line@) is None,
        },
{
    let cs = chars_of(line);
    let t = trim_chars(cs.as_slice());
    let notice = chars_of("Loaded cached credentials");
    if t.len() == 0 || starts_with(t.as_slice(), notice.as_slice()) {
        None
    } else {
        Some(string_from_chars(t.as_slice()))
    }
}

/// Why a request to the provider failed.
#[derive(Debug)]
pub enum ProviderError {
    RequestFailed(String),
}

/// The lines joined with line breaks between them.
pub open spec fn join_lines(lines: Seq<Seq<char>>) -> Seq<char>
    decreases lines.len(),
{
    if lines.len() == 0 {
        Seq::empty()
    } else if lines.len() == 1 {
        lines[0]
    } else {
        join_lines(lines.drop_last()) + seq!['\n'] + lines.last()
    }
}

/// The reply text of the output lines: joined with line breaks; an error when it is
/// nothing but white space.
pub fn parse_response(lines: &[String]) -> (r: Result<String, ProviderError>)
    ensures
        match r {
            Ok(text) => text@ == join_lines(lines@.map_values(|l: String| l@)) && trim(text@).len() > 0,
            Err(ProviderError::RequestFailed(m)) => trim(join_lines(lines@.map_values(|l: String| l@))).len()
                == 0 && m@ == "Empty response from gemini command"@,
        },
{
    let ghost ls = lines@.map_values(|l: String| l@);
    let mut text = String::new();
    let mut i: usize = 0;
    while i < lines.len()
        invariant
            i <= lines@.len(),
            ls == lines@.map_values(|l: String| l@),
            text@ == join_lines(ls.take(i as int)),
        decreases lines.len() - i,
    {
        assert(ls.take(i + 1).drop_last() =~= ls.take(i as int));
        if i > 0 {
            push_ch(&mut text, '\n');
        }
        text.append(lines[i].as_str());
        i += 1;
        proof {
            if i == 1 {
                assert(text@ =~= join_lines(ls.take(1)));
            } else {
                assert(text@ =~= join_lines(ls.take(i as int)));
            }
        }
    }
    assert(ls.take(lines@.len() as int) =~= ls);
    let cs = chars_of(text.as_str());
    if trim_chars(cs.as_slice()).len() == 0 {
        return Err(ProviderError::RequestFailed("Empty response from gemini command".to_string()));
    }
    Ok(text)
}

/// Whether the system prompt asks for a short session description, which the provider
/// answers itself.
pub open spec fn spec_is_description_request(system: Seq<char>) -> bool {
    contains_seq(system, "four words or less"@) || contains_seq(system, "4 words or less"@)
}

/// Whether the system prompt asks for a short session description.
pub fn is_description_request(system: &str) -> (b: bool)
    ensures
        b == spec_is_description_request(system@),
{
    let cs = chars_of(system);
    let a = chars_of("four words or less");
    let b = chars_of("4 words or less");
    contains_chars(cs.as_slice(), a.as_slice()) || contains_chars(cs.as_slice(), b.as_slice())
}

/// The words joined with single spaces.
pub open spec fn join_words(ws: Seq<Seq<char>>) -> Seq<char>
    decreases ws.len(),
{
    if ws.len() == 0 {
        Seq::empty()
    } else if ws.len() == 1 {
        ws[0]
    } else {
        join_words(ws.drop_last()) + seq![' '] + ws.last()
    }
}

/// The first message written by the user.
pub open spec fn first_user_message(ms: Seq<PromptMessage>) -> Option<PromptMessage>
    decreases ms.len(),
{
    if ms.len() == 0 {
        None
    } else if ms[0].role == Role::User {
        Some(ms[0])
    } else {
        first_user_message(ms.drop_first())
    }
}

/// The session description the provider makes up: the first four words of the first
/// text of the first user message, or "Simple task".
pub open spec fn spec_session_description(ms: Seq<PromptMessage>) -> Seq<char> {
    match first_user_message(ms) {
        Some(m) => if m.texts@.len() > 0 {
            let ws = words(m.texts@[0]@);
            join_words(ws.take(if ws.len() < 4 {
                ws.len() as int
            } else {
                4
            }))
        } else {
            "Simple task"@
        },
        None => "Simple task"@,
    }
}

/// The session description the provider makes up without running the CLI.
pub fn session_description(messages: &[PromptMessage]) -> (d: String)
    ensures
        d@ == spec_session_description(messages@),
{
    let mut i: usize = 0;
    assert(messages@.skip(0) =~= messages@);
    while i < messages.len() && messages[i].role != Role::User
        invariant
            i <= messages@.len(),
            first_user_message(messages@) == first_user_message(messages@.skip(i as int)),
        decreases messages.len() - i,
    {
        assert(messages@.skip(i as int)[0] == messages@[i as int]);
        assert(messages@.skip(i as int).drop_first() =~= messages@.skip(i + 1));
        i += 1;
    }
    if i == messages.len() || messages[i].texts.len() == 0 {
        if i < messages.len() {
            assert(messages@.skip(i as int)[0] == messages@[i as int]);
        }
        return "Simple task".to_string();
    }
    assert(messages@.skip(i as int)[0] == messages@[i as int]);
    let cs = chars_of(messages[i].texts[0].as_str());
    let ws = words_of(cs.as_slice());
    let n = if ws.len() < 4 {
        ws.len()
    } else {
        4
    };
    let ghost wv = views(ws@);
    let mut d = String::new();
    let mut k: usize = 0;
    while k < n
        invariant
            k <= n <= ws@.len(),
            wv == views(ws@),
            d@ == join_words(wv.take(k as int)),
        decreases n - k,
    {
        assert(wv.take(k + 1).drop_last() =~= wv.take(k as int));
        if k > 0 {
            push_ch(&mut d, ' ');
        }
        let w = string_from_chars(ws[k].as_slice());
        d.append(w.as_str());
        k += 1;
        proof {
            if k == 1 {
                assert(d@ =~= join_words(wv.take(1)));
            } else {
                assert(d@ =~= join_words(wv.take(k as int)));
            }
        }
    }
    d
}

/// What one line of the CLI's JSON stream yields.
#[derive(Debug)]
pub enum StreamLine {
    /// Nothing: blank, the credentials notice, or not JSON.
    Skip,
    /// The CLI reported an error with this message; the stream fails.
    Error(String),
    /// Text of the reply (if any, non-empty) and token usage (if the line has stats).
    Items { text: Option<String>, usage: Option<Usage> },
}

/// The error message a stream error value carries.
pub open spec fn error_message(err: Json) -> Seq<char> {
    match json_str(json_get(err, "message"@)) {
        Some(m) => m,
        None => "Unknown Gemini CLI error"@,
    }
}

/// The reply text of a stream value: its `text`, else its `response`, when a string.
pub open spec fn value_text(v: Json) -> Option<Seq<char>> {
    match json_str(json_get(v, "text"@)) {
        Some(t) => Some(t),
        None => json_str(json_get(v, "response"@)),
    }
}

/// What one JSON value of the stream yields: the failure an `error` member reports;
/// else the non-empty text and, when there are `stats`, the usage for the model.
pub open spec fn spec_stream_value(v: Json, model_name: Seq<char>) -> (Option<Seq<char>>, Option<Seq<char>>, Option<Usage>, bool) {
    match json_get(v, "error"@) {
        Some(err) => (Some(error_message(err)), None, None, true),
        None => (
            None,
            match value_text(v) {
                Some(x) => if x.len() > 0 {
                    Some(x)
                } else {
                    None
                },
                None => None,
            },
            if json_get(v, "stats"@) is Some {
                Some(spec_usage_from_value(v, model_name))
            } else {
                None
            },
            true,
        ),
    }
}

/// What one line of the stream yields: nothing for blank lines, the credentials notice
/// and lines that are not JSON; else what its JSON value yields.
pub open spec fn spec_stream_line(line: Seq<char>, model_name: Seq<char>) -> (Option<Seq<char>>, Option<Seq<char>>, Option<Usage>, bool) {
    match spec_output_line(line) {
        None => (None, None, None, false),
        Some(t) => match json_parse(t) {
            None => (None, None, None, false),
            Some(v) => spec_stream_value(v, model_name),
        },
    }
}

/// The view of a `StreamLine`: (error, text, usage, whether the line was JSON).
pub open spec fn stream_line_view(s: StreamLine) -> (Option<Seq<char>>, Option<Seq<char>>, Option<Usage>, bool) {
    match s {
        StreamLine::Skip => (None, None, None, false),
        StreamLine::Error(m) => (Some(m@), None, None, true),
        StreamLine::Items { text, usage } => (
            None,
            match text {
                Some(t) => Some(t@),
                None => None,
            },
            usage,
            true,
        ),
    }
}

/// What one JSON value of the CLI's `stream-json` output yields (see
/// `spec_stream_value`).
pub fn stream_value(value: &Json, model_name: &str) -> (r: StreamLine)
    ensures
        stream_line_view(r) == spec_stream_value(*value, model_name@),
{
    match get(value, "error") {
        Some(err) => {
            let msg = match as_str(get(err, "message")) {
                Some(m) => m.clone(),
                None => "Unknown Gemini CLI error".to_string(),
            };
            return StreamLine::Error(msg);
        },
        None => {},
    }
    let text = match as_str(get(value, "text")) {
        Some(t) => Some(t),
        None => as_str(get(value, "response")),
    };
    let text = match text {
        Some(t) => if t.as_str().is_empty() {
            None
        } else {
            Some(t.clone())
        },
        None => None,
    };
    let usage = if get(value, "stats").is_some() {
        Some(usage_in(value, model_name))
    } else {
        None
    };
    StreamLine::Items { text, usage }
}

/// What one line of the CLI's `stream-json` output yields (see `spec_stream_line`).
pub fn stream_line(line: &str, model_name: &str) -> (r: StreamLine)
    ensures
        stream_line_view(r) == spec_stream_line(line@, model_name@),
{
    let trimmed = match output_line(line) {
        Some(t) => t,
        None => return StreamLine::Skip,
    };
    match parse_json(trimmed.as_str()) {
        Some(v) => stream_value(&v, model_name),
        None => StreamLine::Skip,
    }
}

/// The prompt as passed on Windows: each CRLF and each remaining LF written as the two
/// characters `\n`.
pub open spec fn escape_newlines(s: Seq<char>) -> Seq<char>
    decreases s.len(),
{
    if s.len() == 0 {
        Seq::empty()
    } else if s.len() >= 2 && s[0] == '\r' && s[1] == '\n' {
        seq!['\\', 'n'] + escape_newlines(s.skip(2))
    } else if s[0] == '\n' {
        seq!['\\', 'n'] + escape_newlines(s.skip(1))
    } else {
        seq![s[0]] + escape_newlines(s.skip(1))
    }
}

/// The prompt with its line breaks written as `\n` (see `escape_newlines`).
pub fn escape_prompt_newlines(prompt: &str) -> (r: String)
    ensures
        r@ == escape_newlines(prompt@),
{
    let cs = chars_of(prompt);
    let mut out = String::new();
    let mut i: usize = 0;
    assert(cs@.skip(0) =~= cs@);
    while i < cs.len()
        invariant
            cs@ == prompt@,
            i <= cs@.len(),
            out@ + escape_newlines(cs@.skip(i as int)) == escape_newlines(prompt@),
        decreases cs.len() - i,
    {
        let ghost rest = cs@.skip(i as int);
        let ghost before = out@;
        if i + 1 < cs.len() && cs[i] == '\r' && cs[i + 1] == '\n' {
            assert(rest[0] == '\r' && rest[1] == '\n');
            assert(rest.skip(2) =~= cs@.skip(i + 2));
            push_ch(&mut out, '\\');
            push_ch(&mut out, 'n');
            assert(out@ + escape_newlines(cs@.skip(i + 2)) =~= before + escape_newlines(rest));
            i += 2;
        } else {
            assert(rest[0] == cs@[i as int]);
            assert(rest.skip(1) =~= cs@.skip(i + 1));
            if i + 1 < cs.len() {
                assert(rest[1] == cs@[i + 1]);
            }
            if cs[i] == '\n' {
                push_ch(&mut out, '\\');
                push_ch(&mut out, 'n');
            } else {
                push_ch(&mut out, cs[i]);
            }
            assert(out@ + escape_newlines(cs@.skip(i + 1)) =~= before + escape_newlines(rest));
            i += 1;
        }
    }
    assert(cs@.skip(i as int) =~= Seq::<char>::empty());
    assert(out@ + Seq::<char>::empty() =~= out@);
    out
}

/// The arguments the CLI is run with: `-m` and the model when the CLI knows it, the
/// prompt after `-p` (line breaks escaped on Windows), `--yolo`, and for streaming
/// `--output-format stream-json`.
pub open spec fn spec_cli_args(model_name: Seq<char>, prompt: Seq<char>, stream_json: bool, windows: bool) -> Seq<
    Seq<char>,
> {
    let model: Seq<Seq<char>> = if known_models().contains(model_name) {
        seq!["-m"@, model_name]
    } else {
        Seq::empty()
    };
    let p = if windows {
        escape_newlines(prompt)
    } else {
        prompt
    };
    let format: Seq<Seq<char>> = if stream_json {
        seq!["--output-format"@, "stream-json"@]
    } else {
        Seq::empty()
    };
    model + seq!["-p"@, p, "--yolo"@] + format
}

/// The views of a vector of strings.
pub open spec fn arg_views(v: Seq<String>) -> Seq<Seq<char>> {
    v.map_values(|a: String| a@)
}

impl GeminiCliProvider {
    /// The arguments to run the CLI with for a prompt (see `spec_cli_args`).
    pub fn cli_args(&self, prompt: &str, stream_json: bool, windows: bool) -> (args: Vec<String>)
        ensures
            arg_views(args@) == spec_cli_args(self.model_name@, prompt@, stream_json, windows),
    {
        let mut args: Vec<String> = Vec::new();
        match self.model_arg() {
            Some(m) => {
                args.push("-m".to_string());
                args.push(m.to_string());
            },
            None => {},
        }
        args.push("-p".to_string());
        if windows {
            args.push(escape_prompt_newlines(prompt));
        } else {
            args.push(prompt.to_string());
        }
        args.push("--yolo".to_string());
        if stream_json {
            args.push("--output-format".to_string());
            args.push("stream-json".to_string());
        }
        assert(arg_views(args@) =~= spec_cli_args(self.model_name@, prompt@, stream_json, windows));
        args
    }
}

/// The decimal digit for `d`.
pub open spec fn digit_char(d: int) -> char {
    if d == 0 {
        '0'
    } else if d == 1 {
        '1'
    } else if d == 2 {
        '2'
    } else if d == 3 {
        '3'
    } else if d == 4 {
        '4'
    } else if d == 5 {
        '5'
    } else if d == 6 {
        '6'
    } else if d == 7 {
        '7'
    } else if d == 8 {
        '8'
    } else {
        '9'
    }
}

/// The decimal digits of a natural number.
pub open spec fn decimal(n: nat) -> Seq<char>
    decreases n,
{
    if n < 10 {
        seq![digit_char(n as int)]
    } else {
        decimal(n / 10).push(digit_char((n % 10) as int))
    }
}

/// A number as `{:?}` writes it: its decimal digits, after `-` when negative.
pub open spec fn signed_decimal(n: int) -> Seq<char> {
    if n < 0 {
        seq!['-'] + decimal((-n) as nat)
    } else {
        decimal(n as nat)
    }
}

/// An exit code as `{:?}` writes an `Option<i32>`.
pub open spec fn debug_exit_code(code: Option<i32>) -> Seq<char> {
    match code {
        Some(c) => "Some("@ + signed_decimal(c as int) + ")"@,
        None => "None"@,
    }
}

fn digit_exec(d: u64) -> (c: char)
    requires
        d < 10,
    ensures
        c == digit_char(d as int),
{
    if d == 0 {
        '0'
    } else if d == 1 {
        '1'
    } else if d == 2 {
        '2'
    } else if d == 3 {
        '3'
    } else if d == 4 {
        '4'
    } else if d == 5 {
        '5'
    } else if d == 6 {
        '6'
    } else if d == 7 {
        '7'
    } else if d == 8 {
        '8'
    } else {
        '9'
    }
}

/// The decimal digits of `n`.
fn decimal_exec(n: u64) -> (s: Vec<char>)
    ensures
        s@ == decimal(n as nat),
    decreases n,
{
    if n < 10 {
        let mut v = Vec::new();
        v.push(digit_exec(n));
        assert(v@ =~= decimal(n as nat));
        v
    } else {
        let mut v = decimal_exec(n / 10);
        v.push(digit_exec(n % 10));
        v
    }
}

/// An exit code as `{:?}` writes an `Option<i32>` (see `debug_exit_code`).
pub fn exit_code_text(code: Option<i32>) -> (t: String)
    ensures
        t@ == debug_exit_code(code),
{
    match code {
        Some(c) => {
            let wide: i64 = c as i64;
            let mut t = "Some(".to_string();
            if wide < 0 {
                push_ch(&mut t, '-');
                let digits = decimal_exec((-wide) as u64);
                t.append(string_from_chars(digits.as_slice()).as_str());
            } else {
                let digits = decimal_exec(wide as u64);
                t.append(string_from_chars(digits.as_slice()).as_str());
            }
            t.append(")");
            assert(t@ =~= debug_exit_code(code));
            t
        },
        None => "None".to_string(),
    }
}

/// What a stream has shown so far: whether any reply text came.
pub struct StreamTracker {
    pub yielded_any_message: bool,
}

impl StreamTracker {
    /// A stream that has shown nothing yet.
    pub fn new() -> (t: StreamTracker)
        ensures
            !t.yielded_any_message,
    {
        StreamTracker { yielded_any_message: false }
    }

    /// What a line of the stream yields (see `stream_line`); remembers when it is text.
    pub fn on_line(&mut self, line: &str, model_name: &str) -> (r: StreamLine)
        ensures
            stream_line_view(r) == spec_stream_line(line@, model_name@),
            final(self).yielded_any_message == (old(self).yielded_any_message || stream_line_view(r).1 is Some),
    {
        let r = stream_line(line, model_name);
        match &r {
            StreamLine::Items { text: Some(_), .. } => {
                self.yielded_any_message = true;
            },
            _ => {},
        }
        r
    }

    /// The end of the stream once the CLI has exited: a failure naming the exit code when
    /// it did not succeed; else whether an empty reply must still be given, because no
    /// text came.
    pub fn finish(&self, success: bool, code: Option<i32>) -> (r: Result<bool, ProviderError>)
        ensures
            success ==> (r matches Ok(b) && b == !self.yielded_any_message),
            !success ==> (r matches Err(ProviderError::RequestFailed(m)) && m@ == "Gemini CLI exited with code: "@
                + debug_exit_code(code)),
    {
        if !success {
            let mut m = "Gemini CLI exited with code: ".to_string();
            m.append(exit_code_text(code).as_str());
            return Err(ProviderError::RequestFailed(m));
        }
        Ok(!self.yielded_any_message)
    }
}

/// The failure of a one-shot run of the CLI that did not succeed.
pub fn command_failed(code: Option<i32>) -> (e: ProviderError)
    ensures
        e matches ProviderError::RequestFailed(m) && m@ == "Command failed with exit code: "@ + debug_exit_code(code),
{
    let mut m = "Command failed with exit code: ".to_string();
    m.append(exit_code_text(code).as_str());
    ProviderError::RequestFailed(m)
}

/// The reply the provider gives without running the CLI: the session description when
/// the system prompt asks for one, else nothing.
pub fn description_shortcut(system: &str, messages: &[PromptMessage]) -> (r: Option<String>)
    ensures
        spec_is_description_request(system@) ==> (r matches Some(d) && d@ == spec_session_description(messages@)),
        !spec_is_description_request(system@) ==> r is None,
{
    if is_description_request(system) {
        Some(session_description(messages))
    } else {
        None
    }
}

/// The first member named `key` is the one found.
proof fn lemma_member_first(entries: Seq<(String, Json)>, key: Seq<char>, i: int)
    requires
        0 <= i < entries.len(),
        entries[i].0@ == key,
        forall|j: int| 0 <= j < i ==> (#[trigger] entries[j]).0@ != key,
    ensures
        member(entries, key) == Some(entries[i].1),
    decreases i,
{
    if i > 0 {
        let rest = entries.drop_first();
        assert forall|j: int| 0 <= j < i - 1 implies (#[trigger] rest[j]).0@ != key by {
            assert(rest[j] == entries[j + 1]);
        }
        assert(entries[0].0@ != key);
        lemma_member_first(rest, key, i - 1);
    }
}

/// No member named `key` means none is found.
proof fn lemma_member_absent(entries: Seq<(String, Json)>, key: Seq<char>)
    requires
        forall|j: int| 0 <= j < entries.len() ==> (#[trigger] entries[j]).0@ != key,
    ensures
        member(entries, key) is None,
    decreases entries.len(),
{
    if entries.len() > 0 {
        let rest = entries.drop_first();
        assert forall|j: int| 0 <= j < rest.len() implies (#[trigger] rest[j]).0@ != key by {
            assert(rest[j] == entries[j + 1]);
        }
        assert(entries[0].0@ != key);
        lemma_member_absent(rest, key);
    }
}

/// The usage is the requested model's: when `stats.models` has an entry for the model
/// name, the token counts come from that entry (the first of that name); only when no
/// entry has the name do they come from the first entry.
pub proof fn lemma_usage_is_the_named_models(
    value: Json,
    model_name: Seq<char>,
    stats: Json,
    entries: Vec<(String, Json)>,
    i: int,
    tokens: Json,
)
    requires
        json_get(value, "stats"@) == Some(stats),
        json_get(stats, "models"@) == Some(Json::Object(entries)),
        0 <= i < entries@.len(),
        json_get(entries@[i].1, "tokens"@) == Some(tokens),
        (entries@[i].0@ == model_name && forall|j: int| 0 <= j < i ==> (#[trigger] entries@[j]).0@ != model_name)
            || (i == 0 && forall|j: int| 0 <= j < entries@.len() ==> (#[trigger] entries@[j]).0@ != model_name),
    ensures
        spec_usage_from_value(value, model_name).input_tokens == as_count(json_u64(json_get(tokens, "prompt"@))),
        spec_usage_from_value(value, model_name).output_tokens == as_count(
            json_u64(json_get(tokens, "candidates"@)),
        ),
        json_u64(json_get(tokens, "total"@)) is Some ==> spec_usage_from_value(value, model_name).total_tokens
            == as_count(json_u64(json_get(tokens, "total"@))),
{
    if entries@[i].0@ == model_name && forall|j: int| 0 <= j < i ==> (#[trigger] entries@[j]).0@ != model_name {
        lemma_member_first(entries@, model_name, i);
    } else {
        lemma_member_absent(entries@, model_name);
    }
}

} // verus!
