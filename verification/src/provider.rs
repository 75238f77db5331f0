//! OpenAI-compatible chat provider: message roles, agent events and the
//! text handling of the wire format (SSE lines, endpoint URLs). The HTTP
//! client itself is I/O and stays with the application.
use vstd::prelude::*;
use vstd::string::StrSliceExecFns;

use std::collections::BTreeMap;

use crate::json::{self, JsonValue, JsonModel, get_str, copy_json, json_model, json_models, entry_models};
use crate::tools::{self, ToolCall};
use crate::text::{self, chars_of, string_of, push_chars, push_str, lead_ws_exec, ends_with_exec, contains_exec};

verus! {

#[derive(Debug, Clone, Copy, PartialEq, Eq, Structural)]
pub enum Role {
    System,
    User,
    Assistant,
    Tool,
}

/// Events a run reports to the UI.
#[derive(Debug, Clone)]
pub enum AgentEvent {
    State(&'static str),
    Activity(String),
    TextDelta(String),
    ToolStart { name: String, arguments: String },
    ToolEnd {
        name: String,
        /// Tool result content (truncated by the caller for display).
        output: String,
        is_error: bool,
    },
    Error(String),
    Done,
}

/// Number of trailing `\r` / `\n` characters.
pub open spec fn trail_crlf(s: Seq<char>) -> nat
    decreases s.len(),
{
    if s.len() > 0 && (s.last() == '\r' || s.last() == '\n') {
        1 + trail_crlf(s.drop_last())
    } else {
        0
    }
}

proof fn lemma_trail_crlf(s: Seq<char>, k: int)
    requires
        0 <= k <= s.len(),
        forall|j: int| s.len() - k <= j < s.len() ==> (#[trigger] s[j] == '\r' || s[j] == '\n'),
        k == s.len() || (s[s.len() - k - 1] != '\r' && s[s.len() - k - 1] != '\n'),
    ensures
        trail_crlf(s) == k,
    decreases k,
{
    if k > 0 {
        let t = s.drop_last();
        assert forall|j: int| t.len() - (k - 1) <= j < t.len() implies (#[trigger] t[j] == '\r'
            || t[j] == '\n') by {
            assert(t[j] == s[j]);
        }
        if k < s.len() {
            assert(t[t.len() - (k - 1) - 1] == s[s.len() - k - 1]);
        }
        lemma_trail_crlf(t, k - 1);
    }
}

/// The payload of an SSE `data:` line (line ending removed, leading
/// whitespace of the payload skipped); `None` for blank lines, comments
/// (`:`) and other fields.
pub open spec fn spec_sse_data_payload(line: Seq<char>) -> Option<Seq<char>> {
    let l = line.take(line.len() - trail_crlf(line));
    if l.len() == 0 || l[0] == ':' {
        None
    } else if text::starts_with(l, "data:"@) {
        Some(text::trim_start(l.skip(5)))
    } else {
        None
    }
}

/// Extract SSE `data:` payload, or `None` for comments / blank / non-data lines.
pub fn sse_data_payload(line: &str) -> (r: Option<&str>)
    ensures
        match spec_sse_data_payload(line@) {
            Some(p) => r matches Some(s) && s@ == p,
            None => r is None,
        },
{
    let v = chars_of(line);
    let mut k: usize = 0;
    while k < v.len() && (v[v.len() - k - 1] == '\r' || v[v.len() - k - 1] == '\n')
        invariant
            k <= v.len(),
            forall|j: int| v.len() - k <= j < v.len() ==> (#[trigger] v@[j] == '\r' || v@[j] == '\n'),
        decreases v.len() - k,
    {
        k = k + 1;
    }
    proof {
        lemma_trail_crlf(v@, k as int);
    }
    let end = v.len() - k;
    if end == 0 || v[0] == ':' {
        return None;
    }
    let is_data = end >= 5 && v[0] == 'd' && v[1] == 'a' && v[2] == 't' && v[3] == 'a' && v[4] == ':';
    proof {
        reveal_strlit("data:");
        let l = v@.take(end as int);
        if is_data {
            assert(l.take(5) =~= "data:"@);
        } else if 5 <= l.len() && l.take(5) == "data:"@ {
            assert(l.take(5)[0] == 'd');
            assert(l.take(5)[1] == 'a');
            assert(l.take(5)[2] == 't');
            assert(l.take(5)[3] == 'a');
            assert(l.take(5)[4] == ':');
        }
    }
    if !is_data {
        return None;
    }
    let payload = text::slice_of(&v, 5, end);
    let lead = lead_ws_exec(&payload);
    assert(payload@ =~= v@.take(end as int).skip(5));
    let r = line.substring_char(5 + lead, end);
    assert(r@ =~= text::trim_start(payload@));
    Some(r)
}

/// The chat-completions endpoint of an OpenAI-compatible base URL (trailing
/// `/` removed): a base ending in `/v1` or holding `/openai` gets
/// `/chat/completions` unless it already ends with it; any other base gets
/// `/v1/chat/completions`.
pub open spec fn spec_chat_completions_url(base_url: Seq<char>) -> Seq<char> {
    let base = base_url.take(base_url.len() - crate::assets::trail_count(base_url, '/'));
    if text::ends_with(base, "/v1"@) || text::ends_with(base, "/openai"@) || text::contains(
        base,
        "/openai"@,
    ) {
        if text::ends_with(base, "/chat/completions"@) {
            base
        } else {
            base + "/chat/completions"@
        }
    } else {
        base + "/v1/chat/completions"@
    }
}

/// Trailing slashes of a base URL do not matter: the endpoint of `b/` is
/// the endpoint of `b`, for every base `b`.
pub proof fn law_url_ignores_trailing_slash(b: Seq<char>)
    ensures
        spec_chat_completions_url(b.push('/')) == spec_chat_completions_url(b),
{
    let c = b.push('/');
    assert(c.drop_last() =~= b);
    assert(crate::assets::trail_count(c, '/') == 1 + crate::assets::trail_count(b, '/'));
    crate::assets::lemma_trail_count_bound(b, '/');
    assert(c.take(c.len() - crate::assets::trail_count(c, '/')) =~= b.take(b.len() - crate::assets::trail_count(b, '/')));
}

/// The endpoint of a base URL `b` without a trailing `/`: `b` followed by
/// `/v1/chat/completions`, unless `b` ends with `/v1` or holds `/openai`; then
/// `b` followed by `/chat/completions`, or `b` itself when it already ends with
/// that.
pub proof fn law_url_of_plain_base(b: Seq<char>)
    requires
        b.len() == 0 || b.last() != '/',
    ensures
        !(text::ends_with(b, "/v1"@) || text::contains(b, "/openai"@)) ==> spec_chat_completions_url(b) == b
            + "/v1/chat/completions"@,
        (text::ends_with(b, "/v1"@) || text::contains(b, "/openai"@)) && !text::ends_with(b, "/chat/completions"@)
            ==> spec_chat_completions_url(b) == b + "/chat/completions"@,
        (text::ends_with(b, "/v1"@) || text::contains(b, "/openai"@)) && text::ends_with(b, "/chat/completions"@)
            ==> spec_chat_completions_url(b) == b,
{
    assert(crate::assets::trail_count(b, '/') == 0);
    assert(b.take(b.len() as int) =~= b);
    if text::ends_with(b, "/openai"@) {
        assert(text::contains_at(b, "/openai"@, b.len() - "/openai"@.len()));
    }
}

pub fn chat_completions_url(base_url: &str) -> (r: String)
    ensures
        r@ == spec_chat_completions_url(base_url@),
{
    let v = chars_of(base_url);
    let mut k: usize = 0;
    while k < v.len() && v[v.len() - k - 1] == '/'
        invariant
            k <= v.len(),
            forall|j: int| v.len() - k <= j < v.len() ==> #[trigger] v@[j] == '/',
        decreases v.len() - k,
    {
        k = k + 1;
    }
    proof {
        crate::assets::lemma_trail_count(v@, '/', k as int);
    }
    let base = text::slice_of(&v, 0, v.len() - k);
    let mut out = string_of(&base);
    if ends_with_exec(&base, &chars_of("/v1")) || ends_with_exec(&base, &chars_of("/openai"))
        || contains_exec(&base, &chars_of("/openai")) {
        if !ends_with_exec(&base, &chars_of("/chat/completions")) {
            push_str(&mut out, "/chat/completions");
        }
    } else {
        push_str(&mut out, "/v1/chat/completions");
    }
    out
}


// ---------------------------------------------------------------------------
// Messages
// ---------------------------------------------------------------------------
/// One message of a chat-completions request.
#[derive(Debug)]
pub struct ChatMessage {
    pub role: Role,
    pub content: String,
    /// When set, sent as the multimodal `content` array (text + images).
    pub content_parts: Option<Vec<JsonValue>>,
    pub tool_call_id: Option<String>,
    pub tool_calls: Option<Vec<JsonValue>>,
}

impl ChatMessage {
    fn plain(role: Role, content: String) -> (r: Self)
        ensures
            r.role == role,
            r.content@ == content@,
            r.content_parts is None,
            r.tool_call_id is None,
            r.tool_calls is None,
    {
        ChatMessage { role, content, content_parts: None, tool_call_id: None, tool_calls: None }
    }

    pub fn system(content: String) -> (r: Self)
        ensures
            r.role == Role::System,
            r.content@ == content@,
            r.content_parts is None && r.tool_call_id is None && r.tool_calls is None,
    {
        Self::plain(Role::System, content)
    }

    pub fn user(content: String) -> (r: Self)
        ensures
            r.role == Role::User,
            r.content@ == content@,
            r.content_parts is None && r.tool_call_id is None && r.tool_calls is None,
    {
        Self::plain(Role::User, content)
    }

    pub fn assistant_text(content: String) -> (r: Self)
        ensures
            r.role == Role::Assistant,
            r.content@ == content@,
            r.content_parts is None && r.tool_call_id is None && r.tool_calls is None,
    {
        Self::plain(Role::Assistant, content)
    }

    pub fn assistant_tools(content: String, tool_calls: Vec<JsonValue>) -> (r: Self)
        ensures
            r.role == Role::Assistant,
            r.content@ == content@,
            r.content_parts is None && r.tool_call_id is None,
            r.tool_calls == Some(tool_calls),
    {
        ChatMessage { role: Role::Assistant, content, content_parts: None, tool_call_id: None, tool_calls: Some(tool_calls) }
    }

    pub fn tool(tool_call_id: String, content: String) -> (r: Self)
        ensures
            r.role == Role::Tool,
            r.content@ == content@,
            r.tool_call_id matches Some(id) && id@ == tool_call_id@,
            r.content_parts is None && r.tool_calls is None,
    {
        ChatMessage { role: Role::Tool, content, content_parts: None, tool_call_id: Some(tool_call_id), tool_calls: None }
    }

    /// User message with image data-URLs for vision-capable models: the
    /// text plus one `image_url` part per image (no parts without images).
    pub fn user_with_images(text: String, image_data_urls: Vec<String>) -> (r: Self)
        ensures
            r.role == Role::User,
            r.content@ == text@,
            r.tool_call_id is None && r.tool_calls is None,
            image_data_urls@.len() == 0 ==> r.content_parts is None,
            image_data_urls@.len() > 0 ==> (r.content_parts matches Some(parts) && parts@.len() == image_data_urls@.len() + 1),
    {
        let mut parts: Vec<JsonValue> = Vec::new();
        parts.push(JsonValue::Object(vec![
            (string_of(&chars_of("type")), JsonValue::String(string_of(&chars_of("text")))),
            (string_of(&chars_of("text")), JsonValue::String(string_of(&chars_of(text.as_str())))),
        ]));
        let mut i: usize = 0;
        while i < image_data_urls.len()
            invariant
                i <= image_data_urls.len(),
                parts@.len() == i + 1,
            decreases image_data_urls.len() - i,
        {
            let url = JsonValue::Object(vec![(string_of(&chars_of("url")), JsonValue::String(string_of(&chars_of(image_data_urls[i].as_str()))))]);
            parts.push(JsonValue::Object(vec![
                (string_of(&chars_of("type")), JsonValue::String(string_of(&chars_of("image_url")))),
                (string_of(&chars_of("image_url")), url),
            ]));
            i = i + 1;
        }
        let content_parts = if image_data_urls.len() > 0 { Some(parts) } else { None };
        ChatMessage { role: Role::User, content: text, content_parts, tool_call_id: None, tool_calls: None }
    }
}

pub open spec fn role_name(role: Role) -> Seq<char> {
    match role {
        Role::System => "system"@,
        Role::User => "user"@,
        Role::Assistant => "assistant"@,
        Role::Tool => "tool"@,
    }
}

/// What the wire form of a message holds: its role and content (the parts
/// when set), its tool call id and tool calls when set.
pub open spec fn message_model(m: ChatMessage) -> JsonModel {
    let content = match m.content_parts {
        Some(p) => JsonModel::Array(json_models(p@)),
        None => JsonModel::Str(m.content@),
    };
    JsonModel::Object(
        seq![("role"@, JsonModel::Str(role_name(m.role))), ("content"@, content)] + (match m.tool_call_id {
            Some(id) => seq![("tool_call_id"@, JsonModel::Str(id@))],
            None => Seq::empty(),
        }) + (match m.tool_calls {
            Some(c) => seq![("tool_calls"@, JsonModel::Array(json_models(c@)))],
            None => Seq::empty(),
        }),
    )
}

/// The wire form of a message.
pub fn message_to_json(msg: &ChatMessage) -> (r: JsonValue)
    ensures
        json::spec_get_str(r, "role"@) == Some(role_name(msg.role)),
        json_model(r) == message_model(*msg),
{
    let role = match msg.role {
        Role::System => "system",
        Role::User => "user",
        Role::Assistant => "assistant",
        Role::Tool => "tool",
    };
    let content = match &msg.content_parts {
        Some(parts) => JsonValue::Array(json::copy_all(parts)),
        None => JsonValue::String(msg.content.clone()),
    };
    let mut entries: Vec<(String, JsonValue)> = vec![
        (string_of(&chars_of("role")), JsonValue::String(string_of(&chars_of(role)))),
        (string_of(&chars_of("content")), content),
    ];
    let ghost first = entries@[0];
    let ghost head = entries@;
    match &msg.tool_call_id {
        Some(id) => entries.push((string_of(&chars_of("tool_call_id")), JsonValue::String(id.clone()))),
        None => {},
    }
    let ghost mid = entries@;
    match &msg.tool_calls {
        Some(calls) => {
            entries.push((string_of(&chars_of("tool_calls")), JsonValue::Array(json::copy_all(calls))));
        },
        None => {},
    }
    assert(entries@[0] == first);
    assert(json::entry_index(entries@, "role"@) == Some(0int));
    proof {
        json::lemma_entry_models(entries@);
        let expected = match message_model(*msg) {
            JsonModel::Object(e) => e,
            _ => Seq::empty(),
        };
        assert(entries@.len() == expected.len());
        assert forall|i: int| 0 <= i < expected.len() implies #[trigger] entry_models(entries@)[i] == expected[i] by {
            assert(entries@[i] == if i < 2 { head[i] } else if i < mid.len() { mid[i] } else { entries@[i] });
        }
        assert(entry_models(entries@) =~= expected);
    }
    JsonValue::Object(entries)
}

// ---------------------------------------------------------------------------
// Responses
// ---------------------------------------------------------------------------
/// A tool call as the model sent it, its arguments still as JSON text.
#[derive(Debug, Clone)]
pub struct PendingCall {
    pub id: String,
    pub name: String,
    pub arguments: String,
}

pub struct CallView {
    pub id: Seq<char>,
    pub name: Seq<char>,
    pub arguments: Seq<char>,
}

pub open spec fn call_view(c: PendingCall) -> CallView {
    CallView { id: c.id@, name: c.name@, arguments: c.arguments@ }
}

impl PendingCall {
    /// A copy of the call.
    pub fn copy(&self) -> (r: PendingCall)
        ensures
            call_view(r) == call_view(*self),
    {
        PendingCall {
            id: string_of(&chars_of(self.id.as_str())),
            name: string_of(&chars_of(self.name.as_str())),
            arguments: string_of(&chars_of(self.arguments.as_str())),
        }
    }
}

/// What the model answered: its text and its tool calls (arguments parsed),
/// and the tool calls as sent, to echo back.
#[derive(Debug)]
pub struct ProviderResponse {
    pub content: String,
    pub tool_calls: Vec<ToolCall>,
    pub raw_tool_calls: Vec<JsonValue>,
}

/// The wire form of a streamed tool call, echoed back to the model.
pub fn raw_tool_call_json(call: &PendingCall) -> (r: JsonValue)
    ensures
        json::spec_get_str(r, "id"@) == Some(call.id@),
        json_model(r) == JsonModel::Object(
            seq![
                ("id"@, JsonModel::Str(call.id@)),
                ("type"@, JsonModel::Str("function"@)),
                (
                    "function"@,
                    JsonModel::Object(
                        seq![("name"@, JsonModel::Str(call.name@)), ("arguments"@, JsonModel::Str(call.arguments@))],
                    ),
                ),
            ],
        ),
{
    let function = JsonValue::Object(vec![
        (string_of(&chars_of("name")), JsonValue::String(string_of(&chars_of(call.name.as_str())))),
        (string_of(&chars_of("arguments")), JsonValue::String(string_of(&chars_of(call.arguments.as_str())))),
    ]);
    let entries = vec![
        (string_of(&chars_of("id")), JsonValue::String(string_of(&chars_of(call.id.as_str())))),
        (string_of(&chars_of("type")), JsonValue::String(string_of(&chars_of("function")))),
        (string_of(&chars_of("function")), function),
    ];
    assert(json::entry_index(entries@, "id"@) == Some(0int));
    proof {
        let f = entries@[2].1;
        match f {
            JsonValue::Object(fe) => {
                json::lemma_entry_models(fe@);
                assert(entry_models(fe@) =~= seq![
                    ("name"@, JsonModel::Str(call.name@)),
                    ("arguments"@, JsonModel::Str(call.arguments@)),
                ]);
            },
            _ => {},
        }
        json::lemma_entry_models(entries@);
        assert(entry_models(entries@) =~= seq![
            ("id"@, JsonModel::Str(call.id@)),
            ("type"@, JsonModel::Str("function"@)),
            (
                "function"@,
                JsonModel::Object(
                    seq![("name"@, JsonModel::Str(call.name@)), ("arguments"@, JsonModel::Str(call.arguments@))],
                ),
            ),
        ]);
    }
    JsonValue::Object(entries)
}

/// Element `i` of `v`, when `v` is an array that long.
fn element(v: &JsonValue, i: usize) -> (r: Option<&JsonValue>)
    ensures
        match *v {
            JsonValue::Array(items) => if i < items@.len() { r == Some(&items@[i as int]) } else { r is None },
            _ => r is None,
        },
{
    match v {
        JsonValue::Array(items) => if i < items.len() { Some(&items[i]) } else { None },
        _ => None,
    }
}

/// `choices[0].message` of a response body.
pub open spec fn spec_first_message(body: JsonValue) -> Option<JsonValue> {
    match json::spec_get(body, "choices"@) {
        Some(JsonValue::Array(items)) => if items@.len() > 0 {
            json::spec_get(items@[0], "message"@)
        } else {
            None
        },
        _ => None,
    }
}

fn first_message(body: &JsonValue) -> (r: Option<&JsonValue>)
    ensures
        match spec_first_message(*body) {
            Some(m) => r == Some(&m),
            None => r is None,
        },
{
    match body.get("choices") {
        Some(c) => match element(c, 0) {
            Some(first) => first.get("message"),
            None => None,
        },
        None => None,
    }
}

/// `function.<key>` of a tool call, when a string.
pub open spec fn spec_function_str(call: JsonValue, key: Seq<char>) -> Option<Seq<char>> {
    match json::spec_get(call, "function"@) {
        Some(f) => json::spec_get_str(f, key),
        None => None,
    }
}

fn function_str(call: &JsonValue, key: &str) -> (r: Option<String>)
    ensures
        match spec_function_str(*call, key@) {
            Some(s) => r matches Some(x) && x@ == s,
            None => r is None,
        },
{
    match call.get("function") {
        Some(f) => get_str(f, key),
        None => None,
    }
}

pub open spec fn or_empty(o: Option<Seq<char>>) -> Seq<char> {
    match o {
        Some(s) => s,
        None => Seq::empty(),
    }
}

/// A tool call of a complete response: its id, name and argument text
/// (`{}` when missing).
pub open spec fn spec_pending_call(call: JsonValue) -> CallView {
    CallView {
        id: or_empty(json::spec_get_str(call, "id"@)),
        name: or_empty(spec_function_str(call, "name"@)),
        arguments: match spec_function_str(call, "arguments"@) {
            Some(a) => a,
            None => "{}"@,
        },
    }
}

/// `t` holds the text and the tool calls of the message `m` of a complete
/// response, and its tool calls as sent.
pub open spec fn message_parts(m: JsonValue, t: (String, Vec<PendingCall>, Vec<JsonValue>)) -> bool {
    &&& t.0@ == or_empty(json::spec_get_str(m, "content"@))
    &&& match json::spec_get(m, "tool_calls"@) {
        Some(JsonValue::Array(calls)) => t.1@.map_values(|c: PendingCall| call_view(c)) == calls@.map_values(
            |c: JsonValue| spec_pending_call(c),
        ) && t.2@.len() == calls@.len() && json_models(t.2@) == json_models(calls@),
        _ => t.1@.len() == 0 && t.2@.len() == 0,
    }
}

/// The text and tool calls of a complete (non-streamed) response body, or
/// an error when it has no `choices[0].message`. The raw calls are the
/// calls as sent, to echo back.
pub fn parse_provider_response(parsed: &JsonValue) -> (r: Result<(String, Vec<PendingCall>, Vec<JsonValue>), String>)
    ensures
        spec_first_message(*parsed) is None ==> (r matches Err(e) && e@ == "missing choices[0].message"@),
        spec_first_message(*parsed) matches Some(m) ==> (r matches Ok(t) && message_parts(m, t)),
{
    let choice = match first_message(parsed) {
        Some(c) => c,
        None => return Err(string_of(&chars_of("missing choices[0].message"))),
    };
    let content = match get_str(choice, "content") {
        Some(c) => c,
        None => String::new(),
    };
    let mut calls: Vec<PendingCall> = Vec::new();
    let mut raw: Vec<JsonValue> = Vec::new();
    match choice.get("tool_calls") {
        Some(JsonValue::Array(arr)) => {
            let mut i: usize = 0;
            while i < arr.len()
                invariant
                    i <= arr.len(),
                    calls@.len() == i && raw@.len() == i,
                    calls@.map_values(|c: PendingCall| call_view(c)) =~= arr@.take(i as int).map_values(
                        |c: JsonValue| spec_pending_call(c),
                    ),
                    json_models(raw@) == json_models(arr@.take(i as int)),
                decreases arr.len() - i,
            {
                let call = &arr[i];
                let ghost raw_before = raw@;
                raw.push(copy_json(call));
                proof {
                    assert(raw@.drop_last() =~= raw_before);
                    assert(arr@.take(i + 1).drop_last() =~= arr@.take(i as int));
                    assert(arr@.take(i + 1).last() == arr@[i as int]);
                }
                let id = match get_str(call, "id") {
                    Some(s) => s,
                    None => String::new(),
                };
                let name = match function_str(call, "name") {
                    Some(s) => s,
                    None => String::new(),
                };
                let arguments = match function_str(call, "arguments") {
                    Some(s) => s,
                    None => string_of(&chars_of("{}")),
                };
                let ghost before = calls@.map_values(|c: PendingCall| call_view(c));
                calls.push(PendingCall { id, name, arguments });
                assert(calls@.map_values(|c: PendingCall| call_view(c)) =~= before.push(spec_pending_call(arr@[i as int])));
                assert(arr@.take(i + 1) =~= arr@.take(i as int).push(arr@[i as int]));
                i = i + 1;
            }
            assert(arr@.take(i as int) =~= arr@);
        },
        _ => {},
    }
    Ok((content, calls, raw))
}


// ---------------------------------------------------------------------------
// Streamed responses
// ---------------------------------------------------------------------------
/// Collects a streamed response: the text so far and the tool calls by
/// their index.
pub struct StreamAccumulator {
    content: String,
    tools: BTreeMap<usize, PendingCall>,
}

pub open spec fn empty_call() -> CallView {
    CallView { id: Seq::empty(), name: Seq::empty(), arguments: Seq::empty() }
}

/// A streamed piece of a tool call: a non-empty id or name replaces the
/// one so far, argument text is appended.
pub open spec fn merge_call(b: CallView, call: JsonValue) -> CallView {
    CallView {
        id: match json::spec_get_str(call, "id"@) {
            Some(id) => if id.len() > 0 { id } else { b.id },
            None => b.id,
        },
        name: match spec_function_str(call, "name"@) {
            Some(n) => if n.len() > 0 { n } else { b.name },
            None => b.name,
        },
        arguments: match spec_function_str(call, "arguments"@) {
            Some(a) => b.arguments + a,
            None => b.arguments,
        },
    }
}

/// The index a streamed tool call piece belongs to (0 when missing).
pub open spec fn call_index(call: JsonValue) -> usize {
    match json::spec_get(call, "index"@) {
        Some(JsonValue::Number(Some(n))) => n as usize,
        _ => 0,
    }
}

/// A tool-call piece whose `index` is the number `n` is merged into the call
/// under key `n` only: afterwards the calls hold `n`, the call there is the
/// piece merged into the call that was there (or into an empty call), and
/// the calls under every other key are as they were. A piece without a
/// numeric `index` goes under key 0.
pub proof fn law_piece_goes_under_its_index(m: Map<usize, CallView>, call: JsonValue)
    ensures
        ({
            let k: usize = match json::spec_get(call, "index"@) {
                Some(JsonValue::Number(Some(n))) => n as usize,
                _ => 0,
            };
            &&& upsert(m, call).contains_key(k)
            &&& upsert(m, call)[k] == merge_call(if m.contains_key(k) { m[k] } else { empty_call() }, call)
            &&& forall|j: usize| j != k ==> (#[trigger] upsert(m, call).contains_key(j) == m.contains_key(j)) && (
            m.contains_key(j) ==> upsert(m, call)[j] == m[j])
        }),
        forall|n: u64|
            json::spec_get(call, "index"@) == Some(JsonValue::Number(Some(n))) && n <= usize::MAX ==> #[trigger] upsert(
                m,
                call,
            ).contains_key(n as usize) && (n as usize) as u64 == n,
{
}

/// Merging a streamed piece into a call: a non-empty `id` or
/// `function.name` of the piece replaces the call's, an empty or missing one
/// keeps it, and the piece's `function.arguments` text is appended to the
/// call's arguments (nothing when it has none).
pub proof fn law_merge_piece(b: CallView, call: JsonValue)
    ensures
        merge_call(b, call).arguments == b.arguments + or_empty(spec_function_str(call, "arguments"@)),
        (json::spec_get_str(call, "id"@) matches Some(id) && id.len() > 0) ==> merge_call(b, call).id
            == json::spec_get_str(call, "id"@).unwrap(),
        !(json::spec_get_str(call, "id"@) matches Some(id) && id.len() > 0) ==> merge_call(b, call).id == b.id,
        (spec_function_str(call, "name"@) matches Some(n) && n.len() > 0) ==> merge_call(b, call).name
            == spec_function_str(call, "name"@).unwrap(),
        !(spec_function_str(call, "name"@) matches Some(n) && n.len() > 0) ==> merge_call(b, call).name == b.name,
{
    assert(b.arguments + Seq::<char>::empty() =~= b.arguments);
}

/// The calls after a streamed tool call piece: it is merged into the call
/// of its index, a new one when there is none yet.
pub open spec fn upsert(m: Map<usize, CallView>, call: JsonValue) -> Map<usize, CallView> {
    let idx = call_index(call);
    m.insert(idx, merge_call(if m.contains_key(idx) { m[idx] } else { empty_call() }, call))
}

pub open spec fn upsert_all(m: Map<usize, CallView>, calls: Seq<JsonValue>) -> Map<usize, CallView>
    decreases calls.len(),
{
    if calls.len() == 0 {
        m
    } else {
        upsert(upsert_all(m, calls.drop_last()), calls.last())
    }
}

/// A key sequence that `BTreeMap` calls increasing is ascending.
proof fn lemma_ascending_keys(ks: Seq<usize>, dom: Set<usize>)
    requires
        vstd::std_specs::btree::increasing_seq(ks),
        ks.to_set() == dom,
    ensures
        ascending_keys(ks, dom),
{
    assert(vstd::laws_cmp::obeys_cmp::<usize>());
    assert forall|i: int, j: int| 0 <= i < j < ks.len() implies #[trigger] ks[i] < #[trigger] ks[j] by {
        assert(vstd::std_specs::cmp::OrdSpec::cmp_spec(&ks[i], &ks[j]) is Less);
    }
}

/// `ks` lists the keys of `dom`, each once, in ascending order.
pub open spec fn ascending_keys(ks: Seq<usize>, dom: Set<usize>) -> bool {
    &&& forall|i: int, j: int| 0 <= i < j < ks.len() ==> #[trigger] ks[i] < #[trigger] ks[j]
    &&& ks.to_set() == dom
}

/// The text of a delta, when it carries some.
pub open spec fn delta_text(delta: JsonValue) -> Option<Seq<char>> {
    match json::spec_get_str(delta, "content"@) {
        Some(c) => if c.len() > 0 { Some(c) } else { None },
        None => None,
    }
}

/// The tool call pieces of a delta.
pub open spec fn delta_calls(delta: JsonValue) -> Seq<JsonValue> {
    match json::spec_get(delta, "tool_calls"@) {
        Some(JsonValue::Array(calls)) => calls@,
        _ => Seq::empty(),
    }
}

impl StreamAccumulator {
    /// The tool calls so far, by index.
    pub closed spec fn calls(&self) -> Map<usize, CallView> {
        self.tools@.map_values(|c: PendingCall| call_view(c))
    }

    /// The text so far.
    pub closed spec fn text(&self) -> Seq<char> {
        self.content@
    }

    pub fn new() -> (r: Self)
        ensures
            r.text() == Seq::<char>::empty(),
            r.calls() == Map::<usize, CallView>::empty(),
    {
        let r = StreamAccumulator { content: String::new(), tools: BTreeMap::new() };
        assert(r.calls() =~= Map::<usize, CallView>::empty());
        r
    }

    fn merge(b: &mut PendingCall, call: &JsonValue)
        ensures
            call_view(*final(b)) == merge_call(call_view(*old(b)), *call),
    {
        match get_str(call, "id") {
            Some(id) => {
                if chars_of(id.as_str()).len() > 0 {
                    b.id = id;
                }
            },
            None => {},
        }
        match function_str(call, "name") {
            Some(n) => {
                if chars_of(n.as_str()).len() > 0 {
                    b.name = n;
                }
            },
            None => {},
        }
        match function_str(call, "arguments") {
            Some(a) => text::push_str(&mut b.arguments, a.as_str()),
            None => {},
        }
    }

    fn upsert_one(&mut self, call: &JsonValue)
        ensures
            final(self).calls() == upsert(old(self).calls(), *call),
            final(self).content == old(self).content,
    {
        let idx: usize = match call.get("index") {
            Some(JsonValue::Number(Some(n))) => *n as usize,
            _ => 0,
        };
        assert(idx == call_index(*call));
        let mut b = match self.tools.get(&idx) {
            Some(c) => c.copy(),
            None => PendingCall { id: String::new(), name: String::new(), arguments: String::new() },
        };
        assert(call_view(b) == (if self.calls().contains_key(idx) { self.calls()[idx] } else { empty_call() }));
        Self::merge(&mut b, call);
        self.tools.insert(idx, b);
        assert(self.calls() =~= upsert(old(self).calls(), *call));
    }

    /// Apply a streamed delta; returns its text, which the caller shows.
    pub fn apply_delta(&mut self, delta: &JsonValue) -> (r: Option<String>)
        ensures
            match delta_text(*delta) {
                Some(c) => r matches Some(x) && x@ == c && final(self).text() == old(self).text() + c,
                None => r is None && final(self).text() == old(self).text(),
            },
            final(self).calls() == upsert_all(old(self).calls(), delta_calls(*delta)),
    {
        let mut emitted: Option<String> = None;
        match get_str(delta, "content") {
            Some(c) => {
                if chars_of(c.as_str()).len() > 0 {
                    text::push_str(&mut self.content, c.as_str());
                    emitted = Some(c);
                }
            },
            None => {},
        }
        let ghost start = self.calls();
        match delta.get("tool_calls") {
            Some(JsonValue::Array(arr)) => {
                let mut i: usize = 0;
                assert(arr@.take(0) =~= Seq::<JsonValue>::empty());
                while i < arr.len()
                    invariant
                        i <= arr.len(),
                        self.calls() == upsert_all(start, arr@.take(i as int)),
                        self.text() == (match delta_text(*delta) {
                            Some(c) => old(self).text() + c,
                            None => old(self).text(),
                        }),
                    decreases arr.len() - i,
                {
                    assert(arr@.take(i + 1).drop_last() =~= arr@.take(i as int));
                    assert(arr@.take(i + 1).last() == arr@[i as int]);
                    self.upsert_one(&arr[i]);
                    i = i + 1;
                }
                assert(arr@.take(i as int) =~= arr@);
            },
            _ => {},
        }
        emitted
    }

    /// The text and the tool calls, in ascending index order.
    pub fn into_parts(self) -> (r: (String, Vec<PendingCall>))
        ensures
            r.0@ == self.text(),
            exists|ks: Seq<usize>|
                #![trigger ascending_keys(ks, self.calls().dom())]
                ascending_keys(ks, self.calls().dom()) && r.1@.map_values(|c: PendingCall| call_view(c))
                    == ks.map_values(|k: usize| self.calls()[k]),
    {
        let mut calls: Vec<PendingCall> = Vec::new();
        let values = self.tools.values();
        let ghost m = self.tools@;
        let ghost ks = choose|ks: Seq<usize>|
            {
                &&& vstd::std_specs::btree::increasing_seq(ks)
                &&& ks.to_set() == m.dom()
                &&& ks.no_duplicates()
                &&& vstd::std_specs::iter::IteratorSpec::remaining(&values) == ks.map(|i: int, k: usize| &m[k])
            };
        for c in it: values
            invariant
                it.seq() == ks.map(|i: int, k: usize| &m[k]),
                calls@.map_values(|c: PendingCall| call_view(c)) == ks.take(it.index()).map_values(
                    |k: usize| call_view(m[k]),
                ),
        {
            let ghost before = calls@.map_values(|c: PendingCall| call_view(c));
            calls.push(c.copy());
            assert(calls@.map_values(|c: PendingCall| call_view(c)) =~= before.push(call_view(*c)));
            assert(ks.take(it.index() + 1) =~= ks.take(it.index()).push(ks[it.index()]));
        }
        proof {
            assert(ks.take(ks.len() as int) =~= ks);
            lemma_ascending_keys(ks, m.dom());
            assert(self.calls().dom() =~= m.dom());
            assert forall|i: int| 0 <= i < ks.len() implies self.calls()[#[trigger] ks[i]] == call_view(m[ks[i]]) by {
                assert(ks.to_set().contains(ks[i]));
            }
            assert(ks.map_values(|k: usize| call_view(m[k])) =~= ks.map_values(|k: usize| self.calls()[k]));
        }
        (self.content, calls)
    }
}

/// The tool call the agent runs for a call the model sent: its id and name,
/// and its argument text parsed as JSON (an empty object when the text is
/// not JSON).
pub fn tool_call_of(call: &PendingCall) -> (r: ToolCall)
    ensures
        r.id@ == call.id@,
        r.name@ == call.name@,
        json_model(r.arguments) == match json::spec_parse_json(call.arguments@) {
            Some(m) => m,
            None => JsonModel::Object(Seq::empty()),
        },
{
    let arguments = match json::parse_json(call.arguments.as_str()) {
        Some(v) => v,
        None => {
            let v = JsonValue::Object(Vec::new());
            assert(json::entry_models(Seq::<(String, JsonValue)>::empty()) =~= Seq::<(Seq<char>, JsonModel)>::empty());
            v
        },
    };
    ToolCall {
        id: string_of(&chars_of(call.id.as_str())),
        name: string_of(&chars_of(call.name.as_str())),
        arguments,
    }
}

/// What one line of a streamed response asks of its reader.
pub enum StreamLine {
    /// Read on; the text the line added, if any.
    Next(Option<String>),
    /// The stream is finished (`data: [DONE]`).
    Done,
    /// The line held a complete response body (the server did not stream):
    /// its text, its tool calls and the calls as sent. Reading stops.
    Complete(String, Vec<PendingCall>, Vec<JsonValue>),
}

/// `choices[0].delta` of a streamed chunk.
pub open spec fn spec_first_delta(body: JsonValue) -> Option<JsonValue> {
    match json::spec_get(body, "choices"@) {
        Some(JsonValue::Array(items)) => if items@.len() > 0 {
            json::spec_get(items@[0], "delta"@)
        } else {
            None
        },
        _ => None,
    }
}

fn first_delta(body: &JsonValue) -> (r: Option<&JsonValue>)
    ensures
        match spec_first_delta(*body) {
            Some(d) => r == Some(&d),
            None => r is None,
        },
{
    match body.get("choices") {
        Some(c) => match element(c, 0) {
            Some(first) => first.get("delta"),
            None => None,
        },
        None => None,
    }
}

/// The accumulator `after` is `before` unchanged.
pub open spec fn same_stream(before: StreamAccumulator, after: StreamAccumulator) -> bool {
    after.text() == before.text() && after.calls() == before.calls()
}

/// One parsed chunk `doc` of a stream, read into `before`: a complete body
/// (one with `choices[0].message`) ends the stream with its parts; a chunk
/// with `choices[0].delta` is applied (its text handed on); anything else is
/// passed over.
pub open spec fn doc_step(before: StreamAccumulator, doc: JsonValue, r: StreamLine, after: StreamAccumulator) -> bool {
    match spec_first_message(doc) {
        Some(m) => same_stream(before, after) && match r {
            StreamLine::Complete(c, calls, raw) => message_parts(m, (c, calls, raw)),
            _ => false,
        },
        None => match spec_first_delta(doc) {
            Some(d) => after.calls() == upsert_all(before.calls(), delta_calls(d)) && match delta_text(d) {
                Some(c) => r matches StreamLine::Next(Some(x)) && x@ == c && after.text() == before.text() + c,
                None => r matches StreamLine::Next(None) && after.text() == before.text(),
            },
            None => r matches StreamLine::Next(None) && same_stream(before, after),
        },
    }
}

impl StreamAccumulator {
    /// Read one parsed chunk of a stream (see [`doc_step`]).
    pub fn read_doc(&mut self, doc: &JsonValue) -> (r: StreamLine)
        ensures
            doc_step(*old(self), *doc, r, *final(self)),
    {
        match first_message(doc) {
            Some(_) => {
                match parse_provider_response(doc) {
                    Ok((c, calls, raw)) => StreamLine::Complete(c, calls, raw),
                    Err(_) => StreamLine::Next(None),
                }
            },
            None => match first_delta(doc) {
                Some(d) => StreamLine::Next(self.apply_delta(d)),
                None => StreamLine::Next(None),
            },
        }
    }

    /// Read one line of a streamed response: lines that are not SSE `data:`
    /// lines, and payloads that are not JSON, are passed over; `[DONE]` ends
    /// the stream; a JSON payload is read as [`doc_step`] says, for the
    /// document serde_json reads from it.
    pub fn read_line(&mut self, line: &str) -> (r: StreamLine)
        ensures
            match spec_sse_data_payload(line@) {
                None => r matches StreamLine::Next(None) && same_stream(*old(self), *final(self)),
                Some(d) => if d == "[DONE]"@ {
                    r is Done && same_stream(*old(self), *final(self))
                } else {
                    match json::spec_parse_json(d) {
                        None => r matches StreamLine::Next(None) && same_stream(*old(self), *final(self)),
                        Some(m) => exists|v: JsonValue|
                            #[trigger] json_model(v) == m && doc_step(*old(self), v, r, *final(self)),
                    }
                },
            },
    {
        let data = match sse_data_payload(line) {
            Some(d) => d,
            None => return StreamLine::Next(None),
        };
        if text::str_eq(data, "[DONE]") {
            return StreamLine::Done;
        }
        match json::parse_json(data) {
            Some(doc) => self.read_doc(&doc),
            None => StreamLine::Next(None),
        }
    }
}

/// The API key a provider config sends: its own when set, else the first
/// of its extra variables set to a non-empty value, else
/// `DEVFORGE_AI_API_KEY`, else `OPENAI_API_KEY`, else nothing, read from an
/// environment snapshot.
pub open spec fn spec_config_key(api_key: Seq<char>, extra: Seq<Seq<char>>, env: Seq<(Seq<char>, Seq<char>)>) -> Seq<char> {
    if api_key.len() > 0 {
        api_key
    } else if crate::ai_providers::first_set(env, extra) is Some {
        crate::ai_providers::first_set(env, extra).unwrap()
    } else {
        match crate::ai_providers::env_lookup(env, "DEVFORGE_AI_API_KEY"@) {
            Some(v) => v,
            None => match crate::ai_providers::env_lookup(env, "OPENAI_API_KEY"@) {
                Some(v) => v,
                None => Seq::empty(),
            },
        }
    }
}

pub fn resolve_config_key(api_key: &str, extra_env_keys: &Vec<String>, env: &Vec<(String, String)>) -> (r: String)
    ensures
        r@ == spec_config_key(api_key@, extra_env_keys@.map_values(|k: String| k@), crate::ai_providers::env_view(env@)),
{
    if chars_of(api_key).len() > 0 {
        return string_of(&chars_of(api_key));
    }
    let ghost ev = crate::ai_providers::env_view(env@);
    let ghost ks = extra_env_keys@.map_values(|k: String| k@);
    let mut i: usize = 0;
    assert(ks.skip(0) =~= ks);
    while i < extra_env_keys.len()
        invariant
            i <= extra_env_keys.len(),
            ev == crate::ai_providers::env_view(env@),
            ks == extra_env_keys@.map_values(|k: String| k@),
            api_key@.len() == 0,
            crate::ai_providers::first_set(ev, ks.skip(i as int)) == crate::ai_providers::first_set(ev, ks),
        decreases extra_env_keys.len() - i,
    {
        assert(ks.skip(i as int)[0] == extra_env_keys@[i as int]@);
        assert(ks.skip(i as int).drop_first() =~= ks.skip(i + 1));
        match crate::ai_providers::env_lookup_exec(env, extra_env_keys[i].as_str()) {
            Some(v) => {
                if v.as_str().unicode_len() > 0 {
                    return v;
                }
            },
            None => {},
        }
        i = i + 1;
    }
    assert(ks.skip(i as int) =~= Seq::<Seq<char>>::empty());
    match crate::ai_providers::env_lookup_exec(env, "DEVFORGE_AI_API_KEY") {
        Some(v) => v,
        None => match crate::ai_providers::env_lookup_exec(env, "OPENAI_API_KEY") {
            Some(v) => v,
            None => String::new(),
        },
    }
}

} // verus!
