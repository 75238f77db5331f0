//! Naming rules of MCP (Model Context Protocol) tools. The stdio client that
//! talks to the servers is I/O and stays with the application.
use vstd::prelude::*;

use crate::json::{self, JsonValue, get_str};
use crate::json::{copy_json, json_model, JsonModel, entry_models};
use crate::text::{self, chars_of, string_of, slice_of, starts_with_exec, push_str, push_chars, decimal_exec};
use crate::tools;

verus! {

/// A stdio MCP server to start.
#[derive(Debug)]
pub struct McpServerSpec {
    pub name: String,
    pub command: String,
    pub args: Vec<String>,
}

/// `s` holds `__` at `i`.
pub open spec fn dunder_at(s: Seq<char>, i: int) -> bool {
    0 <= i && i + 1 < s.len() && s[i] == '_' && s[i + 1] == '_'
}

/// First position of `__` in `s`.
pub open spec fn first_double_underscore(s: Seq<char>) -> Option<int> {
    if exists|i: int| #[trigger] dunder_at(s, i) {
        Some(
            choose|i: int|
                #[trigger] dunder_at(s, i) && forall|j: int| 0 <= j < i ==> !#[trigger] dunder_at(s, j),
        )
    } else {
        None
    }
}

/// `mcp__<server>__<tool>` split into server and tool (the first `__` after
/// the prefix separates them).
pub open spec fn spec_parse_mcp_tool_name(name: Seq<char>) -> Option<(Seq<char>, Seq<char>)> {
    if text::starts_with(name, "mcp__"@) {
        let rest = name.skip(5);
        match first_double_underscore(rest) {
            Some(i) => Some((rest.take(i), rest.skip(i + 2))),
            None => None,
        }
    } else {
        None
    }
}

/// Split a qualified MCP tool name into server and tool.
pub fn parse_mcp_tool_name(name: &str) -> (r: Option<(String, String)>)
    ensures
        match spec_parse_mcp_tool_name(name@) {
            Some((server, tool)) => r matches Some(p) && p.0@ == server && p.1@ == tool,
            None => r is None,
        },
{
    let v = chars_of(name);
    let prefix = chars_of("mcp__");
    if !starts_with_exec(&v, &prefix) {
        return None;
    }
    proof {
        reveal_strlit("mcp__");
    }
    let rest = slice_of(&v, 5, v.len());
    assert(rest@ =~= name@.skip(5));
    let mut i: usize = 0;
    while i < rest.len() && i + 1 < rest.len()
        invariant
            i <= rest.len(),
            rest@ == name@.skip(5),
            text::starts_with(name@, "mcp__"@),
            forall|j: int| 0 <= j < i ==> !#[trigger] dunder_at(rest@, j),
        decreases rest.len() - i,
    {
        if rest[i] == '_' && rest[i + 1] == '_' {
            proof {
                lemma_first_dunder_is(rest@, i as int);
            }
            let server = slice_of(&rest, 0, i);
            let tool = slice_of(&rest, i + 2, rest.len());
            assert(server@ =~= rest@.take(i as int));
            assert(tool@ =~= rest@.skip(i + 2));
            return Some((string_of(&server), string_of(&tool)));
        }
        assert(!dunder_at(rest@, i as int));
        i = i + 1;
    }
    proof {
        assert forall|j: int| !#[trigger] dunder_at(rest@, j) by {
            if dunder_at(rest@, j) {
                assert(j < i);
            }
        }
    }
    None
}

proof fn lemma_first_dunder_is(s: Seq<char>, i: int)
    requires
        dunder_at(s, i),
        forall|j: int| 0 <= j < i ==> !#[trigger] dunder_at(s, j),
    ensures
        first_double_underscore(s) == Some(i),
{
    let c = choose|c: int|
        #[trigger] dunder_at(s, c) && forall|j: int| 0 <= j < c ==> !#[trigger] dunder_at(s, j);
    assert(dunder_at(s, c) && forall|j: int| 0 <= j < c ==> !#[trigger] dunder_at(s, j));
    if c < i {
        assert(!dunder_at(s, c));
    }
    if c > i {
        assert(!dunder_at(s, i));
    }
}

/// Position of the first `__` in `v`.
pub fn find_double_underscore(v: &Vec<char>) -> (r: Option<usize>)
    ensures
        match r {
            Some(i) => first_double_underscore(v@) == Some(i as int) && i + 1 < v.len(),
            None => first_double_underscore(v@) is None,
        },
{
    let mut i: usize = 0;
    while i < v.len() && i + 1 < v.len()
        invariant
            i <= v.len(),
            forall|j: int| 0 <= j < i ==> !#[trigger] dunder_at(v@, j),
        decreases v.len() - i,
    {
        if v[i] == '_' && v[i + 1] == '_' {
            proof {
                lemma_first_dunder_is(v@, i as int);
            }
            return Some(i);
        }
        assert(!dunder_at(v@, i as int));
        i = i + 1;
    }
    proof {
        assert forall|j: int| !#[trigger] dunder_at(v@, j) by {
            if dunder_at(v@, j) {
                assert(j < i);
            }
        }
    }
    None
}

/// Server names keep ASCII letters, digits, `_` and `-`; anything else
/// becomes `_`.
pub open spec fn spec_sanitize_name(name: Seq<char>) -> Seq<char> {
    name.map_values(
        |c: char|
            if text::is_ascii_alnum(c) || c == '_' || c == '-' {
                c
            } else {
                '_'
            },
    )
}

pub fn sanitize_name(name: &str) -> (r: String)
    ensures
        r@ == spec_sanitize_name(name@),
{
    let v = chars_of(name);
    let mut out: Vec<char> = Vec::new();
    let mut i: usize = 0;
    while i < v.len()
        invariant
            i <= v.len(),
            out@ =~= spec_sanitize_name(v@.take(i as int)),
        decreases v.len() - i,
    {
        let c = v[i];
        if ('a' <= c && c <= 'z') || ('A' <= c && c <= 'Z') || ('0' <= c && c <= '9') || c == '_'
            || c == '-' {
            out.push(c);
        } else {
            out.push('_');
        }
        i = i + 1;
    }
    assert(v@.take(v.len() as int) =~= v@);
    string_of(&out)
}


// ---------------------------------------------------------------------------
// The stdio protocol
// ---------------------------------------------------------------------------
/// The name an MCP tool is offered under: `mcp__<server>__<tool>` (`tool`
/// when the server gave no name).
pub open spec fn qualified_tool_name(server: Seq<char>, tool: JsonValue) -> Seq<char> {
    "mcp__"@ + server + "__"@ + match json::spec_get_str(tool, "name"@) {
        Some(n) => n,
        None => "tool"@,
    }
}

/// What the function schema of a server's tool holds.
pub open spec fn tool_definition_model(server: Seq<char>, tool: JsonValue) -> JsonModel {
    let description = "[MCP:"@ + server + "] "@ + match json::spec_get_str(tool, "description"@) {
        Some(d) => d,
        None => Seq::empty(),
    };
    let parameters = match json::spec_get(tool, "inputSchema"@) {
        Some(schema) => json_model(schema),
        None => JsonModel::Object(seq![("type"@, JsonModel::Str("object"@))]),
    };
    JsonModel::Object(
        seq![
            ("type"@, JsonModel::Str("function"@)),
            (
                "function"@,
                JsonModel::Object(
                    seq![
                        ("name"@, JsonModel::Str(qualified_tool_name(server, tool))),
                        ("description"@, JsonModel::Str(description)),
                        ("parameters"@, parameters),
                    ],
                ),
            ),
        ],
    )
}

/// The function schema offered to the model for a tool of an MCP server:
/// its qualified name, its description tagged with the server, and its
/// input schema (an empty object schema when it has none).
pub fn mcp_tool_definition(server: &str, tool: &JsonValue) -> (r: JsonValue)
    ensures
        tools::spec_function_name(r) == Some(qualified_tool_name(server@, *tool)),
        json_model(r) == tool_definition_model(server@, *tool),
{
    let mut name = String::new();
    push_str(&mut name, "mcp__");
    push_str(&mut name, server);
    push_str(&mut name, "__");
    match get_str(tool, "name") {
        Some(n) => push_str(&mut name, n.as_str()),
        None => push_str(&mut name, "tool"),
    }
    let mut description = String::new();
    push_str(&mut description, "[MCP:");
    push_str(&mut description, server);
    push_str(&mut description, "] ");
    match get_str(tool, "description") {
        Some(d) => push_str(&mut description, d.as_str()),
        None => {},
    }
    let parameters = match tool.get("inputSchema") {
        Some(schema) => copy_json(schema),
        None => {
            let e = vec![(string_of(&chars_of("type")), JsonValue::String(string_of(&chars_of("object"))))];
            proof {
                json::lemma_entry_models(e@);
                assert(entry_models(e@) =~= seq![("type"@, JsonModel::Str("object"@))]);
            }
            JsonValue::Object(e)
        },
    };
    assert(json_model(parameters) == match json::spec_get(*tool, "inputSchema"@) {
        Some(schema) => json_model(schema),
        None => JsonModel::Object(seq![("type"@, JsonModel::Str("object"@))]),
    });
    assert(name@ == qualified_tool_name(server@, *tool));
    let inner = JsonValue::Object(vec![
        (string_of(&chars_of("name")), JsonValue::String(name)),
        (string_of(&chars_of("description")), JsonValue::String(description)),
        (string_of(&chars_of("parameters")), parameters),
    ]);
    let ghost gi = inner;
    let r = JsonValue::Object(vec![
        (string_of(&chars_of("type")), JsonValue::String(string_of(&chars_of("function")))),
        (string_of(&chars_of("function")), inner),
    ]);
    let ghost gr = r;
    proof {
        reveal_strlit("type");
        reveal_strlit("function");
        assert("type"@.len() == 4);
        assert("function"@.len() == 8);
        match gr {
            JsonValue::Object(entries) => {
                assert(json::entry_index(entries@.drop_first(), "function"@) == Some(0int));
                assert(json::entry_index(entries@, "function"@) == Some(1int));
            },
            _ => {},
        }
        match gi {
            JsonValue::Object(entries) => {
                assert(json::entry_index(entries@, "name"@) == Some(0int));
                json::lemma_entry_models(entries@);
                match tool_definition_model(server@, *tool) {
                    JsonModel::Object(outer) => match outer[1].1 {
                        JsonModel::Object(inner_m) => {
                            assert(entry_models(entries@) =~= inner_m);
                        },
                        _ => {},
                    },
                    _ => {},
                }
            },
            _ => {},
        }
        match gr {
            JsonValue::Object(entries) => {
                json::lemma_entry_models(entries@);
                match tool_definition_model(server@, *tool) {
                    JsonModel::Object(outer) => {
                        assert(entry_models(entries@) =~= outer);
                    },
                    _ => {},
                }
            },
            _ => {},
        }
    }
    r
}

/// The header framing a message body of `len` bytes.
pub fn content_length_header(len: usize) -> (r: String)
    ensures
        r@ == "Content-Length: "@ + text::decimal(len as nat) + "\r\n\r\n"@,
{
    let mut out = String::new();
    push_str(&mut out, "Content-Length: ");
    push_chars(&mut out, &decimal_exec(len as u128));
    push_str(&mut out, "\r\n\r\n");
    out
}

/// A header line of a framed message.
#[derive(Debug, Clone, Copy, PartialEq, Eq, Structural)]
pub enum HeaderLine {
    /// The blank line that ends the header.
    End,
    /// `Content-Length:` with its value (`None` when it is not a number).
    Length(Option<usize>),
    /// Any other header.
    Other,
}

pub open spec fn spec_header_line(line: Seq<char>) -> HeaderLine {
    let t = text::trim_end(line);
    if t.len() == 0 {
        HeaderLine::End
    } else if text::starts_with(t, "Content-Length:"@) {
        match crate::ssh::parse_uint(text::trim(t.skip(15)), usize::MAX as nat) {
            Some(n) => HeaderLine::Length(Some(n as usize)),
            None => HeaderLine::Length(None),
        }
    } else {
        HeaderLine::Other
    }
}

/// Read one header line of a framed message.
pub fn header_line(line: &str) -> (r: HeaderLine)
    ensures
        r == spec_header_line(line@),
{
    let t = text::trim_end_exec(&chars_of(line));
    if t.len() == 0 {
        return HeaderLine::End;
    }
    if starts_with_exec(&t, &chars_of("Content-Length:")) {
        proof {
            reveal_strlit("Content-Length:");
        }
        let rest = slice_of(&t, 15, t.len());
        assert(rest@ =~= t@.skip(15));
        match crate::ssh::parse_uint_exec(&text::trim_exec(&rest), usize::MAX as u64) {
            Some(n) => HeaderLine::Length(Some(n as usize)),
            None => HeaderLine::Length(None),
        }
    } else {
        HeaderLine::Other
    }
}

/// The texts of the `text` parts of a tool result, one per line.
pub open spec fn result_texts(parts: Seq<JsonValue>) -> Seq<Seq<char>>
    decreases parts.len(),
{
    if parts.len() == 0 {
        Seq::empty()
    } else {
        let prev = result_texts(parts.drop_last());
        match json::spec_get_str(parts.last(), "text"@) {
            Some(t) => prev.push(t),
            None => prev,
        }
    }
}

/// What a tool result reads as: its `text` parts joined by newlines, when
/// that is not empty (the caller falls back to the result's JSON).
pub open spec fn spec_tool_result_text(result: JsonValue) -> Option<Seq<char>> {
    match json::spec_get(result, "content"@) {
        Some(JsonValue::Array(parts)) => {
            let t = tools::join(result_texts(parts@), "\n"@);
            if t.len() > 0 { Some(t) } else { None }
        },
        _ => None,
    }
}

pub fn tool_result_text(result: &JsonValue) -> (r: Option<String>)
    ensures
        match spec_tool_result_text(*result) {
            Some(t) => r matches Some(x) && x@ == t,
            None => r is None,
        },
{
    match result.get("content") {
        Some(JsonValue::Array(parts)) => {
            let mut texts: Vec<String> = Vec::new();
            let mut i: usize = 0;
            while i < parts.len()
                invariant
                    i <= parts.len(),
                    texts@.map_values(|s: String| s@) == result_texts(parts@.take(i as int)),
                decreases parts.len() - i,
            {
                assert(parts@.take(i + 1).drop_last() =~= parts@.take(i as int));
                assert(parts@.take(i + 1).last() == parts@[i as int]);
                match get_str(&parts[i], "text") {
                    Some(t) => {
                        let ghost before = texts@.map_values(|s: String| s@);
                        texts.push(t);
                        assert(texts@.map_values(|s: String| s@) =~= before.push(texts@.last()@));
                    },
                    None => {},
                }
                i = i + 1;
            }
            assert(parts@.take(i as int) =~= parts@);
            let joined = tools::join_strings(&texts, "\n");
            if chars_of(joined.as_str()).len() > 0 {
                Some(joined)
            } else {
                None
            }
        },
        _ => None,
    }
}

/// A JSON-RPC request (a notification when `id` is `None`).
pub fn rpc_message(id: Option<u64>, method: &str, params: JsonValue) -> (r: JsonValue)
    ensures
        json::spec_get_str(r, "jsonrpc"@) == Some("2.0"@),
        json_model(r) == JsonModel::Object(
            seq![("jsonrpc"@, JsonModel::Str("2.0"@))] + (match id {
                Some(n) => seq![("id"@, JsonModel::Number(Some(n)))],
                None => Seq::empty(),
            }) + seq![("method"@, JsonModel::Str(method@)), ("params"@, json_model(params))],
        ),
{
    let mut entries: Vec<(String, JsonValue)> = vec![(string_of(&chars_of("jsonrpc")), JsonValue::String(string_of(&chars_of("2.0"))))];
    let ghost first = entries@[0];
    match id {
        Some(n) => entries.push((string_of(&chars_of("id")), JsonValue::Number(Some(n)))),
        None => {},
    }
    entries.push((string_of(&chars_of("method")), JsonValue::String(string_of(&chars_of(method)))));
    entries.push((string_of(&chars_of("params")), params));
    assert(entries@[0] == first);
    assert(json::entry_index(entries@, "jsonrpc"@) == Some(0int));
    proof {
        json::lemma_entry_models(entries@);
        let expected = seq![("jsonrpc"@, JsonModel::Str("2.0"@))] + (match id {
            Some(n) => seq![("id"@, JsonModel::Number(Some(n)))],
            None => Seq::empty(),
        }) + seq![("method"@, JsonModel::Str(method@)), ("params"@, json_model(params))];
        assert(entry_models(entries@) =~= expected);
    }
    JsonValue::Object(entries)
}

/// How a message read from a server relates to the request `id`.
#[derive(Debug)]
pub enum ReplyOutcome {
    /// It answers another request (or none).
    NotMine,
    /// It reports an error.
    Error(JsonValue),
    /// Its result (`null` when it has none).
    Result(JsonValue),
}

pub open spec fn spec_get_u64_of(v: JsonValue, key: Seq<char>) -> Option<u64> {
    match json::spec_get(v, key) {
        Some(JsonValue::Number(n)) => n,
        _ => None,
    }
}

pub fn reply_outcome(reply: &JsonValue, id: u64) -> (r: ReplyOutcome)
    ensures
        spec_get_u64_of(*reply, "id"@) != Some(id) ==> r is NotMine,
        spec_get_u64_of(*reply, "id"@) == Some(id) ==> (if json::spec_get(*reply, "error"@) is Some {
            r is Error
        } else {
            r is Result
        }),
        r matches ReplyOutcome::Error(e) ==> json_model(e) == json_model(json::spec_get(*reply, "error"@).unwrap()),
        r matches ReplyOutcome::Result(v) ==> json_model(v) == match json::spec_get(*reply, "result"@) {
            Some(x) => json_model(x),
            None => JsonModel::Null,
        },
{
    let rid = match reply.get("id") {
        Some(JsonValue::Number(n)) => *n,
        _ => None,
    };
    if rid != Some(id) {
        return ReplyOutcome::NotMine;
    }
    match reply.get("error") {
        Some(e) => ReplyOutcome::Error(copy_json(e)),
        None => match reply.get("result") {
            Some(res) => ReplyOutcome::Result(copy_json(res)),
            None => ReplyOutcome::Result(JsonValue::Null),
        },
    }
}

} // verus!
