use std::cell::RefCell;
use std::collections::BTreeMap;

use devforge::assets::{AgentAsset, AssetKind, AssetScope};
use devforge::hooks::{
    discover_bundles, hook_bundle_from_json, merged_commands, parse_hook_bundle, truncate_chars, HookCommand,
    HookEvent, HookOutcome, HookRunner, HookSource,
};
use devforge::json::JsonValue;
use devforge::mode::AgentMode;
use devforge::parallel::{can_start_another_run, clamp_max_parallel};
use devforge::provider::{
    sse_data_payload, tool_call_of, AgentEvent, PendingCall, ProviderResponse, Role, StreamAccumulator, StreamLine,
};
use devforge::runtime::{dispatch_tool, AgentRun, HistoryTurn, LoopAction, LoopInput, Phase};
use devforge::secrets::{is_sensitive_path, normalize_relative, redact_secrets, resolve_under_root, PathError};
use devforge::tools::{
    ask_tools, edit_tools, execute_tool, guard_target, plan_str_replace, plan_write_file, tool_permission, tools_for_mode, truncate, PermissionLevel,
    SearchHit, ToolCall, ToolContext, ToolResult, WalkEntry, WorkspaceBackend,
};

fn s(v: &str) -> JsonValue {
    JsonValue::String(v.to_string())
}

fn obj(entries: Vec<(&str, JsonValue)>) -> JsonValue {
    JsonValue::Object(entries.into_iter().map(|(k, v)| (k.to_string(), v)).collect())
}

fn arr(items: Vec<JsonValue>) -> JsonValue {
    JsonValue::Array(items)
}

fn tool_names(tools: &JsonValue) -> Vec<String> {
    let mut out = Vec::new();
    if let Some(items) = tools.as_array() {
        for t in items {
            if let Some(f) = t.get("function") {
                if let Some(n) = f.get("name").and_then(|n| n.as_str()) {
                    out.push(n.clone());
                }
            }
        }
    }
    out
}

/// A workspace held in memory, rooted at `/ws`.
struct MemoryWorkspace {
    files: RefCell<BTreeMap<String, String>>,
}

impl MemoryWorkspace {
    fn new() -> Self {
        MemoryWorkspace { files: RefCell::new(BTreeMap::new()) }
    }

    fn is_dir(&self, path: &str) -> bool {
        let prefix = format!("{}/", path.trim_end_matches('/'));
        path == "/ws" || self.files.borrow().keys().any(|k| k.starts_with(&prefix))
    }
}

impl WorkspaceBackend for MemoryWorkspace {
    fn root(&self) -> String {
        "/ws".to_string()
    }

    fn read_file(&self, path: &str) -> Result<String, String> {
        self.files.borrow().get(path).cloned().ok_or_else(|| format!("read {path}: not found"))
    }

    fn write_file(&self, path: &str, content: &str) -> Result<(), String> {
        self.files.borrow_mut().insert(path.to_string(), content.to_string());
        Ok(())
    }

    fn create_directory(&self, _path: &str) -> Result<(), String> {
        Ok(())
    }

    fn list_directory(&self, _path: &str) -> Result<Vec<String>, String> {
        Ok(Vec::new())
    }

    fn search_code(&self, _query: &str, _max_results: usize) -> Result<Vec<SearchHit>, String> {
        Ok(Vec::new())
    }

    fn canonicalize(&self, path: &str) -> Result<String, String> {
        if self.files.borrow().contains_key(path) || self.is_dir(path) {
            Ok(path.to_string())
        } else {
            Err("No such file or directory".to_string())
        }
    }

    fn path_exists(&self, path: &str) -> bool {
        self.files.borrow().contains_key(path) || self.is_dir(path)
    }

    fn walk(&self, _max_depth: usize) -> Vec<WalkEntry> {
        Vec::new()
    }

    fn discover_kind(&self, _kind: AssetKind) -> Vec<AgentAsset> {
        Vec::new()
    }
}

fn call(id: &str, name: &str, arguments: JsonValue) -> ToolCall {
    ToolCall { id: id.to_string(), name: name.to_string(), arguments }
}

#[test]
fn write_and_str_replace_roundtrip() {
    let backend = MemoryWorkspace::new();
    let tool_ctx = ToolContext { backend: &backend, root: "/ws".to_string(), max_file_bytes: 200_000 };

    let write = execute_tool(
        &tool_ctx,
        &call(
            "1",
            "write_file",
            obj(vec![("path", s("src/hello.rs")), ("content", s("fn main() {\n    println!(\"hi\");\n}\n"))]),
        ),
    );
    assert!(!write.is_error, "{}", write.content);

    let replace = execute_tool(
        &tool_ctx,
        &call(
            "2",
            "str_replace",
            obj(vec![("path", s("src/hello.rs")), ("old_string", s("hi")), ("new_string", s("hello"))]),
        ),
    );
    assert!(!replace.is_error, "{}", replace.content);

    let read = execute_tool(&tool_ctx, &call("3", "read_file", obj(vec![("path", s("src/hello.rs"))])));
    assert!(!read.is_error);
    assert!(read.content.contains("hello"));
}

#[test]
fn tools_refuse_bad_arguments() {
    let backend = MemoryWorkspace::new();
    let ctx = ToolContext { backend: &backend, root: "/ws".to_string(), max_file_bytes: 10 };
    let unknown = execute_tool(&ctx, &call("1", "rm_rf", obj(vec![])));
    assert!(unknown.is_error);
    assert_eq!(unknown.content, "unknown tool: rm_rf");
    let missing = execute_tool(&ctx, &call("2", "read_file", obj(vec![])));
    assert!(missing.is_error);
    assert_eq!(missing.content, "missing path");
    let escape = execute_tool(&ctx, &call("3", "read_file", obj(vec![("path", s("../etc/passwd"))])));
    assert!(escape.is_error);
    backend.write_file("/ws/big.txt", "0123456789abc").unwrap();
    let big = execute_tool(&ctx, &call("4", "read_file", obj(vec![("path", s("big.txt"))])));
    assert!(big.is_error);
    assert_eq!(big.content, "file too large (13 bytes > 10 limit)");
}

#[test]
fn ask_tools_exclude_writes() {
    let names = tool_names(&ask_tools());
    assert!(names.contains(&"read_file".to_string()));
    assert!(!names.contains(&"write_file".to_string()));
}

#[test]
fn edit_tools_include_writes() {
    let names = tool_names(&edit_tools());
    assert!(names.contains(&"write_file".to_string()));
    assert!(names.contains(&"str_replace".to_string()));
    assert_eq!(tool_permission("write_file"), PermissionLevel::Confirm);
}

#[test]
fn ask_mode_tools_are_read_only() {
    for name in tool_names(&tools_for_mode(AgentMode::Ask)) {
        assert_eq!(tool_permission(&name), PermissionLevel::ReadOnly);
    }
    assert_eq!(tool_names(&tools_for_mode(AgentMode::Agent)).len(), 8);
    assert_eq!(tool_permission("rm_rf"), PermissionLevel::Dangerous);
}

#[test]
fn truncate_marks_cut_text() {
    assert_eq!(truncate("abcdef", 3), "abc…");
    assert_eq!(truncate("abc", 3), "abc");
    assert_eq!(truncate_chars("abcdef", 2), "ab\n… (4 more characters omitted)");
}

#[test]
fn event_ids_match_the_documented_keys() {
    assert_eq!(HookEvent::AfterFileEdit.id(), "afterFileEdit");
    assert_eq!(HookEvent::AfterAgentRun.id(), "afterAgentRun");
}

#[test]
fn parses_bundle_and_ignores_unknown_events() {
    let doc = obj(vec![
        ("version", JsonValue::Number(Some(1))),
        (
            "hooks",
            obj(vec![
                (
                    "afterFileEdit",
                    arr(vec![obj(vec![
                        ("command", s("cargo")),
                        ("args", arr(vec![s("fmt")])),
                        ("description", s("format")),
                    ])]),
                ),
                ("onSave", arr(vec![obj(vec![("command", s("nope"))])])),
                (
                    "afterAgentRun",
                    arr(vec![obj(vec![("command", s("cargo")), ("args", arr(vec![s("test")]))])]),
                ),
            ]),
        ),
    ]);
    let bundle = hook_bundle_from_json(&doc);
    let edits = bundle.for_event(HookEvent::AfterFileEdit);
    assert_eq!(edits.len(), 1);
    assert_eq!(edits[0].command, "cargo");
    assert_eq!(edits[0].args, vec!["fmt".to_string()]);
    assert_eq!(edits[0].description, "format");
    assert_eq!(bundle.for_event(HookEvent::AfterAgentRun).len(), 1);
    assert_eq!(bundle.len(), 2);
}

#[test]
fn drops_commands_without_a_command_field() {
    let doc = obj(vec![(
        "hooks",
        obj(vec![(
            "afterFileEdit",
            arr(vec![obj(vec![("args", arr(vec![s("x")]))]), obj(vec![("command", s("   "))])]),
        )]),
    )]);
    let bundle = hook_bundle_from_json(&doc);
    assert!(bundle.is_empty());
    assert!(bundle.for_event(HookEvent::AfterFileEdit).is_empty());
}

#[test]
fn bundle_without_hooks_is_empty() {
    let bundle = hook_bundle_from_json(&obj(vec![("version", JsonValue::Number(Some(1)))]));
    assert!(bundle.is_empty());
}

fn hook_asset(path: &str, enabled: bool) -> AgentAsset {
    AgentAsset {
        kind: AssetKind::Hooks,
        scope: AssetScope::Project,
        name: "hooks".to_string(),
        description: String::new(),
        path: path.to_string(),
        body: String::new(),
        enabled,
    }
}

#[test]
fn discovered_bundles_skip_disabled_and_broken() {
    let good = obj(vec![(
        "hooks",
        obj(vec![("afterFileEdit", arr(vec![obj(vec![("command", s("cargo")), ("args", arr(vec![s("fmt")]))])]))]),
    )]);
    let good2 = obj(vec![(
        "hooks",
        obj(vec![("afterFileEdit", arr(vec![obj(vec![("command", s("make"))])]))]),
    )]);
    let off = obj(vec![("hooks", obj(vec![("afterFileEdit", arr(vec![obj(vec![("command", s("x"))])]))]))]);
    let assets = vec![
        hook_asset("/p/hooks.json", true),
        hook_asset("/u/hooks.json", false),
        hook_asset("/u/broken.json", true),
        hook_asset("/u/other.json", true),
    ];
    let docs = vec![Some(good), Some(off), None, Some(good2)];
    let sources = discover_bundles(&assets, &docs);
    assert_eq!(sources.len(), 2);
    assert_eq!(sources[0].path, "/p/hooks.json");
    let cmds = merged_commands(&sources, HookEvent::AfterFileEdit);
    assert_eq!(cmds.len(), 2);
    assert_eq!(cmds[0].display(), "cargo fmt");
    assert_eq!(cmds[1].display(), "make");
    assert!(merged_commands(&sources, HookEvent::AfterAgentRun).is_empty());
}

#[test]
fn disabled_runner_plans_nothing() {
    let runner = HookRunner::new("/ws".to_string(), false);
    let cmd = HookCommand { command: "touch".to_string(), args: vec!["ran.txt".to_string()], description: String::new() };
    assert!(runner.planned(vec![cmd.clone()]).is_empty());
    let enabled = HookRunner::new("/ws".to_string(), true);
    assert_eq!(enabled.planned(vec![cmd]).len(), 1);
    assert!(enabled.is_enabled());
    assert_eq!(enabled.root(), "/ws");
}

#[test]
fn failed_hook_is_reported() {
    let runner = HookRunner::new("/ws".to_string(), true);
    let cmd = HookCommand { command: "boom".to_string(), args: vec![], description: String::new() };
    let out = runner.run_one(HookEvent::AfterAgentRun, &cmd, Err("no such binary".to_string()), 3);
    assert!(!out.success);
    assert_eq!(out.output, "failed to run hook: no such binary");
    assert_eq!(out.command, "boom");
    let ok = runner.run_one(HookEvent::AfterAgentRun, &cmd, Ok((true, "done".to_string())), 5);
    assert!(ok.success);
    assert_eq!(ok.output, "done");
    assert_eq!(ok.duration_ms, 5);
}

#[test]
fn clamp_max_parallel_bounds() {
    assert_eq!(clamp_max_parallel(0), 1);
    assert_eq!(clamp_max_parallel(3), 3);
    assert_eq!(clamp_max_parallel(99), 8);
}

#[test]
fn can_start_respects_cap() {
    assert!(can_start_another_run(0, 2));
    assert!(can_start_another_run(1, 2));
    assert!(!can_start_another_run(2, 2));
    assert!(!can_start_another_run(1, 1));
}

#[test]
fn sse_data_payload_parses() {
    assert_eq!(sse_data_payload("data: hello"), Some("hello"));
    assert_eq!(sse_data_payload("data:  {\"a\":1}"), Some("{\"a\":1}"));
    assert_eq!(sse_data_payload("data: [DONE]"), Some("[DONE]"));
    assert_eq!(sse_data_payload(": keep-alive"), None);
    assert_eq!(sse_data_payload(""), None);
    assert_eq!(sse_data_payload("event: message"), None);
}

#[test]
fn stream_accumulator_merges_text_and_tools() {
    let mut acc = StreamAccumulator::new();
    let mut chunks = Vec::new();
    for delta in [obj(vec![("content", s("Wor"))]), obj(vec![("content", s("ld"))])] {
        if let Some(t) = acc.apply_delta(&delta) {
            chunks.push(t);
        }
    }
    let first = obj(vec![(
        "tool_calls",
        arr(vec![obj(vec![
            ("index", JsonValue::Number(Some(0))),
            ("id", s("call_1")),
            ("function", obj(vec![("name", s("read_file")), ("arguments", s("{\"p"))])),
        ])]),
    )]);
    let second = obj(vec![(
        "tool_calls",
        arr(vec![obj(vec![
            ("index", JsonValue::Number(Some(0))),
            ("function", obj(vec![("arguments", s("ath\":\"a.rs\"}"))])),
        ])]),
    )]);
    assert!(acc.apply_delta(&first).is_none());
    assert!(acc.apply_delta(&second).is_none());

    assert_eq!(chunks, vec!["Wor".to_string(), "ld".to_string()]);
    let (content, calls) = acc.into_parts();
    assert_eq!(content, "World");
    assert_eq!(calls.len(), 1);
    assert_eq!(calls[0].name, "read_file");
    assert_eq!(calls[0].id, "call_1");
    assert_eq!(calls[0].arguments, "{\"path\":\"a.rs\"}");
}

#[test]
fn redacts_api_key_line() {
    let s = redact_secrets("OPENAI_API_KEY=sk-secret\nhello\n");
    assert!(s.contains("=********"));
    assert!(!s.contains("sk-secret"));
}

#[test]
fn redaction_keeps_other_lines() {
    assert_eq!(redact_secrets("OPENAI_API_KEY=sk-secret\nhello\n"), "OPENAI_API_KEY=********\nhello\n");
    assert_eq!(redact_secrets("token: abc"), "token: ********\n");
    assert_eq!(redact_secrets("plain"), "plain\n");
}

#[test]
fn detects_env_file() {
    assert!(is_sensitive_path(".env"));
    assert!(is_sensitive_path(".env.local"));
    assert!(!is_sensitive_path("main.rs"));
}

#[test]
fn sensitive_names_by_suffix() {
    assert!(is_sensitive_path("keys/server.PEM"));
    assert!(is_sensitive_path("/home/u/.ssh/id_rsa"));
    assert!(!is_sensitive_path("src/environment.rs"));
}

#[test]
fn rejects_traversal_with_missing_components() {
    let backend = MemoryWorkspace::new();
    backend.write_file("/ws/src/lib.rs", "").unwrap();
    assert!(resolve_under_root(&backend, "/ws", "missing/../../etc/passwd").is_err());
    assert!(resolve_under_root(&backend, "/ws", "../outside").is_err());
    assert!(resolve_under_root(&backend, "/ws", "/etc/passwd").is_err());
    let ok = resolve_under_root(&backend, "/ws", "src/main.rs").unwrap();
    assert!(ok.starts_with("/ws"));
    assert_eq!(ok, "/ws/src/main.rs");
}

#[test]
fn normalize_relative_resolves_dots() {
    assert_eq!(normalize_relative("a/./b/../c").unwrap(), vec!["a".to_string(), "c".to_string()]);
    assert_eq!(normalize_relative("/etc"), Err(PathError::Absolute));
    assert_eq!(normalize_relative("a/../.."), Err(PathError::Escapes));
    assert!(normalize_relative("").unwrap().is_empty());
}

fn reply(content: &str, calls: Vec<ToolCall>) -> LoopInput {
    let argument_texts = calls.iter().map(|_| "{}".to_string()).collect();
    let raw_tool_calls = calls.iter().map(|c| s(&c.id)).collect();
    LoopInput::Reply {
        response: ProviderResponse { content: content.to_string(), tool_calls: calls, raw_tool_calls },
        argument_texts,
    }
}

fn start_run(max_iterations: usize, require_tool_approval: bool) -> AgentRun {
    start_run_with_hooks(max_iterations, require_tool_approval, false)
}

fn start_run_with_hooks(max_iterations: usize, require_tool_approval: bool, hooks: bool) -> AgentRun {
    let history = vec![
        HistoryTurn { role: Role::User, content: "earlier".to_string() },
        HistoryTurn { role: Role::Tool, content: "dropped".to_string() },
        HistoryTurn { role: Role::Assistant, content: "answer".to_string() },
    ];
    let (run, events) = AgentRun::start(
        "system".to_string(),
        "preamble".to_string(),
        &history,
        "write a file".to_string(),
        Vec::new(),
        max_iterations,
        require_tool_approval,
        hooks,
    );
    assert_eq!(events.len(), 1);
    assert!(matches!(events[0], AgentEvent::State("Analyzing")));
    run
}

#[test]
fn agent_run_writes_after_approval_and_completes() {
    let backend = MemoryWorkspace::new();
    let ctx = ToolContext { backend: &backend, root: "/ws".to_string(), max_file_bytes: 200_000 };
    let mut run = start_run(4, false);
    let roles: Vec<Role> = run.messages.iter().map(|m| m.role).collect();
    assert_eq!(roles, vec![Role::System, Role::System, Role::User, Role::Assistant, Role::User]);
    let texts: Vec<&str> = run.messages.iter().map(|m| m.content.as_str()).collect();
    assert_eq!(texts, vec!["system", "preamble", "earlier", "answer", "write a file"]);

    let (events, action) = run.step(LoopInput::Cancel(false));
    assert_eq!(action, LoopAction::CallModel);
    assert!(matches!(&events[0], AgentEvent::Activity(a) if a == "Model request (round 1)…"));
    assert_eq!(run.round, 1);

    let write = call("c1", "write_file", obj(vec![("path", s("notes.txt")), ("content", s("hello"))]));
    let (events, action) = run.step(reply("", vec![write]));
    assert!(events.is_empty());
    assert_eq!(action, LoopAction::CheckCancel);
    assert_eq!(run.messages.len(), 6);
    assert_eq!(run.messages[5].role, Role::Assistant);

    let (events, action) = run.step(LoopInput::Cancel(false));
    assert_eq!(action, LoopAction::Approve);
    assert!(events.is_empty());
    assert_eq!(run.phase, Phase::Approval);

    let (events, action) = run.step(LoopInput::Approval(true));
    assert_eq!(action, LoopAction::RunTool);
    assert!(matches!(&events[1], AgentEvent::ToolStart { name, .. } if name == "write_file"));

    let result = dispatch_tool(&ctx, &run.calls[run.next_call], None);
    assert!(!result.is_error, "{}", result.content);
    assert_eq!(backend.read_file("/ws/notes.txt").unwrap(), "hello");
    let (events, action) = run.step(LoopInput::ToolDone(result));
    assert_eq!(action, LoopAction::CheckCancel);
    assert_eq!(run.phase, Phase::Round);
    assert!(matches!(&events[0], AgentEvent::ToolEnd { is_error: false, .. }));
    assert_eq!(run.messages.last().unwrap().tool_call_id.as_deref(), Some("c1"));

    let (_, action) = run.step(LoopInput::Cancel(false));
    assert_eq!(action, LoopAction::CallModel);
    let (events, action) = run.step(reply("Done.", Vec::new()));
    assert_eq!(action, LoopAction::Finish { ok: true });
    assert_eq!(events.len(), 2);
    assert!(matches!(events[0], AgentEvent::State("Completed")));
    assert!(matches!(events[1], AgentEvent::Done));
    assert_eq!(run.phase, Phase::Finished);
}

#[test]
fn agent_run_skips_refused_tool_and_reads_without_approval() {
    let mut run = start_run(4, false);
    run.step(LoopInput::Cancel(false));
    let calls = vec![
        call("r1", "read_file", obj(vec![("path", s("a.txt"))])),
        call("w1", "write_file", obj(vec![("path", s("a.txt")), ("content", s("x"))])),
    ];
    run.step(reply("", calls));
    let (events, action) = run.step(LoopInput::Cancel(false));
    assert_eq!(action, LoopAction::RunTool);
    assert!(matches!(events[0], AgentEvent::State("Executing tool")));
    let (_, action) = run.step(LoopInput::ToolDone(ToolResult { content: "boom".to_string(), is_error: true }));
    assert_eq!(action, LoopAction::CheckCancel);
    assert_eq!(run.phase, Phase::Call);
    assert_eq!(run.next_call, 1);
    let (_, action) = run.step(LoopInput::Cancel(false));
    assert_eq!(action, LoopAction::Approve);
    let (events, action) = run.step(LoopInput::Approval(false));
    assert_eq!(action, LoopAction::CheckCancel);
    assert!(matches!(&events[0], AgentEvent::Activity(a) if a == "Skipped tool `write_file`"));
    assert_eq!(run.messages.last().unwrap().content, "User skipped this tool call.");
    assert_eq!(run.phase, Phase::Round);
}

#[test]
fn agent_run_stops_at_the_round_limit_and_on_cancel() {
    let mut run = start_run(1, true);
    run.step(LoopInput::Cancel(false));
    run.step(reply("", vec![call("r1", "read_file", obj(vec![("path", s("a.txt"))]))]));
    let (_, action) = run.step(LoopInput::Cancel(false));
    assert_eq!(action, LoopAction::Approve);
    run.step(LoopInput::Approval(true));
    run.step(LoopInput::ToolDone(ToolResult { content: "text".to_string(), is_error: false }));
    let (events, action) = run.step(LoopInput::Cancel(false));
    assert_eq!(action, LoopAction::Finish { ok: true });
    assert!(matches!(&events[0], AgentEvent::Error(e) if e == "Reached max tool iterations without a final answer"));

    let mut cancelled = start_run(3, false);
    let (events, action) = cancelled.step(LoopInput::Cancel(true));
    assert_eq!(action, LoopAction::Finish { ok: true });
    assert!(matches!(events[0], AgentEvent::State("Cancelled")));
}

#[test]
fn agent_run_falls_back_and_ends_on_unexpected_input() {
    let mut run = start_run(3, false);
    run.step(LoopInput::Cancel(false));
    let (_, action) = run.step(LoopInput::StreamFailed("reset".to_string()));
    assert_eq!(action, LoopAction::CallFallback);
    let (events, action) = run.step(reply("plain answer", Vec::new()));
    assert_eq!(action, LoopAction::Finish { ok: true });
    assert!(matches!(&events[0], AgentEvent::TextDelta(t) if t == "plain answer"));

    let mut failing = start_run(3, false);
    failing.step(LoopInput::Cancel(false));
    failing.step(LoopInput::StreamFailed("reset".to_string()));
    let (events, action) = failing.step(LoopInput::FallbackFailed("timeout".to_string()));
    assert_eq!(action, LoopAction::Finish { ok: false });
    assert!(matches!(&events[0], AgentEvent::Error(e) if e == "reset; fallback: timeout"));

    let mut odd = start_run(3, false);
    let (events, action) = odd.step(LoopInput::Approval(true));
    assert_eq!(action, LoopAction::Finish { ok: false });
    assert!(events.is_empty());
    assert_eq!(odd.phase, Phase::Finished);
}

fn outcome(event: HookEvent, command: &str, success: bool, output: &str) -> HookOutcome {
    HookOutcome { event, command: command.to_string(), success, output: output.to_string(), duration_ms: 1 }
}

#[test]
fn hooks_run_after_edits_and_at_the_end() {
    let mut run = start_run_with_hooks(4, false, true);
    run.step(LoopInput::Cancel(false));
    let calls = vec![
        call("w1", "write_file", obj(vec![("path", s("a.txt")), ("content", s("x"))])),
        call("r1", "read_file", obj(vec![("path", s("a.txt"))])),
    ];
    run.step(reply("", calls));
    run.step(LoopInput::Cancel(false));
    run.step(LoopInput::Approval(true));
    let (_, action) = run.step(LoopInput::ToolDone(ToolResult { content: "Wrote 1 bytes".to_string(), is_error: false }));
    assert_eq!(action, LoopAction::RunHooks(HookEvent::AfterFileEdit));
    let (events, action) =
        run.step(LoopInput::HooksDone(vec![outcome(HookEvent::AfterFileEdit, "cargo fmt", false, "diff")]));
    assert_eq!(action, LoopAction::CheckCancel);
    assert!(matches!(&events[0], AgentEvent::Activity(a) if a == "Hook `cargo fmt` failed: diff"));
    assert_eq!(run.next_call, 1);
    let (_, action) = run.step(LoopInput::Cancel(false));
    assert_eq!(action, LoopAction::RunTool);
    let (_, action) = run.step(LoopInput::ToolDone(ToolResult { content: "x".to_string(), is_error: false }));
    assert_eq!(action, LoopAction::CheckCancel);
    let (events, action) = run.step(LoopInput::Cancel(true));
    assert_eq!(action, LoopAction::RunHooks(HookEvent::AfterAgentRun));
    assert!(events.is_empty());
    let (events, action) = run.step(LoopInput::HooksDone(vec![outcome(HookEvent::AfterAgentRun, "cargo test", true, "")]));
    assert_eq!(action, LoopAction::Finish { ok: true });
    assert!(matches!(&events[0], AgentEvent::Activity(a) if a == "Hook `cargo test` succeeded"));
    assert!(matches!(events[1], AgentEvent::State("Cancelled")));
    assert!(matches!(events[2], AgentEvent::Done));
}

#[test]
fn missing_binary_is_reported_as_failure() {
    let runner = HookRunner::new("/ws".to_string(), true);
    let cmd = HookCommand { command: "definitely-not-a-binary".to_string(), args: vec![], description: String::new() };
    let out = runner.run_one(HookEvent::AfterFileEdit, &cmd, Err("spawn failed".to_string()), 0);
    assert!(!out.success);
    assert!(out.output.contains("failed to run hook"));
}

#[test]
fn disabled_runner_refuses_to_run() {
    let runner = HookRunner::new("/ws".to_string(), false);
    let cmd = HookCommand { command: "touch".to_string(), args: vec!["ran.txt".to_string()], description: String::new() };
    let out = runner.run_one(HookEvent::AfterAgentRun, &cmd, Ok((true, "done".to_string())), 0);
    assert!(!out.success);
    assert_eq!(out.output, "hooks are disabled");
    assert_eq!(out.command, cmd.display());
}

#[test]
fn malformed_json_is_an_error() {
    assert!(parse_hook_bundle("{not json").is_err());
    assert!(parse_hook_bundle(r#"{"version":1}"#).unwrap().is_empty());
}

#[test]
fn shipped_example_bundle_is_valid() {
    let text = r#"{
  "version": 1,
  "hooks": {
    "afterFileEdit": [
      { "command": "cargo", "args": ["fmt", "--", "--check"] }
    ],
    "afterAgentRun": [
      { "command": "cargo", "args": ["test", "-p", "devforge-agent", "--lib"] }
    ]
  }
}"#;
    let bundle = parse_hook_bundle(text).unwrap();
    assert!(!bundle.is_empty());
    assert_eq!(bundle.for_event(HookEvent::AfterFileEdit).len(), 1);
    assert_eq!(bundle.for_event(HookEvent::AfterAgentRun).len(), 1);
    for event in [HookEvent::AfterFileEdit, HookEvent::AfterAgentRun] {
        for command in bundle.for_event(event) {
            assert!(!command.command.trim().is_empty(), "{} hook has an empty command", event.label());
        }
    }
    assert_eq!(bundle.for_event(HookEvent::AfterFileEdit)[0].args, vec!["fmt", "--", "--check"]);
}

#[test]
fn writes_are_planned_before_they_are_made() {
    let backend = MemoryWorkspace::new();
    let ctx = ToolContext { backend: &backend, root: "/ws".to_string(), max_file_bytes: 200_000 };
    let plan = plan_write_file(&ctx, &obj(vec![("path", s("notes/a.txt")), ("content", s("one one"))])).unwrap();
    assert_eq!(plan.path, "/ws/notes/a.txt");
    assert_eq!(plan.text, "one one");
    assert_eq!(plan.message, "Wrote 7 bytes to `notes/a.txt`");
    assert!(backend.read_file("/ws/notes/a.txt").is_err());
    backend.write_file(&plan.path, &plan.text).unwrap();

    let edit = plan_str_replace(
        &ctx,
        &obj(vec![("path", s("notes/a.txt")), ("old_string", s("one")), ("new_string", s("two")), ("replace_all", JsonValue::Bool(true))]),
    )
    .unwrap();
    assert_eq!(edit.text, "two two");
    assert_eq!(edit.message, "Updated `notes/a.txt` (2 replacements)");
    assert_eq!(backend.read_file("/ws/notes/a.txt").unwrap(), "one one");

    let refused = plan_write_file(&ctx, &obj(vec![("path", s(".env")), ("content", s("K=v"))]));
    assert_eq!(refused.err().unwrap(), "refusing to write sensitive path: .env");
}

#[test]
fn guard_refuses_only_sensitive_targets() {
    assert_eq!(guard_target("/ws/.env", ".env", "read"), Err("refusing to read sensitive path: .env".to_string()));
    assert_eq!(guard_target("/ws/keys/ID_RSA", "keys/ID_RSA", "create"), Err("refusing to create sensitive path: keys/ID_RSA".to_string()));
    assert_eq!(guard_target("/ws/src/main.rs", "src/main.rs", "read"), Ok("/ws/src/main.rs".to_string()));
}

#[test]
fn read_and_create_refuse_sensitive_files() {
    let backend = MemoryWorkspace::new();
    backend.write_file("/ws/.env", "API_KEY=abc").unwrap();
    backend.write_file("/ws/notes.txt", "token: abc\nplain\n").unwrap();
    let ctx = ToolContext { backend: &backend, root: "/ws".to_string(), max_file_bytes: 200_000 };
    let read = execute_tool(&ctx, &call("1", "read_file", obj(vec![("path", s(".env"))])));
    assert!(read.is_error);
    assert_eq!(read.content, "refusing to read sensitive path: .env");
    let made = execute_tool(&ctx, &call("2", "create_directory", obj(vec![("path", s("certs/server.pem"))])));
    assert!(made.is_error);
    assert_eq!(made.content, "refusing to create sensitive path: certs/server.pem");
    let edit = execute_tool(
        &ctx,
        &call("3", "str_replace", obj(vec![("path", s(".env")), ("old_string", s("abc")), ("new_string", s("x"))])),
    );
    assert_eq!(edit.content, "refusing to edit sensitive path: .env");
    let plain = execute_tool(&ctx, &call("4", "read_file", obj(vec![("path", s("notes.txt"))])));
    assert!(!plain.is_error);
    assert_eq!(plain.content, "token: ********\nplain\n");
    let dir = execute_tool(&ctx, &call("5", "create_directory", obj(vec![("path", s("docs"))])));
    assert_eq!(dir.content, "Created directory `docs`");
}

#[test]
fn disabled_runner_still_lists_commands() {
    let bundle = parse_hook_bundle(r#"{"version":1,"hooks":{"afterAgentRun":[{"command":"echo","args":["done"]}]}}"#).unwrap();
    let sources = vec![HookSource { scope: AssetScope::Project, path: "/ws/.devforge/hooks.json".to_string(), bundle }];
    let runner = HookRunner::new("/ws".to_string(), false);
    assert_eq!(runner.commands(&sources, HookEvent::AfterAgentRun).len(), 1);
    assert_eq!(runner.commands(&sources, HookEvent::AfterAgentRun)[0].display(), "echo done");
    assert!(runner.commands(&sources, HookEvent::AfterFileEdit).is_empty());
    let enabled = HookRunner::new("/ws".to_string(), true);
    assert_eq!(enabled.commands(&sources, HookEvent::AfterAgentRun).len(), 1);
}

#[test]
fn tool_call_arguments_are_parsed() {
    let ok = tool_call_of(&PendingCall { id: "c1".to_string(), name: "read_file".to_string(), arguments: r#"{"path":"a.txt"}"#.to_string() });
    assert_eq!(ok.id, "c1");
    assert_eq!(ok.name, "read_file");
    match &ok.arguments {
        JsonValue::Object(entries) => {
            assert_eq!(entries.len(), 1);
            assert_eq!(entries[0].0, "path");
            assert!(matches!(&entries[0].1, JsonValue::String(p) if p == "a.txt"));
        }
        _ => panic!("expected an object"),
    }
    let bad = tool_call_of(&PendingCall { id: "c2".to_string(), name: "read_file".to_string(), arguments: "{oops".to_string() });
    assert!(matches!(&bad.arguments, JsonValue::Object(entries) if entries.is_empty()));
}

#[test]
fn stream_lines_are_read() {
    let mut acc = StreamAccumulator::new();
    assert!(matches!(acc.read_line(": keep-alive"), StreamLine::Next(None)));
    assert!(matches!(acc.read_line("data: not json"), StreamLine::Next(None)));
    match acc.read_line(r#"data: {"choices":[{"delta":{"content":"Hel"}}]}"#) {
        StreamLine::Next(Some(t)) => assert_eq!(t, "Hel"),
        _ => panic!("expected text"),
    }
    match acc.read_line("data: {\"choices\":[{\"delta\":{\"content\":\"lo\",\"tool_calls\":[{\"index\":0,\"id\":\"t1\",\"function\":{\"name\":\"read_file\",\"arguments\":\"{}\"}}]}}]}\r\n") {
        StreamLine::Next(Some(t)) => assert_eq!(t, "lo"),
        _ => panic!("expected text"),
    }
    assert!(matches!(acc.read_line("data: [DONE]"), StreamLine::Done));
    let (text, calls) = acc.into_parts();
    assert_eq!(text, "Hello");
    assert_eq!(calls.len(), 1);
    assert_eq!(calls[0].name, "read_file");

    let mut whole = StreamAccumulator::new();
    match whole.read_line(r#"data: {"choices":[{"message":{"content":"all at once"}}]}"#) {
        StreamLine::Complete(content, calls, raw) => {
            assert_eq!(content, "all at once");
            assert!(calls.is_empty());
            assert!(raw.is_empty());
        }
        _ => panic!("expected a complete body"),
    }
}

#[test]
fn new_file_names_with_a_colon_stay_under_the_root() {
    let backend = MemoryWorkspace::new();
    backend.write_file("/ws/docs/x.md", "x").unwrap();
    assert_eq!(resolve_under_root(&backend, "/ws", "docs/ab:c.txt"), Ok("/ws/docs/ab:c.txt".to_string()));
    assert_eq!(resolve_under_root(&backend, "/ws", "docs/a\\b.txt"), Ok("/ws/docs/a\\b.txt".to_string()));
}
