use devforge::ai::{
    active_title_from, derive_title, format_touched_count, step_summary, tool_verb, AiAgentStep,
    AiChatMessage, AiChatRole, AiConversation, AiStepState,
};
use devforge::ai_providers::{model_picker_list, provider_preset, provider_presets, resolve_base_url};
use devforge::ssh::{parse_ssh_config_hosts, parse_ssh_config_hosts_lenient, SshConfigError, SshHost};

fn conversation(id: &str, title: &str) -> AiConversation {
    AiConversation {
        id: id.into(),
        title: title.into(),
        mode: "agent".into(),
        model: "Auto".into(),
        messages: Vec::new(),
        updated_at: 0,
    }
}

#[test]
fn active_title_prefers_the_active_conversation() {
    let list = vec![conversation("chat-1", "Fix the parser"), conversation("chat-2", "Add tests")];
    assert_eq!(active_title_from(&list, "chat-2"), "Add tests");
}

#[test]
fn active_title_falls_back_when_missing_or_blank() {
    let list = vec![conversation("chat-1", "   ")];
    assert_eq!(active_title_from(&list, "chat-1"), "New chat");
    assert_eq!(active_title_from(&list, "chat-9"), "New chat");
    assert_eq!(active_title_from(&[], "chat-9"), "New chat");
}

#[test]
fn derive_title_uses_the_first_user_line_and_truncates() {
    let msgs = vec![
        AiChatMessage::new(AiChatRole::Activity, "thinking".into()),
        AiChatMessage::new(AiChatRole::User, format!("{}\nsecond line", "x".repeat(60))),
    ];
    let title = derive_title(&msgs);
    assert!(title.ends_with('…'));
    assert_eq!(title.chars().count(), 43);
}

#[test]
fn derive_title_defaults_without_user_messages() {
    assert_eq!(derive_title(&[]), "New chat");
}

#[test]
fn derive_title_keeps_short_first_line() {
    let msgs = vec![AiChatMessage::new(AiChatRole::User, "  Fix the parser  \nmore".into())];
    assert_eq!(derive_title(&msgs), "Fix the parser");
    let blank = vec![AiChatMessage::new(AiChatRole::User, "   ".into())];
    assert_eq!(derive_title(&blank), "New chat");
}

#[test]
fn model_picker_includes_auto_and_provider_models() {
    let list = model_picker_list("openai", "my-custom-model");
    assert_eq!(list[0], "Auto");
    assert!(list.iter().any(|m| m == "gpt-4o"));
    assert!(list.iter().any(|m| m == "my-custom-model"));
}

#[test]
fn model_picker_skips_duplicates_and_blanks() {
    let list = model_picker_list("openai", " GPT-4O , ,extra\nextra");
    assert_eq!(list.iter().filter(|m| m.eq_ignore_ascii_case("gpt-4o")).count(), 1);
    assert_eq!(list.iter().filter(|m| *m == "extra").count(), 1);
    assert!(!list.iter().any(|m| m.trim().is_empty()));
    assert_eq!(model_picker_list("unknown", ""), vec!["Auto".to_string()]);
}

#[test]
fn resolve_base_url_for_presets() {
    assert!(resolve_base_url("openrouter", "").contains("openrouter.ai"));
    assert!(resolve_base_url("grok", "").contains("api.x.ai"));
    assert!(resolve_base_url("gemini", "https://api.openai.com/v1").contains("generativelanguage.googleapis.com"));
    assert_eq!(resolve_base_url("openai-compatible", "http://localhost:8080/v1"), "http://localhost:8080/v1");
}

#[test]
fn provider_preset_lookup() {
    assert!(provider_preset("OpenRouter").is_some());
    assert!(provider_preset("hermes").is_some());
    assert!(provider_preset("nope").is_none());
}

#[test]
fn every_preset_is_found_by_its_id() {
    for p in provider_presets() {
        let found = provider_preset(&format!("  {}  ", p.id.to_uppercase())).unwrap();
        assert_eq!(found.id, p.id);
    }
}

#[test]
fn touched_count_label_matches_cursor_wording() {
    assert_eq!(format_touched_count(0), "");
    assert_eq!(format_touched_count(1), "1 File");
    assert_eq!(format_touched_count(3), "3 Files");
}

#[test]
fn tool_verbs_are_human_readable() {
    assert_eq!(tool_verb("read_file"), "Read file");
    assert_eq!(tool_verb("str_replace"), "Edit file");
    assert_eq!(tool_verb("write_file"), "Write file");
    assert_eq!(tool_verb("mcp__mysql__execute_query"), "Run query");
    assert_eq!(tool_verb("mcp__mysql__list_tables"), "List tables");
    assert_eq!(tool_verb("unknown_tool"), "Tool call");
}

#[test]
fn step_summary_includes_touched_file() {
    let step = AiAgentStep::new(
        "str_replace".into(),
        r#"{"path":"src/main.rs","old_string":"a","new_string":"b"}"#.into(),
        false,
    );
    assert_eq!(step.files, vec!["src/main.rs".to_string()]);
    assert_eq!(step_summary(&step), "Edit file · src/main.rs");
}

#[test]
fn step_summary_without_path_is_just_the_verb() {
    let step = AiAgentStep::new("search_code".into(), r#"{"query":"flake"}"#.into(), false);
    assert!(step.files.is_empty());
    assert_eq!(step_summary(&step), "Search code");
}

#[test]
fn steps_start_in_running_state() {
    let step = AiAgentStep::new("read_file".into(), "{}".into(), true);
    assert_eq!(step.state, AiStepState::Running);
    assert!(step.is_mcp);
    assert!(step.output.is_empty());
}

fn alias(h: &SshHost) -> Option<&str> {
    h.alias.as_deref()
}

#[test]
fn parses_multiple_hosts() {
    let text = r#"
Host t23-home
  HostName 192.168.5.10
  User ubuntu
  Port 22

Host PQchatAzurx
  HostName 20.6.48.10
  User azureuser
  IdentityFile ~/pem/-prod.pem
  IdentitiesOnly yes
  ServerAliveInterval 60
  ServerAliveCountMax 3
"#;
    let hosts = parse_ssh_config_hosts(text, &Vec::new()).unwrap();
    assert_eq!(hosts.len(), 2);
    // Sorted alphabetically by display name
    assert_eq!(alias(&hosts[0]), Some("PQchatAzurx"));
    assert_eq!(alias(&hosts[1]), Some("t23-home"));
    assert_eq!(hosts[0].identity_file.as_deref(), Some("~/pem/-prod.pem"));
}

#[test]
fn skips_wildcards() {
    let text = r#"
Host *
  ServerAliveInterval 30

Host grapheneos
  HostName 172.16.0.5
  User ubuntu-pc
"#;
    let hosts = parse_ssh_config_hosts_lenient(text, &Vec::new());
    assert_eq!(hosts.len(), 1);
    assert_eq!(alias(&hosts[0]), Some("grapheneos"));
}

#[test]
fn parses_real_style_config() {
    let text = r#"
Host *
  Compression yes

Host freeBSD
  HostName 192.168.88.252
  User root
  Port 22

Host openclaw
  HostName 192.168.88.253
  User vta
  Port 22
"#;
    let hosts = parse_ssh_config_hosts_lenient(text, &Vec::new());
    assert_eq!(hosts.len(), 2);
    assert_eq!(alias(&hosts[0]), Some("freeBSD"));
    assert_eq!(alias(&hosts[1]), Some("openclaw"));
}

#[test]
fn host_details_are_read() {
    let text = "Host box\n  HostName 10.0.0.1\n  User me\n  Port 2222\n  IdentitiesOnly no\n";
    let hosts = parse_ssh_config_hosts(text, &Vec::new()).unwrap();
    assert_eq!(hosts.len(), 1);
    assert_eq!(hosts[0].host, "10.0.0.1");
    assert_eq!(hosts[0].user.as_deref(), Some("me"));
    assert_eq!(hosts[0].port, Some(2222));
    assert_eq!(hosts[0].identities_only, Some(false));
}

#[test]
fn config_without_hosts_is_an_error() {
    let err = parse_ssh_config_hosts("# nothing\nHost *\n  User x\n", &Vec::new()).unwrap_err();
    assert_eq!(err, SshConfigError::NoHosts);
}
