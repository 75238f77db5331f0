use devforge::ai::{
    attachment_too_large, classify_attachment, compose_user_message, context_preamble, history_turns, max_iterations,
    mcp_note, mime_for_image, stop_shortcut_for, tools_note, AiAttachmentKind, AiChatRole,
};
use devforge::ai_providers::{provider_ids, resolve_api_key_in};
use devforge::mode::AgentMode;
use devforge::prompt::{skill_dirs, skills_prompt, system_prompt, AGENT_SYSTEM_PROMPT, ASK_SYSTEM_PROMPT};
use devforge::provider::Role;
use devforge::settings::{filter_text, join_extra_models, parse_list, query_matches, section_blurb};

#[test]
fn user_message_carries_the_attachment_context() {
    assert_eq!(compose_user_message("Explain", ""), "Explain");
    assert_eq!(compose_user_message("Explain", "\n[file a.rs]"), "Explain\n\n[file a.rs]");
    assert_eq!(compose_user_message("", "\n[file a.rs]"), "Please review the attached materials.\n[file a.rs]");
}

#[test]
fn history_keeps_user_and_assistant_turns() {
    let history = vec![
        (AiChatRole::User, "q".to_string()),
        (AiChatRole::Activity, "tool".to_string()),
        (AiChatRole::Assistant, "a".to_string()),
        (AiChatRole::System, "note".to_string()),
    ];
    let turns = history_turns(&history);
    assert_eq!(turns.len(), 2);
    assert_eq!(turns[0].role, Role::User);
    assert_eq!(turns[0].content, "q");
    assert_eq!(turns[1].role, Role::Assistant);
    assert_eq!(turns[1].content, "a");
}

#[test]
fn preamble_names_root_mode_and_provider() {
    let text = context_preamble("/ws", AgentMode::Edit, tools_note(AgentMode::Edit), mcp_note(false, true), "openai");
    assert_eq!(
        text,
        "Workspace root: /ws\nUI mode: edit (tools: read + write_file/str_replace (+ optional MCP)).\n\
         MCP enabled but no servers configured in settings.toml [[ai.mcp-servers]].\nProvider: openai.\n\
         Continue the conversation using prior turns for context."
    );
    assert_eq!(mcp_note(true, true), "MCP tools enabled.");
    assert_eq!(mcp_note(false, false), "MCP off.");
    assert_eq!(tools_note(AgentMode::Ask), "tools: read-only (+ optional MCP)");
}

#[test]
fn round_limit_is_the_smaller_positive_limit() {
    assert_eq!(max_iterations(8, 20), 8);
    assert_eq!(max_iterations(30, 12), 12);
    assert_eq!(max_iterations(0, 5), 1);
    assert_eq!(max_iterations(5, 0), 1);
}

#[test]
fn attachments_are_classified_by_extension() {
    assert_eq!(classify_attachment("/ws/shot.PNG", false), AiAttachmentKind::Image);
    assert_eq!(classify_attachment("/ws/spec.pdf", false), AiAttachmentKind::Document);
    assert_eq!(classify_attachment("/ws/main.rs", false), AiAttachmentKind::Text);
    assert_eq!(classify_attachment("/ws/src", true), AiAttachmentKind::Directory);
    assert_eq!(mime_for_image("/ws/a.webp"), "image/webp");
    assert_eq!(mime_for_image("/ws/a.JPG"), "image/jpeg");
    assert!(attachment_too_large(AiAttachmentKind::Image, 4_000_001));
    assert!(!attachment_too_large(AiAttachmentKind::Image, 4_000_000));
    assert!(attachment_too_large(AiAttachmentKind::Text, 512_001));
    assert!(!attachment_too_large(AiAttachmentKind::Directory, u64::MAX));
    assert_eq!(stop_shortcut_for(true), "⌘⌫");
    assert_eq!(stop_shortcut_for(false), "Ctrl+⌫");
}

#[test]
fn skills_section_lists_non_blank_skills() {
    let files = vec![
        (Some("style".to_string()), "  Use tabs.  ".to_string()),
        (None, "   ".to_string()),
        (None, "Be brief.".to_string()),
    ];
    assert_eq!(
        skills_prompt(&files),
        "\n\n# Agent Skills\nFollow these skills when relevant:\n\n### Skill: style\nUse tabs.\n\n### Skill: skill\nBe brief."
    );
    assert_eq!(skills_prompt(&vec![(None, "\n".to_string())]), "");
    assert_eq!(
        skill_dirs(Some("/home/u"), Some("/ws")),
        vec!["/home/u/.devforge/skills", "/home/u/.cursor/skills", "/ws/.devforge/skills", "/ws/.cursor/skills"]
    );
    assert!(skill_dirs(None, None).is_empty());
    assert_eq!(system_prompt(AgentMode::Ask), ASK_SYSTEM_PROMPT);
    assert_eq!(system_prompt(AgentMode::Agent), AGENT_SYSTEM_PROMPT);
}

#[test]
fn settings_lists_are_split_and_joined() {
    assert_eq!(parse_list(" a, b ;\n\nc,, "), vec!["a", "b", "c"]);
    assert_eq!(join_extra_models(&vec![" x ".to_string(), "".to_string(), "y".to_string()]), "x, y");
    assert_eq!(filter_text("ai", "Max Tokens", "Upper Bound"), "ai max tokens upper boundaimaxtokensupperbound");
    assert_eq!(section_blurb("AI"), "Assistant provider, model, and safety options");
    assert_eq!(section_blurb("Something"), "Plugin-specific options");
}

#[test]
fn provider_keys_come_from_settings_or_environment() {
    assert!(provider_ids().contains(&"openai"));
    let env = vec![("OPENAI_API_KEY".to_string(), "sk-env".to_string())];
    assert_eq!(resolve_api_key_in("openai", "  sk-set  ", &env), "sk-set");
    assert_eq!(resolve_api_key_in("openai", "", &env), "sk-env");
}

#[test]
fn settings_search_needs_every_word() {
    let hay = filter_text("ai", "Max Tokens", "Upper bound");
    assert!(query_matches("", &hay));
    assert!(query_matches("  max   ai ", &hay));
    assert!(query_matches("maxtokens", &hay));
    assert!(!query_matches("max font", &hay));
}
