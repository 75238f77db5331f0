use devforge::ai::{
    citation_label, mcp_server_specs, mime_for_image, prepare_attachments, AiAttachment,
    AiAttachmentKind, AiConversation, AttachmentContent,
};
use devforge::ai_providers::McpServerConfig;
use devforge::assets::{effective_scope, mcp_asset_specs, AgentAsset, AssetKind, AssetScope};
use devforge::frontmatter::{parse_frontmatter, set_enabled_text};
use devforge::json::JsonValue;
use devforge::mcp::McpServerSpec;
use devforge::mode::AgentMode;
use devforge::runtime::merge_tools;
use devforge::settings::{
    add_extra_model, field_key, friendly_field_name, search_settings, sort_settings_by_name, CoreConfig, SettingsSection,
};
use devforge::ssh::{
    append_host_block_text, display_path_with_home, expand_tilde, include_target, matching_include_names,
    IncludeTarget,
};
use devforge::tools::should_skip_search_path;

fn s(v: &str) -> JsonValue {
    JsonValue::String(v.to_string())
}

fn arr(items: Vec<JsonValue>) -> JsonValue {
    JsonValue::Array(items)
}

fn obj(entries: Vec<(&str, JsonValue)>) -> JsonValue {
    JsonValue::Object(entries.into_iter().map(|(k, v)| (k.to_string(), v)).collect())
}

fn names(v: &[String]) -> Vec<&str> {
    v.iter().map(|s| s.as_str()).collect()
}

#[test]
fn toggling_reads_back_the_flag() {
    let texts = [
        "---\nname: rule\nenabled: true\n---\n\nBody\n",
        "---\nname: skill\n---\n\nBody\n",
        "# Plain\n",
        "---\ndescription: >-\n  folded\n  enabled: yes\n---\nBody\n",
        "---\nname: x\nEnabled : no\nenabled: yes\n---\n",
    ];
    for text in texts {
        for value in [true, false] {
            let out = set_enabled_text(text, "name", value);
            let (meta, _) = parse_frontmatter(&out);
            let expected = if value { "true" } else { "false" };
            assert_eq!(meta.get("enabled").map(|s| s.as_str()), Some(expected), "{text:?} -> {out:?}");
        }
    }
}

#[test]
fn unclosed_frontmatter_without_flag_is_left_alone() {
    let out = set_enabled_text("---\nname: open\n", "open", false);
    assert_eq!(out, "---\nname: open\n");
    let (meta, _) = parse_frontmatter(&out);
    assert!(meta.get("enabled").is_none());
}

#[test]
fn sanitized_names_are_fixed_points() {
    for raw in ["My Skill!", "  a_b-c  ", "--Hello--World--", "x"] {
        let once = devforge::assets::sanitize_asset_name(raw).unwrap();
        assert_eq!(devforge::assets::sanitize_asset_name(&once).unwrap(), once);
    }
}

#[test]
fn effective_scope_falls_back_to_user() {
    assert_eq!(effective_scope(AssetScope::Project, false), AssetScope::User);
    assert_eq!(effective_scope(AssetScope::Project, true), AssetScope::Project);
    assert_eq!(effective_scope(AssetScope::User, false), AssetScope::User);
}

fn mcp_asset(name: &str, path: &str, enabled: bool) -> AgentAsset {
    AgentAsset {
        kind: AssetKind::Mcps,
        scope: AssetScope::Project,
        name: name.to_string(),
        description: String::new(),
        path: path.to_string(),
        body: String::new(),
        enabled,
    }
}

#[test]
fn mcp_asset_specs_reads_enabled_servers() {
    let assets = vec![mcp_asset("files", "mcp/files.json", true), mcp_asset("off", "mcp/off.json", false)];
    let docs = vec![
        Some(obj(vec![
            ("name", s("fs")),
            ("command", s("npx")),
            ("args", JsonValue::Array(vec![s("-y"), s("server-fs")])),
            ("enabled", JsonValue::Bool(true)),
        ])),
        Some(obj(vec![("name", s("off")), ("command", s("npx")), ("enabled", JsonValue::Bool(false))])),
    ];
    let specs = mcp_asset_specs(&assets, &docs);
    assert_eq!(specs.len(), 1);
    assert_eq!(specs[0].0, "mcp/files.json");
    assert_eq!(specs[0].1.name, "fs");
    assert_eq!(specs[0].1.command, "npx");
    assert_eq!(names(&specs[0].1.args), vec!["-y", "server-fs"]);
}

#[test]
fn mcp_asset_without_command_or_name() {
    let assets = vec![
        mcp_asset("a", "a.json", true),
        mcp_asset("b", "b.json", true),
        mcp_asset("c", "c.json", true),
        mcp_asset("d", "d.json", true),
        mcp_asset("e", "e.json", true),
    ];
    let docs = vec![
        Some(obj(vec![("name", s("a")), ("command", s("   ")), ("args", arr(vec![]))])),
        Some(obj(vec![("name", s("  ")), ("command", s("run")), ("args", arr(vec![]))])),
        None,
        Some(obj(vec![("command", s("run"))])),
        Some(obj(vec![("name", s(" e ")), ("command", s("run")), ("args", arr(vec![s("-v")]))])),
    ];
    let specs = mcp_asset_specs(&assets, &docs);
    assert_eq!(specs.len(), 1);
    assert_eq!(specs[0].0, "e.json");
    assert_eq!(specs[0].1.name, "e");
    assert_eq!(specs[0].1.args, vec!["-v".to_string()]);
}

#[test]
fn asset_servers_do_not_take_taken_names() {
    let configured = vec![
        McpServerConfig { name: "db".into(), command: "mysql-mcp".into(), args: vec![], enabled: true },
        McpServerConfig { name: "off".into(), command: "x".into(), args: vec![], enabled: false },
        McpServerConfig { name: "empty".into(), command: String::new(), args: vec![], enabled: true },
    ];
    let from_assets = vec![
        ("a.json".to_string(), McpServerSpec { name: "db".into(), command: "other".into(), args: vec![] }),
        ("b.json".to_string(), McpServerSpec { name: "fs".into(), command: "npx".into(), args: vec!["-y".into()] }),
        ("c.json".to_string(), McpServerSpec { name: "fs".into(), command: "again".into(), args: vec![] }),
    ];
    let specs = mcp_server_specs(&configured, &from_assets);
    let got: Vec<(&str, &str)> = specs.iter().map(|s| (s.name.as_str(), s.command.as_str())).collect();
    assert_eq!(got, vec![("db", "mysql-mcp"), ("fs", "npx")]);
}

#[test]
fn tools_are_merged_in_order() {
    let base = JsonValue::Array(vec![s("a"), s("b")]);
    let merged = merge_tools(base, Some(JsonValue::Array(vec![s("c")])));
    match merged {
        JsonValue::Array(items) => {
            assert_eq!(items.len(), 3);
            assert_eq!(items[2].as_str().map(|x| x.as_str()), Some("c"));
        }
        _ => panic!("not an array"),
    }
    match merge_tools(JsonValue::Null, None) {
        JsonValue::Array(items) => assert!(items.is_empty()),
        _ => panic!("not an array"),
    }
}

#[test]
fn extra_models_are_added_once() {
    assert_eq!(add_extra_model("a, b", "c"), Some("a, b, c".to_string()));
    assert_eq!(add_extra_model("a;B\n", "b"), None);
    assert_eq!(add_extra_model("", "gpt-x"), Some("gpt-x".to_string()));
}

#[test]
fn field_names_are_title_cased() {
    assert_eq!(friendly_field_name("max_tokens"), "Max Tokens");
    assert_eq!(friendly_field_name("color-theme"), "Color Theme");
}

#[test]
fn core_config_defaults_are_off() {
    let c = CoreConfig::default();
    assert!(!c.modal && !c.custom_titlebar && !c.file_explorer_double_click && !c.auto_reload_plugin);
    assert!(c.color_theme.is_empty() && c.icon_theme.is_empty());
}

#[test]
fn tilde_is_expanded_with_the_home_directory() {
    assert_eq!(expand_tilde("~/.ssh/extra", Some("/home/u")), "/home/u/.ssh/extra");
    assert_eq!(expand_tilde("~", Some("/home/u")), "/home/u");
    assert_eq!(expand_tilde("~/x", None), "~/x");
    assert_eq!(expand_tilde("conf.d/*", Some("/home/u")), "conf.d/*");
}

#[test]
fn include_targets() {
    assert_eq!(include_target("extra", "/home/u/.ssh", None), IncludeTarget::File("/home/u/.ssh/extra".into()));
    assert_eq!(include_target("/etc/ssh/one", "/home/u/.ssh", None), IncludeTarget::File("/etc/ssh/one".into()));
    assert_eq!(
        include_target("~/.ssh/conf.d/*.conf", "/tmp", Some("/home/u")),
        IncludeTarget::Glob { dir: "/home/u/.ssh/conf.d".into(), pattern: "*.conf".into() }
    );
    assert_eq!(include_target("conf.d/[*", "/home/u/.ssh", None), IncludeTarget::Nothing);
}

#[test]
fn include_names_are_matched_and_sorted() {
    let names_in_dir = vec!["b.conf".to_string(), "notes.txt".to_string(), "a.conf".to_string()];
    assert_eq!(matching_include_names("*.conf", &names_in_dir), vec!["a.conf".to_string(), "b.conf".to_string()]);
    assert!(matching_include_names("[", &names_in_dir).is_empty());
}

#[test]
fn display_path_uses_tilde() {
    assert_eq!(display_path_with_home("/home/u/.ssh/config", Some("/home/u")), "~/.ssh/config");
    assert_eq!(display_path_with_home("/etc/ssh/config", Some("/home/u")), "/etc/ssh/config");
    assert_eq!(display_path_with_home("/etc/ssh/config", None), "/etc/ssh/config");
}

#[test]
fn host_blocks_are_appended_after_a_blank_line() {
    assert_eq!(append_host_block_text("", "Host a\n  User x\n\n"), "Host a\n  User x\n");
    assert_eq!(append_host_block_text("Host b", "Host a"), "Host b\n\nHost a\n");
    assert_eq!(append_host_block_text("Host b\n\n", "Host a"), "Host b\n\nHost a\n");
}

#[test]
fn search_skips_build_directories() {
    assert!(should_skip_search_path("/ws/target/debug/x.rs"));
    assert!(should_skip_search_path("web/node_modules/a.js"));
    assert!(!should_skip_search_path("/ws/src/targets.rs"));
}

#[test]
fn citations_are_relative_to_the_workspace() {
    assert_eq!(citation_label("/ws/src/a.rs", Some("/ws")), "src/a.rs");
    assert_eq!(citation_label("/other/a.rs", Some("/ws")), "/other/a.rs");
    assert_eq!(mime_for_image("shot.PNG"), "image/png");
    assert_eq!(mime_for_image("photo.jpeg"), "image/jpeg");
}

#[test]
fn image_attachments_become_data_urls() {
    let atts = vec![
        AiAttachment { path: "/ws/a.png".into(), kind: AiAttachmentKind::Image, name: "a.png".into() },
        AiAttachment { path: "/ws/notes.md".into(), kind: AiAttachmentKind::Text, name: "notes.md".into() },
    ];
    let contents = vec![AttachmentContent::ImageBytes(b"hi".to_vec()), AttachmentContent::Text("hello".into())];
    let (ctx, images) = prepare_attachments(&atts, &contents);
    assert_eq!(images, vec!["data:image/png;base64,aGk=".to_string()]);
    assert_eq!(
        ctx,
        "\n[Image attached: /ws/a.png]\n\n----- attached file: /ws/notes.md -----\nhello\n----- end -----\n"
    );
}

#[test]
fn new_conversations_are_stamped() {
    let c = AiConversation::new(AgentMode::Edit, "Auto".into());
    assert!(c.id.starts_with("chat-"));
    assert!(c.updated_at > 0);
    assert_eq!(c.title, "New chat");
    assert_eq!(c.mode, "edit");
}

#[test]
fn frontmatter_repeated_key_is_stored_once() {
    let (meta, body) = parse_frontmatter("---\nName: first\nname: second\ndescription: d\n---\nBody\n");
    assert_eq!(meta.len(), 2);
    assert_eq!(meta.get("name").map(|s| s.as_str()), Some("second"));
    assert_eq!(meta.entry(0).0.as_str(), "name");
    assert_eq!(body, "Body\n");
}

#[test]
fn set_enabled_text_keeps_body_after_fence() {
    let text = "---\nname: demo\nenabled: true\ndescription: Demo\n---\n\nKeep me intact.\n";
    let out = set_enabled_text(text, "demo", false);
    assert_eq!(parse_frontmatter(&out).1, parse_frontmatter(text).1);
    assert_eq!(parse_frontmatter(&out).1, "\nKeep me intact.\n");
    let plain = set_enabled_text("# Plain\n", "plain", true);
    assert_eq!(parse_frontmatter(&plain).1, "\n# Plain\n");
}

#[test]
fn scopes_and_modes_are_read_in_any_case() {
    assert_eq!(AssetScope::from_id("  USER  "), Some(AssetScope::User));
    assert_eq!(AssetScope::from_id("\tProject\n"), Some(AssetScope::Project));
    assert_eq!(AssetScope::from_id(AssetScope::User.label()), Some(AssetScope::User));
    assert_eq!(AssetScope::from_id("users"), None);
    assert_eq!(AgentMode::from_str_loose("AGENT"), AgentMode::Agent);
    assert_eq!(AgentMode::from_str_loose("eDiT"), AgentMode::Edit);
    assert_eq!(AgentMode::from_str_loose(""), AgentMode::Ask);
    assert_eq!(AgentMode::from_str_loose("bogus"), AgentMode::Ask);
    assert_eq!(AgentMode::from_str_loose(" edit"), AgentMode::Ask);
}

fn entry(kind: &str, name: &str, filter: &str) -> devforge::settings::SettingsEntry {
    devforge::settings::SettingsEntry {
        kind: kind.to_string(),
        name: name.to_string(),
        field: devforge::settings::field_key(&name.to_lowercase().replace(' ', "_")),
        filter_text: filter.to_string(),
    }
}

#[test]
fn settings_search_filters_sections_and_counts() {
    assert_eq!(field_key("font_size"), "font-size");
    let items = vec![
        entry("editor", "Font Size", "editor font size the font size"),
        entry("ai", "Model", "ai model the model to use"),
    ];
    let plugin = vec![entry("rust", "Server Path", "rust server path")];
    let sections = vec![
        SettingsSection { kind: "Editor".to_string(), fields: vec![entry("editor", "Font Size", "editor font size the font size")], has_custom: false, search_text: String::new() },
        SettingsSection { kind: "AI".to_string(), fields: vec![entry("ai", "Model", "ai model the model to use")], has_custom: true, search_text: "extra models mcp".to_string() },
    ];
    let all = search_settings("", &items, &plugin, &sections);
    assert_eq!(all.match_count, 3);
    assert_eq!(all.matched.len(), 3);
    assert_eq!(all.sections.len(), 2);
    let font = search_settings("font", &items, &plugin, &sections);
    assert_eq!(font.match_count, 1);
    assert_eq!(font.sections.len(), 1);
    assert_eq!(font.sections[0].kind, "Editor");
    let mcp = search_settings("mcp", &items, &plugin, &sections);
    assert_eq!(mcp.matched.len(), 0);
    assert_eq!(mcp.match_count, 1);
    assert_eq!(mcp.sections.len(), 1);
    assert_eq!(mcp.sections[0].fields.len(), 1);
    assert_eq!(mcp.sections[0].fields[0].name, "Model");
    let sorted = sort_settings_by_name(vec![entry("p", "b", ""), entry("p", "A", ""), entry("p", "a", "")]);
    let names: Vec<&str> = sorted.iter().map(|e| e.name.as_str()).collect();
    assert_eq!(names, vec!["A", "a", "b"]);
}
