use devforge::assets::{
    asset_locations_in, config_roots_with_home, default_location_with_home, json_asset_from_text, parsed_bodies,
    asset_candidates, AgentAsset, AssetError, AssetKind, LocationEntry,
    AssetScope,
};
use devforge::frontmatter::{find_char_from, parse_bool, unquote};
use devforge::hooks::{HookBundle, HookCommand, HookEvent};
use devforge::mode::AgentMode;
use devforge::runtime::truncate_tool_output;
use devforge::state::AgentState;

fn chars(s: &str) -> Vec<char> {
    s.chars().collect()
}

fn asset(kind: AssetKind, description: &str) -> AgentAsset {
    AgentAsset {
        kind,
        scope: AssetScope::User,
        name: "n".into(),
        description: description.into(),
        path: "/p".into(),
        body: String::new(),
        enabled: true,
    }
}

#[test]
fn config_roots_put_the_project_first() {
    let roots = config_roots_with_home(Some("/ws"), Some("/home/u"));
    let dirs: Vec<(AssetScope, &str)> = roots.iter().map(|(s, d)| (*s, d.as_str())).collect();
    assert_eq!(
        dirs,
        vec![
            (AssetScope::Project, "/ws/.devforge"),
            (AssetScope::Project, "/ws/.cursor"),
            (AssetScope::User, "/home/u/.devforge"),
            (AssetScope::User, "/home/u/.cursor"),
        ]
    );
    assert_eq!(config_roots_with_home(None, Some("/home/u")).len(), 2);

    let skills: Vec<String> = asset_locations_in(AssetKind::Skills, &roots).into_iter().map(|l| l.dir).collect();
    assert_eq!(skills[0], "/ws/.devforge/skills");
    assert_eq!(skills.len(), 4);
    let hooks = asset_locations_in(AssetKind::Hooks, &roots);
    assert_eq!(hooks[3].dir, "/home/u/.cursor");
    let twice = vec![(AssetScope::Project, "/a".to_string()), (AssetScope::User, "/a".to_string())];
    let merged = asset_locations_in(AssetKind::Rules, &twice);
    assert_eq!(merged.len(), 1);
    assert_eq!(merged[0].scope, AssetScope::Project);
}

#[test]
fn new_assets_go_under_devforge() {
    assert_eq!(
        default_location_with_home(AssetKind::Subagents, AssetScope::Project, Some("/ws"), None),
        Ok("/ws/.devforge/agents".to_string())
    );
    assert_eq!(
        default_location_with_home(AssetKind::Hooks, AssetScope::User, None, Some("/home/u")),
        Ok("/home/u/.devforge".to_string())
    );
    assert_eq!(
        default_location_with_home(AssetKind::Rules, AssetScope::Project, None, Some("/home/u")),
        Err(AssetError::NoWorkspace)
    );
    assert_eq!(default_location_with_home(AssetKind::Rules, AssetScope::User, Some("/ws"), None), Err(AssetError::NoHomeDir));
}

#[test]
fn kinds_and_scopes_have_labels() {
    assert_eq!(AssetKind::Mcps.label(), "MCPs");
    assert_eq!(AssetKind::Mcps.extension(), "json");
    assert_eq!(AssetKind::Rules.extension(), "md");
    assert!(AssetKind::Rules.is_prompt_asset());
    assert!(!AssetKind::Commands.is_prompt_asset());
    assert_eq!(AssetScope::User.label(), "User");
    assert_eq!(asset(AssetKind::Skills, "  Does things ").subtitle(), "Does things");
    assert_eq!(asset(AssetKind::Mcps, "").subtitle(), "MCP server");
    assert_eq!(asset(AssetKind::Hooks, " ").subtitle(), "Hook bundle");
    assert_eq!(asset(AssetKind::Rules, "").subtitle(), "user asset");
    assert_eq!(AgentMode::from_str_loose("EDIT"), AgentMode::Edit);
    assert_eq!(AgentMode::from_str_loose("whatever"), AgentMode::Ask);
    assert_eq!(AgentMode::Agent.label(), "Agent");
    assert_eq!(AgentState::WaitingPermission.label(), "Waiting for permission");
    assert_eq!(HookEvent::AfterFileEdit.label(), "afterFileEdit");
}

#[test]
fn frontmatter_values_are_unquoted_and_read_as_flags() {
    assert_eq!(unquote(&chars("  \"quoted\" ")), chars("quoted"));
    assert_eq!(unquote(&chars("'x'")), chars("x"));
    assert_eq!(unquote(&chars("\"open")), chars("\"open"));
    assert!(parse_bool(&chars(" Yes "), false));
    assert!(!parse_bool(&chars("off"), true));
    assert!(parse_bool(&chars("maybe"), true));
    assert!(!parse_bool(&chars("maybe"), false));
    assert_eq!(find_char_from(&chars("a:b:c"), ':', 2), Some(3));
    assert_eq!(find_char_from(&chars("a:b"), ':', 2), None);
}

#[test]
fn hook_bundles_hold_commands_per_event() {
    let mut bundle = HookBundle::new();
    assert!(bundle.is_empty());
    let cmd = HookCommand { command: "cargo".into(), args: vec!["fmt".into()], description: String::new() };
    bundle.set_event(HookEvent::AfterAgentRun, vec![cmd]);
    assert_eq!(bundle.for_event(HookEvent::AfterAgentRun).len(), 1);
    assert!(bundle.for_event(HookEvent::AfterFileEdit).is_empty());
    assert_eq!(bundle.len(), 1);
}

#[test]
fn tool_output_shown_in_the_ui_is_capped() {
    let long = "x".repeat(4005);
    let shown = truncate_tool_output(&long);
    assert_eq!(shown, format!("{}\n… (5 more characters omitted)", "x".repeat(4000)));
    assert_eq!(truncate_tool_output("short"), "short");
}

#[test]
fn json_assets_are_read_from_their_text() {
    let a = json_asset_from_text(AssetKind::Hooks, AssetScope::Project, "/ws/.devforge/hooks.json", r#"{"hooks":{"afterFileEdit":[]},"enabled":false}"#)
        .unwrap();
    assert_eq!(a.name, "hooks");
    assert_eq!(a.description, "1 hook event");
    assert!(!a.enabled);
    assert_eq!(
        json_asset_from_text(AssetKind::Mcps, AssetScope::User, "/u/mcp/x.json", "{oops").unwrap_err(),
        "parse JSON /u/mcp/x.json: not valid JSON"
    );
    let bodies = parsed_bodies(&vec![asset(AssetKind::Mcps, ""), {
        let mut b = asset(AssetKind::Mcps, "");
        b.body = r#"{"command":"npx"}"#.into();
        b
    }]);
    assert!(bodies[0].is_none());
    assert_eq!(bodies[1].as_ref().and_then(|d| d.get("command")).and_then(|c| c.as_str()).map(|c| c.as_str()), Some("npx"));
}

fn entry(path: &str, is_file: bool, skill_file: Option<&str>) -> LocationEntry {
    LocationEntry { path: path.to_string(), is_file, skill_file: skill_file.map(|s| s.to_string()) }
}

#[test]
fn locations_offer_matching_files_and_skill_folders() {
    let entries = vec![
        entry("/ws/.devforge/skills/.env", true, None),
        entry("/ws/.devforge/skills/canvas", false, Some("/ws/.devforge/skills/canvas/SKILL.md")),
        entry("/ws/.devforge/skills/notes.txt", true, None),
        entry("/ws/.devforge/skills/style.MD", true, None),
        entry("/ws/.devforge/skills/empty", false, None),
    ];
    assert_eq!(
        asset_candidates(AssetKind::Skills, &entries),
        vec!["/ws/.devforge/skills/canvas/SKILL.md", "/ws/.devforge/skills/style.MD"]
    );
    assert_eq!(asset_candidates(AssetKind::Rules, &entries), vec!["/ws/.devforge/skills/style.MD"]);
    let mcp = vec![entry("/ws/.devforge/mcp/fs.json", true, None), entry("/ws/.devforge/mcp/secrets.json", true, None)];
    assert_eq!(asset_candidates(AssetKind::Mcps, &mcp).len(), 1 + usize::from(!devforge::secrets::is_sensitive_path("/ws/.devforge/mcp/secrets.json")));
}

#[test]
fn locations_are_compared_by_components() {
    let roots = vec![
        (AssetScope::Project, "/ws/.devforge".to_string()),
        (AssetScope::User, "/ws/./.devforge/".to_string()),
        (AssetScope::User, "/home/u/.devforge".to_string()),
    ];
    let hooks = asset_locations_in(AssetKind::Hooks, &roots);
    assert_eq!(hooks.len(), 2);
    assert_eq!(hooks[0].dir, "/ws/.devforge");
    assert_eq!(hooks[1].dir, "/home/u/.devforge");
}

#[test]
fn folder_imports_take_files_of_the_kind() {
    let walked = vec![
        ("/src".to_string(), false),
        ("/src/a.md".to_string(), true),
        ("/src/b.JSON".to_string(), true),
        ("/src/dir.md".to_string(), false),
        ("/src/c.MD".to_string(), true),
    ];
    assert_eq!(devforge::assets::import_sources(AssetKind::Rules, &walked), vec!["/src/a.md".to_string(), "/src/c.MD".to_string()]);
    assert_eq!(devforge::assets::import_sources(AssetKind::Mcps, &walked), vec!["/src/b.JSON".to_string()]);
    assert_eq!(
        devforge::assets::import_directory_answer(AssetKind::Rules, "/src", Vec::new()),
        Err("no .md files found in `/src`".to_string())
    );
    assert_eq!(
        devforge::assets::import_directory_answer(AssetKind::Rules, "/src", vec!["/x/a.md".to_string()]),
        Ok(vec!["/x/a.md".to_string()])
    );
}

#[test]
fn new_assets_are_named_from_typed_text() {
    assert_eq!(devforge::assets::new_asset_name(AssetKind::Rules, "  style  "), "style");
    assert_eq!(devforge::assets::new_asset_name(AssetKind::Skills, "   "), "new-skills");
}
