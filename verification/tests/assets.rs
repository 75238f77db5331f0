use devforge::assets::{
    asset_doc_hint, asset_template, build_prompt, default_location_with_home,
    import_file_name, json_asset_from_value, markdown_asset_from_text, merge_discovered,
    new_asset_file, preferred_stem, sanitize_asset_name, with_enabled_flag, AgentAsset,
    AssetError, AssetKind, AssetScope, ImportError,
};
use devforge::frontmatter::parse_frontmatter;
use devforge::json::JsonValue;

fn asset(kind: AssetKind, name: &str, path: &str, body: &str, enabled: bool) -> AgentAsset {
    AgentAsset {
        kind,
        scope: AssetScope::Project,
        name: name.to_string(),
        description: String::new(),
        path: path.to_string(),
        body: body.to_string(),
        enabled,
    }
}

fn s(v: &str) -> JsonValue {
    JsonValue::String(v.to_string())
}

fn obj(entries: Vec<(&str, JsonValue)>) -> JsonValue {
    JsonValue::Object(entries.into_iter().map(|(k, v)| (k.to_string(), v)).collect())
}

#[test]
fn kind_ids_round_trip() {
    for kind in AssetKind::ALL {
        assert_eq!(AssetKind::from_id(kind.id()), Some(kind));
        assert_eq!(AssetKind::from_id(kind.dir_name()), Some(kind));
    }
    assert_eq!(AssetKind::from_id("nope"), None);
}

#[test]
fn kind_ids_ignore_case_and_spaces() {
    assert_eq!(AssetKind::from_id("  SKILLS "), Some(AssetKind::Skills));
    assert_eq!(AssetKind::from_id("Agents"), Some(AssetKind::Subagents));
    assert_eq!(AssetKind::from_id("mcp"), Some(AssetKind::Mcps));
    assert_eq!(AssetScope::from_id("Project"), Some(AssetScope::Project));
    assert_eq!(AssetScope::from_id(AssetScope::User.id()), Some(AssetScope::User));
    assert_eq!(AssetScope::from_id("team"), None);
}

#[test]
fn parse_frontmatter_reads_simple_values() {
    let text = "---\nname: my-skill\ndescription: Does things\n---\n\nBody here.\n";
    let (meta, body) = parse_frontmatter(text);
    assert_eq!(meta.get("name").unwrap(), "my-skill");
    assert_eq!(meta.get("description").unwrap(), "Does things");
    assert_eq!(body.trim(), "Body here.");
}

#[test]
fn parse_frontmatter_folds_block_scalars() {
    let text = "---\nname: canvas\ndescription: >-\n  First line\n  second line.\n---\n\nBody.\n";
    let (meta, body) = parse_frontmatter(text);
    assert_eq!(meta.get("description").unwrap(), "First line second line.");
    assert_eq!(body.trim(), "Body.");
}

#[test]
fn parse_frontmatter_without_header_keeps_body() {
    let (meta, body) = parse_frontmatter("# Just markdown\n");
    assert!(meta.is_empty());
    assert_eq!(body, "# Just markdown\n");
}

#[test]
fn parse_frontmatter_unquotes_values() {
    let (meta, _) = parse_frontmatter("---\nname: \"quoted\"\nother: 'single'\n---\nBody\n");
    assert_eq!(meta.get("name").unwrap(), "quoted");
    assert_eq!(meta.get("other").unwrap(), "single");
}

#[test]
fn sanitize_asset_name_normalizes_input() {
    assert_eq!(sanitize_asset_name("My Skill!").unwrap(), "my-skill");
    assert_eq!(sanitize_asset_name("  a_b-c  ").unwrap(), "a_b-c");
    assert!(sanitize_asset_name("   ").is_err());
    assert!(sanitize_asset_name("!!").is_err());
    assert!(sanitize_asset_name(&"x".repeat(80)).is_err());
}

#[test]
fn sanitize_asset_name_reports_each_error() {
    assert_eq!(sanitize_asset_name("   "), Err(AssetError::EmptyName));
    assert_eq!(sanitize_asset_name("!!"), Err(AssetError::NoAlphanumeric));
    assert_eq!(sanitize_asset_name(&"x".repeat(65)), Err(AssetError::NameTooLong));
    assert_eq!(sanitize_asset_name(&"x".repeat(64)).unwrap().len(), 64);
    assert_eq!(AssetError::EmptyName.message(), "name cannot be empty");
}

#[test]
fn build_prompt_includes_enabled_assets_only() {
    let assets = vec![
        asset(AssetKind::Skills, "skill-a", "a.md", "Skill body", true),
        asset(AssetKind::Rules, "rule-a", "r.md", "Rule body", true),
        asset(AssetKind::Skills, "skill-off", "b.md", "Hidden", false),
        asset(AssetKind::Hooks, "hooks", "hooks.json", "{}", true),
    ];
    let prompt = build_prompt(&assets);
    assert!(prompt.contains("# Agent Skills"));
    assert!(prompt.contains("Skill body"));
    assert!(prompt.contains("# Project Rules"));
    assert!(prompt.contains("Rule body"));
    assert!(!prompt.contains("Hidden"));
    assert!(!prompt.contains("hooks.json"));
}

#[test]
fn build_prompt_is_empty_without_assets() {
    assert!(build_prompt(&[]).is_empty());
}

#[test]
fn build_prompt_exact_layout() {
    let assets = vec![
        asset(AssetKind::Rules, "r", "r.md", "  Be kind.  ", true),
        asset(AssetKind::Subagents, "helper", "h.md", "Help.", true),
    ];
    assert_eq!(
        build_prompt(&assets),
        "\n\n# Available Subagents\nDelegate to these when their description matches:\n\n### helper\nHelp.\n\n# Project Rules\nAlways follow these rules:\n\n### r\nBe kind."
    );
    // Only disabled or non-prompt assets: nothing is injected.
    let quiet = vec![
        asset(AssetKind::Commands, "c", "c.md", "Run", true),
        asset(AssetKind::Rules, "off", "o.md", "No", false),
    ];
    assert_eq!(build_prompt(&quiet), "");
}

#[test]
fn templates_are_non_empty_for_every_kind() {
    for kind in AssetKind::ALL {
        let tpl = asset_template(kind, "sample");
        assert!(!tpl.trim().is_empty(), "empty template for {}", kind.id());
        assert!(!asset_doc_hint(kind).is_empty());
    }
}

#[test]
fn template_for_rules_is_exact() {
    assert_eq!(
        asset_template(AssetKind::Rules, "  team  "),
        "---\nname: team\ndescription: Always applied project rule\nenabled: true\n---\n\n- Rule one.\n- Rule two.\n"
    );
}

#[test]
fn markdown_asset_reads_frontmatter() {
    let a = markdown_asset_from_text(
        AssetKind::Rules,
        AssetScope::Project,
        ".devforge/rules/off.md",
        "---\nname: off\nenabled: false\n---\nBody\n",
    );
    assert_eq!(a.name, "off");
    assert!(!a.enabled);
    assert_eq!(a.body, "Body");
}

#[test]
fn markdown_skill_falls_back_to_folder_name() {
    let a = markdown_asset_from_text(
        AssetKind::Skills,
        AssetScope::Project,
        ".devforge/skills/canvas/SKILL.md",
        "---\ndescription: Draws\n---\n\nBody.\n",
    );
    assert_eq!(a.name, "canvas");
    assert_eq!(a.description, "Draws");
    assert!(a.enabled);
}

#[test]
fn preferred_stem_uses_folder_for_skill_md() {
    assert_eq!(preferred_stem("incoming/chart-helper/SKILL.md"), "chart-helper");
    assert_eq!(preferred_stem("incoming/notes.md"), "notes");
}

#[test]
fn import_names_follow_the_kind() {
    assert_eq!(
        import_file_name(AssetKind::Skills, "incoming/chart-helper/SKILL.md").unwrap(),
        "chart-helper.md"
    );
    assert!(matches!(import_file_name(AssetKind::Skills, ".env"), Err(ImportError::Sensitive)));
    assert!(matches!(
        import_file_name(AssetKind::Skills, "incoming.txt"),
        Err(ImportError::WrongExtension { .. })
    ));
}

#[test]
fn hooks_file_is_always_hooks_json() {
    assert_eq!(new_asset_file(AssetKind::Hooks, "ignored"), "hooks.json");
    assert_eq!(new_asset_file(AssetKind::Rules, "team"), "team.md");
    assert_eq!(new_asset_file(AssetKind::Mcps, "fs"), "fs.json");
}

#[test]
fn project_location_is_under_devforge_dir() {
    let dir = default_location_with_home(AssetKind::Subagents, AssetScope::Project, Some("/ws"), None)
        .unwrap();
    assert_eq!(dir, "/ws/.devforge/agents");
    assert_eq!(
        default_location_with_home(AssetKind::Rules, AssetScope::Project, None, Some("/home/u")),
        Err(AssetError::NoWorkspace)
    );
    assert_eq!(
        default_location_with_home(AssetKind::Rules, AssetScope::User, None, None),
        Err(AssetError::NoHomeDir)
    );
}

#[test]
fn enabled_flag_is_replaced_in_place() {
    let out = with_enabled_flag("rule.md", "---\nname: rule\nenabled: true\n---\n\nBody\n", false);
    assert_eq!(out, "---\nname: rule\nenabled: false\n---\n\nBody\n");
}

#[test]
fn enabled_flag_is_inserted_when_missing() {
    let out = with_enabled_flag("skill.md", "---\nname: skill\n---\n\nBody\n", false);
    assert_eq!(out, "---\nname: skill\nenabled: false\n---\n\nBody\n");
}

#[test]
fn enabled_flag_adds_frontmatter_when_missing() {
    let out = with_enabled_flag("plain.md", "# Plain\n", false);
    assert_eq!(out, "---\nname: plain\nenabled: false\n---\n\n# Plain\n");
    let (meta, body) = parse_frontmatter(&out);
    assert_eq!(meta.get("enabled").unwrap(), "false");
    assert_eq!(body.trim(), "# Plain");
}

#[test]
fn json_asset_reports_hook_event_count_from_document() {
    let text = r#"{"version":1,"hooks":{"afterFileEdit":[{"command":"fmt.sh"}]}}"#;
    let doc = obj(vec![
        ("version", JsonValue::Number(Some(1))),
        ("hooks", obj(vec![("afterFileEdit", JsonValue::Array(vec![obj(vec![("command", s("fmt.sh"))])]))])),
    ]);
    let a = json_asset_from_value(AssetKind::Hooks, AssetScope::Project, "/ws/.devforge/hooks.json", text, &doc);
    assert_eq!(a.name, "hooks");
    assert_eq!(a.description, "1 hook event");
    assert!(a.enabled);
    let empty = obj(vec![("hooks", obj(vec![]))]);
    let b = json_asset_from_value(AssetKind::Hooks, AssetScope::Project, "hooks.json", "{}", &empty);
    assert_eq!(b.description, "No hook events");
}

#[test]
fn discovery_merge_shadows_and_sorts() {
    let found = vec![
        asset(AssetKind::Rules, "beta", "/p/beta.md", "p", true),
        asset(AssetKind::Rules, "Alpha", "/p/alpha.md", "p", true),
        asset(AssetKind::Rules, "beta", "/u/beta.md", "u", true),
    ];
    let merged = merge_discovered(&found);
    assert_eq!(merged.len(), 2);
    assert_eq!(merged[0].name, "Alpha");
    assert_eq!(merged[1].name, "beta");
    assert_eq!(merged[1].path, "/p/beta.md");
}

#[test]
fn hooks_asset_always_uses_hooks_json_name() {
    assert!(new_asset_file(AssetKind::Hooks, "ignored").ends_with("hooks.json"));
}

#[test]
fn accepted_names_are_short_and_clean() {
    let long = "a".repeat(64);
    assert_eq!(sanitize_asset_name(&long).unwrap(), long);
    assert!(sanitize_asset_name(&"a".repeat(65)).is_err());
    let n = sanitize_asset_name("--Über Rule--").unwrap();
    assert_eq!(n, "ber-rule");
    assert!(n.chars().all(|c| c.is_ascii_lowercase() || c.is_ascii_digit() || c == '-' || c == '_'));
    assert_eq!(sanitize_asset_name(&n).unwrap(), n);
    assert_eq!(
        with_enabled_flag("/p/.devforge/rules/style.md", "Keep it tidy\n", false),
        "---\nname: style\nenabled: false\n---\n\nKeep it tidy\n"
    );
}
