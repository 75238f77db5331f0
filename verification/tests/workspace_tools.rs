use devforge::assets::{AgentAsset, AssetKind, AssetScope};
use devforge::json::JsonValue;
use devforge::secrets::{settle_path, PathProbes};
use devforge::tools::{
    agent_tools, edit_outcome, format_asset_listing, format_hits, format_project_structure, get_u64, int_arg,
    read_answer, replace_in, requested_kinds, search_content, SearchHit, WalkEntry,
};

fn obj(entries: Vec<(&str, JsonValue)>) -> JsonValue {
    JsonValue::Object(entries.into_iter().map(|(k, v)| (k.to_string(), v)).collect())
}

fn chars(s: &str) -> Vec<char> {
    s.chars().collect()
}

fn entry(rel: &str, name: &str, is_dir: bool) -> WalkEntry {
    WalkEntry { path: format!("/ws/{rel}"), rel: rel.to_string(), name: name.to_string(), is_dir, is_root: false }
}

#[test]
fn edits_replace_one_or_every_match() {
    assert_eq!(
        edit_outcome("a.rs", "x = 1; y = 1;", "1", "2", true),
        Ok(("x = 2; y = 2;".to_string(), "Updated `a.rs` (2 replacements)".to_string()))
    );
    assert_eq!(
        edit_outcome("a.rs", "x = 1; y = 1;", "1", "2", false),
        Err("old_string matched 2 times in `a.rs`; set replace_all=true or provide a more unique string".to_string())
    );
    assert_eq!(
        edit_outcome("a.rs", "x = 1;", "1", "2", false),
        Ok(("x = 2;".to_string(), "Updated `a.rs` (1 replacement)".to_string()))
    );
    assert_eq!(edit_outcome("a.rs", "x", "q", "z", true), Err("old_string not found in `a.rs`".to_string()));
    let (out, n) = replace_in(&chars("aaa"), &chars("aa"), &chars("b"), true);
    assert_eq!((out.into_iter().collect::<String>(), n), ("ba".to_string(), 1));
}

#[test]
fn reads_are_capped_and_redacted() {
    assert_eq!(read_answer("hello", 6), Ok("hello\n".to_string()));
    assert_eq!(read_answer("héllo", 5), Err("file too large (6 bytes > 5 limit)".to_string()));
    let red = read_answer("OPENAI_API_KEY=abc123\nname = x\n", 100).unwrap();
    assert!(!red.contains("abc123"));
    assert!(red.contains("name = x"));
}

#[test]
fn integer_arguments_are_clamped() {
    let args = obj(vec![("max_results", JsonValue::Number(Some(500))), ("depth", JsonValue::String("3".into()))]);
    assert_eq!(get_u64(&args, "max_results"), Some(500));
    assert_eq!(get_u64(&args, "depth"), None);
    assert_eq!(int_arg(&args, "max_results", 30, 1, 100), 100);
    assert_eq!(int_arg(&args, "depth", 3, 1, 6), 3);
    assert_eq!(int_arg(&obj(vec![("n", JsonValue::Number(Some(0)))]), "n", 5, 2, 9), 2);
}

#[test]
fn search_hits_are_numbered_lines() {
    let mut hits = Vec::new();
    let full = search_content("src/a.rs", "fn main() {}\nlet x = main;\nother\n", "main", 10, &mut hits);
    assert!(!full);
    assert_eq!(hits.len(), 2);
    assert_eq!(hits[1].line, 2);
    assert_eq!(
        format_hits(&hits),
        "src/a.rs:1: fn main() {}\nsrc/a.rs:2: let x = main;\n"
    );
    let mut capped = Vec::new();
    assert!(search_content("b.rs", "main\nmain\nmain\n", "main", 2, &mut capped));
    assert_eq!(capped.len(), 2);
    let none: Vec<SearchHit> = Vec::new();
    assert_eq!(format_hits(&none), "No matches.");
}

#[test]
fn project_structure_indents_and_truncates() {
    let entries = vec![
        WalkEntry { path: "/ws".into(), rel: "".into(), name: "ws".into(), is_dir: true, is_root: true },
        entry("src", "src", true),
        entry("src/main.rs", "main.rs", false),
        entry("target", "target", true),
        entry("target/debug", "debug", true),
        entry("README.md", "README.md", false),
    ];
    assert_eq!(format_project_structure("/ws", &entries, 200), "/ws/\nsrc/\n  main.rs\nREADME.md");
    assert_eq!(format_project_structure("/ws", &entries, 2), "/ws/\nsrc/\n  main.rs\n… (truncated)");
}

#[test]
fn asset_listing_groups_by_kind() {
    let rule = AgentAsset {
        kind: AssetKind::Rules,
        scope: AssetScope::Project,
        name: "style".into(),
        description: "  Keep it tidy ".into(),
        path: "/ws/.devforge/rules/style.md".into(),
        body: String::new(),
        enabled: false,
    };
    let listing = format_asset_listing(&vec![(AssetKind::Rules, vec![rule]), (AssetKind::Hooks, vec![])]);
    assert_eq!(
        listing,
        "## Rules (1)\n  - style [project · disabled] /ws/.devforge/rules/style.md\n      Keep it tidy\n## Hooks (0)\n  (none)"
    );
    assert_eq!(requested_kinds(&obj(vec![("kind", JsonValue::String("rules".into()))])), vec![AssetKind::Rules]);
    assert_eq!(requested_kinds(&obj(vec![("kind", JsonValue::String("bogus".into()))])).len(), 6);
    assert_eq!(requested_kinds(&obj(vec![])).len(), 6);
    assert_eq!(agent_tools().as_array().map(|a| a.len()), Some(8));
}

fn probes(root: Result<&str, &str>, joined: Result<&str, &str>, parent_exists: bool, parent: Result<&str, &str>) -> PathProbes {
    let own = |r: Result<&str, &str>| r.map(|s| s.to_string()).map_err(|e| e.to_string());
    PathProbes { root: own(root), joined: own(joined), parent_exists, parent: own(parent) }
}

#[test]
fn settled_paths_stay_under_the_real_root() {
    let j = "/ws/src/new.rs";
    assert_eq!(
        settle_path(j, &probes(Err("gone"), Err(""), false, Err(""))),
        Err("cannot resolve workspace root: gone".to_string())
    );
    assert_eq!(settle_path(j, &probes(Ok("/real/ws"), Ok("/real/ws/src/new.rs"), false, Err(""))), Ok("/real/ws/src/new.rs".to_string()));
    assert_eq!(
        settle_path(j, &probes(Ok("/real/ws"), Ok("/etc/passwd"), false, Err(""))),
        Err("path escapes workspace root".to_string())
    );
    assert_eq!(settle_path(j, &probes(Ok("/real/ws"), Err("missing"), true, Ok("/real/ws/src"))), Ok("/real/ws/src/new.rs".to_string()));
    assert_eq!(
        settle_path(j, &probes(Ok("/real/ws"), Err("missing"), true, Ok("/tmp"))),
        Err("path escapes workspace root".to_string())
    );
    assert_eq!(
        settle_path(j, &probes(Ok("/real/ws"), Err("missing"), true, Err("denied"))),
        Err("cannot resolve parent path: denied".to_string())
    );
    assert_eq!(settle_path(j, &probes(Ok("/ws"), Err("missing"), false, Err(""))), Ok(j.to_string()));
    assert_eq!(
        settle_path(j, &probes(Ok("/real/ws"), Err("missing"), false, Err(""))),
        Err("path escapes workspace root".to_string())
    );
}
