//! Agent assets: Skills, MCPs, Subagents, Rules, Commands and Hooks.
//!
//! Assets live under DevForge config roots (`<workspace>/.devforge`,
//! `~/.devforge`) and, for compatibility, Cursor roots (`.cursor`). Markdown
//! assets carry frontmatter with `name`, `description` and `enabled`; hooks
//! and MCP descriptors are JSON.
use vstd::prelude::*;

use crate::frontmatter::{self, parse_frontmatter, parse_bool};
use crate::json::{self, JsonValue};
use crate::order;
use crate::mcp::McpServerSpec;
use crate::paths::{self, path_join, path_file_stem, path_file_name, path_parent, path_extension, home_dir};
use crate::secrets;
use crate::text::{
    self, chars_of, string_of, push_str, push_chars, extend_chars, extend_str, trim_exec,
    trim_str, lower_exec, chars_eq, chars_eq_str, eq_ignore_case_exec, slice_of,
};

verus! {

/// The six asset families surfaced in the Agent Assets page.
#[derive(Clone, Copy, Debug, PartialEq, Eq, Hash, PartialOrd, Ord, Structural)]
pub enum AssetKind {
    Skills,
    Mcps,
    Subagents,
    Rules,
    Commands,
    Hooks,
}

/// Whether an asset lives in the user profile or the opened project.
#[derive(Clone, Copy, Debug, PartialEq, Eq, Hash, Structural)]
pub enum AssetScope {
    User,
    Project,
}

/// Errors of the asset operations.
#[derive(Clone, Copy, Debug, PartialEq, Eq, Structural)]
pub enum AssetError {
    /// A project-scope location was asked for without an open workspace.
    NoWorkspace,
    /// The user home directory could not be resolved.
    NoHomeDir,
    /// The asset name is blank.
    EmptyName,
    /// The asset name holds no letter, digit, `-` or `_`.
    NoAlphanumeric,
    /// The cleaned asset name is longer than 64 characters.
    NameTooLong,
}

pub open spec fn asset_error_message(e: AssetError) -> Seq<char> {
    match e {
        AssetError::NoWorkspace => "open a folder workspace to add project assets"@,
        AssetError::NoHomeDir => "cannot resolve the user home directory"@,
        AssetError::EmptyName => "name cannot be empty"@,
        AssetError::NoAlphanumeric => "name must contain letters or digits"@,
        AssetError::NameTooLong => "name must be 64 characters or fewer"@,
    }
}

impl AssetError {
    /// Human-readable message, as shown in the UI.
    pub fn message(self) -> (r: &'static str)
        ensures
            r@ == asset_error_message(self),
    {
        match self {
            AssetError::NoWorkspace => "open a folder workspace to add project assets",
            AssetError::NoHomeDir => "cannot resolve the user home directory",
            AssetError::EmptyName => "name cannot be empty",
            AssetError::NoAlphanumeric => "name must contain letters or digits",
            AssetError::NameTooLong => "name must be 64 characters or fewer",
        }
    }
}

impl AssetKind {
    /// Display order used by the settings tabs.
    pub const ALL: [AssetKind; 6] = [
        AssetKind::Mcps,
        AssetKind::Skills,
        AssetKind::Subagents,
        AssetKind::Rules,
        AssetKind::Commands,
        AssetKind::Hooks,
    ];

    pub open spec fn spec_id(self) -> Seq<char> {
        match self {
            AssetKind::Skills => "skills"@,
            AssetKind::Mcps => "mcps"@,
            AssetKind::Subagents => "subagents"@,
            AssetKind::Rules => "rules"@,
            AssetKind::Commands => "commands"@,
            AssetKind::Hooks => "hooks"@,
        }
    }

    pub open spec fn spec_label(self) -> Seq<char> {
        match self {
            AssetKind::Skills => "Skills"@,
            AssetKind::Mcps => "MCPs"@,
            AssetKind::Subagents => "Subagents"@,
            AssetKind::Rules => "Rules"@,
            AssetKind::Commands => "Commands"@,
            AssetKind::Hooks => "Hooks"@,
        }
    }

    pub open spec fn spec_dir_name(self) -> Seq<char> {
        match self {
            AssetKind::Skills => "skills"@,
            AssetKind::Mcps => "mcp"@,
            AssetKind::Subagents => "agents"@,
            AssetKind::Rules => "rules"@,
            AssetKind::Commands => "commands"@,
            AssetKind::Hooks => "hooks"@,
        }
    }

    pub open spec fn spec_extension(self) -> Seq<char> {
        match self {
            AssetKind::Hooks | AssetKind::Mcps => "json"@,
            _ => "md"@,
        }
    }

    pub open spec fn spec_is_prompt_asset(self) -> bool {
        self is Skills || self is Subagents || self is Rules
    }

    /// The kind whose id or directory name is `id` (after trimming and ASCII
    /// lower-casing).
    pub open spec fn spec_from_id(id: Seq<char>) -> Option<AssetKind> {
        let t = text::lower(text::trim(id));
        if t == "mcps"@ || t == "mcp"@ {
            Some(AssetKind::Mcps)
        } else if t == "skills"@ {
            Some(AssetKind::Skills)
        } else if t == "subagents"@ || t == "agents"@ {
            Some(AssetKind::Subagents)
        } else if t == "rules"@ {
            Some(AssetKind::Rules)
        } else if t == "commands"@ {
            Some(AssetKind::Commands)
        } else if t == "hooks"@ {
            Some(AssetKind::Hooks)
        } else {
            None
        }
    }

    /// Stable identifier used for filters and config keys.
    pub fn id(self) -> (r: &'static str)
        ensures
            r@ == self.spec_id(),
    {
        match self {
            AssetKind::Skills => "skills",
            AssetKind::Mcps => "mcps",
            AssetKind::Subagents => "subagents",
            AssetKind::Rules => "rules",
            AssetKind::Commands => "commands",
            AssetKind::Hooks => "hooks",
        }
    }

    /// Human-readable tab label.
    pub fn label(self) -> (r: &'static str)
        ensures
            r@ == self.spec_label(),
    {
        match self {
            AssetKind::Skills => "Skills",
            AssetKind::Mcps => "MCPs",
            AssetKind::Subagents => "Subagents",
            AssetKind::Rules => "Rules",
            AssetKind::Commands => "Commands",
            AssetKind::Hooks => "Hooks",
        }
    }

    /// Directory name under a DevForge/Cursor config root.
    pub fn dir_name(self) -> (r: &'static str)
        ensures
            r@ == self.spec_dir_name(),
    {
        match self {
            AssetKind::Skills => "skills",
            AssetKind::Mcps => "mcp",
            AssetKind::Subagents => "agents",
            AssetKind::Rules => "rules",
            AssetKind::Commands => "commands",
            AssetKind::Hooks => "hooks",
        }
    }

    /// File extension expected for imported assets.
    pub fn extension(self) -> (r: &'static str)
        ensures
            r@ == self.spec_extension(),
    {
        match self {
            AssetKind::Hooks | AssetKind::Mcps => "json",
            _ => "md",
        }
    }

    /// Whether the asset body is injected into the agent system prompt.
    pub fn is_prompt_asset(self) -> (r: bool)
        ensures
            r == self.spec_is_prompt_asset(),
    {
        match self {
            AssetKind::Skills | AssetKind::Subagents | AssetKind::Rules => true,
            _ => false,
        }
    }

    /// Parse a stable id (or directory name) back into a kind.
    pub fn from_id(id: &str) -> (r: Option<AssetKind>)
        ensures
            r == AssetKind::spec_from_id(id@),
    {
        let t = trim_str(id);
        let l = lower_exec(&t);
        if chars_eq_str(&l, "mcps") || chars_eq_str(&l, "mcp") {
            Some(AssetKind::Mcps)
        } else if chars_eq_str(&l, "skills") {
            Some(AssetKind::Skills)
        } else if chars_eq_str(&l, "subagents") || chars_eq_str(&l, "agents") {
            Some(AssetKind::Subagents)
        } else if chars_eq_str(&l, "rules") {
            Some(AssetKind::Rules)
        } else if chars_eq_str(&l, "commands") {
            Some(AssetKind::Commands)
        } else if chars_eq_str(&l, "hooks") {
            Some(AssetKind::Hooks)
        } else {
            None
        }
    }
}

impl AssetScope {
    pub open spec fn spec_id(self) -> Seq<char> {
        match self {
            AssetScope::User => "user"@,
            AssetScope::Project => "project"@,
        }
    }

    pub open spec fn spec_label(self) -> Seq<char> {
        match self {
            AssetScope::User => "User"@,
            AssetScope::Project => "Project"@,
        }
    }

    pub open spec fn spec_from_id(id: Seq<char>) -> Option<AssetScope> {
        let t = text::lower(text::trim(id));
        if t == "user"@ {
            Some(AssetScope::User)
        } else if t == "project"@ {
            Some(AssetScope::Project)
        } else {
            None
        }
    }

    pub fn id(self) -> (r: &'static str)
        ensures
            r@ == self.spec_id(),
    {
        match self {
            AssetScope::User => "user",
            AssetScope::Project => "project",
        }
    }

    pub fn label(self) -> (r: &'static str)
        ensures
            r@ == self.spec_label(),
    {
        match self {
            AssetScope::User => "User",
            AssetScope::Project => "Project",
        }
    }

    pub fn from_id(id: &str) -> (r: Option<AssetScope>)
        ensures
            r == AssetScope::spec_from_id(id@),
    {
        let t = trim_str(id);
        let l = lower_exec(&t);
        if chars_eq_str(&l, "user") {
            Some(AssetScope::User)
        } else if chars_eq_str(&l, "project") {
            Some(AssetScope::Project)
        } else {
            None
        }
    }
}

/// Each kind is found again from its id and from its directory name:
/// `AssetKind::from_id(k.id()) == Some(k)` and
/// `AssetKind::from_id(k.dir_name()) == Some(k)`.
pub proof fn law_kind_id_round_trip(k: AssetKind)
    ensures
        AssetKind::spec_from_id(k.spec_id()) == Some(k),
        AssetKind::spec_from_id(k.spec_dir_name()) == Some(k),
{
    reveal_strlit("mcps");
    reveal_strlit("mcp");
    reveal_strlit("skills");
    reveal_strlit("subagents");
    reveal_strlit("agents");
    reveal_strlit("rules");
    reveal_strlit("commands");
    reveal_strlit("hooks");
    assert("mcps"@.len() == 4);
    assert("mcp"@.len() == 3);
    assert("skills"@.len() == 6);
    assert("subagents"@.len() == 9);
    assert("agents"@.len() == 6);
    assert("rules"@.len() == 5);
    assert("commands"@.len() == 8);
    assert("hooks"@.len() == 5);
    assert("skills"@[0] != "agents"@[0]);
    assert("rules"@[0] != "hooks"@[0]);
    text::lemma_plain_trim_lower(k.spec_id());
    text::lemma_plain_trim_lower(k.spec_dir_name());
}

/// A scope is found from its id in any ASCII case with whitespace around it
/// (`AssetScope::from_id("  USER  ") == Some(User)`), and from its label.
pub proof fn law_scope_from_id(s: AssetScope, pad_l: Seq<char>, x: Seq<char>, pad_r: Seq<char>)
    requires
        text::lower(x) == s.spec_id(),
        forall|i: int| 0 <= i < pad_l.len() ==> text::is_ws(#[trigger] pad_l[i]),
        forall|i: int| 0 <= i < pad_r.len() ==> text::is_ws(#[trigger] pad_r[i]),
    ensures
        AssetScope::spec_from_id(pad_l + x + pad_r) == Some(s),
        AssetScope::spec_from_id(s.spec_label()) == Some(s),
{
    reveal_strlit("user");
    reveal_strlit("project");
    reveal_strlit("User");
    reveal_strlit("Project");
    assert("user"@.len() == 4);
    assert("project"@.len() == 7);
    let id = s.spec_id();
    assert(x.len() == id.len());
    assert(text::lower(x)[0] == text::lower_char(x[0]));
    assert(text::lower(x)[x.len() - 1] == text::lower_char(x[x.len() - 1]));
    text::lemma_lower_keeps_ws(x[0]);
    text::lemma_lower_keeps_ws(x[x.len() - 1]);
    text::lemma_trim_padded(pad_l, x, pad_r);
    let label = s.spec_label();
    text::lemma_trim_padded(Seq::empty(), label, Seq::empty());
    assert(Seq::<char>::empty() + label + Seq::<char>::empty() =~= label);
    assert(text::lower(label) =~= id);
}

/// Text whose trimmed, lower-cased form is neither `user` nor `project`
/// names no scope.
pub proof fn law_scope_unknown(x: Seq<char>)
    requires
        text::lower(text::trim(x)) != "user"@,
        text::lower(text::trim(x)) != "project"@,
    ensures
        AssetScope::spec_from_id(x) is None,
{
}

/// Each scope is found again from its id: `AssetScope::from_id(s.id()) == Some(s)`.
pub proof fn law_scope_id_round_trip(s: AssetScope)
    ensures
        AssetScope::spec_from_id(s.spec_id()) == Some(s),
{
    reveal_strlit("user");
    reveal_strlit("project");
    assert("user"@.len() == 4);
    assert("project"@.len() == 7);
    text::lemma_plain_trim_lower(s.spec_id());
}

/// A directory that may contain assets of one kind and scope.
#[derive(Clone, Debug, PartialEq, Eq)]
pub struct AssetLocation {
    pub kind: AssetKind,
    pub scope: AssetScope,
    pub dir: String,
}

impl AssetLocation {
    pub fn new(kind: AssetKind, scope: AssetScope, dir: String) -> (r: AssetLocation)
        ensures
            r.kind == kind,
            r.scope == scope,
            r.dir@ == dir@,
    {
        AssetLocation { kind, scope, dir }
    }
}

/// A discovered asset.
#[derive(Clone, Debug, PartialEq, Eq)]
pub struct AgentAsset {
    pub kind: AssetKind,
    pub scope: AssetScope,
    pub name: String,
    pub description: String,
    pub path: String,
    pub body: String,
    pub enabled: bool,
}

pub open spec fn spec_subtitle(a: AgentAsset) -> Seq<char> {
    if text::trim(a.description@).len() != 0 {
        text::trim(a.description@)
    } else {
        match a.kind {
            AssetKind::Mcps => "MCP server"@,
            AssetKind::Hooks => "Hook bundle"@,
            _ => text::lower(a.scope.spec_label()) + " asset"@,
        }
    }
}

impl AgentAsset {
    /// One-line subtitle for the asset list.
    pub fn subtitle(&self) -> (r: String)
        ensures
            r@ == spec_subtitle(*self),
    {
        let d = trim_str(self.description.as_str());
        if d.len() != 0 {
            return string_of(&d);
        }
        match self.kind {
            AssetKind::Mcps => {
                let mut s = String::new();
                push_str(&mut s, "MCP server");
                s
            },
            AssetKind::Hooks => {
                let mut s = String::new();
                push_str(&mut s, "Hook bundle");
                s
            },
            _ => {
                let label = chars_of(self.scope.label());
                let l = lower_exec(&label);
                let mut s = string_of(&l);
                push_str(&mut s, " asset");
                s
            },
        }
    }
}

// ---------------------------------------------------------------------------
// Where assets live
// ---------------------------------------------------------------------------
pub open spec fn opt_view(o: Option<&str>) -> Option<Seq<char>> {
    match o {
        Some(s) => Some(s@),
        None => None,
    }
}

/// Config roots in priority order: the workspace's `.devforge` and `.cursor`,
/// then the home directory's.
pub open spec fn spec_config_roots(workspace: Option<Seq<char>>, home: Option<Seq<char>>) -> Seq<
    (AssetScope, Seq<char>),
> {
    let project = match workspace {
        Some(w) => seq![
            (AssetScope::Project, paths::spec_path_join(w, ".devforge"@)),
            (AssetScope::Project, paths::spec_path_join(w, ".cursor"@)),
        ],
        None => Seq::empty(),
    };
    let user = match home {
        Some(h) => seq![
            (AssetScope::User, paths::spec_path_join(h, ".devforge"@)),
            (AssetScope::User, paths::spec_path_join(h, ".cursor"@)),
        ],
        None => Seq::empty(),
    };
    project + user
}

pub open spec fn roots_view(v: Seq<(AssetScope, String)>) -> Seq<(AssetScope, Seq<char>)> {
    v.map_values(|p: (AssetScope, String)| (p.0, p.1@))
}

/// Config roots for a given home directory.
pub fn config_roots_with_home(workspace_root: Option<&str>, home: Option<&str>) -> (r: Vec<
    (AssetScope, String),
>)
    ensures
        roots_view(r@) == spec_config_roots(opt_view(workspace_root), opt_view(home)),
{
    let mut roots: Vec<(AssetScope, String)> = Vec::new();
    match workspace_root {
        Some(root) => {
            roots.push((AssetScope::Project, path_join(root, ".devforge")));
            roots.push((AssetScope::Project, path_join(root, ".cursor")));
        },
        None => {},
    }
    let ghost mid = roots_view(roots@);
    match home {
        Some(h) => {
            roots.push((AssetScope::User, path_join(h, ".devforge")));
            roots.push((AssetScope::User, path_join(h, ".cursor")));
        },
        None => {},
    }
    assert(roots_view(roots@) =~= spec_config_roots(opt_view(workspace_root), opt_view(home)));
    roots
}

/// Config roots scanned for assets, in priority order (project first). The
/// user roots come from the home directory of the running process.
pub fn config_roots(workspace_root: Option<&str>) -> (r: Vec<(AssetScope, String)>)
    ensures
        exists|home: Option<Seq<char>>|
            roots_view(r@) == spec_config_roots(opt_view(workspace_root), home),
{
    let home = home_dir();
    let r = match &home {
        Some(h) => config_roots_with_home(workspace_root, Some(h.as_str())),
        None => config_roots_with_home(workspace_root, None),
    };
    proof {
        let w = match home {
            Some(h) => Some(h@),
            None => None,
        };
        assert(roots_view(r@) == spec_config_roots(opt_view(workspace_root), w));
    }
    r
}

/// Directory of `kind` under a config root.
pub open spec fn kind_dir(kind: AssetKind, root: Seq<char>) -> Seq<char> {
    if kind == AssetKind::Hooks {
        root
    } else {
        paths::spec_path_join(root, kind.spec_dir_name())
    }
}

/// `dir` is already listed in `acc`, as the same path.
pub open spec fn has_dir(acc: Seq<(AssetScope, Seq<char>)>, dir: Seq<char>) -> bool {
    exists|i: int| 0 <= i < acc.len() && crate::paths::spec_same_path(acc[i].1, dir)
}

/// Locations of `kind` under each root, skipping a directory already listed.
pub open spec fn locations_acc(
    kind: AssetKind,
    roots: Seq<(AssetScope, Seq<char>)>,
    acc: Seq<(AssetScope, Seq<char>)>,
) -> Seq<(AssetScope, Seq<char>)>
    decreases roots.len(),
{
    if roots.len() == 0 {
        acc
    } else {
        let dir = kind_dir(kind, roots[0].1);
        let next = if has_dir(acc, dir) {
            acc
        } else {
            acc.push((roots[0].0, dir))
        };
        locations_acc(kind, roots.drop_first(), next)
    }
}

pub open spec fn spec_asset_locations(kind: AssetKind, roots: Seq<(AssetScope, Seq<char>)>) -> Seq<
    (AssetScope, Seq<char>),
> {
    locations_acc(kind, roots, Seq::empty())
}

pub open spec fn locations_view(v: Seq<AssetLocation>) -> Seq<(AssetScope, Seq<char>)> {
    v.map_values(|l: AssetLocation| (l.scope, l.dir@))
}

/// Every directory of the given roots that can hold `kind`, first root first.
pub fn asset_locations_in(kind: AssetKind, roots: &Vec<(AssetScope, String)>) -> (r: Vec<
    AssetLocation,
>)
    ensures
        locations_view(r@) == spec_asset_locations(kind, roots_view(roots@)),
        forall|i: int| 0 <= i < r@.len() ==> (#[trigger] r@[i]).kind == kind,
{
    let ghost rv = roots_view(roots@);
    let mut out: Vec<AssetLocation> = Vec::new();
    let mut i: usize = 0;
    assert(rv.skip(0) =~= rv);
    assert(locations_view(out@) =~= Seq::<(AssetScope, Seq<char>)>::empty());
    while i < roots.len()
        invariant
            i <= roots.len(),
            rv == roots_view(roots@),
            locations_acc(kind, rv.skip(i as int), locations_view(out@)) == spec_asset_locations(
                kind,
                rv,
            ),
            forall|j: int| 0 <= j < out@.len() ==> (#[trigger] out@[j]).kind == kind,
        decreases roots.len() - i,
    {
        let scope = roots[i].0;
        let dir = if kind == AssetKind::Hooks {
            roots[i].1.clone()
        } else {
            path_join(roots[i].1.as_str(), kind.dir_name())
        };
        assert(dir@ == kind_dir(kind, rv[i as int].1));
        let ghost acc = locations_view(out@);
        let mut seen = false;
        let mut j: usize = 0;
        while j < out.len()
            invariant
                j <= out.len(),
                acc == locations_view(out@),
                seen == (exists|k: int| 0 <= k < j && crate::paths::spec_same_path(acc[k].1, dir@)),
            decreases out.len() - j,
        {
            assert(acc[j as int].1 == out@[j as int].dir@);
            if crate::paths::same_path(out[j].dir.as_str(), dir.as_str()) {
                seen = true;
            }
            j = j + 1;
        }
        assert(seen == has_dir(acc, dir@));
        assert(rv.skip(i as int).drop_first() =~= rv.skip(i + 1));
        assert(rv.skip(i as int)[0] == rv[i as int]);
        if !seen {
            out.push(AssetLocation::new(kind, scope, dir));
            assert(locations_view(out@) =~= acc.push((scope, kind_dir(kind, rv[i as int].1))));
        }
        i = i + 1;
    }
    out
}

/// Every directory that can hold a given kind of asset.
pub fn asset_locations(kind: AssetKind, workspace_root: Option<&str>) -> (r: Vec<AssetLocation>)
    ensures
        exists|home: Option<Seq<char>>|
            locations_view(r@) == spec_asset_locations(
                kind,
                spec_config_roots(opt_view(workspace_root), home),
            ),
{
    let roots = config_roots(workspace_root);
    asset_locations_in(kind, &roots)
}

/// Preferred write location of a new asset, given the home directory.
pub open spec fn spec_default_location(
    kind: AssetKind,
    scope: AssetScope,
    workspace: Option<Seq<char>>,
    home: Option<Seq<char>>,
) -> Result<Seq<char>, AssetError> {
    let base = match scope {
        AssetScope::Project => match workspace {
            Some(w) => Ok(paths::spec_path_join(w, ".devforge"@)),
            None => Err(AssetError::NoWorkspace),
        },
        AssetScope::User => match home {
            Some(h) => Ok(paths::spec_path_join(h, ".devforge"@)),
            None => Err(AssetError::NoHomeDir),
        },
    };
    match base {
        Ok(b) => Ok(kind_dir(kind, b)),
        Err(e) => Err(e),
    }
}

pub open spec fn result_view(r: Result<String, AssetError>) -> Result<Seq<char>, AssetError> {
    match r {
        Ok(s) => Ok(s@),
        Err(e) => Err(e),
    }
}

pub fn default_location_with_home(
    kind: AssetKind,
    scope: AssetScope,
    workspace_root: Option<&str>,
    home: Option<&str>,
) -> (r: Result<String, AssetError>)
    ensures
        result_view(r) == spec_default_location(
            kind,
            scope,
            opt_view(workspace_root),
            opt_view(home),
        ),
{
    let base = match scope {
        AssetScope::Project => match workspace_root {
            Some(w) => path_join(w, ".devforge"),
            None => return Err(AssetError::NoWorkspace),
        },
        AssetScope::User => match home {
            Some(h) => path_join(h, ".devforge"),
            None => return Err(AssetError::NoHomeDir),
        },
    };
    if kind == AssetKind::Hooks {
        Ok(base)
    } else {
        Ok(path_join(base.as_str(), kind.dir_name()))
    }
}

/// Preferred write location for a new asset of the given kind and scope.
/// User scope resolves the home directory of the running process.
pub fn default_location(kind: AssetKind, scope: AssetScope, workspace_root: Option<&str>) -> (r:
    Result<String, AssetError>)
    ensures
        scope == AssetScope::Project ==> result_view(r) == spec_default_location(
            kind,
            scope,
            opt_view(workspace_root),
            None,
        ),
        exists|home: Option<Seq<char>>|
            result_view(r) == spec_default_location(kind, scope, opt_view(workspace_root), home),
{
    match scope {
        AssetScope::Project => default_location_with_home(kind, scope, workspace_root, None),
        AssetScope::User => {
            let home = home_dir();
            let r = match &home {
                Some(h) => default_location_with_home(kind, scope, workspace_root, Some(h.as_str())),
                None => default_location_with_home(kind, scope, workspace_root, None),
            };
            proof {
                let w = match home {
                    Some(h) => Some(h@),
                    None => None,
                };
                assert(result_view(r) == spec_default_location(
                    kind,
                    scope,
                    opt_view(workspace_root),
                    w,
                ));
            }
            r
        },
    }
}

// ---------------------------------------------------------------------------
// Names
// ---------------------------------------------------------------------------
/// Characters kept by the name cleaner.
pub open spec fn name_char_ok(c: char) -> bool {
    text::is_ascii_alnum(c) || c == '-' || c == '_'
}

pub open spec fn clean_char(c: char) -> char {
    if name_char_ok(c) {
        text::lower_char(c)
    } else {
        '-'
    }
}

/// Number of leading `c`.
pub open spec fn lead_count(s: Seq<char>, c: char) -> nat
    decreases s.len(),
{
    if s.len() > 0 && s[0] == c {
        1 + lead_count(s.drop_first(), c)
    } else {
        0
    }
}

/// Number of trailing `c`.
pub open spec fn trail_count(s: Seq<char>, c: char) -> nat
    decreases s.len(),
{
    if s.len() > 0 && s.last() == c {
        1 + trail_count(s.drop_last(), c)
    } else {
        0
    }
}

/// `str::trim_matches(c)`.
pub open spec fn trim_matches(s: Seq<char>, c: char) -> Seq<char> {
    if lead_count(s, c) >= s.len() {
        Seq::empty()
    } else {
        s.subrange(lead_count(s, c) as int, s.len() - trail_count(s, c))
    }
}

pub open spec fn spec_sanitize_asset_name(name: Seq<char>) -> Result<Seq<char>, AssetError> {
    let trimmed = text::trim(name);
    if trimmed.len() == 0 {
        Err(AssetError::EmptyName)
    } else {
        let cleaned = trim_matches(trimmed.map_values(|c: char| clean_char(c)), '-');
        if cleaned.len() == 0 {
            Err(AssetError::NoAlphanumeric)
        } else if cleaned.len() > 64 {
            Err(AssetError::NameTooLong)
        } else {
            Ok(cleaned)
        }
    }
}

pub proof fn lemma_lead_count(s: Seq<char>, c: char, i: int)
    requires
        0 <= i <= s.len(),
        forall|j: int| 0 <= j < i ==> #[trigger] s[j] == c,
        i == s.len() || s[i] != c,
    ensures
        lead_count(s, c) == i,
    decreases i,
{
    if i > 0 {
        let t = s.drop_first();
        assert forall|j: int| 0 <= j < i - 1 implies #[trigger] t[j] == c by {
            assert(t[j] == s[j + 1]);
        }
        if i < s.len() {
            assert(t[i - 1] == s[i]);
        }
        lemma_lead_count(t, c, i - 1);
    }
}

pub proof fn lemma_trail_count(s: Seq<char>, c: char, k: int)
    requires
        0 <= k <= s.len(),
        forall|j: int| s.len() - k <= j < s.len() ==> #[trigger] s[j] == c,
        k == s.len() || s[s.len() - k - 1] != c,
    ensures
        trail_count(s, c) == k,
    decreases k,
{
    if k > 0 {
        let t = s.drop_last();
        assert forall|j: int| t.len() - (k - 1) <= j < t.len() implies #[trigger] t[j] == c by {
            assert(t[j] == s[j]);
        }
        if k < s.len() {
            assert(t[t.len() - (k - 1) - 1] == s[s.len() - k - 1]);
        }
        lemma_trail_count(t, c, k - 1);
    }
}

proof fn lemma_lead_count_bound(s: Seq<char>, c: char)
    ensures
        lead_count(s, c) <= s.len(),
        lead_count(s, c) < s.len() ==> s[lead_count(s, c) as int] != c,
    decreases s.len(),
{
    if s.len() > 0 && s[0] == c {
        lemma_lead_count_bound(s.drop_first(), c);
        if lead_count(s, c) < s.len() {
            assert(s[lead_count(s, c) as int] == s.drop_first()[lead_count(s.drop_first(), c) as int]);
        }
    }
}

pub(crate) proof fn lemma_trail_count_bound(s: Seq<char>, c: char)
    ensures
        trail_count(s, c) <= s.len(),
        trail_count(s, c) < s.len() ==> s[s.len() - trail_count(s, c) - 1] != c,
        forall|j: int| s.len() - trail_count(s, c) <= j < s.len() ==> #[trigger] s[j] == c,
    decreases s.len(),
{
    if s.len() > 0 && s.last() == c {
        let t = s.drop_last();
        lemma_trail_count_bound(t, c);
        if trail_count(s, c) < s.len() {
            assert(s[s.len() - trail_count(s, c) - 1] == t[t.len() - trail_count(t, c) - 1]);
        }
        assert forall|j: int| s.len() - trail_count(s, c) <= j < s.len() implies #[trigger] s[j] == c by {
            if j < s.len() - 1 {
                assert(s[j] == t[j]);
            }
        }
    }
}

/// A character that a cleaned name may hold.
pub open spec fn clean_name_char(c: char) -> bool {
    text::is_ascii_lower(c) || text::is_ascii_digit(c) || c == '-' || c == '_'
}

/// A name `sanitize_asset_name` accepts is 1 to 64 characters of `a-z`,
/// `0-9`, `-` and `_`, neither starts nor ends with `-`, and is its own clean
/// form: sanitizing it again gives it back unchanged.
pub proof fn law_sanitize_idempotent(name: Seq<char>)
    ensures
        spec_sanitize_asset_name(name) matches Ok(n) ==> {
            &&& 1 <= n.len() <= 64
            &&& forall|i: int| 0 <= i < n.len() ==> clean_name_char(#[trigger] n[i])
            &&& n[0] != '-'
            &&& n[n.len() - 1] != '-'
            &&& spec_sanitize_asset_name(n) == Ok::<Seq<char>, AssetError>(n)
        },
{
    if spec_sanitize_asset_name(name) is Ok {
        let trimmed = text::trim(name);
        let mapped = trimmed.map_values(|c: char| clean_char(c));
        let n = trim_matches(mapped, '-');
        lemma_lead_count_bound(mapped, '-');
        lemma_trail_count_bound(mapped, '-');
        let a = lead_count(mapped, '-');
        let b = trail_count(mapped, '-');
        assert(a < mapped.len());
        // The first kept character is not `-`, so the trailing run ends after it.
        assert(b < mapped.len() - a) by {
            if b >= mapped.len() - a {
                assert(mapped[a as int] == '-');
            }
        }
        assert(n =~= mapped.subrange(a as int, mapped.len() - b));
        assert forall|i: int| 0 <= i < n.len() implies clean_name_char(#[trigger] n[i]) by {
            assert(n[i] == mapped[a + i]);
            assert(mapped[a + i] == clean_char(trimmed[a + i]));
        }
        assert(n[0] != '-');
        assert(n[n.len() - 1] != '-');
        // Cleaning `n` again changes nothing.
        text::lemma_plain_trim_lower(n);
        let m2 = n.map_values(|c: char| clean_char(c));
        assert forall|i: int| 0 <= i < n.len() implies #[trigger] m2[i] == n[i] by {
            assert(clean_name_char(n[i]));
        }
        assert(m2 =~= n);
        lemma_lead_count(n, '-', 0);
        lemma_trail_count(n, '-', 0);
        assert(trim_matches(n, '-') =~= n);
    }
}

/// Validate an asset name so it is safe to use as a file stem: trimmed,
/// ASCII letters and digits lower-cased, `-` and `_` kept, every other
/// character turned into `-`, and `-` stripped from both ends.
pub fn sanitize_asset_name(name: &str) -> (r: Result<String, AssetError>)
    ensures
        result_view(r) == spec_sanitize_asset_name(name@),
{
    let trimmed = trim_str(name);
    if trimmed.len() == 0 {
        return Err(AssetError::EmptyName);
    }
    let ghost mapped_spec = trimmed@.map_values(|c: char| clean_char(c));
    let mut mapped: Vec<char> = Vec::new();
    let mut i: usize = 0;
    while i < trimmed.len()
        invariant
            i <= trimmed.len(),
            mapped@ =~= mapped_spec.take(i as int),
            mapped_spec == trimmed@.map_values(|c: char| clean_char(c)),
        decreases trimmed.len() - i,
    {
        let c = trimmed[i];
        let ok = ('a' <= c && c <= 'z') || ('A' <= c && c <= 'Z') || ('0' <= c && c <= '9') || c
            == '-' || c == '_';
        let d = if ok {
            text::lower_char_exec(c)
        } else {
            '-'
        };
        mapped.push(d);
        i = i + 1;
    }
    let n = mapped.len();
    let mut a: usize = 0;
    while a < n && mapped[a] == '-'
        invariant
            a <= n == mapped.len(),
            forall|j: int| 0 <= j < a ==> #[trigger] mapped@[j] == '-',
        decreases n - a,
    {
        a = a + 1;
    }
    proof {
        lemma_lead_count(mapped@, '-', a as int);
    }
    let cleaned = if a >= n {
        Vec::new()
    } else {
        let mut k: usize = 0;
        while k < n && mapped[n - k - 1] == '-'
            invariant
                k <= n == mapped.len(),
                forall|j: int| n - k <= j < n ==> #[trigger] mapped@[j] == '-',
            decreases n - k,
        {
            k = k + 1;
        }
        proof {
            lemma_trail_count(mapped@, '-', k as int);
            assert(mapped@[a as int] != '-');
            assert(n - k > a);
        }
        slice_of(&mapped, a, n - k)
    };
    assert(mapped@ =~= mapped_spec);
    if cleaned.len() == 0 {
        return Err(AssetError::NoAlphanumeric);
    }
    if cleaned.len() > 64 {
        return Err(AssetError::NameTooLong);
    }
    Ok(string_of(&cleaned))
}

// ---------------------------------------------------------------------------
// Templates and hints
// ---------------------------------------------------------------------------
pub open spec fn spec_asset_template(kind: AssetKind, name: Seq<char>) -> Seq<char> {
    let n = text::trim(name);
    match kind {
        AssetKind::Skills => "---\nname: "@ + n
            + "\ndescription: >-\n  Describe when this skill should be used.\n---\n\n# "@ + n
            + "\n\nWrite the guidance the agent should follow here.\n"@,
        AssetKind::Subagents => "---\nname: "@ + n
            + "\ndescription: >-\n  Describe when the agent should delegate to this subagent.\n---\n\nYou are a focused assistant. Explain your role and how you report back.\n"@,
        AssetKind::Rules => "---\nname: "@ + n
            + "\ndescription: Always applied project rule\nenabled: true\n---\n\n- Rule one.\n- Rule two.\n"@,
        AssetKind::Commands => "---\nname: "@ + n
            + "\ndescription: What this command does\n---\n\nRun the following workflow and report the results:\n\n1. First step.\n2. Second step.\n"@,
        AssetKind::Hooks => "{\n  \"version\": 1,\n  \"hooks\": {}\n}\n"@,
        AssetKind::Mcps => "{\n  \"name\": \"my-server\",\n  \"command\": \"npx\",\n  \"args\": [\"-y\", \"@modelcontextprotocol/server-filesystem\", \".\"],\n  \"enabled\": true\n}\n"@,
    }
}

/// Starting content for a brand-new asset created from the UI.
pub fn asset_template(kind: AssetKind, name: &str) -> (r: String)
    ensures
        r@ == spec_asset_template(kind, name@),
{
    let n = trim_str(name);
    let mut s = String::new();
    match kind {
        AssetKind::Skills => {
            push_str(&mut s, "---\nname: ");
            push_chars(&mut s, &n);
            push_str(&mut s, "\ndescription: >-\n  Describe when this skill should be used.\n---\n\n# ");
            push_chars(&mut s, &n);
            push_str(&mut s, "\n\nWrite the guidance the agent should follow here.\n");
        },
        AssetKind::Subagents => {
            push_str(&mut s, "---\nname: ");
            push_chars(&mut s, &n);
            push_str(
                &mut s,
                "\ndescription: >-\n  Describe when the agent should delegate to this subagent.\n---\n\nYou are a focused assistant. Explain your role and how you report back.\n",
            );
        },
        AssetKind::Rules => {
            push_str(&mut s, "---\nname: ");
            push_chars(&mut s, &n);
            push_str(
                &mut s,
                "\ndescription: Always applied project rule\nenabled: true\n---\n\n- Rule one.\n- Rule two.\n",
            );
        },
        AssetKind::Commands => {
            push_str(&mut s, "---\nname: ");
            push_chars(&mut s, &n);
            push_str(
                &mut s,
                "\ndescription: What this command does\n---\n\nRun the following workflow and report the results:\n\n1. First step.\n2. Second step.\n",
            );
        },
        AssetKind::Hooks => {
            push_str(&mut s, "{\n  \"version\": 1,\n  \"hooks\": {}\n}\n");
        },
        AssetKind::Mcps => {
            push_str(
                &mut s,
                "{\n  \"name\": \"my-server\",\n  \"command\": \"npx\",\n  \"args\": [\"-y\", \"@modelcontextprotocol/server-filesystem\", \".\"],\n  \"enabled\": true\n}\n",
            );
        },
    }
    s
}

pub open spec fn spec_asset_doc_hint(kind: AssetKind) -> Seq<char> {
    match kind {
        AssetKind::Skills => "A skill is `skills/<name>/SKILL.md` (or `skills/<name>.md`) with `name` and `description` frontmatter. Loaded into the agent prompt when relevant."@,
        AssetKind::Mcps => "An MCP entry is `{\"name\", \"command\", \"args\", \"enabled\"}`. DevForge also reads `[[ai.mcp-servers]]` from settings.toml."@,
        AssetKind::Subagents => "A subagent is `agents/<name>.md` with `name` and `description` frontmatter; the body becomes its system prompt."@,
        AssetKind::Rules => "A rule is `rules/<name>.md` with `enabled: true`; every enabled rule is appended to the agent prompt."@,
        AssetKind::Commands => "A command is `commands/<name>.md`; its body describes a reusable workflow you can trigger from chat."@,
        AssetKind::Hooks => "Hooks live in `hooks.json` as `{\"version\": 1, \"hooks\": {\"afterFileEdit\": [...]}}`."@,
    }
}

/// Short, copy-pasteable documentation snippet for the asset kind.
pub fn asset_doc_hint(kind: AssetKind) -> (r: &'static str)
    ensures
        r@ == spec_asset_doc_hint(kind),
{
    match kind {
        AssetKind::Skills => "A skill is `skills/<name>/SKILL.md` (or `skills/<name>.md`) with `name` and `description` frontmatter. Loaded into the agent prompt when relevant.",
        AssetKind::Mcps => "An MCP entry is `{\"name\", \"command\", \"args\", \"enabled\"}`. DevForge also reads `[[ai.mcp-servers]]` from settings.toml.",
        AssetKind::Subagents => "A subagent is `agents/<name>.md` with `name` and `description` frontmatter; the body becomes its system prompt.",
        AssetKind::Rules => "A rule is `rules/<name>.md` with `enabled: true`; every enabled rule is appended to the agent prompt.",
        AssetKind::Commands => "A command is `commands/<name>.md`; its body describes a reusable workflow you can trigger from chat.",
        AssetKind::Hooks => "Hooks live in `hooks.json` as `{\"version\": 1, \"hooks\": {\"afterFileEdit\": [...]}}`.",
    }
}

// ---------------------------------------------------------------------------
// Reading assets
// ---------------------------------------------------------------------------
/// Name of a markdown asset whose frontmatter has no usable `name`: the file
/// stem, or the folder name for the `skills/<name>/SKILL.md` layout.
pub open spec fn spec_fallback_name(path: Seq<char>) -> Option<Seq<char>> {
    match paths::spec_file_stem(path) {
        Some(stem) => if text::eq_ignore_case(stem, "skill"@) {
            match paths::spec_parent(path) {
                Some(parent) => paths::spec_file_name(parent),
                None => None,
            }
        } else {
            Some(stem)
        },
        None => None,
    }
}

/// The asset a markdown file with contents `text` at `path` describes.
pub open spec fn spec_markdown_asset(
    kind: AssetKind,
    scope: AssetScope,
    path: Seq<char>,
    text: Seq<char>,
) -> (Seq<char>, Seq<char>, Seq<char>, bool) {
    let (meta, body) = frontmatter::spec_parse_frontmatter(text);
    let name = match frontmatter::assoc_get(meta, "name"@) {
        Some(v) if text::trim(v).len() != 0 => text::trim(v),
        _ => match spec_fallback_name(path) {
            Some(n) => n,
            None => "unnamed"@,
        },
    };
    let description = match frontmatter::assoc_get(meta, "description"@) {
        Some(d) => d,
        None => Seq::empty(),
    };
    let enabled = match frontmatter::assoc_get(meta, "enabled"@) {
        Some(v) => frontmatter::spec_parse_bool(v, true),
        None => true,
    };
    (name, description, text::trim(body), enabled)
}

fn fallback_name(path: &str) -> (r: Option<String>)
    ensures
        match r {
            Some(s) => spec_fallback_name(path@) == Some(s@),
            None => spec_fallback_name(path@) is None,
        },
{
    match path_file_stem(path) {
        Some(stem) => {
            let sv = chars_of(stem.as_str());
            let skill = chars_of("skill");
            if eq_ignore_case_exec(&sv, &skill) {
                match path_parent(path) {
                    Some(parent) => path_file_name(parent.as_str()),
                    None => None,
                }
            } else {
                Some(stem)
            }
        },
        None => None,
    }
}

/// Build the asset described by a markdown file (skill, subagent, rule or
/// command) from its path and contents.
pub fn markdown_asset_from_text(kind: AssetKind, scope: AssetScope, path: &str, text: &str) -> (r:
    AgentAsset)
    ensures
        r.kind == kind,
        r.scope == scope,
        r.path@ == path@,
        (r.name@, r.description@, r.body@, r.enabled) == spec_markdown_asset(
            kind,
            scope,
            path@,
            text@,
        ),
{
    let (meta, body) = parse_frontmatter(text);
    let name_entry = meta.get("name");
    let name_trimmed: Option<Vec<char>> = match name_entry {
        Some(v) => {
            let t = trim_str(v.as_str());
            if t.len() != 0 {
                Some(t)
            } else {
                None
            }
        },
        None => None,
    };
    let name = match name_trimmed {
        Some(t) => string_of(&t),
        None => match fallback_name(path) {
            Some(n) => n,
            None => {
                let mut s = String::new();
                push_str(&mut s, "unnamed");
                s
            },
        },
    };
    let description = match meta.get("description") {
        Some(d) => d.clone(),
        None => String::new(),
    };
    let enabled = match meta.get("enabled") {
        Some(v) => parse_bool(&chars_of(v.as_str()), true),
        None => true,
    };
    let b = trim_str(body.as_str());
    AgentAsset {
        kind,
        scope,
        name,
        description,
        path: path.to_owned(),
        body: string_of(&b),
        enabled,
    }
}

/// Best name to use for an imported file: `skills/<name>/SKILL.md` imports
/// as `<name>`, every other file as its stem (`imported` when it has none).
pub open spec fn spec_preferred_stem(path: Seq<char>) -> Seq<char> {
    match paths::spec_file_stem(path) {
        Some(stem) => if text::eq_ignore_case(stem, "skill"@) {
            match paths::spec_parent(path) {
                Some(parent) => match paths::spec_file_name(parent) {
                    Some(n) => n,
                    None => stem,
                },
                None => stem,
            }
        } else {
            stem
        },
        None => "imported"@,
    }
}

pub fn preferred_stem(path: &str) -> (r: String)
    ensures
        r@ == spec_preferred_stem(path@),
{
    match path_file_stem(path) {
        Some(stem) => {
            let sv = chars_of(stem.as_str());
            let skill = chars_of("skill");
            if eq_ignore_case_exec(&sv, &skill) {
                match path_parent(path) {
                    Some(parent) => match path_file_name(parent.as_str()) {
                        Some(n) => n,
                        None => stem,
                    },
                    None => stem,
                }
            } else {
                stem
            }
        },
        None => {
            let mut s = String::new();
            push_str(&mut s, "imported");
            s
        },
    }
}

// ---------------------------------------------------------------------------
// Prompt
// ---------------------------------------------------------------------------
/// `### <name>` followed by the trimmed body.
pub open spec fn asset_entry(a: AgentAsset) -> Seq<char> {
    "### "@ + a.name@ + seq!['\n'] + text::trim(a.body@)
}

/// Entries of the enabled assets of kind `k`, in order.
pub open spec fn entries_for(assets: Seq<AgentAsset>, k: AssetKind) -> Seq<Seq<char>>
    decreases assets.len(),
{
    if assets.len() == 0 {
        Seq::empty()
    } else {
        let rest = entries_for(assets.drop_last(), k);
        let a = assets.last();
        if a.enabled && a.kind == k {
            rest.push(asset_entry(a))
        } else {
            rest
        }
    }
}

/// Parts joined by `sep`.
pub open spec fn join(parts: Seq<Seq<char>>, sep: Seq<char>) -> Seq<char>
    decreases parts.len(),
{
    if parts.len() == 0 {
        Seq::empty()
    } else if parts.len() == 1 {
        parts[0]
    } else {
        join(parts.drop_last(), sep) + sep + parts.last()
    }
}

pub open spec fn section(header: Seq<char>, parts: Seq<Seq<char>>) -> Seq<char> {
    if parts.len() == 0 {
        Seq::empty()
    } else {
        header + join(parts, "\n\n"@)
    }
}

pub open spec fn skills_header() -> Seq<char> {
    "\n\n# Agent Skills\nApply these skills when their description matches the task:\n\n"@
}

pub open spec fn subagents_header() -> Seq<char> {
    "\n\n# Available Subagents\nDelegate to these when their description matches:\n\n"@
}

pub open spec fn rules_header() -> Seq<char> {
    "\n\n# Project Rules\nAlways follow these rules:\n\n"@
}

pub open spec fn spec_build_prompt(assets: Seq<AgentAsset>) -> Seq<char> {
    section(skills_header(), entries_for(assets, AssetKind::Skills)) + section(
        subagents_header(),
        entries_for(assets, AssetKind::Subagents),
    ) + section(rules_header(), entries_for(assets, AssetKind::Rules))
}

proof fn lemma_entries_for_enabled(assets: Seq<AgentAsset>, k: AssetKind)
    ensures
        entries_for(assets, k) == entries_for(assets.filter(|a: AgentAsset| a.enabled), k),
    decreases assets.len(),
{
    reveal(Seq::filter);
    if assets.len() > 0 {
        let f = assets.drop_last().filter(|a: AgentAsset| a.enabled);
        lemma_entries_for_enabled(assets.drop_last(), k);
        if assets.last().enabled {
            assert(f.push(assets.last()).drop_last() =~= f);
        }
    }
}

proof fn lemma_entries_for_none(assets: Seq<AgentAsset>, k: AssetKind)
    requires
        forall|i: int| 0 <= i < assets.len() ==> !((#[trigger] assets[i]).enabled && assets[i].kind == k),
    ensures
        entries_for(assets, k).len() == 0,
    decreases assets.len(),
{
    if assets.len() > 0 {
        let d = assets.drop_last();
        assert forall|i: int| 0 <= i < d.len() implies !((#[trigger] d[i]).enabled && d[i].kind == k) by {
            assert(d[i] == assets[i]);
        }
        lemma_entries_for_none(d, k);
        assert(!(assets[assets.len() - 1].enabled && assets[assets.len() - 1].kind == k));
    }
}

/// Only enabled skills, subagents and rules reach the prompt: dropping the
/// disabled assets leaves the prompt as it is, and a list without an enabled
/// skill, subagent or rule gives an empty prompt.
pub proof fn law_build_prompt_enabled_only(assets: Seq<AgentAsset>)
    ensures
        spec_build_prompt(assets) == spec_build_prompt(assets.filter(|a: AgentAsset| a.enabled)),
        (forall|i: int|
            0 <= i < assets.len() ==> !((#[trigger] assets[i]).enabled
                && assets[i].kind.spec_is_prompt_asset())) ==> spec_build_prompt(assets)
            == Seq::<char>::empty(),
{
    lemma_entries_for_enabled(assets, AssetKind::Skills);
    lemma_entries_for_enabled(assets, AssetKind::Subagents);
    lemma_entries_for_enabled(assets, AssetKind::Rules);
    if forall|i: int|
        0 <= i < assets.len() ==> !((#[trigger] assets[i]).enabled && assets[i].kind.spec_is_prompt_asset()) {
        lemma_entries_for_none(assets, AssetKind::Skills);
        lemma_entries_for_none(assets, AssetKind::Subagents);
        lemma_entries_for_none(assets, AssetKind::Rules);
        assert(spec_build_prompt(assets) =~= Seq::<char>::empty());
    }
}

fn join_exec(parts: &Vec<Vec<char>>, sep: &str) -> (r: Vec<char>)
    ensures
        r@ == join(parts@.map_values(|p: Vec<char>| p@), sep@),
{
    let ghost pv = parts@.map_values(|p: Vec<char>| p@);
    let mut out: Vec<char> = Vec::new();
    let mut i: usize = 0;
    while i < parts.len()
        invariant
            i <= parts.len(),
            pv == parts@.map_values(|p: Vec<char>| p@),
            out@ == join(pv.take(i as int), sep@),
        decreases parts.len() - i,
    {
        if i > 0 {
            extend_str(&mut out, sep);
        }
        extend_chars(&mut out, &parts[i]);
        proof {
            assert(pv.take(i + 1).drop_last() =~= pv.take(i as int));
            assert(pv.take(i + 1).last() == parts@[i as int]@);
            if i == 0 {
                assert(pv.take(1)[0] == parts@[0]@);
            }
        }
        i = i + 1;
    }
    assert(pv.take(parts.len() as int) =~= pv);
    out
}

fn push_section(out: &mut Vec<char>, header: &str, parts: &Vec<Vec<char>>)
    ensures
        final(out)@ == old(out)@ + section(header@, parts@.map_values(|p: Vec<char>| p@)),
{
    if parts.len() > 0 {
        extend_str(out, header);
        let j = join_exec(parts, "\n\n");
        extend_chars(out, &j);
    } else {
        assert(out@ =~= old(out)@ + Seq::<char>::empty());
    }
}

/// Build the system-prompt section for enabled prompt assets.
///
/// Skills, subagents and rules are injected; commands, MCPs and hooks are
/// runtime concepts and are left out, as are disabled assets.
pub fn build_prompt(assets: &[AgentAsset]) -> (r: String)
    ensures
        r@ == spec_build_prompt(assets@),
{
    let mut skills: Vec<Vec<char>> = Vec::new();
    let mut rules: Vec<Vec<char>> = Vec::new();
    let mut agents: Vec<Vec<char>> = Vec::new();
    let mut i: usize = 0;
    while i < assets.len()
        invariant
            i <= assets.len(),
            skills@.map_values(|p: Vec<char>| p@) == entries_for(
                assets@.take(i as int),
                AssetKind::Skills,
            ),
            rules@.map_values(|p: Vec<char>| p@) == entries_for(
                assets@.take(i as int),
                AssetKind::Rules,
            ),
            agents@.map_values(|p: Vec<char>| p@) == entries_for(
                assets@.take(i as int),
                AssetKind::Subagents,
            ),
        decreases assets.len() - i,
    {
        let a = &assets[i];
        proof {
            assert(assets@.take(i + 1).drop_last() =~= assets@.take(i as int));
            assert(assets@.take(i + 1).last() == assets@[i as int]);
        }
        if a.enabled {
            let mut entry: Vec<char> = Vec::new();
            extend_str(&mut entry, "### ");
            extend_str(&mut entry, a.name.as_str());
            entry.push('\n');
            let b = trim_str(a.body.as_str());
            extend_chars(&mut entry, &b);
            assert(entry@ =~= asset_entry(*a));
            match a.kind {
                AssetKind::Skills => {
                    skills.push(entry);
                    assert(skills@.map_values(|p: Vec<char>| p@) =~= entries_for(
                        assets@.take(i + 1),
                        AssetKind::Skills,
                    ));
                },
                AssetKind::Rules => {
                    rules.push(entry);
                    assert(rules@.map_values(|p: Vec<char>| p@) =~= entries_for(
                        assets@.take(i + 1),
                        AssetKind::Rules,
                    ));
                },
                AssetKind::Subagents => {
                    agents.push(entry);
                    assert(agents@.map_values(|p: Vec<char>| p@) =~= entries_for(
                        assets@.take(i + 1),
                        AssetKind::Subagents,
                    ));
                },
                _ => {},
            }
        }
        i = i + 1;
    }
    assert(assets@.take(assets.len() as int) =~= assets@);
    let mut out: Vec<char> = Vec::new();
    push_section(&mut out, "\n\n# Agent Skills\nApply these skills when their description matches the task:\n\n", &skills);
    push_section(&mut out, "\n\n# Available Subagents\nDelegate to these when their description matches:\n\n", &agents);
    push_section(&mut out, "\n\n# Project Rules\nAlways follow these rules:\n\n", &rules);
    assert(out@ =~= spec_build_prompt(assets@));
    string_of(&out)
}

// ---------------------------------------------------------------------------
// Assets as plain values
// ---------------------------------------------------------------------------
/// An asset as plain values: kind, scope, name, description, path, body,
/// enabled.
pub type AssetView = (AssetKind, AssetScope, Seq<char>, Seq<char>, Seq<char>, Seq<char>, bool);

pub open spec fn asset_view(a: AgentAsset) -> AssetView {
    (a.kind, a.scope, a.name@, a.description@, a.path@, a.body@, a.enabled)
}

pub open spec fn assets_view(v: Seq<AgentAsset>) -> Seq<AssetView> {
    v.map_values(|a: AgentAsset| asset_view(a))
}

impl AgentAsset {
    /// An independent copy.
    pub fn copy(&self) -> (r: AgentAsset)
        ensures
            asset_view(r) == asset_view(*self),
    {
        AgentAsset {
            kind: self.kind,
            scope: self.scope,
            name: self.name.clone(),
            description: self.description.clone(),
            path: self.path.clone(),
            body: self.body.clone(),
            enabled: self.enabled,
        }
    }
}

/// The text of the markdown asset at `path` after setting its `enabled`
/// flag (see [`frontmatter::set_enabled_text`]); a file without frontmatter
/// is named after its stem, or `asset`.
pub open spec fn spec_with_enabled_flag(path: Seq<char>, text: Seq<char>, enabled: bool) -> Seq<char> {
    let name = match paths::spec_file_stem(path) {
        Some(stem) => stem,
        None => "asset"@,
    };
    frontmatter::spec_set_enabled_text(text, name, enabled)
}

/// Toggling an asset and reading it back agree: after the flag of the
/// markdown asset at `path` is set to `enabled`, the asset reads as enabled
/// exactly when `enabled` is true. This holds of every text except one that
/// opens a frontmatter which is never closed and has no `enabled:` line
/// (the rewrite writes no flag there), given a file stem on one line.
pub proof fn law_toggle_reads_back(kind: AssetKind, scope: AssetScope, path: Seq<char>, text: Seq<char>, enabled: bool)
    requires
        match paths::spec_file_stem(path) {
            Some(stem) => !text::has_char(stem, '\n'),
            None => true,
        },
        text::starts_with(text, "---\n"@) ==> frontmatter::flag_due(text.skip(4)),
    ensures
        spec_markdown_asset(kind, scope, path, spec_with_enabled_flag(path, text, enabled)).3 == enabled,
{
    let name = match paths::spec_file_stem(path) {
        Some(stem) => stem,
        None => "asset"@,
    };
    reveal_strlit("asset");
    assert(!text::has_char(name, '\n')) by {
        if paths::spec_file_stem(path) is None {
            assert("asset"@.len() == 5);
            assert forall|i: int| 0 <= i < 5 implies "asset"@[i] != '\n' by {}
        }
    }
    frontmatter::law_set_enabled_reads_back(text, name, enabled);
}

/// Setting the flag of the markdown asset at `path` to `enabled` rewrites its
/// text `t` as follows, and the asset then reads as `enabled`. A text that
/// opens a frontmatter (`---` and a newline) keeps every byte but the
/// frontmatter's `enabled:` lines: the first becomes `enabled: <value>`, the
/// others go, and one is added before the closing fence when there was none;
/// when the frontmatter is closed, what follows it is kept. Any other text
/// gets `---\nname: <stem>\nenabled: <value>\n---\n\n` in front of it, and
/// reads as a body of a newline and the whole text. The conditions are those
/// of [`law_toggle_reads_back`].
pub proof fn law_toggle_rewrite(kind: AssetKind, scope: AssetScope, path: Seq<char>, t: Seq<char>, enabled: bool)
    requires
        match paths::spec_file_stem(path) {
            Some(stem) => !text::has_char(stem, '\n'),
            None => true,
        },
        text::starts_with(t, "---\n"@) ==> frontmatter::flag_due(t.skip(4)),
    ensures
        text::starts_with(t, "---\n"@) ==> spec_with_enabled_flag(path, t, enabled) == "---\n"@ + frontmatter::flag_scan(
            t.skip(4),
            frontmatter::enabled_line(enabled),
            false,
            false,
        ),
        text::starts_with(t, "---\n"@) && frontmatter::fm_scan(t.skip(4), frontmatter::fm_init()).1 is Some
            ==> frontmatter::spec_parse_frontmatter(spec_with_enabled_flag(path, t, enabled)).1
            == frontmatter::spec_parse_frontmatter(t).1,
        !text::starts_with(t, "---\n"@) ==> spec_with_enabled_flag(path, t, enabled) == "---\nname: "@ + (match paths::spec_file_stem(
            path,
        ) {
            Some(stem) => stem,
            None => "asset"@,
        }) + "\nenabled: "@ + frontmatter::bool_text(enabled) + "\n---\n\n"@ + t,
        !text::starts_with(t, "---\n"@) ==> frontmatter::spec_parse_frontmatter(spec_with_enabled_flag(path, t, enabled)).1
            == seq!['\n'] + t,
        spec_markdown_asset(kind, scope, path, spec_with_enabled_flag(path, t, enabled)).3 == enabled,
{
    law_toggle_reads_back(kind, scope, path, t, enabled);
    let name = match paths::spec_file_stem(path) {
        Some(stem) => stem,
        None => "asset"@,
    };
    reveal_strlit("asset");
    assert(!text::has_char(name, '\n')) by {
        if paths::spec_file_stem(path) is None {
            assert("asset"@.len() == 5);
            assert forall|i: int| 0 <= i < 5 implies "asset"@[i] != '\n' by {}
        }
    }
    if !text::starts_with(t, "---\n"@) || frontmatter::fm_scan(t.skip(4), frontmatter::fm_init()).1 is Some {
        frontmatter::law_set_enabled_keeps_body(t, name, enabled);
    }
}

pub fn with_enabled_flag(path: &str, text: &str, enabled: bool) -> (r: String)
    ensures
        r@ == spec_with_enabled_flag(path@, text@, enabled),
{
    let name = match path_file_stem(path) {
        Some(stem) => stem,
        None => {
            let mut s = String::new();
            push_str(&mut s, "asset");
            s
        },
    };
    frontmatter::set_enabled_text(text, name.as_str(), enabled)
}

/// Description of a JSON asset: the number of hook events of a hooks bundle,
/// the command of an MCP server.
pub open spec fn spec_json_description(kind: AssetKind, doc: crate::json::JsonValue) -> Seq<char> {
    match kind {
        AssetKind::Hooks => {
            let count = match crate::json::spec_get(doc, "hooks"@) {
                Some(crate::json::JsonValue::Object(entries)) => entries@.len(),
                _ => 0,
            };
            if count == 0 {
                "No hook events"@
            } else if count == 1 {
                "1 hook event"@
            } else {
                text::decimal(count) + " hook events"@
            }
        },
        AssetKind::Mcps => match crate::json::spec_get_str(doc, "command"@) {
            Some(c) => "stdio · "@ + c,
            None => "MCP server"@,
        },
        _ => Seq::empty(),
    }
}

/// `a` is the asset a JSON file at `path` holding `text` describes, given
/// the document `doc` read from the text.
pub open spec fn is_json_asset(a: AgentAsset, kind: AssetKind, scope: AssetScope, path: Seq<char>, text: Seq<char>, doc: JsonValue) -> bool {
    &&& a.kind == kind
    &&& a.scope == scope
    &&& a.path@ == path
    &&& a.body@ == text
    &&& a.name@ == match paths::spec_file_stem(path) {
        Some(stem) => stem,
        None => "unnamed"@,
    }
    &&& a.description@ == spec_json_description(kind, doc)
    &&& a.enabled == match crate::json::spec_get_bool(doc, "enabled"@) {
        Some(b) => b,
        None => true,
    }
}

/// Read a JSON asset from its text: refused when the text is not JSON.
pub fn json_asset_from_text(kind: AssetKind, scope: AssetScope, path: &str, text: &str) -> (r: Result<AgentAsset, String>)
    ensures
        match crate::json::spec_parse_json(text@) {
            None => r matches Err(e) && e@ == "parse JSON "@ + path@ + ": not valid JSON"@,
            Some(m) => r matches Ok(a) && exists|v: JsonValue| #[trigger] crate::json::json_model(v) == m
                && is_json_asset(a, kind, scope, path@, text@, v),
        },
{
    match crate::json::parse_json(text) {
        Some(doc) => Ok(json_asset_from_value(kind, scope, path, text, &doc)),
        None => {
            let mut e = String::new();
            push_str(&mut e, "parse JSON ");
            push_str(&mut e, path);
            push_str(&mut e, ": not valid JSON");
            Err(e)
        },
    }
}

/// Each asset's body read as JSON, `None` where it is not JSON.
pub fn parsed_bodies(assets: &Vec<AgentAsset>) -> (r: Vec<Option<JsonValue>>)
    ensures
        r@.len() == assets@.len(),
        forall|i: int| 0 <= i < r@.len() ==> match #[trigger] r@[i] {
            Some(v) => crate::json::spec_parse_json(assets@[i].body@) == Some(crate::json::json_model(v)),
            None => crate::json::spec_parse_json(assets@[i].body@) is None,
        },
{
    let mut out: Vec<Option<JsonValue>> = Vec::new();
    let mut i: usize = 0;
    while i < assets.len()
        invariant
            i <= assets.len(),
            out@.len() == i,
            forall|k: int| 0 <= k < i ==> match #[trigger] out@[k] {
                Some(v) => crate::json::spec_parse_json(assets@[k].body@) == Some(crate::json::json_model(v)),
                None => crate::json::spec_parse_json(assets@[k].body@) is None,
            },
        decreases assets.len() - i,
    {
        out.push(crate::json::parse_json(assets[i].body.as_str()));
        i = i + 1;
    }
    out
}

/// An entry of an asset location directory, as the file system lists it:
/// its path, whether it is a file, and, for a directory, the path of its
/// `SKILL.md` (else `skill.md`) when that is a file.
pub struct LocationEntry {
    pub path: String,
    pub is_file: bool,
    pub skill_file: Option<String>,
}

/// `path` has the extension of `kind`, ASCII case ignored.
pub open spec fn has_kind_extension(kind: AssetKind, path: Seq<char>) -> bool {
    paths::spec_extension(path) matches Some(x) && text::eq_ignore_case(x, kind.spec_extension())
}

/// Whether `path` has the extension of `kind`, ASCII case ignored.
pub fn is_kind_file(kind: AssetKind, path: &str) -> (r: bool)
    ensures
        r == has_kind_extension(kind, path@),
{
    match path_extension(path) {
        Some(x) => text::eq_ignore_case_exec(&chars_of(x.as_str()), &chars_of(kind.extension())),
        None => false,
    }
}

/// The files of a folder walk (each path with whether it is a file) that a
/// folder import of `kind` takes, in walk order: files with the kind's
/// extension.
pub open spec fn spec_import_sources(kind: AssetKind, entries: Seq<(Seq<char>, bool)>) -> Seq<Seq<char>>
    decreases entries.len(),
{
    if entries.len() == 0 {
        Seq::empty()
    } else {
        let prev = spec_import_sources(kind, entries.drop_last());
        let e = entries.last();
        if e.1 && has_kind_extension(kind, e.0) {
            prev.push(e.0)
        } else {
            prev
        }
    }
}

pub open spec fn walk_view(v: Seq<(String, bool)>) -> Seq<(Seq<char>, bool)> {
    v.map_values(|e: (String, bool)| (e.0@, e.1))
}

/// The files a folder import of `kind` tries, from a walk of the folder.
pub fn import_sources(kind: AssetKind, entries: &Vec<(String, bool)>) -> (r: Vec<String>)
    ensures
        r@.map_values(|s: String| s@) == spec_import_sources(kind, walk_view(entries@)),
{
    let ghost wv = walk_view(entries@);
    let mut out: Vec<String> = Vec::new();
    let mut i: usize = 0;
    while i < entries.len()
        invariant
            i <= entries.len(),
            wv == walk_view(entries@),
            out@.map_values(|s: String| s@) == spec_import_sources(kind, wv.take(i as int)),
        decreases entries.len() - i,
    {
        proof {
            assert(wv.take(i + 1).drop_last() =~= wv.take(i as int));
            assert(wv.take(i + 1).last() == wv[i as int]);
        }
        let (path, is_file) = (&entries[i].0, entries[i].1);
        if is_file && is_kind_file(kind, path.as_str()) {
            let ghost before = out@.map_values(|s: String| s@);
            out.push(string_of(&chars_of(path.as_str())));
            assert(out@.map_values(|s: String| s@) =~= before.push(path@));
        }
        i = i + 1;
    }
    assert(wv.take(entries.len() as int) =~= wv);
    out
}

/// The answer of a folder import once each file was tried: the files it
/// created, or, when it created none, `no .<ext> files found in `<folder>``.
pub fn import_directory_answer(kind: AssetKind, source_dir: &str, created: Vec<String>) -> (r: Result<Vec<String>, String>)
    ensures
        created@.len() == 0 ==> (r matches Err(e) && e@ == "no ."@ + kind.spec_extension() + " files found in `"@
            + source_dir@ + "`"@),
        created@.len() > 0 ==> (r matches Ok(v) && v@ == created@),
{
    if created.len() == 0 {
        let mut e = String::new();
        text::push_str(&mut e, "no .");
        text::push_str(&mut e, kind.extension());
        text::push_str(&mut e, " files found in `");
        text::push_str(&mut e, source_dir);
        text::push_str(&mut e, "`");
        return Err(e);
    }
    Ok(created)
}

/// The file an entry offers as an asset of `kind`: a file with the kind's
/// extension (ASCII case ignored), or, for skills, the skill file of a
/// folder.
pub open spec fn entry_candidate(kind: AssetKind, e: LocationEntry) -> Option<Seq<char>> {
    if e.is_file && has_kind_extension(kind, e.path@) {
        Some(e.path@)
    } else if kind == AssetKind::Skills && e.skill_file is Some {
        Some(e.skill_file->0@)
    } else {
        None
    }
}

/// The asset files of a location, in the order of its entries; credential
/// files are left out.
pub open spec fn spec_asset_candidates(kind: AssetKind, es: Seq<LocationEntry>) -> Seq<Seq<char>>
    decreases es.len(),
{
    if es.len() == 0 {
        Seq::empty()
    } else {
        let prev = spec_asset_candidates(kind, es.drop_last());
        match entry_candidate(kind, es.last()) {
            Some(p) => if secrets::spec_is_sensitive_path(p) {
                prev
            } else {
                prev.push(p)
            },
            None => prev,
        }
    }
}

/// Which files of one asset location are read as assets of `kind`.
pub fn asset_candidates(kind: AssetKind, entries: &Vec<LocationEntry>) -> (r: Vec<String>)
    ensures
        r@.map_values(|s: String| s@) == spec_asset_candidates(kind, entries@),
{
    let mut out: Vec<String> = Vec::new();
    let mut i: usize = 0;
    while i < entries.len()
        invariant
            i <= entries.len(),
            out@.map_values(|s: String| s@) == spec_asset_candidates(kind, entries@.take(i as int)),
        decreases entries.len() - i,
    {
        proof {
            assert(entries@.take(i + 1).drop_last() =~= entries@.take(i as int));
            assert(entries@.take(i + 1).last() == entries@[i as int]);
        }
        let e = &entries[i];
        let ext_ok = is_kind_file(kind, e.path.as_str());
        let candidate: Option<String> = if e.is_file && ext_ok {
            Some(e.path.clone())
        } else if kind == AssetKind::Skills {
            match &e.skill_file {
                Some(f) => Some(f.clone()),
                None => None,
            }
        } else {
            None
        };
        match candidate {
            Some(p) => {
                if !secrets::is_sensitive_path(p.as_str()) {
                    let ghost before = out@.map_values(|s: String| s@);
                    out.push(p);
                    assert(out@.map_values(|s: String| s@) =~= before.push(out@.last()@));
                }
            },
            None => {},
        }
        i = i + 1;
    }
    assert(entries@.take(i as int) =~= entries@);
    out
}

/// Build the asset a JSON file (hooks bundle or MCP descriptor) describes,
/// from its path, its text and the document serde_json parsed from it.
pub fn json_asset_from_value(
    kind: AssetKind,
    scope: AssetScope,
    path: &str,
    text: &str,
    doc: &crate::json::JsonValue,
) -> (r: AgentAsset)
    ensures
        r.kind == kind,
        r.scope == scope,
        r.path@ == path@,
        r.body@ == text@,
        r.name@ == match paths::spec_file_stem(path@) {
            Some(stem) => stem,
            None => "unnamed"@,
        },
        r.description@ == spec_json_description(kind, *doc),
        r.enabled == match crate::json::spec_get_bool(*doc, "enabled"@) {
            Some(b) => b,
            None => true,
        },
{
    let name = match path_file_stem(path) {
        Some(stem) => stem,
        None => {
            let mut s = String::new();
            push_str(&mut s, "unnamed");
            s
        },
    };
    let mut description = String::new();
    match kind {
        AssetKind::Hooks => {
            let count: usize = match doc.get("hooks") {
                Some(h) => match h.as_object() {
                    Some(entries) => entries.len(),
                    None => 0,
                },
                None => 0,
            };
            if count == 0 {
                push_str(&mut description, "No hook events");
            } else if count == 1 {
                push_str(&mut description, "1 hook event");
            } else {
                let digits = text::decimal_exec(count as u128);
                push_chars(&mut description, &digits);
                push_str(&mut description, " hook events");
            }
        },
        AssetKind::Mcps => match crate::json::get_str(doc, "command") {
            Some(c) => {
                push_str(&mut description, "stdio · ");
                push_str(&mut description, c.as_str());
            },
            None => {
                push_str(&mut description, "MCP server");
            },
        },
        _ => {},
    }
    let enabled = match crate::json::get_bool(doc, "enabled") {
        Some(b) => b,
        None => true,
    };
    AgentAsset { kind, scope, name, description, path: path.to_owned(), body: text.to_owned(), enabled }
}

// ---------------------------------------------------------------------------
// Discovery
// ---------------------------------------------------------------------------
/// Code-point (byte-wise UTF-8) order of strings, as `String`'s `Ord` has it.
pub open spec fn lex_lt(a: Seq<char>, b: Seq<char>) -> bool
    decreases a.len(),
{
    if a.len() == 0 {
        b.len() > 0
    } else if b.len() == 0 {
        false
    } else if a[0] != b[0] {
        a[0] < b[0]
    } else {
        lex_lt(a.drop_first(), b.drop_first())
    }
}

proof fn lemma_lex_lt_skip(a: Seq<char>, b: Seq<char>, i: int)
    requires
        0 <= i <= a.len(),
        i <= b.len(),
        forall|j: int| 0 <= j < i ==> a[j] == b[j],
    ensures
        lex_lt(a, b) == lex_lt(a.skip(i), b.skip(i)),
    decreases i,
{
    if i > 0 {
        assert(a.drop_first().skip(i - 1) =~= a.skip(i));
        assert(b.drop_first().skip(i - 1) =~= b.skip(i));
        lemma_lex_lt_skip(a.drop_first(), b.drop_first(), i - 1);
    } else {
        assert(a.skip(0) =~= a);
        assert(b.skip(0) =~= b);
    }
}

/// `a < b` in code-point order.
pub fn lex_lt_exec(a: &Vec<char>, b: &Vec<char>) -> (r: bool)
    ensures
        r == lex_lt(a@, b@),
{
    let mut i: usize = 0;
    while i < a.len() && i < b.len() && a[i] == b[i]
        invariant
            i <= a.len(),
            i <= b.len(),
            forall|j: int| 0 <= j < i ==> a@[j] == b@[j],
        decreases a.len() - i,
    {
        i = i + 1;
    }
    proof {
        lemma_lex_lt_skip(a@, b@, i as int);
    }
    if i == a.len() {
        i < b.len()
    } else if i == b.len() {
        false
    } else {
        a[i] < b[i]
    }
}

/// Sort key of an asset: its name, ASCII-lower-cased.
pub open spec fn name_key(a: AssetView) -> Seq<char> {
    text::lower(a.2)
}

/// Position where `a` goes in `sorted`: after every asset whose key is not
/// greater than its own.
pub open spec fn insert_pos(sorted: Seq<AssetView>, a: AssetView) -> int
    decreases sorted.len(),
{
    if sorted.len() == 0 {
        0
    } else if lex_lt(name_key(a), name_key(sorted[0])) {
        0
    } else {
        1 + insert_pos(sorted.drop_first(), a)
    }
}

/// Stable sort by [`name_key`] (insertion sort).
pub open spec fn sort_by_name(s: Seq<AssetView>) -> Seq<AssetView>
    decreases s.len(),
{
    if s.len() == 0 {
        Seq::empty()
    } else {
        let sorted = sort_by_name(s.drop_last());
        sorted.insert(insert_pos(sorted, s.last()), s.last())
    }
}

pub open spec fn name_taken(d: Seq<AssetView>, name: Seq<char>) -> bool {
    exists|i: int| 0 <= i < d.len() && d[i].2 == name
}

/// The first asset of each name, in order.
pub open spec fn dedupe_names(s: Seq<AssetView>) -> Seq<AssetView>
    decreases s.len(),
{
    if s.len() == 0 {
        Seq::empty()
    } else {
        let d = dedupe_names(s.drop_last());
        if name_taken(d, s.last().2) {
            d
        } else {
            d.push(s.last())
        }
    }
}

/// What discovery lists for the assets read in scan order.
pub open spec fn spec_merge_discovered(found: Seq<AssetView>) -> Seq<AssetView> {
    sort_by_name(dedupe_names(found))
}

proof fn lemma_insert_pos_bound(sorted: Seq<AssetView>, a: AssetView)
    ensures
        0 <= insert_pos(sorted, a) <= sorted.len(),
    decreases sorted.len(),
{
    if sorted.len() > 0 {
        lemma_insert_pos_bound(sorted.drop_first(), a);
    }
}

proof fn lemma_insert_pos_step(sorted: Seq<AssetView>, a: AssetView, p: int)
    requires
        0 <= p <= sorted.len(),
        forall|j: int| 0 <= j < p ==> !lex_lt(name_key(a), name_key(#[trigger] sorted[j])),
        p == sorted.len() || lex_lt(name_key(a), name_key(sorted[p])),
    ensures
        insert_pos(sorted, a) == p,
    decreases p,
{
    if p > 0 {
        let t = sorted.drop_first();
        assert forall|j: int| 0 <= j < p - 1 implies !lex_lt(name_key(a), name_key(#[trigger] t[j])) by {
            assert(t[j] == sorted[j + 1]);
        }
        if p < sorted.len() {
            assert(t[p - 1] == sorted[p]);
        }
        lemma_insert_pos_step(t, a, p - 1);
    }
}

/// The sort key of an asset, as a function.
pub open spec fn name_key_fn() -> spec_fn(AssetView) -> Seq<char> {
    |a: AssetView| name_key(a)
}

/// The name of an asset, as a function.
pub open spec fn name_fn() -> spec_fn(AssetView) -> Seq<char> {
    |a: AssetView| a.2
}

proof fn lemma_insert_pos_is(sorted: Seq<AssetView>, a: AssetView)
    ensures
        insert_pos(sorted, a) == order::ins_pos(sorted, a, name_key_fn()),
    decreases sorted.len(),
{
    if sorted.len() > 0 {
        lemma_insert_pos_is(sorted.drop_first(), a);
    }
}

proof fn lemma_sort_by_name_is(s: Seq<AssetView>)
    ensures
        sort_by_name(s) == order::sort_by(s, name_key_fn()),
    decreases s.len(),
{
    if s.len() > 0 {
        lemma_sort_by_name_is(s.drop_last());
        lemma_insert_pos_is(sort_by_name(s.drop_last()), s.last());
    }
}

proof fn lemma_dedupe_names_is(s: Seq<AssetView>)
    ensures
        dedupe_names(s) == order::dedupe_by(s, name_fn()),
    decreases s.len(),
{
    if s.len() > 0 {
        lemma_dedupe_names_is(s.drop_last());
        let d = dedupe_names(s.drop_last());
        let n = s.last().2;
        if name_taken(d, n) {
            let i = choose|i: int| 0 <= i < d.len() && d[i].2 == n;
            assert((name_fn())(d[i]) == n);
        }
        if order::taken_by(d, n, name_fn()) {
            let i = choose|i: int| 0 <= i < d.len() && (name_fn())(#[trigger] d[i]) == n;
            assert(d[i].2 == n);
        }
        assert((name_fn())(s.last()) == n);
    }
}

/// What a discovery pass lists is sorted by ASCII-lower-cased name, holds no
/// two assets of the same name, holds every name that was read, and each
/// asset it holds is the first one read with its name, so a project asset
/// shadows a user asset of the same name.
pub proof fn law_merge_discovered(found: Seq<AssetView>)
    ensures
        order::sorted_by(spec_merge_discovered(found), name_key_fn()),
        order::unique_by(spec_merge_discovered(found), name_fn()),
        forall|i: int|
            0 <= i < found.len() ==> order::taken_by(spec_merge_discovered(found), #[trigger] found[i].2, name_fn()),
        forall|j: int|
            0 <= j < spec_merge_discovered(found).len() ==> order::first_of(
                found,
                #[trigger] spec_merge_discovered(found)[j],
                name_fn(),
            ),
{
    lemma_dedupe_names_is(found);
    let d = dedupe_names(found);
    lemma_sort_by_name_is(d);
    order::lemma_dedupe_by(found, name_fn());
    order::lemma_sort_by(d, name_key_fn());
    order::lemma_sort_unique(d, name_key_fn(), name_fn());
    let m = sort_by_name(d);
    assert forall|i: int| 0 <= i < found.len() implies order::taken_by(m, #[trigger] found[i].2, name_fn()) by {
        assert((name_fn())(found[i]) == found[i].2);
        assert(order::taken_by(d, (name_fn())(found[i]), name_fn()));
        let k = choose|k: int| 0 <= k < d.len() && (name_fn())(#[trigger] d[k]) == (name_fn())(found[i]);
        assert(d.contains(d[k]));
        assert(m.contains(d[k]));
        let j = choose|j: int| 0 <= j < m.len() && m[j] == d[k];
        assert((name_fn())(m[j]) == found[i].2);
    }
    assert forall|j: int| 0 <= j < m.len() implies order::first_of(found, #[trigger] m[j], name_fn()) by {
        assert(m.contains(m[j]));
        assert(d.contains(m[j]));
        let k = choose|k: int| 0 <= k < d.len() && d[k] == m[j];
        assert(order::first_of(found, d[k], name_fn()));
    }
}

/// The assets a discovery pass lists, given every asset it read, in scan
/// order (project roots first, paths sorted within a directory): a project
/// asset shadows a later asset of the same name, and the list is sorted by
/// ASCII-lower-cased name, stably.
pub fn merge_discovered(found: &Vec<AgentAsset>) -> (r: Vec<AgentAsset>)
    ensures
        assets_view(r@) == spec_merge_discovered(assets_view(found@)),
{
    let ghost fv = assets_view(found@);
    // Keep the first asset of each name.
    let mut kept: Vec<AgentAsset> = Vec::new();
    let mut i: usize = 0;
    assert(assets_view(kept@) =~= Seq::<AssetView>::empty());
    while i < found.len()
        invariant
            i <= found.len(),
            fv == assets_view(found@),
            assets_view(kept@) == dedupe_names(fv.take(i as int)),
        decreases found.len() - i,
    {
        proof {
            assert(fv.take(i + 1).drop_last() =~= fv.take(i as int));
            assert(fv.take(i + 1).last() == fv[i as int]);
        }
        let ghost d = assets_view(kept@);
        let mut taken = false;
        let mut j: usize = 0;
        while j < kept.len()
            invariant
                j <= kept.len(),
                i < found.len(),
                d == assets_view(kept@),
                taken == (exists|k: int| 0 <= k < j && d[k].2 == found@[i as int].name@),
            decreases kept.len() - j,
        {
            assert(d[j as int].2 == kept@[j as int].name@);
            if text::str_eq(kept[j].name.as_str(), found[i].name.as_str()) {
                taken = true;
            }
            j = j + 1;
        }
        if !taken {
            let c = found[i].copy();
            kept.push(c);
            assert(assets_view(kept@) =~= d.push(fv[i as int]));
        }
        i = i + 1;
    }
    assert(fv.take(found.len() as int) =~= fv);
    let ghost dv = assets_view(kept@);
    // Stable insertion sort by lower-cased name.
    let mut out: Vec<AgentAsset> = Vec::new();
    let mut keys: Vec<Vec<char>> = Vec::new();
    let mut k: usize = 0;
    assert(assets_view(out@) =~= Seq::<AssetView>::empty());
    while k < kept.len()
        invariant
            k <= kept.len(),
            dv == assets_view(kept@),
            assets_view(out@) == sort_by_name(dv.take(k as int)),
            keys@.len() == out@.len(),
            forall|j: int| 0 <= j < keys@.len() ==> (#[trigger] keys@[j])@ == name_key(
                asset_view(out@[j]),
            ),
        decreases kept.len() - k,
    {
        proof {
            assert(dv.take(k + 1).drop_last() =~= dv.take(k as int));
            assert(dv.take(k + 1).last() == dv[k as int]);
        }
        let ghost sorted = assets_view(out@);
        let a = kept[k].copy();
        let key = lower_exec(&chars_of(a.name.as_str()));
        let mut p: usize = 0;
        while p < out.len() && !lex_lt_exec(&key, &keys[p])
            invariant
                p <= out.len() == keys@.len(),
                sorted == assets_view(out@),
                key@ == name_key(asset_view(a)),
                forall|j: int| 0 <= j < keys@.len() ==> (#[trigger] keys@[j])@ == name_key(
                    asset_view(out@[j]),
                ),
                forall|j: int|
                    0 <= j < p ==> !lex_lt(name_key(asset_view(a)), name_key(#[trigger] sorted[j])),
            decreases out.len() - p,
        {
            assert(sorted[p as int] == asset_view(out@[p as int]));
            p = p + 1;
        }
        proof {
            if p < out.len() {
                assert(sorted[p as int] == asset_view(out@[p as int]));
            }
            lemma_insert_pos_step(sorted, asset_view(a), p as int);
        }
        let ghost out_before = out@;
        let ghost keys_before = keys@;
        out.insert(p, a);
        keys.insert(p, key);
        proof {
            assert(assets_view(out@) =~= sorted.insert(p as int, asset_view(a)));
            assert forall|j: int| 0 <= j < keys@.len() implies (#[trigger] keys@[j])@ == name_key(
                asset_view(out@[j]),
            ) by {
                if j < p {
                    assert(keys@[j] == keys_before[j]);
                    assert(out@[j] == out_before[j]);
                } else if j > p {
                    assert(keys@[j] == keys_before[j - 1]);
                    assert(out@[j] == out_before[j - 1]);
                }
            }
        }
        k = k + 1;
    }
    assert(dv.take(kept.len() as int) =~= dv);
    out
}


// ---------------------------------------------------------------------------
// Creating and importing
// ---------------------------------------------------------------------------
/// The file a new asset gets in its directory: `hooks.json` for hooks, else
/// the cleaned name with the kind's extension.
pub open spec fn spec_new_asset_file(kind: AssetKind, safe: Seq<char>) -> Seq<char> {
    if kind == AssetKind::Hooks {
        "hooks.json"@
    } else {
        safe + "."@ + kind.spec_extension()
    }
}

/// The name a new asset is created under: the typed text, trimmed, or
/// `new-<kind id>` when nothing was typed.
pub open spec fn spec_new_asset_name(kind: AssetKind, typed: Seq<char>) -> Seq<char> {
    if text::trim(typed).len() == 0 {
        "new-"@ + kind.spec_id()
    } else {
        text::trim(typed)
    }
}

pub fn new_asset_name(kind: AssetKind, typed: &str) -> (r: String)
    ensures
        r@ == spec_new_asset_name(kind, typed@),
{
    let t = trim_str(typed);
    if t.len() == 0 {
        let mut out = String::new();
        text::push_str(&mut out, "new-");
        text::push_str(&mut out, kind.id());
        return out;
    }
    string_of(&t)
}

pub fn new_asset_file(kind: AssetKind, safe: &str) -> (r: String)
    ensures
        r@ == spec_new_asset_file(kind, safe@),
{
    let mut out = String::new();
    if kind == AssetKind::Hooks {
        text::push_str(&mut out, "hooks.json");
    } else {
        text::push_str(&mut out, safe);
        text::push_str(&mut out, ".");
        text::push_str(&mut out, kind.extension());
    }
    out
}

/// Why a file cannot be imported as an asset.
#[derive(Debug, Clone, PartialEq, Eq)]
pub enum ImportError {
    /// The file looks like it holds credentials.
    Sensitive,
    /// The file has the wrong extension for the kind (`actual` is what it has).
    WrongExtension { actual: String },
    /// No usable asset name can be made from the file name.
    Name(AssetError),
}

pub open spec fn ext_or_empty(path: Seq<char>) -> Seq<char> {
    match paths::spec_extension(path) {
        Some(e) => e,
        None => Seq::empty(),
    }
}

/// The file name an imported file gets, or why it is refused: credential
/// files and files without the kind's extension (ASCII case ignored) are
/// refused; the name comes from the preferred stem, cleaned.
pub open spec fn spec_import_file_name(kind: AssetKind, source: Seq<char>) -> Result<Seq<char>, ImportError> {
    if crate::secrets::spec_is_sensitive_path(source) {
        Err(ImportError::Sensitive)
    } else if !text::eq_ignore_case(ext_or_empty(source), kind.spec_extension()) {
        Err(ImportError::WrongExtension { actual: arbitrary() })
    } else {
        match spec_sanitize_asset_name(spec_preferred_stem(source)) {
            Ok(safe) => Ok(safe + "."@ + kind.spec_extension()),
            Err(e) => Err(ImportError::Name(e)),
        }
    }
}

pub fn import_file_name(kind: AssetKind, source: &str) -> (r: Result<String, ImportError>)
    ensures
        match spec_import_file_name(kind, source@) {
            Ok(n) => r matches Ok(x) && x@ == n,
            Err(ImportError::Sensitive) => r == Err::<String, ImportError>(ImportError::Sensitive),
            Err(ImportError::WrongExtension { .. }) => r matches Err(ImportError::WrongExtension { actual }) && actual@
                == ext_or_empty(source@),
            Err(ImportError::Name(e)) => r == Err::<String, ImportError>(ImportError::Name(e)),
        },
{
    if crate::secrets::is_sensitive_path(source) {
        return Err(ImportError::Sensitive);
    }
    let actual = match paths::path_extension(source) {
        Some(e) => e,
        None => String::new(),
    };
    let expected = kind.extension();
    if !eq_ignore_case_exec(&chars_of(actual.as_str()), &chars_of(expected)) {
        return Err(ImportError::WrongExtension { actual });
    }
    let stem = preferred_stem(source);
    match sanitize_asset_name(stem.as_str()) {
        Ok(safe) => {
            let mut out = String::new();
            text::push_str(&mut out, safe.as_str());
            text::push_str(&mut out, ".");
            text::push_str(&mut out, expected);
            Ok(out)
        },
        Err(e) => Err(ImportError::Name(e)),
    }
}

impl ImportError {
    /// Human-readable message.
    pub fn message(&self, kind: AssetKind) -> (r: String)
        ensures
            match self {
                ImportError::Sensitive => r@ == "refusing to import a sensitive file"@,
                ImportError::WrongExtension { actual } => r@ == kind.spec_label() + " assets must be ."@
                    + kind.spec_extension() + " files (got ."@ + actual@ + ")"@,
                ImportError::Name(e) => r@ == asset_error_message(*e),
            },
    {
        let mut out = String::new();
        match self {
            ImportError::Sensitive => text::push_str(&mut out, "refusing to import a sensitive file"),
            ImportError::WrongExtension { actual } => {
                text::push_str(&mut out, kind.label());
                text::push_str(&mut out, " assets must be .");
                text::push_str(&mut out, kind.extension());
                text::push_str(&mut out, " files (got .");
                text::push_str(&mut out, actual.as_str());
                text::push_str(&mut out, ")");
            },
            ImportError::Name(e) => text::push_str(&mut out, e.message()),
        }
        out
    }
}

// ---------------------------------------------------------------------------
// MCP servers declared as assets
// ---------------------------------------------------------------------------
/// A server entry read from an MCP asset: the asset path, then the server's
/// name, command and arguments.
pub type McpEntryView = (Seq<char>, Seq<char>, Seq<char>, Seq<Seq<char>>);

pub open spec fn mcp_entry_view(e: (String, McpServerSpec)) -> McpEntryView {
    (e.0@, e.1.name@, e.1.command@, crate::hooks::strings_view(e.1.args@))
}

pub open spec fn mcp_entries_view(v: Seq<(String, McpServerSpec)>) -> Seq<McpEntryView> {
    v.map_values(|e: (String, McpServerSpec)| mcp_entry_view(e))
}

/// The server an enabled MCP asset declares, given its parsed JSON: none
/// without a non-blank `command`; the name is the trimmed `name` when it is
/// not blank, else the asset name; `args` keeps its string elements.
pub open spec fn spec_mcp_entry(a: AgentAsset, doc: JsonValue) -> Option<McpEntryView> {
    match (json::spec_get_str(doc, "name"@), json::spec_get_str(doc, "command"@), json::spec_get(doc, "args"@)) {
        (Some(name), Some(command), Some(JsonValue::Array(items))) => if text::trim(name).len() == 0 || text::trim(
            command,
        ).len() == 0 {
            None
        } else {
            Some((a.path@, text::trim(name), command, crate::hooks::string_items(items@)))
        },
        _ => None,
    }
}

/// The servers of the discovered MCP assets, in discovery order; disabled
/// assets, bodies that did not parse (`None`) and descriptors without a
/// `name`, a non-blank `command` and an `args` array are skipped.
pub open spec fn spec_mcp_asset_specs(assets: Seq<AgentAsset>, docs: Seq<Option<JsonValue>>) -> Seq<McpEntryView>
    decreases assets.len(),
{
    if assets.len() == 0 || docs.len() != assets.len() {
        Seq::empty()
    } else {
        let prev = spec_mcp_asset_specs(assets.drop_last(), docs.drop_last());
        let a = assets.last();
        if !a.enabled {
            prev
        } else {
            match docs.last() {
                None => prev,
                Some(doc) => match spec_mcp_entry(a, doc) {
                    Some(e) => prev.push(e),
                    None => prev,
                },
            }
        }
    }
}

fn mcp_entry(a: &AgentAsset, doc: &JsonValue) -> (r: Option<(String, McpServerSpec)>)
    ensures
        match spec_mcp_entry(*a, *doc) {
            Some(e) => r matches Some(x) && mcp_entry_view(x) == e,
            None => r is None,
        },
{
    let name = match json::get_str(doc, "name") {
        Some(n) => n,
        None => return None,
    };
    let command = match json::get_str(doc, "command") {
        Some(c) => c,
        None => return None,
    };
    let items = match doc.get("args") {
        Some(JsonValue::Array(items)) => items,
        _ => return None,
    };
    let t = trim_str(name.as_str());
    if t.len() == 0 || trim_str(command.as_str()).len() == 0 {
        return None;
    }
    let args = crate::hooks::string_items_exec(items);
    Some((a.path.clone(), McpServerSpec { name: string_of(&t), command, args }))
}

/// The MCP servers declared as JSON assets (`mcp/<name>.json`), given the
/// discovered MCP assets and, for each, its body parsed as JSON (`None` when
/// it did not parse). Each server comes with the path of its asset.
pub fn mcp_asset_specs(assets: &Vec<AgentAsset>, docs: &Vec<Option<JsonValue>>) -> (r: Vec<(String, McpServerSpec)>)
    requires
        assets.len() == docs.len(),
    ensures
        mcp_entries_view(r@) == spec_mcp_asset_specs(assets@, docs@),
{
    let mut out: Vec<(String, McpServerSpec)> = Vec::new();
    let mut i: usize = 0;
    assert(mcp_entries_view(out@) =~= Seq::<McpEntryView>::empty());
    while i < assets.len()
        invariant
            i <= assets.len() == docs.len(),
            mcp_entries_view(out@) == spec_mcp_asset_specs(assets@.take(i as int), docs@.take(i as int)),
        decreases assets.len() - i,
    {
        proof {
            assert(assets@.take(i + 1).drop_last() =~= assets@.take(i as int));
            assert(docs@.take(i + 1).drop_last() =~= docs@.take(i as int));
            assert(assets@.take(i + 1).last() == assets@[i as int]);
            assert(docs@.take(i + 1).last() == docs@[i as int]);
        }
        if assets[i].enabled {
            match &docs[i] {
                Some(doc) => match mcp_entry(&assets[i], doc) {
                    Some(e) => {
                        out.push(e);
                        assert(mcp_entries_view(out@) =~= spec_mcp_asset_specs(
                            assets@.take(i + 1),
                            docs@.take(i + 1),
                        ));
                    },
                    None => {},
                },
                None => {},
            }
        }
        i = i + 1;
    }
    assert(assets@.take(assets.len() as int) =~= assets@);
    assert(docs@.take(docs.len() as int) =~= docs@);
    out
}

/// Project scope needs an open folder workspace; without one the User scope
/// is used.
pub fn effective_scope(scope: AssetScope, has_workspace: bool) -> (r: AssetScope)
    ensures
        r == (if scope == AssetScope::Project && !has_workspace { AssetScope::User } else { scope }),
{
    if scope == AssetScope::Project && !has_workspace {
        AssetScope::User
    } else {
        scope
    }
}

} // verus!

