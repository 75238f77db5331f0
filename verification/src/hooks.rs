//! Lifecycle hooks: shell commands bound to agent events, declared in a
//! `hooks.json` bundle at the root of a config root:
//!
//! ```json
//! { "version": 1, "hooks": { "afterFileEdit": [ { "command": "cargo", "args": ["fmt"] } ] } }
//! ```
//!
//! This module reads bundles and decides what runs; spawning the processes is
//! left to the caller. Running hooks is opt-in: a disabled [`HookRunner`]
//! plans nothing.
use vstd::prelude::*;

use crate::assets::{AgentAsset, AssetKind, AssetScope};
use crate::json::{self, JsonValue, get_str};
use crate::text::{self, chars_of, string_of, push_str, push_chars, trim_str, eq_ignore_case_exec, decimal_exec};

verus! {

/// Events a hook bundle can subscribe to.
#[derive(Clone, Copy, Debug, PartialEq, Eq, Hash, PartialOrd, Ord, Structural)]
pub enum HookEvent {
    /// Fired after the agent successfully writes a file.
    AfterFileEdit,
    /// Fired once a run finishes (success, error or cancellation).
    AfterAgentRun,
}

impl HookEvent {
    /// Every event, in a stable order.
    pub const ALL: [HookEvent; 2] = [HookEvent::AfterFileEdit, HookEvent::AfterAgentRun];

    pub open spec fn spec_id(self) -> Seq<char> {
        match self {
            HookEvent::AfterFileEdit => "afterFileEdit"@,
            HookEvent::AfterAgentRun => "afterAgentRun"@,
        }
    }

    /// Key used inside the `hooks` object of `hooks.json`.
    pub fn id(self) -> (r: &'static str)
        ensures
            r@ == self.spec_id(),
    {
        match self {
            HookEvent::AfterFileEdit => "afterFileEdit",
            HookEvent::AfterAgentRun => "afterAgentRun",
        }
    }

    /// Human-readable label for status messages.
    pub fn label(self) -> (r: &'static str)
        ensures
            r@ == self.spec_id(),
    {
        match self {
            HookEvent::AfterFileEdit => "afterFileEdit",
            HookEvent::AfterAgentRun => "afterAgentRun",
        }
    }
}

/// A single hook command declared in a bundle.
#[derive(Clone, Debug, PartialEq, Eq)]
pub struct HookCommand {
    pub command: String,
    pub args: Vec<String>,
    /// Optional explanation surfaced in the UI.
    pub description: String,
}

pub open spec fn strings_view(v: Seq<String>) -> Seq<Seq<char>> {
    v.map_values(|s: String| s@)
}

/// A hook command as plain values: command, arguments, description.
pub type CommandView = (Seq<char>, Seq<Seq<char>>, Seq<char>);

pub open spec fn command_view(c: HookCommand) -> CommandView {
    (c.command@, strings_view(c.args@), c.description@)
}

pub open spec fn commands_view(v: Seq<HookCommand>) -> Seq<CommandView> {
    v.map_values(|c: HookCommand| command_view(c))
}

/// The command followed by its arguments, separated by single spaces.
pub open spec fn spec_display(c: CommandView) -> Seq<char> {
    if c.1.len() == 0 {
        c.0
    } else {
        c.0 + " "@ + crate::assets::join(c.1, " "@)
    }
}

/// Copy of a string list.
pub fn copy_strings(v: &Vec<String>) -> (r: Vec<String>)
    ensures
        strings_view(r@) == strings_view(v@),
{
    let mut out: Vec<String> = Vec::new();
    let mut i: usize = 0;
    while i < v.len()
        invariant
            i <= v.len(),
            strings_view(out@) =~= strings_view(v@.take(i as int)),
        decreases v.len() - i,
    {
        let ghost prev = out@;
        let c = v[i].clone();
        assert(c@ == v@[i as int]@);
        out.push(c);
        proof {
            assert(out@ == prev.push(c));
            assert(v@.take(i + 1) =~= v@.take(i as int).push(v@[i as int]));
            assert(strings_view(out@) =~= strings_view(prev).push(c@));
            assert(strings_view(v@.take(i + 1)) =~= strings_view(v@.take(i as int)).push(v@[i as int]@));
        }
        i = i + 1;
    }
    assert(v@.take(v.len() as int) =~= v@);
    out
}

impl HookCommand {
    /// An independent copy.
    pub fn copy(&self) -> (r: HookCommand)
        ensures
            command_view(r) == command_view(*self),
    {
        HookCommand {
            command: self.command.clone(),
            args: copy_strings(&self.args),
            description: self.description.clone(),
        }
    }

    /// Render the command for display.
    pub fn display(&self) -> (r: String)
        ensures
            r@ == spec_display(command_view(*self)),
    {
        if self.args.len() == 0 {
            return self.command.clone();
        }
        let mut s = self.command.clone();
        push_str(&mut s, " ");
        let mut joined: Vec<char> = Vec::new();
        let ghost av = strings_view(self.args@);
        let mut i: usize = 0;
        while i < self.args.len()
            invariant
                i <= self.args.len(),
                av == strings_view(self.args@),
                joined@ == crate::assets::join(av.take(i as int), " "@),
            decreases self.args.len() - i,
        {
            if i > 0 {
                text::extend_str(&mut joined, " ");
            }
            text::extend_str(&mut joined, self.args[i].as_str());
            proof {
                assert(av.take(i + 1).drop_last() =~= av.take(i as int));
                if i == 0 {
                    assert(av.take(1)[0] == av[0]);
                }
            }
            i = i + 1;
        }
        assert(av.take(self.args.len() as int) =~= av);
        push_chars(&mut s, &joined);
        s
    }
}

/// Hooks of one bundle file, grouped by event.
#[derive(Clone, Debug, Default, PartialEq, Eq)]
pub struct HookBundle {
    after_file_edit: Vec<HookCommand>,
    after_agent_run: Vec<HookCommand>,
}

impl HookBundle {
    /// Commands for each event: `afterFileEdit`, then `afterAgentRun`.
    pub closed spec fn view_events(self) -> (Seq<CommandView>, Seq<CommandView>) {
        (commands_view(self.after_file_edit@), commands_view(self.after_agent_run@))
    }

    pub open spec fn spec_for_event(self, event: HookEvent) -> Seq<CommandView> {
        match event {
            HookEvent::AfterFileEdit => self.view_events().0,
            HookEvent::AfterAgentRun => self.view_events().1,
        }
    }

    /// A bundle without commands.
    pub fn new() -> (r: HookBundle)
        ensures
            r.view_events() == (Seq::<CommandView>::empty(), Seq::<CommandView>::empty()),
    {
        let r = HookBundle { after_file_edit: Vec::new(), after_agent_run: Vec::new() };
        assert(commands_view(r.after_file_edit@) =~= Seq::<CommandView>::empty());
        assert(commands_view(r.after_agent_run@) =~= Seq::<CommandView>::empty());
        r
    }

    /// Commands registered for one event.
    pub fn for_event(&self, event: HookEvent) -> (r: &Vec<HookCommand>)
        ensures
            commands_view(r@) == self.spec_for_event(event),
    {
        match event {
            HookEvent::AfterFileEdit => &self.after_file_edit,
            HookEvent::AfterAgentRun => &self.after_agent_run,
        }
    }

    /// Replace the commands of one event.
    pub fn set_event(&mut self, event: HookEvent, commands: Vec<HookCommand>)
        ensures
            final(self).spec_for_event(event) == commands_view(commands@),
            forall|e: HookEvent| e != event ==> final(self).spec_for_event(e) == old(
                self,
            ).spec_for_event(e),
    {
        match event {
            HookEvent::AfterFileEdit => {
                self.after_file_edit = commands;
            },
            HookEvent::AfterAgentRun => {
                self.after_agent_run = commands;
            },
        }
    }

    /// True when the bundle declares no commands at all.
    pub fn is_empty(&self) -> (r: bool)
        ensures
            r == (self.view_events().0.len() == 0 && self.view_events().1.len() == 0),
    {
        self.after_file_edit.len() == 0 && self.after_agent_run.len() == 0
    }

    /// Total number of commands across every event.
    pub fn len(&self) -> (r: usize)
        requires
            self.view_events().0.len() + self.view_events().1.len() <= usize::MAX,
        ensures
            r == self.view_events().0.len() + self.view_events().1.len(),
    {
        self.after_file_edit.len() + self.after_agent_run.len()
    }

    /// An independent copy.
    pub fn copy(&self) -> (r: HookBundle)
        ensures
            r.view_events() == self.view_events(),
    {
        HookBundle {
            after_file_edit: copy_commands(&self.after_file_edit),
            after_agent_run: copy_commands(&self.after_agent_run),
        }
    }
}

/// Copy of a command list.
pub fn copy_commands(v: &Vec<HookCommand>) -> (r: Vec<HookCommand>)
    ensures
        commands_view(r@) == commands_view(v@),
{
    let mut out: Vec<HookCommand> = Vec::new();
    let mut i: usize = 0;
    while i < v.len()
        invariant
            i <= v.len(),
            commands_view(out@) =~= commands_view(v@.take(i as int)),
        decreases v.len() - i,
    {
        let ghost prev = out@;
        let c = v[i].copy();
        out.push(c);
        proof {
            assert(out@ == prev.push(c));
            assert(v@.take(i + 1) =~= v@.take(i as int).push(v@[i as int]));
            assert(commands_view(out@) =~= commands_view(prev).push(command_view(c)));
            assert(commands_view(v@.take(i + 1)) =~= commands_view(v@.take(i as int)).push(command_view(v@[i as int])));
        }
        i = i + 1;
    }
    assert(v@.take(v.len() as int) =~= v@);
    out
}

// ---------------------------------------------------------------------------
// Reading a bundle
// ---------------------------------------------------------------------------
/// The event whose key is `key`, compared ignoring ASCII case. Unknown keys
/// belong to no event.
pub open spec fn event_for_key(key: Seq<char>) -> Option<HookEvent> {
    if text::eq_ignore_case("afterFileEdit"@, key) {
        Some(HookEvent::AfterFileEdit)
    } else if text::eq_ignore_case("afterAgentRun"@, key) {
        Some(HookEvent::AfterAgentRun)
    } else {
        None
    }
}

/// Each event is found again from its id, in any ASCII case:
/// the key `e.id()` of a bundle belongs to the event `e`.
pub proof fn law_event_key_round_trip(e: HookEvent)
    ensures
        event_for_key(e.spec_id()) == Some(e),
        event_for_key(text::lower(e.spec_id())) == Some(e),
{
    reveal_strlit("afterFileEdit");
    reveal_strlit("afterAgentRun");
    assert("afterFileEdit"@.len() == 13);
    assert("afterAgentRun"@.len() == 13);
    assert(text::lower("afterFileEdit"@)[5] == 'f');
    assert(text::lower("afterAgentRun"@)[5] == 'a');
    assert(text::lower(text::lower(e.spec_id())) =~= text::lower(e.spec_id()));
}

/// The string elements of a JSON array, other elements skipped.
pub open spec fn string_items(items: Seq<JsonValue>) -> Seq<Seq<char>>
    decreases items.len(),
{
    if items.len() == 0 {
        Seq::empty()
    } else {
        let rest = string_items(items.drop_last());
        match json::spec_as_str(items.last()) {
            Some(s) => rest.push(s),
            None => rest,
        }
    }
}

/// The hook command one array item declares, if its `command` is a
/// non-blank string (kept trimmed).
pub open spec fn command_of(item: JsonValue) -> Option<CommandView> {
    match json::spec_get_str(item, "command"@) {
        Some(c) => if text::trim(c).len() != 0 {
            let args = match json::spec_get(item, "args"@) {
                Some(JsonValue::Array(a)) => string_items(a@),
                _ => Seq::empty(),
            };
            let description = match json::spec_get_str(item, "description"@) {
                Some(d) => d,
                None => Seq::empty(),
            };
            Some((text::trim(c), args, description))
        } else {
            None
        },
        None => None,
    }
}

/// The commands of an event's array, items without a command dropped.
pub open spec fn commands_of(items: Seq<JsonValue>) -> Seq<CommandView>
    decreases items.len(),
{
    if items.len() == 0 {
        Seq::empty()
    } else {
        let rest = commands_of(items.drop_last());
        match command_of(items.last()) {
            Some(c) => rest.push(c),
            None => rest,
        }
    }
}

/// Fold the members of the `hooks` object: a member for a known event with a
/// non-empty command list sets that event's commands.
pub open spec fn bundle_acc(entries: Seq<(String, JsonValue)>) -> (Seq<CommandView>, Seq<CommandView>)
    decreases entries.len(),
{
    if entries.len() == 0 {
        (Seq::empty(), Seq::empty())
    } else {
        let prev = bundle_acc(entries.drop_last());
        let key = entries.last().0@;
        match event_for_key(key) {
            None => prev,
            Some(event) => match entries.last().1 {
                JsonValue::Array(items) => {
                    let cmds = commands_of(items@);
                    if cmds.len() == 0 {
                        prev
                    } else if event == HookEvent::AfterFileEdit {
                        (cmds, prev.1)
                    } else {
                        (prev.0, cmds)
                    }
                },
                _ => prev,
            },
        }
    }
}

/// The bundle a `hooks.json` document declares.
pub open spec fn spec_hook_bundle(doc: JsonValue) -> (Seq<CommandView>, Seq<CommandView>) {
    match json::spec_get(doc, "hooks"@) {
        Some(JsonValue::Object(entries)) => bundle_acc(entries@),
        _ => (Seq::empty(), Seq::empty()),
    }
}

pub(crate) fn string_items_exec(items: &Vec<JsonValue>) -> (r: Vec<String>)
    ensures
        strings_view(r@) == string_items(items@),
{
    let mut out: Vec<String> = Vec::new();
    let mut i: usize = 0;
    while i < items.len()
        invariant
            i <= items.len(),
            strings_view(out@) == string_items(items@.take(i as int)),
        decreases items.len() - i,
    {
        proof {
            assert(items@.take(i + 1).drop_last() =~= items@.take(i as int));
            assert(items@.take(i + 1).last() == items@[i as int]);
        }
        match items[i].as_str() {
            Some(s) => {
                out.push(s.clone());
                assert(strings_view(out@) =~= string_items(items@.take(i + 1)));
            },
            None => {},
        }
        i = i + 1;
    }
    assert(items@.take(items.len() as int) =~= items@);
    out
}

fn command_of_exec(item: &JsonValue) -> (r: Option<HookCommand>)
    ensures
        match command_of(*item) {
            Some(c) => r matches Some(x) && command_view(x) == c,
            None => r is None,
        },
{
    let command = match get_str(item, "command") {
        Some(c) => c,
        None => return None,
    };
    let trimmed = trim_str(command.as_str());
    if trimmed.len() == 0 {
        return None;
    }
    let args = match item.get("args") {
        Some(a) => match a.as_array() {
            Some(items) => string_items_exec(items),
            None => Vec::new(),
        },
        None => Vec::new(),
    };
    let description = match get_str(item, "description") {
        Some(d) => d,
        None => String::new(),
    };
    let r = HookCommand { command: string_of(&trimmed), args, description };
    proof {
        match json::spec_get(*item, "args"@) {
            Some(JsonValue::Array(a)) => {},
            _ => {
                assert(strings_view(r.args@) =~= Seq::<Seq<char>>::empty());
            },
        }
    }
    Some(r)
}

fn commands_of_exec(items: &Vec<JsonValue>) -> (r: Vec<HookCommand>)
    ensures
        commands_view(r@) == commands_of(items@),
{
    let mut out: Vec<HookCommand> = Vec::new();
    let mut i: usize = 0;
    while i < items.len()
        invariant
            i <= items.len(),
            commands_view(out@) == commands_of(items@.take(i as int)),
        decreases items.len() - i,
    {
        proof {
            assert(items@.take(i + 1).drop_last() =~= items@.take(i as int));
            assert(items@.take(i + 1).last() == items@[i as int]);
        }
        match command_of_exec(&items[i]) {
            Some(c) => {
                out.push(c);
                assert(commands_view(out@) =~= commands_of(items@.take(i + 1)));
            },
            None => {},
        }
        i = i + 1;
    }
    assert(items@.take(items.len() as int) =~= items@);
    out
}

fn event_for_key_exec(key: &String) -> (r: Option<HookEvent>)
    ensures
        r == event_for_key(key@),
{
    let k = chars_of(key.as_str());
    if eq_ignore_case_exec(&chars_of("afterFileEdit"), &k) {
        Some(HookEvent::AfterFileEdit)
    } else if eq_ignore_case_exec(&chars_of("afterAgentRun"), &k) {
        Some(HookEvent::AfterAgentRun)
    } else {
        None
    }
}

/// Read a parsed `hooks.json` document.
///
/// Unknown event keys are ignored so a bundle written for a newer DevForge
/// keeps working; items whose `command` is missing or blank are dropped, and
/// an event left without commands is not recorded.
pub fn hook_bundle_from_json(doc: &JsonValue) -> (r: HookBundle)
    ensures
        r.view_events() == spec_hook_bundle(*doc),
{
    let mut bundle = HookBundle::new();
    let entries = match doc.get("hooks") {
        Some(h) => match h.as_object() {
            Some(e) => e,
            None => return bundle,
        },
        None => return bundle,
    };
    let mut i: usize = 0;
    while i < entries.len()
        invariant
            i <= entries.len(),
            bundle.view_events() == bundle_acc(entries@.take(i as int)),
        decreases entries.len() - i,
    {
        proof {
            assert(entries@.take(i + 1).drop_last() =~= entries@.take(i as int));
            assert(entries@.take(i + 1).last() == entries@[i as int]);
        }
        match event_for_key_exec(&entries[i].0) {
            None => {},
            Some(event) => match entries[i].1.as_array() {
                Some(items) => {
                    let cmds = commands_of_exec(items);
                    if cmds.len() > 0 {
                        bundle.set_event(event, cmds);
                        proof {
                            let v = bundle.view_events();
                            let other = match event {
                                HookEvent::AfterFileEdit => HookEvent::AfterAgentRun,
                                HookEvent::AfterAgentRun => HookEvent::AfterFileEdit,
                            };
                            assert(bundle.spec_for_event(other) == bundle.spec_for_event(other));
                        }
                    }
                },
                None => {},
            },
        }
        i = i + 1;
    }
    assert(entries@.take(entries.len() as int) =~= entries@);
    bundle
}

// ---------------------------------------------------------------------------
// Bundles of a workspace
// ---------------------------------------------------------------------------
/// Outcome of one executed hook.
#[derive(Clone, Debug, PartialEq, Eq)]
pub struct HookOutcome {
    pub event: HookEvent,
    pub command: String,
    pub success: bool,
    /// Combined stdout/stderr, truncated for display.
    pub output: String,
    pub duration_ms: u128,
}

/// Where a hook bundle was loaded from.
#[derive(Clone, Debug, PartialEq, Eq)]
pub struct HookSource {
    pub scope: AssetScope,
    pub path: String,
    pub bundle: HookBundle,
}

pub type SourceView = (AssetScope, Seq<char>, (Seq<CommandView>, Seq<CommandView>));

pub open spec fn source_view(s: HookSource) -> SourceView {
    (s.scope, s.path@, s.bundle.view_events())
}

pub open spec fn sources_view(v: Seq<HookSource>) -> Seq<SourceView> {
    v.map_values(|s: HookSource| source_view(s))
}

/// A bundle of `out` was loaded from `path` (the same path, component by
/// component).
pub open spec fn path_taken(out: Seq<SourceView>, path: Seq<char>) -> bool {
    exists|i: int| 0 <= i < out.len() && crate::paths::spec_same_path(out[i].1, path)
}

/// The bundles of the discovered hook assets, in discovery order: disabled
/// assets, assets whose JSON did not parse (`None`), empty bundles and a path
/// already taken are skipped.
pub open spec fn spec_bundles(assets: Seq<AgentAsset>, docs: Seq<Option<JsonValue>>) -> Seq<SourceView>
    decreases assets.len(),
{
    if assets.len() == 0 || docs.len() != assets.len() {
        Seq::empty()
    } else {
        let prev = spec_bundles(assets.drop_last(), docs.drop_last());
        let a = assets.last();
        if !a.enabled || path_taken(prev, a.path@) {
            prev
        } else {
            match docs.last() {
                None => prev,
                Some(doc) => {
                    let b = spec_hook_bundle(doc);
                    if b.0.len() == 0 && b.1.len() == 0 {
                        prev
                    } else {
                        prev.push((a.scope, a.path@, b))
                    }
                },
            }
        }
    }
}

/// A bundle is empty exactly when it holds no command, counted over both
/// events, and exactly when no event has a command.
pub proof fn law_bundle_empty_iff_no_commands(b: HookBundle)
    ensures
        (b.view_events().0.len() == 0 && b.view_events().1.len() == 0) <==> b.view_events().0.len()
            + b.view_events().1.len() == 0,
        (b.view_events().0.len() == 0 && b.view_events().1.len() == 0) <==> forall|e: HookEvent|
            #[trigger] b.spec_for_event(e).len() == 0,
{
    if forall|e: HookEvent| #[trigger] b.spec_for_event(e).len() == 0 {
        assert(b.spec_for_event(HookEvent::AfterFileEdit).len() == 0);
        assert(b.spec_for_event(HookEvent::AfterAgentRun).len() == 0);
    }
}

/// Parse the text of a `hooks.json` document: refused when it is not JSON,
/// else the bundle its document declares (see [`hook_bundle_from_json`]).
pub fn parse_hook_bundle(text: &str) -> (r: Result<HookBundle, String>)
    ensures
        match json::spec_parse_json(text@) {
            None => r matches Err(e) && e@ == "parse hooks.json: not valid JSON"@,
            Some(m) => r matches Ok(b) && exists|v: JsonValue| #[trigger] json::json_model(v) == m && b.view_events()
                == spec_hook_bundle(v),
        },
{
    match json::parse_json(text) {
        Some(doc) => Ok(hook_bundle_from_json(&doc)),
        None => Err(string_of(&chars_of("parse hooks.json: not valid JSON"))),
    }
}

/// The hook bundles visible from a workspace, given its discovered hook
/// assets and, for each, the parsed JSON of its body (`None` when it did not
/// parse). Project bundles come first, as discovery lists them.
pub fn discover_bundles(assets: &Vec<AgentAsset>, docs: &Vec<Option<JsonValue>>) -> (r: Vec<
    HookSource,
>)
    requires
        assets.len() == docs.len(),
    ensures
        sources_view(r@) == spec_bundles(assets@, docs@),
{
    let mut out: Vec<HookSource> = Vec::new();
    let mut i: usize = 0;
    assert(sources_view(out@) =~= Seq::<SourceView>::empty());
    while i < assets.len()
        invariant
            i <= assets.len() == docs.len(),
            sources_view(out@) == spec_bundles(assets@.take(i as int), docs@.take(i as int)),
        decreases assets.len() - i,
    {
        proof {
            assert(assets@.take(i + 1).drop_last() =~= assets@.take(i as int));
            assert(docs@.take(i + 1).drop_last() =~= docs@.take(i as int));
            assert(assets@.take(i + 1).last() == assets@[i as int]);
            assert(docs@.take(i + 1).last() == docs@[i as int]);
        }
        let a = &assets[i];
        let ghost prev = sources_view(out@);
        if a.enabled {
            let mut taken = false;
            let mut j: usize = 0;
            while j < out.len()
                invariant
                    j <= out.len(),
                    prev == sources_view(out@),
                    taken == (exists|k: int| 0 <= k < j && crate::paths::spec_same_path(prev[k].1, a.path@)),
                decreases out.len() - j,
            {
                assert(prev[j as int].1 == out@[j as int].path@);
                if crate::paths::same_path(out[j].path.as_str(), a.path.as_str()) {
                    taken = true;
                }
                j = j + 1;
            }
            if !taken {
                match &docs[i] {
                    Some(doc) => {
                        let b = hook_bundle_from_json(doc);
                        if !b.is_empty() {
                            out.push(HookSource { scope: a.scope, path: a.path.clone(), bundle: b });
                            assert(sources_view(out@) =~= prev.push(
                                (a.scope, a.path@, spec_hook_bundle(*doc)),
                            ));
                        }
                    },
                    None => {},
                }
            }
        }
        i = i + 1;
    }
    assert(assets@.take(assets.len() as int) =~= assets@);
    assert(docs@.take(docs.len() as int) =~= docs@);
    out
}

/// The commands of `event` across the bundles, first bundle first.
pub open spec fn spec_merged(sources: Seq<SourceView>, event: HookEvent) -> Seq<CommandView>
    decreases sources.len(),
{
    if sources.len() == 0 {
        Seq::empty()
    } else {
        let b = sources.last().2;
        spec_merged(sources.drop_last(), event) + match event {
            HookEvent::AfterFileEdit => b.0,
            HookEvent::AfterAgentRun => b.1,
        }
    }
}

/// Merge every bundle into a single list of commands for one event.
pub fn merged_commands(sources: &Vec<HookSource>, event: HookEvent) -> (r: Vec<HookCommand>)
    ensures
        commands_view(r@) == spec_merged(sources_view(sources@), event),
{
    let ghost sv = sources_view(sources@);
    let mut out: Vec<HookCommand> = Vec::new();
    let mut i: usize = 0;
    assert(commands_view(out@) =~= Seq::<CommandView>::empty());
    while i < sources.len()
        invariant
            i <= sources.len(),
            sv == sources_view(sources@),
            commands_view(out@) == spec_merged(sv.take(i as int), event),
        decreases sources.len() - i,
    {
        proof {
            assert(sv.take(i + 1).drop_last() =~= sv.take(i as int));
            assert(sv.take(i + 1).last() == sv[i as int]);
        }
        let cmds = sources[i].bundle.for_event(event);
        let mut j: usize = 0;
        let ghost before = commands_view(out@);
        while j < cmds.len()
            invariant
                j <= cmds.len(),
                commands_view(out@) =~= before + commands_view(cmds@).take(j as int),
            decreases cmds.len() - j,
        {
            let ghost p = out@;
            let c = cmds[j].copy();
            out.push(c);
            proof {
                assert(out@ == p.push(c));
                assert(commands_view(out@) =~= commands_view(p).push(command_view(c)));
                assert(commands_view(cmds@).take(j + 1) =~= commands_view(cmds@).take(j as int).push(
                    command_view(cmds@[j as int]),
                ));
            }
            j = j + 1;
        }
        assert(commands_view(cmds@).take(cmds.len() as int) =~= commands_view(cmds@));
        i = i + 1;
    }
    assert(sv.take(sources.len() as int) =~= sv);
    out
}

// ---------------------------------------------------------------------------
// Running
// ---------------------------------------------------------------------------
/// Maximum wall-clock time a single hook may run, in seconds.
pub const HOOK_TIMEOUT_SECS: u64 = 60;

/// Maximum characters of hook output kept for display.
pub const MAX_HOOK_OUTPUT_CHARS: usize = 4000;

/// Text cut to `max` characters; a longer text keeps its first `max`
/// characters followed by a note of how many were left out.
pub open spec fn spec_truncate_chars(s: Seq<char>, max: nat) -> Seq<char> {
    if s.len() <= max {
        s
    } else {
        s.take(max as int) + "\n… ("@ + text::decimal((s.len() - max) as nat)
            + " more characters omitted)"@
    }
}

/// Cut `text` to `max` characters, noting how many were omitted.
pub fn truncate_chars(text: &str, max: usize) -> (r: String)
    ensures
        r@ == spec_truncate_chars(text@, max as nat),
{
    let v = chars_of(text);
    if v.len() <= max {
        return string_of(&v);
    }
    let head = text::slice_of(&v, 0, max);
    let mut s = string_of(&head);
    push_str(&mut s, "\n… (");
    let omitted = decimal_exec((v.len() - max) as u128);
    push_chars(&mut s, &omitted);
    push_str(&mut s, " more characters omitted)");
    s
}

/// Hook output as kept for display.
pub fn truncate(text: String) -> (r: String)
    ensures
        r@ == spec_truncate_chars(text@, MAX_HOOK_OUTPUT_CHARS as nat),
{
    truncate_chars(text.as_str(), MAX_HOOK_OUTPUT_CHARS)
}

/// Runs hooks for a workspace. Hooks spawn local processes, so a runner only
/// plans work when it was created enabled by an explicit user setting.
#[derive(Clone, Debug)]
pub struct HookRunner {
    root: String,
    enabled: bool,
}

impl HookRunner {
    pub closed spec fn spec_root(self) -> Seq<char> {
        self.root@
    }

    pub closed spec fn spec_enabled(self) -> bool {
        self.enabled
    }

    /// Create a runner for the workspace at `root`.
    pub fn new(root: String, enabled: bool) -> (r: HookRunner)
        ensures
            r.spec_root() == root@,
            r.spec_enabled() == enabled,
    {
        HookRunner { root, enabled }
    }

    /// Whether hooks are allowed to execute.
    pub fn is_enabled(&self) -> (r: bool)
        ensures
            r == self.spec_enabled(),
    {
        self.enabled
    }

    /// Workspace root used as the working directory for hook processes.
    pub fn root(&self) -> (r: &str)
        ensures
            r@ == self.spec_root(),
    {
        self.root.as_str()
    }

    /// The commands registered for `event` across `sources` (the bundles of
    /// the runner's workspace), first bundle first; listed whether or not the
    /// runner is enabled.
    pub fn commands(&self, sources: &Vec<HookSource>, event: HookEvent) -> (r: Vec<HookCommand>)
        ensures
            commands_view(r@) == spec_merged(sources_view(sources@), event),
    {
        merged_commands(sources, event)
    }

    /// The hooks a run executes, in declaration order: every registered
    /// command when enabled, none when disabled.
    pub fn planned(&self, registered: Vec<HookCommand>) -> (r: Vec<HookCommand>)
        ensures
            self.spec_enabled() ==> commands_view(r@) == commands_view(registered@),
            !self.spec_enabled() ==> r@.len() == 0,
    {
        if !self.enabled {
            return Vec::new();
        }
        registered
    }

    /// The outcome of running one hook, given what spawning it in the
    /// workspace root gave: `Ok((exit status success, combined output))`, or
    /// `Err(message)` when it could not be run at all. A failure is reported,
    /// never raised. A disabled runner refuses: its outcome is a failure that
    /// says so, whatever `spawned` holds, and the caller spawns nothing.
    pub fn run_one(
        &self,
        event: HookEvent,
        hook: &HookCommand,
        spawned: Result<(bool, String), String>,
        duration_ms: u128,
    ) -> (r: HookOutcome)
        ensures
            r.event == event,
            r.command@ == spec_display(command_view(*hook)),
            r.duration_ms == duration_ms,
            !self.spec_enabled() ==> !r.success && r.output@ == "hooks are disabled"@,
            self.spec_enabled() ==> match spawned {
                Ok((success, output)) => r.success == success && r.output@ == spec_truncate_chars(
                    output@,
                    MAX_HOOK_OUTPUT_CHARS as nat,
                ),
                Err(e) => !r.success && r.output@ == spec_truncate_chars(
                    "failed to run hook: "@ + e@,
                    MAX_HOOK_OUTPUT_CHARS as nat,
                ),
            },
    {
        if !self.enabled {
            return HookOutcome {
                event,
                command: hook.display(),
                success: false,
                output: string_of(&chars_of("hooks are disabled")),
                duration_ms,
            };
        }
        match spawned {
            Ok((success, output)) => HookOutcome {
                event,
                command: hook.display(),
                success,
                output: truncate(output),
                duration_ms,
            },
            Err(e) => {
                let mut msg = String::new();
                push_str(&mut msg, "failed to run hook: ");
                push_str(&mut msg, e.as_str());
                HookOutcome {
                    event,
                    command: hook.display(),
                    success: false,
                    output: truncate(msg),
                    duration_ms,
                }
            },
        }
    }
}

} // verus!
