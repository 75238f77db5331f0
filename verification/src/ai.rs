//! Chat data of the AI panel: conversations, messages and agent steps, and
//! the text the panel derives from them (titles, step summaries, verbs).
use base64::Engine;
use vstd::prelude::*;

use crate::json;
use crate::mcp::{self, find_double_underscore, McpServerSpec};
use crate::ai_providers::McpServerConfig;
use crate::mode::AgentMode;
use crate::paths::{self, path_extension, path_file_name, path_strip_prefix};
use crate::provider::{AgentEvent, Role};
use crate::runtime::HistoryTurn;
use crate::text::{self, chars_of, string_of, slice_of, starts_with_exec, str_eq, push_str, push_chars, lines_exec, trim_exec, decimal_exec, chars_eq_str};

verus! {

/// What a file attached to a prompt holds.
#[derive(Clone, Copy, Debug, PartialEq, Eq, Structural)]
pub enum AiAttachmentKind {
    Image,
    Text,
    Document,
    Directory,
}

/// A file or folder attached to a prompt.
#[derive(Clone, Debug)]
pub struct AiAttachment {
    pub path: String,
    pub kind: AiAttachmentKind,
    pub name: String,
}

#[derive(Clone, Copy, Debug, PartialEq, Eq, Structural)]
pub enum AiChatRole {
    User,
    Assistant,
    System,
    Activity,
}

impl AiChatRole {
    pub open spec fn spec_key(self) -> u8 {
        match self {
            AiChatRole::User => 0,
            AiChatRole::Assistant => 1,
            AiChatRole::System => 2,
            AiChatRole::Activity => 3,
        }
    }

    /// A small number identifying the role (for list keys).
    pub fn key(&self) -> (r: u8)
        ensures
            r == self.spec_key(),
    {
        match self {
            AiChatRole::User => 0,
            AiChatRole::Assistant => 1,
            AiChatRole::System => 2,
            AiChatRole::Activity => 3,
        }
    }
}

/// How an agent step (tool / MCP call) finished, used for the step icon + tint.
#[derive(Clone, Copy, Debug, PartialEq, Eq, Structural)]
pub enum AiStepState {
    Running,
    Done,
    Failed,
    Skipped,
}

/// One observable agent step: a tool/MCP call plus what it returned.
#[derive(Clone, Debug)]
pub struct AiAgentStep {
    pub name: String,
    pub arguments: String,
    pub output: String,
    pub state: AiStepState,
    pub is_mcp: bool,
    /// Files touched by this step (for file tools), rendered as chips.
    pub files: Vec<String>,
}

pub open spec fn strings_view(v: Seq<String>) -> Seq<Seq<char>> {
    v.map_values(|s: String| s@)
}

/// The tools whose `path` argument names a file the step touches.
pub open spec fn is_file_tool(name: Seq<char>) -> bool {
    name == "read_file"@ || name == "write_file"@ || name == "str_replace"@ || name
        == "create_directory"@
}

/// The files a step touches: the `path` argument of a file tool, when the
/// arguments are JSON text (as serde_json reads it) of an object with a
/// string `path`.
pub open spec fn spec_touched_files(name: Seq<char>, arguments: Seq<char>) -> Seq<Seq<char>> {
    if is_file_tool(name) {
        match json::spec_parse_json(arguments) {
            Some(m) => match json::model_get_str(m, "path"@) {
                Some(p) => seq![p],
                None => Seq::empty(),
            },
            None => Seq::empty(),
        }
    } else {
        Seq::empty()
    }
}

/// Best-effort extraction of `path`-like arguments for file chips.
pub fn touched_files(name: &str, arguments: &str) -> (r: Vec<String>)
    ensures
        strings_view(r@) == spec_touched_files(name@, arguments@),
{
    if !(str_eq(name, "read_file") || str_eq(name, "write_file") || str_eq(name, "str_replace")
        || str_eq(name, "create_directory")) {
        let r: Vec<String> = Vec::new();
        assert(strings_view(r@) =~= Seq::<Seq<char>>::empty());
        return r;
    }
    let path = match json::parse_json(arguments) {
        Some(v) => {
            proof {
                json::lemma_model_get_str(v, "path"@);
            }
            json::get_str(&v, "path")
        },
        None => None,
    };
    match path {
        Some(p) => {
            let r = vec![p];
            assert(strings_view(r@) =~= seq![r@[0]@]);
            r
        },
        None => {
            let r: Vec<String> = Vec::new();
            assert(strings_view(r@) =~= Seq::<Seq<char>>::empty());
            r
        },
    }
}

impl AiAgentStep {
    /// A running step for a call of `name` with `arguments`.
    pub fn new(name: String, arguments: String, is_mcp: bool) -> (r: Self)
        ensures
            r.name@ == name@,
            r.arguments@ == arguments@,
            r.output@ == Seq::<char>::empty(),
            r.state == AiStepState::Running,
            r.is_mcp == is_mcp,
            strings_view(r.files@) == spec_touched_files(name@, arguments@),
    {
        let files = touched_files(name.as_str(), arguments.as_str());
        AiAgentStep { files, name, arguments, output: String::new(), state: AiStepState::Running, is_mcp }
    }
}

/// The second `__`-separated part of `rest` (what `split("__").nth(1)` gives).
pub open spec fn mcp_sub_name(rest: Seq<char>) -> Option<Seq<char>> {
    match mcp::first_double_underscore(rest) {
        Some(i) => {
            let after = rest.skip(i + 2);
            match mcp::first_double_underscore(after) {
                Some(j) => Some(after.take(j)),
                None => Some(after),
            }
        },
        None => None,
    }
}

/// Verb of an MCP tool, from what follows `mcp__`.
pub open spec fn spec_mcp_verb(rest: Seq<char>) -> Seq<char> {
    match mcp_sub_name(rest) {
        Some(sub) => if sub == "list_tables"@ {
            "List tables"@
        } else if sub == "describe_table"@ {
            "Inspect table"@
        } else if sub == "execute_query"@ {
            "Run query"@
        } else {
            "MCP call"@
        },
        None => "MCP call"@,
    }
}

/// Verb of a workspace tool.
pub open spec fn spec_plain_verb(name: Seq<char>) -> Seq<char> {
    if name == "read_file"@ {
        "Read file"@
    } else if name == "list_directory"@ {
        "List directory"@
    } else if name == "get_project_structure"@ {
        "Map project"@
    } else if name == "search_code"@ {
        "Search code"@
    } else if name == "write_file"@ {
        "Write file"@
    } else if name == "str_replace"@ {
        "Edit file"@
    } else if name == "create_directory"@ {
        "Create directory"@
    } else {
        "Tool call"@
    }
}

/// Human-readable verb for a tool name.
pub open spec fn spec_tool_verb(name: Seq<char>) -> Seq<char> {
    if text::starts_with(name, "mcp__"@) {
        spec_mcp_verb(name.skip(5))
    } else {
        spec_plain_verb(name)
    }
}

fn mcp_sub_exec(rest: &Vec<char>) -> (r: Option<Vec<char>>)
    ensures
        match r {
            Some(v) => mcp_sub_name(rest@) == Some(v@),
            None => mcp_sub_name(rest@) is None,
        },
{
    let i = match find_double_underscore(rest) {
        Some(i) => i,
        None => return None,
    };
    let after = slice_of(rest, i + 2, rest.len());
    assert(after@ =~= rest@.skip(i + 2));
    match find_double_underscore(&after) {
        Some(j) => {
            let s = slice_of(&after, 0, j);
            assert(s@ =~= after@.take(j as int));
            Some(s)
        },
        None => Some(after),
    }
}

fn mcp_verb(rest: &Vec<char>) -> (r: &'static str)
    ensures
        r@ == spec_mcp_verb(rest@),
{
    match mcp_sub_exec(rest) {
        Some(sub) => {
            if chars_eq_str(&sub, "list_tables") {
                "List tables"
            } else if chars_eq_str(&sub, "describe_table") {
                "Inspect table"
            } else if chars_eq_str(&sub, "execute_query") {
                "Run query"
            } else {
                "MCP call"
            }
        },
        None => "MCP call",
    }
}

fn plain_verb(name: &str) -> (r: &'static str)
    ensures
        r@ == spec_plain_verb(name@),
{
    if str_eq(name, "read_file") {
        "Read file"
    } else if str_eq(name, "list_directory") {
        "List directory"
    } else if str_eq(name, "get_project_structure") {
        "Map project"
    } else if str_eq(name, "search_code") {
        "Search code"
    } else if str_eq(name, "write_file") {
        "Write file"
    } else if str_eq(name, "str_replace") {
        "Edit file"
    } else if str_eq(name, "create_directory") {
        "Create directory"
    } else {
        "Tool call"
    }
}

/// Human-readable verb for a tool name (`Read file`, `Edit file`, ...).
pub fn tool_verb(name: &str) -> (r: &'static str)
    ensures
        r@ == spec_tool_verb(name@),
{
    let v = chars_of(name);
    if starts_with_exec(&v, &chars_of("mcp__")) {
        proof {
            reveal_strlit("mcp__");
        }
        let rest = slice_of(&v, 5, v.len());
        assert(rest@ =~= name@.skip(5));
        mcp_verb(&rest)
    } else {
        plain_verb(name)
    }
}

/// `<verb> · <first touched file>`, or the verb alone.
pub open spec fn spec_step_summary(name: Seq<char>, files: Seq<Seq<char>>) -> Seq<char> {
    if files.len() > 0 {
        spec_tool_verb(name) + " · "@ + files[0]
    } else {
        spec_tool_verb(name)
    }
}

/// Compact one-line summary of a step, e.g. ``Edit file · src/main.rs``.
pub fn step_summary(step: &AiAgentStep) -> (r: String)
    ensures
        r@ == spec_step_summary(step.name@, strings_view(step.files@)),
{
    let verb = tool_verb(step.name.as_str());
    let mut out = String::new();
    push_str(&mut out, verb);
    if step.files.len() > 0 {
        push_str(&mut out, " · ");
        push_str(&mut out, step.files[0].as_str());
    }
    out
}

/// One entry of a conversation.
#[derive(Clone, Debug)]
pub struct AiChatMessage {
    pub role: AiChatRole,
    pub content: String,
    pub attachments: Vec<String>,
    /// Populated for `AiChatRole::Activity` messages produced by tool calls.
    pub step: Option<AiAgentStep>,
}

impl AiChatMessage {
    pub fn new(role: AiChatRole, content: String) -> (r: Self)
        ensures
            r.role == role,
            r.content@ == content@,
            r.attachments@.len() == 0,
            r.step is None,
    {
        AiChatMessage { role, content, attachments: Vec::new(), step: None }
    }
}

/// A saved chat.
#[derive(Clone, Debug)]
pub struct AiConversation {
    pub id: String,
    pub title: String,
    pub mode: String,
    pub model: String,
    pub messages: Vec<AiChatMessage>,
    pub updated_at: u64,
}

/// Seconds since the Unix epoch (0 when the clock is before it).
#[verifier::external_body]
pub(crate) fn now_secs() -> (r: u64) {
    match std::time::SystemTime::now().duration_since(std::time::UNIX_EPOCH) {
        Ok(d) => d.as_secs(),
        Err(_) => 0,
    }
}

/// Nanoseconds since the Unix epoch (0 when the clock is before it).
#[verifier::external_body]
pub(crate) fn now_secs_nanos() -> (r: u128) {
    match std::time::SystemTime::now().duration_since(std::time::UNIX_EPOCH) {
        Ok(d) => d.as_nanos(),
        Err(_) => 0,
    }
}

pub open spec fn conversation_id(nanos: nat) -> Seq<char> {
    "chat-"@ + text::decimal(nanos)
}

impl AiConversation {
    /// An empty chat titled `New chat`, identified by the clock reading
    /// `nanos` and stamped `secs`.
    pub fn new_at(mode: AgentMode, model: String, nanos: u128, secs: u64) -> (r: Self)
        ensures
            r.id@ == conversation_id(nanos as nat),
            r.title@ == "New chat"@,
            r.mode@ == mode.spec_as_str(),
            r.model@ == model@,
            r.messages@.len() == 0,
            r.updated_at == secs,
    {
        let mut id = String::new();
        push_str(&mut id, "chat-");
        push_chars(&mut id, &decimal_exec(nanos));
        let mut title = String::new();
        push_str(&mut title, "New chat");
        let mut m = String::new();
        push_str(&mut m, mode.as_str());
        AiConversation { id, title, mode: m, model, messages: Vec::new(), updated_at: secs }
    }

    /// An empty chat stamped with the current time.
    pub fn new(mode: AgentMode, model: String) -> (r: Self)
        ensures
            exists|n: nat| r.id@ == #[trigger] conversation_id(n),
            r.title@ == "New chat"@,
            r.mode@ == mode.spec_as_str(),
            r.model@ == model@,
            r.messages@.len() == 0,
    {
        let nanos = now_secs_nanos();
        let secs = now_secs();
        let r = AiConversation::new_at(mode, model, nanos, secs);
        assert(r.id@ == conversation_id(nanos as nat));
        r
    }
}

/// The first message written by the user.
pub open spec fn first_user(msgs: Seq<AiChatMessage>) -> Option<AiChatMessage>
    decreases msgs.len(),
{
    if msgs.len() == 0 {
        None
    } else if msgs[0].role == AiChatRole::User {
        Some(msgs[0])
    } else {
        first_user(msgs.drop_first())
    }
}

/// Longest title, in characters, before it is cut and ends with `…`.
pub const TITLE_MAX_CHARS: usize = 42;

/// The title a prompt gives a chat: its first line, trimmed, cut to 42
/// characters with `…` appended when longer; `New chat` when that is empty.
pub open spec fn title_of(content: Seq<char>) -> Seq<char> {
    let ls = text::lines(content);
    let t = text::trim(if ls.len() > 0 { ls[0] } else { "New chat"@ });
    let s = if t.len() > 42 { t.take(42).push('…') } else { t };
    if s.len() == 0 { "New chat"@ } else { s }
}

pub open spec fn spec_derive_title(msgs: Seq<AiChatMessage>) -> Seq<char> {
    match first_user(msgs) {
        Some(m) => title_of(m.content@),
        None => "New chat"@,
    }
}

/// A chat title is never empty and holds at most 43 characters (42 kept and
/// a trailing ellipsis when the first line was longer).
pub proof fn law_title_bounds(msgs: Seq<AiChatMessage>)
    ensures
        0 < spec_derive_title(msgs).len() <= 43,
{
    reveal_strlit("New chat");
    assert("New chat"@.len() == 8);
}

/// The header title of the active chat is never blank.
pub proof fn law_active_title_not_blank(list: Seq<AiConversation>, active_id: Seq<char>)
    ensures
        text::trim(spec_active_title(list, active_id)).len() > 0,
{
    reveal_strlit("New chat");
    let s = "New chat"@;
    assert(s.len() == 8);
    text::lemma_lead_ws(s, 0);
    text::lemma_trail_ws(s, 0);
    assert(text::trim_start(s) =~= s);
    assert(text::trim(s).len() == 8);
}

fn title_from_content(content: &str) -> (r: String)
    ensures
        r@ == title_of(content@),
{
    let ls = lines_exec(&chars_of(content));
    let first = if ls.len() > 0 {
        assert(ls@.map_values(|p: Vec<char>| p@)[0] == ls@[0]@);
        slice_of(&ls[0], 0, ls[0].len())
    } else {
        chars_of("New chat")
    };
    assert(first@ =~= (if text::lines(content@).len() > 0 { text::lines(content@)[0] } else { "New chat"@ }));
    let t = trim_exec(&first);
    let s = if t.len() > TITLE_MAX_CHARS {
        let mut c = slice_of(&t, 0, TITLE_MAX_CHARS);
        c.push('…');
        assert(c@ =~= t@.take(42).push('…'));
        c
    } else {
        t
    };
    if s.len() == 0 {
        string_of(&chars_of("New chat"))
    } else {
        string_of(&s)
    }
}

/// The title of a chat: from the first user message, else `New chat`.
pub fn derive_title(msgs: &[AiChatMessage]) -> (r: String)
    ensures
        r@ == spec_derive_title(msgs@),
{
    let mut i: usize = 0;
    assert(msgs@.skip(0) =~= msgs@);
    while i < msgs.len()
        invariant
            i <= msgs.len(),
            first_user(msgs@.skip(i as int)) == first_user(msgs@),
        decreases msgs.len() - i,
    {
        assert(msgs@.skip(i as int)[0] == msgs@[i as int]);
        assert(msgs@.skip(i as int).drop_first() =~= msgs@.skip(i + 1));
        if msgs[i].role == AiChatRole::User {
            return title_from_content(msgs[i].content.as_str());
        }
        i = i + 1;
    }
    assert(msgs@.skip(i as int) =~= Seq::<AiChatMessage>::empty());
    string_of(&chars_of("New chat"))
}

/// The first conversation with the given id.
pub open spec fn find_conversation(list: Seq<AiConversation>, id: Seq<char>) -> Option<AiConversation>
    decreases list.len(),
{
    if list.len() == 0 {
        None
    } else if list[0].id@ == id {
        Some(list[0])
    } else {
        find_conversation(list.drop_first(), id)
    }
}

/// The title shown for the active chat: its stored title unless blank,
/// else `New chat`.
pub open spec fn spec_active_title(list: Seq<AiConversation>, active_id: Seq<char>) -> Seq<char> {
    match find_conversation(list, active_id) {
        Some(c) => if text::trim(c.title@).len() > 0 { c.title@ } else { "New chat"@ },
        None => "New chat"@,
    }
}

/// Title to show for the active chat in the header dropdown.
pub fn active_title_from(list: &[AiConversation], active_id: &str) -> (r: String)
    ensures
        r@ == spec_active_title(list@, active_id@),
{
    let mut i: usize = 0;
    assert(list@.skip(0) =~= list@);
    while i < list.len()
        invariant
            i <= list.len(),
            find_conversation(list@.skip(i as int), active_id@) == find_conversation(list@, active_id@),
        decreases list.len() - i,
    {
        assert(list@.skip(i as int)[0] == list@[i as int]);
        assert(list@.skip(i as int).drop_first() =~= list@.skip(i + 1));
        if str_eq(list[i].id.as_str(), active_id) {
            let t = trim_exec(&chars_of(list[i].title.as_str()));
            if t.len() > 0 {
                return string_of(&chars_of(list[i].title.as_str()));
            } else {
                return string_of(&chars_of("New chat"));
            }
        }
        i = i + 1;
    }
    assert(list@.skip(i as int) =~= Seq::<AiConversation>::empty());
    string_of(&chars_of("New chat"))
}

/// A prompt waiting for the running chat to finish.
#[derive(Clone, Debug)]
pub struct QueuedPrompt {
    pub id: String,
    pub prompt: String,
    pub attachments: Vec<AiAttachment>,
}


/// Footer label for the number of files the chat touched: nothing for none,
/// `1 File`, else `<n> Files`.
pub open spec fn spec_touched_count(n: nat) -> Seq<char> {
    if n == 0 {
        Seq::empty()
    } else if n == 1 {
        "1 File"@
    } else {
        text::decimal(n) + " Files"@
    }
}

pub fn format_touched_count(n: usize) -> (r: String)
    ensures
        r@ == spec_touched_count(n as nat),
{
    let mut out = String::new();
    if n == 0 {
    } else if n == 1 {
        push_str(&mut out, "1 File");
    } else {
        push_chars(&mut out, &decimal_exec(n as u128));
        push_str(&mut out, " Files");
    }
    out
}

/// Shortcut hint shown next to the Stop action: `⌘⌫` on macOS, else `Ctrl+⌫`.
pub fn stop_shortcut_for(macos: bool) -> (r: &'static str)
    ensures
        r@ == (if macos { "⌘⌫"@ } else { "Ctrl+⌫"@ }),
{
    if macos {
        "⌘⌫"
    } else {
        "Ctrl+⌫"
    }
}


// ---------------------------------------------------------------------------
// Attachments
// ---------------------------------------------------------------------------
/// Largest text file attached inline, in bytes.
pub const MAX_TEXT_ATTACH_BYTES: u64 = 512_000;

/// Largest image attached, in bytes.
pub const MAX_IMAGE_ATTACH_BYTES: u64 = 4_000_000;

/// Whether a file of `len` bytes is too large to attach as `kind`.
pub fn attachment_too_large(kind: AiAttachmentKind, len: u64) -> (r: bool)
    ensures
        r == match kind {
            AiAttachmentKind::Image => len > MAX_IMAGE_ATTACH_BYTES,
            AiAttachmentKind::Text | AiAttachmentKind::Document => len > MAX_TEXT_ATTACH_BYTES,
            AiAttachmentKind::Directory => false,
        },
{
    match kind {
        AiAttachmentKind::Image => len > MAX_IMAGE_ATTACH_BYTES,
        AiAttachmentKind::Text | AiAttachmentKind::Document => len > MAX_TEXT_ATTACH_BYTES,
        AiAttachmentKind::Directory => false,
    }
}

pub open spec fn ext_lower(path: Seq<char>) -> Seq<char> {
    match paths::spec_extension(path) {
        Some(e) => text::lower(e),
        None => Seq::empty(),
    }
}

fn ext_lower_exec(path: &str) -> (r: Vec<char>)
    ensures
        r@ == ext_lower(path@),
{
    match path_extension(path) {
        Some(e) => text::lower_exec(&chars_of(e.as_str())),
        None => Vec::new(),
    }
}

/// What an attachment is, by its extension (ASCII case ignored), unless it
/// is a directory.
pub open spec fn spec_classify(path: Seq<char>, is_dir: bool) -> AiAttachmentKind {
    let e = ext_lower(path);
    if is_dir {
        AiAttachmentKind::Directory
    } else if e == "png"@ || e == "jpg"@ || e == "jpeg"@ || e == "gif"@ || e == "webp"@ || e == "bmp"@ {
        AiAttachmentKind::Image
    } else if e == "pdf"@ || e == "doc"@ || e == "docx"@ || e == "odt"@ || e == "rtf"@ || e == "epub"@ {
        AiAttachmentKind::Document
    } else {
        AiAttachmentKind::Text
    }
}

/// The extensions of image attachments.
pub open spec fn image_extensions() -> Seq<Seq<char>> {
    seq!["png"@, "jpg"@, "jpeg"@, "gif"@, "webp"@, "bmp"@]
}

/// The extensions of document attachments.
pub open spec fn document_extensions() -> Seq<Seq<char>> {
    seq!["pdf"@, "doc"@, "docx"@, "odt"@, "rtf"@, "epub"@]
}

/// An attachment is classified by the table of extensions, ASCII case
/// ignored: a directory is a directory; else an extension among
/// `png jpg jpeg gif webp bmp` makes an image, one among
/// `pdf doc docx odt rtf epub` a document, and anything else (or none) text.
pub proof fn law_classify_by_extension(path: Seq<char>, is_dir: bool)
    ensures
        is_dir ==> spec_classify(path, is_dir) == AiAttachmentKind::Directory,
        !is_dir && (paths::spec_extension(path) matches Some(e) && image_extensions().contains(text::lower(e)))
            ==> spec_classify(path, is_dir) == AiAttachmentKind::Image,
        !is_dir && (paths::spec_extension(path) matches Some(e) && document_extensions().contains(text::lower(e)))
            ==> spec_classify(path, is_dir) == AiAttachmentKind::Document,
        !is_dir && (paths::spec_extension(path) matches Some(e) && !image_extensions().contains(text::lower(e))
            && !document_extensions().contains(text::lower(e))) ==> spec_classify(path, is_dir) == AiAttachmentKind::Text,
        !is_dir && paths::spec_extension(path) is None ==> spec_classify(path, is_dir) == AiAttachmentKind::Text,
{
    reveal_strlit("png");
    reveal_strlit("jpg");
    reveal_strlit("jpeg");
    reveal_strlit("gif");
    reveal_strlit("webp");
    reveal_strlit("bmp");
    reveal_strlit("pdf");
    reveal_strlit("doc");
    reveal_strlit("docx");
    reveal_strlit("odt");
    reveal_strlit("rtf");
    reveal_strlit("epub");
    let im = image_extensions();
    let dm = document_extensions();
    assert(im[0] == "png"@ && im[1] == "jpg"@ && im[2] == "jpeg"@ && im[3] == "gif"@ && im[4] == "webp"@ && im[5] == "bmp"@);
    assert(dm[0] == "pdf"@ && dm[1] == "doc"@ && dm[2] == "docx"@ && dm[3] == "odt"@ && dm[4] == "rtf"@ && dm[5] == "epub"@);
    // No document extension is an image extension: they differ in length or in one of their first two letters.
    assert forall|i: int, j: int| 0 <= i < 6 && 0 <= j < 6 implies #[trigger] dm[i] != #[trigger] im[j] by {
        if dm[i].len() == im[j].len() && dm[i][0] == im[j][0] {
            assert(dm[i][1] != im[j][1]);
        } else if dm[i].len() == im[j].len() {
            assert(dm[i][0] != im[j][0]);
        }
    }
    if paths::spec_extension(path) is None {
        assert(ext_lower(path) =~= Seq::<char>::empty());
    }
}

pub fn classify_attachment(path: &str, is_dir: bool) -> (r: AiAttachmentKind)
    ensures
        r == spec_classify(path@, is_dir),
{
    if is_dir {
        return AiAttachmentKind::Directory;
    }
    let e = ext_lower_exec(path);
    if chars_eq_str(&e, "png") || chars_eq_str(&e, "jpg") || chars_eq_str(&e, "jpeg") || chars_eq_str(&e, "gif")
        || chars_eq_str(&e, "webp") || chars_eq_str(&e, "bmp") {
        AiAttachmentKind::Image
    } else if chars_eq_str(&e, "pdf") || chars_eq_str(&e, "doc") || chars_eq_str(&e, "docx") || chars_eq_str(&e, "odt")
        || chars_eq_str(&e, "rtf") || chars_eq_str(&e, "epub") {
        AiAttachmentKind::Document
    } else {
        AiAttachmentKind::Text
    }
}

/// The MIME type of an image, by its extension (JPEG when unknown).
pub open spec fn spec_mime(path: Seq<char>) -> Seq<char> {
    let e = ext_lower(path);
    if e == "png"@ {
        "image/png"@
    } else if e == "gif"@ {
        "image/gif"@
    } else if e == "webp"@ {
        "image/webp"@
    } else if e == "bmp"@ {
        "image/bmp"@
    } else {
        "image/jpeg"@
    }
}

/// The MIME type of an image attachment is `image/` followed by its
/// lower-cased extension for `png`, `gif`, `webp` and `bmp`, and
/// `image/jpeg` for `jpg`, `jpeg` and anything else.
pub proof fn law_mime_by_extension(path: Seq<char>)
    ensures
        (paths::spec_extension(path) matches Some(e) && seq!["png"@, "gif"@, "webp"@, "bmp"@].contains(text::lower(e)))
            ==> spec_mime(path) == "image/"@ + ext_lower(path),
        !(paths::spec_extension(path) matches Some(e) && seq!["png"@, "gif"@, "webp"@, "bmp"@].contains(
            text::lower(e),
        )) ==> spec_mime(path) == "image/jpeg"@,
{
    reveal_strlit("png");
    reveal_strlit("gif");
    reveal_strlit("webp");
    reveal_strlit("bmp");
    reveal_strlit("image/");
    reveal_strlit("image/png");
    reveal_strlit("image/gif");
    reveal_strlit("image/webp");
    reveal_strlit("image/bmp");
    let t = seq!["png"@, "gif"@, "webp"@, "bmp"@];
    assert(t[0] == "png"@ && t[1] == "gif"@ && t[2] == "webp"@ && t[3] == "bmp"@);
    assert("image/"@ + "png"@ =~= "image/png"@);
    assert("image/"@ + "gif"@ =~= "image/gif"@);
    assert("image/"@ + "webp"@ =~= "image/webp"@);
    assert("image/"@ + "bmp"@ =~= "image/bmp"@);
    if paths::spec_extension(path) is None {
        assert(ext_lower(path) =~= Seq::<char>::empty());
    }
}

pub fn mime_for_image(path: &str) -> (r: &'static str)
    ensures
        r@ == spec_mime(path@),
{
    let e = ext_lower_exec(path);
    if chars_eq_str(&e, "png") {
        "image/png"
    } else if chars_eq_str(&e, "gif") {
        "image/gif"
    } else if chars_eq_str(&e, "webp") {
        "image/webp"
    } else if chars_eq_str(&e, "bmp") {
        "image/bmp"
    } else {
        "image/jpeg"
    }
}

/// The name an attachment is cited by: its path relative to the workspace
/// (the whole path outside it), or its file name when that is empty.
pub open spec fn spec_citation_label(path: Seq<char>, workspace: Option<Seq<char>>) -> Seq<char> {
    let rel = match workspace {
        Some(root) => match paths::spec_strip_prefix(path, root) {
            Some(r) => r,
            None => path,
        },
        None => path,
    };
    if rel.len() == 0 {
        match paths::spec_file_name(path) {
            Some(n) => n,
            None => path,
        }
    } else {
        rel
    }
}

pub fn citation_label(path: &str, workspace: Option<&str>) -> (r: String)
    ensures
        r@ == spec_citation_label(path@, match workspace { Some(w) => Some(w@), None => None }),
{
    let rel = match workspace {
        Some(root) => match path_strip_prefix(path, root) {
            Some(r) => r,
            None => string_of(&chars_of(path)),
        },
        None => string_of(&chars_of(path)),
    };
    if chars_of(rel.as_str()).len() == 0 {
        match path_file_name(path) {
            Some(n) => n,
            None => string_of(&chars_of(path)),
        }
    } else {
        rel
    }
}

/// The digit of the standard base64 alphabet for the six-bit value `v`:
/// `A`-`Z`, `a`-`z`, `0`-`9`, `+`, `/`.
pub open spec fn b64_digit(v: int) -> char {
    if v < 26 {
        ('A' as int + v) as char
    } else if v < 52 {
        ('a' as int + v - 26) as char
    } else if v < 62 {
        ('0' as int + v - 52) as char
    } else if v == 62 {
        '+'
    } else {
        '/'
    }
}

/// Standard base64 with padding (RFC 4648): each group of three bytes gives
/// four digits of six bits each, high bits first; a last group of one or two
/// bytes gives two or three digits and is padded with `=` to four.
pub open spec fn spec_base64(b: Seq<u8>) -> Seq<char>
    decreases b.len(),
{
    if b.len() == 0 {
        Seq::empty()
    } else if b.len() == 1 {
        seq![b64_digit(b[0] as int / 4), b64_digit((b[0] % 4) * 16), '=', '=']
    } else if b.len() == 2 {
        seq![b64_digit(b[0] as int / 4), b64_digit((b[0] % 4) * 16 + b[1] / 16), b64_digit((b[1] as int % 16) * 4), '=']
    } else {
        seq![
            b64_digit(b[0] as int / 4),
            b64_digit((b[0] % 4) * 16 + b[1] / 16),
            b64_digit((b[1] % 16) * 4 + b[2] / 64),
            b64_digit(b[2] as int % 64),
        ] + spec_base64(b.skip(3))
    }
}

/// Calls `base64::engine::general_purpose::STANDARD.encode`, which writes
/// standard base64 with padding: [`spec_base64`] of the bytes.
#[verifier::external_body]
fn base64_encode(bytes: &Vec<u8>) -> (r: String)
    requires
        bytes@.len() <= usize::MAX / 2,
    ensures
        r@ == spec_base64(bytes@),
{
    base64::engine::general_purpose::STANDARD.encode(bytes)
}

/// What reading an attachment gave.
#[derive(Debug)]
pub enum AttachmentContent {
    /// The bytes of an image.
    ImageBytes(Vec<u8>),
    /// Why an image could not be read.
    ImageError(String),
    /// The text of a file.
    Text(String),
    /// The file is too large, binary or unreadable.
    Unreadable,
    /// The attachment is a directory.
    Directory,
}

/// The context an attachment adds to the prompt, and the image it adds.
pub open spec fn attachment_part(att: AiAttachment, content: AttachmentContent) -> (Seq<char>, Option<Seq<char>>) {
    let p = att.path@;
    match att.kind {
        AiAttachmentKind::Directory => (
            "\n[Directory citation: `"@ + att.name@
                + "` — use list_directory / search_code / get_project_structure under this path]\n"@,
            None,
        ),
        AiAttachmentKind::Image => match content {
            AttachmentContent::ImageBytes(b) => (
                "\n[Image attached: "@ + p + "]\n"@,
                Some("data:"@ + spec_mime(p) + ";base64,"@ + spec_base64(b@)),
            ),
            AttachmentContent::ImageError(e) => ("\n[Failed to read image "@ + p + ": "@ + e@ + "]\n"@, None),
            _ => ("\n[Failed to read image "@ + p + "]\n"@, None),
        },
        _ => match content {
            AttachmentContent::Text(t) => (
                "\n----- attached file: "@ + p + " -----\n"@ + t@ + "\n----- end -----\n"@,
                None,
            ),
            _ => (
                "\n[Binary/unreadable attachment: "@ + p
                    + " — AI can use workspace tools to inspect if under the project root]\n"@,
                None,
            ),
        },
    }
}

pub open spec fn image_ok(c: AttachmentContent) -> bool {
    match c {
        AttachmentContent::ImageBytes(b) => b@.len() <= usize::MAX / 2,
        _ => true,
    }
}

pub open spec fn parts_ctx(atts: Seq<AiAttachment>, contents: Seq<AttachmentContent>) -> Seq<char>
    decreases atts.len(),
{
    if atts.len() == 0 || contents.len() < atts.len() {
        Seq::empty()
    } else {
        parts_ctx(atts.drop_last(), contents.take(atts.len() - 1)) + attachment_part(atts.last(), contents[atts.len() - 1]).0
    }
}

pub open spec fn parts_images(atts: Seq<AiAttachment>, contents: Seq<AttachmentContent>) -> Seq<Seq<char>>
    decreases atts.len(),
{
    if atts.len() == 0 || contents.len() < atts.len() {
        Seq::empty()
    } else {
        let prev = parts_images(atts.drop_last(), contents.take(atts.len() - 1));
        match attachment_part(atts.last(), contents[atts.len() - 1]).1 {
            Some(img) => prev.push(img),
            None => prev,
        }
    }
}

/// The text context and image data-URLs of the attachments, given what
/// reading each one gave.
pub fn prepare_attachments(attachments: &Vec<AiAttachment>, contents: &Vec<AttachmentContent>) -> (r: (String, Vec<String>))
    requires
        contents@.len() == attachments@.len(),
        forall|i: int| 0 <= i < contents@.len() ==> image_ok(#[trigger] contents@[i]),
    ensures
        r.0@ == parts_ctx(attachments@, contents@),
        r.1@.map_values(|s: String| s@) == parts_images(attachments@, contents@),
{
    let mut ctx = String::new();
    let mut images: Vec<String> = Vec::new();
    let mut i: usize = 0;
    while i < attachments.len()
        invariant
            i <= attachments.len(),
            contents@.len() == attachments@.len(),
            forall|k: int| 0 <= k < contents@.len() ==> image_ok(#[trigger] contents@[k]),
            ctx@ == parts_ctx(attachments@.take(i as int), contents@.take(i as int)),
            images@.map_values(|s: String| s@) == parts_images(attachments@.take(i as int), contents@.take(i as int)),
        decreases attachments.len() - i,
    {
        proof {
            assert(attachments@.take(i + 1).drop_last() =~= attachments@.take(i as int));
            assert(contents@.take(i + 1).take(i as int) =~= contents@.take(i as int));
            assert(attachments@.take(i + 1).last() == attachments@[i as int]);
            assert(contents@.take(i + 1)[i as int] == contents@[i as int]);
        }
        let att = &attachments[i];
        let p = att.path.as_str();
        let ghost images_before = images@.map_values(|s: String| s@);
        match att.kind {
            AiAttachmentKind::Directory => {
                push_str(&mut ctx, "\n[Directory citation: `");
                push_str(&mut ctx, att.name.as_str());
                push_str(&mut ctx, "` — use list_directory / search_code / get_project_structure under this path]\n");
            },
            AiAttachmentKind::Image => match &contents[i] {
                AttachmentContent::ImageBytes(b) => {
                    assert(image_ok(contents@[i as int]));
                    let b64 = base64_encode(b);
                    let mut url = String::new();
                    push_str(&mut url, "data:");
                    push_str(&mut url, mime_for_image(p));
                    push_str(&mut url, ";base64,");
                    push_str(&mut url, b64.as_str());
                    images.push(url);
                    push_str(&mut ctx, "\n[Image attached: ");
                    push_str(&mut ctx, p);
                    push_str(&mut ctx, "]\n");
                },
                AttachmentContent::ImageError(e) => {
                    push_str(&mut ctx, "\n[Failed to read image ");
                    push_str(&mut ctx, p);
                    push_str(&mut ctx, ": ");
                    push_str(&mut ctx, e.as_str());
                    push_str(&mut ctx, "]\n");
                },
                _ => {
                    push_str(&mut ctx, "\n[Failed to read image ");
                    push_str(&mut ctx, p);
                    push_str(&mut ctx, "]\n");
                },
            },
            _ => match &contents[i] {
                AttachmentContent::Text(t) => {
                    push_str(&mut ctx, "\n----- attached file: ");
                    push_str(&mut ctx, p);
                    push_str(&mut ctx, " -----\n");
                    push_str(&mut ctx, t.as_str());
                    push_str(&mut ctx, "\n----- end -----\n");
                },
                _ => {
                    push_str(&mut ctx, "\n[Binary/unreadable attachment: ");
                    push_str(&mut ctx, p);
                    push_str(&mut ctx, " — AI can use workspace tools to inspect if under the project root]\n");
                },
            },
        }
        assert(images@.map_values(|s: String| s@) =~= parts_images(attachments@.take(i + 1), contents@.take(i + 1)));
        i = i + 1;
    }
    assert(attachments@.take(i as int) =~= attachments@);
    assert(contents@.take(i as int) =~= contents@);
    (ctx, images)
}

// ---------------------------------------------------------------------------
// Starting a run
// ---------------------------------------------------------------------------
/// The user message of a run: the prompt followed by the attachments'
/// context (a fixed request when only attachments were sent).
pub open spec fn spec_user_message(prompt: Seq<char>, ctx: Seq<char>) -> Seq<char> {
    if ctx.len() == 0 {
        prompt
    } else if prompt.len() == 0 {
        "Please review the attached materials."@ + ctx
    } else {
        prompt + "\n"@ + ctx
    }
}

pub fn compose_user_message(prompt: &str, ctx: &str) -> (r: String)
    ensures
        r@ == spec_user_message(prompt@, ctx@),
{
    let mut out = String::new();
    if chars_of(ctx).len() == 0 {
        push_str(&mut out, prompt);
    } else if chars_of(prompt).len() == 0 {
        push_str(&mut out, "Please review the attached materials.");
        push_str(&mut out, ctx);
    } else {
        push_str(&mut out, prompt);
        push_str(&mut out, "\n");
        push_str(&mut out, ctx);
    }
    out
}

pub open spec fn turns_view(h: Seq<HistoryTurn>) -> Seq<(Role, Seq<char>)> {
    h.map_values(|t: HistoryTurn| (t.role, t.content@))
}

/// The user and assistant turns of a chat as provider history.
pub open spec fn spec_history_turns(h: Seq<(AiChatRole, Seq<char>)>) -> Seq<(Role, Seq<char>)>
    decreases h.len(),
{
    if h.len() == 0 {
        Seq::empty()
    } else {
        let prev = spec_history_turns(h.drop_last());
        match h.last().0 {
            AiChatRole::User => prev.push((Role::User, h.last().1)),
            AiChatRole::Assistant => prev.push((Role::Assistant, h.last().1)),
            _ => prev,
        }
    }
}

pub fn history_turns(history: &Vec<(AiChatRole, String)>) -> (r: Vec<HistoryTurn>)
    ensures
        turns_view(r@) == spec_history_turns(history@.map_values(|p: (AiChatRole, String)| (p.0, p.1@))),
{
    let ghost hv = history@.map_values(|p: (AiChatRole, String)| (p.0, p.1@));
    let mut out: Vec<HistoryTurn> = Vec::new();
    let mut i: usize = 0;
    while i < history.len()
        invariant
            i <= history.len(),
            hv == history@.map_values(|p: (AiChatRole, String)| (p.0, p.1@)),
            turns_view(out@) == spec_history_turns(hv.take(i as int)),
        decreases history.len() - i,
    {
        assert(hv.take(i + 1).drop_last() =~= hv.take(i as int));
        assert(hv.take(i + 1).last() == (history@[i as int].0, history@[i as int].1@));
        let ghost before = turns_view(out@);
        let content = string_of(&chars_of(history[i].1.as_str()));
        match history[i].0 {
            AiChatRole::User => {
                out.push(HistoryTurn { role: Role::User, content });
                assert(turns_view(out@) =~= before.push((Role::User, history@[i as int].1@)));
            },
            AiChatRole::Assistant => {
                out.push(HistoryTurn { role: Role::Assistant, content });
                assert(turns_view(out@) =~= before.push((Role::Assistant, history@[i as int].1@)));
            },
            _ => {},
        }
        i = i + 1;
    }
    assert(hv.take(i as int) =~= hv);
    out
}

/// What the preamble says of MCP.
pub fn mcp_note(hub_connected: bool, mcp_enabled: bool) -> (r: &'static str)
    ensures
        r@ == (if hub_connected {
            "MCP tools enabled."@
        } else if mcp_enabled {
            "MCP enabled but no servers configured in settings.toml [[ai.mcp-servers]]."@
        } else {
            "MCP off."@
        }),
{
    if hub_connected {
        "MCP tools enabled."
    } else if mcp_enabled {
        "MCP enabled but no servers configured in settings.toml [[ai.mcp-servers]]."
    } else {
        "MCP off."
    }
}

/// What the preamble says of the tools of a mode.
pub fn tools_note(mode: AgentMode) -> (r: &'static str)
    ensures
        r@ == match mode {
            AgentMode::Ask => "tools: read-only (+ optional MCP)"@,
            AgentMode::Edit => "tools: read + write_file/str_replace (+ optional MCP)"@,
            AgentMode::Agent => "tools: read + write + iterate (+ optional MCP)"@,
        },
{
    match mode {
        AgentMode::Ask => "tools: read-only (+ optional MCP)",
        AgentMode::Edit => "tools: read + write_file/str_replace (+ optional MCP)",
        AgentMode::Agent => "tools: read + write + iterate (+ optional MCP)",
    }
}

pub open spec fn spec_preamble(root: Seq<char>, mode: AgentMode, tools_note: Seq<char>, mcp_note: Seq<char>, provider: Seq<char>) -> Seq<char> {
    "Workspace root: "@ + root + "\nUI mode: "@ + mode.spec_as_str() + " ("@ + tools_note + ").\n"@ + mcp_note
        + "\nProvider: "@ + provider + ".\nContinue the conversation using prior turns for context."@
}

/// The context preamble of a run.
pub fn context_preamble(root: &str, mode: AgentMode, tools_note: &str, mcp_note: &str, provider: &str) -> (r: String)
    ensures
        r@ == spec_preamble(root@, mode, tools_note@, mcp_note@, provider@),
{
    let mut out = String::new();
    push_str(&mut out, "Workspace root: ");
    push_str(&mut out, root);
    push_str(&mut out, "\nUI mode: ");
    push_str(&mut out, mode.as_str());
    push_str(&mut out, " (");
    push_str(&mut out, tools_note);
    push_str(&mut out, ").\n");
    push_str(&mut out, mcp_note);
    push_str(&mut out, "\nProvider: ");
    push_str(&mut out, provider);
    push_str(&mut out, ".\nContinue the conversation using prior turns for context.");
    out
}

/// Rounds a run may take: the smaller of the two limits, at least one.
pub fn max_iterations(iterations: usize, tool_call_limit: usize) -> (r: usize)
    ensures
        r == if iterations < tool_call_limit {
            if iterations < 1 { 1 } else { iterations }
        } else {
            if tool_call_limit < 1 { 1 } else { tool_call_limit }
        },
        r >= 1,
{
    let m = if iterations < tool_call_limit { iterations } else { tool_call_limit };
    if m < 1 { 1 } else { m }
}

// ---------------------------------------------------------------------------
// MCP servers of a run
// ---------------------------------------------------------------------------
/// A server to start: its name, command and arguments.
pub type ServerView = (Seq<char>, Seq<char>, Seq<Seq<char>>);

pub open spec fn server_view(s: McpServerSpec) -> ServerView {
    (s.name@, s.command@, crate::hooks::strings_view(s.args@))
}

pub open spec fn servers_view(v: Seq<McpServerSpec>) -> Seq<ServerView> {
    v.map_values(|s: McpServerSpec| server_view(s))
}

/// The servers of the settings that are enabled and have a command.
pub open spec fn configured_servers(cs: Seq<McpServerConfig>) -> Seq<ServerView>
    decreases cs.len(),
{
    if cs.len() == 0 {
        Seq::empty()
    } else {
        let prev = configured_servers(cs.drop_last());
        let c = cs.last();
        if c.enabled && c.command@.len() > 0 {
            prev.push((c.name@, c.command@, crate::hooks::strings_view(c.args@)))
        } else {
            prev
        }
    }
}

pub open spec fn server_named(v: Seq<ServerView>, name: Seq<char>) -> bool {
    exists|i: int| 0 <= i < v.len() && (#[trigger] v[i]).0 == name
}

/// `out` followed by each server of `extra` whose name is not taken yet.
pub open spec fn add_new_servers(out: Seq<ServerView>, extra: Seq<ServerView>) -> Seq<ServerView>
    decreases extra.len(),
{
    if extra.len() == 0 {
        out
    } else {
        let prev = add_new_servers(out, extra.drop_last());
        if server_named(prev, extra.last().0) {
            prev
        } else {
            prev.push(extra.last())
        }
    }
}

/// The servers of the settings are all kept, in order; a server declared as
/// an asset never takes a name already held by an earlier server; and every
/// asset server's name is present in the result.
pub proof fn law_asset_servers_not_duplicated(out: Seq<ServerView>, extra: Seq<ServerView>)
    ensures
        add_new_servers(out, extra).len() >= out.len(),
        add_new_servers(out, extra).take(out.len() as int) == out,
        forall|i: int, j: int|
            0 <= i < j < add_new_servers(out, extra).len() && out.len() <= j ==> (#[trigger] add_new_servers(
                out,
                extra,
            )[i]).0 != (#[trigger] add_new_servers(out, extra)[j]).0,
        forall|k: int| 0 <= k < extra.len() ==> server_named(add_new_servers(out, extra), (#[trigger] extra[k]).0),
    decreases extra.len(),
{
    if extra.len() > 0 {
        let d = extra.drop_last();
        let prev = add_new_servers(out, d);
        law_asset_servers_not_duplicated(out, d);
        let x = extra.last();
        let r = add_new_servers(out, extra);
        if !server_named(prev, x.0) {
            assert(r == prev.push(x));
            assert(r.take(out.len() as int) =~= prev.take(out.len() as int));
            assert forall|i: int, j: int| 0 <= i < j < r.len() && out.len() <= j implies (#[trigger] r[i]).0
                != (#[trigger] r[j]).0 by {
                assert(r[i] == prev[i]);
                if j < prev.len() {
                    assert(r[j] == prev[j]);
                } else {
                    assert(r[j] == x);
                }
            }
            assert(server_named(r, x.0)) by {
                assert(r[prev.len() as int] == x);
            }
        }
        assert forall|k: int| 0 <= k < extra.len() implies server_named(r, (#[trigger] extra[k]).0) by {
            if k < d.len() {
                assert(extra[k] == d[k]);
                assert(server_named(prev, d[k].0));
                let t = choose|t: int| 0 <= t < prev.len() && (#[trigger] prev[t]).0 == d[k].0;
                if !server_named(prev, x.0) {
                    assert(r[t] == prev[t]);
                }
            } else {
                assert(extra[k] == x);
            }
        }
    } else {
        assert(out.take(out.len() as int) =~= out);
    }
}

fn copy_server(s: &McpServerSpec) -> (r: McpServerSpec)
    ensures
        server_view(r) == server_view(*s),
{
    McpServerSpec { name: s.name.clone(), command: s.command.clone(), args: crate::hooks::copy_strings(&s.args) }
}

/// The MCP servers a run starts: the enabled servers of the settings that
/// have a command, then each server declared as an MCP asset whose name is
/// not taken yet (each asset server comes with its asset path).
pub fn mcp_server_specs(configured: &Vec<McpServerConfig>, from_assets: &Vec<(String, McpServerSpec)>) -> (r: Vec<
    McpServerSpec,
>)
    ensures
        servers_view(r@) == add_new_servers(
            configured_servers(configured@),
            from_assets@.map_values(|e: (String, McpServerSpec)| server_view(e.1)),
        ),
{
    let mut out: Vec<McpServerSpec> = Vec::new();
    let mut i: usize = 0;
    assert(servers_view(out@) =~= Seq::<ServerView>::empty());
    while i < configured.len()
        invariant
            i <= configured.len(),
            servers_view(out@) == configured_servers(configured@.take(i as int)),
        decreases configured.len() - i,
    {
        proof {
            assert(configured@.take(i + 1).drop_last() =~= configured@.take(i as int));
            assert(configured@.take(i + 1).last() == configured@[i as int]);
        }
        let c = &configured[i];
        if c.enabled && c.command.as_str().unicode_len() > 0 {
            out.push(McpServerSpec {
                name: c.name.clone(),
                command: c.command.clone(),
                args: crate::hooks::copy_strings(&c.args),
            });
            assert(servers_view(out@) =~= configured_servers(configured@.take(i + 1)));
        }
        i = i + 1;
    }
    assert(configured@.take(configured.len() as int) =~= configured@);
    let ghost base = servers_view(out@);
    let ghost ev = from_assets@.map_values(|e: (String, McpServerSpec)| server_view(e.1));
    let mut k: usize = 0;
    assert(ev.take(0) =~= Seq::<ServerView>::empty());
    while k < from_assets.len()
        invariant
            k <= from_assets.len(),
            ev == from_assets@.map_values(|e: (String, McpServerSpec)| server_view(e.1)),
            servers_view(out@) == add_new_servers(base, ev.take(k as int)),
        decreases from_assets.len() - k,
    {
        proof {
            assert(ev.take(k + 1).drop_last() =~= ev.take(k as int));
            assert(ev.take(k + 1).last() == server_view(from_assets@[k as int].1));
        }
        let spec = &from_assets[k].1;
        let ghost cur = servers_view(out@);
        let mut taken = false;
        let mut j: usize = 0;
        while j < out.len()
            invariant
                j <= out.len(),
                cur == servers_view(out@),
                taken == (exists|t: int| 0 <= t < j && (#[trigger] cur[t]).0 == spec.name@),
            decreases out.len() - j,
        {
            assert(cur[j as int] == server_view(out@[j as int]));
            if str_eq(out[j].name.as_str(), spec.name.as_str()) {
                taken = true;
            }
            j = j + 1;
        }
        if !taken {
            out.push(copy_server(spec));
            assert(servers_view(out@) =~= cur.push(server_view(*spec)));
        }
        k = k + 1;
    }
    assert(ev.take(from_assets.len() as int) =~= ev);
    out
}

} // verus!

