//! The state of the AI panel and the decisions it makes: which chat is
//! active, what a new, selected or deleted chat leaves behind, when a prompt
//! runs or waits in the queue, and what each event of a run does to the
//! chats. Running the agent, the clock and saving to disk are the
//! application's; they hand their results in.
use vstd::prelude::*;

use crate::ai::{self, AiAttachment, AiChatMessage, AiChatRole, AiConversation, QueuedPrompt, derive_title, strings_view};
use crate::mode::AgentMode;
use crate::provider::AgentEvent;
use crate::ai::AiStepState;
use crate::parallel::{can_start_another_run, clamp_max_parallel, spec_clamp_max_parallel};
use crate::tools::{self, find_from};
use crate::text::{self, chars_of, string_of, str_eq, push_str, push_chars, trim_exec, decimal_exec, eq_ignore_case_exec, slice_of};

verus! {

/// A tool call waiting for the user's approval.
#[derive(Debug, Clone)]
pub struct PendingToolApproval {
    pub conv_id: String,
    pub name: String,
    pub arguments: String,
}

/// The panel's chats and what it shows of them.
pub struct ChatSession {
    /// Saved chats, most recent first.
    pub conversations: Vec<AiConversation>,
    pub active_id: String,
    pub mode: AgentMode,
    /// The model picked in the panel (`Auto` for the configured one).
    pub model: String,
    /// Files attached to the next prompt.
    pub attachments: Vec<AiAttachment>,
    /// Prompts waiting for a free run.
    pub queue: Vec<QueuedPrompt>,
    pub status: String,
    pub busy: bool,
    /// Chats with a run in progress.
    pub active_runs: Vec<String>,
    pub pending_tool: Option<PendingToolApproval>,
}

/// Position of the first chat with the given id.
/// The ids of the chats, in list order.
pub open spec fn conv_ids(list: Seq<AiConversation>) -> Seq<Seq<char>> {
    list.map_values(|c: AiConversation| c.id@)
}

pub open spec fn conv_index(list: Seq<AiConversation>, id: Seq<char>) -> Option<int>
    decreases list.len(),
{
    if list.len() == 0 {
        None
    } else if list[0].id@ == id {
        Some(0)
    } else {
        match conv_index(list.drop_first(), id) {
            Some(i) => Some(i + 1),
            None => None,
        }
    }
}

pub proof fn lemma_conv_index(list: Seq<AiConversation>, id: Seq<char>)
    ensures
        match conv_index(list, id) {
            Some(i) => 0 <= i < list.len() && list[i].id@ == id && forall|j: int|
                0 <= j < i ==> #[trigger] list[j].id@ != id,
            None => forall|j: int| 0 <= j < list.len() ==> #[trigger] list[j].id@ != id,
        },
    decreases list.len(),
{
    if list.len() > 0 && list[0].id@ != id {
        let t = list.drop_first();
        lemma_conv_index(t, id);
        assert forall|j: int| 0 < j < list.len() implies list[j] == t[j - 1] by {}
    }
}

proof fn lemma_conv_index_is(list: Seq<AiConversation>, id: Seq<char>, i: int)
    requires
        0 <= i <= list.len(),
        i < list.len() ==> list[i].id@ == id,
        forall|j: int| 0 <= j < i ==> #[trigger] list[j].id@ != id,
    ensures
        conv_index(list, id) == (if i < list.len() { Some(i) } else { None::<int> }),
{
    lemma_conv_index(list, id);
    match conv_index(list, id) {
        Some(k) => {
            if k < i {
                assert(list[k].id@ != id);
            }
            if k > i {
                assert(list[i].id@ == id);
            }
        },
        None => {
            if i < list.len() {
                assert(list[i].id@ != id);
            }
        },
    }
}

fn find_conv(list: &Vec<AiConversation>, id: &str) -> (r: Option<usize>)
    ensures
        match conv_index(list@, id@) {
            Some(i) => r == Some(i as usize),
            None => r is None,
        },
        r matches Some(i) ==> i < list.len(),
{
    let mut i: usize = 0;
    while i < list.len()
        invariant
            i <= list.len(),
            forall|j: int| 0 <= j < i ==> #[trigger] list@[j].id@ != id@,
        decreases list.len() - i,
    {
        if str_eq(list[i].id.as_str(), id) {
            proof {
                lemma_conv_index_is(list@, id@, i as int);
            }
            return Some(i);
        }
        i = i + 1;
    }
    proof {
        lemma_conv_index_is(list@, id@, i as int);
    }
    None
}

/// The model a run uses: the one picked, or the configured one when the
/// pick is empty or `Auto`.
pub open spec fn spec_resolved_model(selected: Seq<char>, configured: Seq<char>) -> Seq<char> {
    if selected.len() == 0 || text::eq_ignore_case(selected, "auto"@) {
        configured
    } else {
        selected
    }
}

impl ChatSession {
    /// Every chat list holds the active chat.
    pub open spec fn wf(&self) -> bool {
        conv_index(self.conversations@, self.active_id@) is Some
    }

    pub open spec fn active_pos(&self) -> int {
        conv_index(self.conversations@, self.active_id@).unwrap()
    }

    /// The messages of the active chat.
    pub open spec fn spec_messages(&self) -> Seq<AiChatMessage> {
        self.conversations@[self.active_pos()].messages@
    }

    /// A panel with one empty chat, identified by the clock reading `nanos`.
    pub fn new(mode: AgentMode, model: String, nanos: u128, secs: u64) -> (r: ChatSession)
        ensures
            r.wf(),
            r.conversations@.len() == 1,
            r.active_id@ == ai::conversation_id(nanos as nat),
            r.spec_messages().len() == 0,
            r.mode == mode,
            r.model@ == model@,
            r.queue@.len() == 0,
            r.attachments@.len() == 0,
            !r.busy,
            r.active_runs@.len() == 0,
    {
        let m2 = string_of(&chars_of(model.as_str()));
        let conv = AiConversation::new_at(mode, m2, nanos, secs);
        let id = string_of(&chars_of(conv.id.as_str()));
        let conversations = vec![conv];
        proof {
            lemma_conv_index_is(conversations@, id@, 0);
        }
        ChatSession {
            conversations,
            active_id: id,
            mode,
            model,
            attachments: Vec::new(),
            queue: Vec::new(),
            status: string_of(&chars_of("Idle")),
            busy: false,
            active_runs: Vec::new(),
            pending_tool: None,
        }
    }

    /// The model a run uses, given the configured one.
    pub fn resolved_model(&self, configured: &str) -> (r: String)
        ensures
            r@ == spec_resolved_model(self.model@, configured@),
    {
        let m = chars_of(self.model.as_str());
        if m.len() == 0 || eq_ignore_case_exec(&m, &chars_of("auto")) {
            string_of(&chars_of(configured))
        } else {
            string_of(&m)
        }
    }

    /// Save the panel's mode and model into the active chat, with its title
    /// derived from its messages and the time `now` (nothing when no chat has
    /// the active id).
    pub fn persist_active(&mut self, now: u64)
        ensures
            final(self).active_id == old(self).active_id,
            final(self).conversations@.len() == old(self).conversations@.len(),
            conv_ids(final(self).conversations@) == conv_ids(old(self).conversations@),
            conv_index(final(self).conversations@, final(self).active_id@) == conv_index(old(self).conversations@, old(self).active_id@),
            forall|j: int|
                0 <= j < old(self).conversations@.len() && Some(j) != conv_index(old(self).conversations@, old(self).active_id@)
                    ==> final(self).conversations@[j] == #[trigger] old(self).conversations@[j],
            old(self).wf() ==> ({
                let c = final(self).conversations@[old(self).active_pos()];
                let o = old(self).conversations@[old(self).active_pos()];
                &&& c.id == o.id
                &&& c.messages == o.messages
                &&& c.mode@ == old(self).mode.spec_as_str()
                &&& c.model@ == old(self).model@
                &&& c.title@ == ai::spec_derive_title(o.messages@)
                &&& c.updated_at == now
            }),
            final(self).mode == old(self).mode,
            final(self).model == old(self).model,
            final(self).queue == old(self).queue,
            final(self).attachments == old(self).attachments,
            final(self).busy == old(self).busy,
            final(self).active_runs == old(self).active_runs,
            final(self).status == old(self).status,
            final(self).pending_tool == old(self).pending_tool,
    {
        let i = match find_conv(&self.conversations, self.active_id.as_str()) {
            Some(i) => i,
            None => return,
        };
        let ghost before = self.conversations@;
        let mut c = self.conversations.remove(i);
        c.title = derive_title(c.messages.as_slice());
        c.mode = string_of(&chars_of(self.mode.as_str()));
        c.model = string_of(&chars_of(self.model.as_str()));
        c.updated_at = now;
        self.conversations.insert(i, c);
        proof {
            lemma_conv_index(before, self.active_id@);
            assert(self.conversations@[i as int].id == before[i as int].id);
            assert forall|j: int| 0 <= j < before.len() && j != i implies self.conversations@[j]
                == #[trigger] before[j] by {}
            assert forall|j: int| 0 <= j < i implies #[trigger] self.conversations@[j].id@ != self.active_id@ by {
                assert(before[j].id@ != self.active_id@);
            }
            lemma_conv_index_is(self.conversations@, self.active_id@, i as int);
        }
    }

    /// Start a new empty chat (identified by the clock reading `nanos`) in
    /// front of the others and make it active.
    pub fn new_conversation(&mut self, nanos: u128, secs: u64)
        ensures
            final(self).wf(),
            final(self).conversations@.len() == old(self).conversations@.len() + 1,
            final(self).active_pos() == 0,
            final(self).active_id@ == ai::conversation_id(nanos as nat),
            final(self).conversations@[0].id@ == ai::conversation_id(nanos as nat),
            final(self).conversations@[0].title@ == "New chat"@,
            final(self).conversations@[0].messages@.len() == 0,
            final(self).conversations@[0].mode@ == old(self).mode.spec_as_str(),
            final(self).conversations@[0].model@ == old(self).model@,
            final(self).spec_messages().len() == 0,
            final(self).attachments@.len() == 0,
            final(self).status@ == "Idle"@,
            final(self).mode == old(self).mode,
            final(self).model == old(self).model,
            final(self).queue == old(self).queue,
            final(self).busy == old(self).busy,
            final(self).active_runs == old(self).active_runs,
    {
        self.persist_active(secs);
        let model = string_of(&chars_of(self.model.as_str()));
        let conv = AiConversation::new_at(self.mode, model, nanos, secs);
        let id = string_of(&chars_of(conv.id.as_str()));
        self.conversations.insert(0, conv);
        self.active_id = id;
        self.attachments = Vec::new();
        self.status = string_of(&chars_of("Idle"));
        proof {
            lemma_conv_index_is(self.conversations@, self.active_id@, 0);
        }
    }

    /// Switch to the chat `id`: its mode and model become the panel's
    /// (`Auto` when it stored none) and the attachments are cleared. Nothing
    /// happens when it is already active or does not exist.
    pub fn select_conversation(&mut self, id: &str, secs: u64)
        ensures
            old(self).wf() ==> final(self).wf(),
            conv_index(old(self).conversations@, id@) is Some ==> final(self).wf(),
            final(self).conversations@.len() == old(self).conversations@.len(),
            conv_ids(final(self).conversations@) == conv_ids(old(self).conversations@),
            (id@ == old(self).active_id@ || conv_index(old(self).conversations@, id@) is None)
                ==> final(self).active_id@ == old(self).active_id@ && final(self).mode == old(self).mode
                && final(self).model@ == old(self).model@,
            id@ != old(self).active_id@ && conv_index(old(self).conversations@, id@) is Some ==> ({
                let k = conv_index(old(self).conversations@, id@).unwrap();
                let c = old(self).conversations@[k];
                &&& final(self).active_id@ == id@
                &&& final(self).active_pos() == k
                &&& final(self).mode == AgentMode::spec_from_str_loose(c.mode@)
                &&& final(self).model@ == (if c.model@.len() == 0 { "Auto"@ } else { c.model@ })
                &&& final(self).attachments@.len() == 0
                &&& final(self).conversations@[k].messages == c.messages
            }),
            final(self).queue == old(self).queue,
            final(self).busy == old(self).busy,
            final(self).active_runs == old(self).active_runs,
    {
        if str_eq(id, self.active_id.as_str()) {
            return;
        }
        let ghost before = self.conversations@;
        proof {
            lemma_conv_index(before, id@);
            lemma_conv_index(before, self.active_id@);
        }
        let k = match find_conv(&self.conversations, id) {
            Some(k) => k,
            None => return,
        };
        self.persist_active(secs);
        proof {
            lemma_conv_index(self.conversations@, id@);
            if conv_index(before, self.active_id@) is Some {
                assert(before[conv_index(before, self.active_id@).unwrap()].id@ != id@);
            }
            assert forall|j: int| 0 <= j < k implies #[trigger] self.conversations@[j].id@ != id@ by {
                assert(before[j].id@ != id@);
                if Some(j) != conv_index(before, self.active_id@) {
                    assert(self.conversations@[j] == before[j]);
                }
            }
            assert(self.conversations@[k as int].id@ == id@);
            lemma_conv_index_is(self.conversations@, id@, k as int);
        }
        let c = &self.conversations[k];
        let mode = AgentMode::from_str_loose(c.mode.as_str());
        let model = if chars_of(c.model.as_str()).len() == 0 {
            string_of(&chars_of("Auto"))
        } else {
            string_of(&chars_of(c.model.as_str()))
        };
        self.active_id = string_of(&chars_of(id));
        self.mode = mode;
        self.model = model;
        self.attachments = Vec::new();
    }

    /// Delete the chat `id`. The panel never ends up without a chat: when the
    /// last one goes, a new empty one (clock reading `nanos`) takes its place;
    /// when the active one goes, the first remaining chat becomes active.
    pub fn delete_conversation(&mut self, id: &str, nanos: u128, secs: u64)
        requires
            old(self).wf(),
        ensures
            final(self).wf(),
            conv_index(old(self).conversations@, id@) is Some && old(self).conversations@.len() > 1
                ==> final(self).conversations@.len() == old(self).conversations@.len() - 1,
            conv_index(old(self).conversations@, id@) is None ==> final(self).conversations@.len()
                == old(self).conversations@.len(),
            id@ != old(self).active_id@ ==> final(self).active_id@ == old(self).active_id@,
            conv_index(old(self).conversations@, id@) matches Some(i) ==> (if old(self).conversations@.len() > 1 {
                &&& conv_ids(final(self).conversations@) == conv_ids(old(self).conversations@).remove(i)
                &&& id@ == old(self).active_id@ ==> final(self).active_id@ == conv_ids(final(self).conversations@)[0]
            } else {
                &&& final(self).conversations@.len() == 1
                &&& final(self).active_id@ == ai::conversation_id(nanos as nat)
                &&& final(self).spec_messages().len() == 0
            }),
            conv_index(old(self).conversations@, id@) is None ==> conv_ids(final(self).conversations@) == conv_ids(
                old(self).conversations@,
            ) && final(self).active_id == old(self).active_id,
    {
        let was_active = str_eq(id, self.active_id.as_str());
        let ghost before = self.conversations@;
        proof {
            lemma_conv_index(before, id@);
            lemma_conv_index(before, self.active_id@);
        }
        match find_conv(&self.conversations, id) {
            Some(i) => {
                self.conversations.remove(i);
                proof {
                    let a = conv_index(before, self.active_id@).unwrap();
                    if !was_active {
                        assert(a != i);
                        let na = if a < i { a } else { a - 1 };
                        assert(self.conversations@[na] == before[a]);
                        assert forall|j: int| 0 <= j < na implies #[trigger] self.conversations@[j].id@ != self.active_id@ by {
                            if j < i {
                                assert(self.conversations@[j] == before[j]);
                            } else {
                                assert(self.conversations@[j] == before[j + 1]);
                            }
                        }
                        lemma_conv_index_is(self.conversations@, self.active_id@, na);
                    }
                }
            },
            None => {},
        }
        if self.conversations.len() == 0 {
            let model = string_of(&chars_of(self.model.as_str()));
            let conv = AiConversation::new_at(self.mode, model, nanos, secs);
            self.active_id = string_of(&chars_of(conv.id.as_str()));
            self.conversations = vec![conv];
            proof {
                lemma_conv_index_is(self.conversations@, self.active_id@, 0);
            }
        } else if was_active {
            let next = string_of(&chars_of(self.conversations[0].id.as_str()));
            proof {
                lemma_conv_index_is(self.conversations@, next@, 0);
            }
            self.select_conversation(next.as_str(), secs);
        }
    }
}


// ---------------------------------------------------------------------------
// Messages as plain values
// ---------------------------------------------------------------------------
pub struct StepView {
    pub name: Seq<char>,
    pub arguments: Seq<char>,
    pub output: Seq<char>,
    pub state: AiStepState,
    pub is_mcp: bool,
    pub files: Seq<Seq<char>>,
}

pub struct MsgView {
    pub role: AiChatRole,
    pub content: Seq<char>,
    pub attachments: Seq<Seq<char>>,
    pub step: Option<StepView>,
}

pub open spec fn step_view(s: ai::AiAgentStep) -> StepView {
    StepView {
        name: s.name@,
        arguments: s.arguments@,
        output: s.output@,
        state: s.state,
        is_mcp: s.is_mcp,
        files: strings_view(s.files@),
    }
}

pub open spec fn msg_view(m: AiChatMessage) -> MsgView {
    MsgView {
        role: m.role,
        content: m.content@,
        attachments: strings_view(m.attachments@),
        step: match m.step {
            Some(s) => Some(step_view(s)),
            None => None,
        },
    }
}

pub open spec fn msgs_view(ms: Seq<AiChatMessage>) -> Seq<MsgView> {
    ms.map_values(|m: AiChatMessage| msg_view(m))
}

// ---------------------------------------------------------------------------
// What the chat shows
// ---------------------------------------------------------------------------
/// `files` added to `out` in order, each unless already there.
pub open spec fn add_new(out: Seq<Seq<char>>, files: Seq<Seq<char>>) -> Seq<Seq<char>>
    decreases files.len(),
{
    if files.len() == 0 {
        out
    } else {
        let prev = add_new(out, files.drop_last());
        if prev.contains(files.last()) { prev } else { prev.push(files.last()) }
    }
}

/// The files the steps of a chat touched, in order, each once.
pub open spec fn spec_touched(ms: Seq<MsgView>) -> Seq<Seq<char>>
    decreases ms.len(),
{
    if ms.len() == 0 {
        Seq::empty()
    } else {
        let prev = spec_touched(ms.drop_last());
        match ms.last().step {
            Some(st) => add_new(prev, st.files),
            None => prev,
        }
    }
}

fn contains_string(v: &Vec<String>, s: &String) -> (r: bool)
    ensures
        r == v@.map_values(|x: String| x@).contains(s@),
{
    let ghost vv = v@.map_values(|x: String| x@);
    let mut i: usize = 0;
    while i < v.len()
        invariant
            i <= v.len(),
            vv == v@.map_values(|x: String| x@),
            forall|j: int| 0 <= j < i ==> vv[j] != s@,
        decreases v.len() - i,
    {
        if str_eq(v[i].as_str(), s.as_str()) {
            assert(vv[i as int] == s@);
            return true;
        }
        i = i + 1;
    }
    false
}

/// The last message written by the user.
pub open spec fn last_user(ms: Seq<MsgView>) -> Option<MsgView>
    decreases ms.len(),
{
    if ms.len() == 0 {
        None
    } else if ms.last().role == AiChatRole::User {
        Some(ms.last())
    } else {
        last_user(ms.drop_last())
    }
}

/// A prompt as it was typed: the message without the `@` citations that
/// sending appended, trimmed.
pub open spec fn retry_text(content: Seq<char>) -> Seq<char> {
    text::trim(
        match tools::first_occ(content, "\n\n@"@) {
            Some(i) => content.take(i),
            None => content,
        },
    )
}

/// What retrying gives: the last prompt again, or why not.
pub open spec fn spec_retry(ms: Seq<MsgView>, busy: bool) -> Result<Seq<char>, Seq<char>> {
    if busy {
        Err("Busy — stop the run first"@)
    } else {
        match last_user(ms) {
            None => Err("Nothing to retry yet"@),
            Some(m) => if retry_text(m.content).len() == 0 {
                Err("Nothing to retry yet"@)
            } else {
                Ok(retry_text(m.content))
            },
        }
    }
}

impl ChatSession {
    /// Files touched by the steps of the active chat, in order, each once.
    pub fn touched_files(&self) -> (r: Vec<String>)
        requires
            self.wf(),
        ensures
            r@.map_values(|s: String| s@) == spec_touched(msgs_view(self.spec_messages())),
    {
        proof {
            lemma_conv_index(self.conversations@, self.active_id@);
        }
        let i = find_conv(&self.conversations, self.active_id.as_str()).unwrap();
        assert(i == self.active_pos());
        let msgs = &self.conversations[i].messages;
        let ghost mv = msgs_view(msgs@);
        assert(mv == msgs_view(self.spec_messages()));
        let mut out: Vec<String> = Vec::new();
        let mut k: usize = 0;
        assert(out@.map_values(|s: String| s@) =~= spec_touched(mv.take(0)));
        while k < msgs.len()
            invariant
                k <= msgs.len(),
                mv == msgs_view(msgs@),
                out@.map_values(|s: String| s@) == spec_touched(mv.take(k as int)),
            decreases msgs.len() - k,
        {
            assert(mv.take(k + 1).drop_last() =~= mv.take(k as int));
            assert(mv.take(k + 1).last() == msg_view(msgs@[k as int]));
            match &msgs[k].step {
                Some(step) => {
                    let ghost prev = out@.map_values(|s: String| s@);
                    let ghost fv = strings_view(step.files@);
                    let mut f: usize = 0;
                    assert(fv.take(0) =~= Seq::<Seq<char>>::empty());
                    while f < step.files.len()
                        invariant
                            f <= step.files.len(),
                            fv == strings_view(step.files@),
                            out@.map_values(|s: String| s@) == add_new(prev, fv.take(f as int)),
                        decreases step.files.len() - f,
                    {
                        assert(fv.take(f + 1).drop_last() =~= fv.take(f as int));
                        assert(fv.take(f + 1).last() == step.files@[f as int]@);
                        if !contains_string(&out, &step.files[f]) {
                            let ghost before = out@.map_values(|s: String| s@);
                            out.push(string_of(&chars_of(step.files[f].as_str())));
                            assert(out@.map_values(|s: String| s@) =~= before.push(step.files@[f as int]@));
                        }
                        f = f + 1;
                    }
                    assert(fv.take(f as int) =~= fv);
                },
                None => {},
            }
            k = k + 1;
        }
        assert(mv.take(k as int) =~= mv);
        out
    }

    /// The prompt to send again: the last one of the active chat without
    /// its citations, or the status to show instead.
    pub fn retry_prompt(&self) -> (r: Result<String, String>)
        requires
            self.wf(),
        ensures
            match spec_retry(msgs_view(self.spec_messages()), self.busy) {
                Ok(x) => r matches Ok(y) && y@ == x,
                Err(x) => r matches Err(y) && y@ == x,
            },
    {
        if self.busy {
            return Err(string_of(&chars_of("Busy — stop the run first")));
        }
        proof {
            lemma_conv_index(self.conversations@, self.active_id@);
        }
        let i = find_conv(&self.conversations, self.active_id.as_str()).unwrap();
        assert(i == self.active_pos());
        let msgs = &self.conversations[i].messages;
        let ghost mv = msgs_view(msgs@);
        assert(mv == msgs_view(self.spec_messages()));
        proof {
            reveal_strlit("\n\n@");
        }
        let pat = chars_of("\n\n@");
        assert(pat@.len() == 3);
        let mut k: usize = msgs.len();
        assert(mv.take(k as int) =~= mv);
        while k > 0
            invariant
                k <= msgs.len(),
                mv == msgs_view(msgs@),
                mv == msgs_view(self.spec_messages()),
                !self.busy,
                pat@ == "\n\n@"@,
                pat@.len() == 3,
                last_user(mv.take(k as int)) == last_user(mv),
            decreases k,
        {
            assert(mv.take(k as int).drop_last() =~= mv.take(k - 1));
            assert(mv.take(k as int).last() == msg_view(msgs@[k - 1]));
            if msgs[k - 1].role == AiChatRole::User {
                let content = chars_of(msgs[k - 1].content.as_str());
                proof {
                    assert(content@.skip(0) =~= content@);
                    tools::lemma_first_occ(content@, pat@);
                }
                let cut = match find_from(&content, &pat, 0) {
                    Some(p) => slice_of(&content, 0, p),
                    None => slice_of(&content, 0, content.len()),
                };
                proof {
                    assert(content@.skip(0) =~= content@);
                    assert(cut@ =~= (match tools::first_occ(content@, "\n\n@"@) {
                        Some(i) => content@.take(i),
                        None => content@,
                    }));
                }
                let t = trim_exec(&cut);
                if t.len() == 0 {
                    return Err(string_of(&chars_of("Nothing to retry yet")));
                }
                return Ok(string_of(&t));
            }
            k = k - 1;
        }
        assert(mv.take(0) =~= Seq::<MsgView>::empty());
        Err(string_of(&chars_of("Nothing to retry yet")))
    }

    /// Clear the active chat.
    pub fn clear_active_chat(&mut self, secs: u64)
        requires
            old(self).wf(),
        ensures
            final(self).wf(),
            final(self).spec_messages().len() == 0,
            final(self).conversations@.len() == old(self).conversations@.len(),
    {
        let i = find_conv(&self.conversations, self.active_id.as_str()).unwrap();
        let ghost before = self.conversations@;
        let mut c = self.conversations.remove(i);
        c.messages = Vec::new();
        self.conversations.insert(i, c);
        proof {
            lemma_conv_index(before, self.active_id@);
            assert(self.conversations@[i as int].id == before[i as int].id);
            assert forall|j: int| 0 <= j < i implies #[trigger] self.conversations@[j].id@ != self.active_id@ by {
                assert(self.conversations@[j] == before[j]);
            }
            lemma_conv_index_is(self.conversations@, self.active_id@, i as int);
        }
        self.persist_active(secs);
    }
}


// ---------------------------------------------------------------------------
// Attachments, queue and approvals
// ---------------------------------------------------------------------------
/// Position of the first element of `ids` (as views) equal to `id`.
pub open spec fn first_index_of(ids: Seq<Seq<char>>, id: Seq<char>) -> Option<int>
    decreases ids.len(),
{
    if ids.len() == 0 {
        None
    } else if ids[0] == id {
        Some(0)
    } else {
        match first_index_of(ids.drop_first(), id) {
            Some(i) => Some(i + 1),
            None => None,
        }
    }
}

proof fn lemma_first_index_of(ids: Seq<Seq<char>>, id: Seq<char>, i: int)
    requires
        0 <= i <= ids.len(),
        i < ids.len() ==> ids[i] == id,
        forall|j: int| 0 <= j < i ==> #[trigger] ids[j] != id,
    ensures
        first_index_of(ids, id) == (if i < ids.len() { Some(i) } else { None::<int> }),
    decreases ids.len(),
{
    if ids.len() > 0 && i > 0 {
        lemma_first_index_of(ids.drop_first(), id, i - 1);
    }
}

pub open spec fn attachment_paths(list: Seq<AiAttachment>) -> Seq<Seq<char>> {
    list.map_values(|a: AiAttachment| a.path@)
}

pub open spec fn queue_ids(q: Seq<QueuedPrompt>) -> Seq<Seq<char>> {
    q.map_values(|p: QueuedPrompt| p.id@)
}

/// Position of the first string of `v` equal to `s`.
fn position_of(keys: &Vec<String>, s: &str) -> (r: Option<usize>)
    ensures
        match r {
            Some(i) => first_index_of(keys@.map_values(|k: String| k@), s@) == Some(i as int) && i < keys.len(),
            None => first_index_of(keys@.map_values(|k: String| k@), s@) is None,
        },
{
    let ghost kv = keys@.map_values(|k: String| k@);
    let mut i: usize = 0;
    while i < keys.len()
        invariant
            i <= keys.len(),
            kv == keys@.map_values(|k: String| k@),
            forall|j: int| 0 <= j < i ==> #[trigger] kv[j] != s@,
        decreases keys.len() - i,
    {
        if str_eq(keys[i].as_str(), s) {
            proof {
                lemma_first_index_of(kv, s@, i as int);
            }
            return Some(i);
        }
        i = i + 1;
    }
    proof {
        lemma_first_index_of(kv, s@, i as int);
    }
    None
}

fn attachment_keys(list: &Vec<AiAttachment>) -> (r: Vec<String>)
    ensures
        r@.map_values(|k: String| k@) == attachment_paths(list@),
{
    let mut out: Vec<String> = Vec::new();
    let mut i: usize = 0;
    while i < list.len()
        invariant
            i <= list.len(),
            out@.map_values(|k: String| k@) =~= attachment_paths(list@.take(i as int)),
        decreases list.len() - i,
    {
        let ghost before = out@.map_values(|k: String| k@);
        out.push(string_of(&chars_of(list[i].path.as_str())));
        assert(out@.map_values(|k: String| k@) =~= before.push(list@[i as int].path@));
        assert(list@.take(i + 1) =~= list@.take(i as int).push(list@[i as int]));
        i = i + 1;
    }
    assert(list@.take(i as int) =~= list@);
    out
}

fn queue_keys(q: &Vec<QueuedPrompt>) -> (r: Vec<String>)
    ensures
        r@.map_values(|k: String| k@) == queue_ids(q@),
{
    let mut out: Vec<String> = Vec::new();
    let mut i: usize = 0;
    while i < q.len()
        invariant
            i <= q.len(),
            out@.map_values(|k: String| k@) =~= queue_ids(q@.take(i as int)),
        decreases q.len() - i,
    {
        let ghost before = out@.map_values(|k: String| k@);
        out.push(string_of(&chars_of(q[i].id.as_str())));
        assert(out@.map_values(|k: String| k@) =~= before.push(q@[i as int].id@));
        assert(q@.take(i + 1) =~= q@.take(i as int).push(q@[i as int]));
        i = i + 1;
    }
    assert(q@.take(i as int) =~= q@);
    out
}

fn quoted(prefix: &str, name: &str, suffix: &str) -> (r: String)
    ensures
        r@ == prefix@ + name@ + suffix@,
{
    let mut s = String::new();
    push_str(&mut s, prefix);
    push_str(&mut s, name);
    push_str(&mut s, suffix);
    s
}

impl ChatSession {
    /// Attach a file to the next prompt, unless it is already attached; the
    /// status says which happened.
    pub fn add_attachment(&mut self, attachment: AiAttachment)
        ensures
            first_index_of(attachment_paths(old(self).attachments@), attachment.path@) is Some
                ==> final(self).attachments@ == old(self).attachments@
                && final(self).status@ == "Already attached `"@ + attachment.name@ + "`"@,
            first_index_of(attachment_paths(old(self).attachments@), attachment.path@) is None
                ==> final(self).attachments@ == old(self).attachments@.push(attachment)
                && final(self).status@ == "Attached `"@ + attachment.name@ + "` to chat"@,
            final(self).conversations == old(self).conversations,
            final(self).active_id == old(self).active_id,
            final(self).queue == old(self).queue,
            final(self).busy == old(self).busy,
    {
        let keys = attachment_keys(&self.attachments);
        match position_of(&keys, attachment.path.as_str()) {
            Some(_) => {
                self.status = quoted("Already attached `", attachment.name.as_str(), "`");
            },
            None => {
                let status = quoted("Attached `", attachment.name.as_str(), "` to chat");
                self.attachments.push(attachment);
                self.status = status;
            },
        }
    }

    /// Drop the attachment with the given path (the first one, if several).
    pub fn remove_attachment(&mut self, path: &str)
        ensures
            match first_index_of(attachment_paths(old(self).attachments@), path@) {
                Some(i) => final(self).attachments@ == old(self).attachments@.remove(i),
                None => final(self).attachments@ == old(self).attachments@,
            },
            final(self).conversations == old(self).conversations,
            final(self).active_id == old(self).active_id,
            final(self).queue == old(self).queue,
    {
        let keys = attachment_keys(&self.attachments);
        match position_of(&keys, path) {
            Some(i) => {
                self.attachments.remove(i);
            },
            None => {},
        }
    }

    /// Drop the queued prompt with the given id.
    pub fn skip_queued(&mut self, id: &str)
        ensures
            match first_index_of(queue_ids(old(self).queue@), id@) {
                Some(i) => final(self).queue@ == old(self).queue@.remove(i),
                None => final(self).queue@ == old(self).queue@,
            },
            final(self).conversations == old(self).conversations,
            final(self).active_id == old(self).active_id,
            final(self).busy == old(self).busy,
    {
        let keys = queue_keys(&self.queue);
        match position_of(&keys, id) {
            Some(i) => {
                self.queue.remove(i);
            },
            None => {},
        }
    }

    pub fn clear_queue(&mut self)
        ensures
            final(self).queue@.len() == 0,
            final(self).conversations == old(self).conversations,
            final(self).active_id == old(self).active_id,
            final(self).busy == old(self).busy,
    {
        self.queue = Vec::new();
    }

    /// The next queued prompt to run, taken off the queue, when no run is
    /// in progress.
    pub fn next_queued(&mut self) -> (r: Option<QueuedPrompt>)
        ensures
            old(self).busy || old(self).queue@.len() == 0 ==> r is None && final(self).queue == old(self).queue,
            !old(self).busy && old(self).queue@.len() > 0 ==> r == Some(old(self).queue@[0])
                && final(self).queue@ == old(self).queue@.drop_first(),
            final(self).conversations == old(self).conversations,
            final(self).active_id == old(self).active_id,
            final(self).busy == old(self).busy,
    {
        if self.busy || self.queue.len() == 0 {
            return None;
        }
        let p = self.queue.remove(0);
        assert(self.queue@ =~= old(self).queue@.drop_first());
        Some(p)
    }

    /// Cancel every run: nothing runs or waits for approval any more. The
    /// caller signals the runs and then takes the next queued prompt.
    pub fn stop(&mut self)
        ensures
            final(self).active_runs@.len() == 0,
            !final(self).busy,
            final(self).pending_tool is None,
            final(self).status@ == "Cancelled"@,
            final(self).conversations == old(self).conversations,
            final(self).active_id == old(self).active_id,
            final(self).queue == old(self).queue,
    {
        self.pending_tool = None;
        self.status = string_of(&chars_of("Cancelled"));
        self.active_runs = Vec::new();
        self.busy = false;
    }

    /// Answer the pending approval, if any; the answer to send back is
    /// returned.
    pub fn approve_pending_tool(&mut self, run: bool) -> (r: Option<bool>)
        ensures
            old(self).pending_tool is None ==> r is None && final(self).status == old(self).status,
            old(self).pending_tool is Some ==> r == Some(run) && final(self).status@ == (if run {
                "Tool approved — running…"@
            } else {
                "Tool skipped"@
            }),
            final(self).pending_tool is None,
            final(self).conversations == old(self).conversations,
            final(self).active_id == old(self).active_id,
            final(self).queue == old(self).queue,
            final(self).busy == old(self).busy,
    {
        if self.pending_tool.is_none() {
            return None;
        }
        self.pending_tool = None;
        self.status = if run {
            string_of(&chars_of("Tool approved — running…"))
        } else {
            string_of(&chars_of("Tool skipped"))
        };
        Some(run)
    }
}


// ---------------------------------------------------------------------------
// Sending a prompt
// ---------------------------------------------------------------------------
/// What sending the composer's text leads to.
#[derive(Debug)]
pub enum SendPlan {
    /// AI is switched off in the settings.
    Disabled,
    /// There is nothing to send.
    Nothing,
    /// The prompt waits in the queue.
    Queued,
    /// The prompt runs now.
    Run { prompt: String, attachments: Vec<AiAttachment> },
}

pub open spec fn runs_ids(v: Seq<String>) -> Seq<Seq<char>> {
    v.map_values(|s: String| s@)
}

/// `@name` for each cited file, separated by spaces.
pub open spec fn cites(names: Seq<Seq<char>>) -> Seq<char> {
    tools::join(names.map_values(|n: Seq<char>| "@"@ + n), " "@)
}

/// The user message shown for a prompt with attachments.
pub open spec fn spec_display(prompt: Seq<char>, names: Seq<Seq<char>>) -> Seq<char> {
    if names.len() == 0 {
        prompt
    } else if prompt.len() == 0 {
        cites(names)
    } else {
        prompt + "\n\n"@ + cites(names)
    }
}

/// The earlier user and assistant turns of a chat, oldest first.
pub open spec fn spec_history(ms: Seq<MsgView>) -> Seq<(AiChatRole, Seq<char>)>
    decreases ms.len(),
{
    if ms.len() == 0 {
        Seq::empty()
    } else {
        let prev = spec_history(ms.drop_last());
        let m = ms.last();
        if m.role == AiChatRole::User || m.role == AiChatRole::Assistant {
            prev.push((m.role, m.content))
        } else {
            prev
        }
    }
}

pub open spec fn history_view(h: Seq<(AiChatRole, String)>) -> Seq<(AiChatRole, Seq<char>)> {
    h.map_values(|p: (AiChatRole, String)| (p.0, p.1@))
}

pub open spec fn queued_status(n: nat, conv_busy: bool) -> Seq<char> {
    "Queued ("@ + text::decimal(n) + ", "@ + (if conv_busy {
        "this chat is busy"@
    } else {
        "parallel limit reached"@
    }) + ") — Run Now / Skip, or wait"@
}

fn attachment_names(list: &Vec<AiAttachment>) -> (r: Vec<String>)
    ensures
        r@.map_values(|s: String| s@) == list@.map_values(|a: AiAttachment| a.name@),
{
    let mut out: Vec<String> = Vec::new();
    let mut i: usize = 0;
    while i < list.len()
        invariant
            i <= list.len(),
            out@.map_values(|s: String| s@) =~= list@.take(i as int).map_values(|a: AiAttachment| a.name@),
        decreases list.len() - i,
    {
        let ghost before = out@.map_values(|s: String| s@);
        out.push(string_of(&chars_of(list[i].name.as_str())));
        assert(out@.map_values(|s: String| s@) =~= before.push(list@[i as int].name@));
        assert(list@.take(i + 1) =~= list@.take(i as int).push(list@[i as int]));
        i = i + 1;
    }
    assert(list@.take(i as int) =~= list@);
    out
}

fn cites_exec(names: &Vec<String>) -> (r: String)
    ensures
        r@ == cites(names@.map_values(|s: String| s@)),
{
    let mut cs: Vec<String> = Vec::new();
    let mut i: usize = 0;
    while i < names.len()
        invariant
            i <= names.len(),
            cs@.map_values(|s: String| s@) =~= names@.take(i as int).map_values(|s: String| s@).map_values(
                |n: Seq<char>| "@"@ + n,
            ),
        decreases names.len() - i,
    {
        let ghost before = cs@.map_values(|s: String| s@);
        let mut c = String::new();
        push_str(&mut c, "@");
        push_str(&mut c, names[i].as_str());
        cs.push(c);
        assert(cs@.map_values(|s: String| s@) =~= before.push("@"@ + names@[i as int]@));
        assert(names@.take(i + 1) =~= names@.take(i as int).push(names@[i as int]));
        i = i + 1;
    }
    assert(names@.take(i as int) =~= names@);
    tools::join_strings(&cs, " ")
}

impl ChatSession {
    /// Decide what sending `text` does: nothing when AI is off or there is
    /// nothing to send; else the attachments are taken, and the prompt runs
    /// when its chat is idle and fewer runs than the (clamped) limit are in
    /// progress, or waits in the queue under the id `q-<nanos>`.
    pub fn plan_send(&mut self, enabled: bool, text: &str, max_parallel: usize, nanos: u128) -> (r: SendPlan)
        ensures
            !enabled ==> r is Disabled && final(self).status@ == "AI is disabled in settings"@
                && final(self).attachments == old(self).attachments && final(self).queue == old(self).queue,
            enabled && text::trim(text@).len() == 0 && old(self).attachments@.len() == 0 ==> r is Nothing
                && final(self).queue == old(self).queue,
            enabled && !(text::trim(text@).len() == 0 && old(self).attachments@.len() == 0) ==> ({
                let conv_busy = runs_ids(old(self).active_runs@).contains(old(self).active_id@);
                let can = !conv_busy && old(self).active_runs@.len() < spec_clamp_max_parallel(max_parallel as int);
                &&& final(self).attachments@.len() == 0
                &&& can ==> (r matches SendPlan::Run { prompt, attachments } && prompt@ == text::trim(text@)
                    && attachments@ == old(self).attachments@ && final(self).queue == old(self).queue)
                &&& !can ==> (r is Queued
                    && final(self).queue@.len() == old(self).queue@.len() + 1
                    && final(self).queue@.drop_last() == old(self).queue@
                    && final(self).queue@.last().id@ == "q-"@ + text::decimal(nanos as nat)
                    && final(self).queue@.last().prompt@ == text::trim(text@)
                    && final(self).queue@.last().attachments@ == old(self).attachments@
                    && final(self).status@ == queued_status(final(self).queue@.len() as nat, conv_busy))
            }),
            final(self).conversations == old(self).conversations,
            final(self).active_id == old(self).active_id,
            final(self).active_runs == old(self).active_runs,
            final(self).busy == old(self).busy,
    {
        if !enabled {
            self.status = string_of(&chars_of("AI is disabled in settings"));
            return SendPlan::Disabled;
        }
        let prompt = string_of(&text::trim_str(text));
        if chars_of(prompt.as_str()).len() == 0 && self.attachments.len() == 0 {
            return SendPlan::Nothing;
        }
        let mut attachments: Vec<AiAttachment> = Vec::new();
        std::mem::swap(&mut attachments, &mut self.attachments);
        let conv_busy = match position_of(&self.active_runs, self.active_id.as_str()) {
            Some(_) => true,
            None => false,
        };
        proof {
            let ids = runs_ids(self.active_runs@);
            lemma_first_index_of_contains(ids, self.active_id@);
        }
        let count = self.active_runs.len();
        let max = clamp_max_parallel(max_parallel);
        let can = !conv_busy && can_start_another_run(count, max_parallel);
        if !can {
            let mut id = String::new();
            push_str(&mut id, "q-");
            push_chars(&mut id, &decimal_exec(nanos));
            let ghost before = self.queue@;
            self.queue.push(QueuedPrompt { id, prompt, attachments });
            let n = self.queue.len();
            let mut status = String::new();
            push_str(&mut status, "Queued (");
            push_chars(&mut status, &decimal_exec(n as u128));
            push_str(&mut status, ", ");
            if conv_busy {
                push_str(&mut status, "this chat is busy");
            } else {
                push_str(&mut status, "parallel limit reached");
            }
            push_str(&mut status, ") — Run Now / Skip, or wait");
            self.status = status;
            assert(self.queue@.drop_last() =~= before);
            return SendPlan::Queued;
        }
        SendPlan::Run { prompt, attachments }
    }

    /// Start a run of `prompt` in the active chat: the user message (with
    /// `@` citations of the attachments) is appended, the chat is marked as
    /// running, and the earlier user and assistant turns are returned.
    pub fn begin_dispatch(&mut self, prompt: &str, attachments: &Vec<AiAttachment>, secs: u64) -> (r: Vec<(AiChatRole, String)>)
        requires
            old(self).wf(),
        ensures
            final(self).wf(),
            final(self).active_id == old(self).active_id,
            final(self).conversations@.len() == old(self).conversations@.len(),
            history_view(r@) == spec_history(msgs_view(old(self).spec_messages())),
            msgs_view(final(self).spec_messages()) == msgs_view(old(self).spec_messages()).push(
                MsgView {
                    role: AiChatRole::User,
                    content: spec_display(prompt@, attachments@.map_values(|a: AiAttachment| a.name@)),
                    attachments: attachments@.map_values(|a: AiAttachment| a.name@),
                    step: None,
                },
            ),
            runs_ids(final(self).active_runs@).contains(old(self).active_id@),
            final(self).busy,
            final(self).status@ == "Analyzing"@,
    {
        proof {
            lemma_conv_index(self.conversations@, self.active_id@);
        }
        let names = attachment_names(attachments);
        let display = if attachments.len() == 0 {
            string_of(&chars_of(prompt))
        } else if chars_of(prompt).len() == 0 {
            cites_exec(&names)
        } else {
            let mut d = String::new();
            push_str(&mut d, prompt);
            push_str(&mut d, "\n\n");
            push_str(&mut d, cites_exec(&names).as_str());
            d
        };
        let i = find_conv(&self.conversations, self.active_id.as_str()).unwrap();
        let ghost before = self.conversations@;
        let mut c = self.conversations.remove(i);
        let ghost mv = msgs_view(c.messages@);
        let mut history: Vec<(AiChatRole, String)> = Vec::new();
        let mut k: usize = 0;
        while k < c.messages.len()
            invariant
                k <= c.messages.len(),
                mv == msgs_view(c.messages@),
                history_view(history@) == spec_history(mv.take(k as int)),
            decreases c.messages.len() - k,
        {
            assert(mv.take(k + 1).drop_last() =~= mv.take(k as int));
            assert(mv.take(k + 1).last() == msg_view(c.messages@[k as int]));
            let role = c.messages[k].role;
            if role == AiChatRole::User || role == AiChatRole::Assistant {
                let ghost hb = history_view(history@);
                history.push((role, string_of(&chars_of(c.messages[k].content.as_str()))));
                assert(history_view(history@) =~= hb.push((role, c.messages@[k as int].content@)));
            }
            k = k + 1;
        }
        assert(mv.take(k as int) =~= mv);
        let ghost mb = c.messages@;
        c.messages.push(AiChatMessage { role: AiChatRole::User, content: display, attachments: names, step: None });
        assert(msgs_view(c.messages@) =~= msgs_view(mb).push(msg_view(c.messages@.last())));
        self.conversations.insert(i, c);
        proof {
            assert(self.conversations@[i as int].id == before[i as int].id);
            assert forall|j: int| 0 <= j < i implies #[trigger] self.conversations@[j].id@ != self.active_id@ by {
                assert(self.conversations@[j] == before[j]);
            }
            lemma_conv_index_is(self.conversations@, self.active_id@, i as int);
        }
        self.persist_active(secs);
        if position_of(&self.active_runs, self.active_id.as_str()).is_none() {
            let ghost rb = runs_ids(self.active_runs@);
            self.active_runs.push(string_of(&chars_of(self.active_id.as_str())));
            assert(runs_ids(self.active_runs@) =~= rb.push(self.active_id@));
            assert(runs_ids(self.active_runs@)[rb.len() as int] == self.active_id@);
        } else {
            proof {
                lemma_first_index_of_contains(runs_ids(self.active_runs@), self.active_id@);
            }
        }
        self.busy = true;
        self.status = string_of(&chars_of("Analyzing"));
        history
    }

    /// Interrupt the active chat's run and take the queued prompt `id` off
    /// the queue, to run it next.
    pub fn switch_to_queued(&mut self, id: &str) -> (r: Option<QueuedPrompt>)
        ensures
            match first_index_of(queue_ids(old(self).queue@), id@) {
                None => r is None && final(self).queue == old(self).queue && final(self).active_runs
                    == old(self).active_runs,
                Some(i) => r == Some(old(self).queue@[i]) && final(self).queue@ == old(self).queue@.remove(i)
                    && !runs_ids(final(self).active_runs@).contains(old(self).active_id@)
                    && final(self).busy == (final(self).active_runs@.len() > 0)
                    && final(self).pending_tool is None
                    && final(self).status@ == "Switching to queued prompt…"@,
            },
            final(self).conversations == old(self).conversations,
            final(self).active_id == old(self).active_id,
    {
        let keys = queue_keys(&self.queue);
        let i = match position_of(&keys, id) {
            Some(i) => i,
            None => return None,
        };
        let item = self.queue.remove(i);
        self.remove_run(&string_of(&chars_of(self.active_id.as_str())));
        self.pending_tool = None;
        self.busy = self.active_runs.len() > 0;
        self.status = string_of(&chars_of("Switching to queued prompt…"));
        Some(item)
    }

    /// Forget every run entry of the chat `conv_id`.
    fn remove_run(&mut self, conv_id: &String)
        ensures
            runs_ids(final(self).active_runs@) == without(runs_ids(old(self).active_runs@), conv_id@),
            !runs_ids(final(self).active_runs@).contains(conv_id@),
            final(self).conversations == old(self).conversations,
            final(self).active_id == old(self).active_id,
            final(self).queue == old(self).queue,
            final(self).pending_tool == old(self).pending_tool,
            final(self).busy == old(self).busy,
            final(self).status == old(self).status,
            final(self).attachments == old(self).attachments,
    {
        let mut kept: Vec<String> = Vec::new();
        let mut i: usize = 0;
        let ghost ov = runs_ids(self.active_runs@);
        while i < self.active_runs.len()
            invariant
                i <= self.active_runs.len(),
                ov == runs_ids(self.active_runs@),
                runs_ids(kept@) == without(ov.take(i as int), conv_id@),
            decreases self.active_runs.len() - i,
        {
            let ghost kb = runs_ids(kept@);
            assert(ov.take(i + 1).drop_last() =~= ov.take(i as int));
            assert(ov.take(i + 1).last() == self.active_runs@[i as int]@);
            if !str_eq(self.active_runs[i].as_str(), conv_id.as_str()) {
                kept.push(string_of(&chars_of(self.active_runs[i].as_str())));
                assert(runs_ids(kept@) =~= kb.push(ov[i as int]));
            }
            i = i + 1;
        }
        assert(ov.take(i as int) =~= ov);
        proof {
            lemma_without(ov, conv_id@);
        }
        self.active_runs = kept;
    }
}

/// `ids` without the entries equal to `x`.
pub open spec fn without(ids: Seq<Seq<char>>, x: Seq<char>) -> Seq<Seq<char>>
    decreases ids.len(),
{
    if ids.len() == 0 {
        ids
    } else {
        let prev = without(ids.drop_last(), x);
        if ids.last() == x { prev } else { prev.push(ids.last()) }
    }
}

proof fn lemma_without(ids: Seq<Seq<char>>, x: Seq<char>)
    ensures
        !without(ids, x).contains(x),
        without(ids, x).len() <= ids.len(),
    decreases ids.len(),
{
    if ids.len() > 0 {
        lemma_without(ids.drop_last(), x);
        let prev = without(ids.drop_last(), x);
        if ids.last() != x {
            assert forall|j: int| 0 <= j < prev.len() + 1 implies prev.push(ids.last())[j] != x by {
                if j < prev.len() {
                    assert(prev.push(ids.last())[j] == prev[j]);
                }
            }
        }
    }
}

proof fn lemma_first_index_of_contains(ids: Seq<Seq<char>>, id: Seq<char>)
    ensures
        (first_index_of(ids, id) is Some) == ids.contains(id),
        first_index_of(ids, id) matches Some(i) ==> 0 <= i < ids.len() && ids[i] == id,
    decreases ids.len(),
{
    if ids.len() > 0 {
        lemma_first_index_of_contains(ids.drop_first(), id);
        if ids[0] != id {
            if ids.contains(id) {
                let j = choose|j: int| 0 <= j < ids.len() && #[trigger] ids[j] == id;
                assert(ids.drop_first()[j - 1] == id);
            }
            if ids.drop_first().contains(id) {
                let j = choose|j: int| 0 <= j < ids.len() - 1 && #[trigger] ids.drop_first()[j] == id;
                assert(ids[j + 1] == id);
            }
        } else {
            assert(ids[0] == id);
        }
    }
}


// ---------------------------------------------------------------------------
// Events of a run
// ---------------------------------------------------------------------------
/// What a run reports to the panel, for the chat it runs in.
#[derive(Debug)]
pub enum AiUiEvent {
    Status { conv_id: String, text: String },
    Append { conv_id: String, msg: AiChatMessage },
    BeginAssistant { conv_id: String },
    AssistantDelta { conv_id: String, delta: String },
    StepStart { conv_id: String, name: String, arguments: String, is_mcp: bool },
    StepEnd { conv_id: String, name: String, output: String, is_error: bool },
    NeedApproval { conv_id: String, name: String, arguments: String },
    SetBusy { conv_id: String, busy: bool },
}

/// What the application does after an event was applied.
#[derive(Debug, Clone, Copy, PartialEq, Eq, Structural)]
pub struct EventEffects {
    /// Save the chats to disk.
    pub save: bool,
    /// Start the next queued prompt.
    pub drain: bool,
    /// Answer the run's approval request with "skip" (its chat is not shown).
    pub skip_approval: bool,
}

pub open spec fn assistant_view(content: Seq<char>) -> MsgView {
    MsgView { role: AiChatRole::Assistant, content, attachments: Seq::empty(), step: None }
}

/// Streamed text joins the assistant message being written, or starts one.
pub open spec fn with_delta(ms: Seq<MsgView>, delta: Seq<char>) -> Seq<MsgView> {
    if ms.len() > 0 && ms.last().role == AiChatRole::Assistant {
        ms.update(ms.len() - 1, MsgView { content: ms.last().content + delta, ..ms.last() })
    } else {
        ms.push(assistant_view(delta))
    }
}

pub open spec fn step_start_view(name: Seq<char>, arguments: Seq<char>, is_mcp: bool) -> MsgView {
    MsgView {
        role: AiChatRole::Activity,
        content: Seq::empty(),
        attachments: Seq::empty(),
        step: Some(
            StepView {
                name,
                arguments,
                output: Seq::empty(),
                state: AiStepState::Running,
                is_mcp,
                files: ai::spec_touched_files(name, arguments),
            },
        ),
    }
}

pub open spec fn is_running_step(m: MsgView, name: Seq<char>) -> bool {
    m.step matches Some(st) && st.name == name && st.state == AiStepState::Running
}

/// The last message holding a running step of the tool `name`.
pub open spec fn last_running(ms: Seq<MsgView>, name: Seq<char>) -> Option<int>
    decreases ms.len(),
{
    if ms.len() == 0 {
        None
    } else if is_running_step(ms.last(), name) {
        Some(ms.len() - 1)
    } else {
        last_running(ms.drop_last(), name)
    }
}

/// A finished step records its output and whether it failed.
pub open spec fn with_step_end(ms: Seq<MsgView>, name: Seq<char>, output: Seq<char>, is_error: bool) -> Seq<MsgView> {
    match last_running(ms, name) {
        Some(i) => {
            let m = ms[i];
            let st = m.step.unwrap();
            ms.update(
                i,
                MsgView {
                    step: Some(
                        StepView {
                            output,
                            state: if is_error { AiStepState::Failed } else { AiStepState::Done },
                            ..st
                        },
                    ),
                    ..m
                },
            )
        },
        None => ms,
    }
}

proof fn lemma_last_running(ms: Seq<MsgView>, name: Seq<char>, k: int)
    requires
        0 <= k <= ms.len(),
        forall|j: int| k <= j < ms.len() ==> !is_running_step(#[trigger] ms[j], name),
    ensures
        last_running(ms, name) == last_running(ms.take(k), name),
    decreases ms.len() - k,
{
    if k == ms.len() {
        assert(ms.take(k) =~= ms);
    } else {
        assert(!is_running_step(ms.last(), name));
        assert(ms.drop_last().take(k) =~= ms.take(k));
        lemma_last_running(ms.drop_last(), name, k);
    }
}

fn append_delta(msgs: &mut Vec<AiChatMessage>, delta: &String)
    ensures
        msgs_view(final(msgs)@) == with_delta(msgs_view(old(msgs)@), delta@),
{
    let ghost before = msgs_view(msgs@);
    let n = msgs.len();
    if n > 0 && msgs[n - 1].role == AiChatRole::Assistant {
        let mut last = msgs.pop().unwrap();
        text::push_str(&mut last.content, delta.as_str());
        let ghost mid = msgs@;
        msgs.push(last);
        assert(msgs_view(msgs@) =~= before.update(n - 1, MsgView { content: before.last().content + delta@, ..before.last() }));
    } else {
        let empty: Vec<String> = Vec::new();
        assert(strings_view(empty@) =~= Seq::<Seq<char>>::empty());
        msgs.push(AiChatMessage { role: AiChatRole::Assistant, content: string_of(&chars_of(delta.as_str())), attachments: empty, step: None });
        assert(msgs_view(msgs@) =~= before.push(assistant_view(delta@)));
    }
}

fn end_step(msgs: &mut Vec<AiChatMessage>, name: &String, output: &String, is_error: bool)
    ensures
        msgs_view(final(msgs)@) == with_step_end(msgs_view(old(msgs)@), name@, output@, is_error),
{
    let ghost mv = msgs_view(msgs@);
    let mut k: usize = msgs.len();
    while k > 0
        invariant
            k <= msgs.len(),
            mv == msgs_view(msgs@),
            mv == msgs_view(old(msgs)@),
            msgs@ == old(msgs)@,
            forall|j: int| k <= j < mv.len() ==> !is_running_step(#[trigger] mv[j], name@),
        decreases k,
    {
        let running = match &msgs[k - 1].step {
            Some(st) => str_eq(st.name.as_str(), name.as_str()) && st.state == AiStepState::Running,
            None => false,
        };
        assert(mv[k - 1] == msg_view(msgs@[k - 1]));
        if running {
            proof {
                lemma_last_running(mv, name@, k as int);
                assert(mv.take(k as int).last() == mv[k - 1]);
            }
            let mut m = msgs.remove(k - 1);
            let mut st = m.step.unwrap();
            st.output = string_of(&chars_of(output.as_str()));
            st.state = if is_error { AiStepState::Failed } else { AiStepState::Done };
            m.step = Some(st);
            msgs.insert(k - 1, m);
            assert(msgs_view(msgs@) =~= with_step_end(mv, name@, output@, is_error));
            return;
        }
        k = k - 1;
    }
    proof {
        lemma_last_running(mv, name@, 0);
        assert(mv.take(0) =~= Seq::<MsgView>::empty());
    }
}

proof fn lemma_same_ids(a: Seq<AiConversation>, b: Seq<AiConversation>, id: Seq<char>)
    requires
        a.len() == b.len(),
        forall|j: int| 0 <= j < a.len() ==> #[trigger] a[j].id@ == b[j].id@,
    ensures
        conv_index(a, id) == conv_index(b, id),
    decreases a.len(),
{
    if a.len() > 0 {
        assert(a[0].id@ == b[0].id@);
        assert forall|j: int| 0 <= j < a.len() - 1 implies #[trigger] a.drop_first()[j].id@ == b.drop_first()[j].id@ by {
            assert(a.drop_first()[j] == a[j + 1]);
            assert(b.drop_first()[j] == b[j + 1]);
        }
        lemma_same_ids(a.drop_first(), b.drop_first(), id);
    }
}

/// The messages of a chat after an event of its run.
pub open spec fn spec_after_event(ms: Seq<MsgView>, ev: AiUiEvent) -> Seq<MsgView> {
    match ev {
        AiUiEvent::Append { msg, .. } => ms.push(msg_view(msg)),
        AiUiEvent::BeginAssistant { .. } => ms.push(assistant_view(Seq::empty())),
        AiUiEvent::AssistantDelta { delta, .. } => with_delta(ms, delta@),
        AiUiEvent::StepStart { name, arguments, is_mcp, .. } => ms.push(step_start_view(name@, arguments@, is_mcp)),
        AiUiEvent::StepEnd { name, output, is_error, .. } => with_step_end(ms, name@, output@, is_error),
        _ => ms,
    }
}

pub open spec fn changes_messages(ev: AiUiEvent) -> bool {
    ev is Append || ev is BeginAssistant || ev is AssistantDelta || ev is StepStart || ev is StepEnd
}

pub open spec fn event_conv(ev: AiUiEvent) -> Seq<char> {
    match ev {
        AiUiEvent::Status { conv_id, .. } => conv_id@,
        AiUiEvent::Append { conv_id, .. } => conv_id@,
        AiUiEvent::BeginAssistant { conv_id } => conv_id@,
        AiUiEvent::AssistantDelta { conv_id, .. } => conv_id@,
        AiUiEvent::StepStart { conv_id, .. } => conv_id@,
        AiUiEvent::StepEnd { conv_id, .. } => conv_id@,
        AiUiEvent::NeedApproval { conv_id, .. } => conv_id@,
        AiUiEvent::SetBusy { conv_id, .. } => conv_id@,
    }
}

impl ChatSession {
    /// Replace the messages of the chat at `k` and refresh its title and time.
    fn set_messages(&mut self, k: usize, msgs: Vec<AiChatMessage>, secs: u64)
        requires
            k < old(self).conversations@.len(),
        ensures
            final(self).conversations@.len() == old(self).conversations@.len(),
            final(self).conversations@[k as int].id == old(self).conversations@[k as int].id,
            final(self).conversations@[k as int].messages == msgs,
            final(self).conversations@[k as int].title@ == ai::spec_derive_title(msgs@),
            final(self).conversations@[k as int].updated_at == secs,
            forall|j: int| 0 <= j < old(self).conversations@.len() && j != k ==> final(self).conversations@[j]
                == #[trigger] old(self).conversations@[j],
            final(self).active_id == old(self).active_id,
            final(self).queue == old(self).queue,
            final(self).active_runs == old(self).active_runs,
            final(self).busy == old(self).busy,
            final(self).status == old(self).status,
            final(self).pending_tool == old(self).pending_tool,
            final(self).mode == old(self).mode,
            final(self).model == old(self).model,
            final(self).attachments == old(self).attachments,
    {
        let mut c = self.conversations.remove(k);
        c.title = derive_title(msgs.as_slice());
        c.messages = msgs;
        c.updated_at = secs;
        self.conversations.insert(k, c);
    }

    /// Apply an event of a run to the chats. Message events change the
    /// messages of the chat they name (whether it is shown or not) and
    /// refresh its title; `Status` and approval requests only concern the
    /// chat shown; the end of a run frees its slot.
    pub fn apply_event(&mut self, ev: AiUiEvent, secs: u64) -> (r: EventEffects)
        ensures
            conv_index(final(self).conversations@, final(self).active_id@) == conv_index(old(self).conversations@, old(self).active_id@),
            final(self).conversations@.len() == old(self).conversations@.len(),
            final(self).active_id == old(self).active_id,
            changes_messages(ev) ==> match conv_index(old(self).conversations@, event_conv(ev)) {
                Some(k) => msgs_view(final(self).conversations@[k].messages@) == spec_after_event(
                    msgs_view(old(self).conversations@[k].messages@),
                    ev,
                ) && final(self).conversations@[k].title@ == ai::spec_derive_title(final(self).conversations@[k].messages@)
                  && final(self).conversations@[k].updated_at == secs
                  && forall|j: int| 0 <= j < old(self).conversations@.len() && j != k ==> final(self).conversations@[j]
                    == #[trigger] old(self).conversations@[j],
                None => final(self).conversations == old(self).conversations,
            },
            changes_messages(ev) ==> r.save == (ev is Append || ev is StepEnd) && !r.drain && !r.skip_approval,
            ev matches AiUiEvent::Status { conv_id, text } ==> final(self).status@ == (if conv_id@ == old(self).active_id@ {
                text@
            } else {
                old(self).status@
            }) && final(self).conversations == old(self).conversations && r == (EventEffects { save: false, drain: false, skip_approval: false }),
            ev matches AiUiEvent::NeedApproval { conv_id, name, arguments } ==> (if conv_id@ == old(self).active_id@ {
                final(self).pending_tool matches Some(p) && p.conv_id@ == conv_id@ && p.name@ == name@ && p.arguments@ == arguments@
                    && final(self).status@ == "Approve tool `"@ + name@ + "`? Run or Skip"@ && !r.skip_approval
            } else {
                r.skip_approval && final(self).pending_tool == old(self).pending_tool
            }) && final(self).conversations == old(self).conversations && !r.save && !r.drain,
            ev matches AiUiEvent::SetBusy { conv_id, busy } ==> (if busy {
                final(self).busy && final(self).conversations == old(self).conversations && !r.save && !r.drain
            } else {
                &&& runs_ids(final(self).active_runs@) == without(runs_ids(old(self).active_runs@), conv_id@)
                &&& final(self).pending_tool is None
                &&& final(self).busy == (final(self).active_runs@.len() > 0)
                &&& r.save
                &&& r.drain == (final(self).active_runs@.len() == 0 && old(self).queue@.len() > 0)
            }) && !r.skip_approval,
    {
        let none = EventEffects { save: false, drain: false, skip_approval: false };
        let ghost before = self.conversations@;
        proof {
            lemma_conv_index(before, self.active_id@);
            lemma_conv_index(before, event_conv(ev));
        }
        match ev {
            AiUiEvent::Status { conv_id, text } => {
                if str_eq(conv_id.as_str(), self.active_id.as_str()) {
                    self.status = text;
                }
                none
            },
            AiUiEvent::NeedApproval { conv_id, name, arguments } => {
                if str_eq(conv_id.as_str(), self.active_id.as_str()) {
                    self.status = quoted("Approve tool `", name.as_str(), "`? Run or Skip");
                    self.pending_tool = Some(PendingToolApproval { conv_id, name, arguments });
                    none
                } else {
                    EventEffects { save: false, drain: false, skip_approval: true }
                }
            },
            AiUiEvent::SetBusy { conv_id, busy } => {
                if busy {
                    self.busy = true;
                    return none;
                }
                self.remove_run(&conv_id);
                self.pending_tool = None;
                let still = self.active_runs.len() > 0;
                self.busy = still;
                match find_conv(&self.conversations, conv_id.as_str()) {
                    Some(k) => {
                        if self.conversations[k].messages.len() > 0 {
                            let mut c = self.conversations.remove(k);
                            c.title = derive_title(c.messages.as_slice());
                            c.updated_at = secs;
                            self.conversations.insert(k, c);
                            proof {
                                assert forall|j: int| 0 <= j < self.conversations@.len() implies #[trigger] self.conversations@[j].id@
                                    == before[j].id@ by {
                                    if j != k {
                                        assert(self.conversations@[j] == before[j]);
                                    }
                                }
                                lemma_same_ids(self.conversations@, before, self.active_id@);
                            }
                        }
                    },
                    None => {},
                }
                let drain = !still && self.queue.len() > 0;
                EventEffects { save: true, drain, skip_approval: false }
            },
            _ => {
                let ghost ev0 = ev;
                let k = match find_conv(&self.conversations, event_conv_exec(&ev).as_str()) {
                    Some(k) => k,
                    None => {
                        let save = matches!(ev, AiUiEvent::Append { .. } | AiUiEvent::StepEnd { .. });
                        return EventEffects { save, drain: false, skip_approval: false };
                    },
                };
                let mut c = self.conversations.remove(k);
                let mut msgs: Vec<AiChatMessage> = Vec::new();
                std::mem::swap(&mut msgs, &mut c.messages);
                let ghost cg = c;
                self.conversations.insert(k, c);
                assert(self.conversations@ =~= before.update(k as int, cg));
                assert(msgs@ == before[k as int].messages@);
                let ghost mb = msgs_view(msgs@);
                let save = matches!(ev, AiUiEvent::Append { .. } | AiUiEvent::StepEnd { .. });
                match ev {
                    AiUiEvent::Append { msg, .. } => {
                        msgs.push(msg);
                        assert(msgs_view(msgs@) =~= mb.push(msg_view(msg)));
                    },
                    AiUiEvent::BeginAssistant { .. } => {
                        let empty: Vec<String> = Vec::new();
                        assert(strings_view(empty@) =~= Seq::<Seq<char>>::empty());
                        let content = String::new();
                        assert(content@ =~= Seq::<char>::empty());
                        msgs.push(AiChatMessage { role: AiChatRole::Assistant, content, attachments: empty, step: None });
                        assert(msgs_view(msgs@) =~= mb.push(assistant_view(Seq::empty())));
                    },
                    AiUiEvent::AssistantDelta { delta, .. } => {
                        append_delta(&mut msgs, &delta);
                    },
                    AiUiEvent::StepStart { name, arguments, is_mcp, .. } => {
                        let ghost nv = name@;
                        let ghost av = arguments@;
                        let step = ai::AiAgentStep::new(name, arguments, is_mcp);
                        let empty: Vec<String> = Vec::new();
                        assert(strings_view(empty@) =~= Seq::<Seq<char>>::empty());
                        let content = String::new();
                        assert(content@ =~= Seq::<char>::empty());
                        assert(step.output@ =~= Seq::<char>::empty());
                        msgs.push(AiChatMessage { role: AiChatRole::Activity, content, attachments: empty, step: Some(step) });
                        assert(msgs_view(msgs@) =~= mb.push(step_start_view(nv, av, is_mcp)));
                    },
                    AiUiEvent::StepEnd { name, output, is_error, .. } => {
                        end_step(&mut msgs, &name, &output, is_error);
                    },
                    _ => {},
                }
                proof {
                    assert(msgs_view(msgs@) == spec_after_event(msgs_view(before[k as int].messages@), ev0));
                }
                let ghost mid = self.conversations@;
                assert(mid =~= before.update(k as int, cg));
                self.set_messages(k, msgs, secs);
                proof {
                    assert forall|j: int| 0 <= j < self.conversations@.len() implies #[trigger] self.conversations@[j].id@
                        == before[j].id@ by {
                        if j != k {
                            assert(self.conversations@[j] == mid[j]);
                            assert(mid[j] == before[j]);
                        }
                    }
                    lemma_same_ids(self.conversations@, before, self.active_id@);
                    assert(conv_index(before, event_conv(ev0)) == Some(k as int));
                    assert(msgs_view(self.conversations@[k as int].messages@) == spec_after_event(
                        msgs_view(before[k as int].messages@), ev0));
                    assert forall|j: int| 0 <= j < before.len() && j != k implies self.conversations@[j]
                        == #[trigger] before[j] by {
                        assert(self.conversations@[j] == mid[j]);
                    }
                }
                EventEffects { save, drain: false, skip_approval: false }
            },
        }
    }
}

fn event_conv_exec(ev: &AiUiEvent) -> (r: String)
    ensures
        r@ == event_conv(*ev),
{
    let id = match ev {
        AiUiEvent::Status { conv_id, .. } => conv_id,
        AiUiEvent::Append { conv_id, .. } => conv_id,
        AiUiEvent::BeginAssistant { conv_id } => conv_id,
        AiUiEvent::AssistantDelta { conv_id, .. } => conv_id,
        AiUiEvent::StepStart { conv_id, .. } => conv_id,
        AiUiEvent::StepEnd { conv_id, .. } => conv_id,
        AiUiEvent::NeedApproval { conv_id, .. } => conv_id,
        AiUiEvent::SetBusy { conv_id, .. } => conv_id,
    };
    string_of(&chars_of(id.as_str()))
}


pub open spec fn plain_view(role: AiChatRole, content: Seq<char>) -> MsgView {
    MsgView { role, content, attachments: Seq::empty(), step: None }
}

fn plain_message(role: AiChatRole, content: String) -> (r: AiChatMessage)
    ensures
        msg_view(r) == plain_view(role, content@),
{
    let attachments: Vec<String> = Vec::new();
    assert(strings_view(attachments@) =~= Seq::<Seq<char>>::empty());
    AiChatMessage { role, content, attachments, step: None }
}

fn owned(s: &str) -> (r: String)
    ensures
        r@ == s@,
{
    string_of(&chars_of(s))
}

/// The panel events an agent event of a run in the chat `conv_id` becomes.
/// `streaming` tells whether an assistant message is being written: text
/// starts one when none is, and a tool call ends it.
pub fn map_agent_event(ev: AgentEvent, conv_id: &str, streaming: &mut bool) -> (r: Vec<AiUiEvent>)
    ensures
        forall|i: int| 0 <= i < r@.len() ==> event_conv(#[trigger] r@[i]) == conv_id@,
        match ev {
            AgentEvent::State(s) => r@.len() == 1 && (r@[0] matches AiUiEvent::Status { text, .. } && text@ == s@)
                && *final(streaming) == *old(streaming),
            AgentEvent::Activity(a) => r@.len() == 1 && (r@[0] matches AiUiEvent::Append { msg, .. }
                && msg_view(msg) == plain_view(AiChatRole::Activity, a@)) && *final(streaming) == *old(streaming),
            AgentEvent::TextDelta(t) => *final(streaming) && if *old(streaming) {
                r@.len() == 1 && (r@[0] matches AiUiEvent::AssistantDelta { delta, .. } && delta@ == t@)
            } else {
                r@.len() == 2 && r@[0] is BeginAssistant && (r@[1] matches AiUiEvent::AssistantDelta { delta, .. }
                    && delta@ == t@)
            },
            AgentEvent::ToolStart { name, arguments } => !*final(streaming) && r@.len() == 1 && (r@[0] matches AiUiEvent::StepStart {
                name: n,
                arguments: a,
                is_mcp,
                ..
            } && n@ == name@ && a@ == arguments@ && is_mcp == text::starts_with(name@, "mcp__"@)),
            AgentEvent::ToolEnd { name, output, is_error } => r@.len() == 1 && (r@[0] matches AiUiEvent::StepEnd {
                name: n,
                output: o,
                is_error: e,
                ..
            } && n@ == name@ && o@ == output@ && e == is_error) && *final(streaming) == *old(streaming),
            AgentEvent::Error(e) => r@.len() == 2 && (r@[0] matches AiUiEvent::Append { msg, .. } && msg_view(msg)
                == plain_view(AiChatRole::System, "Error: "@ + e@)) && (r@[1] matches AiUiEvent::Status { text, .. }
                && text@ == "Error"@) && *final(streaming) == *old(streaming),
            AgentEvent::Done => r@.len() == 0 && *final(streaming) == *old(streaming),
        },
{
    let mut out: Vec<AiUiEvent> = Vec::new();
    match ev {
        AgentEvent::State(s) => {
            out.push(AiUiEvent::Status { conv_id: owned(conv_id), text: owned(s) });
        },
        AgentEvent::Activity(a) => {
            out.push(AiUiEvent::Append { conv_id: owned(conv_id), msg: plain_message(AiChatRole::Activity, a) });
        },
        AgentEvent::TextDelta(t) => {
            if !*streaming {
                out.push(AiUiEvent::BeginAssistant { conv_id: owned(conv_id) });
                *streaming = true;
            }
            out.push(AiUiEvent::AssistantDelta { conv_id: owned(conv_id), delta: t });
        },
        AgentEvent::ToolStart { name, arguments } => {
            *streaming = false;
            let is_mcp = text::starts_with_exec(&chars_of(name.as_str()), &chars_of("mcp__"));
            out.push(AiUiEvent::StepStart { conv_id: owned(conv_id), name, arguments, is_mcp });
        },
        AgentEvent::ToolEnd { name, output, is_error } => {
            out.push(AiUiEvent::StepEnd { conv_id: owned(conv_id), name, output, is_error });
        },
        AgentEvent::Error(e) => {
            let mut m = String::new();
            push_str(&mut m, "Error: ");
            push_str(&mut m, e.as_str());
            out.push(AiUiEvent::Append { conv_id: owned(conv_id), msg: plain_message(AiChatRole::System, m) });
            out.push(AiUiEvent::Status { conv_id: owned(conv_id), text: owned("Error") });
        },
        AgentEvent::Done => {},
    }
    out
}

} // verus!
