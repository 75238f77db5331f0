//! Pieces of the agent loop that are decisions rather than I/O.
use vstd::prelude::*;

use crate::hooks::{self, truncate_chars, HookEvent, HookOutcome};
use crate::provider::{AgentEvent, ChatMessage, ProviderResponse, Role};
use crate::tools::{self, PermissionLevel, ToolCall, ToolContext, ToolResult, WorkspaceBackend, tool_permission};
use crate::json::JsonValue;
use crate::text::{self, chars_of, string_of, push_str, push_chars, decimal_exec, str_eq};

verus! {

/// Prior turn for multi-turn chat continuity (user / assistant text only).
#[derive(Debug, Clone)]
pub struct HistoryTurn {
    pub role: Role,
    pub content: String,
}

/// Maximum characters of a tool result forwarded to the UI.
pub const MAX_TOOL_OUTPUT_CHARS: usize = 4000;

/// A tool result as forwarded to the UI: at most 4000 characters, followed
/// by a note of how many were left out.
pub fn truncate_tool_output(output: &str) -> (r: String)
    ensures
        r@ == hooks::spec_truncate_chars(output@, MAX_TOOL_OUTPUT_CHARS as nat),
{
    truncate_chars(output, MAX_TOOL_OUTPUT_CHARS)
}


// ---------------------------------------------------------------------------
// The agent loop
// ---------------------------------------------------------------------------
/// What the application reports to a run.
#[derive(Debug)]
pub enum LoopInput {
    /// The cancel flag, read when the run asked for it.
    Cancel(bool),
    /// The model answered, with the JSON text of each tool call's arguments.
    Reply { response: ProviderResponse, argument_texts: Vec<String> },
    /// The streamed model call failed.
    StreamFailed(String),
    /// The non-streamed retry failed too.
    FallbackFailed(String),
    /// The user's answer to the approval asked for.
    Approval(bool),
    /// What the tool call asked for returned.
    ToolDone(ToolResult),
    /// The outcomes of the hooks the run asked to be run, in order.
    HooksDone(Vec<HookOutcome>),
}

/// What a run asks of the application next.
#[derive(Debug, Clone, Copy, PartialEq, Eq, Structural)]
pub enum LoopAction {
    /// Read the cancel flag and report it.
    CheckCancel,
    /// Call the model with the run's messages, streaming.
    CallModel,
    /// Call the model again without streaming.
    CallFallback,
    /// Ask the user to approve the current tool call.
    Approve,
    /// Run the current tool call.
    RunTool,
    /// Run the hooks registered for the event; a failing hook does not stop
    /// the run.
    RunHooks(HookEvent),
    /// The run is over.
    Finish { ok: bool },
}

#[derive(Debug, Clone, Copy, PartialEq, Eq, Structural)]
pub enum Phase {
    /// Before a model round.
    Round,
    /// Waiting for the streamed call.
    Streaming,
    /// Waiting for the non-streamed retry.
    Fallback,
    /// Before the current tool call.
    Call,
    /// Waiting for the approval of the current tool call.
    Approval,
    /// Waiting for the current tool call.
    Tool,
    /// Waiting for the `afterFileEdit` hooks of the current tool call.
    EditHooks,
    /// Waiting for the `afterAgentRun` hooks before the run ends.
    EndHooks,
    Finished,
}

/// One run of the agent: the conversation sent to the model, the tool calls
/// of the last answer, and where the run stands.
pub struct AgentRun {
    pub messages: Vec<ChatMessage>,
    pub calls: Vec<ToolCall>,
    pub argument_texts: Vec<String>,
    /// Index of the current tool call.
    pub next_call: usize,
    /// Model calls made so far.
    pub round: usize,
    pub max_iterations: usize,
    pub require_tool_approval: bool,
    pub phase: Phase,
    /// The error of the failed streamed call, while the retry runs.
    pub stream_error: String,
    /// Whether hooks run: `afterFileEdit` after each successful write or
    /// edit, `afterAgentRun` once when the run ends.
    pub hooks_enabled: bool,
    /// The closing state and result of a run waiting for its end hooks.
    pub end_state: &'static str,
    pub end_ok: bool,
}

/// A tool call needs the user's approval when approvals are required for
/// all tools or when it can change the workspace.
pub open spec fn needs_approval(require_all: bool, name: Seq<char>) -> bool {
    require_all || tools::spec_tool_permission(name) != PermissionLevel::ReadOnly
}

pub struct EventView {
    pub kind: u8,
    pub text: Seq<char>,
    pub extra: Seq<char>,
    pub flag: bool,
}

/// An agent event as plain values: a kind number (0 state, 1 activity,
/// 2 text, 3 tool start, 4 tool end, 5 error, 6 done) and its texts.
pub open spec fn event_view(e: AgentEvent) -> EventView {
    match e {
        AgentEvent::State(s) => EventView { kind: 0, text: s@, extra: Seq::empty(), flag: false },
        AgentEvent::Activity(a) => EventView { kind: 1, text: a@, extra: Seq::empty(), flag: false },
        AgentEvent::TextDelta(t) => EventView { kind: 2, text: t@, extra: Seq::empty(), flag: false },
        AgentEvent::ToolStart { name, arguments } => EventView { kind: 3, text: name@, extra: arguments@, flag: false },
        AgentEvent::ToolEnd { name, output, is_error } => EventView { kind: 4, text: name@, extra: output@, flag: is_error },
        AgentEvent::Error(e) => EventView { kind: 5, text: e@, extra: Seq::empty(), flag: false },
        AgentEvent::Done => EventView { kind: 6, text: Seq::empty(), extra: Seq::empty(), flag: false },
    }
}

pub open spec fn events_view(es: Seq<AgentEvent>) -> Seq<EventView> {
    es.map_values(|e: AgentEvent| event_view(e))
}

pub open spec fn ev_state(s: Seq<char>) -> EventView {
    EventView { kind: 0, text: s, extra: Seq::empty(), flag: false }
}

pub open spec fn ev_done() -> EventView {
    EventView { kind: 6, text: Seq::empty(), extra: Seq::empty(), flag: false }
}

pub open spec fn ev_activity(a: Seq<char>) -> EventView {
    EventView { kind: 1, text: a, extra: Seq::empty(), flag: false }
}

pub open spec fn ev_error(e: Seq<char>) -> EventView {
    EventView { kind: 5, text: e, extra: Seq::empty(), flag: false }
}

/// The first messages of a run, as role and text: the system prompt, the
/// preamble when there is one, then the earlier turns (tool turns left out).
pub open spec fn start_turns(system: Seq<char>, history: Seq<HistoryTurn>, preamble: Seq<char>) -> Seq<(Role, Seq<char>)>
    decreases history.len(),
{
    if history.len() == 0 {
        seq![(Role::System, system)] + if preamble.len() > 0 {
            seq![(Role::System, preamble)]
        } else {
            Seq::empty()
        }
    } else {
        let prev = start_turns(system, history.drop_last(), preamble);
        if history.last().role == Role::Tool {
            prev
        } else {
            prev.push((history.last().role, history.last().content@))
        }
    }
}

/// The inputs a run takes in `phase`; any other input ends it.
pub open spec fn takes_input(phase: Phase, input: LoopInput) -> bool {
    match phase {
        Phase::Round | Phase::Call => input is Cancel,
        Phase::Streaming => input is StreamFailed || input is Reply,
        Phase::Fallback => input is FallbackFailed || input is Reply,
        Phase::Approval => input is Approval,
        Phase::Tool => input is ToolDone,
        Phase::EditHooks | Phase::EndHooks => input is HooksDone,
        Phase::Finished => false,
    }
}

/// The events that open the current tool call of `run`.
pub open spec fn tool_start_events(run: AgentRun) -> Seq<EventView> {
    seq![
        ev_state("Executing tool"@),
        EventView {
            kind: 3,
            text: run.calls@[run.next_call as int].name@,
            extra: run.argument_texts@[run.next_call as int]@,
            flag: false,
        },
    ]
}

/// Where a run goes after its current tool call: to the next call of the
/// same answer, else to a new round.
pub open spec fn after_tool(before: AgentRun, after: AgentRun) -> bool {
    if before.next_call + 1 < before.calls@.len() {
        after.phase == Phase::Call && after.next_call == before.next_call + 1
    } else {
        after.phase == Phase::Round
    }
}

/// The activity line that reports a hook's outcome.
pub open spec fn spec_hook_note(o: HookOutcome) -> Seq<char> {
    "Hook `"@ + o.command@ + "` "@ + (if o.success {
        "succeeded"@
    } else {
        "failed"@
    }) + (if o.output@.len() > 0 {
        ": "@ + o.output@
    } else {
        Seq::empty()
    })
}

pub open spec fn hook_notes(os: Seq<HookOutcome>) -> Seq<EventView> {
    os.map_values(|o: HookOutcome| ev_activity(spec_hook_note(o)))
}

/// The tools whose success fires the `afterFileEdit` hooks.
pub open spec fn is_edit_tool(name: Seq<char>) -> bool {
    name == "write_file"@ || name == "str_replace"@
}

/// How a run ends after reporting `pre`: with the closing `state` and
/// `Done`, or, when hooks are enabled, first by asking for the
/// `afterAgentRun` hooks, the state and result kept for later.
pub open spec fn ends(
    before: AgentRun,
    after: AgentRun,
    r: (Seq<EventView>, LoopAction),
    pre: Seq<EventView>,
    state: Seq<char>,
    ok: bool,
) -> bool {
    if before.hooks_enabled {
        &&& r.1 == LoopAction::RunHooks(HookEvent::AfterAgentRun)
        &&& r.0 == pre
        &&& after.phase == Phase::EndHooks
        &&& after.end_state@ == state
        &&& after.end_ok == ok
    } else {
        &&& r.1 == (LoopAction::Finish { ok })
        &&& r.0 == pre + seq![ev_state(state), ev_done()]
        &&& after.phase == Phase::Finished
    }
}

impl AgentRun {
    pub open spec fn wf(&self) -> bool {
        &&& self.round <= self.max_iterations
        &&& self.calls@.len() == self.argument_texts@.len()
        &&& (self.phase is Call || self.phase is Approval || self.phase is Tool || self.phase is EditHooks)
            ==> self.next_call < self.calls@.len()
    }

    /// A run of `user` (with its images) after `history`: the system prompt
    /// `system`, the preamble when there is one, the earlier user, assistant
    /// and system turns with their texts, then the user message.
    pub fn start(
        system: String,
        preamble: String,
        history: &Vec<HistoryTurn>,
        user: String,
        images: Vec<String>,
        max_iterations: usize,
        require_tool_approval: bool,
        hooks_enabled: bool,
    ) -> (r: (AgentRun, Vec<AgentEvent>))
        ensures
            r.0.wf(),
            r.0.phase == Phase::Round,
            r.0.round == 0,
            r.0.max_iterations == (if max_iterations < 1 { 1 } else { max_iterations }),
            r.0.require_tool_approval == require_tool_approval,
            r.0.hooks_enabled == hooks_enabled,
            r.0.messages@.len() == start_turns(system@, history@, preamble@).len() + 1,
            forall|i: int| 0 <= i < start_turns(system@, history@, preamble@).len() ==> (#[trigger] r.0.messages@[i]).role
                == start_turns(system@, history@, preamble@)[i].0 && r.0.messages@[i].content@ == start_turns(
                system@,
                history@,
                preamble@,
            )[i].1,
            r.0.messages@.last().role == Role::User && r.0.messages@.last().content@ == user@,
            events_view(r.1@) == seq![ev_state("Analyzing"@)],
    {
        let ghost sys = system@;
        let ghost pre = preamble@;
        let mut messages: Vec<ChatMessage> = Vec::new();
        messages.push(ChatMessage::system(system));
        let has_preamble = chars_of(preamble.as_str()).len() > 0;
        if has_preamble {
            messages.push(ChatMessage::system(preamble));
        }
        assert(start_turns(sys, history@.take(0), pre) =~= seq![(Role::System, sys)] + if pre.len() > 0 {
            seq![(Role::System, pre)]
        } else {
            Seq::empty()
        });
        let mut i: usize = 0;
        while i < history.len()
            invariant
                i <= history.len(),
                messages@.len() == start_turns(sys, history@.take(i as int), pre).len(),
                forall|j: int| 0 <= j < messages@.len() ==> (#[trigger] messages@[j]).role == start_turns(
                    sys,
                    history@.take(i as int),
                    pre,
                )[j].0 && messages@[j].content@ == start_turns(sys, history@.take(i as int), pre)[j].1,
            decreases history.len() - i,
        {
            assert(history@.take(i + 1).drop_last() =~= history@.take(i as int));
            assert(history@.take(i + 1).last() == history@[i as int]);
            let ghost mb = messages@;
            let turn = &history[i];
            let content = string_of(&chars_of(turn.content.as_str()));
            match turn.role {
                Role::User => messages.push(ChatMessage::user(content)),
                Role::Assistant => messages.push(ChatMessage::assistant_text(content)),
                Role::System => messages.push(ChatMessage::system(content)),
                Role::Tool => {},
            }
            assert forall|j: int| 0 <= j < messages@.len() implies (#[trigger] messages@[j]).role == start_turns(
                sys,
                history@.take(i + 1),
                pre,
            )[j].0 && messages@[j].content@ == start_turns(sys, history@.take(i + 1), pre)[j].1 by {
                if j < mb.len() {
                    assert(messages@[j] == mb[j]);
                }
            }
            i = i + 1;
        }
        assert(history@.take(i as int) =~= history@);
        let ghost mb = messages@;
        messages.push(ChatMessage::user_with_images(user, images));
        assert forall|j: int| 0 <= j < mb.len() implies messages@[j] == mb[j] by {}
        let mut events: Vec<AgentEvent> = Vec::new();
        events.push(AgentEvent::State("Analyzing"));
        assert(events_view(events@) =~= seq![ev_state("Analyzing"@)]);
        let run = AgentRun {
            messages,
            calls: Vec::new(),
            argument_texts: Vec::new(),
            next_call: 0,
            round: 0,
            max_iterations: if max_iterations < 1 { 1 } else { max_iterations },
            require_tool_approval,
            phase: Phase::Round,
            stream_error: String::new(),
            hooks_enabled,
            end_state: "Completed",
            end_ok: true,
        };
        (run, events)
    }
}


fn owned(s: &str) -> (r: String)
    ensures
        r@ == s@,
{
    string_of(&chars_of(s))
}

pub open spec fn round_note(round: nat) -> Seq<char> {
    "Model request (round "@ + text::decimal(round) + ")…"@
}

impl AgentRun {
    /// Ask about the current tool call: approval first when it needs one.
    fn begin_call(&mut self, events: &mut Vec<AgentEvent>) -> (r: LoopAction)
        requires
            old(self).wf(),
            old(self).next_call < old(self).calls@.len(),
        ensures
            final(self).hooks_enabled == old(self).hooks_enabled,
            final(self).max_iterations == old(self).max_iterations,
            final(self).require_tool_approval == old(self).require_tool_approval,
            final(self).argument_texts == old(self).argument_texts,
            final(self).wf(),
            final(self).round == old(self).round,
            final(self).next_call == old(self).next_call,
            final(self).calls == old(self).calls,
            final(self).messages == old(self).messages,
            needs_approval(old(self).require_tool_approval, old(self).calls@[old(self).next_call as int].name@) ==> r
                == LoopAction::Approve && final(self).phase == Phase::Approval && final(events)@ == old(events)@,
            !needs_approval(old(self).require_tool_approval, old(self).calls@[old(self).next_call as int].name@) ==> r
                == LoopAction::RunTool && final(self).phase == Phase::Tool && events_view(final(events)@)
                == events_view(old(events)@) + seq![
                ev_state("Executing tool"@),
                EventView {
                    kind: 3,
                    text: old(self).calls@[old(self).next_call as int].name@,
                    extra: old(self).argument_texts@[old(self).next_call as int]@,
                    flag: false,
                },
            ],
    {
        let k = self.next_call;
        let name = self.calls[k].name.as_str();
        let perm = tool_permission(name);
        if self.require_tool_approval || perm != PermissionLevel::ReadOnly {
            self.phase = Phase::Approval;
            return LoopAction::Approve;
        }
        self.start_tool(events);
        LoopAction::RunTool
    }

    fn start_tool(&mut self, events: &mut Vec<AgentEvent>)
        requires
            old(self).wf(),
            old(self).next_call < old(self).calls@.len(),
        ensures
            final(self).hooks_enabled == old(self).hooks_enabled,
            final(self).max_iterations == old(self).max_iterations,
            final(self).require_tool_approval == old(self).require_tool_approval,
            final(self).argument_texts == old(self).argument_texts,
            final(self).wf(),
            final(self).phase == Phase::Tool,
            final(self).round == old(self).round,
            final(self).next_call == old(self).next_call,
            final(self).calls == old(self).calls,
            final(self).messages == old(self).messages,
            events_view(final(events)@) == events_view(old(events)@) + seq![
                ev_state("Executing tool"@),
                EventView {
                    kind: 3,
                    text: old(self).calls@[old(self).next_call as int].name@,
                    extra: old(self).argument_texts@[old(self).next_call as int]@,
                    flag: false,
                },
            ],
    {
        let k = self.next_call;
        let ghost before = events_view(events@);
        events.push(AgentEvent::State("Executing tool"));
        events.push(AgentEvent::ToolStart { name: owned(self.calls[k].name.as_str()), arguments: owned(self.argument_texts[k].as_str()) });
        self.phase = Phase::Tool;
        assert(events_view(events@) =~= before + seq![
            ev_state("Executing tool"@),
            EventView { kind: 3, text: self.calls@[k as int].name@, extra: self.argument_texts@[k as int]@, flag: false },
        ]);
    }

    /// After a tool call: on to the next one, or to the next round.
    fn advance(&mut self) -> (r: LoopAction)
        requires
            old(self).wf(),
            old(self).next_call < old(self).calls@.len(),
        ensures
            final(self).hooks_enabled == old(self).hooks_enabled,
            final(self).max_iterations == old(self).max_iterations,
            final(self).require_tool_approval == old(self).require_tool_approval,
            final(self).argument_texts == old(self).argument_texts,
            final(self).wf(),
            r == LoopAction::CheckCancel,
            final(self).round == old(self).round,
            final(self).calls == old(self).calls,
            final(self).messages == old(self).messages,
            old(self).next_call + 1 < old(self).calls@.len() ==> final(self).phase == Phase::Call && final(self).next_call
                == old(self).next_call + 1,
            old(self).next_call + 1 >= old(self).calls@.len() ==> final(self).phase == Phase::Round,
    {
        if self.next_call < self.calls.len() - 1 {
            self.next_call = self.next_call + 1;
            self.phase = Phase::Call;
        } else {
            self.phase = Phase::Round;
        }
        LoopAction::CheckCancel
    }

    fn finish(&mut self, events: &mut Vec<AgentEvent>, state: &'static str, ok: bool) -> (r: LoopAction)
        requires
            old(self).wf(),
        ensures
            final(self).hooks_enabled == old(self).hooks_enabled,
            final(self).max_iterations == old(self).max_iterations,
            final(self).require_tool_approval == old(self).require_tool_approval,
            final(self).argument_texts == old(self).argument_texts,
            final(self).wf(),
            final(self).phase == Phase::Finished,
            final(self).round == old(self).round,
            final(self).messages == old(self).messages,
            final(self).calls == old(self).calls,
            r == (LoopAction::Finish { ok }),
            events_view(final(events)@) == events_view(old(events)@) + seq![ev_state(state@), ev_done()],
    {
        let ghost before = events_view(events@);
        events.push(AgentEvent::State(state));
        events.push(AgentEvent::Done);
        self.phase = Phase::Finished;
        assert(events_view(events@) =~= before + seq![ev_state(state@), ev_done()]);
        LoopAction::Finish { ok }
    }

    /// End the run with `state`: at once, or after the `afterAgentRun` hooks
    /// when hooks are enabled.
    fn end(&mut self, events: &mut Vec<AgentEvent>, state: &'static str, ok: bool) -> (r: LoopAction)
        requires
            old(self).wf(),
        ensures
            final(self).max_iterations == old(self).max_iterations,
            final(self).require_tool_approval == old(self).require_tool_approval,
            final(self).argument_texts == old(self).argument_texts,
            final(self).hooks_enabled == old(self).hooks_enabled,
            final(self).wf(),
            final(self).round == old(self).round,
            final(self).messages == old(self).messages,
            final(self).calls == old(self).calls,
            ends(*old(self), *final(self), (events_view(final(events)@), r), events_view(old(events)@), state@, ok),
    {
        if self.hooks_enabled {
            self.end_state = state;
            self.end_ok = ok;
            self.phase = Phase::EndHooks;
            LoopAction::RunHooks(HookEvent::AfterAgentRun)
        } else {
            self.finish(events, state, ok)
        }
    }

    /// Take what the application reports and say what to do next (an input
    /// the run did not ask for ends it). A tool
    /// call that can change the workspace (or any, when approvals are
    /// required) runs only after the user approved it; the model is asked at
    /// most `max_iterations` times; a cancelled run ends before its next
    /// model call or tool call. With hooks enabled, the `afterFileEdit` hooks
    /// run after each successful `write_file` or `str_replace`, and the
    /// `afterAgentRun` hooks once before the run ends, however it ends
    /// (an input the run did not ask for aside).
    pub fn step(&mut self, input: LoopInput) -> (r: (Vec<AgentEvent>, LoopAction))
        requires
            old(self).wf(),
            input matches LoopInput::Reply { response, argument_texts } ==> argument_texts@.len()
                == response.tool_calls@.len(),
        ensures
            final(self).wf(),
            final(self).max_iterations == old(self).max_iterations,
            final(self).require_tool_approval == old(self).require_tool_approval,
            final(self).hooks_enabled == old(self).hooks_enabled,
            r.1 == LoopAction::RunTool ==> final(self).phase == Phase::Tool && final(self).next_call < final(self).calls@.len()
                && (!needs_approval(final(self).require_tool_approval, final(self).calls@[final(self).next_call as int].name@)
                || (old(self).phase == Phase::Approval && input == LoopInput::Approval(true))),
            r.1 == LoopAction::CallModel ==> final(self).round == old(self).round + 1 && final(self).phase == Phase::Streaming,
            r.1 != LoopAction::CallModel ==> final(self).round == old(self).round,
            (old(self).phase == Phase::Round || old(self).phase == Phase::Call) && input == LoopInput::Cancel(true)
                ==> ends(*old(self), *final(self), (events_view(r.0@), r.1), Seq::empty(), "Cancelled"@, true),
            old(self).phase == Phase::Round && input == LoopInput::Cancel(false) && old(self).round == old(self).max_iterations
                ==> ends(
                *old(self),
                *final(self),
                (events_view(r.0@), r.1),
                seq![ev_error("Reached max tool iterations without a final answer"@)],
                "Error"@,
                true,
            ),
            old(self).phase == Phase::Round && input == LoopInput::Cancel(false) && old(self).round < old(self).max_iterations
                ==> r.1 == LoopAction::CallModel && events_view(r.0@) == seq![
                ev_activity(round_note(old(self).round as nat + 1)),
                ev_state("Streaming"@),
            ],
            input matches LoopInput::StreamFailed(_) ==> (old(self).phase == Phase::Streaming ==> r.1 == LoopAction::CallFallback
                && events_view(r.0@) == seq![ev_activity("Stream unavailable; retrying without SSE…"@)]),
            input matches LoopInput::FallbackFailed(e2) ==> (old(self).phase == Phase::Fallback ==> ends(
                *old(self),
                *final(self),
                (events_view(r.0@), r.1),
                seq![ev_error(old(self).stream_error@ + "; fallback: "@ + e2@)],
                "Error"@,
                false,
            )),
            input matches LoopInput::Reply { response, argument_texts } ==> ((old(self).phase == Phase::Streaming
                || old(self).phase == Phase::Fallback) ==> (response.tool_calls@.len() == 0 ==> ends(
                *old(self),
                *final(self),
                (events_view(r.0@), r.1),
                if old(self).phase == Phase::Fallback && response.content@.len() > 0 {
                    seq![EventView { kind: 2, text: response.content@, extra: Seq::empty(), flag: false }]
                } else {
                    Seq::<EventView>::empty()
                },
                "Completed"@,
                true,
            )) && (response.tool_calls@.len() > 0 ==> r.1 == LoopAction::CheckCancel && final(self).phase == Phase::Call
                && final(self).next_call == 0 && final(self).calls == response.tool_calls
                && final(self).messages@.len() == old(self).messages@.len() + 1 && r.0@.len() == 0
                && final(self).argument_texts == argument_texts && final(self).messages@.last().role
                == Role::Assistant && final(self).messages@.last().content@ == response.content@
                && final(self).messages@.last().tool_calls == Some(response.raw_tool_calls))),
            old(self).phase == Phase::Approval && input == LoopInput::Approval(false) ==> r.1 == LoopAction::CheckCancel
                && final(self).messages@.len() == old(self).messages@.len() + 1
                && final(self).messages@.last().role == Role::Tool
                && final(self).messages@.last().content@ == "User skipped this tool call."@,
            input matches LoopInput::ToolDone(res) ==> (old(self).phase == Phase::Tool ==> final(self).messages@.len()
                == old(self).messages@.len() + 1
                && final(self).messages@.last().role == Role::Tool
                && final(self).messages@.last().content@ == res.content@
                && (final(self).messages@.last().tool_call_id matches Some(id) && id@ == old(
                self,
            ).calls@[old(self).next_call as int].id@) && final(self).calls == old(self).calls
                && events_view(r.0@) == seq![
                EventView {
                    kind: 4,
                    text: old(self).calls@[old(self).next_call as int].name@,
                    extra: spec_truncate_chars_out(res.content@),
                    flag: res.is_error,
                },
            ] && if old(self).hooks_enabled && !res.is_error && is_edit_tool(
                old(self).calls@[old(self).next_call as int].name@,
            ) {
                r.1 == LoopAction::RunHooks(HookEvent::AfterFileEdit) && final(self).phase == Phase::EditHooks
                    && final(self).next_call == old(self).next_call
            } else {
                r.1 == LoopAction::CheckCancel && after_tool(*old(self), *final(self))
            }),
            input matches LoopInput::HooksDone(outcomes) ==> (old(self).phase == Phase::EditHooks ==> r.1
                == LoopAction::CheckCancel && after_tool(*old(self), *final(self)) && final(self).calls == old(
                self,
            ).calls && final(self).messages == old(self).messages && events_view(r.0@) == hook_notes(outcomes@)),
            input matches LoopInput::HooksDone(outcomes) ==> (old(self).phase == Phase::EndHooks ==> r.1
                == (LoopAction::Finish { ok: old(self).end_ok }) && final(self).phase == Phase::Finished
                && final(self).messages == old(self).messages && events_view(r.0@) == hook_notes(outcomes@) + seq![
                ev_state(old(self).end_state@),
                ev_done(),
            ]),
            match r.1 {
                LoopAction::CheckCancel => final(self).phase == Phase::Round || final(self).phase == Phase::Call,
                LoopAction::CallModel => final(self).phase == Phase::Streaming,
                LoopAction::CallFallback => final(self).phase == Phase::Fallback,
                LoopAction::Approve => final(self).phase == Phase::Approval,
                LoopAction::RunTool => final(self).phase == Phase::Tool,
                LoopAction::RunHooks(e) => (e == HookEvent::AfterFileEdit && final(self).phase == Phase::EditHooks) || (e
                    == HookEvent::AfterAgentRun && final(self).phase == Phase::EndHooks),
                LoopAction::Finish { .. } => final(self).phase == Phase::Finished,
            },
            r.1 is RunHooks ==> final(self).hooks_enabled,
            !takes_input(old(self).phase, input) ==> r.1 == (LoopAction::Finish { ok: false })
                && final(self).phase == Phase::Finished && r.0@.len() == 0
                && final(self).messages == old(self).messages,
            final(self).messages == old(self).messages || (final(self).messages@.len() == old(self).messages@.len() + 1
                && final(self).messages@.drop_last() == old(self).messages@),
            old(self).phase == Phase::Call && input == LoopInput::Cancel(false) ==> final(self).messages
                == old(self).messages && final(self).calls == old(self).calls && final(self).next_call
                == old(self).next_call && (if needs_approval(
                old(self).require_tool_approval,
                old(self).calls@[old(self).next_call as int].name@,
            ) {
                r.1 == LoopAction::Approve && final(self).phase == Phase::Approval && r.0@.len() == 0
            } else {
                r.1 == LoopAction::RunTool && events_view(r.0@) == tool_start_events(*old(self))
            }),
            old(self).phase == Phase::Approval && input == LoopInput::Approval(true) ==> final(self).messages
                == old(self).messages && final(self).calls == old(self).calls && final(self).next_call
                == old(self).next_call && events_view(r.0@) == tool_start_events(*old(self)),
            old(self).phase == Phase::Approval && input == LoopInput::Approval(false) ==> after_tool(
                *old(self),
                *final(self),
            ) && final(self).calls == old(self).calls && events_view(r.0@) == seq![
                ev_activity("Skipped tool `"@ + old(self).calls@[old(self).next_call as int].name@ + "`"@),
            ] && (final(self).messages@.last().tool_call_id matches Some(id) && id@ == old(
                self,
            ).calls@[old(self).next_call as int].id@),
    {
        let mut events: Vec<AgentEvent> = Vec::new();
        assert(events_view(events@) =~= Seq::<EventView>::empty());
        match (self.phase, input) {
            (Phase::Round, LoopInput::Cancel(cancelled)) => {
                if cancelled {
                    let a = self.end(&mut events, "Cancelled", true);
                    return (events, a);
                }
                if self.round >= self.max_iterations {
                    events.push(AgentEvent::Error(owned("Reached max tool iterations without a final answer")));
                    assert(events_view(events@) =~= seq![ev_error("Reached max tool iterations without a final answer"@)]);
                    let a = self.end(&mut events, "Error", true);
                    return (events, a);
                }
                self.round = self.round + 1;
                let mut note = String::new();
                push_str(&mut note, "Model request (round ");
                push_chars(&mut note, &decimal_exec(self.round as u128));
                push_str(&mut note, ")…");
                events.push(AgentEvent::Activity(note));
                events.push(AgentEvent::State("Streaming"));
                self.phase = Phase::Streaming;
                (events, LoopAction::CallModel)
            },
            (Phase::Streaming, LoopInput::StreamFailed(e)) => {
                self.stream_error = e;
                events.push(AgentEvent::Activity(owned("Stream unavailable; retrying without SSE…")));
                self.phase = Phase::Fallback;
                (events, LoopAction::CallFallback)
            },
            (Phase::Fallback, LoopInput::FallbackFailed(e2)) => {
                let mut m = String::new();
                push_str(&mut m, self.stream_error.as_str());
                push_str(&mut m, "; fallback: ");
                push_str(&mut m, e2.as_str());
                events.push(AgentEvent::Error(m));
                assert(events_view(events@) =~= seq![ev_error(self.stream_error@ + "; fallback: "@ + e2@)]);
                let a = self.end(&mut events, "Error", false);
                (events, a)
            },
            (phase, LoopInput::Reply { response, argument_texts }) if phase == Phase::Streaming || phase == Phase::Fallback => {
                let ProviderResponse { content, tool_calls, raw_tool_calls } = response;
                if phase == Phase::Fallback && chars_of(content.as_str()).len() > 0 && tool_calls.len() == 0 {
                    events.push(AgentEvent::TextDelta(owned(content.as_str())));
                }
                if tool_calls.len() == 0 {
                    assert(events_view(events@) =~= (if phase == Phase::Fallback && content@.len() > 0 {
                        seq![EventView { kind: 2, text: content@, extra: Seq::empty(), flag: false }]
                    } else {
                        Seq::<EventView>::empty()
                    }));
                    let a = self.end(&mut events, "Completed", true);
                    return (events, a);
                }
                self.messages.push(ChatMessage::assistant_tools(content, raw_tool_calls));
                self.calls = tool_calls;
                self.argument_texts = argument_texts;
                self.next_call = 0;
                self.phase = Phase::Call;
                (events, LoopAction::CheckCancel)
            },
            (Phase::Call, LoopInput::Cancel(cancelled)) => {
                if cancelled {
                    let a = self.end(&mut events, "Cancelled", true);
                    return (events, a);
                }
                let a = self.begin_call(&mut events);
                (events, a)
            },
            (Phase::Approval, LoopInput::Approval(approved)) => {
                let k = self.next_call;
                if approved {
                    self.start_tool(&mut events);
                    return (events, LoopAction::RunTool);
                }
                let mut note = String::new();
                push_str(&mut note, "Skipped tool `");
                push_str(&mut note, self.calls[k].name.as_str());
                push_str(&mut note, "`");
                events.push(AgentEvent::Activity(note));
                self.messages.push(ChatMessage::tool(owned(self.calls[k].id.as_str()), owned("User skipped this tool call.")));
                let a = self.advance();
                (events, a)
            },
            (Phase::Tool, LoopInput::ToolDone(result)) => {
                let k = self.next_call;
                let ghost cv = result.content@;
                let shown = truncate_tool_output(result.content.as_str());
                let edited = !result.is_error && (str_eq(self.calls[k].name.as_str(), "write_file") || str_eq(
                    self.calls[k].name.as_str(),
                    "str_replace",
                ));
                events.push(AgentEvent::ToolEnd { name: owned(self.calls[k].name.as_str()), output: shown, is_error: result.is_error });
                self.messages.push(ChatMessage::tool(owned(self.calls[k].id.as_str()), result.content));
                if self.hooks_enabled && edited {
                    self.phase = Phase::EditHooks;
                    return (events, LoopAction::RunHooks(HookEvent::AfterFileEdit));
                }
                let a = self.advance();
                (events, a)
            },
            (Phase::EditHooks, LoopInput::HooksDone(outcomes)) => {
                report_hooks(&mut events, &outcomes);
                let a = self.advance();
                (events, a)
            },
            (Phase::EndHooks, LoopInput::HooksDone(outcomes)) => {
                report_hooks(&mut events, &outcomes);
                let state = self.end_state;
                let ok = self.end_ok;
                let a = self.finish(&mut events, state, ok);
                (events, a)
            },
            (_, _) => {
                self.phase = Phase::Finished;
                (events, LoopAction::Finish { ok: false })
            },
        }
    }
}

fn hook_note(o: &HookOutcome) -> (r: String)
    ensures
        r@ == spec_hook_note(*o),
{
    let mut note = String::new();
    push_str(&mut note, "Hook `");
    push_str(&mut note, o.command.as_str());
    push_str(&mut note, "` ");
    if o.success {
        push_str(&mut note, "succeeded");
    } else {
        push_str(&mut note, "failed");
    }
    if chars_of(o.output.as_str()).len() > 0 {
        push_str(&mut note, ": ");
        push_str(&mut note, o.output.as_str());
    }
    note
}

/// Report each hook's outcome as an activity line.
fn report_hooks(events: &mut Vec<AgentEvent>, outcomes: &Vec<HookOutcome>)
    ensures
        events_view(final(events)@) == events_view(old(events)@) + hook_notes(outcomes@),
{
    let ghost start = events_view(events@);
    let mut i: usize = 0;
    while i < outcomes.len()
        invariant
            i <= outcomes.len(),
            events_view(events@) == start + hook_notes(outcomes@.take(i as int)),
        decreases outcomes.len() - i,
    {
        let ghost before = events_view(events@);
        events.push(AgentEvent::Activity(hook_note(&outcomes[i])));
        assert(events_view(events@) =~= before.push(ev_activity(spec_hook_note(outcomes@[i as int]))));
        assert(hook_notes(outcomes@.take(i + 1)) =~= hook_notes(outcomes@.take(i as int)).push(
            ev_activity(spec_hook_note(outcomes@[i as int])),
        ));
        i = i + 1;
    }
    assert(outcomes@.take(i as int) =~= outcomes@);
}

pub open spec fn spec_truncate_chars_out(s: Seq<char>) -> Seq<char> {
    hooks::spec_truncate_chars(s, MAX_TOOL_OUTPUT_CHARS as nat)
}

/// The tools offered to the model: the built-in ones, then the MCP tools
/// (when any); a value that is not an array counts as none.
pub open spec fn spec_tool_items(v: JsonValue) -> Seq<JsonValue> {
    match v {
        JsonValue::Array(items) => items@,
        _ => Seq::empty(),
    }
}

/// The built-in tool definitions followed by the MCP ones.
pub fn merge_tools(base: JsonValue, mcp: Option<JsonValue>) -> (r: JsonValue)
    ensures
        r matches JsonValue::Array(items) && items@ == spec_tool_items(base) + match mcp {
            Some(m) => spec_tool_items(m),
            None => Seq::<JsonValue>::empty(),
        },
{
    let mut arr = match base {
        JsonValue::Array(items) => items,
        _ => Vec::new(),
    };
    match mcp {
        Some(JsonValue::Array(extra)) => {
            let mut extra = extra;
            arr.append(&mut extra);
        },
        _ => {},
    }
    JsonValue::Array(arr)
}

/// The answer to a tool call. A call named `mcp__...` is answered by the MCP
/// hub: `mcp_reply` is what the hub returned for it (`None` when MCP is not
/// enabled). Any other call runs as a workspace tool.
pub fn dispatch_tool<B: WorkspaceBackend>(
    ctx: &ToolContext<B>,
    call: &ToolCall,
    mcp_reply: Option<Result<String, String>>,
) -> (r: ToolResult)
    ensures
        text::starts_with(call.name@, "mcp__"@) ==> match mcp_reply {
            None => r.is_error && r.content@ == "MCP is not enabled"@,
            Some(Ok(c)) => !r.is_error && r.content@ == c@,
            Some(Err(e)) => r.is_error && r.content@ == e@,
        },
        !text::starts_with(call.name@, "mcp__"@) && !tools::is_known_tool(call.name@) ==> r.is_error
            && r.content@ == "unknown tool: "@ + call.name@,
        !text::starts_with(call.name@, "mcp__"@) ==> (tools::spec_arg_error(call.name@, call.arguments) matches Some(e) ==> r.is_error && r.content@ == e),
{
    if text::starts_with_exec(&chars_of(call.name.as_str()), &chars_of("mcp__")) {
        return match mcp_reply {
            Some(Ok(content)) => ToolResult { content, is_error: false },
            Some(Err(e)) => ToolResult { content: e, is_error: true },
            None => ToolResult { content: string_of(&chars_of("MCP is not enabled")), is_error: true },
        };
    }
    tools::execute_tool(ctx, call)
}

} // verus!

