use devforge::ai::{AiAttachment, AiAttachmentKind, AiChatMessage, AiChatRole, AiStepState};
use devforge::chat::{map_agent_event, AiUiEvent, ChatSession, SendPlan};
use devforge::mode::AgentMode;
use devforge::provider::AgentEvent;

fn session() -> ChatSession {
    ChatSession::new(AgentMode::Ask, "Auto".to_string(), 100, 5)
}

fn attachment(name: &str) -> AiAttachment {
    AiAttachment { path: format!("/ws/{name}"), kind: AiAttachmentKind::Text, name: name.to_string() }
}

fn active_messages(s: &ChatSession) -> &Vec<AiChatMessage> {
    &s.conversations.iter().find(|c| c.id == s.active_id).unwrap().messages
}

#[test]
fn new_session_has_one_empty_chat() {
    let s = session();
    assert_eq!(s.conversations.len(), 1);
    assert_eq!(s.active_id, "chat-100");
    assert_eq!(s.conversations[0].title, "New chat");
    assert!(active_messages(&s).is_empty());
    assert!(!s.busy);
    assert_eq!(s.resolved_model("gpt-4o"), "gpt-4o");
    let mut pinned = session();
    pinned.model = "llama3".to_string();
    assert_eq!(pinned.resolved_model("gpt-4o"), "llama3");
}

#[test]
fn sending_runs_or_queues_by_the_parallel_limit() {
    let mut s = session();
    assert!(matches!(s.plan_send(false, "hi", 2, 1), SendPlan::Disabled));
    assert_eq!(s.status, "AI is disabled in settings");
    assert!(matches!(s.plan_send(true, "   ", 2, 1), SendPlan::Nothing));

    s.add_attachment(attachment("a.rs"));
    match s.plan_send(true, "  explain  ", 2, 1) {
        SendPlan::Run { prompt, attachments } => {
            assert_eq!(prompt, "explain");
            assert_eq!(attachments.len(), 1);
        }
        other => panic!("unexpected {other:?}"),
    }
    assert!(s.attachments.is_empty());

    let history = s.begin_dispatch("explain", &vec![attachment("a.rs")], 6);
    assert!(history.is_empty());
    assert!(s.busy);
    assert_eq!(s.status, "Analyzing");
    assert_eq!(active_messages(&s)[0].content, "explain\n\n@a.rs");

    assert!(matches!(s.plan_send(true, "more", 2, 77), SendPlan::Queued));
    assert_eq!(s.queue.len(), 1);
    assert_eq!(s.queue[0].id, "q-77");
    assert_eq!(s.status, "Queued (1, this chat is busy) — Run Now / Skip, or wait");

    assert!(s.next_queued().is_none());
    s.stop();
    let next = s.next_queued().unwrap();
    assert_eq!(next.prompt, "more");
    assert!(s.queue.is_empty());
}

#[test]
fn run_events_update_the_chat_they_name() {
    let mut s = session();
    s.begin_dispatch("edit it", &vec![], 6);
    let id = s.active_id.clone();
    let mut streaming = false;
    let mut apply = |s: &mut ChatSession, ev: AgentEvent| {
        for e in map_agent_event(ev, &id, &mut streaming) {
            s.apply_event(e, 7);
        }
    };
    apply(&mut s, AgentEvent::TextDelta("Sure".to_string()));
    apply(&mut s, AgentEvent::TextDelta(", editing.".to_string()));
    apply(&mut s, AgentEvent::ToolStart {
        name: "write_file".to_string(),
        arguments: "{\"path\":\"src/a.rs\",\"content\":\"x\"}".to_string(),
    });
    apply(&mut s, AgentEvent::ToolEnd { name: "write_file".to_string(), output: "Wrote 1 bytes".to_string(), is_error: false });
    let msgs = active_messages(&s);
    assert_eq!(msgs.len(), 3);
    assert_eq!(msgs[1].role, AiChatRole::Assistant);
    assert_eq!(msgs[1].content, "Sure, editing.");
    let step = msgs[2].step.as_ref().unwrap();
    assert_eq!(step.state, AiStepState::Done);
    assert_eq!(step.output, "Wrote 1 bytes");
    assert_eq!(step.files, vec!["src/a.rs".to_string()]);
    assert_eq!(s.touched_files(), vec!["src/a.rs".to_string()]);
    assert_eq!(s.conversations[0].title, "edit it");

    let effects = s.apply_event(AiUiEvent::NeedApproval { conv_id: id.clone(), name: "write_file".into(), arguments: "{}".into() }, 8);
    assert!(!effects.skip_approval);
    assert_eq!(s.status, "Approve tool `write_file`? Run or Skip");
    assert_eq!(s.approve_pending_tool(false), Some(false));
    assert_eq!(s.status, "Tool skipped");
    assert_eq!(s.approve_pending_tool(true), None);

    let other = s.apply_event(AiUiEvent::NeedApproval { conv_id: "chat-9".into(), name: "x".into(), arguments: "{}".into() }, 8);
    assert!(other.skip_approval);

    let done = s.apply_event(AiUiEvent::SetBusy { conv_id: id.clone(), busy: false }, 9);
    assert!(done.save && !done.drain);
    assert!(!s.busy);
    assert!(s.active_runs.is_empty());
}

#[test]
fn retry_takes_the_last_prompt_without_citations() {
    let mut s = session();
    assert_eq!(s.retry_prompt(), Err("Nothing to retry yet".to_string()));
    s.begin_dispatch("fix the bug", &vec![attachment("b.rs")], 6);
    assert_eq!(s.retry_prompt(), Err("Busy — stop the run first".to_string()));
    s.stop();
    assert_eq!(s.status, "Cancelled");
    assert_eq!(s.retry_prompt(), Ok("fix the bug".to_string()));
}

#[test]
fn deleting_chats_never_leaves_the_panel_empty() {
    let mut s = session();
    s.new_conversation(200, 6);
    assert_eq!(s.active_id, "chat-200");
    assert_eq!(s.conversations.len(), 2);
    s.select_conversation("chat-100", 7);
    assert_eq!(s.active_id, "chat-100");
    s.delete_conversation("chat-100", 300, 8);
    assert_eq!(s.conversations.len(), 1);
    assert_eq!(s.active_id, "chat-200");
    s.delete_conversation("missing", 301, 9);
    assert_eq!(s.conversations.len(), 1);
    s.delete_conversation("chat-200", 400, 10);
    assert_eq!(s.conversations.len(), 1);
    assert_eq!(s.active_id, "chat-400");
    assert!(active_messages(&s).is_empty());
}

#[test]
fn attachments_and_queue_are_managed() {
    let mut s = session();
    s.add_attachment(attachment("a.rs"));
    s.add_attachment(attachment("a.rs"));
    s.add_attachment(attachment("b.rs"));
    assert_eq!(s.attachments.len(), 2);
    s.remove_attachment("/ws/a.rs");
    assert_eq!(s.attachments.len(), 1);
    assert_eq!(s.attachments[0].name, "b.rs");

    s.begin_dispatch("one", &vec![], 6);
    s.plan_send(true, "two", 1, 11);
    s.plan_send(true, "three", 1, 12);
    assert_eq!(s.queue.len(), 2);
    s.skip_queued("q-11");
    assert_eq!(s.queue.len(), 1);
    let taken = s.switch_to_queued("q-12").unwrap();
    assert_eq!(taken.prompt, "three");
    assert_eq!(s.status, "Switching to queued prompt…");
    assert!(!s.busy);
    s.plan_send(true, "four", 1, 13);
    s.clear_queue();
    assert!(s.queue.is_empty());
}
