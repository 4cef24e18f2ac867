use mini_agent::agent::{
    arguments_or_empty, build_system_prompt, call_arguments, Agent, IterationBudget, Phase, Turn,
};
use mini_agent::hooks::HookResult;
use mini_agent::identity::Identity;
use mini_agent::json::{render, Json};
use mini_agent::llm::Usage;
use mini_agent::models::{FunctionCall, Message, MessageRole, ToolCall, ToolSchema};
use mini_agent::observer::Event;
use mini_agent::tool::ToolOutput;
use mini_agent::tool_registry::ToolRegistry;

fn call(id: &str, name: &str, arguments: &str) -> ToolCall {
    ToolCall {
        id: id.to_string(),
        call_type: "function".to_string(),
        function: FunctionCall { name: name.to_string(), arguments: arguments.to_string() },
    }
}

fn registry(names: &[&str]) -> ToolRegistry<u8> {
    let mut r = ToolRegistry::new();
    for n in names {
        r.register_tool(
            ToolSchema { name: n.to_string(), description: String::new(), parameters: Json::Null },
            0,
        );
    }
    r
}

fn agent(max_iterations: usize) -> Agent {
    Agent::with_session_id("m", "session-1".to_string(), max_iterations, true, 100)
}

fn asked(agent: &mut Agent, text: &str) -> Turn {
    let mut turn = agent.begin_turn(text);
    assert!(agent.next_call(&mut turn));
    turn
}

#[test]
fn the_budget_is_used_up_and_refunded() {
    let mut b = IterationBudget::new(2);
    assert!(b.consume());
    assert!(b.consume());
    assert!(!b.consume());
    assert_eq!(b.remaining(), 0);
    b.refund();
    assert_eq!(b.remaining(), 1);
    b.refund();
    b.refund();
    assert_eq!(b.used, 0);
}

#[test]
fn a_turn_begins_with_the_system_prompt() {
    let mut a = agent(3);
    a.set_system_prompt("be kind".to_string());
    let turn = a.begin_turn("hello");
    assert_eq!(turn.messages.len(), 2);
    assert_eq!(turn.messages[0].role, MessageRole::System);
    assert_eq!(turn.messages[1].content.as_deref(), Some("hello"));
    assert!(turn.phase == Phase::Ready);
}

#[test]
fn a_plain_reply_ends_the_turn() {
    let mut a = agent(3);
    let mut turn = asked(&mut a, "hello");
    let usage = Some(Usage { prompt_tokens: 1, completion_tokens: 2, total_tokens: 3 });
    turn.take_reply(&registry(&[]), Message::assistant("hi"), usage);
    assert!(turn.phase == Phase::Finished);
    assert_eq!(turn.response, "hi");
    let event = a.end_turn(&turn);
    assert!(matches!(event, Event::TurnComplete { turn_number: 1, api_calls: 1, total_tokens: 3 }));
    assert_eq!(a.conversation_history.len(), 2);
    assert_eq!(a.turn_count, 1);
}

#[test]
fn every_call_is_answered_once() {
    let mut a = agent(3);
    let mut turn = asked(&mut a, "do it");
    let reply = Message::assistant("").with_tool_calls(vec![
        call("c1", "ls", "{}"),
        call("c2", "nope", "{}"),
        call("c3", "cat", ""),
        call("c4", "cat", ""),
        call("c5", "cat", ""),
    ]);
    turn.take_reply(&registry(&["ls", "cat"]), reply, None);
    assert!(turn.phase == Phase::Before);
    assert_eq!(turn.messages[1].content, None);
    assert_eq!(
        turn.messages[2].content.as_deref(),
        Some("Tool 'nope' does not exist. Available: check skills_list or use built-in tools.")
    );

    // c1: goes through
    assert_eq!(turn.current_call().id, "c1");
    assert!(turn.take_before(&HookResult::Continue(("ls".to_string(), Json::Null))).is_none());
    assert!(turn.take_result(&Ok(ToolOutput::ok("file"))).is_none());
    let report = turn.take_after(&HookResult::Continue(("ls".to_string(), ToolOutput::ok("file"))));
    assert!(report.success);
    assert_eq!((report.name.as_str(), report.output_len), ("ls", 4));

    // c3: stopped by a hook
    let report = turn.take_before(&HookResult::Cancel("no".to_string())).unwrap();
    assert!(!report.success);
    assert_eq!(report.output_len, 31);

    // c4: cannot be run
    turn.take_before(&HookResult::Continue(("cat".to_string(), Json::Null)));
    assert!(turn.take_result(&Err("boom".to_string())).is_some());

    // c5: held back by a hook
    turn.take_before(&HookResult::Continue(("cat".to_string(), Json::Null)));
    turn.take_result(&Ok(ToolOutput::ok("secret")));
    turn.take_after(&HookResult::Cancel("private".to_string()));

    assert!(turn.phase == Phase::Ready);
    let answers: Vec<(&str, &str)> = turn.messages[2..]
        .iter()
        .map(|m| (m.tool_call_id.as_deref().unwrap(), m.content.as_deref().unwrap()))
        .collect();
    assert_eq!(answers[1], ("c1", "file"));
    assert_eq!(answers[2], ("c3", "Tool call cancelled by hook: no"));
    assert_eq!(answers[3], ("c4", "{\"error\": \"boom\"}"));
    assert_eq!(answers[4], ("c5", "Tool result cancelled by hook: private"));
    assert_eq!(answers.len(), 5);
    assert!(turn.messages[2..].iter().all(|m| m.role == MessageRole::Tool));
}

#[test]
fn a_failed_output_shows_its_error() {
    let mut a = agent(3);
    let mut turn = asked(&mut a, "do it");
    let reply = Message::assistant("x").with_tool_calls(vec![call("c1", "ls", "")]);
    turn.take_reply(&registry(&["ls"]), reply, None);
    turn.take_before(&HookResult::Continue(("ls".to_string(), Json::Null)));
    turn.take_result(&Ok(ToolOutput::err("denied")));
    turn.take_after(&HookResult::Continue(("ls".to_string(), ToolOutput::err("denied"))));
    assert_eq!(turn.messages.last().unwrap().content.as_deref(), Some("Error: denied"));
    let plain = ToolOutput { success: false, text: "t".to_string(), error: None };
    assert_eq!(plain.message_text(), "Error: t");
    assert_eq!(ToolOutput::ok("t").message_text(), "t");
}

#[test]
fn calls_of_unknown_tools_only_lead_straight_on() {
    let mut a = agent(3);
    let mut turn = asked(&mut a, "do it");
    let reply = Message::assistant("x").with_tool_calls(vec![call("c1", "nope", "")]);
    turn.take_reply(&registry(&[]), reply, None);
    assert!(turn.phase == Phase::Ready);
    assert_eq!(turn.messages.len(), 3);
}

#[test]
fn requests_are_bounded() {
    let mut a = agent(2);
    let mut turn = a.begin_turn("x");
    assert!(a.next_call(&mut turn));
    turn.phase = Phase::Ready;
    assert!(a.next_call(&mut turn));
    assert_eq!((a.api_call_count, a.iteration_budget.used), (2, 2));
    assert!(!a.grace_call_used);

    // the grace call, which costs nothing
    turn.phase = Phase::Ready;
    assert!(a.next_call(&mut turn));
    assert!(turn.phase == Phase::Asked);
    assert!(a.grace_call_used);
    assert_eq!((a.api_call_count, a.iteration_budget.used), (3, 2));

    turn.phase = Phase::Ready;
    assert!(!a.next_call(&mut turn));
    assert!(turn.phase == Phase::Finished);
    assert_eq!((a.api_call_count, a.iteration_budget.used), (3, 2));
}

#[test]
fn a_turn_makes_one_request_more_than_its_budget() {
    let tools = registry(&[]);
    let mut a = agent(3);
    let mut turn = a.begin_turn("x");
    let mut requests = 0;
    while a.next_call(&mut turn) {
        requests += 1;
        let reply = Message::assistant("").with_tool_calls(vec![call("c1", "nope", "")]);
        turn.take_reply(&tools, reply, None);
    }
    assert_eq!(requests, 4);
    a.reset_session("s2".to_string());
    assert!(!a.grace_call_used);
}

#[test]
fn a_granted_grace_call_comes_first() {
    let mut a = agent(2);
    a.budget_grace_call = true;
    let mut turn = a.begin_turn("x");
    assert!(a.next_call(&mut turn));
    assert!(!a.budget_grace_call);
    assert!(a.grace_call_used);
    assert_eq!((a.api_call_count, a.iteration_budget.used), (1, 0));
    turn.phase = Phase::Ready;
    assert!(a.next_call(&mut turn));
    turn.phase = Phase::Ready;
    assert!(!a.next_call(&mut turn));
}

#[test]
fn memory_goes_behind_the_last_user_message() {
    let a = agent(2);
    let mut turn = a.begin_turn("question");
    turn.messages.push(Message::assistant("thinking"));
    let sent = turn.request_messages("likes tea");
    let content = sent[0].content.as_deref().unwrap();
    assert!(content.starts_with("question\n\n<memory-context>\n"));
    assert!(content.ends_with("\nlikes tea\n</memory-context>"));
    assert_eq!(sent[1].content.as_deref(), Some("thinking"));
    assert_eq!(turn.messages[0].content.as_deref(), Some("question"));
    assert_eq!(turn.request_messages("  ")[0].content.as_deref(), Some("question"));
}

#[test]
fn usage_adds_up() {
    let a = agent(3);
    let mut turn = a.begin_turn("x");
    let u = Usage { prompt_tokens: 1, completion_tokens: 2, total_tokens: 3 };
    turn.usage = Some(Usage { prompt_tokens: i32::MAX, completion_tokens: 0, total_tokens: 0 });
    assert!(!turn.can_add_usage(Some(u)));
    turn.usage = Some(u);
    turn.phase = Phase::Asked;
    assert!(turn.can_add_usage(Some(u)));
    turn.take_reply(&registry(&[]), Message::assistant("hi"), Some(u));
    assert_eq!(turn.usage.unwrap().total_tokens, 6);
}

#[test]
fn history_is_bounded() {
    let mut a = agent(3);
    a.set_system_prompt("sys".to_string());
    let mut turn = a.begin_turn("0");
    for i in 0..100 {
        turn.messages.push(Message::user(&i.to_string()));
    }
    turn.phase = Phase::Finished;
    a.end_turn(&turn);
    assert_eq!(a.conversation_history.len(), 50);
    assert_eq!(a.conversation_history[0].content.as_deref(), Some("sys"));
    assert_eq!(a.conversation_history[1].content.as_deref(), Some("51"));
    assert_eq!(a.conversation_history[49].content.as_deref(), Some("99"));
}

#[test]
fn arguments_are_read_or_empty() {
    assert_eq!(render(&call_arguments(&call("c", "n", "  "))), "{}");
    assert_eq!(render(&call_arguments(&call("c", "n", "{\"a\":1}"))), "{\"a\":1}");
    assert_eq!(render(&call_arguments(&call("c", "n", "{oops"))), "{}");
    assert_eq!(render(&arguments_or_empty(false, Some(Json::Bool(true)))), "true");
}

#[test]
fn a_new_session_starts_again() {
    let mut a = Agent::new("m", 5, false, 100);
    let first = a.session_id.clone();
    assert_eq!(first.len(), 36);
    assert_eq!(&first[14..15], "4");
    assert!(first.chars().enumerate().all(|(i, c)| if [8, 13, 18, 23].contains(&i) {
        c == '-'
    } else {
        c.is_ascii_hexdigit() && !c.is_ascii_uppercase()
    }));
    let mut turn = asked(&mut a, "x");
    turn.take_reply(&registry(&[]), Message::assistant("hi"), None);
    a.end_turn(&turn);
    a.new_session();
    assert_ne!(a.session_id, first);
    assert_eq!(a.conversation_history.len(), 0);
    assert_eq!((a.turn_count, a.api_call_count, a.iteration_budget.used), (0, 0, 0));
    a.reset_session("s2".to_string());
    assert_eq!(a.session_id, "s2");
    assert!(matches!(a.emit_session_start(), Event::SessionStart { session_id } if session_id == "s2"));
    assert!(matches!(a.emit_session_end(), Event::SessionEnd { session_id } if session_id == "s2"));
}

#[test]
fn a_full_context_is_warned_of() {
    let a = agent(1);
    let long = vec![Message::user(&"x".repeat(204))];
    assert_eq!(a.context_warning(&long), Some(51));
    assert_eq!(a.context_warning(&vec![Message::user(&"x".repeat(200))]), None);
    let off = Agent::with_session_id("m", String::new(), 1, false, 1);
    assert_eq!(off.context_warning(&long), None);
    assert_eq!(Agent::estimate_context_tokens(&long), 51);
}

#[test]
fn the_system_prompt_has_all_parts() {
    let identity = Identity::from_markdown("# Identity\nBot\n## Description\nHelps.");
    assert_eq!(
        build_system_prompt(&identity, Some("## Skills"), "notes", true),
        "You are Bot. Helps.\n\nUse reasoning before tool calls when helpful. Think step by step.\n\n\
         ## Skills\n\n## Memory Context\nnotes\n\n\
         When you need to use a tool, respond with a tool call. Otherwise respond directly."
    );
    assert_eq!(
        build_system_prompt(&identity, None, "", false),
        "You are Bot. Helps.\n\n\
         When you need to use a tool, respond with a tool call. Otherwise respond directly."
    );
}

#[test]
fn events_tell_of_requests() {
    let a = agent(1);
    assert!(matches!(
        a.turn_start_event("hi"),
        Event::TurnStart { turn_number: 0, user_message_preview } if user_message_preview == "hi"
    ));
    assert!(matches!(
        a.request_event(2, 3),
        Event::LlmRequest { model, messages_count: 2, tools_count: 3 } if model == "m"
    ));
    let u = Usage { prompt_tokens: 1, completion_tokens: 2, total_tokens: 3 };
    assert!(matches!(
        a.response_event(Some(u), 9),
        Some(Event::LlmResponse { prompt_tokens: 1, completion_tokens: 2, latency_ms: 9, .. })
    ));
    assert!(a.response_event(None, 9).is_none());
}
