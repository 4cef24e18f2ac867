use mini_agent::agent::Agent;
use mini_agent::config::{
    default_config, get_config_dir, get_config_path, get_data_dir, get_global_config_dir,
    get_identity_path, get_skills_dir, join_path, local_config_path, logs_events, review_model,
    uses_builtin_memory, uses_file_memory, APP_NAME,
};
use mini_agent::file_memory::MemoryTarget;
use mini_agent::heartbeat::{cleanup_report, parse_task, parse_tasks, HeartbeatTask};
use mini_agent::json::{parse, render, Json};
use mini_agent::memory_reviewer::ReviewResult;
use mini_agent::models::{
    default_max_iterations, default_observer_kind, CompressionConfig, FileMemoryConfig,
    HeartbeatConfig, McpServerConfig, Message, MessageRole, ObserverConfig, ReviewConfig, SkillsConfig,
};
use mini_agent::observer::{Event, LogLevel, LogObserver};
use mini_agent::repl::{
    agrees, builtin_tools, help_text, is_command, memory_answer, memory_request, memory_status,
    new_session_text, parse_args, parse_slash, provider_for, review_text, says_yes, terminal_text,
    unknown_command_text, unknown_memory_action, wizard_config, CliAction, MemoryRequest, SlashCommand,
    WizardAnswers,
};
use mini_agent::session_search::{
    browse_text, browses_instead, discover_text, refusal_text, results_from_summaries, scroll_after,
    scroll_before, scroll_text, scroll_window, search_request, MessageRow, SearchRequest,
    SessionSearchResult, SessionSummary,
};

fn strings(v: &[&str]) -> Vec<String> {
    v.iter().map(|s| s.to_string()).collect()
}

fn args(s: &str) -> Json {
    parse(s).unwrap()
}

#[test]
fn events_are_logged() {
    let log = |e: Event| LogObserver.on_event(&e);
    let (level, text) = log(Event::SessionStart { session_id: "s".to_string() });
    assert!(level == LogLevel::Info);
    assert_eq!(text, "[observer] Session start: s");
    let (_, text) = log(Event::TurnStart { turn_number: 2, user_message_preview: "a".repeat(61) });
    assert_eq!(text, format!("[observer] Turn 2 start: {}...", "a".repeat(60)));
    let (level, text) = log(Event::LlmRequest { model: "m".to_string(), messages_count: 1, tools_count: 0 });
    assert!(level == LogLevel::Debug);
    assert_eq!(text, "[observer] LLM request → model=m, messages=1, tools=0");
    let (_, text) = log(Event::LlmResponse {
        model: "m".to_string(),
        prompt_tokens: 1,
        completion_tokens: -2,
        latency_ms: 30,
    });
    assert_eq!(text, "[observer] LLM response ← model=m, tokens=1+-2 (30ms)");
    let (_, text) = log(Event::ToolCall { name: "t".to_string(), args: args("{\"a\": 1}") });
    assert_eq!(text, "[observer] Tool call: t args={\"a\":1}");
    let (_, text) = log(Event::ToolResult { name: "t".to_string(), success: false, duration_ms: 5, output_len: 9 });
    assert_eq!(text, "[observer] Tool result: t success=false 5ms len=9");
    let (_, text) = log(Event::MemoryWrite { key: "k".to_string(), category: "c".to_string() });
    assert_eq!(text, "[observer] Memory write: key='k' category='c'");
    let (_, text) = log(Event::TurnComplete { turn_number: 1, api_calls: 2, total_tokens: 3 });
    assert_eq!(text, "[observer] Turn 1 complete: 2 API calls, 3 total tokens");
    let (_, text) = log(Event::SessionEnd { session_id: "s".to_string() });
    assert_eq!(text, "[observer] Session end: s");
    let odd = "a".to_string() + &"é".repeat(30);
    let (level, text) = log(Event::TurnStart { turn_number: 0, user_message_preview: odd });
    assert!(level == LogLevel::Info);
    assert_eq!(text, format!("[observer] Turn 0 start: a{}...", "é".repeat(29)));
    let even = "é".repeat(30);
    let (_, text) = log(Event::TurnStart { turn_number: 0, user_message_preview: even.clone() });
    assert_eq!(text, format!("[observer] Turn 0 start: {}", even));
}

#[test]
fn paths_follow_the_local_configuration() {
    assert_eq!(APP_NAME, "mini-agent");
    assert_eq!(local_config_path(), ".mini-agent/config.toml");
    assert_eq!(get_global_config_dir(Some("/home/u"), None), "/home/u/.mini-agent");
    assert_eq!(get_global_config_dir(None, Some("/profile/")), "/profile/.mini-agent");
    assert_eq!(get_global_config_dir(None, None), "./.mini-agent");
    assert_eq!(get_config_dir(true, Some("/home/u"), None), ".mini-agent");
    assert_eq!(get_config_path(false, Some("/h"), None), "/h/.mini-agent/config.toml");
    assert_eq!(get_data_dir(true, None, None), ".mini-agent/data");
    assert_eq!(get_skills_dir(true, None, None), ".mini-agent/skills");
    assert_eq!(get_identity_path(false, Some("/h"), None), "/h/.mini-agent/identity.md");
    assert_eq!(join_path("", "x"), "x");
    assert_eq!(join_path("/a", "/b"), "/b");
}

#[test]
fn the_usual_configuration() {
    let c = default_config(Some("k"));
    assert_eq!((c.model.provider.as_str(), c.model.model.as_str()), ("openai", "gpt-4o-mini"));
    assert_eq!((c.model.api_key.as_str(), c.model.max_tokens), ("k", 4096));
    assert_eq!((c.review.interval, c.review.max_tokens), (10, 2048));
    assert_eq!(c.heartbeat.tasks, strings(&["auto_summarize", "memory_cleanup"]));
    assert!(uses_builtin_memory(&c.memory));
    assert!(logs_events(&c.observer));
    let mut memory = c.memory.clone();
    memory.provider = "none".to_string();
    assert!(!uses_builtin_memory(&memory));
    assert!(uses_file_memory(&c.file_memory));
    assert!(!uses_file_memory(&FileMemoryConfig { enabled: false, ..FileMemoryConfig::default() }));
    let noop = ObserverConfig { enabled: true, kind: "noop".to_string() };
    assert!(!logs_events(&noop));
    assert!(!logs_events(&ObserverConfig::default()));
    assert_eq!(review_model(&c.review, "m"), "m");
    let other = ReviewConfig { model_override: Some("cheap".to_string()), ..ReviewConfig::default() };
    assert_eq!(review_model(&other, "m"), "cheap");
    assert_eq!(default_max_iterations(), 30);
    assert_eq!(default_observer_kind(), "log");
    assert_eq!(FileMemoryConfig::default().user_char_limit, 1375);
    assert_eq!(CompressionConfig::default().protect_last_n, 20);
    assert_eq!(HeartbeatConfig::default().interval_secs, 0);
    assert!(!SkillsConfig::default().enabled);
}

#[test]
fn messages_carry_what_they_are_given() {
    let m = Message::tool("id", "n", "c").with_reasoning("r");
    assert_eq!(m.role, MessageRole::Tool);
    assert_eq!(m.tool_call_id.as_deref(), Some("id"));
    assert_eq!(m.clone().reasoning.as_deref(), Some("r"));
    assert_eq!(Message::assistant("x").clone().content.as_deref(), Some("x"));
}

#[test]
fn transports_by_type() {
    let mut c = McpServerConfig {
        command: None,
        args: None,
        url: None,
        env: vec![],
        headers: vec![],
        timeout: 1,
        connect_timeout: 1,
        transport_type: "STREAMABLE-http".to_string(),
    };
    assert!(c.is_streamable_http());
    c.transport_type = "http".to_string();
    assert!(!c.is_streamable_http());
}

#[test]
fn background_tasks_by_name() {
    assert_eq!(parse_task("memory_cleanup"), Some(HeartbeatTask::MemoryCleanup));
    assert_eq!(parse_task("auto_summarize"), Some(HeartbeatTask::AutoSummarize));
    assert_eq!(parse_task("x"), None);
    let (tasks, unknown) = parse_tasks(&strings(&["profile_report", "x", "memory_cleanup"]));
    assert_eq!(tasks, vec![HeartbeatTask::ProfileReport, HeartbeatTask::MemoryCleanup]);
    assert_eq!(unknown, strings(&["x"]));
    let (level, text) = cleanup_report(3);
    assert!(level == LogLevel::Info);
    assert_eq!(text, "[heartbeat] Cleaned up 3 old memories");
    assert_eq!(cleanup_report(0).1, "[heartbeat] No old memories to clean up");
}

#[test]
fn arguments_of_the_program() {
    let run = |v: &[&str]| parse_args(&strings(v));
    assert!(matches!(run(&["p"]), CliAction::Run { config: None }));
    assert!(matches!(run(&[]), CliAction::Run { config: None }));
    assert!(matches!(run(&["p", "-v", "-h"]), CliAction::Version));
    assert!(matches!(run(&["p", "x", "--help"]), CliAction::Help));
    assert!(matches!(run(&["p", "--onboard"]), CliAction::Setup));
    assert!(matches!(run(&["p", "-c"]), CliAction::MissingConfigPath));
    assert!(matches!(run(&["p", "-c", "a", "--config", "b"]), CliAction::Run { config: Some(c) } if c == "b"));
    assert!(matches!(run(&["p", "-c", "--help"]), CliAction::Run { config: Some(c) } if c == "--help"));
}

#[test]
fn commands_of_the_user() {
    assert!(is_command("/x"));
    assert!(!is_command("x"));
    assert!(matches!(parse_slash("/q"), SlashCommand::Quit));
    assert!(matches!(parse_slash("/exit now"), SlashCommand::Quit));
    assert!(matches!(parse_slash("/help"), SlashCommand::Help));
    assert!(matches!(parse_slash("/new"), SlashCommand::New));
    assert!(matches!(parse_slash("/review"), SlashCommand::Review));
    assert!(matches!(parse_slash("/skills"), SlashCommand::Skills));
    assert!(matches!(parse_slash("/memory"), SlashCommand::Memory));
    assert!(matches!(parse_slash("/clear"), SlashCommand::Clear));
    assert!(matches!(parse_slash("/model"), SlashCommand::Model { name: None }));
    assert!(matches!(parse_slash("/model gpt"), SlashCommand::Model { name: Some(n) } if n == "gpt"));
    assert!(matches!(
        parse_slash("/deploy  to   prod"),
        SlashCommand::Skill { name, instruction } if name == "deploy" && instruction == "to prod"
    ));
    assert!(matches!(parse_slash("/"), SlashCommand::Nothing));
    assert!(help_text().starts_with("Commands:\n  /quit, /q       Exit\n"));
}

#[test]
fn texts_for_the_user() {
    let a = Agent::with_session_id("m", "12345678-abc".to_string(), 5, false, 10);
    assert_eq!(
        memory_status(&a),
        "Memory status:\n  Session: 12345678-abc\n  Turns: 0\n  API calls: 0\n  Budget: 0/5"
    );
    assert_eq!(
        new_session_text("12345678-abc", "abcdefgh"),
        "🆕 New session started. Old: 12345678..., New: abcdefgh..."
    );
    let result = ReviewResult { actions_executed: 2, summary: "s".to_string() };
    assert_eq!(review_text("Review", &result), "📝 Review saved 2 memories: s");
    let none = ReviewResult { actions_executed: 0, summary: "s".to_string() };
    assert_eq!(review_text("Session review", &none), "📝 Session review: s");
    assert_eq!(
        unknown_command_text("/x"),
        "Unknown command or skill: /x. Type /help for available commands."
    );
    let call = Event::ToolCall { name: "t".to_string(), args: args("{}") };
    assert_eq!(terminal_text(&call, "").as_deref(), Some("\n🔧 Calling tool: t({})"));
    let done = Event::ToolResult { name: "t".to_string(), success: true, duration_ms: 1, output_len: 0 };
    assert_eq!(terminal_text(&done, "1ms").as_deref(), Some("✅ Tool t finished in 1ms"));
    assert_eq!(terminal_text(&Event::SessionEnd { session_id: String::new() }, ""), None);
}

#[test]
fn the_memory_tool_is_asked() {
    let ask = |s: &str| memory_request(&args(s));
    assert!(matches!(
        ask(r#"{"action":"add","key":"k","value":"v","category":"c"}"#),
        MemoryRequest::Add { key, value, category: Some(c) } if key == "k" && value == "v" && c == "c"
    ));
    assert!(matches!(
        ask(r#"{"action":"add","content":"the user likes tea"}"#),
        MemoryRequest::Add { key, value, category: None }
            if key == "the_user_likes" && value == "the user likes tea"
    ));
    assert!(matches!(ask(r#"{"action":"add","key":"k"}"#), MemoryRequest::EmptyAdd));
    assert!(matches!(ask(r#"{"action":"recall","query":"q"}"#), MemoryRequest::Recall { query } if query == "q"));
    assert!(matches!(
        ask(r#"{"action":"replace","target":"user","old_text":"o","content":"n"}"#),
        MemoryRequest::Replace { target: MemoryTarget::User, old_text, content }
            if old_text == "o" && content == "n"
    ));
    assert!(matches!(
        ask(r#"{"action":"remove","target":"USER.md"}"#),
        MemoryRequest::Remove { target: MemoryTarget::User, .. }
    ));
    assert!(matches!(ask(r#"{"action":"remove"}"#), MemoryRequest::Remove { target: MemoryTarget::Memory, .. }));
    assert!(matches!(ask("{}"), MemoryRequest::Unknown { action } if action == ""));
    assert_eq!(unknown_memory_action("fly"), "Unknown memory action: fly");
}

#[test]
fn the_memory_tool_answers() {
    let answer = |s: &str, found: bool| memory_answer(&memory_request(&args(s)), found);
    assert_eq!(answer(r#"{"action":"add","key":"k","value":"v"}"#, true).as_deref(), Some("Remembered: k = v"));
    assert_eq!(
        answer(r#"{"action":"add"}"#, true).as_deref(),
        Some("Error: 'add' requires content or (key + value).")
    );
    assert_eq!(answer(r#"{"action":"recall"}"#, false).as_deref(), Some("No relevant memories found."));
    assert_eq!(answer(r#"{"action":"recall"}"#, true), None);
    assert_eq!(
        answer(r#"{"action":"profile_set","key":"k","value":"v"}"#, true).as_deref(),
        Some("Set profile: k = v")
    );
    assert_eq!(
        answer(r#"{"action":"profile_get","key":"k"}"#, false).as_deref(),
        Some("No profile entry for 'k'")
    );
    assert_eq!(answer(r#"{"action":"replace"}"#, true).as_deref(), Some("Entry replaced successfully."));
    assert_eq!(answer(r#"{"action":"replace"}"#, false).as_deref(), Some("No matching entry found to replace."));
    assert_eq!(answer(r#"{"action":"remove"}"#, true).as_deref(), Some("Entry removed successfully."));
    assert_eq!(answer(r#"{"action":"remove"}"#, false).as_deref(), Some("No matching entry found to remove."));
    let tools = builtin_tools();
    assert_eq!((tools[0].name.as_str(), tools[1].name.as_str()), ("memory", "session_search"));
    assert_eq!(
        render(&tools[0].parameters),
        r#"{"properties":{"action":{"enum":["add","recall","profile_set","profile_get","replace","remove"],"type":"string"},"category":{"type":"string"},"content":{"description":"New content for replace","type":"string"},"key":{"type":"string"},"old_text":{"description":"Text to find for replace/remove","type":"string"},"query":{"type":"string"},"target":{"description":"Target file (memory=MEMORY.md, user=USER.md)","enum":["memory","user"],"type":"string"},"value":{"type":"string"}},"required":["action"],"type":"object"}"#
    );
    assert_eq!(
        render(&tools[1].parameters),
        r#"{"properties":{"limit":{"default":10,"type":"integer"},"message_id":{"type":"integer"},"mode":{"enum":["discover","scroll","browse"],"type":"string"},"query":{"description":"Search query (for discover mode)","type":"string"},"session_id":{"type":"string"}},"required":[],"type":"object"}"#
    );
}

#[test]
fn the_wizard_makes_a_configuration() {
    let mut a = WizardAnswers {
        provider: "2\n".to_string(),
        base_url: String::new(),
        api_key: " key\n".to_string(),
        model: "\n".to_string(),
        memory: "N\n".to_string(),
        heartbeat: "y\n".to_string(),
    };
    let c = wizard_config(&a);
    assert_eq!(c.model.provider, "openrouter");
    assert_eq!(c.model.base_url, "https://openrouter.ai/api/v1");
    assert_eq!(c.model.model, "openai/gpt-4o-mini");
    assert_eq!(c.model.api_key, "key");
    assert!(!c.memory.enabled);
    assert!(c.heartbeat.enabled);
    assert_eq!(c.review.max_tokens, 4096);
    a.provider = "4".to_string();
    a.base_url = " http://mine \n".to_string();
    a.model = "own".to_string();
    let c = wizard_config(&a);
    assert_eq!((c.model.provider.as_str(), c.model.base_url.as_str()), ("custom", "http://mine"));
    assert_eq!(c.model.model, "own");
    assert_eq!(provider_for("3").model, "llama3.2");
    assert_eq!(provider_for("?").name, "openai");
    assert!(says_yes("Y\n"));
    assert!(!says_yes("yes"));
    assert!(agrees("\n"));
    assert!(!agrees("n"));
}

fn row(id: i64, content: Option<&str>) -> MessageRow {
    MessageRow {
        id,
        role: "user".to_string(),
        content: content.map(|c| c.to_string()),
        timestamp: "2024-01-01T00:00:00.123456+00:00".to_string(),
    }
}

fn session(id: &str, title: Option<&str>) -> SessionSummary {
    SessionSummary {
        id: id.to_string(),
        title: title.map(|t| t.to_string()),
        started_at: "2024".to_string(),
        message_count: 4,
        total_tokens: 0,
    }
}

#[test]
fn windows_of_messages() {
    assert!(browses_instead(""));
    assert!(!browses_instead("x"));
    assert_eq!(scroll_before(5), 2);
    assert_eq!(scroll_after(5, 2), 3);
    assert_eq!((scroll_before(0), scroll_before(1), scroll_before(2), scroll_before(3)), (0, 1, 1, 1));
    assert_eq!(scroll_after(1, 1), 0);
    let window = scroll_window(&vec![row(2, None), row(1, None)], &vec![row(3, None)]);
    assert_eq!(window.iter().map(|r| r.id).collect::<Vec<_>>(), vec![1, 2, 3]);
    let results = results_from_summaries(&vec![session("s", Some("t"))]);
    assert_eq!(results[0].session_id, "s");
    assert_eq!(results[0].title.as_deref(), Some("t"));
    assert_eq!((results[0].message_count, results[0].snippet.as_str()), (4, ""));
}

/// The window around a message, out of the messages of a session in the order of time.
fn window_around(messages: &[MessageRow], id: i64, window: usize) -> Vec<MessageRow> {
    let at = messages.iter().position(|m| m.id == id).unwrap();
    let before: Vec<MessageRow> =
        messages[..=at].iter().rev().take(scroll_before(window)).cloned().collect();
    let rest = scroll_after(window, before.len());
    let after: Vec<MessageRow> = messages[at + 1..].iter().take(rest).cloned().collect();
    scroll_window(&before, &after)
}

#[test]
fn test_scroll_with_anchor() {
    let message = |id: i64, role: &str, content: &str| MessageRow {
        role: role.to_string(),
        ..row(id, Some(content))
    };
    let stored =
        vec![message(1, "user", "msg1"), message(2, "assistant", "msg2"), message(3, "user", "msg3")];

    // Scroll around the first message with window=2
    let msgs = window_around(&stored, 1, 2);
    assert_eq!(msgs.len(), 2);
    assert_eq!(msgs[0].role, "user");
    assert_eq!(msgs[0].content, Some("msg1".to_string()));
}

#[test]
fn a_window_holds_its_message() {
    let stored: Vec<MessageRow> = (0..5).map(|i| row(i, None)).collect();
    for window in 1..8 {
        for id in 0..5 {
            let found = window_around(&stored, id, window);
            assert!(found.len() <= window);
            assert!(found.iter().any(|m| m.id == id));
        }
    }
    assert_eq!(window_around(&stored, 2, 1).len(), 1);
    assert_eq!(window_around(&stored, 2, 0).len(), 0);
}

#[test]
fn test_discover_empty_query() {
    let sessions = vec![session("s1", Some("Test"))];
    assert!(browses_instead(""));
    // Empty query falls back to browse, so we should see the session
    let results = results_from_summaries(&sessions);
    assert_eq!(results.len(), 1);
}

#[test]
fn the_search_tool_is_asked() {
    let ask = |s: &str| search_request(true, &args(s));
    assert!(matches!(ask("{}"), SearchRequest::Browse { limit: 10 }));
    assert!(matches!(
        ask(r#"{"mode":"discover","query":"q"}"#),
        SearchRequest::Discover { query, limit: 5 } if query == "q"
    ));
    assert!(matches!(
        ask(r#"{"mode":"scroll","session_id":"s","message_id":-3,"limit":2}"#),
        SearchRequest::Scroll { session_id, message_id: Some(-3), limit: 2 } if session_id == "s"
    ));
    assert_eq!(
        refusal_text(&ask(r#"{"mode":"fly"}"#)).as_deref(),
        Some("Unknown mode. Use discover, scroll, or browse.")
    );
    assert_eq!(
        refusal_text(&search_request(false, &args("{}"))).as_deref(),
        Some("Session search is not enabled.")
    );
    assert_eq!(refusal_text(&ask("{}")), None);
}

#[test]
fn the_search_tool_answers() {
    assert_eq!(discover_text(&vec![]), "No matching sessions found.");
    let found = SessionSearchResult {
        session_id: "123456789".to_string(),
        title: None,
        started_at: String::new(),
        message_count: 2,
        snippet: "<hit>".to_string(),
    };
    assert_eq!(
        discover_text(&vec![found]),
        "Found 1 sessions:\n- [12345678] untitled (2 msgs): <hit>"
    );
    assert_eq!(scroll_text(&vec![]), "No messages found.");
    assert_eq!(
        scroll_text(&vec![row(1, Some("hi")), row(2, None)]),
        "[user] 2024-01-01T00:00:00: hi\n[user] 2024-01-01T00:00:00: "
    );
    assert_eq!(browse_text(&vec![]), "No sessions recorded yet.");
    assert_eq!(
        browse_text(&vec![session("abcdefghi", Some("t"))]),
        "Recent sessions:\n- [abcdefgh] t (4 msgs) — 2024"
    );
}
