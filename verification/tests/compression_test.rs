use mini_agent::compression::ContextCompressor;
use mini_agent::models::{FunctionCall, Message, MessageRole, ToolCall};

fn make_msg(role: MessageRole, content: &str) -> Message {
    Message {
        role,
        content: Some(content.to_string()),
        tool_calls: None,
        tool_call_id: None,
        name: None,
        reasoning: None,
    }
}

fn compressor(
    enabled: bool,
    threshold_percent: f64,
    protect_first_n: usize,
    protect_last_n: usize,
    max_context_tokens: usize,
) -> ContextCompressor {
    let threshold = (max_context_tokens as f64 * threshold_percent) as usize;
    ContextCompressor::new(enabled, threshold, protect_first_n, protect_last_n)
}

#[test]
fn test_should_compress_respects_threshold() {
    let compressor = compressor(true, 0.5, 3, 5, 1000);
    assert!(!compressor.should_compress(400)); // below 50% of 1000
    assert!(compressor.should_compress(600)); // above 50% of 1000
}

#[test]
fn test_should_compress_disabled() {
    let compressor = compressor(false, 0.5, 3, 5, 1000);
    assert!(!compressor.should_compress(10000));
}

#[test]
fn test_anti_thrashing() {
    let mut compressor = compressor(true, 0.5, 3, 5, 1000);
    // Record two low-savings compressions: 0.05 each
    compressor.last_compression_savings.push((5, 100));
    compressor.last_compression_savings.push((5, 100));
    assert!(!compressor.should_compress(600));
}

#[test]
fn test_compress_preserves_head_and_tail() {
    let mut compressor = compressor(true, 0.5, 2, 2, 100);
    let messages = vec![
        make_msg(MessageRole::System, "system prompt"),
        make_msg(MessageRole::User, "first user msg"),
        make_msg(MessageRole::Assistant, "middle 1"),
        make_msg(MessageRole::User, "middle 2"),
        make_msg(MessageRole::Assistant, "last assistant"),
        make_msg(MessageRole::User, "last user"),
    ];

    let (compressed, summary) = compressor.compress(&messages);

    // Head (system + first user) and tail (last assistant + last user) preserved
    assert!(compressed.iter().any(|m| m.content.as_ref().map_or(false, |c| c.contains("system prompt"))));
    assert!(compressed.iter().any(|m| m.content.as_ref().map_or(false, |c| c.contains("last assistant"))));
    assert!(compressed.iter().any(|m| m.content.as_ref().map_or(false, |c| c.contains("last user"))));
    // Summary should exist
    assert!(summary.is_some());
    assert!(summary.as_ref().unwrap().contains("## Conversation Summary"));
}

#[test]
fn test_compress_skips_small_message_list() {
    let mut compressor = compressor(true, 0.5, 3, 3, 100);
    let messages = vec![
        make_msg(MessageRole::User, "hi"),
        make_msg(MessageRole::Assistant, "hello"),
        make_msg(MessageRole::User, "how are you?"),
    ];
    // 3 messages, protect_first_n=3 + protect_last_n=3 = 6, so no compression
    let (compressed, _) = compressor.compress(&messages);
    assert_eq!(compressed.len(), 3);
}

#[test]
fn test_phase1_prune_dedups_tool_results() {
    let compressor = compressor(true, 0.5, 1, 1, 100);
    let messages = vec![
        make_msg(MessageRole::User, "run ls"),
        make_msg(MessageRole::Tool, "file1.txt\nfile2.txt"),
        make_msg(MessageRole::Assistant, "done"),
        make_msg(MessageRole::Tool, "file1.txt\nfile2.txt"), // duplicate
        make_msg(MessageRole::User, "final"),
    ];

    let pruned = compressor.phase1_prune_tool_results(&messages);
    // Second tool result should be replaced with reference
    let tool_msgs: Vec<_> = pruned.iter().filter(|m| m.role == MessageRole::Tool).collect();
    assert_eq!(tool_msgs.len(), 2);
    assert!(tool_msgs[1].content.as_ref().unwrap().contains("Same result"));
}

#[test]
fn test_estimate_tokens() {
    let messages = vec![
        make_msg(MessageRole::User, "hello world"),
        make_msg(MessageRole::Assistant, "hi there"),
    ];
    let tokens = ContextCompressor::estimate_tokens(&messages);
    // "hello world" = 11 chars = ~2 tokens, "hi there" = 8 chars = ~2 tokens
    assert!(tokens >= 4 && tokens <= 5);
}

#[test]
fn test_compression_full_flow() {
    let mut compressor = compressor(true, 0.5, 2, 2, 1000);

    let messages = vec![
        Message::system("You are a helpful assistant."),
        Message::user("What is Rust?"),
        Message::assistant("Rust is a systems programming language."),
        Message::user("Tell me about async."),
        Message::assistant("Async Rust uses async/await syntax with tokio runtime."),
        Message::user("How do I start?"),
    ];

    // Should compress (6 messages > 2+2=4 protected)
    let (compressed, summary) = compressor.compress(&messages);
    assert!(compressed.len() < messages.len());
    assert!(summary.is_some());

    // Should not compress small lists
    let small = vec![Message::user("hi"), Message::assistant("hello")];
    let (unchanged, no_summary) = compressor.compress(&small);
    assert_eq!(unchanged.len(), small.len());
    assert!(no_summary.is_none());
}

#[test]
fn reference_names_the_first_result() {
    let compressor = compressor(true, 0.5, 1, 1, 100);
    let messages = vec![
        Message::user("go"),
        Message::tool("c1", "ls", "a.txt"),
        Message::tool("c2", "ls", "a.txt"),
        Message::tool("c3", "cat", "a.txt"),
    ];
    let pruned = compressor.phase1_prune_tool_results(&messages);
    assert_eq!(pruned.len(), 4);
    assert_eq!(pruned[1].content.as_deref(), Some("a.txt"));
    assert_eq!(pruned[2].content.as_deref(), Some("[Same result as msg #1 — 5 chars]"));
    assert_eq!(pruned[2].tool_call_id.as_deref(), Some("c2"));
    assert_eq!(pruned[3].content.as_deref(), Some("a.txt"));
    let alike = vec![Message::tool("c1", "a:b", "c"), Message::tool("c2", "a", "b:c")];
    let pruned = compressor.phase1_prune_tool_results(&alike);
    assert_eq!(pruned[1].content.as_deref(), Some("b:c"));
}

#[test]
fn long_results_are_shortened() {
    let compressor = compressor(true, 0.5, 1, 1, 100);
    let long = "x".repeat(299) + "\n" + &"y".repeat(300);
    let messages = vec![Message::tool("c1", "ls", &long)];
    let pruned = compressor.phase1_prune_tool_results(&messages);
    let expected = format!(
        "[ls output, 2 lines]\n{}\n... (2 lines total, truncated)",
        "x".repeat(200)
    );
    assert_eq!(pruned[0].content.as_deref(), Some(expected.as_str()));
}

#[test]
fn a_result_cut_within_a_character_cannot_be_compressed() {
    let c = ContextCompressor::new(true, 10, 0, 0);
    let odd = "x".to_string() + &"é".repeat(300);
    assert!(!c.can_compress(&vec![Message::tool("c1", "ls", &odd)]));
    let even = "é".repeat(300);
    assert!(c.can_compress(&vec![Message::tool("c1", "ls", &even)]));
}

#[test]
fn summary_lists_task_actions_and_decisions() {
    let c = ContextCompressor::new(true, 10, 0, 0);
    let middle = vec![
        Message::user("Find the bug"),
        Message::assistant("I have DECIDED to look"),
        Message::tool("c1", "grep", "no match"),
    ];
    let summary = c.phase4_summarize(&middle).unwrap();
    assert_eq!(
        summary,
        "## Conversation Summary\n**Active Task:** Find the bug\n**Actions:** User asked: Find the bug; \
         Agent responded: I have DECIDED to look; Ran tool grep: no match\n\
         **Key Decisions:** I have DECIDED to look"
    );
    assert!(c.phase4_summarize(&vec![]).is_none());
}

#[test]
fn summary_cuts_long_texts() {
    let c = ContextCompressor::new(true, 10, 0, 0);
    let summary = c.phase4_summarize(&vec![Message::user(&"a".repeat(120))]).unwrap();
    assert_eq!(
        summary,
        format!(
            "## Conversation Summary\n**Active Task:** {}...\n**Actions:** User asked: {}...",
            "a".repeat(100),
            "a".repeat(80)
        )
    );
}

#[test]
fn compression_keeps_the_ends_in_place() {
    let mut c = ContextCompressor::new(true, 10, 1, 1);
    let messages = vec![
        Message::user("first"),
        Message::assistant("one"),
        Message::assistant("two"),
        Message::user("last"),
    ];
    let (out, _) = c.compress(&messages);
    assert_eq!(out.len(), 3);
    assert_eq!(out[0].content.as_deref(), Some("first"));
    assert!(out[1].content.as_deref().unwrap().starts_with("[Compressed summary of 2 messages]:\n"));
    assert_eq!(out[2].content.as_deref(), Some("last"));
    assert_eq!(c.last_compression_savings.len(), 1);
}

#[test]
fn only_five_savings_are_kept() {
    let mut c = ContextCompressor::new(true, 10, 0, 0);
    for _ in 0..7 {
        c.compress(&vec![Message::user("hello there")]);
    }
    assert_eq!(c.last_compression_savings.len(), 5);
}

#[test]
fn one_good_compression_ends_thrashing() {
    let mut c = ContextCompressor::new(true, 10, 0, 0);
    c.last_compression_savings.push((5, 100));
    c.last_compression_savings.push((10, 100));
    assert!(c.should_compress(10));
    assert!(!c.should_compress(9));
}

fn calling(content: &str, ids: &[&str]) -> Message {
    let calls = ids
        .iter()
        .map(|id| ToolCall {
            id: id.to_string(),
            call_type: "function".to_string(),
            function: FunctionCall { name: "ls".to_string(), arguments: "{}".to_string() },
        })
        .collect();
    Message::assistant(content).with_tool_calls(calls)
}

fn call_ids(m: &Message) -> Vec<&str> {
    m.tool_calls.iter().flatten().map(|c| c.id.as_str()).collect()
}

#[test]
fn a_result_goes_with_its_call() {
    let mut c = ContextCompressor::new(true, 10, 0, 1);
    let messages = vec![calling("", &["c1"]), Message::tool("c1", "ls", "a.txt")];
    let (out, summary) = c.compress(&messages);
    assert_eq!(out.len(), 1);
    assert!(out[0].role == MessageRole::Assistant);
    assert!(summary.is_some());
}

#[test]
fn a_call_goes_with_its_result() {
    let mut c = ContextCompressor::new(true, 10, 2, 1);
    let messages = vec![
        calling("look", &["c1", "c2"]),
        Message::tool("c2", "ls", "b.txt"),
        Message::tool("c1", "ls", "a.txt"),
        Message::user("last"),
    ];
    let (out, _) = c.compress(&messages);
    assert_eq!(call_ids(&out[0]), vec!["c2"]);
    assert_eq!(out[1].tool_call_id.as_deref(), Some("c2"));
    assert_eq!(out[3].content.as_deref(), Some("last"));

    let mut c = ContextCompressor::new(true, 10, 1, 1);
    let (out, _) = c.compress(&messages);
    assert_eq!(out[0].content.as_deref(), Some("look"));
    assert!(out[0].tool_calls.is_none());
    assert_eq!(out.len(), 3);
    let silent = vec![calling("", &["c1"]), Message::tool("c1", "ls", "a.txt"), Message::user("last")];
    let (out, _) = c.compress(&silent);
    assert_eq!(out.len(), 2);
    assert!(out[0].content.as_deref().unwrap().starts_with("[Compressed summary of 1 messages]:"));
}

#[test]
fn pairs_and_open_calls_stay() {
    let c = ContextCompressor::new(true, 10, 0, 0);
    let messages = vec![
        Message::user("go"),
        calling("", &["c1"]),
        Message::tool("c1", "ls", "a.txt"),
        calling("", &["c2", "c3"]),
        Message::tool("c3", "ls", "b.txt"),
    ];
    let out = c.phase5_sanitize(&messages);
    assert_eq!(out.len(), 5);
    assert_eq!(call_ids(&out[3]), vec!["c2", "c3"]);
    let early = vec![Message::tool("c1", "ls", "a.txt"), calling("x", &["c1"]), Message::user("on")];
    let out = c.phase5_sanitize(&early);
    assert_eq!(out.len(), 2);
    assert!(out[0].tool_calls.is_none());
}
