use mini_agent::file_memory::{FileMemoryStore, MemoryTarget};
use mini_agent::memory_reviewer::{
    build_review_prompt, execute_actions, nothing_to_save, session_window, target_of, MemoryReviewer,
    ReviewAction, ReviewActionType, REVIEW_SYSTEM_PROMPT,
};
use mini_agent::models::Message;

fn add(target: &str, content: &str) -> ReviewAction {
    ReviewAction {
        action_type: ReviewActionType::Add,
        target: target.to_string(),
        content: Some(content.to_string()),
        old: None,
        new: None,
    }
}

#[test]
fn test_extract_json_from_markdown() {
    let md = "```json\n{\"actions\":[],\"summary\":\"test\"}\n```";
    assert_eq!(
        MemoryReviewer::extract_json(md),
        r#"{"actions":[],"summary":"test"}"#
    );
}

#[test]
fn test_extract_json_plain() {
    let plain = r#"{"actions":[],"summary":"test"}"#;
    assert_eq!(MemoryReviewer::extract_json(plain), plain);
}

#[test]
fn test_should_review_respects_interval() {
    let mut reviewer = MemoryReviewer::new(3, 8);
    let due: Vec<bool> = (1..=7).map(|turn| reviewer.should_review(turn)).collect();
    assert_eq!(due, vec![false, false, true, false, false, true, false]);
}

#[test]
fn interval_zero_never_reviews() {
    let mut reviewer = MemoryReviewer::new(0, 8);
    assert!((0..20).all(|turn| !reviewer.should_review(turn)));
    assert_eq!(reviewer.interval(), 0);
    assert_eq!(reviewer.window_size(), 8);
}

#[test]
fn a_reset_starts_the_count_again() {
    let mut reviewer = MemoryReviewer::new(2, 8);
    assert!(!reviewer.should_review(1));
    reviewer.reset_counter();
    assert!(!reviewer.should_review(2));
    assert!(reviewer.should_review(3));
}

#[test]
fn fences_come_off() {
    assert_eq!(MemoryReviewer::extract_json("  ```\n{}\n```  "), "{}");
    assert_eq!(MemoryReviewer::extract_json("```json\n{}"), "```json\n{}");
    assert_eq!(MemoryReviewer::extract_json(" {} "), "{}");
    assert_eq!(MemoryReviewer::extract_json("```json\n  {} \n\n```"), "{}");
}

#[test]
fn the_prompt_holds_the_conversation() {
    let prompt = build_review_prompt(&vec![
        Message::user("hi"),
        Message::assistant(""),
        Message::tool("c1", "ls", "out"),
    ]);
    assert_eq!(prompt.len(), 2);
    assert_eq!(prompt[0].content.as_deref(), Some(REVIEW_SYSTEM_PROMPT));
    assert_eq!(
        prompt[1].content.as_deref(),
        Some("## Conversation to review\n\n[user]: hi\n\n[tool]: out\n\n")
    );
}

#[test]
fn facts_are_not_added_twice() {
    let mut store = FileMemoryStore::new("m", "u", 1000, 1000);
    let actions = vec![
        add("memory", "Likes Rust"),
        add("memory", "likes rust"),
        add("memory", "The user LIKES RUST a lot"),
        add("user", "Likes Rust"),
        add("elsewhere", "x"),
    ];
    assert_eq!(execute_actions(&mut store, &actions), 2);
    assert_eq!(store.content_of(MemoryTarget::Memory), "Likes Rust");
    assert_eq!(store.content_of(MemoryTarget::User), "Likes Rust");
    let mut small = FileMemoryStore::new("m", "u", 3, 3);
    small.set_content(MemoryTarget::Memory, "tea");
    assert_eq!(execute_actions(&mut small, &vec![add("memory", "coffee"), add("memory", " ")]), 2);
    assert_eq!(small.content_of(MemoryTarget::Memory), "coffee");
}

#[test]
fn facts_are_replaced_and_removed() {
    let mut store = FileMemoryStore::new("m", "u", 1000, 1000);
    store.set_content(MemoryTarget::Memory, "tabs");
    let replace = ReviewAction {
        action_type: ReviewActionType::Replace,
        target: "memory".to_string(),
        content: None,
        old: Some("tabs".to_string()),
        new: Some("spaces".to_string()),
    };
    let missing = ReviewAction { old: Some("nothing".to_string()), ..replace.clone() };
    let incomplete = ReviewAction { new: None, ..replace.clone() };
    assert_eq!(execute_actions(&mut store, &vec![missing, incomplete, replace.clone()]), 1);
    assert_eq!(store.content_of(MemoryTarget::Memory), "spaces");
    let remove = ReviewAction {
        action_type: ReviewActionType::Remove,
        old: Some("spaces".to_string()),
        ..replace
    };
    assert_eq!(execute_actions(&mut store, &vec![remove]), 1);
    assert_eq!(store.content_of(MemoryTarget::Memory), "");
}

#[test]
fn windows_hold_the_last_messages() {
    let all: Vec<Message> = (0..60).map(|i| Message::user(&i.to_string())).collect();
    let window = session_window(&all);
    assert_eq!(window.len(), 50);
    assert_eq!(window[0].content.as_deref(), Some("10"));
    let reviewer = MemoryReviewer::new(1, 2);
    let last = reviewer.snapshot(&all);
    assert_eq!(last.len(), 2);
    assert_eq!(last[1].content.as_deref(), Some("59"));
    assert_eq!(reviewer.snapshot(&vec![]).len(), 0);
}

#[test]
fn targets_by_name() {
    assert_eq!(target_of("memory"), Some(MemoryTarget::Memory));
    assert_eq!(target_of("user"), Some(MemoryTarget::User));
    assert_eq!(target_of("memory|user"), None);
    let none = nothing_to_save();
    assert_eq!(none.actions_executed, 0);
    assert_eq!(none.summary, "Nothing to save.");
}
