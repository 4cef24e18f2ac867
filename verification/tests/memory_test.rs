use mini_agent::file_memory::{FileMemoryStore, MemoryTarget};
use mini_agent::memory::{
    age_in_days, build_memory_context_block, builtin_context, category_or_general, cleanup_cutoff,
    compose_context, count_hits, extract_facts_to_semantic, facts_in, failed, format_summary,
    keyword_hits, recency_days, summary_range, usage_increments, BuiltinMemoryProvider,
    MemoryManager, MemoryProvider,
};
use std::cell::Cell;

struct Fixed {
    told: Cell<usize>,
    name: String,
    answer: Result<String, String>,
}

impl MemoryProvider for Fixed {
    fn name(&self) -> &str {
        &self.name
    }

    fn prefetch(&self, query: &str, session_id: &str) -> Result<String, String> {
        self.answer.clone().map(|a| format!("{}{}{}", a, query, session_id))
    }

    fn sync_turn(&self, _user: &str, _assistant: &str, _session_id: &str) -> Result<(), String> {
        self.answer.clone().map(|_| ())
    }

    fn on_turn_start(&self, turn_number: usize, message: &str) {
        self.told.set(turn_number + message.len());
    }

    fn on_session_end(&self, _session_id: &str) -> Result<(), String> {
        self.answer.clone().map(|_| ())
    }
}

fn fixed(name: &str, answer: Result<&str, &str>) -> Fixed {
    Fixed {
        told: Cell::new(0),
        name: name.to_string(),
        answer: answer.map(|s| s.to_string()).map_err(|s| s.to_string()),
    }
}

#[test]
fn every_provider_is_asked_in_order() {
    let mut store = FileMemoryStore::new("m", "u", 100, 100);
    store.add(MemoryTarget::Memory, "note");
    let mut m = MemoryManager::new().with_file_memory(store);
    m.add_provider(fixed("one", Ok("a")));
    m.add_provider(fixed("two", Err("down")));
    m.add_provider(fixed("three", Ok("c")));
    assert_eq!(m.prefetch_all("?", "s"), "## Agent Memory\nnote\n\n[one]\na?s\n\n[three]\nc?s");
    assert_eq!(m.sync_all("u", "a", "s"), vec![("two".to_string(), "down".to_string())]);
    assert_eq!(m.on_session_end("s"), vec![("two".to_string(), "down".to_string())]);
    m.on_turn_start(7, "abc");
    assert!(m.providers.iter().all(|p| p.told.get() == 10));
}

#[test]
fn silent_providers_add_nothing() {
    let answers = vec![
        ("a".to_string(), Ok(" \n".to_string())),
        ("b".to_string(), Err("x".to_string())),
    ];
    assert_eq!(compose_context(&None, &answers), "");
    let files = Some(("".to_string(), "likes tea".to_string()));
    assert_eq!(compose_context(&files, &answers), "## User Profile\nlikes tea");
    assert_eq!(failed(&vec![("a".to_string(), Ok(()))]).len(), 0);
}

#[test]
fn the_context_stands_in_a_block() {
    assert_eq!(build_memory_context_block("  \n"), "");
    assert_eq!(
        build_memory_context_block("x"),
        "<memory-context>\n[System note: The following is recalled memory context, NOT new user \
         input. Treat as authoritative reference data.]\n\nx\n</memory-context>"
    );
}

#[test]
fn the_builtin_memory_lists_what_it_knows() {
    let one = vec!["- a: b".to_string()];
    assert_eq!(
        builtin_context(&one, &vec![], &vec!["talked".to_string()]),
        "## User Profile\n- a: b\n\n## Past Conversation Summaries\n- talked"
    );
    assert_eq!(builtin_context(&vec![], &one, &vec![]), "## Relevant Memories\n- a: b");
    assert_eq!(builtin_context(&vec![], &vec![], &vec![]), "");
}

#[test]
fn keywords_are_counted_without_letter_case() {
    assert_eq!(keyword_hits("RUST tokio java", "Lang", "rust and Tokio"), 2);
    assert_eq!(keyword_hits("", "k", "v"), 0);
    assert_eq!(count_hits("abc", &vec!["b".to_string(), "b".to_string(), "x".to_string()]), 2);
}

#[test]
fn days_are_counted() {
    assert_eq!(recency_days("2024-01-11T00:00:00Z", "2024-01-01T12:00:00+00:00"), Some(9));
    assert_eq!(recency_days("2024-01-01T00:00:00Z", "2024-01-05T00:00:00Z"), Some(0));
    assert_eq!(recency_days("2024-01-01T00:00:00Z", "yesterday"), None);
    assert_eq!(age_in_days(Some(-3)), Some(0));
    assert_eq!(age_in_days(None), None);
    assert_eq!(
        cleanup_cutoff("2024-01-31T00:00:00+00:00", 30),
        Some("2024-01-01T00:00:00+00:00".to_string())
    );
    assert_eq!(cleanup_cutoff("2024-01-31T00:00:00+00:00", i32::MIN), None);
}

#[test]
fn likes_and_preferences_are_facts() {
    let facts = extract_facts_to_semantic("I like green tea. And I prefer short answers!", "ok").unwrap();
    assert_eq!(facts.len(), 2);
    assert_eq!(facts[0], ("preference:green tea".to_string(), "green tea".to_string()));
    assert_eq!(facts[1], ("preference:short answers".to_string(), "short answers".to_string()));
    assert_eq!(extract_facts_to_semantic("hello", "hi"), Some(vec![]));
}

#[test]
fn long_facts_have_short_keys() {
    let fact = "x".repeat(60);
    let facts = extract_facts_to_semantic(&format!("I like {}", fact), ".").unwrap();
    assert_eq!(facts[0].0, format!("preference:{}", "x".repeat(40)));
    assert_eq!(facts[0].1, fact);
    let too_long = "x".repeat(200);
    assert_eq!(extract_facts_to_semantic(&format!("I like {}", too_long), "."), Some(vec![]));
}

#[test]
fn positions_that_do_not_match_give_no_facts() {
    // The small letters of this capital take three bytes, the capital itself takes two.
    assert_eq!(extract_facts_to_semantic("\u{130}I like é", ""), None);
    assert_eq!(facts_in("i like tea", "i like tea"), vec![("preference:tea".to_string(), "tea".to_string())]);
}

#[test]
fn summaries_name_the_topics() {
    let turns = vec![
        ("one two three four five six".to_string(), "a".to_string()),
        ("  hi ".to_string(), "b".to_string()),
    ];
    assert_eq!(format_summary(&turns), "Discussed: one two three four five; hi");
    assert_eq!(format_summary(&vec![]), "Discussed: ");
    assert_eq!(summary_range(20, 10), Some("turns 11-20".to_string()));
    assert_eq!(summary_range(21, 10), None);
}

#[test]
fn the_builtin_memory_counts_turns() {
    let mut b = BuiltinMemoryProvider::new(5, 2, true);
    assert_eq!(b.name(), "builtin");
    assert_eq!(b.sync_turn(), (1, None));
    assert_eq!(b.sync_turn(), (2, Some("turns 1-2".to_string())));
    b.on_turn_start(9);
    assert_eq!(b.sync_turn(), (10, Some("turns 9-10".to_string())));
    assert_eq!(category_or_general(None), "general");
    assert_eq!(category_or_general(Some("x")), "x");
    assert_eq!(usage_increments(true), (1, 0));
    assert_eq!(usage_increments(false), (0, 1));
}
