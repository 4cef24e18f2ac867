use mini_agent::hooks::{HookOutcome, HookResult, HookRunner};
use mini_agent::json::Json;
use mini_agent::models::{ToolSchema, ToolSource};
use mini_agent::tool_registry::ToolRegistry;

#[test]
fn handlers_run_by_priority_then_registration() {
    let mut runner: HookRunner<&str> = HookRunner::new();
    assert!(runner.is_empty());
    runner.register("low", -5);
    runner.register("first", 0);
    runner.register("high", 100);
    runner.register("second", 0);
    let order: Vec<&str> = (0..runner.len()).map(|i| *runner.handler(i)).collect();
    assert_eq!(order, vec!["high", "first", "second", "low"]);
    assert!(!runner.is_empty());
}

#[test]
fn a_chain_hands_the_value_on() {
    let mut runner: HookRunner<u8> = HookRunner::default();
    runner.register(1, 0);
    runner.register(2, 0);
    runner.register(3, 0);
    let mut chain = runner.chain(10);
    chain = chain.step(HookOutcome::Answered(HookResult::Continue(11)));
    chain = chain.step(HookOutcome::Panicked);
    assert!(!chain.is_done());
    chain = chain.step(HookOutcome::Answered(HookResult::Continue(12)));
    assert!(chain.is_done());
    assert!(matches!(chain.state, HookResult::Continue(12)));
}

#[test]
fn a_cancel_ends_the_chain() {
    let mut runner: HookRunner<u8> = HookRunner::new();
    runner.register(1, 0);
    runner.register(2, 0);
    let chain = runner.chain(10).step(HookOutcome::Answered(HookResult::Cancel("no".to_string())));
    assert!(chain.is_done());
    assert!(chain.state.is_cancel());
    assert!(matches!(chain.state, HookResult::Cancel(r) if r == "no"));
    assert!(HookRunner::<u8>::new().chain(1).is_done());
}

fn schema(name: &str, description: &str) -> ToolSchema {
    ToolSchema { name: name.to_string(), description: description.to_string(), parameters: Json::Null }
}

#[test]
fn tools_are_found_by_name() {
    let mut r: ToolRegistry<u32> = ToolRegistry::new();
    assert_eq!(r.len(), 0);
    r.register_tool(schema("a", "one"), 1);
    r.register_tool_legacy(schema("b", "two"), 2, ToolSource::Builtin);
    r.register_tool(schema("a", "three"), 3);
    assert_eq!(r.len(), 2);
    assert_eq!(r.get_tool("a"), Some(&3));
    assert_eq!(r.get_tool("b"), Some(&2));
    assert_eq!(r.get_tool("c"), None);
    assert!(r.has_tool("b"));
    assert!(!r.has_tool("c"));
    let names: Vec<String> = r.list_tools().iter().map(|s| s.description.clone()).collect();
    assert_eq!(names, vec!["three".to_string(), "two".to_string()]);
    assert_eq!(r.dispatch("a"), Ok(&3));
    assert_eq!(r.dispatch("c"), Err("Tool 'c' not found".to_string()));
    r.remove_tools_from_source(&ToolSource::Builtin);
    assert_eq!(r.len(), 2);
    assert_eq!(ToolRegistry::<u32>::default().len(), 0);
}
