use mini_agent::json::{parse, render, Json};
use mini_agent::llm::{
    reply_message, stream_data, tools_for_api, LlmClient, RetryStep, StreamAccumulator, StreamDelta,
    StreamToolCall,
};
use mini_agent::models::{ChatResponse, Choice, ResponseMessage, ToolSchema, Usage};
use mini_agent::tool_registry::ToolRegistry;

fn response(choices: Vec<Choice>) -> ChatResponse {
    ChatResponse {
        id: None,
        model: None,
        choices,
        usage: Some(Usage { prompt_tokens: 1, completion_tokens: 2, total_tokens: 3 }),
    }
}

#[test]
fn requests_go_to_the_endpoint() {
    let c = LlmClient::new("key", "https://x/v1//", "m");
    assert_eq!(c.endpoint(), "https://x/v1/chat/completions");
    assert_eq!(c.model(), "m");
    assert_eq!((c.max_tokens, c.max_retries, c.timeout_secs), (4096, 3, 120));
    let c = c
        .with_max_tokens(10)
        .with_timeout(5)
        .with_extra_headers(vec![("X-Title".to_string(), "t".to_string())]);
    assert_eq!((c.max_tokens, c.timeout_secs), (10, 5));
    let names: Vec<String> = c.headers(true).iter().map(|h| format!("{}: {}", h.0, h.1)).collect();
    assert_eq!(
        names,
        vec![
            "Content-Type: application/json",
            "Accept: text/event-stream",
            "Authorization: Bearer key",
            "X-Title: t"
        ]
    );
    let local = LlmClient::new("", "http://localhost", "m");
    assert_eq!(local.headers(false).len(), 1);
}

#[test]
fn failures_are_retried_with_growing_pauses() {
    let c = LlmClient::new("", "", "");
    assert!(c.after_failure(0) == RetryStep::RetryAfter(500));
    assert!(c.after_failure(1) == RetryStep::RetryAfter(1000));
    assert!(c.after_failure(2) == RetryStep::GiveUp);
}

#[test]
fn tools_are_described() {
    let tools = vec![ToolSchema {
        name: "t".to_string(),
        description: "d".to_string(),
        parameters: parse(r#"{"type":"object"}"#).unwrap(),
    }];
    assert_eq!(
        render(&tools_for_api(&tools)),
        r#"[{"function":{"description":"d","name":"t","parameters":{"type":"object"}},"type":"function"}]"#
    );
}

#[test]
fn parameters_reach_the_model_unchanged() {
    let mut deep = Json::Bool(true);
    for _ in 0..200 {
        deep = Json::List(vec![deep]);
    }
    let mut registry = ToolRegistry::new();
    registry.register_tool(
        ToolSchema { name: "t".to_string(), description: "d".to_string(), parameters: deep.clone() },
        0u8,
    );
    let sent = tools_for_api(&registry.list_tools());
    let Json::List(tools) = &sent else { panic!("no list") };
    let parameters = tools[0].get("function").unwrap().get("parameters").unwrap();
    assert_eq!(render(parameters), render(&deep));
    assert_eq!(render(parameters).len(), 404);
}

#[test]
fn chunks_are_taken_by_their_first_choice() {
    let delta = |c: &str| StreamDelta { content: Some(c.to_string()), reasoning: None, tool_calls: vec![] };
    let mut acc = StreamAccumulator::new();
    assert_eq!(acc.absorb_chunk(None), None);
    assert_eq!(acc.absorb_chunk(Some(vec![])), None);
    assert_eq!(acc.content, "");
    assert_eq!(acc.absorb_chunk(Some(vec![delta("a"), delta("b")])), Some("a".to_string()));
    assert_eq!(acc.absorb_chunk(Some(vec![delta("c")])), Some("c".to_string()));
    assert_eq!(acc.finish().content.as_deref(), Some("ac"));
}

#[test]
fn the_first_choice_is_the_reply() {
    let choice = Choice {
        index: 0,
        message: ResponseMessage {
            role: "assistant".to_string(),
            content: None,
            tool_calls: None,
            reasoning_content: Some("because".to_string()),
        },
        finish_reason: None,
    };
    let (m, usage) = reply_message(&response(vec![choice])).unwrap();
    assert_eq!(m.content.as_deref(), Some(""));
    assert_eq!(m.reasoning.as_deref(), Some("because"));
    assert!(m.tool_calls.is_none());
    assert_eq!(usage.unwrap().total_tokens, 3);
    assert_eq!(reply_message(&response(vec![])).err(), Some("Empty choices in response".to_string()));
}

#[test]
fn data_lines_of_a_stream() {
    let body = "event: x\ndata: {\"a\":1}\r\n\n  data:  two \ndata: [DONE]\ndata:\n";
    assert_eq!(stream_data(body), vec!["{\"a\":1}".to_string(), "two".to_string()]);
}

fn piece(index: usize, id: Option<&str>, name: Option<&str>, arguments: Option<&str>) -> StreamToolCall {
    StreamToolCall {
        index,
        id: id.map(|s| s.to_string()),
        name: name.map(|s| s.to_string()),
        arguments: arguments.map(|s| s.to_string()),
    }
}

#[test]
fn a_streamed_reply_comes_together() {
    let mut acc = StreamAccumulator::new();
    let first = StreamDelta {
        content: Some("Hel".to_string()),
        reasoning: Some("r1".to_string()),
        tool_calls: vec![piece(1, Some("b"), Some("two"), None), piece(0, Some("a"), Some("one"), Some("{"))],
    };
    let second = StreamDelta {
        content: Some("lo".to_string()),
        reasoning: Some("r2".to_string()),
        tool_calls: vec![piece(0, None, None, Some("}"))],
    };
    let third = StreamDelta { content: Some(String::new()), reasoning: None, tool_calls: vec![] };
    assert_eq!(acc.absorb(&first), Some("Hel".to_string()));
    assert_eq!(acc.absorb(&second), Some("lo".to_string()));
    assert_eq!(acc.absorb(&third), None);
    let m = acc.finish();
    assert_eq!(m.content.as_deref(), Some("Hello"));
    assert_eq!(m.reasoning.as_deref(), Some("r1r2"));
    let calls = m.tool_calls.unwrap();
    assert_eq!(calls.len(), 2);
    assert_eq!((calls[0].id.as_str(), calls[0].function.arguments.as_str()), ("a", "{}"));
    assert_eq!((calls[1].id.as_str(), calls[1].function.name.as_str()), ("b", "two"));
    assert_eq!(calls[0].call_type, "function");
}

#[test]
fn an_empty_stream_is_an_empty_message() {
    let m = StreamAccumulator::new().finish();
    assert_eq!(m.content.as_deref(), Some(""));
    assert!(m.tool_calls.is_none());
    assert!(m.reasoning.is_none());
}
