use conga_core::rag_store::{
    ids_parameter, join_hits, numeric_ids, parse_fingerprint, vector_plan, ChunkRow, ScoredPoint,
};
use conga_core::rig_convert::{
    build_chat_response, completion_plan, convert_message, convert_stream, convert_turn_stream, from_rig_tool_def, stream_chunk,
    stream_error_message, to_rig_messages, to_rig_tool_def, turn_chunk, AssistantPart, ChatMessage,
    ChatRequest, ChatRole, ChatToolCall, CompletionPart, FinishReason, ProviderMessage, StreamedItem,
    TokenUsage, ToolDeltaContent, ToolDef, ToolDefinition, TurnItem, Usage,
};

fn row(rowid: i64, path: &str, ordinal: i64) -> ChunkRow {
    ChunkRow { rowid, source: "notes".to_string(), path: path.to_string(), ordinal, content: format!("c{rowid}") }
}

#[test]
fn fingerprint_locks_model_and_dimension() {
    assert_eq!(parse_fingerprint(Some("m"), Some("384")), Some(("m".to_string(), 384)));
    assert_eq!(parse_fingerprint(Some("m"), Some("x")), None);
    assert_eq!(parse_fingerprint(None, Some("384")), None);
    assert_eq!(vector_plan(&None, 4, "mock"), Ok((4, true)));
    assert_eq!(vector_plan(&Some(("mock".to_string(), 4)), 4, "mock"), Ok((4, false)));
    let err = vector_plan(&Some(("mock".to_string(), 4)), 8, "other").unwrap_err();
    assert_eq!(err, "embedding 指纹变更:库中 mock[4],请求 other[8]。请使用 --rebuild 重建索引");
}

#[test]
fn orphaned_points_drop_out_of_knn() {
    let scored = vec![
        ScoredPoint { id: Some(3), score_bits: 0.9f32.to_bits() },
        ScoredPoint { id: None, score_bits: 0.8f32.to_bits() },
        ScoredPoint { id: Some(99), score_bits: 0.7f32.to_bits() },
        ScoredPoint { id: Some(1), score_bits: 0.5f32.to_bits() },
    ];
    assert_eq!(numeric_ids(&scored), vec![3, 99, 1]);
    assert_eq!(ids_parameter(&scored).as_deref(), Some("[3,99,1]"));
    let rows = vec![row(1, "a.md", 0), row(3, "b.md", 2)];
    let hits = join_hits(&scored, &rows);
    assert_eq!(hits.len(), 2);
    assert_eq!((hits[0].path.as_str(), hits[0].ordinal, f32::from_bits(hits[0].score_bits)), ("b.md", 2, 0.9));
    assert_eq!((hits[1].path.as_str(), hits[1].content.as_str()), ("a.md", "c1"));
}

fn msg(role: ChatRole, content: Option<&str>) -> ChatMessage {
    ChatMessage { role, content: content.map(String::from), tool_calls: None, tool_call_id: None }
}

#[test]
fn messages_convert_by_role() {
    assert!(matches!(convert_message(&msg(ChatRole::User, Some("hi"))), ProviderMessage::User(t) if t == "hi"));
    assert!(matches!(convert_message(&msg(ChatRole::System, Some("be brief"))), ProviderMessage::User(t) if t == "[System] be brief"));
    assert!(matches!(convert_message(&msg(ChatRole::User, None)), ProviderMessage::User(t) if t.is_empty()));
    let tool = ChatMessage { role: ChatRole::Tool, content: Some("out".into()), tool_calls: None, tool_call_id: Some("c1".into()) };
    assert!(matches!(convert_message(&tool), ProviderMessage::ToolResult { tool_call_id, content } if tool_call_id == "c1" && content == "out"));
    let call = ChatToolCall { id: "c1".into(), name: "read".into(), arguments: "{\"path\":\"/a\"}".into() };
    let asst = ChatMessage { role: ChatRole::Assistant, content: Some("let me look".into()), tool_calls: Some(vec![call]), tool_call_id: None };
    match convert_message(&asst) {
        ProviderMessage::Assistant(parts) => {
            assert_eq!(parts.len(), 2);
            assert!(matches!(&parts[0], AssistantPart::Text(t) if t == "let me look"));
            assert!(matches!(&parts[1], AssistantPart::ToolCall { id, name, .. } if id == "c1" && name == "read"));
        }
        other => panic!("{other:?}"),
    }
    let empty = ChatMessage { role: ChatRole::Assistant, content: Some(String::new()), tool_calls: Some(vec![]), tool_call_id: None };
    match convert_message(&empty) {
        ProviderMessage::Assistant(parts) => assert!(parts.len() == 1 && matches!(&parts[0], AssistantPart::Text(t) if t.is_empty())),
        other => panic!("{other:?}"),
    }
    assert_eq!(to_rig_messages(&vec![msg(ChatRole::User, Some("a")), msg(ChatRole::Assistant, Some("b"))]).len(), 2);
}

#[test]
fn chat_response_keeps_last_text_and_every_call() {
    let parts = vec![
        CompletionPart::Text("first".into()),
        CompletionPart::ToolCall { id: "1".into(), name: "a".into(), arguments: "{}".into() },
        CompletionPart::Image,
        CompletionPart::Reasoning("thinking".into()),
        CompletionPart::Text("second".into()),
        CompletionPart::ToolCall { id: "2".into(), name: "b".into(), arguments: "{}".into() },
    ];
    let usage = TokenUsage { input_tokens: 10, output_tokens: 5, total_tokens: 15 };
    let r = build_chat_response(&parts, Some(usage));
    assert_eq!(r.content.as_deref(), Some("second"));
    assert_eq!(r.reasoning_content.as_deref(), Some("thinking"));
    assert_eq!(r.tool_calls.iter().map(|c| c.id.as_str()).collect::<Vec<_>>(), vec!["1", "2"]);
    assert_eq!(r.usage, Some(Usage { input_tokens: 10, output_tokens: 5, total_tokens: 15 }));
    let none = build_chat_response(&vec![CompletionPart::Image], None);
    assert!(none.content.is_none() && none.tool_calls.is_empty() && none.usage.is_none());
}

#[test]
fn stream_items_become_chunks() {
    let c = stream_chunk(&StreamedItem::Text("hel".into()));
    assert_eq!(c.delta.content.as_deref(), Some("hel"));
    assert!(c.finish_reason.is_none());
    let c = stream_chunk(&StreamedItem::ToolCall { id: "c".into(), name: "bash".into(), arguments: "{\"command\":\"ls\"}".into() });
    assert_eq!(c.finish_reason, Some(FinishReason::ToolCalls));
    assert_eq!(c.delta.tool_calls.len(), 1);
    assert_eq!(c.delta.tool_calls[0].function_name.as_deref(), Some("bash"));
    let c = stream_chunk(&StreamedItem::ToolCallDelta { id: "c".into(), content: ToolDeltaContent::Delta("{\"a\"".into()) });
    assert_eq!(c.delta.tool_calls[0].function_name, None);
    assert_eq!(c.delta.tool_calls[0].function_arguments.as_deref(), Some("{\"a\""));
    let c = stream_chunk(&StreamedItem::Final(None));
    assert_eq!(c.finish_reason, Some(FinishReason::Stop));
    assert!(c.usage.is_none());
    assert!(turn_chunk(&TurnItem::User).is_none());
    assert!(turn_chunk(&TurnItem::Other).is_none());
    let fin = turn_chunk(&TurnItem::FinalResponse(TokenUsage { input_tokens: 1, output_tokens: 2, total_tokens: 3 })).unwrap();
    assert_eq!(fin.usage, Some(Usage { input_tokens: 1, output_tokens: 2, total_tokens: 3 }));
    let r = turn_chunk(&TurnItem::Assistant(StreamedItem::ReasoningDelta("hm".into()))).unwrap();
    assert_eq!(r.delta.reasoning_content.as_deref(), Some("hm"));
    assert_eq!(stream_error_message("reset"), "Stream error: reset");
}

#[test]
fn completion_request_splits_prompt_preamble_and_history() {
    let req = ChatRequest {
        model: "m".into(),
        messages: vec![
            msg(ChatRole::System, Some("sys")),
            msg(ChatRole::User, Some("q1")),
            msg(ChatRole::Assistant, Some("a1")),
            msg(ChatRole::User, Some("q2")),
        ],
        tools: Some(vec![ToolDefinition::function("bash".into(), "d".into(), "{}".into())]),
        temperature_bits: Some(0.5f32.to_bits()),
        max_tokens: Some(100),
    };
    let p = completion_plan(&req);
    assert_eq!(p.prompt, "q2");
    assert_eq!(p.preamble.as_deref(), Some("sys"));
    // Three non-system messages, at most three (one fewer than the four in all).
    assert_eq!(p.history.len(), 3);
    assert_eq!(p.tools.len(), 1);
    assert_eq!((p.tools[0].name.as_str(), p.tools[0].description.as_str()), ("bash", "d"));
    assert_eq!(p.max_tokens, Some(100));
    let plain = ChatRequest { model: "m".into(), messages: vec![msg(ChatRole::User, Some("only"))], tools: None, temperature_bits: None, max_tokens: None };
    let p = completion_plan(&plain);
    assert_eq!(p.prompt, "only");
    assert!(p.preamble.is_none() && p.history.is_empty() && p.tools.is_empty());
}

#[test]
fn test_to_rig_messages_user() {
    let rig_messages = to_rig_messages(&vec![msg(ChatRole::User, Some("Hello"))]);
    assert_eq!(rig_messages.len(), 1);
    match &rig_messages[0] {
        ProviderMessage::User(text) => assert_eq!(text, "Hello"),
        _ => panic!("Expected user message"),
    }
}

#[test]
fn test_to_rig_messages_assistant() {
    let rig_messages = to_rig_messages(&vec![msg(ChatRole::Assistant, Some("Hi there!"))]);
    assert_eq!(rig_messages.len(), 1);
    match &rig_messages[0] {
        ProviderMessage::Assistant(content) => match &content[0] {
            AssistantPart::Text(text) => assert_eq!(text, "Hi there!"),
            _ => panic!("Expected text content"),
        },
        _ => panic!("Expected assistant message"),
    }
}

#[test]
fn test_to_rig_messages_with_tool_calls() {
    let tool_calls = vec![ChatToolCall {
        id: "call_123".into(),
        name: "get_weather".into(),
        arguments: "{\"location\":\"Beijing\"}".into(),
    }];
    let messages = vec![ChatMessage { role: ChatRole::Assistant, content: None, tool_calls: Some(tool_calls), tool_call_id: None }];
    let rig_messages = to_rig_messages(&messages);
    assert_eq!(rig_messages.len(), 1);
    match &rig_messages[0] {
        ProviderMessage::Assistant(content) => {
            assert!(content.iter().any(|item| matches!(item, AssistantPart::ToolCall { .. })));
        }
        _ => panic!("Expected assistant message"),
    }
}

#[test]
fn test_to_rig_tool_def() {
    let gasket_def = ToolDefinition::function(
        "get_weather".into(),
        "Get weather for a location".into(),
        "{\"type\":\"object\",\"properties\":{\"location\":{\"type\":\"string\"}}}".into(),
    );
    let rig_def = to_rig_tool_def(&gasket_def);
    assert_eq!(rig_def.name, "get_weather");
    assert_eq!(rig_def.description, "Get weather for a location");
    let back = from_rig_tool_def(ToolDef { name: "n".into(), description: "d".into(), parameters: "{}".into() });
    assert_eq!((back.function.name.as_str(), back.function.parameters.as_str()), ("n", "{}"));
}

#[test]
fn test_build_chat_response_text() {
    let response = build_chat_response(&vec![CompletionPart::Text("Hello, world!".into())], None);
    assert_eq!(response.content, Some("Hello, world!".to_string()));
    assert!(response.tool_calls.is_empty());
    assert!(response.reasoning_content.is_none());
}

#[test]
fn test_build_chat_response_with_tool_call() {
    let contents = vec![
        CompletionPart::Text("Let me check that.".into()),
        CompletionPart::ToolCall {
            id: "call_123".into(),
            name: "search".into(),
            arguments: "{\"query\":\"rust lang\"}".into(),
        },
    ];
    let response = build_chat_response(&contents, None);
    assert_eq!(response.content, Some("Let me check that.".to_string()));
    assert_eq!(response.tool_calls.len(), 1);
    assert_eq!(response.tool_calls[0].id, "call_123");
}

#[test]
fn test_build_chat_response_with_reasoning() {
    let contents = vec![
        CompletionPart::Reasoning("Thinking about the answer...".into()),
        CompletionPart::Text("The answer is 42.".into()),
    ];
    let response = build_chat_response(&contents, None);
    assert_eq!(response.content, Some("The answer is 42.".to_string()));
    assert_eq!(response.reasoning_content, Some("Thinking about the answer...".to_string()));
}

#[test]
fn completion_stream_forwards_in_order_and_stops_at_the_first_error() {
    let items: Vec<Result<StreamedItem, String>> = vec![
        Ok(StreamedItem::Text("a".into())),
        Ok(StreamedItem::Final(None)),
        Err("reset".into()),
        Ok(StreamedItem::Text("never".into())),
    ];
    let out = convert_stream(&items);
    assert_eq!(out.len(), 3);
    assert_eq!(out[0].as_ref().unwrap().delta.content.as_deref(), Some("a"));
    assert_eq!(out[1].as_ref().unwrap().finish_reason, Some(FinishReason::Stop));
    assert_eq!(out[2].as_ref().unwrap_err(), "Stream error: reset");
    assert!(convert_stream(&vec![]).is_empty());
}

#[test]
fn turn_stream_skips_user_and_unknown_items() {
    let items: Vec<Result<TurnItem, String>> = vec![
        Ok(TurnItem::User),
        Ok(TurnItem::Assistant(StreamedItem::Text("x".into()))),
        Ok(TurnItem::Other),
        Ok(TurnItem::FinalResponse(TokenUsage { input_tokens: 1, output_tokens: 2, total_tokens: 3 })),
    ];
    let out = convert_turn_stream(&items);
    assert_eq!(out.len(), 2);
    assert_eq!(out[0].as_ref().unwrap().delta.content.as_deref(), Some("x"));
    assert_eq!(out[1].as_ref().unwrap().usage, Some(Usage { input_tokens: 1, output_tokens: 2, total_tokens: 3 }));
    let failed = convert_turn_stream(&vec![Ok(TurnItem::User), Err("boom".into()), Ok(TurnItem::User)]);
    assert_eq!(failed.len(), 1);
    assert_eq!(failed[0].as_ref().unwrap_err(), "Stream error: boom");
}
