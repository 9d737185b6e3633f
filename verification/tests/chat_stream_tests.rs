use mycode::capabilities::WireCapabilities;
use mycode::chat_stream::{
    idle_timeout_error, is_done_data, normalize_chat_error, parse_usage, ChatChunk,
    ChatErrorFields, ChatStreamState, ChoiceFields, DeltaFields, FunctionDelta, SseInput,
    StreamError, StreamEvent, ToolCallDelta, UsageFields,
};
use mycode::protocol::{ContentItem, ResponseItem, ToolName};
use mycode::tool_plan::ToolPlan;
use mycode::tool_spec::{FunctionTool, Namespace, NamespaceTool, ToolSpec};

fn no_delta() -> DeltaFields {
    DeltaFields { reasoning_content: None, reasoning: None, content: None, tool_calls: None }
}

fn chunk(delta: DeltaFields, finish_reason: Option<&str>) -> ChatChunk {
    ChatChunk {
        error: None,
        id: Some("chat-1".to_string()),
        usage: None,
        choice: Some(ChoiceFields {
            delta: Some(delta),
            finish_reason: finish_reason.map(str::to_string),
        }),
    }
}

fn tool_delta(index: u64, id: Option<&str>, name: Option<&str>, arguments: &str) -> ToolCallDelta {
    ToolCallDelta {
        index: Some(index),
        id: id.map(str::to_string),
        function: Some(FunctionDelta {
            name: name.map(str::to_string),
            arguments: Some(arguments.to_string()),
        }),
    }
}

fn run(chunks: Vec<ChatChunk>, plan: Option<&ToolPlan>) -> Vec<Result<StreamEvent, StreamError>> {
    let mut state = ChatStreamState::new();
    let mut events = Vec::new();
    for chunk in &chunks {
        let (out, finished) = state.on_chunk(chunk, plan);
        events.extend(out);
        if finished {
            return events;
        }
    }
    events.extend(state.complete(plan));
    events
}

#[test]
fn merges_tool_call_deltas_into_one_function_call() {
    let first_arguments = r#"{"cmd":"printf "#;
    let second_arguments = r#"hello"}"#;
    let mut last = chunk(no_delta(), Some("tool_calls"));
    last.usage = Some(UsageFields {
        prompt_tokens: Some(10),
        completion_tokens: Some(5),
        total_tokens: Some(15),
        cached_tokens: None,
        reasoning_tokens: None,
    });
    let chunks = vec![
        chunk(
            DeltaFields {
                tool_calls: Some(vec![tool_delta(
                    0,
                    Some("call-1"),
                    Some("exec_command"),
                    first_arguments,
                )]),
                ..no_delta()
            },
            None,
        ),
        chunk(
            DeltaFields {
                tool_calls: Some(vec![tool_delta(0, None, None, second_arguments)]),
                ..no_delta()
            },
            None,
        ),
        last,
    ];
    assert!(is_done_data("[DONE]"));
    let events: Vec<StreamEvent> = run(chunks, None)
        .into_iter()
        .map(|event| event.expect("Chat stream event"))
        .collect();

    assert_eq!(
        events
            .iter()
            .filter_map(|event| match event {
                StreamEvent::OutputItemDone(ResponseItem::FunctionCall {
                    name,
                    arguments,
                    call_id,
                    ..
                }) => Some((name.as_str(), arguments.as_str(), call_id.as_str())),
                _ => None,
            })
            .collect::<Vec<_>>(),
        vec![("exec_command", r#"{"cmd":"printf hello"}"#, "call-1",)]
    );
    assert!(events.iter().any(|event| matches!(
        event,
        StreamEvent::Completed {
            token_usage: Some(usage),
            ..
        } if usage.total_tokens == 15
    )));
}

#[test]
fn text_and_reasoning_items_open_and_close_in_turn() {
    let chunks = vec![
        chunk(DeltaFields { reasoning_content: Some(Some("hm".into())), ..no_delta() }, None),
        chunk(DeltaFields { content: Some("Hi".into()), ..no_delta() }, None),
        chunk(DeltaFields { content: Some(" there".into()), ..no_delta() }, Some("stop")),
    ];
    let events: Vec<StreamEvent> = run(chunks, None).into_iter().map(|e| e.unwrap()).collect();
    assert!(matches!(events[0], StreamEvent::OutputItemAdded(ResponseItem::Reasoning { .. })));
    assert_eq!(
        events[1],
        StreamEvent::ReasoningContentDelta { delta: "hm".into(), content_index: 0 }
    );
    assert!(matches!(events[2], StreamEvent::OutputItemDone(ResponseItem::Reasoning { .. })));
    assert!(matches!(events[3], StreamEvent::OutputItemAdded(ResponseItem::Message { .. })));
    assert_eq!(events[4], StreamEvent::OutputTextDelta("Hi".into()));
    assert_eq!(events[5], StreamEvent::OutputTextDelta(" there".into()));
    assert_eq!(
        events[6],
        StreamEvent::OutputItemDone(ResponseItem::Message {
            id: None,
            role: "assistant".into(),
            content: vec![ContentItem::OutputText { text: "Hi there".into() }],
            phase: None,
            internal_chat_message_metadata_passthrough: None,
        })
    );
    assert_eq!(
        events[7],
        StreamEvent::Completed {
            response_id: "chat-1".into(),
            token_usage: None,
            end_turn: Some(true)
        }
    );
    assert_eq!(events.len(), 8);
}

#[test]
fn a_reasoning_field_is_used_only_without_reasoning_content() {
    let chunks = vec![chunk(
        DeltaFields {
            reasoning_content: Some(None),
            reasoning: Some("ignored".into()),
            ..no_delta()
        },
        None,
    )];
    let events = run(chunks, None);
    assert_eq!(events.len(), 1);
    let chunks = vec![chunk(DeltaFields { reasoning: Some("used".into()), ..no_delta() }, None)];
    let events = run(chunks, None);
    assert_eq!(events.len(), 4);
}

#[test]
fn length_and_content_filter_end_the_stream_with_an_error() {
    let events = run(vec![chunk(no_delta(), Some("length"))], None);
    assert_eq!(events, vec![Err(StreamError::ContextWindowExceeded)]);
    let events = run(vec![chunk(no_delta(), Some("content_filter"))], None);
    assert_eq!(
        events,
        vec![Err(StreamError::Stream("response blocked by content filter".into()))]
    );
}

#[test]
fn provider_errors_are_normalized() {
    let error = |message: Option<&str>, code: Option<&str>, kind: Option<&str>| ChatErrorFields {
        message: message.map(str::to_string),
        code: code.map(str::to_string),
        kind: kind.map(str::to_string),
    };
    assert_eq!(
        normalize_chat_error(&error(None, Some("context_length_exceeded"), None)),
        StreamError::ContextWindowExceeded
    );
    assert_eq!(
        normalize_chat_error(&error(None, Some("quota_exceeded"), None)),
        StreamError::QuotaExceeded
    );
    assert_eq!(
        normalize_chat_error(&error(None, Some("overloaded"), None)),
        StreamError::ServerOverloaded
    );
    assert_eq!(
        normalize_chat_error(&error(Some("bad"), Some("other"), Some("invalid_request_error"))),
        StreamError::InvalidRequest { message: "bad".into() }
    );
    assert_eq!(
        normalize_chat_error(&error(None, None, None)),
        StreamError::Stream("Chat Completions provider returned an error".into())
    );
    let events = run(
        vec![ChatChunk {
            error: Some(error(Some("boom"), None, None)),
            id: None,
            usage: None,
            choice: None,
        }],
        None,
    );
    assert_eq!(events, vec![Err(StreamError::Stream("boom".into()))]);
    assert_eq!(
        idle_timeout_error(),
        StreamError::Stream("idle timeout waiting for Chat Completions SSE".into())
    );
}

#[test]
fn usage_defaults_total_and_details() {
    let usage = parse_usage(&UsageFields {
        prompt_tokens: Some(10),
        completion_tokens: Some(5),
        total_tokens: None,
        cached_tokens: Some(3),
        reasoning_tokens: None,
    })
    .expect("usage");
    assert_eq!(usage.total_tokens, 15);
    assert_eq!(usage.cached_input_tokens, 3);
    assert_eq!(usage.reasoning_output_tokens, 0);
    assert_eq!(
        parse_usage(&UsageFields {
            prompt_tokens: None,
            completion_tokens: Some(5),
            total_tokens: Some(5),
            cached_tokens: None,
            reasoning_tokens: None,
        }),
        None
    );
}

#[test]
fn done_marker_ignores_surrounding_whitespace() {
    assert!(is_done_data(" [DONE]\n"));
    assert!(is_done_data("DONE"));
    assert!(!is_done_data("[DONE] x"));
}

#[test]
fn flat_tool_names_are_decoded_through_the_plan() {
    let plan = ToolPlan::new(
        vec![ToolSpec::Namespace(Namespace {
            name: "collaboration".into(),
            description: String::new(),
            tools: vec![NamespaceTool::Function(FunctionTool {
                name: "spawn_agent".into(),
                description: String::new(),
                strict: false,
                defer_loading: None,
                parameters: "{}".into(),
                output_schema: None,
            })],
        })],
        WireCapabilities::function_only(),
    )
    .expect("plan");
    let chunks = vec![
        chunk(
            DeltaFields {
                tool_calls: Some(vec![
                    tool_delta(0, None, Some("collaboration__spawn_agent"), "{}"),
                    ToolCallDelta { index: Some(1), id: Some("c2".into()), function: None },
                ]),
                ..no_delta()
            },
            Some("tool_calls"),
        ),
    ];
    let events: Vec<StreamEvent> =
        run(chunks, Some(&plan)).into_iter().map(|e| e.unwrap()).collect();
    assert_eq!(
        events[0],
        StreamEvent::ToolCallInputDelta {
            item_id: "tool-call-0".into(),
            call_id: None,
            delta: "{}".into()
        }
    );
    let expected = ToolName::namespaced("collaboration", "spawn_agent");
    assert_eq!(
        events[1],
        StreamEvent::OutputItemDone(ResponseItem::FunctionCall {
            id: None,
            name: expected.name,
            namespace: expected.namespace,
            arguments: "{}".into(),
            encrypted_function_args: None,
            call_id: "tool-call-0".into(),
            internal_chat_message_metadata_passthrough: None,
        })
    );
    assert!(matches!(events[2], StreamEvent::Completed { .. }));
    assert_eq!(events.len(), 3);
}

#[test]
fn stream_inputs_skip_non_json_and_complete_on_the_end_marker() {
    let mut state = ChatStreamState::new();
    let (events, finished) = state.on_input(
        &SseInput::Data { data: "not json".to_string(), chunk: None },
        None,
    );
    assert!(events.is_empty());
    assert!(!finished);
    let text = DeltaFields { content: Some("Hi".to_string()), ..no_delta() };
    let (events, finished) = state.on_input(
        &SseInput::Data { data: "{}".to_string(), chunk: Some(chunk(text, None)) },
        None,
    );
    assert!(!finished);
    assert_eq!(events.len(), 2);
    let (events, finished) =
        state.on_input(&SseInput::Data { data: " [DONE]\n".to_string(), chunk: None }, None);
    assert!(finished);
    assert!(matches!(events.last(), Some(Ok(StreamEvent::Completed { .. }))));
}

#[test]
fn stream_failures_and_timeouts_end_the_stream() {
    let mut state = ChatStreamState::new();
    let (events, finished) =
        state.on_input(&SseInput::Failed { error: "connection reset".to_string() }, None);
    assert!(finished);
    assert_eq!(events, vec![Err(StreamError::Stream("connection reset".to_string()))]);
    let (events, finished) = state.on_input(&SseInput::TimedOut, None);
    assert!(finished);
    assert_eq!(events, vec![Err(idle_timeout_error())]);
    let (events, finished) = state.on_input(&SseInput::Ended, None);
    assert!(finished);
    assert_eq!(
        events,
        vec![Ok(StreamEvent::Completed { response_id: String::new(), token_usage: None, end_turn: None })]
    );
}

#[test]
fn completion_comes_at_the_end_after_buffered_items() {
    let mut state = ChatStreamState::new();
    let text = DeltaFields { content: Some("Hi".to_string()), ..no_delta() };
    let (_, finished) = state.on_input(
        &SseInput::Data { data: "{}".to_string(), chunk: Some(chunk(text, None)) },
        None,
    );
    assert!(!finished);
    let (events, finished) = state.on_input(&SseInput::Ended, None);
    assert!(finished);
    assert_eq!(events.len(), 2);
    assert!(matches!(events[0], Ok(StreamEvent::OutputItemDone(ResponseItem::Message { .. }))));
    assert!(matches!(events[1], Ok(StreamEvent::Completed { .. })));
}
