use mycode::canonical::{CanonicalRequest, CanonicalToolChoice};
use mycode::chat::{
    build_chat_request, ChatContent, ChatMessage, ChatPart, ChatToolCall, ChatToolChoice,
    ChatWireError,
};
use mycode::protocol::{
    ContentItem, FunctionCallOutputPayload, ImageReference, OutputBody, OutputContentItem,
    ReasoningContent, ResponseItem, ToolName,
};
use mycode::tool_spec::{FunctionTool, ToolSpec};

fn function(name: &str) -> ToolSpec {
    ToolSpec::Function(FunctionTool {
        name: name.to_string(),
        description: "test tool".to_string(),
        strict: false,
        defer_loading: None,
        parameters: "{}".to_string(),
        output_schema: None,
    })
}

fn message(role: &str, text: &str) -> ResponseItem {
    ResponseItem::Message {
        id: None,
        role: role.to_string(),
        content: vec![ContentItem::InputText {
            text: text.to_string(),
        }],
        phase: None,
        internal_chat_message_metadata_passthrough: None,
    }
}

fn call(name: &str, namespace: Option<&str>, arguments: &str, call_id: &str) -> ResponseItem {
    ResponseItem::FunctionCall {
        id: None,
        name: name.to_string(),
        namespace: namespace.map(str::to_string),
        arguments: arguments.to_string(),
        encrypted_function_args: None,
        call_id: call_id.to_string(),
        internal_chat_message_metadata_passthrough: None,
    }
}

fn output(call_id: &str, text: &str) -> ResponseItem {
    ResponseItem::FunctionCallOutput {
        id: None,
        call_id: Some(call_id.to_string()),
        name: None,
        namespace: None,
        output: FunctionCallOutputPayload::from_text(text.to_string()),
        internal_chat_message_metadata_passthrough: None,
    }
}

fn request(items: Vec<ResponseItem>, tools: Vec<ToolSpec>) -> CanonicalRequest {
    CanonicalRequest {
        model: "gpt-test".to_string(),
        instructions: String::new(),
        items,
        tools,
        tool_choice: CanonicalToolChoice::Auto,
        parallel_tool_calls: true,
        stream: true,
        provider_metadata: Vec::new(),
    }
}

fn plain(role: &str, text: &str) -> ChatMessage {
    ChatMessage {
        role: role.to_string(),
        content: ChatContent::Text(text.to_string()),
        tool_call_id: None,
        tool_calls: None,
        reasoning: None,
    }
}

#[test]
fn builds_function_only_request_and_groups_tool_calls() {
    let request = CanonicalRequest {
        model: "gpt-test".to_string(),
        instructions: "instructions".to_string(),
        items: vec![
            message("user", "hello"),
            call("spawn_agent", Some("collaboration"), "{}", "call-1"),
            call("send_message", Some("collaboration"), r#"{"message":"hi"}"#, "call-2"),
            output("call-1", "ok"),
            output("call-2", "done"),
        ],
        tools: vec![
            function("collaboration__spawn_agent"),
            function("collaboration__send_message"),
        ],
        tool_choice: CanonicalToolChoice::Auto,
        parallel_tool_calls: true,
        stream: true,
        provider_metadata: vec![("conversation_id".to_string(), "thread-1".to_string())],
    };

    let body = build_chat_request(&request).expect("chat request");
    assert_eq!(body.model, "gpt-test");
    assert_eq!(body.user.as_deref(), Some("thread-1"));
    assert_eq!(body.tools[0].name, "collaboration__spawn_agent");
    assert_eq!(body.messages[0], plain("system", "instructions"));
    assert_eq!(body.messages[1], plain("user", "hello"));
    assert_eq!(body.messages[2].role, "assistant");
    assert_eq!(body.messages[2].content, ChatContent::Null);
    assert_eq!(body.messages[2].tool_calls.as_ref().unwrap().len(), 2);
    assert_eq!(
        body.messages[2].tool_calls.as_ref().unwrap()[0].name,
        "collaboration__spawn_agent"
    );
    assert_eq!(body.messages[3].role, "tool");
    assert_eq!(body.messages[3].tool_call_id.as_deref(), Some("call-1"));
    assert_eq!(body.messages[4].role, "tool");
    assert_eq!(body.messages[4].tool_call_id.as_deref(), Some("call-2"));
}

#[test]
fn rejects_non_function_tools() {
    let request = request(
        Vec::new(),
        vec![ToolSpec::ToolSearch {
            execution: "client".to_string(),
            description: String::new(),
            parameters: "{}".to_string(),
        }],
    );

    assert_eq!(
        build_chat_request(&request),
        Err(ChatWireError::UnsupportedTool("tool_search".to_string()))
    );
}

#[test]
fn groups_assistant_commentary_with_following_tool_call() {
    let mut request = request(
        vec![
            message("assistant", "I will delegate this."),
            call("spawn_agent", None, r#"{"task_name":"worker"}"#, "call-1"),
        ],
        vec![function("spawn_agent")],
    );
    request.parallel_tool_calls = false;

    let body = build_chat_request(&request).expect("chat request");
    assert_eq!(
        body.messages,
        vec![ChatMessage {
            role: "assistant".to_string(),
            content: ChatContent::Text("I will delegate this.".to_string()),
            tool_call_id: None,
            tool_calls: Some(vec![ChatToolCall {
                id: "call-1".to_string(),
                name: "spawn_agent".to_string(),
                arguments: "{\"task_name\":\"worker\"}".to_string(),
            }]),
            reasoning: None,
        }]
    );
}

#[test]
fn repeated_assistant_text_is_sent_once() {
    let body = build_chat_request(&request(
        vec![
            message("assistant", "same"),
            message("user", "ok"),
            message("assistant", "same"),
            message("assistant", "other"),
        ],
        Vec::new(),
    ))
    .expect("chat request");
    assert_eq!(
        body.messages,
        vec![plain("assistant", "same"), plain("user", "ok"), plain("assistant", "other")]
    );
}

#[test]
fn reasoning_attaches_to_the_preceding_assistant_message() {
    let reasoning = ResponseItem::Reasoning {
        id: None,
        summary: Vec::new(),
        content: Some(vec![
            ReasoningContent::ReasoningText { text: "think".to_string() },
            ReasoningContent::Text { text: "ing".to_string() },
        ]),
        encrypted_content: None,
        internal_chat_message_metadata_passthrough: None,
    };
    let body = build_chat_request(&request(
        vec![reasoning.clone(), message("assistant", "answer"), reasoning],
        Vec::new(),
    ))
    .expect("chat request");
    assert_eq!(
        body.messages,
        vec![ChatMessage {
            reasoning: Some("thinking".to_string()),
            ..plain("assistant", "answer")
        }]
    );
}

#[test]
fn user_images_are_sent_as_parts_and_tool_choice_is_encoded() {
    let mut request = request(
        vec![ResponseItem::Message {
            id: None,
            role: "user".to_string(),
            content: vec![
                ContentItem::InputText { text: "look".to_string() },
                ContentItem::InputImage {
                    image: ImageReference::Inline { image_url: "data:x".to_string() },
                    detail: None,
                },
            ],
            phase: None,
            internal_chat_message_metadata_passthrough: None,
        }],
        Vec::new(),
    );
    request.tool_choice = CanonicalToolChoice::Function(ToolName::namespaced("ns", "run"));
    let body = build_chat_request(&request).expect("chat request");
    assert_eq!(
        body.messages[0].content,
        ChatContent::Parts(vec![
            ChatPart::Text("look".to_string()),
            ChatPart::ImageUrl("data:x".to_string()),
        ])
    );
    assert_eq!(body.tool_choice, ChatToolChoice::Function("ns__run".to_string()));
    assert_eq!(body.user, None);
}

#[test]
fn structured_tool_output_becomes_parts() {
    let item = ResponseItem::FunctionCallOutput {
        id: None,
        call_id: None,
        name: None,
        namespace: None,
        output: FunctionCallOutputPayload {
            body: OutputBody::ContentItems(vec![
                OutputContentItem::InputText { text: "a".to_string() },
                OutputContentItem::EncryptedContent { encrypted_content: "z".to_string() },
            ]),
            success: Some(true),
        },
        internal_chat_message_metadata_passthrough: None,
    };
    let body = build_chat_request(&request(vec![item], Vec::new())).expect("chat request");
    assert_eq!(body.messages[0].tool_call_id.as_deref(), Some(""));
    assert_eq!(
        body.messages[0].content,
        ChatContent::Parts(vec![
            ChatPart::Text("a".to_string()),
            ChatPart::Output(OutputContentItem::EncryptedContent {
                encrypted_content: "z".to_string()
            }),
        ])
    );
}

#[test]
fn unsupported_tool_message() {
    assert_eq!(
        ChatWireError::UnsupportedTool("web_search".to_string()).message(),
        "Chat Completions is function-only and cannot encode tool `web_search`"
    );
}
