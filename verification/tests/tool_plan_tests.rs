use mycode::capabilities::WireCapabilities;
use mycode::protocol::{
    AgentMessageContent, ContentItem, FunctionCallOutputPayload, PassthroughKind, ResponseItem,
    ToolName,
};
use mycode::tool_plan::{ToolPlan, ToolPlanError, FLAT_TOOL_NAME_SEPARATOR};
use mycode::tool_spec::{
    FreeformTool, FreeformToolFormat, FunctionTool, Namespace, NamespaceTool, ToolSpec,
};

fn function(name: &str) -> FunctionTool {
    FunctionTool {
        name: name.to_string(),
        description: String::new(),
        strict: false,
        defer_loading: None,
        parameters: "{}".to_string(),
        output_schema: None,
    }
}

fn freeform(name: &str) -> FreeformTool {
    FreeformTool {
        name: name.to_string(),
        description: String::new(),
        defer_loading: None,
        format: FreeformToolFormat {
            kind: "grammar".to_string(),
            syntax: "lark".to_string(),
            definition: "start: /.*/".to_string(),
        },
    }
}

fn web_search(options: &str) -> ToolSpec {
    ToolSpec::WebSearch { options: options.to_string() }
}

fn collaboration() -> ToolSpec {
    ToolSpec::Namespace(Namespace {
        name: "collaboration".to_string(),
        description: String::new(),
        tools: vec![NamespaceTool::Function(function("spawn_agent"))],
    })
}

#[test]
fn function_only_flattens_namespaces() {
    let plan = ToolPlan::new(vec![collaboration()], WireCapabilities::function_only())
        .expect("tool plan should be valid");

    assert_eq!(
        plan.tools(),
        &[ToolSpec::Function(FunctionTool {
            name: format!("collaboration{FLAT_TOOL_NAME_SEPARATOR}spawn_agent"),
            ..function("spawn_agent")
        })]
    );
    assert_eq!(
        plan.decode_flat_name("collaboration__spawn_agent"),
        Some(ToolName::namespaced("collaboration", "spawn_agent"))
    );
    assert_eq!(plan.flattened_tool_count(), 1);
    assert_eq!(plan.hidden_tool_count(), 0);
}

#[test]
fn function_only_hides_custom_and_builtin_tools() {
    let plan = ToolPlan::new(
        vec![ToolSpec::Freeform(freeform("apply_patch")), web_search("{}")],
        WireCapabilities::function_only(),
    )
    .expect("tool plan should be valid");

    assert_eq!(plan.tools(), &[]);
    assert_eq!(plan.flattened_tool_count(), 0);
    assert_eq!(plan.hidden_tool_count(), 2);
}

#[test]
fn native_responses_keeps_namespaces_and_custom_tools() {
    let spec = collaboration();
    let plan = ToolPlan::new(vec![spec.clone()], WireCapabilities::native_responses())
        .expect("tool plan should be valid");

    assert_eq!(plan.tools(), &[spec]);
}

#[test]
fn native_responses_keeps_built_in_tools() {
    let spec = web_search(r#"{"external_web_access":true}"#);
    let plan = ToolPlan::new(vec![spec.clone()], WireCapabilities::native_responses())
        .expect("tool plan should be valid");

    assert_eq!(plan.tools(), &[spec]);
}

#[test]
fn native_responses_hides_namespaced_custom_tools_when_unsupported() {
    let plan = ToolPlan::new(
        vec![ToolSpec::Namespace(Namespace {
            name: "files".to_string(),
            description: String::new(),
            tools: vec![
                NamespaceTool::Function(function("read")),
                NamespaceTool::Custom(freeform("patch")),
            ],
        })],
        WireCapabilities {
            namespace_tools: true,
            custom_tools: false,
            ..WireCapabilities::native_responses()
        },
    )
    .expect("tool plan");

    assert_eq!(
        plan.tools(),
        &[ToolSpec::Namespace(Namespace {
            name: "files".to_string(),
            description: String::new(),
            tools: vec![NamespaceTool::Function(function("read"))],
        })]
    );
    assert_eq!(plan.hidden_tool_count(), 1);
}

#[test]
fn function_only_adapts_plaintext_agent_messages_to_user_messages() {
    let plan = ToolPlan::new(vec![], WireCapabilities::function_only()).expect("tool plan");
    let message = ResponseItem::AgentMessage {
        id: None,
        author: "/root".to_string(),
        recipient: "/root/worker".to_string(),
        content: vec![AgentMessageContent::InputText {
            text: "Message Type: NEW_TASK\nPayload:\ndo work".to_string(),
        }],
        internal_chat_message_metadata_passthrough: None,
    };

    assert_eq!(
        plan.adapt_items(vec![message]),
        vec![ResponseItem::Message {
            id: None,
            role: "user".to_string(),
            content: vec![ContentItem::InputText {
                text: "Message Type: NEW_TASK\nPayload:\ndo work".to_string(),
            }],
            phase: None,
            internal_chat_message_metadata_passthrough: None,
        }]
    );
}

#[test]
fn function_only_reports_encrypted_agent_messages_as_undeliverable() {
    let plan = ToolPlan::new(vec![], WireCapabilities::function_only()).expect("tool plan");
    let message = ResponseItem::AgentMessage {
        id: None,
        author: "/root".to_string(),
        recipient: "/root/worker".to_string(),
        content: vec![AgentMessageContent::EncryptedContent {
            encrypted_content: "ciphertext".to_string(),
        }],
        internal_chat_message_metadata_passthrough: None,
    };

    assert_eq!(
        plan.adapt_items(vec![message]),
        vec![ResponseItem::Message {
            id: None,
            role: "user".to_string(),
            content: vec![ContentItem::InputText {
                text: "Agent message from /root to /root/worker could not be delivered: \
                       the selected provider does not support encrypted agent messages."
                    .to_string(),
            }],
            phase: None,
            internal_chat_message_metadata_passthrough: None,
        }]
    );
}

#[test]
fn native_responses_preserves_agent_messages() {
    let plan = ToolPlan::new(vec![], WireCapabilities::native_responses()).expect("tool plan");
    let message = ResponseItem::AgentMessage {
        id: None,
        author: "/root".to_string(),
        recipient: "/root/worker".to_string(),
        content: vec![AgentMessageContent::InputText {
            text: "do work".to_string(),
        }],
        internal_chat_message_metadata_passthrough: None,
    };

    assert_eq!(plan.adapt_items(vec![message.clone()]), vec![message]);
}

#[test]
fn function_only_adapts_calls_and_preserves_tool_results() {
    let plan = ToolPlan::new(vec![collaboration()], WireCapabilities::function_only())
        .expect("tool plan");
    let call = ResponseItem::FunctionCall {
        id: None,
        name: "spawn_agent".to_string(),
        namespace: Some("collaboration".to_string()),
        arguments: "{}".to_string(),
        encrypted_function_args: None,
        call_id: "call-1".to_string(),
        internal_chat_message_metadata_passthrough: None,
    };
    let output = ResponseItem::FunctionCallOutput {
        id: None,
        call_id: Some("call-1".to_string()),
        name: None,
        namespace: None,
        output: FunctionCallOutputPayload::from_text("ok".to_string()),
        internal_chat_message_metadata_passthrough: None,
    };

    assert_eq!(
        plan.adapt_items(vec![call, output.clone()]),
        vec![
            ResponseItem::FunctionCall {
                id: None,
                name: "collaboration__spawn_agent".to_string(),
                namespace: None,
                arguments: "{}".to_string(),
                encrypted_function_args: None,
                call_id: "call-1".to_string(),
                internal_chat_message_metadata_passthrough: None,
            },
            output,
        ]
    );
}

#[test]
fn identities_round_trip_and_are_sorted_by_wire_name() {
    let plan = ToolPlan::new(
        vec![
            ToolSpec::Function(function("zeta")),
            collaboration(),
            ToolSpec::Function(function("alpha")),
        ],
        WireCapabilities::function_only(),
    )
    .expect("tool plan");
    let keys: Vec<&str> = plan.identities().iter().map(|(k, _)| k.as_str()).collect();
    assert_eq!(keys, vec!["alpha", "collaboration__spawn_agent", "zeta"]);
    for (wire_name, identity) in plan.identities() {
        assert_eq!(plan.decode_flat_name(wire_name).as_ref(), Some(identity));
        assert_eq!(plan.encode_tool_name(identity).as_deref(), Some(wire_name.as_str()));
    }
    assert_eq!(
        plan.encode_tool_name(&ToolName::namespaced("functions", "alpha")),
        Some("alpha".to_string())
    );
    assert_eq!(plan.encode_tool_name(&ToolName::plain("missing")), None);
    assert_eq!(plan.decode_flat_name("missing"), None);
}

#[test]
fn colliding_wire_names_are_rejected() {
    let error = ToolPlan::new(
        vec![
            ToolSpec::Function(function("collaboration__spawn_agent")),
            collaboration(),
        ],
        WireCapabilities::function_only(),
    )
    .expect_err("collision");
    assert_eq!(
        error,
        ToolPlanError::Collision { name: "collaboration__spawn_agent".to_string() }
    );
    assert_eq!(
        error.message(),
        "multiple tools map to the wire name `collaboration__spawn_agent`"
    );
}

#[test]
fn invalid_wire_names_are_rejected() {
    assert_eq!(
        ToolPlan::new(vec![ToolSpec::Function(function(""))], WireCapabilities::function_only()),
        Err(ToolPlanError::EmptyName)
    );
    let long = "x".repeat(65);
    let error = ToolPlan::new(
        vec![ToolSpec::Function(function(&long))],
        WireCapabilities::function_only(),
    )
    .expect_err("too long");
    assert_eq!(error, ToolPlanError::NameTooLong { name: long.clone(), max_len: 64 });
    assert_eq!(
        error.message(),
        format!("tool name `{long}` exceeds the 64-character wire limit")
    );
    assert!(ToolPlan::new(
        vec![ToolSpec::Function(function(&"x".repeat(64)))],
        WireCapabilities::function_only()
    )
    .is_ok());
    assert_eq!(ToolPlanError::EmptyName.message(), "tool name cannot be empty");
}

#[test]
fn default_namespace_flattens_to_the_bare_name() {
    let plan = ToolPlan::new(
        vec![ToolSpec::Namespace(Namespace {
            name: "functions".to_string(),
            description: String::new(),
            tools: vec![
                NamespaceTool::Function(function("run")),
                NamespaceTool::Custom(freeform("patch")),
            ],
        })],
        WireCapabilities::function_only(),
    )
    .expect("plan");
    assert_eq!(plan.tools(), &[ToolSpec::Function(function("run"))]);
    assert_eq!(plan.hidden_tool_count(), 1);
    assert_eq!(plan.flattened_tool_count(), 1);
}

#[test]
fn function_only_history_drops_what_the_wire_cannot_carry() {
    let plan = ToolPlan::new(vec![], WireCapabilities::function_only()).expect("plan");
    let items = vec![
        ResponseItem::Passthrough { kind: PassthroughKind::CustomToolCall, body: "{}".into() },
        ResponseItem::Passthrough { kind: PassthroughKind::WebSearchCall, body: "{}".into() },
        ResponseItem::Passthrough { kind: PassthroughKind::Compaction, body: "{}".into() },
        ResponseItem::FunctionCall {
            id: None,
            name: "run".into(),
            namespace: None,
            arguments: "{}".into(),
            encrypted_function_args: Some("secret".into()),
            call_id: "c".into(),
            internal_chat_message_metadata_passthrough: None,
        },
    ];
    assert_eq!(
        plan.adapt_items(items),
        vec![
            ResponseItem::Passthrough { kind: PassthroughKind::Compaction, body: "{}".into() },
            ResponseItem::FunctionCall {
                id: None,
                name: "run".into(),
                namespace: None,
                arguments: "{}".into(),
                encrypted_function_args: None,
                call_id: "c".into(),
                internal_chat_message_metadata_passthrough: None,
            },
        ]
    );
}

#[test]
fn native_adaptation_defaults_the_namespace_of_calls() {
    let plan = ToolPlan::new(vec![], WireCapabilities::native_responses()).expect("plan");
    let call = ResponseItem::FunctionCall {
        id: None,
        name: "run".into(),
        namespace: None,
        arguments: "{}".into(),
        encrypted_function_args: Some("secret".into()),
        call_id: "c".into(),
        internal_chat_message_metadata_passthrough: None,
    };
    assert_eq!(
        plan.adapt_items(vec![call]),
        vec![ResponseItem::FunctionCall {
            id: None,
            name: "run".into(),
            namespace: Some("functions".into()),
            arguments: "{}".into(),
            encrypted_function_args: Some("secret".into()),
            call_id: "c".into(),
            internal_chat_message_metadata_passthrough: None,
        }]
    );
}

#[test]
fn every_tool_is_offered_or_counted_as_hidden() {
    let specs = vec![
        ToolSpec::Namespace(Namespace {
            name: "files".to_string(),
            description: String::new(),
            tools: vec![
                NamespaceTool::Function(function("read")),
                NamespaceTool::Custom(freeform("patch")),
            ],
        }),
        ToolSpec::Freeform(freeform("apply_patch")),
        web_search("{}"),
        ToolSpec::Function(function("run")),
    ];
    let plan = ToolPlan::new(specs, WireCapabilities::function_only()).expect("plan");
    assert_eq!(plan.tools().len() + plan.hidden_tool_count(), 5);
    assert_eq!(plan.tools().len(), 2);
    assert!(plan.tools().iter().all(|t| matches!(t, ToolSpec::Function(_))));
}
