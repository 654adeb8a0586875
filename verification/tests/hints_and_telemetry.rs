use ops_llm::hints::{reconstructed_hint_snapshot, reconstructed_hint_snapshot_with_hook};
use ops_llm::message::{Conversation, Message, MessageContent, MessageMetadata, Role, ToolCall, ToolError, ToolRequest};
use ops_llm::stream::{ProviderUsage, Usage};
use ops_llm::telemetry::{chat_span, record_chat_usage};

fn message(content: Vec<MessageContent>) -> Message {
    Message {
        id: None,
        role: Role::Assistant,
        created: 0,
        content,
        metadata: MessageMetadata {
            user_visible: true,
            agent_visible: true,
            output_token_limit_reached: false,
            turn_context: false,
            inference: None,
        },
    }
}

fn call(id: &str, arguments: Option<&str>) -> MessageContent {
    MessageContent::ToolRequest(ToolRequest {
        id: id.to_string(),
        tool_call: Ok(ToolCall { name: "read_file".to_string(), arguments: arguments.map(|a| a.to_string()) }),
        metadata: None,
    })
}

#[test]
fn hint_plan_reads_the_decoded_calls_in_order() {
    let conversation = Conversation {
        messages: vec![
            message(vec![call("read-nested", Some(r#"{"path":"nested/file.rs"}"#)), MessageContent::Text("x".into())]),
            message(vec![MessageContent::ToolRequest(ToolRequest {
                id: "bad".to_string(),
                tool_call: Err(ToolError { code: -32602, message: "could not parse".to_string(), data: None }),
                metadata: None,
            })]),
            message(vec![call("plain", None)]),
        ],
    };
    let plan = reconstructed_hint_snapshot_with_hook(&conversation, 700);
    assert_eq!(plan.reserved_output_bytes, 700);
    assert_eq!(
        plan.tool_arguments,
        vec![Some(r#"{"path":"nested/file.rs"}"#.to_string()), None]
    );
    let plain = reconstructed_hint_snapshot(&conversation, 0);
    assert_eq!(plain.tool_arguments, plan.tool_arguments);
    assert_eq!(plain.reserved_output_bytes, 0);
    assert!(reconstructed_hint_snapshot(&Conversation { messages: vec![] }, 1).tool_arguments.is_empty());
}

#[test]
fn chat_span_and_usage() {
    let mut span = chat_span(&"acme".to_string(), &"sonnet".to_string(), Some(4096), &"s-1".to_string(), "inference");
    assert_eq!(span.request_max_tokens, Some(4096));
    assert_eq!(span.operation_name, "chat");
    assert_eq!(span.purpose, "inference");
    assert!(span.response_model.is_none());
    record_chat_usage(&mut span, &ProviderUsage {
        model: "sonnet-x".to_string(),
        usage: Usage { input_tokens: Some(10), output_tokens: None, total_tokens: Some(10) },
    });
    assert_eq!(span.response_model.as_deref(), Some("sonnet-x"));
    assert_eq!(span.input_tokens, Some(10));
    assert_eq!(span.output_tokens, None);
    record_chat_usage(&mut span, &ProviderUsage {
        model: "sonnet-y".to_string(),
        usage: Usage { input_tokens: None, output_tokens: Some(4), total_tokens: None },
    });
    assert_eq!(span.input_tokens, Some(10));
    assert_eq!(span.output_tokens, Some(4));
    assert_eq!(span.session_id, "s-1");
    assert_eq!(span.request_max_tokens, Some(4096));
}
