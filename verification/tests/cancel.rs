use ops_llm::cancel::cancellation_responses;
use ops_llm::message::{
    ContentBlock, Conversation, Message, MessageContent, MessageMetadata, MetadataEntry, Role,
    ToolCall, ToolRequest, ToolResponse, ToolResult,
};
use ops_llm::outcome::{cancellation_message, with_cancellation, Effect, OperationResult};

fn message(role: Role, content: Vec<MessageContent>) -> Message {
    Message {
        id: None,
        role,
        created: 0,
        content,
        metadata: MessageMetadata {
            user_visible: true,
            agent_visible: true,
            output_token_limit_reached: false,
            turn_context: false,
            inference: None,
        },
    }
}

fn request(id: &str) -> MessageContent {
    MessageContent::ToolRequest(ToolRequest {
        id: id.to_string(),
        tool_call: Ok(ToolCall { name: "shell".to_string(), arguments: None }),
        metadata: Some(vec![MetadataEntry { key: "sig".to_string(), value: format!("\"{id}\"") }]),
    })
}

fn response(id: &str) -> MessageContent {
    MessageContent::ToolResponse(ToolResponse {
        id: id.to_string(),
        tool_result: Ok(ToolResult { content: vec![], structured_content: None, meta: None, is_error: Some(false) }),
        metadata: None,
    })
}

fn cancelled_ids(content: &[MessageContent]) -> Vec<String> {
    content
        .iter()
        .map(|c| match c {
            MessageContent::ToolResponse(r) => {
                let result = r.tool_result.as_ref().unwrap();
                assert_eq!(result.is_error, Some(true));
                assert!(result.structured_content.is_none());
                assert!(result.meta.is_none());
                assert_eq!(result.content.len(), 1);
                match &result.content[0] {
                    ContentBlock::Text(t) => assert_eq!(t, "Tool call was cancelled before execution"),
                    _ => panic!("expected text"),
                }
                let md = r.metadata.as_ref().unwrap();
                assert_eq!(md[0].value, format!("\"{}\"", r.id));
                r.id.clone()
            }
            _ => panic!("expected a tool response"),
        })
        .collect()
}

#[test]
fn open_tool_calls_are_answered_once_in_order() {
    let conversation = Conversation {
        messages: vec![
            message(Role::User, vec![MessageContent::Text("go".to_string())]),
            message(Role::Assistant, vec![request("b"), request("a"), request("b")]),
            message(Role::User, vec![response("a")]),
        ],
    };
    let turn = &conversation.messages[..];
    let appended = vec![message(Role::Assistant, vec![request("c")])];
    let r = cancellation_responses(&conversation, turn, &appended);
    assert_eq!(cancelled_ids(&r), vec!["b", "c"]);
}

#[test]
fn nothing_open_means_no_message() {
    let conversation = Conversation {
        messages: vec![
            message(Role::Assistant, vec![request("a")]),
            message(Role::User, vec![response("a")]),
        ],
    };
    let turn = &conversation.messages[..];
    let m = cancellation_message(&conversation, turn, &OperationResult::NotApplicable, 7);
    assert!(m.is_none());
}

#[test]
fn responses_appended_by_the_result_count_as_answers() {
    let conversation = Conversation { messages: vec![message(Role::Assistant, vec![request("a")])] };
    let turn = &conversation.messages[..];
    let result = OperationResult::Applied {
        effects: vec![
            Effect::AppendMessage(message(Role::Assistant, vec![request("b")])),
            Effect::AppendMessage(message(Role::User, vec![response("a")])),
        ],
        yielded: false,
    };
    let m = cancellation_message(&conversation, turn, &result, 42).unwrap();
    assert_eq!(m.role, Role::User);
    assert_eq!(m.created, 42);
    assert!(m.id.is_none());
    assert_eq!(cancelled_ids(&m.content), vec!["b"]);
    match with_cancellation(result, m) {
        OperationResult::Applied { effects, yielded } => {
            assert!(!yielded);
            assert_eq!(effects.len(), 3);
            assert!(matches!(&effects[2], Effect::AppendMessage(m) if m.role == Role::User));
        }
        _ => panic!("expected applied"),
    }
}

#[test]
fn cancelling_a_not_applicable_result_applies_the_answer() {
    let conversation = Conversation { messages: vec![message(Role::Assistant, vec![request("a")])] };
    let turn = &conversation.messages[..];
    let m = cancellation_message(&conversation, turn, &OperationResult::NotApplicable, 1).unwrap();
    match with_cancellation(OperationResult::NotApplicable, m) {
        OperationResult::Applied { effects, yielded } => {
            assert!(!yielded);
            assert_eq!(effects.len(), 1);
        }
        _ => panic!("expected applied"),
    }
}

#[test]
fn after_a_cancellation_no_call_is_left_open() {
    let mut conversation = Conversation {
        messages: vec![
            message(Role::User, vec![MessageContent::Text("go".to_string())]),
            message(Role::Assistant, vec![request("a"), request("b")]),
            message(Role::User, vec![response("b")]),
        ],
    };
    let len = conversation.messages.len();
    let first = cancellation_message(&conversation, &conversation.messages[..len], &OperationResult::NotApplicable, 1)
        .unwrap();
    assert_eq!(cancelled_ids(&first.content), vec!["a"]);
    conversation.messages.push(first);
    let len = conversation.messages.len();
    let again = cancellation_message(&conversation, &conversation.messages[..len], &OperationResult::NotApplicable, 2);
    assert!(again.is_none());
}
