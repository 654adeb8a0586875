use ops_llm::message::{
    InferenceMetadata, Message, MessageContent, MessageMetadata, Role, ToolCall, ToolRequest,
};
use ops_llm::stream::StreamState;

fn message(role: Role, content: Vec<MessageContent>) -> Message {
    Message {
        id: None,
        role,
        created: 0,
        content,
        metadata: MessageMetadata {
            user_visible: true,
            agent_visible: true,
            output_token_limit_reached: false,
            turn_context: false,
            inference: None,
        },
    }
}

fn request(id: &str) -> MessageContent {
    MessageContent::ToolRequest(ToolRequest {
        id: id.to_string(),
        tool_call: Ok(ToolCall { name: "shell".to_string(), arguments: None }),
        metadata: None,
    })
}

fn inference() -> Option<InferenceMetadata> {
    Some(InferenceMetadata {
        provider: "acme".to_string(),
        requested_model: "model-b".to_string(),
        resolved_model: Some("model-b1".to_string()),
        provider_session_id: None,
    })
}

fn request_ids(m: &Message) -> Vec<String> {
    m.content
        .iter()
        .filter_map(|c| match c {
            MessageContent::ToolRequest(r) => Some(r.id.clone()),
            _ => None,
        })
        .collect()
}

#[test]
fn repeated_tool_requests_are_dropped_across_and_within_chunks() {
    let mut state = StreamState::new();
    let (first, emit) = state.prepare_chunk(
        message(Role::Assistant, vec![request("a"), request("b"), request("a")]),
        &inference(),
    );
    assert!(emit);
    assert_eq!(request_ids(&first), vec!["a", "b"]);
    state.accept_chunk(first);
    let (second, emit) =
        state.prepare_chunk(message(Role::Assistant, vec![request("b"), request("c")]), &inference());
    assert!(emit);
    assert_eq!(request_ids(&second), vec!["c"]);
    state.accept_chunk(second);
    assert_eq!(state.accumulator.messages.len(), 2);
}

#[test]
fn assistant_chunks_are_marked_with_the_inference() {
    let mut state = StreamState::new();
    let (chunk, _) =
        state.prepare_chunk(message(Role::Assistant, vec![MessageContent::Text("hi".into())]), &inference());
    let marked = chunk.metadata.inference.unwrap();
    assert_eq!(marked.provider, "acme");
    assert_eq!(marked.resolved_model.as_deref(), Some("model-b1"));
    let (user_chunk, _) =
        state.prepare_chunk(message(Role::User, vec![MessageContent::Text("hi".into())]), &inference());
    assert!(user_chunk.metadata.inference.is_none());
}

#[test]
fn empty_chunks_are_emitted_only_at_the_token_limit() {
    let mut state = StreamState::new();
    let (chunk, emit) = state.prepare_chunk(message(Role::Assistant, vec![request("a")]), &None);
    assert!(emit);
    state.accept_chunk(chunk);
    let (dup, emit) = state.prepare_chunk(message(Role::Assistant, vec![request("a")]), &None);
    assert!(dup.content.is_empty());
    assert!(!emit);
    let mut at_limit = message(Role::Assistant, vec![]);
    at_limit.metadata.output_token_limit_reached = true;
    let (limit, emit) = state.prepare_chunk(at_limit, &None);
    assert!(limit.content.is_empty());
    assert!(emit);
}

#[test]
fn streamed_thinking_joins_the_tool_call() {
    let mut state = StreamState::new();
    let (thought, emit) = state
        .prepare_chunk(message(Role::Assistant, vec![MessageContent::Thinking { thinking: "plan".into(), signature: "s1".into() }]), &None);
    assert!(emit);
    state.accept_chunk(thought);
    let (call, _) = state.prepare_chunk(message(Role::Assistant, vec![request("r")]), &None);
    assert!(state.accumulator.messages.is_empty());
    assert!(matches!(&call.content[0], MessageContent::Thinking { thinking, signature } if thinking == "plan" && signature == "s1"));
    assert!(matches!(&call.content[1], MessageContent::ToolRequest(r) if r.id == "r"));
}
