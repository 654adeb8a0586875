use ops_llm::message::{
    Conversation, Message, MessageContent, MessageMetadata, Role, ToolCall, ToolRequest,
};
use ops_llm::thinking::{is_thinking, normalize_tool_call_thinking};

fn metadata() -> MessageMetadata {
    MessageMetadata {
        user_visible: true,
        agent_visible: true,
        output_token_limit_reached: false,
        turn_context: false,
        inference: None,
    }
}

fn message(role: Role, content: Vec<MessageContent>) -> Message {
    Message { id: None, role, created: 0, content, metadata: metadata() }
}

fn thinking(text: &str) -> MessageContent {
    MessageContent::Thinking { thinking: text.to_string(), signature: format!("sig-{text}") }
}

fn text(t: &str) -> MessageContent {
    MessageContent::Text(t.to_string())
}

fn request(id: &str) -> MessageContent {
    MessageContent::ToolRequest(ToolRequest {
        id: id.to_string(),
        tool_call: Ok(ToolCall { name: "shell".to_string(), arguments: None }),
        metadata: None,
    })
}

fn kinds(content: &[MessageContent]) -> Vec<String> {
    content
        .iter()
        .map(|c| match c {
            MessageContent::Text(t) => format!("text:{t}"),
            MessageContent::Thinking { thinking, signature } => {
                assert_eq!(signature, &format!("sig-{thinking}"));
                format!("thinking:{thinking}")
            }
            MessageContent::RedactedThinking(t) => format!("redacted:{t}"),
            MessageContent::ToolRequest(r) => format!("request:{}", r.id),
            MessageContent::ToolResponse(r) => format!("response:{}", r.id),
            MessageContent::Other { .. } => "other".to_string(),
        })
        .collect()
}

#[test]
fn thinking_items_are_recognised() {
    assert!(is_thinking(&thinking("hmm")));
    assert!(is_thinking(&MessageContent::RedactedThinking("x".to_string())));
    assert!(!is_thinking(&text("hi")));
    assert!(!is_thinking(&request("a")));
}

#[test]
fn thinking_moves_before_the_first_tool_request() {
    let mut acc = Conversation {
        messages: vec![
            message(Role::User, vec![text("do it")]),
            message(Role::Assistant, vec![thinking("plan")]),
            message(Role::Assistant, vec![text("ok"), thinking("more")]),
        ],
    };
    let mut chunk = message(Role::Assistant, vec![text("calling"), request("r1"), request("r2")]);
    normalize_tool_call_thinking(&mut acc, &mut chunk);
    assert_eq!(
        kinds(&chunk.content),
        vec!["text:calling", "thinking:plan", "thinking:more", "request:r1", "request:r2"]
    );
    // The message left empty is dropped; the other keeps its text.
    assert_eq!(acc.messages.len(), 2);
    assert_eq!(kinds(&acc.messages[0].content), vec!["text:do it"]);
    assert_eq!(kinds(&acc.messages[1].content), vec!["text:ok"]);
}

#[test]
fn chunk_without_tool_request_changes_nothing() {
    let mut acc = Conversation {
        messages: vec![message(Role::Assistant, vec![thinking("plan")]), message(Role::User, vec![])],
    };
    let mut chunk = message(Role::Assistant, vec![text("hello")]);
    normalize_tool_call_thinking(&mut acc, &mut chunk);
    assert_eq!(acc.messages.len(), 2);
    assert_eq!(kinds(&acc.messages[0].content), vec!["thinking:plan"]);
    assert_eq!(kinds(&chunk.content), vec!["text:hello"]);
}

#[test]
fn own_thinking_drops_the_earlier_thinking() {
    let mut acc = Conversation { messages: vec![message(Role::Assistant, vec![thinking("old")])] };
    let mut chunk = message(Role::Assistant, vec![thinking("new"), request("r1")]);
    normalize_tool_call_thinking(&mut acc, &mut chunk);
    assert!(acc.messages.is_empty());
    assert_eq!(kinds(&chunk.content), vec!["thinking:new", "request:r1"]);
}

#[test]
fn other_roles_and_tool_callers_keep_their_thinking() {
    let mut acc = Conversation {
        messages: vec![
            message(Role::User, vec![thinking("user thought")]),
            message(Role::Assistant, vec![thinking("earlier"), request("r0")]),
        ],
    };
    let mut chunk = message(Role::Assistant, vec![request("r1")]);
    normalize_tool_call_thinking(&mut acc, &mut chunk);
    assert_eq!(acc.messages.len(), 2);
    assert_eq!(kinds(&acc.messages[0].content), vec!["thinking:user thought"]);
    assert_eq!(kinds(&acc.messages[1].content), vec!["thinking:earlier", "request:r0"]);
    assert_eq!(kinds(&chunk.content), vec!["request:r1"]);
}

#[test]
fn empty_earlier_messages_are_dropped_when_a_tool_is_requested() {
    let mut acc = Conversation {
        messages: vec![message(Role::User, vec![]), message(Role::User, vec![text("q")])],
    };
    let mut chunk = message(Role::Assistant, vec![request("r1")]);
    normalize_tool_call_thinking(&mut acc, &mut chunk);
    assert_eq!(acc.messages.len(), 1);
    assert_eq!(kinds(&chunk.content), vec!["request:r1"]);
}

#[test]
fn normalizing_twice_changes_nothing_more() {
    let mut acc = Conversation {
        messages: vec![message(Role::Assistant, vec![thinking("a"), text("b")])],
    };
    let mut chunk = message(Role::Assistant, vec![request("r1")]);
    normalize_tool_call_thinking(&mut acc, &mut chunk);
    let first_acc: Vec<Vec<String>> = acc.messages.iter().map(|m| kinds(&m.content)).collect();
    let first_chunk = kinds(&chunk.content);
    normalize_tool_call_thinking(&mut acc, &mut chunk);
    let second_acc: Vec<Vec<String>> = acc.messages.iter().map(|m| kinds(&m.content)).collect();
    assert_eq!(first_acc, second_acc);
    assert_eq!(first_chunk, kinds(&chunk.content));
    assert_eq!(first_chunk, vec!["thinking:a", "request:r1"]);
}
