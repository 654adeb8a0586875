use ops_llm::message::{
    Conversation, Message, MessageContent, MessageMetadata, Role, ToolCall, ToolRequest,
    ToolResponse, ToolResult,
};
use ops_llm::provider_view::{
    effective_role, ends_with_provider_turn, inference_applies, inference_messages,
    messages_for_provider, EffectiveRole,
};

fn metadata(agent_visible: bool) -> MessageMetadata {
    MessageMetadata {
        user_visible: true,
        agent_visible,
        output_token_limit_reached: false,
        turn_context: false,
        inference: None,
    }
}

fn message(role: Role, content: Vec<MessageContent>) -> Message {
    Message { id: None, role, created: 0, content, metadata: metadata(true) }
}

fn request(id: &str) -> MessageContent {
    MessageContent::ToolRequest(ToolRequest {
        id: id.to_string(),
        tool_call: Ok(ToolCall { name: "shell".to_string(), arguments: None }),
        metadata: None,
    })
}

fn response(id: &str) -> MessageContent {
    MessageContent::ToolResponse(ToolResponse {
        id: id.to_string(),
        tool_result: Ok(ToolResult { content: vec![], structured_content: None, meta: None, is_error: Some(false) }),
        metadata: None,
    })
}

fn text(t: &str) -> MessageContent {
    MessageContent::Text(t.to_string())
}

fn ids(content: &[MessageContent]) -> Vec<String> {
    content
        .iter()
        .map(|c| match c {
            MessageContent::Text(t) => t.clone(),
            MessageContent::ToolRequest(r) => format!("req:{}", r.id),
            MessageContent::ToolResponse(r) => format!("resp:{}", r.id),
            _ => "?".to_string(),
        })
        .collect()
}

#[test]
fn effective_roles() {
    assert_eq!(effective_role(&message(Role::User, vec![text("hi")])), EffectiveRole::User);
    assert_eq!(effective_role(&message(Role::User, vec![response("a")])), EffectiveRole::Tool);
    assert_eq!(effective_role(&message(Role::Assistant, vec![request("a")])), EffectiveRole::Assistant);
}

#[test]
fn provider_turn_follows_the_last_message() {
    assert!(!ends_with_provider_turn(&[]));
    assert!(ends_with_provider_turn(&[message(Role::User, vec![text("q")])]));
    assert!(ends_with_provider_turn(&[message(Role::User, vec![response("a")])]));
    assert!(!ends_with_provider_turn(&[
        message(Role::User, vec![text("q")]),
        message(Role::Assistant, vec![text("a")]),
    ]));
}

#[test]
fn unanswered_requests_of_earlier_turns_are_dropped() {
    let conversation = Conversation {
        messages: vec![
            message(Role::User, vec![text("first")]),
            message(Role::Assistant, vec![text("sure"), request("old-open"), request("old-done")]),
            message(Role::User, vec![response("old-done")]),
            message(Role::User, vec![text("second")]),
            message(Role::Assistant, vec![request("new-open")]),
        ],
    };
    let turn = &conversation.messages[3..];
    let out = messages_for_provider(&conversation, turn);
    assert_eq!(out.len(), 5);
    assert_eq!(ids(&out[1].content), vec!["sure", "req:old-done"]);
    assert_eq!(ids(&out[4].content), vec!["req:new-open"]);
}

#[test]
fn hidden_messages_items_and_emptied_messages_are_dropped() {
    let mut hidden = message(Role::User, vec![text("secret")]);
    hidden.metadata.agent_visible = false;
    let conversation = Conversation {
        messages: vec![
            hidden,
            message(
                Role::User,
                vec![
                    text("visible"),
                    MessageContent::Other { agent_visible: false, data: "{}".to_string() },
                ],
            ),
            message(Role::Assistant, vec![request("gone")]),
            message(Role::User, vec![text("now")]),
        ],
    };
    let turn = &conversation.messages[3..];
    let out = messages_for_provider(&conversation, turn);
    assert_eq!(out.len(), 2);
    assert_eq!(ids(&out[0].content), vec!["visible"]);
    assert_eq!(ids(&out[1].content), vec!["now"]);
}

#[test]
fn inference_applies_when_the_provider_is_to_answer() {
    let conversation = Conversation {
        messages: vec![message(Role::User, vec![text("hello")])],
    };
    assert!(inference_applies(&conversation, Some(1), false));
    assert!(!inference_applies(&conversation, Some(1), true));
    assert!(!inference_applies(&conversation, None, false));
    let answered = Conversation {
        messages: vec![
            message(Role::User, vec![text("hello")]),
            message(Role::Assistant, vec![text("hi")]),
        ],
    };
    assert!(!inference_applies(&answered, Some(2), false));
    // A tool request left open by an earlier turn is no answer: after it is
    // dropped the user's message is last again.
    let open = Conversation {
        messages: vec![
            message(Role::User, vec![text("hello")]),
            message(Role::Assistant, vec![request("x")]),
        ],
    };
    assert!(inference_applies(&open, Some(0), false));
    assert!(!inference_applies(&open, Some(1), false));
}

#[test]
fn the_current_turn_reaches_the_provider_whole() {
    let conversation = Conversation {
        messages: vec![
            message(Role::Assistant, vec![request("stale")]),
            message(Role::User, vec![text("do")]),
            message(Role::Assistant, vec![text("ok"), request("t1")]),
            message(Role::User, vec![response("t1")]),
        ],
    };
    let turn = &conversation.messages[1..];
    let out = messages_for_provider(&conversation, turn);
    assert_eq!(out.len(), 3);
    let got: Vec<Vec<String>> = out.iter().map(|m| ids(&m.content)).collect();
    let want: Vec<Vec<String>> = turn.iter().map(|m| ids(&m.content)).collect();
    assert_eq!(got, want);
}

#[test]
fn inference_declines_exactly_when_it_does_not_apply() {
    let cases = vec![
        (vec![message(Role::User, vec![text("hello")])], 1, false),
        (vec![message(Role::User, vec![text("hello")])], 1, true),
        (vec![message(Role::User, vec![text("hello")]), message(Role::Assistant, vec![text("hi")])], 2, false),
        (vec![message(Role::User, vec![text("hello")]), message(Role::Assistant, vec![request("x")])], 0, false),
        (vec![message(Role::User, vec![text("hello")]), message(Role::Assistant, vec![request("x")])], 1, false),
    ];
    for (messages, turn_len, trailing_error) in cases {
        let conversation = Conversation { messages };
        let start = conversation.messages.len() - turn_len;
        let turn = &conversation.messages[start..];
        let step = inference_messages(&conversation, turn, trailing_error);
        let applies = inference_applies(&conversation, Some(turn_len), trailing_error);
        assert_eq!(step.is_some(), applies);
        if let Some(visible) = step {
            assert_eq!(visible.len(), messages_for_provider(&conversation, turn).len());
        }
    }
}
