use ops_llm::message::{
    ContentBlock, Message, MessageContent, MessageMetadata, MetadataEntry, Role, ToolError,
    ToolResponse, ToolResult,
};
use ops_llm::tools::{annotate_unclaimed_tool_errors, available_tools_text, join_names, sorted_distinct_names};
use ops_llm::turn_context::{message_text, persist_turn_context};

fn names(v: &[&str]) -> Vec<String> {
    v.iter().map(|s| s.to_string()).collect()
}

#[test]
fn names_are_sorted_by_bytes_and_kept_once() {
    let sorted = sorted_distinct_names(&names(&["shell", "Zed", "read", "shell", "é", "a", "read"]));
    let mut expected = names(&["shell", "Zed", "read", "é", "a"]);
    expected.sort_unstable();
    expected.dedup();
    assert_eq!(sorted, expected);
    assert_eq!(sorted, names(&["Zed", "a", "read", "shell", "é"]));
}

#[test]
fn names_are_joined() {
    assert_eq!(join_names(&names(&[]), ", "), "");
    assert_eq!(join_names(&names(&["a"]), ", "), "a");
    assert_eq!(join_names(&names(&["a", "b", "c"]), ", "), "a, b, c");
}

#[test]
fn available_tools_note() {
    let (note, sorted) = available_tools_text(&names(&["b", "a", "b"]));
    assert_eq!(note, "Available tools: [a, b].");
    assert_eq!(sorted, names(&["a", "b"]));
    let (again, _) = available_tools_text(&names(&["a", "b"]));
    assert_eq!(note, again);
    assert_eq!(available_tools_text(&names(&[])).0, "Available tools: [].");
}

fn message(content: Vec<MessageContent>) -> Message {
    Message {
        id: Some("m".to_string()),
        role: Role::User,
        created: 0,
        content,
        metadata: MessageMetadata {
            user_visible: true,
            agent_visible: true,
            output_token_limit_reached: false,
            turn_context: false,
            inference: None,
        },
    }
}

fn flagged(id: &str, ok: bool) -> MessageContent {
    MessageContent::ToolResponse(ToolResponse {
        id: id.to_string(),
        tool_result: if ok {
            Ok(ToolResult {
                content: vec![ContentBlock::Text("no such tool".into())],
                structured_content: Some("{\"known\":false}".to_string()),
                meta: Some("{\"k\":1}".to_string()),
                is_error: Some(true),
            })
        } else {
            Err(ToolError { code: -32603, message: "failed".to_string(), data: None })
        },
        metadata: Some(vec![
            MetadataEntry { key: "unclaimed".to_string(), value: "true".to_string() },
            MetadataEntry { key: "other".to_string(), value: "1".to_string() },
        ]),
    })
}

#[test]
fn unclaimed_tool_errors_get_the_note() {
    let messages = vec![message(vec![
        flagged("a", true),
        flagged("b", false),
        MessageContent::Text("keep".into()),
    ])];
    let out = annotate_unclaimed_tool_errors(&messages, &"unclaimed".to_string(), &"Available tools: [x].".to_string());
    assert_eq!(out.len(), 1);
    match &out[0].content[0] {
        MessageContent::ToolResponse(r) => {
            let md = r.metadata.as_ref().unwrap();
            assert_eq!(md.len(), 1);
            assert_eq!(md[0].key, "other");
            let result = r.tool_result.as_ref().unwrap();
            assert_eq!(result.content.len(), 2);
            assert_eq!(result.structured_content.as_deref(), Some("{\"known\":false}"));
            assert_eq!(result.meta.as_deref(), Some("{\"k\":1}"));
            assert!(matches!(&result.content[1], ContentBlock::Text(t) if t == "Available tools: [x]."));
        }
        _ => panic!(),
    }
    match &out[0].content[1] {
        MessageContent::ToolResponse(r) => {
            assert_eq!(r.metadata.as_ref().unwrap().len(), 1);
            assert_eq!(r.tool_result.as_ref().unwrap_err().message, "failed");
        }
        _ => panic!(),
    }
    assert!(matches!(&out[0].content[2], MessageContent::Text(t) if t == "keep"));
    // Without the flag nothing changes.
    let untouched = annotate_unclaimed_tool_errors(&messages, &"missing".to_string(), &"n".to_string());
    match &untouched[0].content[0] {
        MessageContent::ToolResponse(r) => {
            assert_eq!(r.metadata.as_ref().unwrap().len(), 2);
            assert_eq!(r.tool_result.as_ref().unwrap().content.len(), 1);
        }
        _ => panic!(),
    }
}

#[test]
fn turn_context_is_persisted_only_when_its_text_changed() {
    let mut old = message(vec![MessageContent::Text("cwd: /a".into()), MessageContent::Text("budget: 3".into())]);
    old.metadata.turn_context = true;
    assert_eq!(message_text(&old), "cwd: /a\nbudget: 3");
    let same = message(vec![MessageContent::Text("cwd: /a".into()), MessageContent::Text("budget: 3".into())]);
    let changed = message(vec![MessageContent::Text("cwd: /a".into()), MessageContent::Text("budget: 2".into())]);
    let turn = vec![old, message(vec![MessageContent::Text("hi".into())])];
    assert!(!persist_turn_context(&turn, &same));
    assert!(persist_turn_context(&turn, &changed));
    assert!(persist_turn_context(&[], &same));
}

#[test]
fn a_persisted_event_is_not_persisted_again() {
    let mut event = message(vec![MessageContent::Text("budget: 1".into())]);
    event.metadata.turn_context = true;
    let mut turn = vec![message(vec![MessageContent::Text("q".into())])];
    assert!(persist_turn_context(&turn, &event));
    let copy = Message {
        id: None,
        role: event.role,
        created: event.created,
        content: vec![MessageContent::Text("budget: 1".into())],
        metadata: MessageMetadata {
            user_visible: true,
            agent_visible: true,
            output_token_limit_reached: false,
            turn_context: true,
            inference: None,
        },
    };
    turn.push(event);
    assert!(!persist_turn_context(&turn, &copy));
}
