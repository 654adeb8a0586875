use ops_llm::message::{Message, MessageContent, MessageMetadata, Role};
use ops_llm::outcome::{
    announce_empty_reply, empty_reply_notice, fail_reply, finish_reply, next_reply_step, Effect,
    OperationResult, ReplyStep,
};
use ops_llm::reply::{has_recorded_tokens, is_blank, is_empty_reply, is_white_space};
use ops_llm::stream::{ProviderUsage, Usage};

fn message(content: Vec<MessageContent>) -> Message {
    Message {
        id: None,
        role: Role::Assistant,
        created: 0,
        content,
        metadata: MessageMetadata {
            user_visible: true,
            agent_visible: true,
            output_token_limit_reached: false,
            turn_context: false,
            inference: None,
        },
    }
}

fn usage(input: Option<i32>, output: Option<i32>, total: Option<i32>) -> Effect {
    Effect::RecordUsage(ProviderUsage {
        model: "m".to_string(),
        usage: Usage { input_tokens: input, output_tokens: output, total_tokens: total },
    })
}

#[test]
fn white_space_is_that_of_trim() {
    for c in ['\t', '\n', '\u{b}', '\u{c}', '\r', ' ', '\u{85}', '\u{a0}', '\u{1680}', '\u{2000}', '\u{200a}', '\u{2028}', '\u{2029}', '\u{202f}', '\u{205f}', '\u{3000}'] {
        assert!(is_white_space(c), "{:?}", c);
        assert_eq!(c.is_whitespace(), is_white_space(c));
    }
    for c in ['a', '\u{200b}', '\u{feff}', '0', '\u{1f600}'] {
        assert!(!is_white_space(c));
        assert_eq!(c.is_whitespace(), is_white_space(c));
    }
    for text in ["", "  \n\t", "\u{3000}", " x ", "\u{200b}"] {
        assert_eq!(is_blank(&text.to_string()), text.trim().is_empty());
    }
}

#[test]
fn blank_text_and_thinking_make_an_empty_reply() {
    assert!(is_empty_reply(&vec![]));
    assert!(is_empty_reply(&vec![message(vec![
        MessageContent::Text("  ".into()),
        MessageContent::Thinking { thinking: "\n".into(), signature: "sig".into() }
    ])]));
    assert!(!is_empty_reply(&vec![message(vec![MessageContent::Text(" a ".into())])]));
    assert!(!is_empty_reply(&vec![message(vec![MessageContent::RedactedThinking("".into())])]));
    let mut limit = message(vec![]);
    limit.metadata.output_token_limit_reached = true;
    assert!(!is_empty_reply(&vec![limit]));
}

#[test]
fn token_counts_are_recorded_when_any_is_present() {
    assert!(!has_recorded_tokens(&vec![]));
    assert!(!has_recorded_tokens(&vec![usage(None, None, None)]));
    assert!(has_recorded_tokens(&vec![usage(None, None, None), usage(None, Some(3), None)]));
}

#[test]
fn reply_steps() {
    let said = vec![message(vec![MessageContent::Text("hello".into())])];
    assert_eq!(next_reply_step(&vec![], &vec![]), ReplyStep::AnnounceEmpty);
    assert_eq!(next_reply_step(&vec![], &said), ReplyStep::EstimateUsage);
    assert_eq!(next_reply_step(&vec![usage(Some(1), None, None)], &said), ReplyStep::Finish);
    assert_eq!(next_reply_step(&vec![usage(None, None, None)], &said), ReplyStep::EstimateUsage);
}

#[test]
fn empty_reply_notice_and_outcome() {
    let notice = empty_reply_notice(5);
    assert_eq!(notice.role, Role::Assistant);
    assert_eq!(notice.created, 5);
    assert!(matches!(&notice.content[0], MessageContent::Text(t)
        if t == "The model returned an empty response. Please resend your message to continue."));
    match announce_empty_reply(vec![usage(None, None, None)], notice) {
        OperationResult::Applied { effects, yielded } => {
            assert!(yielded);
            assert_eq!(effects.len(), 2);
        }
        _ => panic!(),
    }
}

#[test]
fn finished_and_failed_replies() {
    let reply = vec![message(vec![MessageContent::Text("a".into())]), message(vec![MessageContent::Text("b".into())])];
    let estimate = ProviderUsage { model: "m".into(), usage: Usage { input_tokens: Some(1), output_tokens: Some(2), total_tokens: Some(3) } };
    match finish_reply(vec![], reply, Some(estimate)) {
        OperationResult::Applied { effects, yielded } => {
            assert!(!yielded);
            assert_eq!(effects.len(), 3);
            assert!(matches!(&effects[0], Effect::RecordUsage(u) if u.usage.total_tokens == Some(3)));
            assert!(matches!(&effects[2], Effect::AppendMessage(m) if matches!(&m.content[0], MessageContent::Text(t) if t == "b")));
        }
        _ => panic!(),
    }
    let partial = vec![message(vec![MessageContent::Text("half".into())])];
    let error = message(vec![MessageContent::Text("provider failed".into())]);
    match fail_reply(vec![usage(None, None, None)], partial, error) {
        OperationResult::Applied { effects, yielded } => {
            assert!(!yielded);
            assert_eq!(effects.len(), 3);
            assert!(matches!(&effects[2], Effect::AppendMessage(m) if matches!(&m.content[0], MessageContent::Text(t) if t == "provider failed")));
        }
        _ => panic!(),
    }
}
