use ops_llm::message::{Message, MessageContent, MessageMetadata, Role};
use ops_llm::outcome::{status_kickoff, status_outcome, Effect, OperationResult, StatusError};
use ops_llm::status::{
    context_label, is_status_command, status_message, status_report, status_token_count,
    SessionStatus,
};

fn session(label: &str) -> SessionStatus {
    SessionStatus {
        model: "model-a".to_string(),
        provider: "acme".to_string(),
        mode: "auto".to_string(),
        lifetime_tokens: 12345,
        context_tokens: 678,
        context_limit: 128000,
        context_label: label.to_string(),
    }
}

#[test]
fn status_command_is_recognised() {
    assert!(is_status_command("status"));
    assert!(!is_status_command("Status"));
    assert!(!is_status_command("statuses"));
    assert!(!is_status_command(""));
}

#[test]
fn token_counts_are_clamped_at_zero() {
    assert_eq!(status_token_count(None), 0);
    assert_eq!(status_token_count(Some(-5)), 0);
    assert_eq!(status_token_count(Some(0)), 0);
    assert_eq!(status_token_count(Some(42)), 42);
    assert_eq!(status_token_count(Some(i32::MAX)), i32::MAX as usize);
}

#[test]
fn context_labels() {
    assert_eq!(context_label(0, 55), "N/A");
    assert_eq!(context_label(1000, 0), "0%");
    assert_eq!(context_label(1000, 57), "57%");
    assert_eq!(context_label(1000, 100), "100%");
    assert_eq!(context_label(1000, 250), "100%");
}

#[test]
fn status_report_wording() {
    let report = status_report(&session("1%"));
    assert_eq!(
        report,
        "**Session status**\n\n- Model: model-a\n- Provider: acme\n- Mode: auto\n- Tokens (lifetime): 12345\n- Context: 678 / 128000 tokens (1%)"
    );
    let m = status_message(&session("N/A"), 9);
    assert_eq!(m.role, Role::Assistant);
    assert!(m.metadata.user_visible);
    assert!(!m.metadata.agent_visible);
    assert!(matches!(&m.content[0], MessageContent::Text(t) if t.ends_with("(N/A)")));
}

fn kickoff(id: Option<&str>) -> Message {
    Message {
        id: id.map(|s| s.to_string()),
        role: Role::User,
        created: 3,
        content: vec![MessageContent::Text("/status".into())],
        metadata: MessageMetadata {
            user_visible: true,
            agent_visible: true,
            output_token_limit_reached: false,
            turn_context: false,
            inference: None,
        },
    }
}

#[test]
fn status_kickoff_errors() {
    assert!(matches!(status_kickoff(&[]), Err(StatusError::NoKickoff)));
    assert!(matches!(status_kickoff(&[kickoff(None)]), Err(StatusError::KickoffWithoutId)));
    let (m, id) = status_kickoff(&[kickoff(Some("m1")), kickoff(Some("m2"))]).unwrap();
    assert_eq!(id, "m1");
    assert!(m.metadata.user_visible);
    assert!(!m.metadata.agent_visible);
}

#[test]
fn status_outcome_hides_the_command_and_yields() {
    match status_outcome("m1".to_string(), status_message(&session("N/A"), 1)) {
        OperationResult::Applied { effects, yielded } => {
            assert!(yielded);
            assert_eq!(effects.len(), 2);
            assert!(matches!(&effects[0], Effect::SetMessageVisibility { message_id, user_visible: true, agent_visible: false } if message_id == "m1"));
            assert!(matches!(&effects[1], Effect::AppendMessage(_)));
        }
        _ => panic!(),
    }
}
