//! The session status report that the `status` command shows.
use vstd::prelude::*;
use vstd::string::StringExecFns;
use crate::message::{text_message, ContentView, Message, Role};

verus! {

/// The character of a decimal digit.
pub open spec fn digit(d: nat) -> char {
    (d + 48) as char
}

/// The decimal numeral of `n`, without leading zeros.
pub open spec fn decimal(n: nat) -> Seq<char>
    decreases n,
{
    if n < 10 {
        seq![digit(n)]
    } else {
        decimal(n / 10).push(digit(n % 10))
    }
}

/// The text of the decimal digit `d`.
fn digit_text(d: usize) -> (r: &'static str)
    requires
        d < 10,
    ensures
        r@ == seq![digit(d as nat)],
{
    match d {
        0 => {
            proof {
                reveal_strlit("0");
            }
            "0"
        },
        1 => {
            proof {
                reveal_strlit("1");
            }
            "1"
        },
        2 => {
            proof {
                reveal_strlit("2");
            }
            "2"
        },
        3 => {
            proof {
                reveal_strlit("3");
            }
            "3"
        },
        4 => {
            proof {
                reveal_strlit("4");
            }
            "4"
        },
        5 => {
            proof {
                reveal_strlit("5");
            }
            "5"
        },
        6 => {
            proof {
                reveal_strlit("6");
            }
            "6"
        },
        7 => {
            proof {
                reveal_strlit("7");
            }
            "7"
        },
        8 => {
            proof {
                reveal_strlit("8");
            }
            "8"
        },
        _ => {
            proof {
                reveal_strlit("9");
            }
            "9"
        },
    }
}

/// The decimal numeral of `n`, as `Display` writes an unsigned integer.
fn decimal_text(n: usize) -> (r: String)
    ensures
        r@ == decimal(n as nat),
    decreases n,
{
    if n < 10 {
        digit_text(n).to_owned()
    } else {
        let mut text = decimal_text(n / 10);
        text.append(digit_text(n % 10));
        assert(text@ =~= decimal((n / 10) as nat).push(digit((n % 10) as nat)));
        text
    }
}

/// Whether a slash command is the status command.
pub fn is_status_command(command: &str) -> (r: bool)
    ensures
        r == (command@ == "status"@),
{
    let given = command.to_owned();
    let status = "status".to_owned();
    given == status
}

/// A session's token count for the report: the provider's total, or zero
/// when it reported none or a negative one.
pub fn status_token_count(total: Option<i32>) -> (r: usize)
    ensures
        r == match total {
            Some(t) => if t > 0 {
                t as int
            } else {
                0
            },
            None => 0,
        },
{
    match total {
        Some(t) => if t > 0 {
            t as usize
        } else {
            0
        },
        None => 0,
    }
}

/// How full the context is: the rounded percentage, capped at a hundred,
/// when the context limit is known, and "N/A" otherwise.
pub open spec fn context_label_text(context_limit: nat, rounded_percent: nat) -> Seq<char> {
    if context_limit > 0 {
        decimal(if rounded_percent < 100 {
            rounded_percent
        } else {
            100
        }) + "%"@
    } else {
        "N/A"@
    }
}

/// How full the context is; `rounded_percent` is the share of the limit that
/// the context's tokens take, as a percentage rounded to the nearest whole,
/// and matters only when the limit is known.
pub fn context_label(context_limit: usize, rounded_percent: usize) -> (r: String)
    ensures
        r@ == context_label_text(context_limit as nat, rounded_percent as nat),
{
    if context_limit > 0 {
        let capped = if rounded_percent < 100 {
            rounded_percent
        } else {
            100
        };
        let mut text = decimal_text(capped);
        text.append("%");
        text
    } else {
        "N/A".to_owned()
    }
}

/// The facts the status report shows.
pub struct SessionStatus {
    pub model: String,
    pub provider: String,
    pub mode: String,
    pub lifetime_tokens: usize,
    pub context_tokens: usize,
    pub context_limit: usize,
    pub context_label: String,
}

/// The wording of the status report.
pub open spec fn status_report_text(s: SessionStatus) -> Seq<char> {
    "**Session status**\n\n- Model: "@ + s.model@ + "\n- Provider: "@ + s.provider@ + "\n- Mode: "@
        + s.mode@ + "\n- Tokens (lifetime): "@ + decimal(s.lifetime_tokens as nat) + "\n- Context: "@
        + decimal(s.context_tokens as nat) + " / "@ + decimal(s.context_limit as nat) + " tokens ("@
        + s.context_label@ + ")"@
}

/// The status report.
pub fn status_report(s: &SessionStatus) -> (r: String)
    ensures
        r@ == status_report_text(*s),
{
    let mut text = "**Session status**\n\n- Model: ".to_owned();
    text.append(s.model.as_str());
    text.append("\n- Provider: ");
    text.append(s.provider.as_str());
    text.append("\n- Mode: ");
    text.append(s.mode.as_str());
    text.append("\n- Tokens (lifetime): ");
    let lifetime = decimal_text(s.lifetime_tokens);
    text.append(lifetime.as_str());
    text.append("\n- Context: ");
    let context = decimal_text(s.context_tokens);
    text.append(context.as_str());
    text.append(" / ");
    let limit = decimal_text(s.context_limit);
    text.append(limit.as_str());
    text.append(" tokens (");
    text.append(s.context_label.as_str());
    text.append(")");
    text
}

/// The assistant message, written at `created`, that carries the status
/// report: shown to the user, hidden from the agent.
pub fn status_message(s: &SessionStatus, created: i64) -> (m: Message)
    ensures
        m@.id == None::<String>,
        m@.role == Role::Assistant,
        m@.created == created,
        m@.metadata.user_visible,
        !m@.metadata.agent_visible,
        !m@.metadata.output_token_limit_reached,
        !m@.metadata.turn_context,
        m@.metadata.inference is None,
        m@.content.len() == 1,
        m@.content[0] matches ContentView::Text(t) && t@ == status_report_text(*s),
{
    let mut m = text_message(Role::Assistant, created, status_report(s));
    m.metadata.agent_visible = false;
    m
}

} // verus!
