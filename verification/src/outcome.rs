//! What an operation hands back to the state machine: the effects it had on
//! the conversation, and whether it ends the agent's turn.
use vstd::prelude::*;
use crate::cancel::{cancellation_responses, cancels, open_requests};
use crate::message::{
    default_metadata, new_message, text_message, views, ContentView, Conversation,
    Message, MessageView, Role,
};
use crate::reply::{empty_reply, has_recorded_tokens, is_empty_reply, usage_recorded};
use crate::stream::ProviderUsage;

verus! {

broadcast use vstd::seq_lib::group_seq_properties;

/// One change an operation makes.
#[derive(Debug)]
pub enum Effect {
    /// A message joins the conversation.
    AppendMessage(Message),
    /// The provider's token counts are recorded for the session.
    RecordUsage(ProviderUsage),
    /// A stored message becomes visible, or not, to the user and the agent.
    SetMessageVisibility { message_id: String, user_visible: bool, agent_visible: bool },
}

/// An effect as the contracts see it.
pub enum EffectView {
    AppendMessage(MessageView),
    RecordUsage(ProviderUsage),
    SetMessageVisibility { message_id: String, user_visible: bool, agent_visible: bool },
}

impl View for Effect {
    type V = EffectView;

    open spec fn view(&self) -> EffectView {
        match self {
            Effect::AppendMessage(m) => EffectView::AppendMessage(m@),
            Effect::RecordUsage(u) => EffectView::RecordUsage(*u),
            Effect::SetMessageVisibility { message_id, user_visible, agent_visible } =>
                EffectView::SetMessageVisibility {
                message_id: *message_id,
                user_visible: *user_visible,
                agent_visible: *agent_visible,
            },
        }
    }
}

/// The views of a list of effects.
pub open spec fn effect_views(effects: Seq<Effect>) -> Seq<EffectView> {
    effects.map_values(|e: Effect| e@)
}

/// What an operation did: nothing, because it does not apply, or it applied
/// with its effects, and `yielded` when it hands the turn back to the user.
#[derive(Debug)]
pub enum OperationResult {
    NotApplicable,
    Applied { effects: Vec<Effect>, yielded: bool },
}

/// An operation result as the contracts see it.
pub enum OperationResultView {
    NotApplicable,
    Applied { effects: Seq<EffectView>, yielded: bool },
}

impl View for OperationResult {
    type V = OperationResultView;

    open spec fn view(&self) -> OperationResultView {
        match self {
            OperationResult::NotApplicable => OperationResultView::NotApplicable,
            OperationResult::Applied { effects, yielded } => OperationResultView::Applied {
                effects: effect_views(effects@),
                yielded: *yielded,
            },
        }
    }
}

// ---------------------------------------------------------------------------
// Cancellation

/// The messages that `effects` append, in order.
pub open spec fn appended_in(effects: Seq<EffectView>) -> Seq<MessageView>
    decreases effects.len(),
{
    if effects.len() == 0 {
        Seq::empty()
    } else {
        appended_in(effects.drop_last()) + match effects.last() {
            EffectView::AppendMessage(m) => seq![m],
            _ => Seq::empty(),
        }
    }
}

/// The messages that an operation result appends.
pub open spec fn appended_by(result: OperationResultView) -> Seq<MessageView> {
    match result {
        OperationResultView::NotApplicable => Seq::empty(),
        OperationResultView::Applied { effects, .. } => appended_in(effects),
    }
}

/// Copies of the messages that `result` appends, in order.
pub fn appended_messages(result: &OperationResult) -> (r: Vec<Message>)
    ensures
        views(r@) == appended_by(result@),
{
    let mut out: Vec<Message> = Vec::new();
    match result {
        OperationResult::NotApplicable => {},
        OperationResult::Applied { effects, .. } => {
            let ghost es = effect_views(effects@);
            let mut i: usize = 0;
            while i < effects.len()
                invariant
                    i <= effects.len(),
                    es == effect_views(effects@),
                    views(out@) == appended_in(es.take(i as int)),
                decreases effects.len() - i,
            {
                let ghost before = out@;
                assert(es.take(i + 1).drop_last() =~= es.take(i as int));
                assert(es[i as int] == effects@[i as int]@);
                match &effects[i] {
                    Effect::AppendMessage(m) => {
                        let copy = m.clone();
                        out.push(copy);
                        assert(views(out@) =~= views(before) + seq![m@]);
                    },
                    _ => {
                        assert(views(out@) =~= views(before) + Seq::<MessageView>::empty());
                    },
                }
                i = i + 1;
            }
            assert(es.take(effects.len() as int) =~= es);
        },
    }
    out
}

/// The user message that answers, as cancelled, the tool calls that the
/// turn and the messages `result` appends left open, written at `created`;
/// `None` when none is open.
pub fn cancellation_message(
    conversation: &Conversation,
    turn: &[Message],
    result: &OperationResult,
    created: i64,
) -> (r: Option<Message>)
    ensures
        ({
            let open = open_requests(conversation@, views(turn@), appended_by(result@));
            &&& r is None <==> open.len() == 0
            &&& r matches Some(m) ==> {
                &&& m@.id == None::<String>
                &&& m@.role == Role::User
                &&& m@.created == created
                &&& m@.metadata == default_metadata()
                &&& m@.content.len() == open.len()
                &&& forall|i: int| 0 <= i < open.len() ==> cancels(#[trigger] m@.content[i], open[i])
            }
        }),
{
    let appended = appended_messages(result);
    let responses = cancellation_responses(conversation, turn, appended.as_slice());
    if responses.len() == 0 {
        None
    } else {
        let m = new_message(Role::User, created, responses);
        Some(m)
    }
}

/// The result of an operation cancelled after it produced `result`, once the
/// cancellation message `response` was emitted: the response joins the
/// effects.
pub fn with_cancellation(result: OperationResult, response: Message) -> (r: OperationResult)
    ensures
        r@ == match result@ {
            OperationResultView::NotApplicable => OperationResultView::Applied {
                effects: seq![EffectView::AppendMessage(response@)],
                yielded: false,
            },
            OperationResultView::Applied { effects, yielded } => OperationResultView::Applied {
                effects: effects.push(EffectView::AppendMessage(response@)),
                yielded,
            },
        },
{
    match result {
        OperationResult::NotApplicable => {
            let mut effects: Vec<Effect> = Vec::new();
            effects.push(Effect::AppendMessage(response));
            let r = OperationResult::Applied { effects, yielded: false };
            assert(effect_views(effects@) =~= seq![EffectView::AppendMessage(response@)]);
            r
        },
        OperationResult::Applied { effects, yielded } => {
            let ghost before = effects@;
            let mut effects = effects;
            effects.push(Effect::AppendMessage(response));
            assert(effect_views(effects@) =~= effect_views(before).push(
                EffectView::AppendMessage(response@),
            ));
            OperationResult::Applied { effects, yielded }
        },
    }
}

// ---------------------------------------------------------------------------
// The status command

/// Why the status command could not run.
#[derive(Debug, PartialEq, Eq, Structural, Clone, Copy)]
pub enum StatusError {
    /// The turn holds no message: no command started it.
    NoKickoff,
    /// The command's message was not stored: it has no id.
    KickoffWithoutId,
}

/// `m` made visible to the user and hidden from the agent.
pub open spec fn user_only(m: MessageView) -> MessageView {
    MessageView {
        metadata: crate::message::MessageMetadata { user_visible: true, agent_visible: false, ..m.metadata },
        ..m
    }
}

/// The message that started the turn, to be shown to the user only, and its
/// id.
pub fn status_kickoff(turn: &[Message]) -> (r: Result<(Message, String), StatusError>)
    ensures
        turn@.len() == 0 ==> r == Err::<(Message, String), StatusError>(StatusError::NoKickoff),
        turn@.len() > 0 && turn@[0].id is None ==> r == Err::<(Message, String), StatusError>(
            StatusError::KickoffWithoutId,
        ),
        turn@.len() > 0 && turn@[0].id is Some ==> (r matches Ok((m, id)) && m@ == user_only(
            turn@[0]@,
        ) && id == turn@[0].id.unwrap()),
{
    if turn.len() == 0 {
        return Err(StatusError::NoKickoff);
    }
    let first = &turn[0];
    match &first.id {
        None => Err(StatusError::KickoffWithoutId),
        Some(id) => {
            let mut m = first.clone();
            m.metadata.user_visible = true;
            m.metadata.agent_visible = false;
            Ok((m, id.clone()))
        },
    }
}

/// The result of the status command once its report `response` was
/// emitted: the command's message `message_id` is hidden from the agent,
/// the report joins the conversation, and the turn goes back to the user.
pub fn status_outcome(message_id: String, response: Message) -> (r: OperationResult)
    ensures
        r@ == (OperationResultView::Applied {
            effects: seq![
                EffectView::SetMessageVisibility { message_id, user_visible: true, agent_visible: false },
                EffectView::AppendMessage(response@),
            ],
            yielded: true,
        }),
{
    let mut effects: Vec<Effect> = Vec::new();
    effects.push(Effect::SetMessageVisibility { message_id, user_visible: true, agent_visible: false });
    effects.push(Effect::AppendMessage(response));
    let ghost ev = effect_views(effects@);
    assert(ev =~= seq![
        EffectView::SetMessageVisibility { message_id, user_visible: true, agent_visible: false },
        EffectView::AppendMessage(response@),
    ]);
    OperationResult::Applied { effects, yielded: true }
}

// ---------------------------------------------------------------------------
// The end of the reply

/// What to do once the provider's stream ended.
#[derive(Debug, PartialEq, Eq, Structural, Clone, Copy)]
pub enum ReplyStep {
    /// The model said nothing: tell the user and hand the turn back.
    AnnounceEmpty,
    /// The provider reported no token counts: estimate them, then finish.
    EstimateUsage,
    /// Finish with the reply as it is.
    Finish,
}

pub open spec fn next_reply_step_spec(effects: Seq<EffectView>, reply: Seq<MessageView>) -> ReplyStep {
    if empty_reply(reply) {
        ReplyStep::AnnounceEmpty
    } else if !usage_recorded(effects) && reply.len() > 0 {
        ReplyStep::EstimateUsage
    } else {
        ReplyStep::Finish
    }
}

/// What to do once the provider's stream ended with `reply`, the effects so
/// far being `effects`.
pub fn next_reply_step(effects: &Vec<Effect>, reply: &Vec<Message>) -> (r: ReplyStep)
    ensures
        r == next_reply_step_spec(effect_views(effects@), views(reply@)),
{
    if is_empty_reply(reply) {
        ReplyStep::AnnounceEmpty
    } else if !has_recorded_tokens(effects) && reply.len() > 0 {
        ReplyStep::EstimateUsage
    } else {
        ReplyStep::Finish
    }
}

/// The text that tells the user the model said nothing.
pub open spec fn empty_reply_text() -> Seq<char> {
    "The model returned an empty response. Please resend your message to continue."@
}

/// The assistant message, written at `created`, that tells the user the
/// model said nothing.
pub fn empty_reply_notice(created: i64) -> (m: Message)
    ensures
        m@.id == None::<String>,
        m@.role == Role::Assistant,
        m@.created == created,
        m@.metadata == default_metadata(),
        m@.content.len() == 1,
        m@.content[0] matches ContentView::Text(t) && t@ == empty_reply_text(),
{
    let text = "The model returned an empty response. Please resend your message to continue.".to_owned();
    text_message(Role::Assistant, created, text)
}

/// The result when the model said nothing, once `notice` was emitted: the
/// notice joins the effects and the turn goes back to the user.
pub fn announce_empty_reply(effects: Vec<Effect>, notice: Message) -> (r: OperationResult)
    ensures
        r@ == (OperationResultView::Applied {
            effects: effect_views(effects@).push(EffectView::AppendMessage(notice@)),
            yielded: true,
        }),
{
    let ghost before = effects@;
    let mut effects = effects;
    effects.push(Effect::AppendMessage(notice));
    assert(effect_views(effects@) =~= effect_views(before).push(EffectView::AppendMessage(notice@)));
    OperationResult::Applied { effects, yielded: true }
}

/// `effects` followed by one append per message of `messages`.
pub open spec fn appending(effects: Seq<EffectView>, messages: Seq<MessageView>) -> Seq<EffectView> {
    effects + messages.map_values(|m: MessageView| EffectView::AppendMessage(m))
}

/// Appends to `effects` one append per message of `messages`, in order.
fn append_all(effects: &mut Vec<Effect>, messages: &Vec<Message>)
    ensures
        effect_views(final(effects)@) == appending(effect_views(old(effects)@), views(messages@)),
{
    let ghost start = effect_views(effects@);
    let ghost ms = views(messages@);
    let mut k: usize = 0;
    while k < messages.len()
        invariant
            k <= messages.len(),
            ms == views(messages@),
            effect_views(effects@) == appending(start, ms.take(k as int)),
        decreases messages.len() - k,
    {
        let ghost before = effects@;
        let m = messages[k].clone();
        assert(ms[k as int] == m@);
        effects.push(Effect::AppendMessage(m));
        assert(ms.take(k + 1) =~= ms.take(k as int).push(m@));
        assert(effect_views(effects@) =~= effect_views(before).push(EffectView::AppendMessage(m@)));
        assert(effect_views(effects@) =~= appending(start, ms.take(k + 1)));
        k = k + 1;
    }
    assert(ms.take(messages.len() as int) =~= ms);
}

/// The result of a reply that ended well: the effects so far, the estimated
/// token counts if the provider reported none, then the reply's messages.
pub fn finish_reply(effects: Vec<Effect>, reply: Vec<Message>, estimate: Option<ProviderUsage>) -> (r: OperationResult)
    ensures
        r@ == (OperationResultView::Applied {
            effects: appending(
                match estimate {
                    Some(u) => effect_views(effects@).push(EffectView::RecordUsage(u)),
                    None => effect_views(effects@),
                },
                views(reply@),
            ),
            yielded: false,
        }),
{
    let ghost before = effects@;
    let mut effects = effects;
    match estimate {
        Some(u) => {
            effects.push(Effect::RecordUsage(u));
            assert(effect_views(effects@) =~= effect_views(before).push(EffectView::RecordUsage(u)));
        },
        None => {},
    }
    append_all(&mut effects, &reply);
    OperationResult::Applied { effects, yielded: false }
}

/// The result of a reply that failed, once the error message `notice` was
/// emitted: the effects so far, what was read of the reply, then the notice.
pub fn fail_reply(effects: Vec<Effect>, reply: Vec<Message>, notice: Message) -> (r: OperationResult)
    ensures
        r@ == (OperationResultView::Applied {
            effects: appending(effect_views(effects@), views(reply@)).push(
                EffectView::AppendMessage(notice@),
            ),
            yielded: false,
        }),
{
    let mut effects = effects;
    append_all(&mut effects, &reply);
    let ghost before = effects@;
    effects.push(Effect::AppendMessage(notice));
    assert(effect_views(effects@) =~= effect_views(before).push(EffectView::AppendMessage(notice@)));
    OperationResult::Applied { effects, yielded: false }
}

// ---------------------------------------------------------------------------
// Laws

/// Law: a reply holds something said when some item of it is neither text
/// nor plain thinking (a tool request, a tool response, redacted thinking or
/// any other item), or text or thinking with a character that is not white
/// space. Such a reply is never announced as empty: it is kept and finished.
pub proof fn lemma_reply_with_content_is_kept(effects: Seq<EffectView>, reply: Seq<MessageView>, i: int, j: int)
    requires
        0 <= i < reply.len(),
        0 <= j < reply[i].content.len(),
        match reply[i].content[j] {
            ContentView::Text(t) => exists|k: int| 0 <= k < t@.len() && !crate::reply::white_space(#[trigger] t@[k]),
            ContentView::Thinking { thinking, .. } => exists|k: int|
                0 <= k < thinking@.len() && !crate::reply::white_space(#[trigger] thinking@[k]),
            _ => true,
        },
    ensures
        !empty_reply(reply),
        next_reply_step_spec(effects, reply) != ReplyStep::AnnounceEmpty,
        !usage_recorded(effects) ==> next_reply_step_spec(effects, reply) == ReplyStep::EstimateUsage,
{
    assert(!crate::reply::silent_item(reply[i].content[j]));
}

/// Law: a reply that holds a tool request is never empty, so the tool call
/// is never dropped for an empty-reply notice.
pub proof fn lemma_tool_request_is_never_an_empty_reply(effects: Seq<EffectView>, reply: Seq<MessageView>)
    requires
        exists|i: int| 0 <= i < reply.len() && crate::message::has_tool_request(#[trigger] reply[i].content),
    ensures
        !empty_reply(reply),
        next_reply_step_spec(effects, reply) != ReplyStep::AnnounceEmpty,
{
    let i = choose|i: int| 0 <= i < reply.len() && crate::message::has_tool_request(#[trigger] reply[i].content);
    let j = choose|j: int|
        0 <= j < reply[i].content.len() && crate::message::tool_request_content(#[trigger] reply[i].content[j]);
    lemma_reply_with_content_is_kept(effects, reply, i, j);
}

} // verus!
