//! The conversation as the provider sees it, and whether it is the
//! provider's turn to answer.
use vstd::prelude::*;
use crate::message::{
    content_views, contains_tool_response, has_tool_response, views, ContentView, Conversation,
    Message, MessageContent, MessageView, Role,
};

verus! {

broadcast use vstd::seq_lib::group_seq_properties;

/// The role a message plays in the exchange: a user message that answers
/// tool requests speaks for the tools.
#[derive(PartialEq, Eq, Structural, Clone, Copy, Debug)]
pub enum EffectiveRole {
    User,
    Assistant,
    Tool,
}

pub open spec fn effective_role_of(m: MessageView) -> EffectiveRole {
    match m.role {
        Role::User => if has_tool_response(m.content) {
            EffectiveRole::Tool
        } else {
            EffectiveRole::User
        },
        Role::Assistant => EffectiveRole::Assistant,
    }
}

/// The role a message plays in the exchange.
pub fn effective_role(message: &Message) -> (r: EffectiveRole)
    ensures
        r == effective_role_of(message@),
{
    match message.role {
        Role::User => if contains_tool_response(&message.content) {
            EffectiveRole::Tool
        } else {
            EffectiveRole::User
        },
        Role::Assistant => EffectiveRole::Assistant,
    }
}

/// The provider is to answer `messages` when the last one comes from the
/// user or from the tools.
pub open spec fn provider_turn(messages: Seq<MessageView>) -> bool {
    messages.len() > 0 && (effective_role_of(messages.last()) == EffectiveRole::User
        || effective_role_of(messages.last()) == EffectiveRole::Tool)
}

/// Whether the provider is to answer `messages`.
pub fn ends_with_provider_turn(messages: &[Message]) -> (r: bool)
    ensures
        r == provider_turn(views(messages@)),
{
    if messages.len() == 0 {
        return false;
    }
    let role = effective_role(&messages[messages.len() - 1]);
    assert(views(messages@).last() == messages@[messages@.len() - 1]@);
    role == EffectiveRole::User || role == EffectiveRole::Tool
}

/// The id of a tool response item.
pub open spec fn response_id(c: ContentView) -> Seq<char> {
    match c {
        ContentView::ToolResponse(r) => r.id@,
        _ => Seq::empty(),
    }
}

/// The id of a tool request item.
pub open spec fn request_id(c: ContentView) -> Seq<char> {
    match c {
        ContentView::ToolRequest(r) => r.id@,
        _ => Seq::empty(),
    }
}

/// The ids of the tool responses among `c`, in order.
pub open spec fn content_response_ids(c: Seq<ContentView>) -> Seq<Seq<char>>
    decreases c.len(),
{
    if c.len() == 0 {
        Seq::empty()
    } else {
        content_response_ids(c.drop_last()) + if c.last() is ToolResponse {
            seq![response_id(c.last())]
        } else {
            Seq::empty()
        }
    }
}

/// The ids of the tool responses in `messages`, in order.
pub open spec fn response_ids(messages: Seq<MessageView>) -> Seq<Seq<char>>
    decreases messages.len(),
{
    if messages.len() == 0 {
        Seq::empty()
    } else {
        response_ids(messages.drop_last()) + content_response_ids(messages.last().content)
    }
}

/// Some tool response in `messages` answers the request `id`.
pub open spec fn answered_in(messages: Seq<MessageView>, id: Seq<char>) -> bool {
    response_ids(messages).contains(id)
}

/// The texts of a list of strings.
pub open spec fn texts(v: Seq<String>) -> Seq<Seq<char>> {
    v.map_values(|s: String| s@)
}

/// Whether the agent may see a content item.
pub open spec fn agent_visible_item(c: ContentView) -> bool {
    match c {
        ContentView::Other { agent_visible, .. } => agent_visible,
        _ => true,
    }
}

/// Whether a content item reaches the provider: it is visible to the agent,
/// and, in a message before the current turn, it is no tool request that
/// nothing answered.
pub open spec fn reaches_provider(
    c: ContentView,
    before_turn: bool,
    messages: Seq<MessageView>,
) -> bool {
    &&& agent_visible_item(c)
    &&& before_turn && c is ToolRequest ==> answered_in(messages, request_id(c))
}

pub open spec fn reaches_provider_pred(before_turn: bool, messages: Seq<MessageView>) -> spec_fn(
    ContentView,
) -> bool {
    |c: ContentView| reaches_provider(c, before_turn, messages)
}

/// A message as sent to the provider: only the items that reach it.
pub open spec fn provider_message(m: MessageView, before_turn: bool, messages: Seq<MessageView>) -> MessageView {
    MessageView { content: m.content.filter(reaches_provider_pred(before_turn, messages)), ..m }
}

/// What the provider sees of the first `k` messages of `messages`, the turn
/// starting at `start`: each agent-visible message with the items that reach
/// the provider, unless none do.
pub open spec fn provider_prefix(messages: Seq<MessageView>, k: int, start: int) -> Seq<MessageView>
    decreases k,
{
    if k <= 0 {
        Seq::empty()
    } else {
        let prev = provider_prefix(messages, k - 1, start);
        let m = messages[k - 1];
        let pm = provider_message(m, k - 1 < start, messages);
        if m.metadata.agent_visible && pm.content.len() > 0 {
            prev.push(pm)
        } else {
            prev
        }
    }
}

/// The conversation as the provider sees it, when its last `turn_len`
/// messages are the current turn.
pub open spec fn provider_messages(messages: Seq<MessageView>, turn_len: int) -> Seq<MessageView> {
    provider_prefix(messages, messages.len() as int, messages.len() - turn_len)
}

/// Appends the ids of the tool responses among `content` to `ids`.
pub fn push_response_ids(ids: &mut Vec<String>, content: &Vec<MessageContent>)
    ensures
        texts(final(ids)@) == texts(old(ids)@) + content_response_ids(content_views(content@)),
{
    let ghost start = texts(ids@);
    let ghost cv = content_views(content@);
    let mut j: usize = 0;
    while j < content.len()
        invariant
            j <= content.len(),
            cv == content_views(content@),
            texts(ids@) == start + content_response_ids(cv.take(j as int)),
        decreases content.len() - j,
    {
        let ghost before = ids@;
        assert(cv.take(j + 1).drop_last() =~= cv.take(j as int));
        assert(cv[j as int] == content@[j as int]@);
        if let MessageContent::ToolResponse(response) = &content[j] {
            ids.push(response.id.clone());
            assert(texts(ids@) =~= texts(before) + seq![response.id@]);
        }
        assert(texts(ids@) =~= start + content_response_ids(cv.take(j + 1)));
        j = j + 1;
    }
    assert(cv.take(content.len() as int) =~= cv);
}

/// The ids of all tool responses in `messages`, in order.
pub fn tool_response_ids(messages: &[Message]) -> (ids: Vec<String>)
    ensures
        texts(ids@) == response_ids(views(messages@)),
{
    let ghost ms = views(messages@);
    let mut ids: Vec<String> = Vec::new();
    let mut i: usize = 0;
    while i < messages.len()
        invariant
            i <= messages.len(),
            ms == views(messages@),
            texts(ids@) == response_ids(ms.take(i as int)),
        decreases messages.len() - i,
    {
        assert(ms.take(i + 1).drop_last() =~= ms.take(i as int));
        assert(ms[i as int] == messages@[i as int]@);
        push_response_ids(&mut ids, &messages[i].content);
        i = i + 1;
    }
    assert(ms.take(messages.len() as int) =~= ms);
    ids
}

/// Whether `id` is one of `ids`.
pub fn contains_id(ids: &Vec<String>, id: &String) -> (r: bool)
    ensures
        r == texts(ids@).contains(id@),
{
    let mut k: usize = 0;
    while k < ids.len()
        invariant
            k <= ids.len(),
            forall|q: int| 0 <= q < k ==> #[trigger] texts(ids@)[q] != id@,
        decreases ids.len() - k,
    {
        if ids[k] == *id {
            assert(texts(ids@)[k as int] == id@);
            return true;
        }
        k = k + 1;
    }
    false
}

/// Whether a content item reaches the provider.
fn item_reaches_provider(
    c: &MessageContent,
    before_turn: bool,
    answered: &Vec<String>,
    Ghost(messages): Ghost<Seq<MessageView>>,
) -> (r: bool)
    requires
        texts(answered@) == response_ids(messages),
    ensures
        r == reaches_provider(c@, before_turn, messages),
{
    match c {
        MessageContent::Other { agent_visible, .. } => *agent_visible,
        MessageContent::ToolRequest(request) => !before_turn || contains_id(answered, &request.id),
        _ => true,
    }
}

/// A copy of `m` as sent to the provider.
fn provider_copy(
    m: &Message,
    before_turn: bool,
    answered: &Vec<String>,
    Ghost(messages): Ghost<Seq<MessageView>>,
) -> (r: Message)
    requires
        texts(answered@) == response_ids(messages),
    ensures
        r@ == provider_message(m@, before_turn, messages),
{
    let ghost cv = content_views(m.content@);
    let ghost pred = reaches_provider_pred(before_turn, messages);
    let mut content: Vec<MessageContent> = Vec::new();
    let mut j: usize = 0;
    while j < m.content.len()
        invariant
            j <= m.content.len(),
            cv == content_views(m.content@),
            pred == reaches_provider_pred(before_turn, messages),
            texts(answered@) == response_ids(messages),
            content_views(content@) == cv.take(j as int).filter(pred),
        decreases m.content.len() - j,
    {
        let ghost before = content@;
        assert(cv[j as int] == m.content@[j as int]@);
        assert(cv.take(j + 1) =~= cv.take(j as int).push(cv[j as int]));
        proof {
            cv.take(j as int).lemma_filter_push(cv[j as int], pred);
        }
        if item_reaches_provider(&m.content[j], before_turn, answered, Ghost(messages)) {
            let c = m.content[j].clone();
            content.push(c);
            assert(content_views(content@) =~= content_views(before).push(c@));
        }
        j = j + 1;
    }
    assert(cv.take(m.content.len() as int) =~= cv);
    Message {
        id: m.id.clone(),
        role: m.role,
        created: m.created,
        content,
        metadata: m.metadata.clone(),
    }
}

/// The agent-visible conversation as the provider sees it: tool requests
/// left unanswered by an earlier turn are dropped, since nothing will answer
/// them now, and so are messages left without content. `turn` is the current
/// turn, the last messages of the conversation.
pub fn messages_for_provider(conversation: &Conversation, turn: &[Message]) -> (r: Vec<Message>)
    requires
        turn.len() <= conversation.messages.len(),
    ensures
        views(r@) == provider_messages(conversation@, turn.len() as int),
{
    let ghost ms = conversation@;
    let answered = tool_response_ids(conversation.messages.as_slice());
    let n = conversation.messages.len();
    let start = n - turn.len();
    let mut out: Vec<Message> = Vec::new();
    let mut i: usize = 0;
    while i < n
        invariant
            i <= n,
            n == conversation.messages.len(),
            start == n - turn.len(),
            ms == conversation@,
            texts(answered@) == response_ids(ms),
            views(out@) == provider_prefix(ms, i as int, start as int),
        decreases n - i,
    {
        let m = &conversation.messages[i];
        assert(ms[i as int] == m@);
        if m.metadata.agent_visible {
            let pm = provider_copy(m, i < start, &answered, Ghost(ms));
            if pm.content.len() > 0 {
                let ghost before = out@;
                out.push(pm);
                assert(views(out@) =~= views(before).push(pm@));
            }
        }
        i = i + 1;
    }
    out
}

/// Whether the inference operation is to run: the current turn is known (its
/// last `turn_len` messages; `None` when no turn has started), no error ends
/// the conversation, and the provider is to answer what it would see.
pub open spec fn inference_applies_spec(
    messages: Seq<MessageView>,
    turn_len: Option<usize>,
    trailing_error: bool,
) -> bool {
    match turn_len {
        None => false,
        Some(t) => !trailing_error && provider_turn(provider_messages(messages, t as int)),
    }
}

/// The first step of an inference on `conversation`, whose current turn is
/// `turn`: the messages to send the provider when the inference applies, and
/// `None` exactly when it does not (an error ends the conversation, or the
/// provider is not to answer what it would see). Nothing is to be asked of
/// the provider, nor emitted, when it returns `None`.
pub fn inference_messages(conversation: &Conversation, turn: &[Message], trailing_error: bool) -> (r:
    Option<Vec<Message>>)
    requires
        turn.len() <= conversation.messages.len(),
    ensures
        r is None <==> !inference_applies_spec(conversation@, Some(turn.len()), trailing_error),
        r matches Some(v) ==> views(v@) == provider_messages(conversation@, turn.len() as int),
{
    if trailing_error {
        return None;
    }
    let visible = messages_for_provider(conversation, turn);
    if ends_with_provider_turn(visible.as_slice()) {
        Some(visible)
    } else {
        None
    }
}

/// Whether the inference operation is to run on `conversation`.
pub fn inference_applies(conversation: &Conversation, turn_len: Option<usize>, trailing_error: bool) -> (r: bool)
    requires
        turn_len matches Some(t) ==> t <= conversation.messages.len(),
    ensures
        r == inference_applies_spec(conversation@, turn_len, trailing_error),
{
    match turn_len {
        None => false,
        Some(t) => {
            let (_, turn) = conversation.messages.as_slice().split_at(conversation.messages.len() - t);
            inference_messages(conversation, turn, trailing_error).is_some()
        },
    }
}

// ---------------------------------------------------------------------------
// Laws

/// Each message the provider sees is what it sees of an agent-visible
/// message among the first `k`.
proof fn lemma_provider_prefix_sources(messages: Seq<MessageView>, k: int, start: int)
    requires
        0 <= k <= messages.len(),
    ensures
        provider_prefix(messages, k, start).len() <= k,
        forall|i: int|
            0 <= i < provider_prefix(messages, k, start).len() ==> exists|s: int|
                0 <= s < k && messages[s].metadata.agent_visible && #[trigger] provider_prefix(
                    messages,
                    k,
                    start,
                )[i] == provider_message(messages[s], s < start, messages),
    decreases k,
{
    if k > 0 {
        lemma_provider_prefix_sources(messages, k - 1, start);
        let prev = provider_prefix(messages, k - 1, start);
        let cur = provider_prefix(messages, k, start);
        assert forall|i: int| 0 <= i < cur.len() implies exists|s: int|
            0 <= s < k && messages[s].metadata.agent_visible && #[trigger] cur[i]
                == provider_message(messages[s], s < start, messages) by {
            if i < prev.len() {
                assert(cur[i] == prev[i]);
                let s = choose|s: int|
                    0 <= s < k - 1 && messages[s].metadata.agent_visible && #[trigger] prev[i]
                        == provider_message(messages[s], s < start, messages);
                assert(0 <= s < k);
            } else {
                assert(cur[i] == provider_message(messages[k - 1], k - 1 < start, messages));
            }
        }
    }
}

/// Law: the provider sees only agent-visible messages with content, only
/// agent-visible items, and no more messages than the conversation holds.
pub proof fn lemma_provider_sees_visible_content(messages: Seq<MessageView>, turn_len: int)
    requires
        0 <= turn_len <= messages.len(),
    ensures
        provider_messages(messages, turn_len).len() <= messages.len(),
        forall|i: int|
            0 <= i < provider_messages(messages, turn_len).len() ==> {
                let m = #[trigger] provider_messages(messages, turn_len)[i];
                &&& m.metadata.agent_visible
                &&& m.content.len() > 0
                &&& forall|j: int| 0 <= j < m.content.len() ==> agent_visible_item(#[trigger] m.content[j])
            },
{
    broadcast use vstd::seq_lib::group_filter_ensures;

    let n = messages.len() as int;
    let start = n - turn_len;
    lemma_provider_prefix_sources(messages, n, start);
    lemma_provider_prefix_nonempty(messages, n, start);
    let out = provider_messages(messages, turn_len);
    assert forall|i: int| 0 <= i < out.len() implies {
        let m = #[trigger] out[i];
        &&& m.metadata.agent_visible
        &&& m.content.len() > 0
        &&& forall|j: int| 0 <= j < m.content.len() ==> agent_visible_item(#[trigger] m.content[j])
    } by {
        let s = choose|s: int|
            0 <= s < n && messages[s].metadata.agent_visible && #[trigger] out[i]
                == provider_message(messages[s], s < start, messages);
        let pred = reaches_provider_pred(s < start, messages);
        assert forall|j: int| 0 <= j < out[i].content.len() implies agent_visible_item(
            #[trigger] out[i].content[j],
        ) by {
            messages[s].content.lemma_filter_pred(pred, j);
        }
    }
}

/// Every message of the provider's prefix has content.
proof fn lemma_provider_prefix_nonempty(messages: Seq<MessageView>, k: int, start: int)
    requires
        0 <= k <= messages.len(),
    ensures
        forall|i: int|
            0 <= i < provider_prefix(messages, k, start).len() ==> #[trigger] provider_prefix(
                messages,
                k,
                start,
            )[i].content.len() > 0,
    decreases k,
{
    if k > 0 {
        lemma_provider_prefix_nonempty(messages, k - 1, start);
        let prev = provider_prefix(messages, k - 1, start);
        let cur = provider_prefix(messages, k, start);
        assert forall|i: int| 0 <= i < cur.len() implies #[trigger] cur[i].content.len() > 0 by {
            if i < prev.len() {
                assert(cur[i] == prev[i]);
            }
        }
    }
}

/// Law: a tool request that no response in the conversation answers reaches
/// the provider only from a message of the current turn.
pub proof fn lemma_unanswered_requests_come_from_turn(messages: Seq<MessageView>, turn_len: int)
    requires
        0 <= turn_len <= messages.len(),
    ensures
        forall|i: int, j: int|
            0 <= i < provider_messages(messages, turn_len).len() && 0 <= j
                < provider_messages(messages, turn_len)[i].content.len() && (
            #[trigger] provider_messages(messages, turn_len)[i].content[j]) is ToolRequest
                && !answered_in(messages, request_id(provider_messages(messages, turn_len)[i].content[j]))
                ==> exists|s: int|
                messages.len() - turn_len <= s < messages.len() && #[trigger] messages[s].content.contains(
                    provider_messages(messages, turn_len)[i].content[j],
                ),
{
    broadcast use vstd::seq_lib::group_filter_ensures;

    let n = messages.len() as int;
    let start = n - turn_len;
    let out = provider_messages(messages, turn_len);
    lemma_provider_prefix_sources(messages, n, start);
    assert forall|i: int, j: int|
        0 <= i < out.len() && 0 <= j < out[i].content.len() && (#[trigger] out[i].content[j]) is ToolRequest
            && !answered_in(messages, request_id(out[i].content[j])) implies exists|s: int|
        start <= s < n && #[trigger] messages[s].content.contains(out[i].content[j]) by {
        let s = choose|s: int|
            0 <= s < n && messages[s].metadata.agent_visible && #[trigger] out[i]
                == provider_message(messages[s], s < start, messages);
        let pred = reaches_provider_pred(s < start, messages);
        let c = out[i].content[j];
        messages[s].content.lemma_filter_pred(pred, j);
        assert(out[i].content.contains(c));
        messages[s].content.lemma_filter_contains_rev(pred, c);
        assert(start <= s);
    }
}

/// The provider's prefix past `start` grows by each message, as it is.
proof fn lemma_provider_prefix_turn(messages: Seq<MessageView>, k: int, start: int)
    requires
        0 <= start <= k <= messages.len(),
        forall|s: int|
            start <= s < messages.len() ==> {
                let m = #[trigger] messages[s];
                &&& m.metadata.agent_visible
                &&& m.content.len() > 0
                &&& forall|j: int| 0 <= j < m.content.len() ==> agent_visible_item(#[trigger] m.content[j])
            },
    ensures
        provider_prefix(messages, k, start) == provider_prefix(messages, start, start) + messages.subrange(
            start,
            k,
        ),
    decreases k,
{
    if k > start {
        lemma_provider_prefix_turn(messages, k - 1, start);
        let m = messages[k - 1];
        let pred = reaches_provider_pred(false, messages);
        assert forall|j: int| 0 <= j < m.content.len() implies pred(#[trigger] m.content[j]) by {
            assert(agent_visible_item(m.content[j]));
        }
        crate::thinking::lemma_filter_keeps_all(m.content, pred);
        assert(provider_message(m, false, messages) == m);
        assert(messages.subrange(start, k) =~= messages.subrange(start, k - 1).push(m));
    } else {
        assert(messages.subrange(start, k) =~= Seq::<MessageView>::empty());
    }
}

/// Law: the current turn reaches the provider as it is: when its messages
/// are visible to the agent, hold content and only agent-visible items, the
/// provider's view ends with exactly them.
pub proof fn lemma_turn_reaches_provider_whole(messages: Seq<MessageView>, turn_len: int)
    requires
        0 <= turn_len <= messages.len(),
        forall|s: int|
            messages.len() - turn_len <= s < messages.len() ==> {
                let m = #[trigger] messages[s];
                &&& m.metadata.agent_visible
                &&& m.content.len() > 0
                &&& forall|j: int| 0 <= j < m.content.len() ==> agent_visible_item(#[trigger] m.content[j])
            },
    ensures
        ({
            let out = provider_messages(messages, turn_len);
            &&& out.len() >= turn_len
            &&& out.skip(out.len() - turn_len) == messages.skip(messages.len() - turn_len)
        }),
{
    let n = messages.len() as int;
    let start = n - turn_len;
    lemma_provider_prefix_turn(messages, n, start);
    let out = provider_messages(messages, turn_len);
    let before = provider_prefix(messages, start, start);
    assert(out == before + messages.subrange(start, n));
    assert(out.skip(out.len() - turn_len) =~= messages.skip(start));
}

/// Selects the items not marked hidden from the agent: every item but an
/// `Other` whose flag says the agent may not see it.
pub open spec fn unhidden() -> spec_fn(ContentView) -> bool {
    |c: ContentView| !(c is Other) || c->agent_visible
}

/// A message that comes before the `k`-th keeps its place in the provider's
/// prefix of `k` messages, when the provider sees anything of it.
proof fn lemma_provider_prefix_keeps(messages: Seq<MessageView>, k: int, start: int, s: int)
    requires
        0 <= s < k <= messages.len(),
        messages[s].metadata.agent_visible,
        provider_message(messages[s], s < start, messages).content.len() > 0,
    ensures
        provider_prefix(messages, k, start).contains(provider_message(messages[s], s < start, messages)),
    decreases k,
{
    let pm = provider_message(messages[s], s < start, messages);
    let cur = provider_prefix(messages, k, start);
    if k - 1 == s {
        assert(cur[cur.len() - 1] == pm);
    } else {
        lemma_provider_prefix_keeps(messages, k - 1, start, s);
        let prev = provider_prefix(messages, k - 1, start);
        let q = choose|q: int| 0 <= q < prev.len() && prev[q] == pm;
        assert(cur[q] == pm);
    }
}

/// Law: every message of the current turn that the agent may see reaches
/// the provider with all its items but those marked hidden from the agent,
/// in order, whatever they are (text, images, tool requests, tool
/// responses of any result), unless it holds nothing else.
pub proof fn lemma_turn_items_reach_provider(messages: Seq<MessageView>, turn_len: int, s: int)
    requires
        0 <= turn_len <= messages.len(),
        messages.len() - turn_len <= s < messages.len(),
        messages[s].metadata.agent_visible,
        exists|j: int| 0 <= j < messages[s].content.len() && unhidden()(#[trigger] messages[s].content[j]),
    ensures
        provider_messages(messages, turn_len).contains(
            MessageView { content: messages[s].content.filter(unhidden()), ..messages[s] },
        ),
{
    broadcast use vstd::seq_lib::group_filter_ensures;

    let n = messages.len() as int;
    let start = n - turn_len;
    let m = messages[s];
    assert(reaches_provider_pred(false, messages) =~= unhidden());
    let pm = provider_message(m, false, messages);
    assert(pm == MessageView { content: m.content.filter(unhidden()), ..m });
    let j = choose|j: int| 0 <= j < m.content.len() && unhidden()(#[trigger] m.content[j]);
    m.content.lemma_filter_contains(unhidden(), j);
    lemma_provider_prefix_keeps(messages, n, start, s);
}

/// Law: when the turn ends with a user message that the agent may see and
/// that holds an item not hidden from it (a question, or the tools' answers,
/// failed or not), and no error ends the conversation, the inference runs.
pub proof fn lemma_user_turn_end_applies(messages: Seq<MessageView>, turn_len: usize)
    requires
        1 <= turn_len <= messages.len(),
        messages.last().metadata.agent_visible,
        messages.last().role == Role::User,
        exists|j: int| 0 <= j < messages.last().content.len() && unhidden()(#[trigger] messages.last().content[j]),
    ensures
        inference_applies_spec(messages, Some(turn_len), false),
{
    broadcast use vstd::seq_lib::group_filter_ensures;

    let n = messages.len() as int;
    let start = n - turn_len;
    let m = messages[n - 1];
    assert(m == messages.last());
    assert(reaches_provider_pred(false, messages) =~= unhidden());
    let pm = provider_message(m, false, messages);
    let j = choose|j: int| 0 <= j < m.content.len() && unhidden()(#[trigger] m.content[j]);
    m.content.lemma_filter_contains(unhidden(), j);
    let out = provider_messages(messages, turn_len as int);
    assert(out == provider_prefix(messages, n - 1, start).push(pm));
    assert(out.last() == pm);
    assert(pm.role == Role::User);
}

/// Every tool response among `c`, whatever its result, gives its id.
pub proof fn lemma_content_response_ids_contains(c: Seq<ContentView>, j: int)
    requires
        0 <= j < c.len(),
        c[j] is ToolResponse,
    ensures
        content_response_ids(c).contains(c[j]->ToolResponse_0.id@),
    decreases c.len(),
{
    let x = c[j]->ToolResponse_0.id@;
    if j == c.len() - 1 {
        let ids = content_response_ids(c);
        assert(ids[ids.len() - 1] == x);
    } else {
        let rest = c.drop_last();
        assert(rest[j] == c[j]);
        lemma_content_response_ids_contains(rest, j);
        let prev = content_response_ids(rest);
        let q = choose|q: int| 0 <= q < prev.len() && prev[q] == x;
        assert(content_response_ids(c)[q] == x);
    }
}

/// Every tool response in `messages`, whatever its result, gives its id.
pub proof fn lemma_response_ids_contains(messages: Seq<MessageView>, i: int, j: int)
    requires
        0 <= i < messages.len(),
        0 <= j < messages[i].content.len(),
        messages[i].content[j] is ToolResponse,
    ensures
        response_ids(messages).contains(messages[i].content[j]->ToolResponse_0.id@),
    decreases messages.len(),
{
    let x = messages[i].content[j]->ToolResponse_0.id@;
    let rest = messages.drop_last();
    if i == messages.len() - 1 {
        lemma_content_response_ids_contains(messages.last().content, j);
        let inner = content_response_ids(messages.last().content);
        let q = choose|q: int| 0 <= q < inner.len() && inner[q] == x;
        assert(response_ids(messages)[response_ids(rest).len() + q] == x);
    } else {
        assert(rest[i] == messages[i]);
        lemma_response_ids_contains(rest, i, j);
        let prev = response_ids(rest);
        let q = choose|q: int| 0 <= q < prev.len() && prev[q] == x;
        assert(response_ids(messages)[q] == x);
    }
}

} // verus!
