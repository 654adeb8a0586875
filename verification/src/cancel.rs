//! Answering the tool calls of a cancelled turn.
//!
//! When the operation is cancelled, every tool call that the current turn
//! asked for and that nothing answered gets an error answer, so that the
//! conversation stays well formed: each tool request has its response.
use vstd::prelude::*;
use crate::message::{
    content_views, views, ContentBlock, ContentView, Conversation, Message, MessageContent,
    MessageView, ToolRequest, ToolRequestView, ToolResponse, ToolResult,
};
use crate::provider_view::{contains_id, response_ids, texts, tool_response_ids};

verus! {

broadcast use vstd::seq_lib::group_seq_properties;

/// The text of the answer given to a cancelled tool call.
pub open spec fn cancelled_text() -> Seq<char> {
    "Tool call was cancelled before execution"@
}

/// The tool requests among `c`, in order.
pub open spec fn content_requests(c: Seq<ContentView>) -> Seq<ToolRequestView>
    decreases c.len(),
{
    if c.len() == 0 {
        Seq::empty()
    } else {
        content_requests(c.drop_last()) + match c.last() {
            ContentView::ToolRequest(r) => seq![r],
            _ => Seq::empty(),
        }
    }
}

/// The tool requests in `messages`, in order.
pub open spec fn requests_in(messages: Seq<MessageView>) -> Seq<ToolRequestView>
    decreases messages.len(),
{
    if messages.len() == 0 {
        Seq::empty()
    } else {
        requests_in(messages.drop_last()) + content_requests(messages.last().content)
    }
}

/// The ids of `requests`, in order.
pub open spec fn request_ids(requests: Seq<ToolRequestView>) -> Seq<Seq<char>> {
    requests.map_values(|r: ToolRequestView| r.id@)
}

/// The first request of each id among `requests`, in order.
pub open spec fn first_requests(requests: Seq<ToolRequestView>) -> Seq<ToolRequestView>
    decreases requests.len(),
{
    if requests.len() == 0 {
        Seq::empty()
    } else {
        let prev = first_requests(requests.drop_last());
        if request_ids(requests.drop_last()).contains(requests.last().id@) {
            prev
        } else {
            prev.push(requests.last())
        }
    }
}

/// Selects the requests whose id is not among `answered`.
pub open spec fn unanswered(answered: Seq<Seq<char>>) -> spec_fn(ToolRequestView) -> bool {
    |r: ToolRequestView| !answered.contains(r.id@)
}

/// The ids that the conversation, the turn or the messages appended to it
/// answer.
pub open spec fn answered_ids(
    conversation: Seq<MessageView>,
    turn: Seq<MessageView>,
    appended: Seq<MessageView>,
) -> Seq<Seq<char>> {
    response_ids(conversation) + response_ids(turn) + response_ids(appended)
}

/// The tool calls that a cancellation answers: the first request of each id
/// in the turn and then in the appended messages, unless some response in
/// the conversation, the turn or the appended messages answers it.
pub open spec fn open_requests(
    conversation: Seq<MessageView>,
    turn: Seq<MessageView>,
    appended: Seq<MessageView>,
) -> Seq<ToolRequestView> {
    first_requests(requests_in(turn) + requests_in(appended)).filter(
        unanswered(answered_ids(conversation, turn, appended)),
    )
}

/// `c` answers `request` as cancelled: a tool response with its id and
/// metadata whose result is a tool error holding one text block, the
/// cancellation text, and no structured content or meta.
pub open spec fn cancels(c: ContentView, request: ToolRequestView) -> bool {
    &&& c matches ContentView::ToolResponse(response)
    &&& response.id == request.id
    &&& response.metadata == request.metadata
    &&& response.tool_result matches Ok(result)
    &&& result.is_error == Some(true)
    &&& result.structured_content is None
    &&& result.meta is None
    &&& result.content.len() == 1
    &&& result.content[0] matches ContentBlock::Text(text)
    &&& text@ == cancelled_text()
}

/// The views of a list of requests.
pub open spec fn request_views(v: Seq<ToolRequest>) -> Seq<ToolRequestView> {
    v.map_values(|r: ToolRequest| r@)
}

/// Adds to `requests` the first request of each new id among `content`;
/// `seen` holds the ids of every request met so far.
fn collect_requests(
    requests: &mut Vec<ToolRequest>,
    seen: &mut Vec<String>,
    content: &Vec<MessageContent>,
    Ghost(met): Ghost<Seq<ToolRequestView>>,
)
    requires
        request_views(old(requests)@) == first_requests(met),
        texts(old(seen)@) == request_ids(met),
    ensures
        request_views(final(requests)@) == first_requests(
            met + content_requests(content_views(content@)),
        ),
        texts(final(seen)@) == request_ids(met + content_requests(content_views(content@))),
{
    let ghost cv = content_views(content@);
    let mut j: usize = 0;
    while j < content.len()
        invariant
            j <= content.len(),
            cv == content_views(content@),
            request_views(requests@) == first_requests(met + content_requests(cv.take(j as int))),
            texts(seen@) == request_ids(met + content_requests(cv.take(j as int))),
        decreases content.len() - j,
    {
        let ghost all = met + content_requests(cv.take(j as int));
        assert(cv.take(j + 1).drop_last() =~= cv.take(j as int));
        assert(cv[j as int] == content@[j as int]@);
        if let MessageContent::ToolRequest(request) = &content[j] {
            let ghost next = all.push(request@);
            assert(met + content_requests(cv.take(j + 1)) =~= next);
            assert(next.drop_last() =~= all);
            let ghost before_requests = requests@;
            let ghost before_seen = seen@;
            if !contains_id(seen, &request.id) {
                requests.push(request.clone());
                assert(request_views(requests@) =~= request_views(before_requests).push(request@));
            }
            seen.push(request.id.clone());
            assert(texts(seen@) =~= texts(before_seen).push(request.id@));
            assert(request_ids(next) =~= request_ids(all).push(request.id@));
        } else {
            assert(met + content_requests(cv.take(j + 1)) =~= all);
        }
        j = j + 1;
    }
    assert(cv.take(content.len() as int) =~= cv);
}

/// Adds to `requests` the first request of each new id in `messages`.
fn collect_message_requests(
    requests: &mut Vec<ToolRequest>,
    seen: &mut Vec<String>,
    messages: &[Message],
    Ghost(met): Ghost<Seq<ToolRequestView>>,
)
    requires
        request_views(old(requests)@) == first_requests(met),
        texts(old(seen)@) == request_ids(met),
    ensures
        request_views(final(requests)@) == first_requests(met + requests_in(views(messages@))),
        texts(final(seen)@) == request_ids(met + requests_in(views(messages@))),
{
    let ghost ms = views(messages@);
    let mut i: usize = 0;
    while i < messages.len()
        invariant
            i <= messages.len(),
            ms == views(messages@),
            request_views(requests@) == first_requests(met + requests_in(ms.take(i as int))),
            texts(seen@) == request_ids(met + requests_in(ms.take(i as int))),
        decreases messages.len() - i,
    {
        assert(ms.take(i + 1).drop_last() =~= ms.take(i as int));
        assert(ms[i as int] == messages@[i as int]@);
        let ghost so_far = met + requests_in(ms.take(i as int));
        collect_requests(requests, seen, &messages[i].content, Ghost(so_far));
        assert(so_far + content_requests(ms[i as int].content) =~= met + requests_in(
            ms.take(i + 1),
        ));
        i = i + 1;
    }
    assert(ms.take(messages.len() as int) =~= ms);
}

/// The answer to `request` as cancelled.
fn cancellation_of(request: &ToolRequest) -> (c: MessageContent)
    ensures
        cancels(c@, request@),
{
    let text = "Tool call was cancelled before execution".to_owned();
    proof {
        reveal_strlit("Tool call was cancelled before execution");
    }
    let mut content: Vec<ContentBlock> = Vec::new();
    content.push(ContentBlock::Text(text));
    let metadata = match &request.metadata {
        Some(m) => Some(crate::message::clone_entries(m)),
        None => None,
    };
    let c = MessageContent::ToolResponse(
        ToolResponse {
            id: request.id.clone(),
            tool_result: Ok(
                ToolResult { content, structured_content: None, meta: None, is_error: Some(true) },
            ),
            metadata,
        },
    );
    c
}

/// The tool responses that answer, as cancelled, the tool calls of the turn
/// (and of the messages appended to it) that nothing answered, in the order
/// in which they were first requested. Empty when every call has its answer.
pub fn cancellation_responses(conversation: &Conversation, turn: &[Message], appended: &[Message]) -> (r: Vec<MessageContent>)
    ensures
        r.len() == open_requests(conversation@, views(turn@), views(appended@)).len(),
        forall|i: int|
            0 <= i < r.len() ==> cancels(
                #[trigger] r@[i]@,
                open_requests(conversation@, views(turn@), views(appended@))[i],
            ),
{
    let mut answered = tool_response_ids(conversation.messages.as_slice());
    let mut turn_answers = tool_response_ids(turn);
    let mut appended_answers = tool_response_ids(appended);
    answered.append(&mut turn_answers);
    answered.append(&mut appended_answers);
    let ghost answered_view = answered_ids(conversation@, views(turn@), views(appended@));
    assert(texts(answered@) =~= answered_view);

    let mut requests: Vec<ToolRequest> = Vec::new();
    let mut seen: Vec<String> = Vec::new();
    assert(request_views(requests@) =~= first_requests(Seq::empty()));
    assert(texts(seen@) =~= request_ids(Seq::empty()));
    collect_message_requests(&mut requests, &mut seen, turn, Ghost(Seq::empty()));
    let ghost from_turn = Seq::<ToolRequestView>::empty() + requests_in(views(turn@));
    collect_message_requests(&mut requests, &mut seen, appended, Ghost(from_turn));
    let ghost firsts = first_requests(requests_in(views(turn@)) + requests_in(views(appended@)));
    assert(from_turn =~= requests_in(views(turn@)));
    assert(request_views(requests@) == firsts);

    let ghost pred = unanswered(answered_view);
    let mut out: Vec<MessageContent> = Vec::new();
    let mut k: usize = 0;
    while k < requests.len()
        invariant
            k <= requests.len(),
            request_views(requests@) == firsts,
            texts(answered@) == answered_view,
            pred == unanswered(answered_view),
            out.len() == firsts.take(k as int).filter(pred).len(),
            forall|i: int|
                0 <= i < out.len() ==> cancels(
                    #[trigger] out@[i]@,
                    firsts.take(k as int).filter(pred)[i],
                ),
        decreases requests.len() - k,
    {
        let ghost before = out@;
        let ghost req = firsts[k as int];
        assert(req == requests@[k as int]@);
        assert(firsts.take(k + 1) =~= firsts.take(k as int).push(req));
        proof {
            firsts.take(k as int).lemma_filter_push(req, pred);
        }
        if !contains_id(&answered, &requests[k].id) {
            let c = cancellation_of(&requests[k]);
            out.push(c);
            assert forall|i: int| 0 <= i < out.len() implies cancels(
                #[trigger] out@[i]@,
                firsts.take(k + 1).filter(pred)[i],
            ) by {
                if i < before.len() {
                    assert(out@[i] == before[i]);
                }
            }
        }
        k = k + 1;
    }
    assert(firsts.take(requests.len() as int) =~= firsts);
    out
}

// ---------------------------------------------------------------------------
// Laws

/// The first requests hold each id of `requests` once.
proof fn lemma_first_requests(requests: Seq<ToolRequestView>)
    ensures
        request_ids(first_requests(requests)).no_duplicates(),
        forall|id: Seq<char>|
            request_ids(requests).contains(id) <==> #[trigger] request_ids(
                first_requests(requests),
            ).contains(id),
    decreases requests.len(),
{
    if requests.len() > 0 {
        let rest = requests.drop_last();
        let x = requests.last();
        lemma_first_requests(rest);
        assert(request_ids(requests) =~= request_ids(rest).push(x.id@));
        if !request_ids(rest).contains(x.id@) {
            let prev = request_ids(first_requests(rest));
            let cur = request_ids(first_requests(requests));
            assert(cur =~= prev.push(x.id@));
            assert(!prev.contains(x.id@));
            assert forall|i: int, j: int| 0 <= i < cur.len() && 0 <= j < cur.len() && i != j implies cur[i] != cur[j] by {
                if i < prev.len() && j < prev.len() {
                    assert(cur[i] == prev[i] && cur[j] == prev[j]);
                } else if i < prev.len() {
                    assert(cur[i] == prev[i]);
                } else {
                    assert(cur[j] == prev[j]);
                }
            }
        }
    }
}

/// Keeping some of a list of requests with distinct ids keeps them distinct.
proof fn lemma_filter_keeps_ids_distinct(
    requests: Seq<ToolRequestView>,
    p: spec_fn(ToolRequestView) -> bool,
)
    requires
        request_ids(requests).no_duplicates(),
    ensures
        request_ids(requests.filter(p)).no_duplicates(),
    decreases requests.len(),
{
    if requests.len() > 0 {
        let rest = requests.drop_last();
        let x = requests.last();
        assert(request_ids(requests) =~= request_ids(rest).push(x.id@));
        assert(request_ids(rest).no_duplicates()) by {
            assert forall|i: int, j: int|
                0 <= i < request_ids(rest).len() && 0 <= j < request_ids(rest).len() && i != j
                implies request_ids(rest)[i] != request_ids(rest)[j] by {
                assert(request_ids(rest)[i] == request_ids(requests)[i]);
                assert(request_ids(rest)[j] == request_ids(requests)[j]);
            }
        }
        lemma_filter_keeps_ids_distinct(rest, p);
        assert(rest.push(x) =~= requests);
        rest.lemma_filter_push(x, p);
        if p(x) {
            let kept = rest.filter(p);
            assert(request_ids(requests.filter(p)) =~= request_ids(kept).push(x.id@));
            assert(!request_ids(kept).contains(x.id@)) by {
                if request_ids(kept).contains(x.id@) {
                    let k = choose|k: int| 0 <= k < request_ids(kept).len() && request_ids(kept)[k] == x.id@;
                    assert(kept.contains(kept[k]));
                    rest.lemma_filter_contains_rev(p, kept[k]);
                    let i = choose|i: int| 0 <= i < rest.len() && rest[i] == kept[k];
                    assert(request_ids(requests)[i] == request_ids(requests)[requests.len() - 1]);
                }
            }
        }
    }
}

/// Law: a cancellation answers each tool call at most once: the calls it
/// answers have distinct ids.
pub proof fn lemma_cancellation_answers_each_call_once(
    conversation: Seq<MessageView>,
    turn: Seq<MessageView>,
    appended: Seq<MessageView>,
)
    ensures
        request_ids(open_requests(conversation, turn, appended)).no_duplicates(),
{
    let reqs = requests_in(turn) + requests_in(appended);
    lemma_first_requests(reqs);
    lemma_filter_keeps_ids_distinct(
        first_requests(reqs),
        unanswered(answered_ids(conversation, turn, appended)),
    );
}

/// Law: after a cancellation no tool call of the turn or of the appended
/// messages is left without an answer: each id is answered already or is
/// among the calls the cancellation answers.
pub proof fn lemma_cancellation_leaves_no_call_open(
    conversation: Seq<MessageView>,
    turn: Seq<MessageView>,
    appended: Seq<MessageView>,
)
    ensures
        forall|id: Seq<char>|
            #[trigger] request_ids(requests_in(turn) + requests_in(appended)).contains(id) ==> answered_ids(
                conversation,
                turn,
                appended,
            ).contains(id) || request_ids(open_requests(conversation, turn, appended)).contains(id),
{
    broadcast use vstd::seq_lib::group_filter_ensures;

    let reqs = requests_in(turn) + requests_in(appended);
    let answered = answered_ids(conversation, turn, appended);
    let firsts = first_requests(reqs);
    let open = open_requests(conversation, turn, appended);
    lemma_first_requests(reqs);
    assert forall|id: Seq<char>|
        #[trigger] request_ids(reqs).contains(id) implies answered.contains(id) || request_ids(
            open,
        ).contains(id) by {
        if !answered.contains(id) {
            assert(request_ids(firsts).contains(id));
            let k = choose|k: int| 0 <= k < request_ids(firsts).len() && request_ids(firsts)[k] == id;
            assert(unanswered(answered)(firsts[k]));
            firsts.lemma_filter_contains(unanswered(answered), k);
            let q = choose|q: int| 0 <= q < open.len() && open[q] == firsts[k];
            assert(request_ids(open)[q] == id);
        }
    }
}

/// No call among `open` has an id that `answered` holds.
proof fn lemma_open_excludes(
    conversation: Seq<MessageView>,
    turn: Seq<MessageView>,
    appended: Seq<MessageView>,
    x: Seq<char>,
)
    requires
        answered_ids(conversation, turn, appended).contains(x),
    ensures
        !request_ids(open_requests(conversation, turn, appended)).contains(x),
{
    broadcast use vstd::seq_lib::group_filter_ensures;

    let answered = answered_ids(conversation, turn, appended);
    let firsts = first_requests(requests_in(turn) + requests_in(appended));
    let open = open_requests(conversation, turn, appended);
    if request_ids(open).contains(x) {
        let q = choose|q: int| 0 <= q < request_ids(open).len() && request_ids(open)[q] == x;
        firsts.lemma_filter_pred(unanswered(answered), q);
        assert(open[q].id@ == x);
    }
}

/// Law: a tool response answers its call whatever its result: when the
/// conversation, the turn or the appended messages hold a tool response
/// with some id, a cancellation answers no call with that id.
pub proof fn lemma_any_response_closes_its_call(
    conversation: Seq<MessageView>,
    turn: Seq<MessageView>,
    appended: Seq<MessageView>,
)
    ensures
        forall|i: int, j: int|
            0 <= i < conversation.len() && 0 <= j < conversation[i].content.len()
                && (#[trigger] conversation[i].content[j]) is ToolResponse ==> !request_ids(
                open_requests(conversation, turn, appended),
            ).contains(conversation[i].content[j]->ToolResponse_0.id@),
        forall|i: int, j: int|
            0 <= i < turn.len() && 0 <= j < turn[i].content.len() && (#[trigger] turn[i].content[j]) is ToolResponse
                ==> !request_ids(open_requests(conversation, turn, appended)).contains(
                turn[i].content[j]->ToolResponse_0.id@,
            ),
        forall|i: int, j: int|
            0 <= i < appended.len() && 0 <= j < appended[i].content.len()
                && (#[trigger] appended[i].content[j]) is ToolResponse ==> !request_ids(
                open_requests(conversation, turn, appended),
            ).contains(appended[i].content[j]->ToolResponse_0.id@),
{
    let a = response_ids(conversation);
    let b = response_ids(turn);
    let c = response_ids(appended);
    assert forall|i: int, j: int|
        0 <= i < conversation.len() && 0 <= j < conversation[i].content.len()
            && (#[trigger] conversation[i].content[j]) is ToolResponse implies !request_ids(
            open_requests(conversation, turn, appended),
        ).contains(conversation[i].content[j]->ToolResponse_0.id@) by {
        let x = conversation[i].content[j]->ToolResponse_0.id@;
        crate::provider_view::lemma_response_ids_contains(conversation, i, j);
        let q = choose|q: int| 0 <= q < a.len() && a[q] == x;
        assert((a + b + c)[q] == x);
        lemma_open_excludes(conversation, turn, appended, x);
    }
    assert forall|i: int, j: int|
        0 <= i < turn.len() && 0 <= j < turn[i].content.len() && (#[trigger] turn[i].content[j]) is ToolResponse
            implies !request_ids(open_requests(conversation, turn, appended)).contains(
            turn[i].content[j]->ToolResponse_0.id@,
        ) by {
        let x = turn[i].content[j]->ToolResponse_0.id@;
        crate::provider_view::lemma_response_ids_contains(turn, i, j);
        let q = choose|q: int| 0 <= q < b.len() && b[q] == x;
        assert((a + b + c)[a.len() + q] == x);
        lemma_open_excludes(conversation, turn, appended, x);
    }
    assert forall|i: int, j: int|
        0 <= i < appended.len() && 0 <= j < appended[i].content.len()
            && (#[trigger] appended[i].content[j]) is ToolResponse implies !request_ids(
            open_requests(conversation, turn, appended),
        ).contains(appended[i].content[j]->ToolResponse_0.id@) by {
        let x = appended[i].content[j]->ToolResponse_0.id@;
        crate::provider_view::lemma_response_ids_contains(appended, i, j);
        let q = choose|q: int| 0 <= q < c.len() && c[q] == x;
        assert((a + b + c)[a.len() + b.len() + q] == x);
        lemma_open_excludes(conversation, turn, appended, x);
    }
}

} // verus!
