//! Folding the streamed chunks of the provider's reply into the reply.
//!
//! The runner reads the provider's stream; for each chunk it asks
//! [`StreamState::prepare_chunk`] what to keep of it and whether to emit it,
//! emits it when told to, and hands the emitted message back to
//! [`StreamState::accept_chunk`].
use vstd::prelude::*;
use crate::cancel::{content_requests, request_ids};
use crate::message::{
    content_views, has_thinking, has_tool_request, thinking_content, tool_request_content,
    ContentView, Conversation,
    InferenceMetadata, Message, MessageContent, MessageMetadata, MessageView, Role,
};
use crate::provider_view::{contains_id, request_id, texts};
use crate::thinking::{
    donated_thinking, first_tool_request, is_thinking_item, lemma_first_tool_request_exists,
    normalize_tool_call_thinking, normalized_accumulator, normalized_chunk_content, only_thinking,
};

verus! {

broadcast use vstd::seq_lib::group_seq_properties;

/// Token counts reported by the provider.
#[derive(Debug, Clone, Copy, PartialEq, Eq, Structural)]
pub struct Usage {
    pub input_tokens: Option<i32>,
    pub output_tokens: Option<i32>,
    pub total_tokens: Option<i32>,
}

/// Token counts of one model.
#[derive(Debug)]
pub struct ProviderUsage {
    pub model: String,
    pub usage: Usage,
}

/// The reply read so far: the accumulated messages, and the ids of every
/// tool request the stream has offered.
#[derive(Debug)]
pub struct StreamState {
    pub accumulator: Conversation,
    pub tool_request_ids: Vec<String>,
}

/// `m` marked as produced by `inference`, when it is the assistant's.
pub open spec fn with_inference(m: MessageView, inference: Option<InferenceMetadata>) -> MessageView {
    if m.role == Role::Assistant && inference is Some {
        MessageView { metadata: MessageMetadata { inference: inference, ..m.metadata }, ..m }
    } else {
        m
    }
}

/// The items of `content` without the tool requests whose id was met
/// before: in `seen`, or earlier in `content`.
pub open spec fn fresh_content(seen: Seq<Seq<char>>, content: Seq<ContentView>) -> Seq<ContentView>
    decreases content.len(),
{
    if content.len() == 0 {
        Seq::empty()
    } else {
        let prev = fresh_content(seen, content.drop_last());
        let c = content.last();
        if c is ToolRequest && (seen + request_ids(content_requests(content.drop_last()))).contains(
            request_id(c),
        ) {
            prev
        } else {
            prev.push(c)
        }
    }
}

/// The chunk once marked and cleared of repeated tool requests.
pub open spec fn fresh_chunk(
    seen: Seq<Seq<char>>,
    chunk: MessageView,
    inference: Option<InferenceMetadata>,
) -> MessageView {
    let marked = with_inference(chunk, inference);
    MessageView { content: fresh_content(seen, marked.content), ..marked }
}

/// The chunk as it goes on: fresh, with the thinking that earlier messages
/// left behind moved next to its tool call.
pub open spec fn prepared_chunk(
    acc: Seq<MessageView>,
    seen: Seq<Seq<char>>,
    chunk: MessageView,
    inference: Option<InferenceMetadata>,
) -> MessageView {
    let fresh = fresh_chunk(seen, chunk, inference);
    MessageView { content: normalized_chunk_content(acc, fresh), ..fresh }
}

/// A chunk is shown to the user when it has content, or when it reports
/// that the output token limit was reached.
pub open spec fn emitted(m: MessageView) -> bool {
    m.content.len() > 0 || m.metadata.output_token_limit_reached
}

impl StreamState {
    /// The state before the first chunk.
    pub fn new() -> (s: StreamState)
        ensures
            s.accumulator@.len() == 0,
            s.tool_request_ids@.len() == 0,
    {
        StreamState { accumulator: Conversation { messages: Vec::new() }, tool_request_ids: Vec::new() }
    }

    /// Takes in a chunk of the reply: marks it as produced by `inference`
    /// when it is the assistant's, drops the tool requests whose id the
    /// stream offered before, and moves thinking left behind by earlier
    /// chunks next to its tool call. Returns the chunk and whether it is to
    /// be emitted before it joins the reply.
    pub fn prepare_chunk(&mut self, chunk: Message, inference: &Option<InferenceMetadata>) -> (r: (
        Message,
        bool,
    ))
        ensures
            r.0@ == prepared_chunk(
                old(self).accumulator@,
                texts(old(self).tool_request_ids@),
                chunk@,
                *inference,
            ),
            r.1 == emitted(r.0@),
            final(self).accumulator@ == normalized_accumulator(
                old(self).accumulator@,
                fresh_chunk(texts(old(self).tool_request_ids@), chunk@, *inference),
            ),
            texts(final(self).tool_request_ids@) == texts(old(self).tool_request_ids@) + request_ids(
                content_requests(chunk@.content),
            ),
    {
        let ghost seen = texts(self.tool_request_ids@);
        let ghost incoming = chunk@;
        let mut chunk = chunk;
        if chunk.role == Role::Assistant {
            match inference {
                Some(i) => {
                    chunk.metadata.inference = Some(i.clone());
                },
                None => {},
            }
        }
        let ghost marked = chunk@;
        assert(marked == with_inference(incoming, *inference));
        let ghost cv = marked.content;
        let mut kept: Vec<MessageContent> = Vec::new();
        let mut j: usize = 0;
        while j < chunk.content.len()
            invariant
                j <= chunk.content.len(),
                cv == content_views(chunk.content@),
                self.accumulator@ == old(self).accumulator@,
                content_views(kept@) == fresh_content(seen, cv.take(j as int)),
                texts(self.tool_request_ids@) == seen + request_ids(content_requests(cv.take(j as int))),
            decreases chunk.content.len() - j,
        {
            let ghost before = kept@;
            let ghost ids_before = self.tool_request_ids@;
            assert(cv.take(j + 1).drop_last() =~= cv.take(j as int));
            assert(cv[j as int] == chunk.content@[j as int]@);
            let c = chunk.content[j].clone();
            match &chunk.content[j] {
                MessageContent::ToolRequest(request) => {
                    let is_new = !contains_id(&self.tool_request_ids, &request.id);
                    self.tool_request_ids.push(request.id.clone());
                    assert(request_ids(content_requests(cv.take(j + 1))) =~= request_ids(
                        content_requests(cv.take(j as int)),
                    ).push(request.id@));
                    assert(texts(self.tool_request_ids@) =~= texts(ids_before).push(request.id@));
                    if is_new {
                        kept.push(c);
                        assert(content_views(kept@) =~= content_views(before).push(c@));
                    }
                },
                _ => {
                    assert(content_requests(cv.take(j + 1)) =~= content_requests(cv.take(j as int)));
                    kept.push(c);
                    assert(content_views(kept@) =~= content_views(before).push(c@));
                },
            }
            j = j + 1;
        }
        assert(cv.take(chunk.content.len() as int) =~= cv);
        chunk.content = kept;
        assert(chunk@.content == fresh_content(seen, marked.content));
        assert(chunk@ == fresh_chunk(seen, incoming, *inference));
        normalize_tool_call_thinking(&mut self.accumulator, &mut chunk);
        let emit = chunk.content.len() > 0 || chunk.metadata.output_token_limit_reached;
        (chunk, emit)
    }

    /// Adds a chunk to the reply.
    pub fn accept_chunk(&mut self, chunk: Message)
        ensures
            final(self).accumulator@ == old(self).accumulator@.push(chunk@),
            final(self).tool_request_ids@ == old(self).tool_request_ids@,
    {
        self.accumulator.messages.push(chunk);
        assert(self.accumulator@ =~= old(self).accumulator@.push(chunk@));
    }
}

// ---------------------------------------------------------------------------
// Laws

/// The requests of two joined lists are those of the first, then those of
/// the second.
pub proof fn lemma_content_requests_add(a: Seq<ContentView>, b: Seq<ContentView>)
    ensures
        content_requests(a + b) == content_requests(a) + content_requests(b),
    decreases b.len(),
{
    if b.len() == 0 {
        assert(a + b =~= a);
        assert(content_requests(a) + content_requests(b) =~= content_requests(a));
    } else {
        lemma_content_requests_add(a, b.drop_last());
        assert((a + b).drop_last() =~= a + b.drop_last());
        assert((a + b).last() == b.last());
        assert(content_requests(a + b) =~= content_requests(a) + content_requests(b));
    }
}

/// Content that holds only thinking holds no tool request.
proof fn lemma_thinking_has_no_requests(c: Seq<ContentView>)
    requires
        forall|i: int| 0 <= i < c.len() ==> thinking_content(#[trigger] c[i]),
    ensures
        content_requests(c).len() == 0,
    decreases c.len(),
{
    if c.len() > 0 {
        assert(thinking_content(c[c.len() - 1]));
        lemma_thinking_has_no_requests(c.drop_last());
    }
}

/// The thinking that earlier messages give is thinking.
proof fn lemma_donated_is_thinking(acc: Seq<MessageView>, role: Role)
    ensures
        forall|i: int|
            0 <= i < donated_thinking(acc, role).len() ==> thinking_content(
                #[trigger] donated_thinking(acc, role)[i],
            ),
    decreases acc.len(),
{
    broadcast use vstd::seq_lib::group_filter_ensures;

    if acc.len() > 0 {
        lemma_donated_is_thinking(acc.drop_last(), role);
        let prev = donated_thinking(acc.drop_last(), role);
        let cur = donated_thinking(acc, role);
        assert forall|i: int| 0 <= i < cur.len() implies thinking_content(#[trigger] cur[i]) by {
            if i < prev.len() {
                assert(cur[i] == prev[i]);
            } else {
                let t = only_thinking(acc.last().content);
                assert(cur[i] == t[i - prev.len()]);
                acc.last().content.lemma_filter_pred(is_thinking_item(), i - prev.len());
            }
        }
    }
}

/// Moving thinking next to the tool call leaves the tool requests as they
/// were.
proof fn lemma_normalized_chunk_requests(acc: Seq<MessageView>, chunk: MessageView)
    ensures
        content_requests(normalized_chunk_content(acc, chunk)) == content_requests(chunk.content),
{
    let prior = donated_thinking(acc, chunk.role);
    if has_tool_request(chunk.content) && !has_thinking(chunk.content) && prior.len() > 0 {
        let c = chunk.content;
        let p = first_tool_request(c);
        lemma_first_tool_request_exists(c);
        lemma_donated_is_thinking(acc, chunk.role);
        lemma_thinking_has_no_requests(prior);
        lemma_content_requests_add(c.take(p) + prior, c.skip(p));
        lemma_content_requests_add(c.take(p), prior);
        lemma_content_requests_add(c.take(p), c.skip(p));
        assert(c.take(p) + c.skip(p) =~= c);
        assert(content_requests(c.take(p)) + content_requests(prior) =~= content_requests(c.take(p)));
    }
}

/// What fresh content keeps: requests with new, distinct ids, all of them
/// from the content.
proof fn lemma_fresh_content(seen: Seq<Seq<char>>, content: Seq<ContentView>)
    ensures
        request_ids(content_requests(fresh_content(seen, content))).no_duplicates(),
        forall|k: int|
            0 <= k < request_ids(content_requests(fresh_content(seen, content))).len() ==> !seen.contains(
                #[trigger] request_ids(content_requests(fresh_content(seen, content)))[k],
            ),
        forall|id: Seq<char>|
            #[trigger] request_ids(content_requests(fresh_content(seen, content))).contains(id)
                ==> request_ids(content_requests(content)).contains(id),
    decreases content.len(),
{
    if content.len() > 0 {
        let rest = content.drop_last();
        let c = content.last();
        lemma_fresh_content(seen, rest);
        let prev = fresh_content(seen, rest);
        let prev_ids = request_ids(content_requests(prev));
        let cur = fresh_content(seen, content);
        let cur_ids = request_ids(content_requests(cur));
        let all_prev = request_ids(content_requests(rest));
        let all_cur = request_ids(content_requests(content));
        if c is ToolRequest {
            assert(all_cur =~= all_prev.push(request_id(c)));
            if (seen + all_prev).contains(request_id(c)) {
                assert(cur == prev);
            } else {
                assert(cur == prev.push(c));
                assert(cur.drop_last() =~= prev);
                assert(cur_ids =~= prev_ids.push(request_id(c)));
                assert(!seen.contains(request_id(c))) by {
                    if seen.contains(request_id(c)) {
                        let k = choose|k: int| 0 <= k < seen.len() && seen[k] == request_id(c);
                        assert((seen + all_prev)[k] == request_id(c));
                    }
                }
                assert(!prev_ids.contains(request_id(c))) by {
                    if prev_ids.contains(request_id(c)) {
                        assert(all_prev.contains(request_id(c)));
                        let k = choose|k: int| 0 <= k < all_prev.len() && all_prev[k] == request_id(c);
                        assert((seen + all_prev)[seen.len() + k] == request_id(c));
                    }
                }
                assert forall|i: int, j: int|
                    0 <= i < cur_ids.len() && 0 <= j < cur_ids.len() && i != j implies cur_ids[i]
                    != cur_ids[j] by {
                    if i < prev_ids.len() && j < prev_ids.len() {
                        assert(cur_ids[i] == prev_ids[i] && cur_ids[j] == prev_ids[j]);
                    } else if i < prev_ids.len() {
                        assert(cur_ids[i] == prev_ids[i]);
                    } else {
                        assert(cur_ids[j] == prev_ids[j]);
                    }
                }
                assert forall|id: Seq<char>| #[trigger] cur_ids.contains(id) implies all_cur.contains(id) by {
                    if id != request_id(c) {
                        assert(prev_ids.contains(id));
                        assert(all_prev.contains(id));
                        let k = choose|k: int| 0 <= k < all_prev.len() && all_prev[k] == id;
                        assert(all_cur[k] == id);
                    } else {
                        assert(all_cur[all_cur.len() - 1] == id);
                    }
                }
            }
        } else {
            assert(cur == prev.push(c));
            assert(cur.drop_last() =~= prev);
            assert(cur_ids =~= prev_ids);
            assert(all_cur =~= all_prev);
        }
    }
}

/// Law: the tool requests that a prepared chunk carries have ids that the
/// stream had not offered before, each once, and taken from the chunk.
pub proof fn lemma_prepared_requests_are_new(
    acc: Seq<MessageView>,
    seen: Seq<Seq<char>>,
    chunk: MessageView,
    inference: Option<InferenceMetadata>,
)
    ensures
        ({
            let ids = request_ids(content_requests(prepared_chunk(acc, seen, chunk, inference).content));
            &&& ids.no_duplicates()
            &&& forall|k: int| 0 <= k < ids.len() ==> !seen.contains(#[trigger] ids[k])
            &&& forall|id: Seq<char>| #[trigger] ids.contains(id) ==> request_ids(
                content_requests(chunk.content),
            ).contains(id)
        }),
{
    let fresh = fresh_chunk(seen, chunk, inference);
    lemma_normalized_chunk_requests(acc, fresh);
    lemma_fresh_content(seen, chunk.content);
}

/// Law: two chunks prepared one after the other never carry a tool request
/// with the same id.
pub proof fn lemma_successive_chunks_share_no_request(
    acc1: Seq<MessageView>,
    acc2: Seq<MessageView>,
    seen: Seq<Seq<char>>,
    chunk1: MessageView,
    chunk2: MessageView,
    inference: Option<InferenceMetadata>,
)
    ensures
        ({
            let seen2 = seen + request_ids(content_requests(chunk1.content));
            let ids1 = request_ids(content_requests(prepared_chunk(acc1, seen, chunk1, inference).content));
            let ids2 = request_ids(content_requests(prepared_chunk(acc2, seen2, chunk2, inference).content));
            forall|id: Seq<char>| #[trigger] ids1.contains(id) ==> !ids2.contains(id)
        }),
{
    let seen2 = seen + request_ids(content_requests(chunk1.content));
    let ids1 = request_ids(content_requests(prepared_chunk(acc1, seen, chunk1, inference).content));
    let ids2 = request_ids(content_requests(prepared_chunk(acc2, seen2, chunk2, inference).content));
    lemma_prepared_requests_are_new(acc1, seen, chunk1, inference);
    lemma_prepared_requests_are_new(acc2, seen2, chunk2, inference);
    assert forall|id: Seq<char>| #[trigger] ids1.contains(id) implies !ids2.contains(id) by {
        let all1 = request_ids(content_requests(chunk1.content));
        assert(all1.contains(id));
        let k = choose|k: int| 0 <= k < all1.len() && all1[k] == id;
        assert(seen2[seen.len() + k] == id);
        if ids2.contains(id) {
            let q = choose|q: int| 0 <= q < ids2.len() && ids2[q] == id;
            assert(!seen2.contains(ids2[q]));
        }
    }
}

/// Selects the items that are not tool requests.
pub open spec fn not_tool_request() -> spec_fn(ContentView) -> bool {
    |c: ContentView| !(c is ToolRequest)
}

/// Clearing repeated tool requests keeps every other item, in order.
proof fn lemma_fresh_keeps_other_items(seen: Seq<Seq<char>>, content: Seq<ContentView>)
    ensures
        fresh_content(seen, content).filter(not_tool_request()) == content.filter(not_tool_request()),
    decreases content.len(),
{
    if content.len() == 0 {
        assert(fresh_content(seen, content) =~= content);
    } else {
        let rest = content.drop_last();
        let c = content.last();
        lemma_fresh_keeps_other_items(seen, rest);
        assert(rest.push(c) =~= content);
        rest.lemma_filter_push(c, not_tool_request());
        let prev = fresh_content(seen, rest);
        prev.lemma_filter_push(c, not_tool_request());
    }
}

/// Content without tool requests is all fresh.
proof fn lemma_fresh_without_requests(seen: Seq<Seq<char>>, content: Seq<ContentView>)
    requires
        !has_tool_request(content),
    ensures
        fresh_content(seen, content) == content,
    decreases content.len(),
{
    if content.len() > 0 {
        let rest = content.drop_last();
        assert(!has_tool_request(rest)) by {
            if has_tool_request(rest) {
                let i = choose|i: int| 0 <= i < rest.len() && tool_request_content(#[trigger] rest[i]);
                assert(content[i] == rest[i]);
            }
        }
        lemma_fresh_without_requests(seen, rest);
        assert(!tool_request_content(content[content.len() - 1]));
        assert(rest.push(content.last()) =~= content);
    }
}

/// Law: a chunk without tool requests goes on with all its items as they
/// were, blank text included, and is emitted exactly when it has items or
/// reports that the output token limit was reached.
pub proof fn lemma_chunk_without_requests_passes_whole(
    acc: Seq<MessageView>,
    seen: Seq<Seq<char>>,
    chunk: MessageView,
    inference: Option<InferenceMetadata>,
)
    requires
        !has_tool_request(chunk.content),
    ensures
        prepared_chunk(acc, seen, chunk, inference).content == chunk.content,
        emitted(prepared_chunk(acc, seen, chunk, inference)) == (chunk.content.len() > 0
            || chunk.metadata.output_token_limit_reached),
{
    lemma_fresh_without_requests(seen, chunk.content);
}

/// Law: preparing a chunk keeps every item that is not a tool request, in
/// order; only repeated tool requests go, and thinking that earlier chunks
/// left behind is added only when the chunk requests a tool, has no
/// thinking of its own and some was left.
pub proof fn lemma_prepared_keeps_other_items(
    acc: Seq<MessageView>,
    seen: Seq<Seq<char>>,
    chunk: MessageView,
    inference: Option<InferenceMetadata>,
)
    ensures
        !has_tool_request(chunk.content) || has_thinking(chunk.content) || donated_thinking(
            acc,
            chunk.role,
        ).len() == 0 ==> prepared_chunk(acc, seen, chunk, inference).content.filter(
            not_tool_request(),
        ) == chunk.content.filter(not_tool_request()),
{
    broadcast use vstd::seq_lib::group_filter_ensures;

    let fresh = fresh_chunk(seen, chunk, inference);
    lemma_fresh_keeps_other_items(seen, chunk.content);
    if !has_tool_request(chunk.content) {
        lemma_fresh_without_requests(seen, chunk.content);
    }
    if has_thinking(chunk.content) {
        let k = choose|k: int| 0 <= k < chunk.content.len() && thinking_content(#[trigger] chunk.content[k]);
        chunk.content.lemma_filter_contains(not_tool_request(), k);
        assert(fresh.content.filter(not_tool_request()).contains(chunk.content[k]));
        fresh.content.lemma_filter_contains_rev(not_tool_request(), chunk.content[k]);
        let q = choose|q: int| 0 <= q < fresh.content.len() && fresh.content[q] == chunk.content[k];
        assert(thinking_content(fresh.content[q]));
        assert(has_thinking(fresh.content));
    }
}

} // verus!
