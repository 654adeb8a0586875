//! Keeping a streamed assistant turn's thinking next to its tool calls.
//!
//! Some providers stream the model's thinking as a message of its own and the
//! tool call in a later chunk. Providers that replay thinking want it in the
//! same message as the tool call it led to, so when a chunk with a tool
//! request arrives, thinking left behind in earlier chunks of the same role
//! is moved into it, just before its first tool request.
use vstd::prelude::*;
use vstd::multiset::Multiset;
use crate::message::{
    contains_tool_request, content_views, has_thinking, has_tool_request, is_tool_request,
    thinking_content, tool_request_content, views, ContentView, Conversation, Message,
    MessageContent, MessageView, Role,
};

verus! {

broadcast use vstd::seq_lib::group_seq_properties;

/// A message gives its thinking to a tool-request chunk of `role` when it has
/// that role and no tool request of its own.
pub open spec fn donates_thinking(m: MessageView, role: Role) -> bool {
    m.role == role && !has_tool_request(m.content)
}

/// Selects thinking items.
pub open spec fn is_thinking_item() -> spec_fn(ContentView) -> bool {
    |c: ContentView| thinking_content(c)
}

/// Selects the items that are not thinking.
pub open spec fn is_not_thinking_item() -> spec_fn(ContentView) -> bool {
    |c: ContentView| !thinking_content(c)
}

/// The thinking items of `content`, in order.
pub open spec fn only_thinking(content: Seq<ContentView>) -> Seq<ContentView> {
    content.filter(is_thinking_item())
}

/// The items of `content` that are not thinking, in order.
pub open spec fn without_thinking(content: Seq<ContentView>) -> Seq<ContentView> {
    content.filter(is_not_thinking_item())
}

/// `m` after it gave its thinking away, if it does.
pub open spec fn strip_donor(m: MessageView, role: Role) -> MessageView {
    if donates_thinking(m, role) {
        MessageView { content: without_thinking(m.content), ..m }
    } else {
        m
    }
}

/// The thinking that the messages of `acc` give to a chunk of `role`, in
/// message order.
pub open spec fn donated_thinking(acc: Seq<MessageView>, role: Role) -> Seq<ContentView>
    decreases acc.len(),
{
    if acc.len() == 0 {
        Seq::empty()
    } else {
        donated_thinking(acc.drop_last(), role) + if donates_thinking(acc.last(), role) {
            only_thinking(acc.last().content)
        } else {
            Seq::empty()
        }
    }
}

/// Whether a message still has content.
pub open spec fn nonempty_message(m: MessageView) -> bool {
    m.content.len() > 0
}

/// Strips a donor of `role`.
pub open spec fn strip_donor_of(role: Role) -> spec_fn(MessageView) -> MessageView {
    |m: MessageView| strip_donor(m, role)
}

/// Selects messages that still have content.
pub open spec fn is_nonempty_message() -> spec_fn(MessageView) -> bool {
    |m: MessageView| nonempty_message(m)
}

/// The earlier messages once the donors gave their thinking away and the
/// messages left empty were dropped.
pub open spec fn stripped_messages(acc: Seq<MessageView>, role: Role) -> Seq<MessageView> {
    acc.map_values(strip_donor_of(role)).filter(is_nonempty_message())
}

/// The accumulator after a chunk arrives: unchanged unless the chunk requests
/// a tool.
pub open spec fn normalized_accumulator(acc: Seq<MessageView>, chunk: MessageView) -> Seq<
    MessageView,
> {
    if has_tool_request(chunk.content) {
        stripped_messages(acc, chunk.role)
    } else {
        acc
    }
}

/// `p` is the position of the first tool request of `content`.
pub open spec fn is_first_tool_request(content: Seq<ContentView>, p: int) -> bool {
    &&& 0 <= p < content.len()
    &&& tool_request_content(content[p])
    &&& forall|q: int| 0 <= q < p ==> !tool_request_content(#[trigger] content[q])
}

/// The position of the first tool request of `content`.
pub open spec fn first_tool_request(content: Seq<ContentView>) -> int {
    choose|p: int| is_first_tool_request(content, p)
}

/// The chunk's content after it arrives: when it requests a tool, has no
/// thinking of its own and earlier messages gave thinking, that thinking is
/// placed just before its first tool request.
pub open spec fn normalized_chunk_content(acc: Seq<MessageView>, chunk: MessageView) -> Seq<
    ContentView,
> {
    let prior = donated_thinking(acc, chunk.role);
    if has_tool_request(chunk.content) && !has_thinking(chunk.content) && prior.len() > 0 {
        let p = first_tool_request(chunk.content);
        chunk.content.take(p) + prior + chunk.content.skip(p)
    } else {
        chunk.content
    }
}

/// Whether a content item is thinking, plain or redacted.
pub fn is_thinking(content: &MessageContent) -> (r: bool)
    ensures
        r == thinking_content(content@),
{
    match content {
        MessageContent::Thinking { .. } => true,
        MessageContent::RedactedThinking(_) => true,
        _ => false,
    }
}

/// Whether some item of `content` is thinking.
fn contains_thinking(content: &Vec<MessageContent>) -> (r: bool)
    ensures
        r == has_thinking(content_views(content@)),
{
    let mut i: usize = 0;
    while i < content.len()
        invariant
            i <= content.len(),
            forall|j: int| 0 <= j < i ==> !thinking_content(#[trigger] content@[j]@),
        decreases content.len() - i,
    {
        if is_thinking(&content[i]) {
            assert(content_views(content@)[i as int] == content@[i as int]@);
            return true;
        }
        i = i + 1;
    }
    false
}

/// Copies of the thinking items of `content` and of the other items, each in
/// order.
fn split_thinking(content: &Vec<MessageContent>) -> (r: (Vec<MessageContent>, Vec<MessageContent>))
    ensures
        content_views(r.0@) == only_thinking(content_views(content@)),
        content_views(r.1@) == without_thinking(content_views(content@)),
{
    let ghost cv = content_views(content@);
    let mut thinking: Vec<MessageContent> = Vec::new();
    let mut rest: Vec<MessageContent> = Vec::new();
    let mut i: usize = 0;
    while i < content.len()
        invariant
            i <= content.len(),
            cv == content_views(content@),
            content_views(thinking@) == cv.take(i as int).filter(is_thinking_item()),
            content_views(rest@) == cv.take(i as int).filter(is_not_thinking_item()),
        decreases content.len() - i,
    {
        let ghost old_thinking = thinking@;
        let ghost old_rest = rest@;
        let c = content[i].clone();
        assert(cv[i as int] == content@[i as int]@);
        assert(c@ == cv[i as int]);
        assert(is_thinking_item()(c@) == thinking_content(c@));
        assert(is_not_thinking_item()(c@) == !thinking_content(c@));
        assert(cv.take(i + 1) == cv.take(i as int).push(cv[i as int]));
        proof {
            cv.take(i as int).lemma_filter_push(cv[i as int], is_thinking_item());
            cv.take(i as int).lemma_filter_push(cv[i as int], is_not_thinking_item());
        }
        if is_thinking(&content[i]) {
            thinking.push(c);
            assert(content_views(thinking@) =~= content_views(old_thinking).push(c@));
        } else {
            rest.push(c);
            assert(content_views(rest@) =~= content_views(old_rest).push(c@));
        }
        i = i + 1;
    }
    assert(cv.take(content.len() as int) =~= cv);
    (thinking, rest)
}

/// The position of the first tool request of `content`, which has one.
fn find_first_tool_request(content: &Vec<MessageContent>) -> (p: usize)
    requires
        has_tool_request(content_views(content@)),
    ensures
        p == first_tool_request(content_views(content@)),
        is_first_tool_request(content_views(content@), p as int),
{
    let ghost cv = content_views(content@);
    let mut i: usize = 0;
    while i < content.len()
        invariant
            i <= content.len(),
            cv == content_views(content@),
            has_tool_request(cv),
            forall|q: int| 0 <= q < i ==> !tool_request_content(#[trigger] cv[q]),
        decreases content.len() - i,
    {
        if is_tool_request(&content[i]) {
            assert(is_first_tool_request(cv, i as int));
            proof {
                lemma_first_tool_request_unique(cv, i as int);
            }
            return i;
        }
        i = i + 1;
    }
    assert(false);
    0
}

/// Content with a tool request has a first one.
pub proof fn lemma_first_tool_request_exists(content: Seq<ContentView>)
    requires
        has_tool_request(content),
    ensures
        is_first_tool_request(content, first_tool_request(content)),
    decreases content.len(),
{
    if tool_request_content(content[0]) {
        assert(is_first_tool_request(content, 0));
    } else {
        let rest = content.drop_first();
        let i = choose|i: int| 0 <= i < content.len() && tool_request_content(#[trigger] content[i]);
        assert(rest[i - 1] == content[i]);
        lemma_first_tool_request_exists(rest);
        let p = first_tool_request(rest);
        assert forall|q: int| 0 <= q < p + 1 implies !tool_request_content(#[trigger] content[q]) by {
            if q > 0 {
                assert(content[q] == rest[q - 1]);
            }
        }
        assert(content[p + 1] == rest[p]);
        assert(is_first_tool_request(content, p + 1));
    }
}

/// There is one first tool request.
proof fn lemma_first_tool_request_unique(content: Seq<ContentView>, p: int)
    requires
        is_first_tool_request(content, p),
    ensures
        first_tool_request(content) == p,
{
    let q = first_tool_request(content);
    assert(is_first_tool_request(content, q));
    if q < p {
        assert(!tool_request_content(content[q]));
    } else if p < q {
        assert(!tool_request_content(content[p]));
    }
}

/// Appends copies of the items of `from` to `to`.
fn extend_with_copies(to: &mut Vec<MessageContent>, from: &Vec<MessageContent>)
    ensures
        content_views(final(to)@) == content_views(old(to)@) + content_views(from@),
{
    let ghost start = content_views(to@);
    let mut i: usize = 0;
    while i < from.len()
        invariant
            i <= from.len(),
            content_views(to@) == start + content_views(from@).take(i as int),
        decreases from.len() - i,
    {
        let ghost before = to@;
        let c = from[i].clone();
        to.push(c);
        assert(content_views(to@) =~= content_views(before).push(c@));
        assert(content_views(from@).take(i + 1) =~= content_views(from@).take(i as int).push(
            from@[i as int]@,
        ));
        i = i + 1;
    }
    assert(content_views(from@).take(from.len() as int) =~= content_views(from@));
}

/// When `chunk` requests a tool, moves the thinking that earlier messages of
/// its role left behind into it, just before its first tool request, and
/// drops the earlier messages this leaves empty.
///
/// Thinking is taken only from messages of the chunk's role that request no
/// tool themselves. When the chunk already has thinking of its own, the
/// taken thinking is dropped rather than added, so that the chunk does not
/// carry two.
pub fn normalize_tool_call_thinking(accumulator: &mut Conversation, chunk: &mut Message)
    ensures
        final(accumulator)@ == normalized_accumulator(old(accumulator)@, old(chunk)@),
        final(chunk)@ == (MessageView {
            content: normalized_chunk_content(old(accumulator)@, old(chunk)@),
            ..old(chunk)@
        }),
{
    if !contains_tool_request(&chunk.content) {
        return;
    }
    let has_direct_thinking = contains_thinking(&chunk.content);
    let role = chunk.role;
    let ghost acc = accumulator@;
    let mut prior_thinking: Vec<MessageContent> = Vec::new();
    let mut kept: Vec<Message> = Vec::new();
    let n = accumulator.messages.len();
    let mut i: usize = 0;
    while i < n
        invariant
            i <= n,
            n == accumulator.messages.len(),
            acc == accumulator@,
            role == chunk.role,
            content_views(prior_thinking@) == donated_thinking(acc.take(i as int), role),
            views(kept@) == acc.take(i as int).map_values(strip_donor_of(role)).filter(is_nonempty_message()),
        decreases n - i,
    {
        let ghost before = views(kept@);
        let m = &accumulator.messages[i];
        let ghost mv = m@;
        assert(acc[i as int] == mv);
        assert(strip_donor_of(role)(mv) == strip_donor(mv, role));
        assert(is_nonempty_message()(strip_donor_of(role)(mv)) == nonempty_message(strip_donor_of(role)(mv)));
        assert(acc.take(i + 1) =~= acc.take(i as int).push(mv));
        assert(acc.take(i + 1).drop_last() =~= acc.take(i as int));
        assert(acc.take(i + 1).map_values(strip_donor_of(role)) =~= acc.take(i as int).map_values(strip_donor_of(role)).push(
            strip_donor_of(role)(mv),
        ));
        proof {
            acc.take(i as int).map_values(strip_donor_of(role)).lemma_filter_push(strip_donor_of(role)(mv), is_nonempty_message());
        }
        if m.role == role && !contains_tool_request(&m.content) {
            let (mut thinking, rest) = split_thinking(&m.content);
            let ghost old_prior = prior_thinking@;
            let ghost taken = thinking@;
            prior_thinking.append(&mut thinking);
            assert(content_views(prior_thinking@) =~= content_views(old_prior) + content_views(
                taken,
            ));
            if rest.len() > 0 {
                let stripped = Message {
                    id: m.id.clone(),
                    role: m.role,
                    created: m.created,
                    content: rest,
                    metadata: m.metadata.clone(),
                };
                assert(stripped@ == strip_donor_of(role)(mv));
                kept.push(stripped);
                assert(views(kept@) =~= before.push(strip_donor_of(role)(mv)));
            } else {
                assert(views(kept@) =~= before);
            }
        } else {
            if m.content.len() > 0 {
                let copy = m.clone();
                assert(copy@ == strip_donor_of(role)(mv));
                kept.push(copy);
                assert(views(kept@) =~= before.push(strip_donor_of(role)(mv)));
            } else {
                assert(views(kept@) =~= before);
            }
        }
        i = i + 1;
    }
    assert(acc.take(n as int) =~= acc);
    accumulator.messages = kept;
    if !has_direct_thinking && prior_thinking.len() > 0 {
        let p = find_first_tool_request(&chunk.content);
        let ghost cv = content_views(chunk.content@);
        let tail = chunk.content.split_off(p);
        extend_with_copies(&mut chunk.content, &prior_thinking);
        extend_with_copies(&mut chunk.content, &tail);
        assert(content_views(chunk.content@) =~= cv.take(p as int) + content_views(prior_thinking@)
            + cv.skip(p as int));
    }
}

// ---------------------------------------------------------------------------
// Laws

/// All content items of `messages`, message by message.
pub open spec fn flat_content(messages: Seq<MessageView>) -> Seq<ContentView>
    decreases messages.len(),
{
    if messages.len() == 0 {
        Seq::empty()
    } else {
        flat_content(messages.drop_last()) + messages.last().content
    }
}

/// Filtering by a predicate that every item meets keeps the sequence.
pub proof fn lemma_filter_keeps_all<A>(s: Seq<A>, p: spec_fn(A) -> bool)
    requires
        forall|i: int| 0 <= i < s.len() ==> p(#[trigger] s[i]),
    ensures
        s.filter(p) == s,
    decreases s.len(),
{
    if s.len() > 0 {
        let rest = s.drop_last();
        assert forall|i: int| 0 <= i < rest.len() implies p(#[trigger] rest[i]) by {
            assert(rest[i] == s[i]);
        }
        lemma_filter_keeps_all(rest, p);
        rest.lemma_filter_push(s.last(), p);
        assert(rest.push(s.last()) =~= s);
    }
}

/// Filtering by a predicate that no item meets leaves nothing.
proof fn lemma_filter_keeps_none<A>(s: Seq<A>, p: spec_fn(A) -> bool)
    requires
        forall|i: int| 0 <= i < s.len() ==> !p(#[trigger] s[i]),
    ensures
        s.filter(p).len() == 0,
    decreases s.len(),
{
    if s.len() > 0 {
        let rest = s.drop_last();
        assert forall|i: int| 0 <= i < rest.len() implies !p(#[trigger] rest[i]) by {
            assert(rest[i] == s[i]);
        }
        lemma_filter_keeps_none(rest, p);
        rest.lemma_filter_push(s.last(), p);
        assert(rest.push(s.last()) =~= s);
    }
}

/// The thinking and the other items of `c` together are the items of `c`.
proof fn lemma_thinking_partition(c: Seq<ContentView>)
    ensures
        c.to_multiset() == only_thinking(c).to_multiset().add(without_thinking(c).to_multiset()),
    decreases c.len(),
{
    broadcast use vstd::seq_lib::group_to_multiset_ensures;
    broadcast use vstd::multiset::group_multiset_axioms;

    if c.len() == 0 {
        assert(only_thinking(c) =~= c);
        assert(without_thinking(c) =~= c);
        assert(c.to_multiset() =~= only_thinking(c).to_multiset().add(
            without_thinking(c).to_multiset(),
        ));
    } else {
        let rest = c.drop_last();
        let x = c.last();
        lemma_thinking_partition(rest);
        assert(rest.push(x) =~= c);
        rest.lemma_filter_push(x, is_thinking_item());
        rest.lemma_filter_push(x, is_not_thinking_item());
        assert(c.to_multiset() =~= only_thinking(c).to_multiset().add(
            without_thinking(c).to_multiset(),
        ));
    }
}

/// Appending one message adds its content at the end.
proof fn lemma_flat_content_push(messages: Seq<MessageView>, m: MessageView)
    ensures
        flat_content(messages.push(m)) == flat_content(messages) + m.content,
{
    assert(messages.push(m).drop_last() =~= messages);
}

/// Stripping the messages and collecting the donated thinking loses and
/// adds no content item.
proof fn lemma_strip_conserves(acc: Seq<MessageView>, role: Role)
    ensures
        flat_content(acc).to_multiset() == flat_content(stripped_messages(acc, role)).to_multiset().add(
            donated_thinking(acc, role).to_multiset(),
        ),
    decreases acc.len(),
{
    broadcast use vstd::seq_lib::group_to_multiset_ensures;
    broadcast use vstd::multiset::group_multiset_axioms;
    broadcast use vstd::seq_lib::lemma_multiset_commutative;

    if acc.len() == 0 {
        assert(acc.map_values(strip_donor_of(role)) =~= Seq::<MessageView>::empty());
        lemma_filter_keeps_all(acc.map_values(strip_donor_of(role)), is_nonempty_message());
        assert(flat_content(acc).to_multiset() =~= flat_content(stripped_messages(acc, role)).to_multiset().add(
            donated_thinking(acc, role).to_multiset(),
        ));
    } else {
        let rest = acc.drop_last();
        let m = acc.last();
        let sm = strip_donor_of(role)(m);
        lemma_strip_conserves(rest, role);
        assert(rest.push(m) =~= acc);
        lemma_flat_content_push(rest, m);
        assert(acc.map_values(strip_donor_of(role)) =~= rest.map_values(strip_donor_of(role)).push(sm));
        rest.map_values(strip_donor_of(role)).lemma_filter_push(sm, is_nonempty_message());
        if nonempty_message(sm) {
            lemma_flat_content_push(stripped_messages(rest, role), sm);
        } else {
            assert(sm.content =~= Seq::<ContentView>::empty());
        }
        if donates_thinking(m, role) {
            lemma_thinking_partition(m.content);
        }
        assert(flat_content(acc).to_multiset() =~= flat_content(stripped_messages(acc, role)).to_multiset().add(
            donated_thinking(acc, role).to_multiset(),
        ));
    }
}

/// Inserting `prior` anywhere in `c` adds exactly its items.
proof fn lemma_insert_conserves(c: Seq<ContentView>, prior: Seq<ContentView>, p: int)
    requires
        0 <= p <= c.len(),
    ensures
        (c.take(p) + prior + c.skip(p)).to_multiset() == c.to_multiset().add(prior.to_multiset()),
{
    broadcast use vstd::multiset::group_multiset_axioms;
    broadcast use vstd::seq_lib::lemma_multiset_commutative;

    assert(c.take(p) + c.skip(p) =~= c);
    assert((c.take(p) + prior + c.skip(p)).to_multiset() =~= c.to_multiset().add(prior.to_multiset()));
}

/// Law: when the chunk brings no thinking of its own, normalizing moves
/// content items and neither loses nor copies any: the earlier messages and
/// the chunk hold the same items before and after.
pub proof fn lemma_normalize_moves_content(acc: Seq<MessageView>, chunk: MessageView)
    requires
        !has_thinking(chunk.content),
    ensures
        (flat_content(normalized_accumulator(acc, chunk)) + normalized_chunk_content(acc, chunk)).to_multiset()
            == (flat_content(acc) + chunk.content).to_multiset(),
{
    broadcast use vstd::multiset::group_multiset_axioms;
    broadcast use vstd::seq_lib::lemma_multiset_commutative;

    if has_tool_request(chunk.content) {
        let role = chunk.role;
        let prior = donated_thinking(acc, role);
        lemma_strip_conserves(acc, role);
        if prior.len() > 0 {
            let p = first_tool_request(chunk.content);
            lemma_first_tool_request_exists(chunk.content);
            lemma_insert_conserves(chunk.content, prior, p);
        } else {
            assert(prior.to_multiset() =~= Multiset::empty());
        }
        assert((flat_content(normalized_accumulator(acc, chunk)) + normalized_chunk_content(acc, chunk)).to_multiset()
            =~= (flat_content(acc) + chunk.content).to_multiset());
    }
}

/// Law: when the chunk requests a tool and already has thinking of its own,
/// the thinking that earlier messages gave is dropped, and nothing else is
/// lost or copied.
pub proof fn lemma_normalize_drops_thinking_beside_own(acc: Seq<MessageView>, chunk: MessageView)
    requires
        has_tool_request(chunk.content),
        has_thinking(chunk.content),
    ensures
        normalized_chunk_content(acc, chunk) == chunk.content,
        (flat_content(normalized_accumulator(acc, chunk)) + normalized_chunk_content(acc, chunk)).to_multiset().add(
            donated_thinking(acc, chunk.role).to_multiset(),
        ) == (flat_content(acc) + chunk.content).to_multiset(),
{
    broadcast use vstd::multiset::group_multiset_axioms;
    broadcast use vstd::seq_lib::lemma_multiset_commutative;

    lemma_strip_conserves(acc, chunk.role);
    assert((flat_content(normalized_accumulator(acc, chunk)) + normalized_chunk_content(acc, chunk)).to_multiset().add(
        donated_thinking(acc, chunk.role).to_multiset(),
    ) =~= (flat_content(acc) + chunk.content).to_multiset());
}

/// Law: after a tool-requesting chunk arrives, no earlier message is empty,
/// and no earlier message of the chunk's role without a tool request still
/// holds thinking.
pub proof fn lemma_normalized_accumulator_is_clean(acc: Seq<MessageView>, chunk: MessageView)
    requires
        has_tool_request(chunk.content),
    ensures
        forall|i: int|
            0 <= i < normalized_accumulator(acc, chunk).len() ==> {
                let m = #[trigger] normalized_accumulator(acc, chunk)[i];
                &&& m.content.len() > 0
                &&& donates_thinking(m, chunk.role) ==> !has_thinking(m.content)
            },
{
    broadcast use vstd::seq_lib::group_filter_ensures;

    let role = chunk.role;
    let mapped = acc.map_values(strip_donor_of(role));
    let out = normalized_accumulator(acc, chunk);
    assert forall|i: int| 0 <= i < out.len() implies {
        let m = #[trigger] out[i];
        &&& m.content.len() > 0
        &&& donates_thinking(m, role) ==> !has_thinking(m.content)
    } by {
        let m = out[i];
        mapped.lemma_filter_pred(is_nonempty_message(), i);
        assert(out.contains(m));
        mapped.lemma_filter_contains_rev(is_nonempty_message(), m);
        let j = choose|j: int| 0 <= j < mapped.len() && mapped[j] == m;
        let orig = acc[j];
        assert(m == strip_donor(orig, role));
        if donates_thinking(orig, role) {
            assert forall|k: int| 0 <= k < m.content.len() implies !thinking_content(#[trigger] m.content[k]) by {
                orig.content.lemma_filter_pred(is_not_thinking_item(), k);
            }
        }
    }
}

/// Every donor among `acc` gives no thinking.
proof fn lemma_no_donated_thinking(acc: Seq<MessageView>, role: Role)
    requires
        forall|i: int|
            0 <= i < acc.len() ==> donates_thinking(#[trigger] acc[i], role) ==> !has_thinking(
                acc[i].content,
            ),
    ensures
        donated_thinking(acc, role).len() == 0,
    decreases acc.len(),
{
    if acc.len() > 0 {
        let rest = acc.drop_last();
        assert forall|i: int|
            0 <= i < rest.len() && donates_thinking(#[trigger] rest[i], role) implies !has_thinking(
            rest[i].content,
        ) by {
            assert(rest[i] == acc[i]);
        }
        lemma_no_donated_thinking(rest, role);
        let m = acc.last();
        assert(m == acc[acc.len() - 1]);
        if donates_thinking(m, role) {
            lemma_filter_keeps_none(m.content, is_thinking_item());
        }
    }
}

/// Law: normalizing is idempotent. Offering the normalized chunk again to
/// the normalized earlier messages changes neither.
pub proof fn lemma_normalize_idempotent(acc: Seq<MessageView>, chunk: MessageView)
    ensures
        ({
            let acc1 = normalized_accumulator(acc, chunk);
            let chunk1 = MessageView { content: normalized_chunk_content(acc, chunk), ..chunk };
            &&& normalized_accumulator(acc1, chunk1) == acc1
            &&& normalized_chunk_content(acc1, chunk1) == chunk1.content
        }),
{
    let role = chunk.role;
    let acc1 = normalized_accumulator(acc, chunk);
    let chunk1 = MessageView { content: normalized_chunk_content(acc, chunk), ..chunk };
    if has_tool_request(chunk.content) {
        let prior = donated_thinking(acc, role);
        if has_tool_request(chunk.content) && !has_thinking(chunk.content) && prior.len() > 0 {
            let p = first_tool_request(chunk.content);
            lemma_first_tool_request_exists(chunk.content);
            let c1 = chunk1.content;
            assert(c1[p + prior.len()] == chunk.content[p]);
        }
        assert(has_tool_request(chunk1.content));
        lemma_normalized_accumulator_is_clean(acc, chunk);
        lemma_no_donated_thinking(acc1, role);
        let mapped = acc1.map_values(strip_donor_of(role));
        assert forall|i: int| 0 <= i < acc1.len() implies #[trigger] mapped[i] == acc1[i] by {
            let m = acc1[i];
            if donates_thinking(m, role) {
                assert forall|k: int| 0 <= k < m.content.len() implies is_not_thinking_item()(
                    #[trigger] m.content[k],
                ) by {}
                lemma_filter_keeps_all(m.content, is_not_thinking_item());
            }
        }
        assert(mapped =~= acc1);
        lemma_filter_keeps_all(mapped, is_nonempty_message());
    }
}

} // verus!
