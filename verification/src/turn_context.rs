//! Persisting the turn-context event only when it changed.
//!
//! Each inference may build a fresh turn-context message (the working
//! directory, the context budget, the time of the turn). It joins the
//! conversation only when its text differs from that of the last
//! turn-context message of the turn, so that earlier events stay in place.
use vstd::prelude::*;
use crate::message::{content_views, views, ContentView, Message, MessageContent, MessageView};
use crate::provider_view::texts;
use crate::tools::{join_names, joined};

verus! {

broadcast use vstd::seq_lib::group_seq_properties;

/// The texts of the text items of `content`, in order.
pub open spec fn text_items(content: Seq<ContentView>) -> Seq<Seq<char>>
    decreases content.len(),
{
    if content.len() == 0 {
        Seq::empty()
    } else {
        text_items(content.drop_last()) + match content.last() {
            ContentView::Text(t) => seq![t@],
            _ => Seq::empty(),
        }
    }
}

/// The text of a message: its text items joined by new lines.
pub open spec fn concat_text(m: MessageView) -> Seq<char> {
    joined(text_items(m.content), "\n"@)
}

/// The text of `m`.
pub fn message_text(m: &Message) -> (r: String)
    ensures
        r@ == concat_text(m@),
{
    let ghost cv = content_views(m.content@);
    let mut parts: Vec<String> = Vec::new();
    let mut j: usize = 0;
    while j < m.content.len()
        invariant
            j <= m.content.len(),
            cv == content_views(m.content@),
            texts(parts@) == text_items(cv.take(j as int)),
        decreases m.content.len() - j,
    {
        assert(cv.take(j + 1).drop_last() =~= cv.take(j as int));
        assert(cv[j as int] == m.content@[j as int]@);
        let ghost before = parts@;
        match &m.content[j] {
            MessageContent::Text(t) => {
                parts.push(t.clone());
                assert(texts(parts@) =~= texts(before) + seq![t@]);
            },
            _ => {
                assert(texts(parts@) =~= texts(before) + Seq::<Seq<char>>::empty());
            },
        }
        j = j + 1;
    }
    assert(cv.take(m.content.len() as int) =~= cv);
    join_names(&parts, "\n")
}

/// `k` is the position of the last turn-context message of `turn`.
pub open spec fn is_last_turn_context(turn: Seq<MessageView>, k: int) -> bool {
    &&& 0 <= k < turn.len()
    &&& turn[k].metadata.turn_context
    &&& forall|q: int| k < q < turn.len() ==> !(#[trigger] turn[q]).metadata.turn_context
}

/// A fresh turn-context event is new when no turn-context message is in
/// the turn, or the last one has another text.
pub open spec fn turn_context_is_new(turn: Seq<MessageView>, event: MessageView) -> bool {
    forall|k: int| is_last_turn_context(turn, k) ==> concat_text(#[trigger] turn[k]) != concat_text(event)
}

/// Whether the fresh turn-context event `event` is to join the
/// conversation: its text differs from that of the turn's last turn-context
/// message, or there is none.
pub fn persist_turn_context(turn: &[Message], event: &Message) -> (r: bool)
    ensures
        r == turn_context_is_new(views(turn@), event@),
{
    let ghost ms = views(turn@);
    let mut k: usize = turn.len();
    while k > 0
        invariant
            k <= turn.len(),
            ms == views(turn@),
            forall|q: int| k <= q < turn.len() ==> !(#[trigger] ms[q]).metadata.turn_context,
        decreases k,
    {
        assert(ms[k - 1] == turn@[k - 1]@);
        if turn[k - 1].metadata.turn_context {
            let last = message_text(&turn[k - 1]);
            let fresh = message_text(event);
            assert(is_last_turn_context(ms, k - 1));
            assert forall|j: int| is_last_turn_context(ms, j) implies j == k - 1 by {
                if j < k - 1 {
                    assert(!ms[k - 1].metadata.turn_context);
                } else if j > k - 1 {
                    assert(!ms[j].metadata.turn_context);
                }
            }
            return !(last == fresh);
        }
        k = k - 1;
    }
    assert forall|j: int| is_last_turn_context(ms, j) implies concat_text(#[trigger] ms[j]) != concat_text(event@) by {
        assert(!ms[j].metadata.turn_context);
    }
    true
}

/// Law: once a turn-context event joined the turn, the same event is not
/// persisted again: only a change of its text makes a new one.
pub proof fn lemma_persisted_event_is_not_repeated(turn: Seq<MessageView>, event: MessageView)
    requires
        event.metadata.turn_context,
    ensures
        !turn_context_is_new(turn.push(event), event),
{
    let t = turn.push(event);
    assert(is_last_turn_context(t, turn.len() as int));
    assert(t[turn.len() as int] == event);
}

/// Law: a turn without turn-context messages takes any fresh event.
pub proof fn lemma_first_event_is_persisted(turn: Seq<MessageView>, event: MessageView)
    requires
        forall|q: int| 0 <= q < turn.len() ==> !(#[trigger] turn[q]).metadata.turn_context,
    ensures
        turn_context_is_new(turn, event),
{
}

} // verus!
