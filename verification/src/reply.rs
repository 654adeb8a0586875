//! Judging the finished reply: whether the model said nothing, and whether
//! the provider reported token counts for it.
use vstd::prelude::*;
use vstd::string::StrSliceExecFns;
use crate::message::{content_views, views, ContentView, Message, MessageContent, MessageView};
use crate::outcome::{Effect, EffectView};

verus! {

broadcast use vstd::seq_lib::group_seq_properties;

/// Whether `c` is white space in the sense of Unicode's `White_Space`
/// property, which `str::trim` strips.
pub open spec fn white_space(c: char) -> bool {
    let n = c as u32;
    ||| 0x9 <= n <= 0xD
    ||| n == 0x20
    ||| n == 0x85
    ||| n == 0xA0
    ||| n == 0x1680
    ||| 0x2000 <= n <= 0x200A
    ||| n == 0x2028
    ||| n == 0x2029
    ||| n == 0x202F
    ||| n == 0x205F
    ||| n == 0x3000
}

/// A text is blank when trimming leaves nothing: every character is white
/// space.
pub open spec fn blank(text: Seq<char>) -> bool {
    forall|i: int| 0 <= i < text.len() ==> white_space(#[trigger] text[i])
}

/// Whether `c` is white space.
pub fn is_white_space(c: char) -> (r: bool)
    ensures
        r == white_space(c),
{
    let n = c as u32;
    (0x9 <= n && n <= 0xD) || n == 0x20 || n == 0x85 || n == 0xA0 || n == 0x1680 || (0x2000 <= n
        && n <= 0x200A) || n == 0x2028 || n == 0x2029 || n == 0x202F || n == 0x205F || n == 0x3000
}

/// Whether `text` is blank. Stops at the first character that is not white
/// space.
pub fn is_blank(text: &String) -> (r: bool)
    ensures
        r == blank(text@),
{
    let s = text.as_str();
    let n = s.unicode_len();
    let mut k: usize = 0;
    while k < n
        invariant
            n == text@.len(),
            s@ == text@,
            k <= n,
            forall|i: int| 0 <= i < k ==> white_space(#[trigger] text@[i]),
        decreases n - k,
    {
        let c = s.get_char(k);
        if !is_white_space(c) {
            return false;
        }
        k = k + 1;
    }
    true
}

/// An item says nothing: blank text or blank thinking. Any other kind of
/// item is something said.
pub open spec fn silent_item(c: ContentView) -> bool {
    match c {
        ContentView::Text(t) => blank(t@),
        ContentView::Thinking { thinking, .. } => blank(thinking@),
        _ => false,
    }
}

/// The model said nothing: no message reports that the output token limit
/// was reached, and every item of every message says nothing.
pub open spec fn empty_reply(reply: Seq<MessageView>) -> bool {
    &&& forall|i: int| 0 <= i < reply.len() ==> !(#[trigger] reply[i]).metadata.output_token_limit_reached
    &&& forall|i: int, j: int|
        0 <= i < reply.len() && 0 <= j < reply[i].content.len() ==> silent_item(
            #[trigger] reply[i].content[j],
        )
}

/// Whether an item says nothing.
fn is_silent_item(c: &MessageContent) -> (r: bool)
    ensures
        r == silent_item(c@),
{
    match c {
        MessageContent::Text(t) => is_blank(t),
        MessageContent::Thinking { thinking, .. } => is_blank(thinking),
        _ => false,
    }
}

/// Whether the model said nothing in `reply`.
pub fn is_empty_reply(reply: &Vec<Message>) -> (r: bool)
    ensures
        r == empty_reply(views(reply@)),
{
    let ghost ms = views(reply@);
    let mut i: usize = 0;
    while i < reply.len()
        invariant
            i <= reply.len(),
            ms == views(reply@),
            forall|a: int| 0 <= a < i ==> !(#[trigger] ms[a]).metadata.output_token_limit_reached,
        decreases reply.len() - i,
    {
        assert(ms[i as int] == reply@[i as int]@);
        if reply[i].metadata.output_token_limit_reached {
            return false;
        }
        i = i + 1;
    }
    let mut i: usize = 0;
    while i < reply.len()
        invariant
            i <= reply.len(),
            ms == views(reply@),
            forall|a: int| 0 <= a < reply.len() ==> !(#[trigger] ms[a]).metadata.output_token_limit_reached,
            forall|a: int, b: int|
                0 <= a < i && 0 <= b < ms[a].content.len() ==> silent_item(#[trigger] ms[a].content[b]),
        decreases reply.len() - i,
    {
        let content = &reply[i].content;
        assert(ms[i as int].content == content_views(content@));
        let mut j: usize = 0;
        while j < content.len()
            invariant
                i < reply.len(),
                j <= content.len(),
                content == &reply@[i as int].content,
                ms == views(reply@),
                ms[i as int].content == content_views(content@),
                forall|b: int| 0 <= b < j ==> silent_item(#[trigger] ms[i as int].content[b]),
            decreases content.len() - j,
        {
            assert(ms[i as int].content[j as int] == content@[j as int]@);
            if !is_silent_item(&content[j]) {
                return false;
            }
            j = j + 1;
        }
        i = i + 1;
    }
    true
}

/// The provider reported some token count for the reply.
pub open spec fn usage_recorded(effects: Seq<EffectView>) -> bool {
    exists|i: int|
        0 <= i < effects.len() && (#[trigger] effects[i] matches EffectView::RecordUsage(u) && (
        u.usage.input_tokens is Some || u.usage.output_tokens is Some || u.usage.total_tokens is Some))
}

/// Whether some recorded usage holds a token count.
pub fn has_recorded_tokens(effects: &Vec<Effect>) -> (r: bool)
    ensures
        r == usage_recorded(crate::outcome::effect_views(effects@)),
{
    let ghost es = crate::outcome::effect_views(effects@);
    let mut i: usize = 0;
    while i < effects.len()
        invariant
            i <= effects.len(),
            es == crate::outcome::effect_views(effects@),
            forall|a: int|
                0 <= a < i ==> !(#[trigger] es[a] matches EffectView::RecordUsage(u) && (
                u.usage.input_tokens is Some || u.usage.output_tokens is Some
                    || u.usage.total_tokens is Some)),
        decreases effects.len() - i,
    {
        assert(es[i as int] == effects@[i as int]@);
        match &effects[i] {
            Effect::RecordUsage(u) => {
                if u.usage.input_tokens.is_some() || u.usage.output_tokens.is_some()
                    || u.usage.total_tokens.is_some() {
                    return true;
                }
            },
            _ => {},
        }
        i = i + 1;
    }
    false
}

} // verus!
