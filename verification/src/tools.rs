//! Telling the model which tools exist when it called one that does not.
//!
//! A tool response flagged as answering an unclaimed tool (one that no
//! extension offers) gets, before it goes to the provider, a text block that
//! lists the available tools: their names, sorted, each once.
use vstd::prelude::*;
use vstd::string::StringExecFns;
use vstd::utf8::{encode_utf8, encode_utf8_decode_utf8};
use crate::message::{
    content_views, ContentBlock, ContentView, Message, MessageContent, MessageView,
    MetadataEntry, ToolResponse, ToolResult,
};
use crate::provider_view::texts;

verus! {

broadcast use vstd::seq_lib::group_seq_properties;

/// `a` comes before `b` in the lexicographic order of bytes.
pub open spec fn bytes_before(a: Seq<u8>, b: Seq<u8>) -> bool
    decreases a.len(),
{
    if b.len() == 0 {
        false
    } else if a.len() == 0 {
        true
    } else if a[0] != b[0] {
        a[0] < b[0]
    } else {
        bytes_before(a.drop_first(), b.drop_first())
    }
}

/// `a` comes before `b` in the order of `str`: lexicographic by the bytes of
/// their UTF-8 encoding.
pub open spec fn name_before(a: Seq<char>, b: Seq<char>) -> bool {
    bytes_before(encode_utf8(a), encode_utf8(b))
}

/// `names` is in increasing order, each name once.
pub open spec fn strictly_sorted(names: Seq<Seq<char>>) -> bool {
    forall|i: int, j: int| 0 <= i < j < names.len() ==> name_before(#[trigger] names[i], #[trigger] names[j])
}

/// `sorted` holds, sorted and each once, the names of `names`.
pub open spec fn sorted_distinct_of(sorted: Seq<Seq<char>>, names: Seq<Seq<char>>) -> bool {
    &&& strictly_sorted(sorted)
    &&& forall|x: Seq<char>| #[trigger] sorted.contains(x) <==> names.contains(x)
}

/// `items` joined with `sep` between each two.
pub open spec fn joined(items: Seq<Seq<char>>, sep: Seq<char>) -> Seq<char>
    decreases items.len(),
{
    if items.len() == 0 {
        Seq::empty()
    } else if items.len() == 1 {
        items[0]
    } else {
        joined(items.drop_last(), sep) + sep + items.last()
    }
}

// ---------------------------------------------------------------------------
// The order of names

proof fn lemma_bytes_before_irreflexive(a: Seq<u8>)
    ensures
        !bytes_before(a, a),
    decreases a.len(),
{
    if a.len() > 0 {
        lemma_bytes_before_irreflexive(a.drop_first());
    }
}

proof fn lemma_bytes_before_transitive(a: Seq<u8>, b: Seq<u8>, c: Seq<u8>)
    requires
        bytes_before(a, b),
        bytes_before(b, c),
    ensures
        bytes_before(a, c),
    decreases a.len(),
{
    if a.len() > 0 && a[0] == b[0] && b[0] == c[0] {
        lemma_bytes_before_transitive(a.drop_first(), b.drop_first(), c.drop_first());
    }
}

proof fn lemma_bytes_before_total(a: Seq<u8>, b: Seq<u8>)
    requires
        a != b,
    ensures
        bytes_before(a, b) || bytes_before(b, a),
    decreases a.len(),
{
    if a.len() > 0 && b.len() > 0 && a[0] == b[0] {
        if a.drop_first() == b.drop_first() {
            assert(a =~= seq![a[0]] + a.drop_first());
            assert(b =~= seq![b[0]] + b.drop_first());
        }
        lemma_bytes_before_total(a.drop_first(), b.drop_first());
    } else if a.len() == 0 && b.len() == 0 {
        assert(a =~= b);
    }
}

/// Two different names are in order one way or the other.
proof fn lemma_name_before_total(a: Seq<char>, b: Seq<char>)
    requires
        a != b,
    ensures
        name_before(a, b) || name_before(b, a),
{
    encode_utf8_decode_utf8(a);
    encode_utf8_decode_utf8(b);
    lemma_bytes_before_total(encode_utf8(a), encode_utf8(b));
}

/// Past a common start, the order is that of the rests.
proof fn lemma_bytes_before_skip(a: Seq<u8>, b: Seq<u8>, i: int)
    requires
        0 <= i <= a.len(),
        i <= b.len(),
        a.take(i) == b.take(i),
    ensures
        bytes_before(a, b) == bytes_before(a.skip(i), b.skip(i)),
    decreases i,
{
    if i > 0 {
        assert(a[0] == a.take(i)[0]);
        assert(b[0] == b.take(i)[0]);
        assert(a.drop_first().take(i - 1) =~= a.take(i).drop_first());
        assert(b.drop_first().take(i - 1) =~= b.take(i).drop_first());
        lemma_bytes_before_skip(a.drop_first(), b.drop_first(), i - 1);
        assert(a.drop_first().skip(i - 1) =~= a.skip(i));
        assert(b.drop_first().skip(i - 1) =~= b.skip(i));
    }
}

/// Whether `a` comes before `b` in the lexicographic order of bytes.
fn bytes_less(a: &[u8], b: &[u8]) -> (r: bool)
    ensures
        r == bytes_before(a@, b@),
{
    let mut i: usize = 0;
    while i < a.len() && i < b.len()
        invariant
            i <= a@.len(),
            i <= b@.len(),
            a@.take(i as int) == b@.take(i as int),
        decreases a.len() - i,
    {
        if a[i] != b[i] {
            proof {
                lemma_bytes_before_skip(a@, b@, i as int);
            }
            return a[i] < b[i];
        }
        assert(a@.take(i + 1) =~= a@.take(i as int).push(a@[i as int]));
        assert(b@.take(i + 1) =~= b@.take(i as int).push(b@[i as int]));
        i = i + 1;
    }
    proof {
        lemma_bytes_before_skip(a@, b@, i as int);
    }
    i < b.len()
}

/// Whether `a` comes before `b` in the order of `str`.
fn name_less(a: &String, b: &String) -> (r: bool)
    ensures
        r == name_before(a@, b@),
{
    bytes_less(a.as_str().as_bytes(), b.as_str().as_bytes())
}

/// Inserts `name` into the strictly sorted `sorted`, unless it holds it.
fn insert_name(sorted: &mut Vec<String>, name: &String)
    requires
        strictly_sorted(texts(old(sorted)@)),
    ensures
        strictly_sorted(texts(final(sorted)@)),
        forall|x: Seq<char>|
            #[trigger] texts(final(sorted)@).contains(x) <==> (texts(old(sorted)@).contains(x) || x
                == name@),
{
    let ghost s = texts(sorted@);
    let mut k: usize = 0;
    while k < sorted.len() && name_less(&sorted[k], name)
        invariant
            k <= sorted.len(),
            s == texts(sorted@),
            forall|q: int| 0 <= q < k ==> name_before(#[trigger] s[q], name@),
        decreases sorted.len() - k,
    {
        k = k + 1;
    }
    if k < sorted.len() && sorted[k] == *name {
        assert(s[k as int] == name@);
        return;
    }
    if k < sorted.len() {
        assert(s[k as int] != name@);
        proof {
            lemma_name_before_total(s[k as int], name@);
        }
        assert(name_before(name@, s[k as int]));
    }
    sorted.insert(k, name.clone());
    let ghost t = texts(sorted@);
    assert(t =~= s.insert(k as int, name@));
    assert forall|i: int, j: int| 0 <= i < j < t.len() implies name_before(#[trigger] t[i], #[trigger] t[j]) by {
        if j < k {
            assert(t[i] == s[i] && t[j] == s[j]);
        } else if j == k {
            assert(t[i] == s[i]);
        } else if i < k {
            assert(t[i] == s[i] && t[j] == s[j - 1]);
            assert(name_before(name@, s[k as int]));
            if j - 1 > k {
                lemma_bytes_before_transitive(
                    encode_utf8(name@),
                    encode_utf8(s[k as int]),
                    encode_utf8(s[j - 1]),
                );
            }
            lemma_bytes_before_transitive(encode_utf8(s[i]), encode_utf8(name@), encode_utf8(s[j - 1]));
        } else if i == k {
            assert(t[j] == s[j - 1]);
            if j - 1 > k {
                lemma_bytes_before_transitive(
                    encode_utf8(name@),
                    encode_utf8(s[k as int]),
                    encode_utf8(s[j - 1]),
                );
            }
        } else {
            assert(t[i] == s[i - 1] && t[j] == s[j - 1]);
        }
    }
    assert forall|x: Seq<char>| #[trigger] t.contains(x) <==> (s.contains(x) || x == name@) by {
        if t.contains(x) {
            let q = choose|q: int| 0 <= q < t.len() && t[q] == x;
            if q < k {
                assert(s[q] == x);
            } else if q > k {
                assert(s[q - 1] == x);
            }
        }
        if s.contains(x) {
            let q = choose|q: int| 0 <= q < s.len() && s[q] == x;
            if q < k {
                assert(t[q] == x);
            } else {
                assert(t[q + 1] == x);
            }
        }
        if x == name@ {
            assert(t[k as int] == x);
        }
    }
}

/// The names of `names`, sorted as `str` sorts them, each once.
pub fn sorted_distinct_names(names: &Vec<String>) -> (r: Vec<String>)
    ensures
        sorted_distinct_of(texts(r@), texts(names@)),
{
    let ghost all = texts(names@);
    let mut sorted: Vec<String> = Vec::new();
    let mut i: usize = 0;
    while i < names.len()
        invariant
            i <= names.len(),
            all == texts(names@),
            strictly_sorted(texts(sorted@)),
            forall|x: Seq<char>| #[trigger] texts(sorted@).contains(x) <==> all.take(i as int).contains(x),
        decreases names.len() - i,
    {
        insert_name(&mut sorted, &names[i]);
        assert(all.take(i + 1) =~= all.take(i as int).push(names@[i as int]@));
        i = i + 1;
    }
    assert(all.take(names.len() as int) =~= all);
    sorted
}

/// `items` joined with `sep`.
pub fn join_names(items: &Vec<String>, sep: &str) -> (r: String)
    ensures
        r@ == joined(texts(items@), sep@),
{
    let ghost all = texts(items@);
    let mut out = "".to_owned();
    proof {
        reveal_strlit("");
    }
    let mut i: usize = 0;
    while i < items.len()
        invariant
            i <= items.len(),
            all == texts(items@),
            out@ == joined(all.take(i as int), sep@),
        decreases items.len() - i,
    {
        assert(all.take(i + 1).drop_last() =~= all.take(i as int));
        assert(all[i as int] == items@[i as int]@);
        if i > 0 {
            out.append(sep);
        } else {
            assert(out@ =~= Seq::<char>::empty());
        }
        out.append(items[i].as_str());
        assert(out@ =~= joined(all.take(i + 1), sep@));
        i = i + 1;
    }
    assert(all.take(items.len() as int) =~= all);
    out
}

/// The note added to an unclaimed tool's error: "Available tools: [..]."
/// with the available names, sorted, each once, joined by ", ".
pub open spec fn available_tools_note(sorted: Seq<Seq<char>>) -> Seq<char> {
    "Available tools: ["@ + joined(sorted, ", "@) + "]."@
}

/// The note listing `tool_names`. Its names, sorted and each once, are also
/// returned.
pub fn available_tools_text(tool_names: &Vec<String>) -> (r: (String, Vec<String>))
    ensures
        sorted_distinct_of(texts(r.1@), texts(tool_names@)),
        r.0@ == available_tools_note(texts(r.1@)),
{
    let sorted = sorted_distinct_names(tool_names);
    let list = join_names(&sorted, ", ");
    let mut note = "Available tools: [".to_owned();
    note.append(list.as_str());
    note.append("].");
    (note, sorted)
}

// ---------------------------------------------------------------------------
// Annotating the responses

/// Selects the metadata entries whose key is not `key`.
pub open spec fn other_key(key: Seq<char>) -> spec_fn(MetadataEntry) -> bool {
    |e: MetadataEntry| e.key@ != key
}

/// Some entry of `metadata` has `key`.
pub open spec fn has_key(metadata: Seq<MetadataEntry>, key: Seq<char>) -> bool {
    exists|i: int| 0 <= i < metadata.len() && (#[trigger] metadata[i]).key@ == key
}

/// `after` is `before` once annotated: a tool response whose metadata holds
/// `key` loses it and, when its result is a success or a tool error, gains a
/// last text block `note`; every other item stays as it is.
pub open spec fn annotated(before: ContentView, after: ContentView, key: Seq<char>, note: Seq<char>) -> bool {
    match before {
        ContentView::ToolResponse(r) => match r.metadata {
            Some(md) => if has_key(md, key) {
                match after {
                    ContentView::ToolResponse(a) => {
                        &&& a.id == r.id
                        &&& a.metadata == Some(md.filter(other_key(key)))
                        &&& annotated_result(r.tool_result, a.tool_result, note)
                    },
                    _ => false,
                }
            } else {
                after == before
            },
            None => after == before,
        },
        _ => after == before,
    }
}

/// `after` is the result `before` with the note `note` as a last text block,
/// when it holds one; an error stays as it is.
pub open spec fn annotated_result(
    before: Result<crate::message::ToolResultView, crate::message::ToolError>,
    after: Result<crate::message::ToolResultView, crate::message::ToolError>,
    note: Seq<char>,
) -> bool {
    match before {
        Ok(res) => match after {
            Ok(ares) => {
                &&& ares.is_error == res.is_error
                &&& ares.structured_content == res.structured_content
                &&& ares.meta == res.meta
                &&& ares.content.len() == res.content.len() + 1
                &&& ares.content.take(res.content.len() as int) == res.content
                &&& match ares.content.last() {
                    ContentBlock::Text(t) => t@ == note,
                    _ => false,
                }
            },
            Err(_) => false,
        },
        Err(e) => after == Err::<crate::message::ToolResultView, crate::message::ToolError>(e),
    }
}

/// `after` is `before` with each item annotated.
pub open spec fn annotated_message(before: MessageView, after: MessageView, key: Seq<char>, note: Seq<char>) -> bool {
    &&& after.id == before.id
    &&& after.role == before.role
    &&& after.created == before.created
    &&& after.metadata == before.metadata
    &&& after.content.len() == before.content.len()
    &&& forall|j: int|
        0 <= j < before.content.len() ==> annotated(
            #[trigger] before.content[j],
            after.content[j],
            key,
            note,
        )
}

/// The metadata entries whose key is not `key`, and whether some was.
fn without_key(metadata: &Vec<MetadataEntry>, key: &String) -> (r: (Vec<MetadataEntry>, bool))
    ensures
        r.0@ == metadata@.filter(other_key(key@)),
        r.1 == has_key(metadata@, key@),
{
    let mut kept: Vec<MetadataEntry> = Vec::new();
    let mut found = false;
    let mut i: usize = 0;
    while i < metadata.len()
        invariant
            i <= metadata.len(),
            kept@ == metadata@.take(i as int).filter(other_key(key@)),
            found == exists|q: int| 0 <= q < i && (#[trigger] metadata@[q]).key@ == key@,
        decreases metadata.len() - i,
    {
        assert(metadata@.take(i + 1) =~= metadata@.take(i as int).push(metadata@[i as int]));
        proof {
            metadata@.take(i as int).lemma_filter_push(metadata@[i as int], other_key(key@));
        }
        if metadata[i].key == *key {
            found = true;
        } else {
            kept.push(metadata[i].clone());
        }
        i = i + 1;
    }
    assert(metadata@.take(metadata.len() as int) =~= metadata@);
    (kept, found)
}

/// An item once annotated.
fn annotate_item(c: &MessageContent, key: &String, note: &String) -> (r: MessageContent)
    ensures
        annotated(c@, r@, key@, note@),
{
    match c {
        MessageContent::ToolResponse(response) => {
            match &response.metadata {
                Some(md) => {
                    let (kept, found) = without_key(md, key);
                    if !found {
                        return c.clone();
                    }
                    let tool_result = match &response.tool_result {
                        Ok(result) => {
                            let mut content = crate::message::clone_blocks(&result.content);
                            let ghost old_content = content@;
                            content.push(ContentBlock::Text(note.clone()));
                            assert(content@.take(old_content.len() as int) =~= old_content);
                            Ok(
                                ToolResult {
                                    content,
                                    structured_content: result.structured_content.clone(),
                                    meta: result.meta.clone(),
                                    is_error: result.is_error,
                                },
                            )
                        },
                        Err(e) => Err(e.clone()),
                    };
                    MessageContent::ToolResponse(
                        ToolResponse { id: response.id.clone(), tool_result, metadata: Some(kept) },
                    )
                },
                None => c.clone(),
            }
        },
        _ => c.clone(),
    }
}

/// The messages for the provider with every tool response that answers an
/// unclaimed tool (its metadata holds `unclaimed_key`) cleared of that key
/// and, when it holds a result, given the note `note` as a last text block.
pub fn annotate_unclaimed_tool_errors(messages: &Vec<Message>, unclaimed_key: &String, note: &String) -> (r: Vec<Message>)
    ensures
        r.len() == messages.len(),
        forall|i: int|
            0 <= i < messages.len() ==> annotated_message(
                #[trigger] messages@[i]@,
                r@[i]@,
                unclaimed_key@,
                note@,
            ),
{
    let mut out: Vec<Message> = Vec::new();
    let mut i: usize = 0;
    while i < messages.len()
        invariant
            i <= messages.len(),
            out.len() == i,
            forall|q: int|
                0 <= q < i ==> annotated_message(
                    #[trigger] messages@[q]@,
                    out@[q]@,
                    unclaimed_key@,
                    note@,
                ),
        decreases messages.len() - i,
    {
        let m = &messages[i];
        let ghost cv = content_views(m.content@);
        let mut content: Vec<MessageContent> = Vec::new();
        let mut j: usize = 0;
        while j < m.content.len()
            invariant
                j <= m.content.len(),
                cv == content_views(m.content@),
                content.len() == j,
                forall|q: int|
                    0 <= q < j ==> annotated(#[trigger] cv[q], content@[q]@, unclaimed_key@, note@),
            decreases m.content.len() - j,
        {
            assert(cv[j as int] == m.content@[j as int]@);
            let c = annotate_item(&m.content[j], unclaimed_key, note);
            content.push(c);
            j = j + 1;
        }
        let annotated_m = Message {
            id: m.id.clone(),
            role: m.role,
            created: m.created,
            content,
            metadata: m.metadata.clone(),
        };
        assert forall|q: int| 0 <= q < cv.len() implies annotated(
            #[trigger] cv[q],
            annotated_m@.content[q],
            unclaimed_key@,
            note@,
        ) by {
            assert(annotated_m@.content[q] == content@[q]@);
        }
        let ghost before = out@;
        out.push(annotated_m);
        assert forall|q: int| 0 <= q < i + 1 implies annotated_message(
            #[trigger] messages@[q]@,
            out@[q]@,
            unclaimed_key@,
            note@,
        ) by {
            if q < i {
                assert(out@[q] == before[q]);
            }
        }
        i = i + 1;
    }
    out
}

// ---------------------------------------------------------------------------
// Laws

/// Two strictly sorted lists of the same names are the same list.
proof fn lemma_strictly_sorted_unique(a: Seq<Seq<char>>, b: Seq<Seq<char>>)
    requires
        strictly_sorted(a),
        strictly_sorted(b),
        forall|x: Seq<char>| #![trigger a.contains(x)] #![trigger b.contains(x)] a.contains(x) <==> b.contains(x),
    ensures
        a == b,
    decreases a.len(),
{
    if a.len() == 0 {
        if b.len() > 0 {
            assert(b.contains(b[0]));
        }
        assert(a =~= b);
    } else {
        assert(a.contains(a[0]));
        assert(b.len() > 0);
        assert(b.contains(b[0]));
        if a[0] != b[0] {
            lemma_name_before_total(a[0], b[0]);
            if name_before(a[0], b[0]) {
                let j = choose|j: int| 0 <= j < b.len() && b[j] == a[0];
                assert(j != 0);
                assert(name_before(b[0], b[j]));
                lemma_bytes_before_transitive(encode_utf8(a[0]), encode_utf8(b[0]), encode_utf8(a[0]));
                lemma_bytes_before_irreflexive(encode_utf8(a[0]));
            } else {
                let j = choose|j: int| 0 <= j < a.len() && a[j] == b[0];
                assert(j != 0);
                assert(name_before(a[0], a[j]));
                lemma_bytes_before_transitive(encode_utf8(b[0]), encode_utf8(a[0]), encode_utf8(b[0]));
                lemma_bytes_before_irreflexive(encode_utf8(b[0]));
            }
        }
        let ra = a.drop_first();
        let rb = b.drop_first();
        assert(strictly_sorted(ra)) by {
            assert forall|i: int, j: int| 0 <= i < j < ra.len() implies name_before(#[trigger] ra[i], #[trigger] ra[j]) by {
                assert(ra[i] == a[i + 1] && ra[j] == a[j + 1]);
            }
        }
        assert(strictly_sorted(rb)) by {
            assert forall|i: int, j: int| 0 <= i < j < rb.len() implies name_before(#[trigger] rb[i], #[trigger] rb[j]) by {
                assert(rb[i] == b[i + 1] && rb[j] == b[j + 1]);
            }
        }
        assert forall|x: Seq<char>| #[trigger] ra.contains(x) <==> rb.contains(x) by {
            if ra.contains(x) {
                let i = choose|i: int| 0 <= i < ra.len() && ra[i] == x;
                assert(a[i + 1] == x);
                assert(name_before(a[0], a[i + 1]));
                lemma_bytes_before_irreflexive(encode_utf8(x));
                assert(a.contains(x));
                assert(b.contains(x));
                let j = choose|j: int| 0 <= j < b.len() && b[j] == x;
                assert(j != 0);
                assert(rb[j - 1] == x);
            }
            if rb.contains(x) {
                let i = choose|i: int| 0 <= i < rb.len() && rb[i] == x;
                assert(b[i + 1] == x);
                assert(name_before(b[0], b[i + 1]));
                lemma_bytes_before_irreflexive(encode_utf8(x));
                assert(b.contains(x));
                assert(a.contains(x));
                let j = choose|j: int| 0 <= j < a.len() && a[j] == x;
                assert(j != 0);
                assert(ra[j - 1] == x);
            }
        }
        lemma_strictly_sorted_unique(ra, rb);
        assert(a =~= seq![a[0]] + ra);
        assert(b =~= seq![b[0]] + rb);
    }
}

/// Law: the list of available tools depends only on which tools there are:
/// neither their order nor repeats change the note.
pub proof fn lemma_available_tools_note_ignores_order(
    names1: Seq<Seq<char>>,
    names2: Seq<Seq<char>>,
    sorted1: Seq<Seq<char>>,
    sorted2: Seq<Seq<char>>,
)
    requires
        sorted_distinct_of(sorted1, names1),
        sorted_distinct_of(sorted2, names2),
        forall|x: Seq<char>| #[trigger] names1.contains(x) <==> names2.contains(x),
    ensures
        sorted1 == sorted2,
        available_tools_note(sorted1) == available_tools_note(sorted2),
{
    assert forall|x: Seq<char>| #[trigger] sorted1.contains(x) <==> sorted2.contains(x) by {
        assert(sorted1.contains(x) <==> names1.contains(x));
        assert(sorted2.contains(x) <==> names2.contains(x));
    }
    lemma_strictly_sorted_unique(sorted1, sorted2);
}

} // verus!
