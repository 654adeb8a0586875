//! Which project hints the system prompt is built with.
//!
//! The hints of a project are read from hint files: the one at the top of
//! the working directory, and those of the subdirectories that the turn's
//! tool calls touched. The tool calls are read back from the conversation,
//! so that the snapshot of hints does not depend on which process ran them.
//! Reading the files is the caller's; what to read is decided here.
use vstd::prelude::*;
use crate::cancel::{content_requests, requests_in};
use crate::message::{content_views, Conversation, MessageContent, ToolRequestView};

verus! {

broadcast use vstd::seq_lib::group_seq_properties;

/// What a hint snapshot is loaded from: the arguments of every decoded tool
/// call of the conversation, in order (`None` for a call without
/// arguments), to be recorded in a subdirectory hint tracker before it loads
/// the snapshot, and the bytes of output the caller keeps for itself.
#[derive(Debug)]
pub struct HintPlan {
    pub tool_arguments: Vec<Option<String>>,
    pub reserved_output_bytes: usize,
}

/// Selects decoded tool calls.
pub open spec fn is_decoded() -> spec_fn(ToolRequestView) -> bool {
    |r: ToolRequestView| r.tool_call is Ok
}

/// The arguments of the decoded tool calls among `requests`, in order.
pub open spec fn call_arguments(requests: Seq<ToolRequestView>) -> Seq<Option<String>> {
    requests.filter(is_decoded()).map_values(|r: ToolRequestView| r.tool_call->Ok_0.arguments)
}

/// What to load the hint snapshot of `conversation` from. The caller records
/// each argument in a fresh tracker, then has it load the snapshot from the
/// working directory; a caller that needs to act between the reads (once the
/// top-level hints are read) does so in that load, which the plan does not
/// take part in.
pub fn reconstructed_hint_snapshot_with_hook(conversation: &Conversation, reserved_output_bytes: usize) -> (r: HintPlan)
    ensures
        r.tool_arguments@ == call_arguments(requests_in(conversation@)),
        r.reserved_output_bytes == reserved_output_bytes,
{
    let ghost ms = conversation@;
    let mut arguments: Vec<Option<String>> = Vec::new();
    let mut i: usize = 0;
    while i < conversation.messages.len()
        invariant
            i <= conversation.messages.len(),
            ms == conversation@,
            arguments@ == call_arguments(requests_in(ms.take(i as int))),
        decreases conversation.messages.len() - i,
    {
        let content = &conversation.messages[i].content;
        let ghost cv = content_views(content@);
        assert(ms[i as int].content == cv);
        assert(ms.take(i + 1).drop_last() =~= ms.take(i as int));
        let ghost prefix = requests_in(ms.take(i as int));
        let mut j: usize = 0;
        while j < content.len()
            invariant
                j <= content.len(),
                cv == content_views(content@),
                arguments@ == call_arguments(prefix + content_requests(cv.take(j as int))),
            decreases content.len() - j,
        {
            let ghost before = prefix + content_requests(cv.take(j as int));
            assert(cv.take(j + 1).drop_last() =~= cv.take(j as int));
            assert(cv[j as int] == content@[j as int]@);
            match &content[j] {
                MessageContent::ToolRequest(request) => {
                    let ghost after = before.push(request@);
                    assert(prefix + content_requests(cv.take(j + 1)) =~= after);
                    proof {
                        before.lemma_filter_push(request@, is_decoded());
                    }
                    match &request.tool_call {
                        Ok(call) => {
                            arguments.push(call.arguments.clone());
                            assert(call_arguments(after) =~= call_arguments(before).push(
                                call.arguments,
                            ));
                        },
                        Err(_) => {
                            assert(call_arguments(after) =~= call_arguments(before));
                        },
                    }
                },
                _ => {
                    assert(prefix + content_requests(cv.take(j + 1)) =~= before);
                },
            }
            j = j + 1;
        }
        assert(cv.take(content.len() as int) =~= cv);
        assert(prefix + content_requests(cv) =~= requests_in(ms.take(i + 1)));
        i = i + 1;
    }
    assert(ms.take(conversation.messages.len() as int) =~= ms);
    HintPlan { tool_arguments: arguments, reserved_output_bytes }
}

/// What to load the hint snapshot of `conversation` from, when nothing is to
/// run between the reads.
pub fn reconstructed_hint_snapshot(conversation: &Conversation, reserved_output_bytes: usize) -> (r: HintPlan)
    ensures
        r.tool_arguments@ == call_arguments(requests_in(conversation@)),
        r.reserved_output_bytes == reserved_output_bytes,
{
    reconstructed_hint_snapshot_with_hook(conversation, reserved_output_bytes)
}

} // verus!
