//! The telemetry of a chat request, as the fields of its span.
//!
//! The runner opens a tracing span from [`chat_span`] and writes to it the
//! fields that [`record_chat_usage`] fills in.
use vstd::prelude::*;
use crate::stream::ProviderUsage;

verus! {

/// The fields of the span of one chat request, following the GenAI
/// semantic conventions.
#[derive(Debug)]
pub struct ChatSpan {
    /// `gen_ai.operation.name`
    pub operation_name: String,
    /// `gen_ai.provider.name`
    pub provider_name: String,
    /// `gen_ai.request.model`
    pub request_model: String,
    /// `gen_ai.request.max_tokens`
    pub request_max_tokens: Option<i32>,
    /// `goose.chat.purpose`
    pub purpose: String,
    /// `session.id`
    pub session_id: String,
    /// `gen_ai.response.model`
    pub response_model: Option<String>,
    /// `gen_ai.usage.input_tokens`
    pub input_tokens: Option<i32>,
    /// `gen_ai.usage.output_tokens`
    pub output_tokens: Option<i32>,
}

/// The span of a chat request to `provider_name` for `model_name`, allowed
/// `max_tokens` output tokens when the model configuration sets a limit, in
/// session `session_id`, made for `purpose`. Nothing about the response is
/// known yet. (The sampling temperature, a float, is recorded by the caller.)
pub fn chat_span(
    provider_name: &String,
    model_name: &String,
    max_tokens: Option<i32>,
    session_id: &String,
    purpose: &str,
) -> (s: ChatSpan)
    ensures
        s.operation_name@ == "chat"@,
        s.provider_name@ == provider_name@,
        s.request_model@ == model_name@,
        s.request_max_tokens == max_tokens,
        s.purpose@ == purpose@,
        s.session_id@ == session_id@,
        s.response_model is None,
        s.input_tokens is None,
        s.output_tokens is None,
{
    ChatSpan {
        operation_name: "chat".to_owned(),
        provider_name: provider_name.clone(),
        request_model: model_name.clone(),
        request_max_tokens: max_tokens,
        purpose: purpose.to_owned(),
        session_id: session_id.clone(),
        response_model: None,
        input_tokens: None,
        output_tokens: None,
    }
}

/// Records on the span the usage the provider reported: the model that
/// answered, and each token count that the usage holds; a count it does not
/// hold stays as it was.
pub fn record_chat_usage(span: &mut ChatSpan, usage: &ProviderUsage)
    ensures
        final(span).response_model == Some(usage.model),
        final(span).input_tokens == if usage.usage.input_tokens is Some {
            usage.usage.input_tokens
        } else {
            old(span).input_tokens
        },
        final(span).output_tokens == if usage.usage.output_tokens is Some {
            usage.usage.output_tokens
        } else {
            old(span).output_tokens
        },
        final(span).operation_name == old(span).operation_name,
        final(span).provider_name == old(span).provider_name,
        final(span).request_model == old(span).request_model,
        final(span).request_max_tokens == old(span).request_max_tokens,
        final(span).purpose == old(span).purpose,
        final(span).session_id == old(span).session_id,
{
    span.response_model = Some(usage.model.clone());
    if usage.usage.input_tokens.is_some() {
        span.input_tokens = usage.usage.input_tokens;
    }
    if usage.usage.output_tokens.is_some() {
        span.output_tokens = usage.usage.output_tokens;
    }
}

} // verus!
