//! The decision logic of the LLM inference operation of an agent state
//! machine: which messages reach the provider, how streamed chunks are folded
//! into the assistant's reply, which tool calls a cancellation answers, and
//! how the session status report is worded.
//!
//! Everything here works on plain values; the async runner that talks to the
//! provider, the tracing spans and the file system stands outside.
pub mod message;
pub mod thinking;
pub mod provider_view;
pub mod cancel;
pub mod stream;
pub mod reply;
pub mod outcome;
pub mod status;
pub mod hints;
pub mod telemetry;
pub mod tools;
pub mod turn_context;
