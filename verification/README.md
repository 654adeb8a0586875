# ops_llm

The decision logic of an agent's LLM inference operation, verified with
Verus: which messages the provider sees, how streamed chunks fold into the
reply, which tool calls a cancellation answers, and how the session status
report reads.

## Layout

- `src/message.rs`: the conversation model (messages, content items, tool
  requests and responses) and the views that contracts speak of.
- `src/thinking.rs`: moving streamed thinking next to the tool call it led to.
- `src/provider_view.rs`: the conversation as the provider sees it, and
  whether it is the provider's turn.
- `src/cancel.rs`: the error answers a cancellation gives to open tool calls.
- `src/stream.rs`: the per-chunk step of reading the provider's stream.
- `src/reply.rs`: whether the finished reply said nothing, and whether usage
  was reported.
- `src/outcome.rs`: the effects and results the operation hands back.
- `src/status.rs`: the `status` command's report.
- `src/tools.rs`: the note that lists the available tools.
- `src/turn_context.rs`: when a fresh turn-context message is persisted.
- `src/hints.rs`: what a project-hint snapshot is loaded from.
- `src/telemetry.rs`: the fields of a chat request's span.
- `app/`: the async runner around the library (provider, emitter, tracing,
  MCP conversions). It is ordinary Rust and is not verified.

Laws of the library are public proof functions whose names start with
`lemma_` and whose doc comments begin with "Law:".
