//! The conversation model: messages, their content items, and the views the
//! contracts speak of.
use vstd::prelude::*;

verus! {

/// Who wrote a message.
#[derive(PartialEq, Eq, Structural, Clone, Copy, Debug)]
pub enum Role {
    User,
    Assistant,
}

/// A call that the model asked for: the tool's name and its arguments as
/// JSON object text (absent when the model sent none).
#[derive(Debug)]
pub struct ToolCall {
    pub name: String,
    pub arguments: Option<String>,
}

/// An error that a tool call ended with, or that stopped the model's call
/// from being decoded: a JSON-RPC error code, its message, and any further
/// data as JSON text.
#[derive(Debug)]
pub struct ToolError {
    pub code: i32,
    pub message: String,
    pub data: Option<String>,
}

/// A tool request made by the assistant. `tool_call` is `Err` when the
/// model's call could not be decoded; `metadata` is what
/// the provider attached to the call, handed back with its answer.
#[derive(Debug)]
pub struct ToolRequest {
    pub id: String,
    pub tool_call: Result<ToolCall, ToolError>,
    pub metadata: Option<Vec<MetadataEntry>>,
}

/// One block of a tool's result: text, or anything else kept as JSON text.
#[derive(Debug)]
pub enum ContentBlock {
    Text(String),
    Other(String),
}

/// What a tool call returned: its content blocks, its structured content
/// and its `_meta` object (both as JSON text, when present), and whether the
/// tool reported an error.
#[derive(Debug)]
pub struct ToolResult {
    pub content: Vec<ContentBlock>,
    pub structured_content: Option<String>,
    pub meta: Option<String>,
    pub is_error: Option<bool>,
}

/// One entry of a tool response's metadata object: a key and its value as
/// JSON text.
#[derive(Debug)]
pub struct MetadataEntry {
    pub key: String,
    pub value: String,
}

/// The answer to a tool request. `tool_result` is `Err` when the call failed
/// before the tool could answer.
#[derive(Debug)]
pub struct ToolResponse {
    pub id: String,
    pub tool_result: Result<ToolResult, ToolError>,
    pub metadata: Option<Vec<MetadataEntry>>,
}

/// One content item of a message. `Other` stands for every kind of content
/// that the inference logic only carries through (images, notifications,
/// confirmations); it records whether the agent may see it and keeps the
/// item itself as JSON text.
#[derive(Debug)]
pub enum MessageContent {
    Text(String),
    /// The model's thinking, with the signature that providers which replay
    /// thinking check.
    Thinking { thinking: String, signature: String },
    /// Thinking the provider keeps hidden, as its opaque data.
    RedactedThinking(String),
    ToolRequest(ToolRequest),
    ToolResponse(ToolResponse),
    Other { agent_visible: bool, data: String },
}

/// Which provider and model produced an assistant message.
#[derive(Debug)]
pub struct InferenceMetadata {
    pub provider: String,
    pub requested_model: String,
    pub resolved_model: Option<String>,
    pub provider_session_id: Option<String>,
}

/// Flags and annotations that travel with a message.
#[derive(Debug)]
pub struct MessageMetadata {
    pub user_visible: bool,
    pub agent_visible: bool,
    pub output_token_limit_reached: bool,
    pub turn_context: bool,
    pub inference: Option<InferenceMetadata>,
}

/// A message of the conversation.
#[derive(Debug)]
pub struct Message {
    pub id: Option<String>,
    pub role: Role,
    pub created: i64,
    pub content: Vec<MessageContent>,
    pub metadata: MessageMetadata,
}

/// A tool result as the contracts see it.
pub struct ToolResultView {
    pub content: Seq<ContentBlock>,
    pub structured_content: Option<String>,
    pub meta: Option<String>,
    pub is_error: Option<bool>,
}

impl View for ToolResult {
    type V = ToolResultView;

    open spec fn view(&self) -> ToolResultView {
        ToolResultView {
            content: self.content@,
            structured_content: self.structured_content,
            meta: self.meta,
            is_error: self.is_error,
        }
    }
}

/// A tool request as the contracts see it.
pub struct ToolRequestView {
    pub id: String,
    pub tool_call: Result<ToolCall, ToolError>,
    pub metadata: Option<Seq<MetadataEntry>>,
}

impl View for ToolRequest {
    type V = ToolRequestView;

    open spec fn view(&self) -> ToolRequestView {
        ToolRequestView {
            id: self.id,
            tool_call: self.tool_call,
            metadata: match self.metadata {
                Some(m) => Some(m@),
                None => None,
            },
        }
    }
}

/// A tool response as the contracts see it.
pub struct ToolResponseView {
    pub id: String,
    pub tool_result: Result<ToolResultView, ToolError>,
    pub metadata: Option<Seq<MetadataEntry>>,
}

impl View for ToolResponse {
    type V = ToolResponseView;

    open spec fn view(&self) -> ToolResponseView {
        ToolResponseView {
            id: self.id,
            tool_result: match self.tool_result {
                Ok(r) => Ok(r@),
                Err(e) => Err(e),
            },
            metadata: match self.metadata {
                Some(m) => Some(m@),
                None => None,
            },
        }
    }
}

/// A content item as the contracts see it.
pub enum ContentView {
    Text(String),
    Thinking { thinking: String, signature: String },
    RedactedThinking(String),
    ToolRequest(ToolRequestView),
    ToolResponse(ToolResponseView),
    Other { agent_visible: bool, data: String },
}

impl View for MessageContent {
    type V = ContentView;

    open spec fn view(&self) -> ContentView {
        match self {
            MessageContent::Text(t) => ContentView::Text(*t),
            MessageContent::Thinking { thinking, signature } => ContentView::Thinking {
                thinking: *thinking,
                signature: *signature,
            },
            MessageContent::RedactedThinking(t) => ContentView::RedactedThinking(*t),
            MessageContent::ToolRequest(r) => ContentView::ToolRequest(r@),
            MessageContent::ToolResponse(r) => ContentView::ToolResponse(r@),
            MessageContent::Other { agent_visible, data } => ContentView::Other {
                agent_visible: *agent_visible,
                data: *data,
            },
        }
    }
}

/// The views of a sequence of content items.
pub open spec fn content_views(content: Seq<MessageContent>) -> Seq<ContentView> {
    content.map_values(|c: MessageContent| c@)
}

/// A message as the contracts see it.
pub struct MessageView {
    pub id: Option<String>,
    pub role: Role,
    pub created: i64,
    pub content: Seq<ContentView>,
    pub metadata: MessageMetadata,
}

impl View for Message {
    type V = MessageView;

    open spec fn view(&self) -> MessageView {
        MessageView {
            id: self.id,
            role: self.role,
            created: self.created,
            content: content_views(self.content@),
            metadata: self.metadata,
        }
    }
}

/// The views of a sequence of messages.
pub open spec fn views(messages: Seq<Message>) -> Seq<MessageView> {
    messages.map_values(|m: Message| m@)
}

/// An ordered list of messages.
#[derive(Debug)]
pub struct Conversation {
    pub messages: Vec<Message>,
}

impl View for Conversation {
    type V = Seq<MessageView>;

    open spec fn view(&self) -> Seq<MessageView> {
        views(self.messages@)
    }
}

/// The metadata of a new message: visible to the user and to the agent.
pub open spec fn default_metadata() -> MessageMetadata {
    MessageMetadata {
        user_visible: true,
        agent_visible: true,
        output_token_limit_reached: false,
        turn_context: false,
        inference: None,
    }
}

/// A new message of `role`, written at `created` (seconds since the epoch),
/// with `content`, not yet stored.
pub fn new_message(role: Role, created: i64, content: Vec<MessageContent>) -> (m: Message)
    ensures
        m@ == (MessageView {
            id: None,
            role,
            created,
            content: content_views(content@),
            metadata: default_metadata(),
        }),
{
    Message {
        id: None,
        role,
        created,
        content,
        metadata: MessageMetadata {
            user_visible: true,
            agent_visible: true,
            output_token_limit_reached: false,
            turn_context: false,
            inference: None,
        },
    }
}

/// A new message of `role` holding one text.
pub fn text_message(role: Role, created: i64, text: String) -> (m: Message)
    ensures
        m@.id == None::<String>,
        m@.role == role,
        m@.created == created,
        m@.metadata == default_metadata(),
        m@.content.len() == 1,
        m@.content[0] matches ContentView::Text(t) && t@ == text@,
{
    let mut content: Vec<MessageContent> = Vec::new();
    content.push(MessageContent::Text(text));
    new_message(role, created, content)
}

// ---------------------------------------------------------------------------
// Classification of content items
pub open spec fn thinking_content(c: ContentView) -> bool {
    c is Thinking || c is RedactedThinking
}

pub open spec fn tool_request_content(c: ContentView) -> bool {
    c is ToolRequest
}

pub open spec fn tool_response_content(c: ContentView) -> bool {
    c is ToolResponse
}

/// Some item of `content` is a tool request.
pub open spec fn has_tool_request(content: Seq<ContentView>) -> bool {
    exists|i: int| 0 <= i < content.len() && tool_request_content(#[trigger] content[i])
}

/// Some item of `content` is thinking.
pub open spec fn has_thinking(content: Seq<ContentView>) -> bool {
    exists|i: int| 0 <= i < content.len() && thinking_content(#[trigger] content[i])
}

/// Some item of `content` is a tool response.
pub open spec fn has_tool_response(content: Seq<ContentView>) -> bool {
    exists|i: int| 0 <= i < content.len() && tool_response_content(#[trigger] content[i])
}

pub fn is_tool_request(content: &MessageContent) -> (r: bool)
    ensures
        r == tool_request_content(content@),
{
    match content {
        MessageContent::ToolRequest(_) => true,
        _ => false,
    }
}

pub fn is_tool_response(content: &MessageContent) -> (r: bool)
    ensures
        r == tool_response_content(content@),
{
    match content {
        MessageContent::ToolResponse(_) => true,
        _ => false,
    }
}

/// Whether some item of `content` is a tool request.
pub fn contains_tool_request(content: &Vec<MessageContent>) -> (r: bool)
    ensures
        r == has_tool_request(content_views(content@)),
{
    let mut i: usize = 0;
    while i < content.len()
        invariant
            i <= content.len(),
            forall|j: int| 0 <= j < i ==> !tool_request_content(#[trigger] content@[j]@),
        decreases content.len() - i,
    {
        if is_tool_request(&content[i]) {
            assert(content_views(content@)[i as int] == content@[i as int]@);
            return true;
        }
        i = i + 1;
    }
    false
}

/// Whether some item of `content` is a tool response.
pub fn contains_tool_response(content: &Vec<MessageContent>) -> (r: bool)
    ensures
        r == has_tool_response(content_views(content@)),
{
    let mut i: usize = 0;
    while i < content.len()
        invariant
            i <= content.len(),
            forall|j: int| 0 <= j < i ==> !tool_response_content(#[trigger] content@[j]@),
        decreases content.len() - i,
    {
        if is_tool_response(&content[i]) {
            assert(content_views(content@)[i as int] == content@[i as int]@);
            return true;
        }
        i = i + 1;
    }
    false
}

// ---------------------------------------------------------------------------
// Copies
impl Clone for ToolCall {
    fn clone(&self) -> (r: Self)
        ensures
            r == *self,
    {
        ToolCall { name: self.name.clone(), arguments: self.arguments.clone() }
    }
}

impl Clone for ToolError {
    fn clone(&self) -> (r: Self)
        ensures
            r == *self,
    {
        ToolError { code: self.code, message: self.message.clone(), data: self.data.clone() }
    }
}

impl Clone for ToolRequest {
    fn clone(&self) -> (r: Self)
        ensures
            r@ == self@,
    {
        let tool_call = match &self.tool_call {
            Ok(call) => Ok(call.clone()),
            Err(e) => Err(e.clone()),
        };
        let metadata = match &self.metadata {
            Some(m) => Some(clone_entries(m)),
            None => None,
        };
        ToolRequest { id: self.id.clone(), tool_call, metadata }
    }
}

impl Clone for ContentBlock {
    fn clone(&self) -> (r: Self)
        ensures
            r == *self,
    {
        match self {
            ContentBlock::Text(t) => ContentBlock::Text(t.clone()),
            ContentBlock::Other(d) => ContentBlock::Other(d.clone()),
        }
    }
}

/// A copy of a vector whose items' `clone` keeps them equal.
pub fn clone_blocks(v: &Vec<ContentBlock>) -> (r: Vec<ContentBlock>)
    ensures
        r@ == v@,
{
    let mut r: Vec<ContentBlock> = Vec::new();
    let mut i: usize = 0;
    while i < v.len()
        invariant
            i <= v.len(),
            r@ == v@.take(i as int),
        decreases v.len() - i,
    {
        r.push(v[i].clone());
        assert(v@.take(i + 1) =~= v@.take(i as int).push(v@[i as int]));
        i = i + 1;
    }
    assert(v@.take(v.len() as int) =~= v@);
    r
}

impl Clone for ToolResult {
    fn clone(&self) -> (r: Self)
        ensures
            r@ == self@,
    {
        ToolResult {
            content: clone_blocks(&self.content),
            structured_content: self.structured_content.clone(),
            meta: self.meta.clone(),
            is_error: self.is_error,
        }
    }
}

impl Clone for MetadataEntry {
    fn clone(&self) -> (r: Self)
        ensures
            r == *self,
    {
        MetadataEntry { key: self.key.clone(), value: self.value.clone() }
    }
}

pub fn clone_entries(v: &Vec<MetadataEntry>) -> (r: Vec<MetadataEntry>)
    ensures
        r@ == v@,
{
    let mut r: Vec<MetadataEntry> = Vec::new();
    let mut i: usize = 0;
    while i < v.len()
        invariant
            i <= v.len(),
            r@ == v@.take(i as int),
        decreases v.len() - i,
    {
        r.push(v[i].clone());
        assert(v@.take(i + 1) =~= v@.take(i as int).push(v@[i as int]));
        i = i + 1;
    }
    assert(v@.take(v.len() as int) =~= v@);
    r
}

impl Clone for ToolResponse {
    fn clone(&self) -> (r: Self)
        ensures
            r@ == self@,
    {
        let tool_result = match &self.tool_result {
            Ok(result) => Ok(result.clone()),
            Err(e) => Err(e.clone()),
        };
        let metadata = match &self.metadata {
            Some(m) => Some(clone_entries(m)),
            None => None,
        };
        ToolResponse { id: self.id.clone(), tool_result, metadata }
    }
}

impl Clone for MessageContent {
    fn clone(&self) -> (r: Self)
        ensures
            r@ == self@,
    {
        match self {
            MessageContent::Text(t) => MessageContent::Text(t.clone()),
            MessageContent::Thinking { thinking, signature } => MessageContent::Thinking {
                thinking: thinking.clone(),
                signature: signature.clone(),
            },
            MessageContent::RedactedThinking(t) => MessageContent::RedactedThinking(t.clone()),
            MessageContent::ToolRequest(req) => MessageContent::ToolRequest(req.clone()),
            MessageContent::ToolResponse(resp) => MessageContent::ToolResponse(resp.clone()),
            MessageContent::Other { agent_visible, data } => MessageContent::Other {
                agent_visible: *agent_visible,
                data: data.clone(),
            },
        }
    }
}

/// A copy of a list of content items, item by item.
pub fn clone_contents(v: &Vec<MessageContent>) -> (r: Vec<MessageContent>)
    ensures
        content_views(r@) == content_views(v@),
{
    let mut r: Vec<MessageContent> = Vec::new();
    let mut i: usize = 0;
    while i < v.len()
        invariant
            i <= v.len(),
            r@.len() == i,
            content_views(r@) == content_views(v@.take(i as int)),
        decreases v.len() - i,
    {
        let ghost old_r = r@;
        let c = v[i].clone();
        r.push(c);
        assert(r@ == old_r.push(c));
        assert(content_views(r@).len() == content_views(v@.take(i + 1)).len());
        assert forall|k: int| 0 <= k < r@.len() implies #[trigger] content_views(r@)[k] == content_views(v@.take(i + 1))[k] by {
            if k < i {
                assert(content_views(old_r)[k] == content_views(v@.take(i as int))[k]);
            }
        }
        assert(content_views(r@) =~= content_views(v@.take(i + 1)));
        i = i + 1;
    }
    assert(v@.take(v.len() as int) =~= v@);
    r
}

impl Clone for InferenceMetadata {
    fn clone(&self) -> (r: Self)
        ensures
            r == *self,
    {
        InferenceMetadata {
            provider: self.provider.clone(),
            requested_model: self.requested_model.clone(),
            resolved_model: self.resolved_model.clone(),
            provider_session_id: self.provider_session_id.clone(),
        }
    }
}

impl Clone for MessageMetadata {
    fn clone(&self) -> (r: Self)
        ensures
            r == *self,
    {
        let inference = match &self.inference {
            Some(i) => Some(i.clone()),
            None => None,
        };
        MessageMetadata {
            user_visible: self.user_visible,
            agent_visible: self.agent_visible,
            output_token_limit_reached: self.output_token_limit_reached,
            turn_context: self.turn_context,
            inference,
        }
    }
}

impl Clone for Message {
    fn clone(&self) -> (r: Self)
        ensures
            r@ == self@,
    {
        Message {
            id: self.id.clone(),
            role: self.role,
            created: self.created,
            content: clone_contents(&self.content),
            metadata: self.metadata.clone(),
        }
    }
}

} // verus!
