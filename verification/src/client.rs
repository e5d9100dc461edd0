//! Conversation messages and the model API: requests, streamed replies, results.

use vstd::prelude::*;

use crate::error;
use crate::error::AgentError;
use crate::json;
use crate::json::Json;
use crate::stream;
use crate::stream::{Delta, StreamState, StreamStep};
use crate::text;
use crate::tools;
use crate::tools::ToolDefinition;

verus! {

/// One block of a message.
pub enum ContentBlock {
    Text { text: String },
    ToolUse { id: String, name: String, input: Json },
    ToolResult { tool_use_id: String, content: String },
}

/// A message of the conversation.
pub struct Message {
    pub role: String,
    pub content: Vec<ContentBlock>,
}

/// The mathematical content of a [`ContentBlock`].
#[verifier::ext_equal]
pub enum BlockView {
    Text { text: Seq<char> },
    ToolUse { id: Seq<char>, name: Seq<char>, input: Seq<char> },
    ToolResult { tool_use_id: Seq<char>, content: Seq<char> },
}

/// The mathematical content of a [`Message`].
#[verifier::ext_equal]
pub struct MessageView {
    pub role: Seq<char>,
    pub content: Seq<BlockView>,
}

impl View for ContentBlock {
    type V = BlockView;

    open spec fn view(&self) -> BlockView {
        match *self {
            ContentBlock::Text { text } => BlockView::Text { text: text@ },
            ContentBlock::ToolUse { id, name, input } => BlockView::ToolUse {
                id: id@,
                name: name@,
                input: input@,
            },
            ContentBlock::ToolResult { tool_use_id, content } => BlockView::ToolResult {
                tool_use_id: tool_use_id@,
                content: content@,
            },
        }
    }
}

/// The contents of a list of blocks.
pub open spec fn blocks(v: Seq<ContentBlock>) -> Seq<BlockView> {
    v.map_values(|b: ContentBlock| b@)
}

impl View for Message {
    type V = MessageView;

    open spec fn view(&self) -> MessageView {
        MessageView { role: self.role@, content: blocks(self.content@) }
    }
}

/// The contents of a conversation.
pub open spec fn messages(v: Seq<Message>) -> Seq<MessageView> {
    v.map_values(|m: Message| m@)
}

/// A message with a single text block.
pub open spec fn text_message(role: Seq<char>, text: Seq<char>) -> MessageView {
    MessageView { role, content: seq![BlockView::Text { text }] }
}

impl Clone for ContentBlock {
    fn clone(&self) -> (r: Self)
        ensures
            r@ == self@,
    {
        match self {
            ContentBlock::Text { text } => ContentBlock::Text { text: text.clone() },
            ContentBlock::ToolUse { id, name, input } => ContentBlock::ToolUse {
                id: id.clone(),
                name: name.clone(),
                input: input.clone(),
            },
            ContentBlock::ToolResult { tool_use_id, content } => ContentBlock::ToolResult {
                tool_use_id: tool_use_id.clone(),
                content: content.clone(),
            },
        }
    }
}

/// Copies a list of blocks.
pub fn copy_blocks(v: &[ContentBlock]) -> (r: Vec<ContentBlock>)
    ensures
        blocks(r@) == blocks(v@),
{
    let mut out: Vec<ContentBlock> = Vec::new();
    let mut i: usize = 0;
    while i < v.len()
        invariant
            i <= v@.len(),
            blocks(out@) == blocks(v@).take(i as int),
        decreases v@.len() - i,
    {
        let ghost before = blocks(out@);
        out.push(v[i].clone());
        assert(blocks(out@) =~= before.push(v@[i as int]@));
        assert(blocks(out@) =~= blocks(v@).take(i + 1));
        i += 1;
    }
    assert(blocks(v@).take(v@.len() as int) =~= blocks(v@));
    out
}

impl Clone for Message {
    fn clone(&self) -> (r: Self)
        ensures
            r@ == self@,
    {
        Message { role: self.role.clone(), content: copy_blocks(&self.content) }
    }
}

/// Copies the messages `from..to`.
pub fn copy_messages(v: &[Message], from: usize, to: usize) -> (r: Vec<Message>)
    requires
        from <= to <= v@.len(),
    ensures
        messages(r@) == messages(v@).subrange(from as int, to as int),
{
    let mut out: Vec<Message> = Vec::new();
    let mut i: usize = from;
    while i < to
        invariant
            from <= i <= to <= v@.len(),
            messages(out@) == messages(v@).subrange(from as int, i as int),
        decreases to - i,
    {
        let ghost before = messages(out@);
        out.push(v[i].clone());
        assert(messages(out@) =~= before.push(v@[i as int]@));
        assert(messages(out@) =~= messages(v@).subrange(from as int, i + 1));
        i += 1;
    }
    out
}

impl Message {
    /// A message of the user with one text block.
    pub fn user_text(text: &str) -> (r: Self)
        ensures
            r@ == text_message("user"@, text@),
    {
        let mut content: Vec<ContentBlock> = Vec::new();
        content.push(ContentBlock::Text { text: text.to_string() });
        assert(blocks(content@) =~= seq![BlockView::Text { text: text@ }]);
        Message { role: "user".to_string(), content }
    }

    /// A message of the assistant with one text block.
    pub fn assistant_text(text: &str) -> (r: Self)
        ensures
            r@ == text_message("assistant"@, text@),
    {
        let mut content: Vec<ContentBlock> = Vec::new();
        content.push(ContentBlock::Text { text: text.to_string() });
        assert(blocks(content@) =~= seq![BlockView::Text { text: text@ }]);
        Message { role: "assistant".to_string(), content }
    }

    /// A message of the assistant with the given blocks.
    pub fn assistant_content(content: Vec<ContentBlock>) -> (r: Self)
        ensures
            r@ == (MessageView { role: "assistant"@, content: blocks(content@) }),
    {
        Message { role: "assistant".to_string(), content }
    }

    /// A message of the user with the given blocks.
    pub fn user_blocks(content: Vec<ContentBlock>) -> (r: Self)
        ensures
            r@ == (MessageView { role: "user"@, content: blocks(content@) }),
    {
        Message { role: "user".to_string(), content }
    }

    /// A builder for a message of several blocks.
    pub fn builder() -> (r: MessageBuilder)
        ensures
            r@ == (MessageView { role: Seq::empty(), content: Seq::empty() }),
    {
        MessageBuilder::new()
    }
}

/// Builds a [`Message`] block by block.
pub struct MessageBuilder {
    role: String,
    content: Vec<ContentBlock>,
}

impl View for MessageBuilder {
    type V = MessageView;

    closed spec fn view(&self) -> MessageView {
        MessageView { role: self.role@, content: blocks(self.content@) }
    }
}

impl MessageBuilder {
    /// A builder with an empty role and no blocks.
    pub fn new() -> (r: Self)
        ensures
            r@ == (MessageView { role: Seq::empty(), content: Seq::empty() }),
    {
        let r = MessageBuilder { role: String::new(), content: Vec::new() };
        assert(blocks(r.content@) =~= Seq::empty());
        r
    }

    /// Sets the role `user`.
    pub fn user(self) -> (r: Self)
        ensures
            r@ == (MessageView { role: "user"@, ..self@ }),
    {
        MessageBuilder { role: "user".to_string(), content: self.content }
    }

    /// Sets the role `assistant`.
    pub fn assistant(self) -> (r: Self)
        ensures
            r@ == (MessageView { role: "assistant"@, ..self@ }),
    {
        MessageBuilder { role: "assistant".to_string(), content: self.content }
    }

    /// Sets the role.
    pub fn role(self, role: &str) -> (r: Self)
        ensures
            r@ == (MessageView { role: role@, ..self@ }),
    {
        MessageBuilder { role: role.to_string(), content: self.content }
    }

    /// Appends a text block.
    pub fn text(self, text: &str) -> (r: Self)
        ensures
            r@ == (MessageView {
                content: self@.content.push(BlockView::Text { text: text@ }),
                ..self@
            }),
    {
        self.block(ContentBlock::Text { text: text.to_string() })
    }

    /// Appends a tool call.
    pub fn tool_use(self, id: &str, name: &str, input: Json) -> (r: Self)
        ensures
            r@ == (MessageView {
                content: self@.content.push(
                    BlockView::ToolUse { id: id@, name: name@, input: input@ },
                ),
                ..self@
            }),
    {
        self.block(ContentBlock::ToolUse { id: id.to_string(), name: name.to_string(), input })
    }

    /// Appends the result of a tool call.
    pub fn tool_result(self, tool_use_id: &str, content: &str) -> (r: Self)
        ensures
            r@ == (MessageView {
                content: self@.content.push(
                    BlockView::ToolResult { tool_use_id: tool_use_id@, content: content@ },
                ),
                ..self@
            }),
    {
        self.block(
            ContentBlock::ToolResult {
                tool_use_id: tool_use_id.to_string(),
                content: content.to_string(),
            },
        )
    }

    /// Appends a block.
    pub fn block(self, block: ContentBlock) -> (r: Self)
        ensures
            r@ == (MessageView { content: self@.content.push(block@), ..self@ }),
    {
        let mut content = self.content;
        let ghost before = blocks(content@);
        content.push(block);
        assert(blocks(content@) =~= before.push(block@));
        MessageBuilder { role: self.role, content }
    }

    /// Replaces all blocks.
    pub fn content(self, blocks: Vec<ContentBlock>) -> (r: Self)
        ensures
            r@ == (MessageView { content: self::blocks(blocks@), ..self@ }),
    {
        MessageBuilder { role: self.role, content: blocks }
    }

    /// The finished message.
    pub fn build(self) -> (r: Message)
        ensures
            r@ == self@,
    {
        Message { role: self.role, content: self.content }
    }
}

impl Default for MessageBuilder {
    fn default() -> (r: Self)
        ensures
            r@ == (MessageView { role: Seq::empty(), content: Seq::empty() }),
    {
        MessageBuilder::new()
    }
}

/// The JSON text of a block: an object tagged by its `type`.
pub open spec fn block_json(b: BlockView) -> Seq<char> {
    match b {
        BlockView::Text { text } => "{\"type\":\"text\",\"text\":"@ + json::json_quoted(text)
            + "}"@,
        BlockView::ToolUse { id, name, input } => "{\"type\":\"tool_use\",\"id\":"@
            + json::json_quoted(id) + ",\"name\":"@ + json::json_quoted(name) + ",\"input\":"@
            + input + "}"@,
        BlockView::ToolResult { tool_use_id, content } =>
            "{\"type\":\"tool_result\",\"tool_use_id\":"@ + json::json_quoted(tool_use_id)
                + ",\"content\":"@ + json::json_quoted(content) + "}"@,
    }
}

/// The JSON text of a message.
pub open spec fn message_json(m: MessageView) -> Seq<char> {
    "{\"role\":"@ + json::json_quoted(m.role) + ",\"content\":["@ + text::joined(
        m.content.map_values(|b: BlockView| block_json(b)),
        ","@,
    ) + "]}"@
}

/// The JSON texts of the messages of a conversation.
pub open spec fn message_lines(ms: Seq<MessageView>) -> Seq<Seq<char>> {
    ms.map_values(|m: MessageView| message_json(m))
}

/// The JSON text of a conversation.
pub open spec fn conversation_json(ms: Seq<MessageView>) -> Seq<char> {
    "["@ + text::joined(message_lines(ms), ","@) + "]"@
}

fn render_block(b: &ContentBlock) -> (r: String)
    ensures
        r@ == block_json(b@),
{
    match b {
        ContentBlock::Text { text } => "{\"type\":\"text\",\"text\":".to_string().concat(
            json::quote(text.as_str()).as_str(),
        ).concat("}"),
        ContentBlock::ToolUse { id, name, input } => "{\"type\":\"tool_use\",\"id\":".to_string().concat(
        json::quote(id.as_str()).as_str()).concat(",\"name\":").concat(
            json::quote(name.as_str()).as_str(),
        ).concat(",\"input\":").concat(input.text.as_str()).concat("}"),
        ContentBlock::ToolResult { tool_use_id, content } =>
            "{\"type\":\"tool_result\",\"tool_use_id\":".to_string().concat(
            json::quote(tool_use_id.as_str()).as_str(),
        ).concat(",\"content\":").concat(json::quote(content.as_str()).as_str()).concat("}"),
    }
}

/// The JSON text of a message.
pub fn render_message(m: &Message) -> (r: String)
    ensures
        r@ == message_json(m@),
{
    let ghost want = m@.content.map_values(|b: BlockView| block_json(b));
    let mut parts: Vec<String> = Vec::new();
    let mut i: usize = 0;
    while i < m.content.len()
        invariant
            i <= m.content@.len(),
            want == m@.content.map_values(|b: BlockView| block_json(b)),
            text::views(parts@) == want.take(i as int),
        decreases m.content@.len() - i,
    {
        let ghost before = text::views(parts@);
        parts.push(render_block(&m.content[i]));
        assert(text::views(parts@) =~= before.push(block_json(m.content@[i as int]@)));
        assert(text::views(parts@) =~= want.take(i + 1));
        i += 1;
    }
    assert(want.take(want.len() as int) =~= want);
    "{\"role\":".to_string().concat(json::quote(m.role.as_str()).as_str()).concat(
        ",\"content\":[",
    ).concat(text::join(&parts, ",").as_str()).concat("]}")
}

/// The JSON text of each message.
pub fn render_lines(ms: &[Message]) -> (r: Vec<String>)
    ensures
        text::views(r@) == message_lines(messages(ms@)),
{
    let ghost want = message_lines(messages(ms@));
    let mut parts: Vec<String> = Vec::new();
    let mut i: usize = 0;
    while i < ms.len()
        invariant
            i <= ms@.len(),
            want == message_lines(messages(ms@)),
            text::views(parts@) == want.take(i as int),
        decreases ms@.len() - i,
    {
        let ghost before = text::views(parts@);
        parts.push(render_message(&ms[i]));
        assert(text::views(parts@) =~= before.push(message_json(ms@[i as int]@)));
        assert(text::views(parts@) =~= want.take(i + 1));
        i += 1;
    }
    assert(want.take(want.len() as int) =~= want);
    parts
}

/// The JSON text of a conversation.
pub fn render_conversation(ms: &[Message]) -> (r: String)
    ensures
        r@ == conversation_json(messages(ms@)),
{
    let parts = render_lines(ms);
    "[".to_string().concat(text::join(&parts, ",").as_str()).concat("]")
}

/// A complete reply of the model.
pub struct MessagesResponse {
    pub content: Vec<ContentBlock>,
    pub stop_reason: String,
}

/// The result of one call of the model.
pub enum CallResult {
    /// The model replied.
    Success(MessagesResponse),
    /// The API refused the prompt as too long; the caller may compact and try again.
    PromptTooLong(AgentError),
    /// Any other error.
    Failure(AgentError),
    /// The call was cancelled.
    Cancelled,
}

impl CallResult {
    /// The reply, or the error of the call.
    pub fn into_response(self) -> (r: Result<MessagesResponse, AgentError>)
        ensures
            match self {
                CallResult::Success(resp) => r == Ok::<MessagesResponse, AgentError>(resp),
                CallResult::PromptTooLong(e) => r == Err::<MessagesResponse, AgentError>(e),
                CallResult::Failure(e) => r == Err::<MessagesResponse, AgentError>(e),
                CallResult::Cancelled => r is Err && r->Err_0@ == error::ErrorView::Stream(
                    "Cancelled"@,
                ),
            },
    {
        match self {
            CallResult::Success(resp) => Ok(resp),
            CallResult::PromptTooLong(e) => Err(e),
            CallResult::Failure(e) => Err(e),
            CallResult::Cancelled => Err(AgentError::Stream("Cancelled".to_string())),
        }
    }

    /// Whether the prompt was refused as too long.
    pub fn is_prompt_too_long(&self) -> (r: bool)
        ensures
            r == (*self is PromptTooLong),
    {
        matches!(self, CallResult::PromptTooLong(_))
    }
}


/// The mathematical content of a [`CallResult`].
#[verifier::ext_equal]
pub enum ResultView {
    Success { content: Seq<BlockView>, stop_reason: Seq<char> },
    PromptTooLong(error::ErrorView),
    Failure(error::ErrorView),
    Cancelled,
}

impl View for CallResult {
    type V = ResultView;

    open spec fn view(&self) -> ResultView {
        match *self {
            CallResult::Success(r) => ResultView::Success {
                content: blocks(r.content@),
                stop_reason: r.stop_reason@,
            },
            CallResult::PromptTooLong(e) => ResultView::PromptTooLong(e@),
            CallResult::Failure(e) => ResultView::Failure(e@),
            CallResult::Cancelled => ResultView::Cancelled,
        }
    }
}

/// The result of a call that ended in an error.
pub open spec fn classified(e: error::ErrorView) -> ResultView {
    if e.prompt_too_long() {
        ResultView::PromptTooLong(e)
    } else {
        ResultView::Failure(e)
    }
}

/// What the connection hands over next.
pub enum StreamEvent {
    /// The user cancelled the call.
    Cancelled,
    /// The data of an event.
    Data(String),
    /// The connection broke.
    Broken(String),
    /// The connection was closed.
    Ended,
}

/// The mathematical content of a [`StreamEvent`].
pub enum EventView {
    Cancelled,
    Data(Seq<char>),
    Broken(Seq<char>),
    Ended,
}

impl View for StreamEvent {
    type V = EventView;

    open spec fn view(&self) -> EventView {
        match *self {
            StreamEvent::Cancelled => EventView::Cancelled,
            StreamEvent::Data(d) => EventView::Data(d@),
            StreamEvent::Broken(m) => EventView::Broken(m@),
            StreamEvent::Ended => EventView::Ended,
        }
    }
}

/// Where a call stands after an event.
pub enum Received {
    /// The reply goes on; show the increment, if there is one.
    Going(StreamState, Option<Delta>),
    /// The call is over.
    Finished(CallResult),
}

/// The mathematical content of [`Received`].
#[verifier::ext_equal]
pub enum ReceivedView {
    Going(stream::StreamView, Option<stream::DeltaView>),
    Finished(ResultView),
}

impl View for Received {
    type V = ReceivedView;

    open spec fn view(&self) -> ReceivedView {
        match *self {
            Received::Going(s, Some(d)) => ReceivedView::Going(s@, Some(d@)),
            Received::Going(s, None) => ReceivedView::Going(s@, None),
            Received::Finished(r) => ReceivedView::Finished(r@),
        }
    }
}

/// The message for a connection that closed before the reply was complete.
pub open spec fn ended_early() -> ResultView {
    classified(error::ErrorView::Stream("stream ended unexpectedly"@))
}

/// Where a call stands after an event.
pub open spec fn received(s: stream::StreamView, ev: EventView) -> ReceivedView {
    match ev {
        EventView::Cancelled => ReceivedView::Finished(ResultView::Cancelled),
        EventView::Broken(m) => ReceivedView::Finished(classified(error::ErrorView::Stream(m))),
        EventView::Ended => ReceivedView::Finished(ended_early()),
        EventView::Data(d) => {
            let (next, step) = stream::after_data(s, d);
            match step {
                stream::StepView::More(delta) => ReceivedView::Going(next, delta),
                stream::StepView::Complete => ReceivedView::Finished(
                    ResultView::Success { content: next.content, stop_reason: next.stop_reason },
                ),
                stream::StepView::Failed(e) => ReceivedView::Finished(classified(e)),
            }
        },
    }
}

/// The contents of a list of events.
pub open spec fn events(v: Seq<StreamEvent>) -> Seq<EventView> {
    v.map_values(|e: StreamEvent| e@)
}

/// The result of a call whose connection hands over `evs` and then closes.
pub open spec fn call_result(s: stream::StreamView, evs: Seq<EventView>) -> ResultView
    decreases evs.len(),
{
    if evs.len() == 0 {
        ended_early()
    } else {
        match received(s, evs[0]) {
            ReceivedView::Going(next, _) => call_result(next, evs.skip(1)),
            ReceivedView::Finished(r) => r,
        }
    }
}

/// The increments that such a call shows, in order.
pub open spec fn call_deltas(s: stream::StreamView, evs: Seq<EventView>) -> Seq<stream::DeltaView>
    decreases evs.len(),
{
    if evs.len() == 0 {
        Seq::empty()
    } else {
        match received(s, evs[0]) {
            ReceivedView::Going(next, Some(d)) => seq![d] + call_deltas(next, evs.skip(1)),
            ReceivedView::Going(next, None) => call_deltas(next, evs.skip(1)),
            ReceivedView::Finished(_) => Seq::empty(),
        }
    }
}

/// The text without the slashes at its end.
pub open spec fn without_slashes(s: Seq<char>) -> Seq<char>
    decreases s.len(),
{
    if s.len() > 0 && s.last() == '/' {
        without_slashes(s.drop_last())
    } else {
        s
    }
}

/// The address that messages are posted to.
pub open spec fn messages_url(base_url: Seq<char>) -> Seq<char> {
    without_slashes(base_url) + "/v1/messages"@
}

/// The JSON text of a tool definition.
pub open spec fn tool_json(t: tools::ToolDefView) -> Seq<char> {
    "{\"name\":"@ + json::json_quoted(t.name) + ",\"description\":"@ + json::json_quoted(
        t.description,
    ) + ",\"input_schema\":"@ + t.input_schema + "}"@
}

/// The JSON body of a request for a streamed reply.
pub open spec fn request_json(
    model: Seq<char>,
    max_tokens: u32,
    system: Seq<char>,
    ms: Seq<MessageView>,
    ts: Seq<tools::ToolDefView>,
) -> Seq<char> {
    "{\"model\":"@ + json::json_quoted(model) + ",\"max_tokens\":"@ + text::decimal(
        max_tokens as nat,
    ) + ",\"stream\":true,\"system\":"@ + json::json_quoted(system) + ",\"messages\":"@
        + conversation_json(ms) + ",\"tools\":["@ + text::joined(
        ts.map_values(|t: tools::ToolDefView| tool_json(t)),
        ","@,
    ) + "]}"@
}

/// The address of the model API and how to identify oneself to it.
pub struct Client {
    pub base_url: String,
    pub api_key: String,
    pub model: String,
}

impl Client {
    /// A client of the API at `base_url`.
    pub fn new(api_key: String, base_url: String, model: String) -> (r: Self)
        ensures
            r.api_key == api_key,
            r.base_url == base_url,
            r.model == model,
    {
        Client { base_url, api_key, model }
    }

    /// The result of a call that ended in `err`.
    pub fn classify_error(&self, err: AgentError) -> (r: CallResult)
        ensures
            r@ == classified(err@),
    {
        if err.is_prompt_too_long() {
            CallResult::PromptTooLong(err)
        } else {
            CallResult::Failure(err)
        }
    }

    /// The address that messages are posted to.
    pub fn endpoint(&self) -> (r: String)
        ensures
            r@ == messages_url(self.base_url@),
    {
        let v = text::to_chars(self.base_url.as_str());
        let mut n: usize = v.len();
        assert(v@.take(n as int) =~= self.base_url@);
        while n > 0 && v[n - 1] == '/'
            invariant
                n <= v@.len(),
                without_slashes(self.base_url@) == without_slashes(v@.take(n as int)),
            decreases n,
        {
            assert(v@.take(n as int).drop_last() =~= v@.take(n - 1));
            n -= 1;
        }
        assert(v@.subrange(0, n as int) =~= v@.take(n as int));
        text::from_chars(&v, 0, n).concat("/v1/messages")
    }

    /// The JSON body of a request.
    pub fn request_body(
        &self,
        system: &str,
        messages: &[Message],
        tools: &[ToolDefinition],
        max_tokens: u32,
    ) -> (r: String)
        ensures
            r@ == request_json(
                self.model@,
                max_tokens,
                system@,
                self::messages(messages@),
                tools::definitions(tools@),
            ),
    {
        let ghost want = tools::definitions(tools@).map_values(
            |t: tools::ToolDefView| tool_json(t),
        );
        let mut parts: Vec<String> = Vec::new();
        let mut i: usize = 0;
        while i < tools.len()
            invariant
                i <= tools@.len(),
                want == tools::definitions(tools@).map_values(
                    |t: tools::ToolDefView| tool_json(t),
                ),
                text::views(parts@) == want.take(i as int),
            decreases tools@.len() - i,
        {
            let ghost before = text::views(parts@);
            let t = &tools[i];
            parts.push(
                "{\"name\":".to_string().concat(json::quote(t.name.as_str()).as_str()).concat(
                    ",\"description\":",
                ).concat(json::quote(t.description.as_str()).as_str()).concat(
                    ",\"input_schema\":",
                ).concat(t.input_schema.text.as_str()).concat("}"),
            );
            assert(text::views(parts@) =~= before.push(tool_json(tools@[i as int]@)));
            assert(text::views(parts@) =~= want.take(i + 1));
            i += 1;
        }
        assert(want.take(want.len() as int) =~= want);
        "{\"model\":".to_string().concat(json::quote(self.model.as_str()).as_str()).concat(
            ",\"max_tokens\":",
        ).concat(text::number_text(max_tokens as u64).as_str()).concat(
            ",\"stream\":true,\"system\":",
        ).concat(json::quote(system).as_str()).concat(",\"messages\":").concat(
            render_conversation(messages).as_str(),
        ).concat(",\"tools\":[").concat(text::join(&parts, ",").as_str()).concat("]}")
    }

    /// The result of a call that the API answered with the status `status`, which is
    /// no success. The body of the answer is kept: it holds the actual reason.
    pub fn http_failure(&self, status: u16, body: &str) -> (r: CallResult)
        ensures
            r@ == classified(
                error::ErrorView::Api { status, body: self.base_url@ + " — "@ + body@ },
            ),
    {
        self.classify_error(
            AgentError::Api { status, body: self.base_url.clone().concat(" — ").concat(body) },
        )
    }

    /// Takes one event of a streamed reply.
    pub fn receive(&self, state: StreamState, event: StreamEvent) -> (r: Received)
        ensures
            r@ == received(state@, event@),
    {
        match event {
            StreamEvent::Cancelled => Received::Finished(CallResult::Cancelled),
            StreamEvent::Broken(m) => Received::Finished(
                self.classify_error(AgentError::Stream(m)),
            ),
            StreamEvent::Ended => Received::Finished(
                self.classify_error(AgentError::Stream("stream ended unexpectedly".to_string())),
            ),
            StreamEvent::Data(d) => {
                let mut s = state;
                match s.feed(d.as_str()) {
                    StreamStep::More(delta) => Received::Going(s, delta),
                    StreamStep::Complete => Received::Finished(s.finish()),
                    StreamStep::Failed(e) => Received::Finished(self.classify_error(e)),
                }
            },
        }
    }

    /// The result of a call whose connection hands over these events and then closes.
    /// The increments go to `sink`.
    pub fn stream_messages(&self, events: Vec<StreamEvent>, sink: &mut Vec<Delta>) -> (r:
        CallResult)
        ensures
            r@ == call_result(stream::fresh(), self::events(events@)),
            stream::deltas(final(sink)@) == stream::deltas(old(sink)@) + call_deltas(
                stream::fresh(),
                self::events(events@),
            ),
    {
        let ghost evs = self::events(events@);
        let ghost shown = stream::deltas(sink@);
        let mut state = StreamState::new();
        let n: usize = events.len();
        let mut rest = events;
        let mut i: usize = 0;
        let ghost all = call_deltas(stream::fresh(), evs);
        assert(evs.skip(0) =~= evs);
        assert(shown + all =~= stream::deltas(sink@) + call_deltas(state@, evs.skip(0)));
        while i < n
            invariant
                i <= n,
                n == evs.len(),
                evs == self::events(events@),
                shown == stream::deltas(old(sink)@),
                all == call_deltas(stream::fresh(), evs),
                self::events(rest@) == evs.skip(i as int),
                call_result(stream::fresh(), evs) == call_result(state@, evs.skip(i as int)),
                shown + all == stream::deltas(sink@) + call_deltas(state@, evs.skip(i as int)),
            decreases n - i,
        {
            let ghost left = evs.skip(i as int);
            let ghost was = stream::deltas(sink@);
            assert(rest@.len() == left.len());
            assert(self::events(rest@)[0] == rest@[0]@);
            let ev = rest.remove(0);
            assert(self::events(rest@) =~= left.skip(1));
            assert(left.skip(1) =~= evs.skip(i + 1));
            match self.receive(state, ev) {
                Received::Going(next, Some(d)) => {
                    sink.push(d);
                    assert(stream::deltas(sink@) =~= was.push(d@));
                    assert(was + (seq![d@] + call_deltas(next@, evs.skip(i + 1))) =~= was.push(d@)
                        + call_deltas(next@, evs.skip(i + 1)));
                    state = next;
                },
                Received::Going(next, None) => {
                    state = next;
                },
                Received::Finished(r) => {
                    assert(call_deltas(state@, left) == Seq::<stream::DeltaView>::empty());
                    assert(was + Seq::<stream::DeltaView>::empty() =~= was);
                    return r;
                },
            }
            i += 1;
        }
        assert(call_deltas(state@, evs.skip(n as int)) == Seq::<stream::DeltaView>::empty());
        assert(stream::deltas(sink@) + Seq::<stream::DeltaView>::empty() =~= stream::deltas(sink@));
        self.classify_error(AgentError::Stream("stream ended unexpectedly".to_string()))
    }
}

} // verus!
