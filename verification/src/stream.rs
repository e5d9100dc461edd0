//! Accumulating a streamed reply of the model.
//!
//! The reply arrives as a sequence of JSON events. [`StreamState`] takes them one by
//! one; the caller reads the connection and forwards the increments to the screen.

use vstd::prelude::*;

use crate::client;
use crate::client::{CallResult, ContentBlock, MessagesResponse};
use crate::error;
use crate::error::AgentError;
use crate::json;
use crate::json::{Json, JsonNode};
use crate::text;

verus! {

/// The block that is being received.
pub enum BlockAcc {
    Text(String),
    ToolUse { id: String, name: String, partial_json: String },
}

/// The mathematical content of a [`BlockAcc`].
#[verifier::ext_equal]
pub enum AccView {
    Text(Seq<char>),
    ToolUse { id: Seq<char>, name: Seq<char>, partial_json: Seq<char> },
}

impl View for BlockAcc {
    type V = AccView;

    open spec fn view(&self) -> AccView {
        match *self {
            BlockAcc::Text(t) => AccView::Text(t@),
            BlockAcc::ToolUse { id, name, partial_json } => AccView::ToolUse {
                id: id@,
                name: name@,
                partial_json: partial_json@,
            },
        }
    }
}

/// An increment of the reply, for display.
pub enum Delta {
    Text(String),
    ToolUseStart { id: String, name: String, input: Json },
}

/// The mathematical content of a [`Delta`].
#[verifier::ext_equal]
pub enum DeltaView {
    Text(Seq<char>),
    ToolUseStart { id: Seq<char>, name: Seq<char>, input: Seq<char> },
}

impl View for Delta {
    type V = DeltaView;

    open spec fn view(&self) -> DeltaView {
        match *self {
            Delta::Text(t) => DeltaView::Text(t@),
            Delta::ToolUseStart { id, name, input } => DeltaView::ToolUseStart {
                id: id@,
                name: name@,
                input: input@,
            },
        }
    }
}

/// The contents of a list of increments.
pub open spec fn deltas(v: Seq<Delta>) -> Seq<DeltaView> {
    v.map_values(|d: Delta| d@)
}

/// What has been received of a reply.
pub struct StreamState {
    pub content: Vec<ContentBlock>,
    pub stop_reason: String,
    pub current: Option<BlockAcc>,
    pub input_tokens: Option<u64>,
    pub output_tokens: Option<u64>,
}

/// The mathematical content of a [`StreamState`].
#[verifier::ext_equal]
pub struct StreamView {
    pub content: Seq<client::BlockView>,
    pub stop_reason: Seq<char>,
    pub current: Option<AccView>,
    pub input_tokens: Option<u64>,
    pub output_tokens: Option<u64>,
}

impl View for StreamState {
    type V = StreamView;

    open spec fn view(&self) -> StreamView {
        StreamView {
            content: client::blocks(self.content@),
            stop_reason: self.stop_reason@,
            current: match self.current {
                Some(acc) => Some(acc@),
                None => None,
            },
            input_tokens: self.input_tokens,
            output_tokens: self.output_tokens,
        }
    }
}

/// What one event asks of the reader of the stream.
pub enum StreamStep {
    /// Read on; show the increment, if there is one.
    More(Option<Delta>),
    /// The reply is complete.
    Complete,
    /// The stream reported an error.
    Failed(AgentError),
}

/// The mathematical content of a [`StreamStep`].
#[verifier::ext_equal]
pub enum StepView {
    More(Option<DeltaView>),
    Complete,
    Failed(error::ErrorView),
}

impl View for StreamStep {
    type V = StepView;

    open spec fn view(&self) -> StepView {
        match *self {
            StreamStep::More(Some(d)) => StepView::More(Some(d@)),
            StreamStep::More(None) => StepView::More(None),
            StreamStep::Complete => StepView::Complete,
            StreamStep::Failed(e) => StepView::Failed(e@),
        }
    }
}

/// The reply before the first event. The stop reason starts as a marker that no API
/// sends, so that a reply that never named one can be told apart.
pub open spec fn fresh() -> StreamView {
    StreamView {
        content: Seq::empty(),
        stop_reason: "unknown"@,
        current: None,
        input_tokens: None,
        output_tokens: None,
    }
}

/// The member `key`, or `null` where there is none.
pub open spec fn child_or_null(ev: json::JsonView, key: Seq<char>) -> json::JsonView {
    match ev.child(key) {
        Some(v) => v,
        None => json::JsonView::Null,
    }
}

/// The string two levels down.
pub open spec fn nested_str(ev: json::JsonView, outer: Seq<char>, inner: Seq<char>) -> Option<
    Seq<char>,
> {
    match ev.child(outer) {
        Some(v) => v.str_member(inner),
        None => None,
    }
}

/// The block that a `content_block_start` event opens, if its type is known.
pub open spec fn opened_block(ev: json::JsonView) -> Option<AccView> {
    let cb = child_or_null(ev, "content_block"@);
    if cb.str_or_empty("type"@) == "text"@ {
        Some(AccView::Text(Seq::empty()))
    } else if cb.str_or_empty("type"@) == "tool_use"@ {
        Some(
            AccView::ToolUse {
                id: cb.str_or_empty("id"@),
                name: cb.str_or_empty("name"@),
                partial_json: Seq::empty(),
            },
        )
    } else {
        None
    }
}

/// The open block after a `content_block_delta` event, and what to show of it.
pub open spec fn extended_block(acc: AccView, ev: json::JsonView) -> (AccView, Option<DeltaView>) {
    let d = child_or_null(ev, "delta"@);
    match acc {
        AccView::Text(t) => if d.str_or_empty("type"@) == "text_delta"@ {
            (
                AccView::Text(t + d.str_or_empty("text"@)),
                Some(DeltaView::Text(d.str_or_empty("text"@))),
            )
        } else {
            (acc, None)
        },
        AccView::ToolUse { id, name, partial_json } => if d.str_or_empty("type"@)
            == "input_json_delta"@ {
            (
                AccView::ToolUse {
                    id,
                    name,
                    partial_json: partial_json + d.str_or_empty("partial_json"@),
                },
                None,
            )
        } else {
            (acc, None)
        },
    }
}

/// The input of a tool call whose JSON fragments have been put together.
pub open spec fn tool_input(partial_json: Seq<char>) -> Seq<char> {
    if partial_json.len() == 0 {
        "null"@
    } else {
        json::json_or_null(partial_json)
    }
}

/// The finished block that a `content_block_stop` event makes of the open one, and what
/// to show of it.
pub open spec fn closed_block(acc: AccView) -> (client::BlockView, Option<DeltaView>) {
    match acc {
        AccView::Text(text) => (client::BlockView::Text { text }, None),
        AccView::ToolUse { id, name, partial_json } => (
            client::BlockView::ToolUse { id, name, input: tool_input(partial_json) },
            Some(DeltaView::ToolUseStart { id, name, input: tool_input(partial_json) }),
        ),
    }
}

pub open spec fn prefer(new: Option<u64>, old: Option<u64>) -> Option<u64> {
    match new {
        Some(n) => Some(n),
        None => old,
    }
}

pub open spec fn usage_count(usage: Option<json::JsonView>, key: Seq<char>) -> Option<u64> {
    match usage {
        Some(u) => u.u64_member(key),
        None => None,
    }
}

/// The state and the step that an event leads to.
pub open spec fn after_event(s: StreamView, ev: json::JsonView) -> (StreamView, StepView) {
    let kind = ev.str_or_empty("type"@);
    if kind == "content_block_start"@ {
        match opened_block(ev) {
            Some(acc) => (StreamView { current: Some(acc), ..s }, StepView::More(None)),
            None => (s, StepView::More(None)),
        }
    } else if kind == "content_block_delta"@ {
        match s.current {
            Some(acc) => (
                StreamView { current: Some(extended_block(acc, ev).0), ..s },
                StepView::More(extended_block(acc, ev).1),
            ),
            None => (s, StepView::More(None)),
        }
    } else if kind == "content_block_stop"@ {
        match s.current {
            Some(acc) => (
                StreamView { content: s.content.push(closed_block(acc).0), current: None, ..s },
                StepView::More(closed_block(acc).1),
            ),
            None => (s, StepView::More(None)),
        }
    } else if kind == "message_delta"@ {
        (
            StreamView {
                stop_reason: match nested_str(ev, "delta"@, "stop_reason"@) {
                    Some(r) => r,
                    None => s.stop_reason,
                },
                output_tokens: prefer(
                    usage_count(ev.child("usage"@), "output_tokens"@),
                    s.output_tokens,
                ),
                ..s
            },
            StepView::More(None),
        )
    } else if kind == "message_start"@ {
        let usage = match ev.child("message"@) {
            Some(m) => m.child("usage"@),
            None => None,
        };
        (
            StreamView {
                input_tokens: prefer(usage_count(usage, "input_tokens"@), s.input_tokens),
                output_tokens: prefer(usage_count(usage, "output_tokens"@), s.output_tokens),
                ..s
            },
            StepView::More(None),
        )
    } else if kind == "message_stop"@ {
        (s, StepView::Complete)
    } else if kind == "error"@ {
        (
            s,
            StepView::Failed(
                error::ErrorView::Stream(
                    match nested_str(ev, "error"@, "message"@) {
                        Some(m) => m,
                        None => "stream error"@,
                    },
                ),
            ),
        )
    } else {
        (s, StepView::More(None))
    }
}

/// The message for an event that is not JSON.
pub open spec fn bad_event(error: Seq<char>, raw: Seq<char>) -> Seq<char> {
    "SSE JSON parse error: "@ + error + " (raw: "@ + raw + ")"@
}

/// The state and the step that the data of an event leads to.
pub open spec fn after_data(s: StreamView, data: Seq<char>) -> (StreamView, StepView) {
    match json::json_value(data) {
        Ok(ev) => after_event(s, ev),
        Err(e) => (s, StepView::Failed(error::ErrorView::InvalidResponse(bad_event(e, data)))),
    }
}

fn or_null(ev: &JsonNode, key: &str) -> (r: JsonNode)
    ensures
        r@ == child_or_null(ev@, key@),
{
    match ev.child(key) {
        Some(v) => v,
        None => JsonNode::Null,
    }
}

fn open_block(ev: &JsonNode) -> (r: Option<BlockAcc>)
    ensures
        opened_block(ev@) == (match r {
            Some(a) => Some(a@),
            None => None::<AccView>,
        }),
{
    let cb = or_null(ev, "content_block");
    let kind = cb.str_or_empty("type");
    if text::same(kind.as_str(), "text") {
        let t = String::new();
        assert(t@ =~= Seq::<char>::empty());
        Some(BlockAcc::Text(t))
    } else if text::same(kind.as_str(), "tool_use") {
        let t = String::new();
        assert(t@ =~= Seq::<char>::empty());
        Some(
            BlockAcc::ToolUse {
                id: cb.str_or_empty("id"),
                name: cb.str_or_empty("name"),
                partial_json: t,
            },
        )
    } else {
        None
    }
}

fn extend_block(acc: BlockAcc, ev: &JsonNode) -> (r: (BlockAcc, Option<Delta>))
    ensures
        r.0@ == extended_block(acc@, ev@).0,
        extended_block(acc@, ev@).1 == (match r.1 {
            Some(d) => Some(d@),
            None => None::<DeltaView>,
        }),
{
    let d = or_null(ev, "delta");
    let kind = d.str_or_empty("type");
    match acc {
        BlockAcc::Text(mut t) => {
            if text::same(kind.as_str(), "text_delta") {
                let more = d.str_or_empty("text");
                t.push_str(more.as_str());
                (BlockAcc::Text(t), Some(Delta::Text(more)))
            } else {
                (BlockAcc::Text(t), None)
            }
        },
        BlockAcc::ToolUse { id, name, mut partial_json } => {
            if text::same(kind.as_str(), "input_json_delta") {
                partial_json.push_str(d.str_or_empty("partial_json").as_str());
            }
            (BlockAcc::ToolUse { id, name, partial_json }, None)
        },
    }
}

fn close_block(acc: BlockAcc) -> (r: (ContentBlock, Option<Delta>))
    ensures
        r.0@ == closed_block(acc@).0,
        closed_block(acc@).1 == (match r.1 {
            Some(d) => Some(d@),
            None => None::<DeltaView>,
        }),
{
    match acc {
        BlockAcc::Text(t) => (ContentBlock::Text { text: t }, None),
        BlockAcc::ToolUse { id, name, partial_json } => {
            let input = if partial_json.as_str().is_empty() {
                Json::null()
            } else {
                Json::from_text(partial_json.as_str())
            };
            let d = Delta::ToolUseStart {
                id: id.clone(),
                name: name.clone(),
                input: input.clone(),
            };
            (ContentBlock::ToolUse { id, name, input }, Some(d))
        },
    }
}

fn nested(ev: &JsonNode, outer: &str, inner: &str) -> (r: Option<String>)
    ensures
        nested_str(ev@, outer@, inner@) == (match r {
            Some(s) => Some(s@),
            None => None::<Seq<char>>,
        }),
{
    match ev.child(outer) {
        Some(v) => v.str_member(inner),
        None => None,
    }
}

impl StreamState {
    /// The reply before the first event.
    pub fn new() -> (r: Self)
        ensures
            r@ == fresh(),
    {
        let r = StreamState {
            content: Vec::new(),
            stop_reason: "unknown".to_string(),
            current: None,
            input_tokens: None,
            output_tokens: None,
        };
        assert(r@.content =~= Seq::empty());
        r
    }

    /// Takes one decoded event.
    pub fn apply(&mut self, ev: &JsonNode) -> (r: StreamStep)
        ensures
            (final(self)@, r@) == after_event(old(self)@, ev@),
    {
        let ghost s = self@;
        let kind = ev.str_or_empty("type");
        let k = kind.as_str();
        if text::same(k, "content_block_start") {
            match open_block(ev) {
                Some(acc) => {
                    self.current = Some(acc);
                },
                None => {},
            }
            StreamStep::More(None)
        } else if text::same(k, "content_block_delta") {
            match self.current.take() {
                Some(acc) => {
                    let (next, shown) = extend_block(acc, ev);
                    self.current = Some(next);
                    StreamStep::More(shown)
                },
                None => StreamStep::More(None),
            }
        } else if text::same(k, "content_block_stop") {
            match self.current.take() {
                Some(acc) => {
                    let (block, shown) = close_block(acc);
                    self.content.push(block);
                    assert(client::blocks(self.content@) =~= s.content.push(block@));
                    StreamStep::More(shown)
                },
                None => StreamStep::More(None),
            }
        } else if text::same(k, "message_delta") {
            if let Some(reason) = nested(ev, "delta", "stop_reason") {
                self.stop_reason = reason;
            }
            if let Some(usage) = ev.child("usage") {
                if let Some(n) = usage.u64_member("output_tokens") {
                    self.output_tokens = Some(n);
                }
            }
            StreamStep::More(None)
        } else if text::same(k, "message_start") {
            if let Some(message) = ev.child("message") {
                if let Some(usage) = message.child("usage") {
                    if let Some(n) = usage.u64_member("input_tokens") {
                        self.input_tokens = Some(n);
                    }
                    if let Some(n) = usage.u64_member("output_tokens") {
                        self.output_tokens = Some(n);
                    }
                }
            }
            StreamStep::More(None)
        } else if text::same(k, "message_stop") {
            StreamStep::Complete
        } else if text::same(k, "error") {
            let message = match nested(ev, "error", "message") {
                Some(m) => m,
                None => "stream error".to_string(),
            };
            StreamStep::Failed(AgentError::Stream(message))
        } else {
            StreamStep::More(None)
        }
    }

    /// Takes the data of one event.
    pub fn feed(&mut self, data: &str) -> (r: StreamStep)
        ensures
            (final(self)@, r@) == after_data(old(self)@, data@),
    {
        match json::parse(data) {
            Ok(ev) => self.apply(&ev),
            Err(e) => StreamStep::Failed(
                AgentError::InvalidResponse(
                    "SSE JSON parse error: ".to_string().concat(e.as_str()).concat(
                        " (raw: ",
                    ).concat(data).concat(")"),
                ),
            ),
        }
    }

    /// The complete reply.
    pub fn finish(self) -> (r: CallResult)
        ensures
            r is Success,
            client::blocks(r->Success_0.content@) == self@.content,
            r->Success_0.stop_reason@ == self@.stop_reason,
    {
        CallResult::Success(
            MessagesResponse { content: self.content, stop_reason: self.stop_reason },
        )
    }
}


/// The state after a sequence of events.
pub open spec fn run(s: StreamView, evs: Seq<json::JsonView>) -> StreamView
    decreases evs.len(),
{
    if evs.len() == 0 {
        s
    } else {
        after_event(run(s, evs.drop_last()), evs.last()).0
    }
}

/// A `content_block_delta` event whose delta is of the given type.
pub open spec fn is_delta(ev: json::JsonView, kind: Seq<char>) -> bool {
    &&& ev.str_or_empty("type"@) == "content_block_delta"@
    &&& child_or_null(ev, "delta"@).str_or_empty("type"@) == kind
}

/// The parts that the deltas of a block carry in the member `key`, put together.
pub open spec fn assembled(evs: Seq<json::JsonView>, key: Seq<char>) -> Seq<char>
    decreases evs.len(),
{
    if evs.len() == 0 {
        Seq::empty()
    } else {
        assembled(evs.drop_last(), key) + child_or_null(evs.last(), "delta"@).str_or_empty(key)
    }
}

proof fn event_kinds_differ()
    ensures
        "content_block_delta"@ != "content_block_start"@,
        "content_block_stop"@ != "content_block_start"@,
        "content_block_stop"@ != "content_block_delta"@,
{
    reveal_strlit("content_block_start");
    reveal_strlit("content_block_delta");
    reveal_strlit("content_block_stop");
    assert("content_block_delta"@[14] == 'd');
    assert("content_block_start"@[14] == 's');
    assert("content_block_stop"@.len() == 18);
    assert("content_block_start"@.len() == 19);
}

/// Text deltas extend an open text block, in order, and change nothing else; closing it
/// appends the block with the whole text to the reply.
pub proof fn law_text_block(s: StreamView, t: Seq<char>, evs: Seq<json::JsonView>, stop: json::JsonView)
    requires
        s.current == Some(AccView::Text(t)),
        forall|i: int| 0 <= i < evs.len() ==> is_delta(#[trigger] evs[i], "text_delta"@),
        stop.str_or_empty("type"@) == "content_block_stop"@,
    ensures
        run(s, evs) == (StreamView {
            current: Some(AccView::Text(t + assembled(evs, "text"@))),
            ..s
        }),
        after_event(run(s, evs), stop).0 == (StreamView {
            content: s.content.push(
                client::BlockView::Text { text: t + assembled(evs, "text"@) },
            ),
            current: None,
            ..s
        }),
    decreases evs.len(),
{
    event_kinds_differ();
    if evs.len() == 0 {
        assert(t + assembled(evs, "text"@) =~= t);
    } else {
        assert(forall|i: int|
            0 <= i < evs.drop_last().len() ==> evs.drop_last()[i] == #[trigger] evs[i]);
        law_text_block(s, t, evs.drop_last(), stop);
        assert(is_delta(evs.last(), "text_delta"@));
        assert((t + assembled(evs.drop_last(), "text"@)) + child_or_null(
            evs.last(),
            "delta"@,
        ).str_or_empty("text"@) =~= t + assembled(evs, "text"@));
    }
}

/// JSON deltas extend an open tool call, in order, and change nothing else; closing it
/// appends the call with the input that the whole text stands for.
pub proof fn law_tool_block(
    s: StreamView,
    id: Seq<char>,
    name: Seq<char>,
    p: Seq<char>,
    evs: Seq<json::JsonView>,
    stop: json::JsonView,
)
    requires
        s.current == Some(AccView::ToolUse { id, name, partial_json: p }),
        forall|i: int| 0 <= i < evs.len() ==> is_delta(#[trigger] evs[i], "input_json_delta"@),
        stop.str_or_empty("type"@) == "content_block_stop"@,
    ensures
        run(s, evs) == (StreamView {
            current: Some(
                AccView::ToolUse {
                    id,
                    name,
                    partial_json: p + assembled(evs, "partial_json"@),
                },
            ),
            ..s
        }),
        after_event(run(s, evs), stop).0 == (StreamView {
            content: s.content.push(
                client::BlockView::ToolUse {
                    id,
                    name,
                    input: tool_input(p + assembled(evs, "partial_json"@)),
                },
            ),
            current: None,
            ..s
        }),
    decreases evs.len(),
{
    event_kinds_differ();
    if evs.len() == 0 {
        assert(p + assembled(evs, "partial_json"@) =~= p);
    } else {
        assert(forall|i: int|
            0 <= i < evs.drop_last().len() ==> evs.drop_last()[i] == #[trigger] evs[i]);
        law_tool_block(s, id, name, p, evs.drop_last(), stop);
        assert(is_delta(evs.last(), "input_json_delta"@));
        assert((p + assembled(evs.drop_last(), "partial_json"@)) + child_or_null(
            evs.last(),
            "delta"@,
        ).str_or_empty("partial_json"@) =~= p + assembled(evs, "partial_json"@));
    }
}

/// No event changes or removes a block that is complete, and each event completes at
/// most one.
pub proof fn law_complete_blocks_stay(s: StreamView, ev: json::JsonView)
    ensures
        after_event(s, ev).0.content.len() <= s.content.len() + 1,
        after_event(s, ev).0.content.take(s.content.len() as int) == s.content,
{
    assert(s.content.take(s.content.len() as int) =~= s.content);
    if let Some(acc) = s.current {
        assert(s.content.push(closed_block(acc).0).take(s.content.len() as int) =~= s.content);
    }
}

/// Collects the text that a call shows.
pub struct CollectSink {
    text: String,
}

impl View for CollectSink {
    type V = Seq<char>;

    closed spec fn view(&self) -> Seq<char> {
        self.text@
    }
}

impl Default for CollectSink {
    /// A sink that holds no text.
    fn default() -> (r: Self)
        ensures
            r@ == Seq::<char>::empty(),
    {
        let t = String::new();
        assert(t@ =~= Seq::empty());
        CollectSink { text: t }
    }
}

impl CollectSink {
    /// Takes the text out and leaves none.
    pub fn drain_text(&mut self) -> (r: String)
        ensures
            r@ == old(self)@,
            final(self)@ == Seq::<char>::empty(),
    {
        let r = self.text.clone();
        self.text = String::new();
        assert(self.text@ =~= Seq::empty());
        r
    }

    /// Appends a piece of text.
    pub fn text(&mut self, t: &str)
        ensures
            final(self)@ == old(self)@ + t@,
    {
        self.text.push_str(t);
    }
}

} // verus!
