//! What holds of a streamed reply and of the end of a call.

use vstd::prelude::*;

use crate::client;
use crate::client::{EventView, ReceivedView, ResultView};
use crate::error;
use crate::json;
use crate::stream;
use crate::stream::{AccView, DeltaView, StepView, StreamView};
use crate::text;

verus! {

proof fn kinds_differ()
    ensures
        "content_block_start"@ != "content_block_delta"@,
        "content_block_start"@ != "content_block_stop"@,
        "content_block_delta"@ != "content_block_stop"@,
        "message_delta"@ != "content_block_start"@,
        "message_delta"@ != "content_block_delta"@,
        "message_delta"@ != "content_block_stop"@,
        "message_delta"@ != "message_start"@,
        "message_delta"@ != "message_stop"@,
        "message_delta"@ != "error"@,
        "message_start"@ != "content_block_start"@,
        "message_start"@ != "content_block_delta"@,
        "message_start"@ != "content_block_stop"@,
        "message_start"@ != "message_stop"@,
        "message_start"@ != "error"@,
        "message_stop"@ != "content_block_start"@,
        "message_stop"@ != "content_block_delta"@,
        "message_stop"@ != "content_block_stop"@,
        "message_stop"@ != "error"@,
        "error"@ != "content_block_start"@,
        "error"@ != "content_block_delta"@,
        "error"@ != "content_block_stop"@,
        "text"@ != "tool_use"@,
{
    reveal_strlit("content_block_start");
    reveal_strlit("content_block_delta");
    reveal_strlit("content_block_stop");
    reveal_strlit("message_delta");
    reveal_strlit("message_start");
    reveal_strlit("message_stop");
    reveal_strlit("error");
    reveal_strlit("text");
    reveal_strlit("tool_use");
    assert("content_block_start"@.len() == 19 && "content_block_start"@[14] == 's');
    assert("content_block_delta"@.len() == 19 && "content_block_delta"@[14] == 'd');
    assert("content_block_stop"@.len() == 18);
    assert("message_delta"@.len() == 13 && "message_delta"@[8] == 'd');
    assert("message_start"@.len() == 13 && "message_start"@[8] == 's');
    assert("message_stop"@.len() == 12);
    assert("error"@.len() == 5);
    assert("text"@.len() == 4);
    assert("tool_use"@.len() == 8);
}

/// The law of opening: a block of text opens empty, and a tool call opens with its id, its
/// name and no input; a block of another kind is not opened. Nothing of it is shown yet.
pub proof fn law_blocks_open_empty(s: StreamView, ev: json::JsonView)
    requires
        ev.str_or_empty("type"@) == "content_block_start"@,
    ensures
        ({
            let (next, step) = stream::after_event(s, ev);
            let kind = ev.child("content_block"@)->0.str_or_empty("type"@);
            let known = ev.child("content_block"@) is Some && (kind == "text"@ || kind
                == "tool_use"@);
            &&& step == StepView::More(None)
            &&& next == (StreamView { current: next.current, ..s })
            &&& known && kind == "text"@ ==> next.current == Some(AccView::Text(Seq::empty()))
            &&& known && kind == "tool_use"@ ==> next.current == Some(
                AccView::ToolUse {
                    id: ev.child("content_block"@)->0.str_or_empty("id"@),
                    name: ev.child("content_block"@)->0.str_or_empty("name"@),
                    partial_json: Seq::empty(),
                },
            )
            &&& !known ==> next.current == s.current
        }),
{
    kinds_differ();
    reveal_strlit("text");
    reveal_strlit("tool_use");
    assert("text"@.len() > 0 && "tool_use"@.len() > 0);
    assert(json::JsonView::Null.str_or_empty("type"@).len() == 0);
}

/// The law of showing: what is shown of a text is exactly what it grows by; nothing is shown
/// of a tool call while it grows, and nothing else of the reply changes.
pub proof fn law_what_is_shown_is_what_is_added(s: StreamView, ev: json::JsonView)
    requires
        ev.str_or_empty("type"@) == "content_block_delta"@,
        s.current is Some,
    ensures
        ({
            let (next, step) = stream::after_event(s, ev);
            &&& next == (StreamView { current: next.current, ..s })
            &&& next.current is Some
            &&& match (s.current->0, next.current->0) {
                (AccView::Text(a), AccView::Text(b)) => match step {
                    StepView::More(Some(DeltaView::Text(d))) => b == a + d,
                    StepView::More(None) => b == a,
                    _ => false,
                },
                (
                    AccView::ToolUse { id, name, partial_json },
                    AccView::ToolUse { id: id2, name: name2, partial_json: more },
                ) => id2 == id && name2 == name && partial_json.is_prefix_of(more) && step
                    == StepView::More(None),
                _ => false,
            }
        }),
{
    kinds_differ();
    if let AccView::ToolUse { id, name, partial_json } = s.current->0 {
        let d = stream::child_or_null(ev, "delta"@);
        assert(partial_json =~= (partial_json + d.str_or_empty("partial_json"@)).take(
            partial_json.len() as int,
        ));
        assert(partial_json =~= partial_json.take(partial_json.len() as int));
    }
}

/// The law of closing: a closed block joins the reply behind the others. A text is whole; a
/// tool call has its id, its name and the value that its input stands for, and is shown as
/// it joins.
pub proof fn law_closed_blocks_join_the_reply(s: StreamView, ev: json::JsonView)
    requires
        ev.str_or_empty("type"@) == "content_block_stop"@,
    ensures
        ({
            let (next, step) = stream::after_event(s, ev);
            &&& s.current is None ==> next == s && step == StepView::More(None)
            &&& s.current is Some ==> next.current is None && next.content.len() == s.content.len()
                + 1 && next.content.drop_last() == s.content && next.stop_reason == s.stop_reason
                && next.input_tokens == s.input_tokens && next.output_tokens == s.output_tokens
            &&& match s.current {
                Some(AccView::Text(t)) => next.content.last() == (client::BlockView::Text {
                    text: t,
                }) && step == StepView::More(None),
                Some(AccView::ToolUse { id, name, partial_json }) => {
                    let input = match json::json_value(partial_json) {
                        Ok(v) if partial_json.len() > 0 => v.rendered(),
                        _ => "null"@,
                    };
                    &&& next.content.last() == (client::BlockView::ToolUse { id, name, input })
                    &&& step == StepView::More(Some(DeltaView::ToolUseStart { id, name, input }))
                },
                None => true,
            }
        }),
{
    kinds_differ();
    let (next, step) = stream::after_event(s, ev);
    if s.current is Some {
        assert(next.content.drop_last() =~= s.content);
    }
}

/// The law of the other events: the reason to stop and the tokens come from the events that
/// carry them, and stay where an event carries none; a reply is complete exactly with
/// `message_stop`, and fails exactly with `error`, with the message that it carries; no
/// other event changes anything.
pub proof fn law_other_events(s: StreamView, ev: json::JsonView)
    ensures
        ({
            let (next, step) = stream::after_event(s, ev);
            let kind = ev.str_or_empty("type"@);
            let reason = ev.child("delta"@)->0.str_member("stop_reason"@);
            let message = ev.child("error"@)->0.str_member("message"@);
            let starts = ev.child("message"@)->0.child("usage"@);
            let ends = ev.child("usage"@);
            let is_block = kind == "content_block_start"@ || kind == "content_block_delta"@ || kind
                == "content_block_stop"@;
            &&& step == StepView::Complete <==> kind == "message_stop"@
            &&& step is Failed <==> kind == "error"@
            &&& kind == "error"@ && ev.child("error"@) is Some && message is Some ==> step
                == StepView::Failed(error::ErrorView::Stream(message->0))
            &&& kind == "error"@ && (ev.child("error"@) is None || message is None) ==> step
                == StepView::Failed(error::ErrorView::Stream("stream error"@))
            &&& kind == "message_delta"@ && ev.child("delta"@) is Some && reason is Some
                ==> next.stop_reason == reason->0
            &&& kind != "message_delta"@ || ev.child("delta"@) is None || reason is None
                ==> next.stop_reason == s.stop_reason
            &&& kind == "message_delta"@ && ends is Some && ends->0.u64_member("output_tokens"@)
                is Some ==> next.output_tokens == ends->0.u64_member("output_tokens"@)
            &&& kind == "message_start"@ && ev.child("message"@) is Some && starts is Some
                && starts->0.u64_member("input_tokens"@) is Some ==> next.input_tokens
                == starts->0.u64_member("input_tokens"@)
            &&& kind != "message_start"@ ==> next.input_tokens == s.input_tokens
            &&& kind != "message_start"@ && kind != "message_delta"@ ==> next.output_tokens
                == s.output_tokens
            &&& !is_block ==> next.content == s.content && next.current == s.current
            &&& !is_block && kind != "message_start"@ && kind != "message_delta"@ ==> next == s
        }),
{
    kinds_differ();
}

/// The law of endings: a call succeeds exactly where the event that completes the reply
/// comes, with all that was put together; a cancelled call is cancelled; and a connection
/// that breaks or closes before that never makes a reply.
pub proof fn law_how_a_call_ends(s: StreamView, data: Seq<char>, broken: Seq<char>)
    ensures
        client::received(s, EventView::Cancelled) == ReceivedView::Finished(ResultView::Cancelled),
        client::received(s, EventView::Ended) is Finished,
        client::received(s, EventView::Ended)->Finished_0 == ResultView::Failure(
            error::ErrorView::Stream("stream ended unexpectedly"@),
        ) || client::received(s, EventView::Ended)->Finished_0 is PromptTooLong,
        client::received(s, EventView::Broken(broken)) is Finished,
        client::received(s, EventView::Broken(broken))->Finished_0 is Failure || client::received(
            s,
            EventView::Broken(broken),
        )->Finished_0 is PromptTooLong,
        match json::json_value(data) {
            Err(_) => client::received(s, EventView::Data(data)) is Finished && (client::received(
                s,
                EventView::Data(data),
            )->Finished_0 is Failure || client::received(s, EventView::Data(data))->Finished_0
                is PromptTooLong),
            Ok(ev) => {
                let out = client::received(s, EventView::Data(data));
                let kind = ev.str_or_empty("type"@);
                &&& kind == "message_stop"@ ==> out == ReceivedView::Finished(
                    ResultView::Success { content: s.content, stop_reason: s.stop_reason },
                )
                &&& kind == "error"@ ==> out is Finished && !(out->Finished_0 is Success)
                &&& kind != "message_stop"@ && kind != "error"@ ==> out is Going && out->Going_0
                    == stream::after_event(s, ev).0
            },
        },
{
    if let Ok(ev) = json::json_value(data) {
        law_other_events(s, ev);
    }
}

/// The law of calls: the events are taken one after the other; once a call is over, what the
/// connection hands over does not matter any more and nothing more is shown; and a
/// connection that hands over nothing makes no reply.
pub proof fn law_calls_take_events_in_order(s: StreamView, ev: EventView, rest: Seq<EventView>)
    ensures
        !(client::call_result(s, Seq::empty()) is Success),
        client::call_deltas(s, Seq::empty()).len() == 0,
        match client::received(s, ev) {
            ReceivedView::Finished(r) => client::call_result(s, seq![ev] + rest) == r
                && client::call_deltas(s, seq![ev] + rest).len() == 0,
            ReceivedView::Going(next, shown) => {
                &&& client::call_result(s, seq![ev] + rest) == client::call_result(next, rest)
                &&& client::call_deltas(s, seq![ev] + rest) == (match shown {
                    Some(d) => seq![d],
                    None => Seq::empty(),
                }) + client::call_deltas(next, rest)
            },
        },
{
    let evs = seq![ev] + rest;
    assert(evs.skip(1) =~= rest);
    assert(evs[0] == ev);
    if let ReceivedView::Going(next, None) = client::received(s, ev) {
        assert(client::call_deltas(s, evs) =~= Seq::<DeltaView>::empty() + client::call_deltas(
            next,
            rest,
        ));
    }
}

/// The law of failures: an error counts as a prompt that is too long exactly where a
/// provider could have written it and it holds one of the phrases for that, in letters of
/// either case; the error itself is passed on.
pub proof fn law_which_prompts_are_too_long(e: error::ErrorView)
    ensures
        ({
            let words = match e {
                error::ErrorView::Api { body, .. } => Some(body),
                error::ErrorView::Stream(m) => Some(m),
                error::ErrorView::Other(m) => Some(m),
                _ => None,
            };
            let out = client::classified(e);
            let says = words is Some && (text::has(text::lowered(words->0), "prompt_too_long"@)
                || text::has(text::lowered(words->0), "too many tokens"@) || text::has(
                text::lowered(words->0),
                "request_too_large"@,
            ));
            &&& says ==> out == ResultView::PromptTooLong(e)
            &&& !says ==> out == ResultView::Failure(e)
        }),
{
}

/// The law of addresses: the address has one slash before its path, however many the base
/// ends with.
pub proof fn law_one_slash(base: Seq<char>, n: nat)
    requires
        base.len() == 0 || base.last() != '/',
    ensures
        client::messages_url(base + Seq::new(n, |i: int| '/')) == base + "/v1/messages"@,
    decreases n,
{
    let s = base + Seq::new(n, |i: int| '/');
    if n == 0 {
        assert(s =~= base);
    } else {
        let fewer = base + Seq::new((n - 1) as nat, |i: int| '/');
        law_one_slash(base, (n - 1) as nat);
        assert(s.drop_last() =~= fewer);
        assert(client::without_slashes(s) == client::without_slashes(fewer));
    }
}

/// The law of members: a member is the first of its name, and there is none only where no
/// member has the name.
pub proof fn law_the_first_member_counts(members: Seq<(Seq<char>, Seq<char>)>, key: Seq<char>)
    ensures
        match json::JsonView::Object(members).member(key) {
            Some(t) => exists|i: int|
                0 <= i < members.len() && #[trigger] members[i] == (key, t) && forall|j: int|
                    0 <= j < i ==> (#[trigger] members[j]).0 != key,
            None => forall|j: int| 0 <= j < members.len() ==> (#[trigger] members[j]).0 != key,
        },
    decreases members.len(),
{
    if members.len() > 0 {
        if members[0].0 == key {
            assert(members[0] == (key, members[0].1));
        } else {
            let rest = members.skip(1);
            law_the_first_member_counts(rest, key);
            match json::JsonView::Object(rest).member(key) {
                Some(t) => {
                    let i = choose|i: int|
                        0 <= i < rest.len() && #[trigger] rest[i] == (key, t) && forall|j: int|
                            0 <= j < i ==> (#[trigger] rest[j]).0 != key;
                    assert(members[i + 1] == (key, t));
                    assert forall|j: int| 0 <= j < i + 1 implies (#[trigger] members[j]).0 != key by {
                        if j > 0 {
                            assert(rest[j - 1] == members[j]);
                        }
                    }
                },
                None => {
                    assert forall|j: int| 0 <= j < members.len() implies (#[trigger] members[j]).0
                        != key by {
                        if j > 0 {
                            assert(rest[j - 1] == members[j]);
                        }
                    }
                },
            }
        }
    }
}

} // verus!
