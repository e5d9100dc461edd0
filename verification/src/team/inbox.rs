//! What the messages in a mailbox do.

use vstd::prelude::*;

use crate::client;
use crate::client::Message;
use crate::json;
use crate::json::{Json, JsonNode};
use crate::team::bus;
use crate::team::bus::MessageRecord;
use crate::team::protocols;
use crate::team::protocols::{GateStatus, ProtocolStatus, ProtocolType};
use crate::team::{TeamCtx, TeamView, TeammateStatus};
use crate::text;

verus! {

/// A shutdown request that the teammate accepts: the lead's, to this teammate, pending,
/// and the teammate is not stopping already.
pub open spec fn accepts_shutdown(v: TeamView, owner: Seq<char>, m: bus::MailView) -> bool {
    match m.request_id() {
        Some(id) => {
            &&& v.protocols.requests.contains_key(id)
            &&& v.protocols.requests[id].ptype == ProtocolType::Shutdown
            &&& v.protocols.requests[id].sender == "lead"@
            &&& v.protocols.requests[id].target == owner
            &&& v.protocols.requests[id].status == ProtocolStatus::Pending
            &&& !(v.active.contains_key(owner) && v.active[owner] == TeammateStatus::Stopping)
        },
        None => false,
    }
}

/// The request id of a message as JSON text, or `null`.
pub open spec fn request_member(m: bus::MailView) -> Seq<char> {
    match json::json_value(m.metadata) {
        Ok(v) => match v.member("request_id"@) {
            Some(t) => t,
            None => "null"@,
        },
        Err(_) => "null"@,
    }
}

/// The metadata of the answer to a shutdown request.
pub open spec fn shutdown_metadata(m: bus::MailView) -> Seq<char> {
    json::JsonView::Object(
        seq![("request_id"@, request_member(m)), ("approve"@, "true"@)],
    ).rendered()
}

/// The team after a shutdown request was accepted and answered.
pub open spec fn after_shutdown(v: TeamView, owner: Seq<char>, m: bus::MailView) -> TeamView {
    TeamView {
        active: v.active.insert(owner, TeammateStatus::Stopping),
        mail: bus::sent(
            v.mail,
            bus::MailView {
                from: owner,
                to: "lead"@,
                content: "Shutdown acknowledged."@,
                msg_type: "shutdown_response"@,
                metadata: shutdown_metadata(m),
            },
        ),
        ..v
    }
}

/// A response that matches the teammate's current plan: the answer to its pending request,
/// for the work and the task that it has now.
pub open spec fn answers_current_plan(v: TeamView, owner: Seq<char>, m: bus::MailView) -> bool {
    match m.request_id() {
        Some(id) => {
            &&& v.protocols.requests.contains_key(id)
            &&& v.protocols.requests[id].ptype == ProtocolType::PlanApproval
            &&& v.protocols.requests[id].sender == owner
            &&& v.protocols.requests[id].target == "lead"@
            &&& v.protocols.plan_ids.contains_key(owner)
            &&& v.protocols.plan_ids[owner] == id
            &&& v.protocols.requests[id].work_version == Some(v.work.version(owner))
            &&& v.protocols.requests[id].task_id == v.work.task_of(owner)
            &&& v.protocols.requests[id].status == ProtocolStatus::Pending
        },
        None => false,
    }
}

/// The plan gate that an answer sets.
pub open spec fn answered_gate(m: bus::MailView) -> GateStatus {
    if m.approves() {
        GateStatus::Approved
    } else {
        GateStatus::Rejected
    }
}

/// The status that an answer gives its request.
pub open spec fn answered_status(m: bus::MailView) -> ProtocolStatus {
    if m.approves() {
        ProtocolStatus::Approved
    } else {
        ProtocolStatus::Rejected
    }
}

/// The team after an answer to a plan.
pub open spec fn after_plan_response(v: TeamView, owner: Seq<char>, m: bus::MailView) -> TeamView {
    if answers_current_plan(v, owner, m) {
        let p = v.protocols.with_status(m.request_id()->0, answered_status(m)).with_gate(
            owner,
            answered_gate(m),
        );
        TeamView {
            protocols: protocols::ProtocolsView { plan_ids: p.plan_ids.remove(owner), ..p },
            active: v.active.insert(owner, TeammateStatus::Working),
            ..v
        }
    } else {
        v
    }
}

/// What the teammate is told of an answer to a plan.
pub open spec fn plan_response_text(v: TeamView, owner: Seq<char>, m: bus::MailView) -> Seq<char> {
    if m.request_id() is None {
        "[Ignored plan response: no request_id]"@
    } else if answers_current_plan(v, owner, m) {
        if m.approves() {
            "[Plan approved] "@ + m.content
        } else {
            "[Plan rejected] "@ + m.content
        }
    } else {
        "[Ignored plan response: request mismatch]"@
    }
}

/// The work on a mailbox: the team, what the teammate is told, whether it has to stop.
#[verifier::ext_equal]
pub struct Drained {
    pub team: TeamView,
    pub work: Seq<Seq<char>>,
    pub stop: bool,
}

/// The work after one message.
pub open spec fn after_mail(d: Drained, owner: Seq<char>, m: bus::MailView) -> Drained {
    if m.msg_type == "shutdown_request"@ {
        if accepts_shutdown(d.team, owner, m) {
            Drained { team: after_shutdown(d.team, owner, m), stop: true, ..d }
        } else {
            Drained {
                work: d.work.push("[Ignored shutdown request: request mismatch]"@),
                ..d
            }
        }
    } else if m.msg_type == "plan_approval_response"@ {
        Drained {
            team: after_plan_response(d.team, owner, m),
            work: d.work.push(plan_response_text(d.team, owner, m)),
            ..d
        }
    } else if m.msg_type == "plan_request"@ {
        Drained { work: d.work.push("[Plan required] "@ + m.content), ..d }
    } else {
        Drained { work: d.work.push("[Message from "@ + m.from + "] "@ + m.content), ..d }
    }
}

/// The work after all messages.
pub open spec fn after_mails(d: Drained, owner: Seq<char>, ms: Seq<bus::MailView>) -> Drained
    decreases ms.len(),
{
    if ms.len() == 0 {
        d
    } else {
        after_mail(after_mails(d, owner, ms.drop_last()), owner, ms.last())
    }
}

/// What the messages come to, from a state in which nothing was told yet.
pub open spec fn inbox_outcome(v: TeamView, owner: Seq<char>, ms: Seq<bus::MailView>) -> Drained {
    after_mails(Drained { team: v, work: Seq::empty(), stop: false }, owner, ms)
}

/// The conversation after the teammate was told something.
pub open spec fn told(ms: Seq<client::MessageView>, work: Seq<Seq<char>>) -> Seq<
    client::MessageView,
> {
    if work.len() == 0 {
        ms
    } else {
        ms.push(client::text_message("user"@, text::joined(work, "\n"@)))
    }
}

/// Accepts the lead's pending request to shut down.
pub fn apply_shutdown_request(team: &mut TeamCtx, owner: &str, msg: &MessageRecord) -> (r: bool)
    ensures
        r == accepts_shutdown(old(team)@, owner@, msg@),
        final(team)@ == (if r {
            TeamView {
                active: old(team)@.active.insert(owner@, TeammateStatus::Stopping),
                ..old(team)@
            }
        } else {
            old(team)@
        }),
{
    let id = match msg.request_id() {
        Some(s) => s,
        None => {
            return false;
        },
    };
    match team.protocols.pending.get(id.as_str()) {
        None => {
            return false;
        },
        Some(state) => {
            if state.ptype != ProtocolType::Shutdown {
                return false;
            }
            if !text::same(state.sender.as_str(), "lead") || !text::same(
                state.target.as_str(),
                owner,
            ) {
                return false;
            }
            if state.status != ProtocolStatus::Pending {
                return false;
            }
        },
    }
    if let Some(s) = team.active.get(owner) {
        if *s == TeammateStatus::Stopping {
            return false;
        }
    }
    team.active.insert(owner, TeammateStatus::Stopping);
    true
}

/// Applies the lead's answer to a plan, where it matches the teammate's current plan.
pub fn apply_plan_response(team: &mut TeamCtx, owner: &str, msg: &MessageRecord) -> (r: String)
    ensures
        r@ == plan_response_text(old(team)@, owner@, msg@),
        final(team)@ == after_plan_response(old(team)@, owner@, msg@),
{
    let ghost before = team@;
    let id = match msg.request_id() {
        Some(s) => s,
        None => {
            return "[Ignored plan response: no request_id]".to_string();
        },
    };
    let version: u32 = team.assignments.version(owner);
    let task_id = match team.assignments.get(owner) {
        Some(a) => Some(a.task_id),
        None => None,
    };
    assert(text::opt_view(task_id) == before.work.task_of(owner@));
    let approve = msg.approves();
    let current = match team.protocols.plan_request_ids.get(owner) {
        Some(p) => text::same(p.as_str(), id.as_str()),
        None => false,
    };
    let valid = match team.protocols.pending.get(id.as_str()) {
        None => false,
        Some(state) => {
            let same_version = match state.work_version {
                Some(v) => v == version,
                None => false,
            };
            let same_task = match (&state.task_id, &task_id) {
                (Some(a), Some(b)) => *a == *b,
                (None, None) => true,
                _ => false,
            };
            state.ptype == ProtocolType::PlanApproval && text::same(state.sender.as_str(), owner)
                && text::same(state.target.as_str(), "lead") && current && same_version && same_task
                && state.status == ProtocolStatus::Pending
        },
    };
    assert(valid == answers_current_plan(before, owner@, msg@));
    if !valid {
        return "[Ignored plan response: request mismatch]".to_string();
    }
    let (status, gate) = if approve {
        (ProtocolStatus::Approved, GateStatus::Approved)
    } else {
        (ProtocolStatus::Rejected, GateStatus::Rejected)
    };
    team.protocols.set_status(id.as_str(), status);
    team.protocols.set_gate(owner, gate);
    let ghost gated = team@.protocols;
    let _old = team.protocols.plan_request_ids.remove(owner);
    assert(team@.protocols.plan_ids =~= gated.plan_ids.remove(owner@));
    team.active.insert(owner, TeammateStatus::Working);
    assert(team@ == after_plan_response(before, owner@, msg@));
    let head = if approve {
        "[Plan approved] "
    } else {
        "[Plan rejected] "
    };
    head.to_string().concat(msg.content.as_str())
}

fn answer_metadata(msg: &MessageRecord) -> (r: Json)
    ensures
        r@ == shutdown_metadata(msg@),
{
    let id = match json::parse(msg.metadata.text.as_str()) {
        Ok(v) => match v.member("request_id") {
            Some(t) => t.clone(),
            None => "null".to_string(),
        },
        Err(_) => "null".to_string(),
    };
    assert(id@ == request_member(msg@));
    let mut members: Vec<(String, String)> = Vec::new();
    members.push(("request_id".to_string(), id));
    members.push(("approve".to_string(), "true".to_string()));
    assert(json::pairs(members@) =~= seq![("request_id"@, id@), ("approve"@, "true"@)]);
    let node = JsonNode::Object(members);
    assert(node@ == json::JsonView::Object(seq![("request_id"@, id@), ("approve"@, "true"@)]));
    Json { text: node.render() }
}

/// Applies messages to a teammate and tells it about them. Says whether it has to stop.
pub fn apply_inbox(
    team: &mut TeamCtx,
    owner: &str,
    inbox: &[MessageRecord],
    messages: &mut Vec<Message>,
) -> (r: bool)
    ensures
        ({
            let d = inbox_outcome(old(team)@, owner@, bus::mails(inbox@));
            &&& final(team)@ == d.team
            &&& r == d.stop
            &&& client::messages(final(messages)@) == told(
                client::messages(old(messages)@),
                d.work,
            )
        }),
{
    let ghost start = Drained { team: team@, work: Seq::empty(), stop: false };
    let ghost ms = bus::mails(inbox@);
    let mut work: Vec<String> = Vec::new();
    let mut stop = false;
    let mut i: usize = 0;
    assert(text::views(work@) =~= Seq::<Seq<char>>::empty());
    while i < inbox.len()
        invariant
            i <= inbox@.len(),
            ms == bus::mails(inbox@),
            messages@ == old(messages)@,
            after_mails(start, owner@, ms.take(i as int)) == (Drained {
                team: team@,
                work: text::views(work@),
                stop,
            }),
        decreases inbox@.len() - i,
    {
        let ghost before = text::views(work@);
        assert(ms.take(i + 1).drop_last() =~= ms.take(i as int));
        assert(ms.take(i + 1).last() == inbox@[i as int]@);
        let m = &inbox[i];
        let kind = m.msg_type.as_str();
        if text::same(kind, "shutdown_request") {
            if apply_shutdown_request(team, owner, m) {
                team.bus.send(
                    owner,
                    "lead",
                    "Shutdown acknowledged.",
                    "shutdown_response",
                    Some(answer_metadata(m)),
                );
                stop = true;
            } else {
                work.push("[Ignored shutdown request: request mismatch]".to_string());
                assert(text::views(work@) =~= before.push(work@.last()@));
            }
        } else if text::same(kind, "plan_approval_response") {
            let t = apply_plan_response(team, owner, m);
            work.push(t);
            assert(text::views(work@) =~= before.push(work@.last()@));
        } else if text::same(kind, "plan_request") {
            work.push("[Plan required] ".to_string().concat(m.content.as_str()));
            assert(text::views(work@) =~= before.push(work@.last()@));
        } else {
            work.push(
                "[Message from ".to_string().concat(m.from.as_str()).concat("] ").concat(
                    m.content.as_str(),
                ),
            );
            assert(text::views(work@) =~= before.push(work@.last()@));
        }
        i += 1;
    }
    assert(ms.take(ms.len() as int) =~= ms);
    assert(text::views(work@).len() == work@.len());
    if work.len() > 0 {
        let ghost before = client::messages(messages@);
        messages.push(Message::user_text(text::join(&work, "\n").as_str()));
        assert(client::messages(messages@) =~= before.push(messages@.last()@));
    }
    stop
}

/// Empties a teammate's mailbox into its conversation. Says whether a shutdown was
/// accepted, after which the teammate stops.
pub fn drain_inbox(team: &mut TeamCtx, owner: &str, messages: &mut Vec<Message>) -> (r: bool)
    ensures
        ({
            let v = old(team)@;
            let d = inbox_outcome(
                TeamView { mail: bus::not_addressed(v.mail, owner@), ..v },
                owner@,
                bus::addressed(v.mail, owner@),
            );
            &&& final(team)@ == d.team
            &&& r == d.stop
            &&& client::messages(final(messages)@) == told(
                client::messages(old(messages)@),
                d.work,
            )
        }),
{
    let inbox = team.bus.read_inbox(owner);
    apply_inbox(team, owner, &inbox, messages)
}

// ---- the lead's mailbox ----

/// The requests after the answers among some messages.
pub open spec fn after_answers(p: protocols::ProtocolsView, ms: Seq<bus::MailView>) -> protocols::ProtocolsView
    decreases ms.len(),
{
    if ms.len() == 0 {
        p
    } else {
        let q = after_answers(p, ms.drop_last());
        let m = ms.last();
        if text::ends(m.msg_type, "_response"@) {
            q.after_response(
                m.msg_type,
                match m.request_id() {
                    Some(id) => id,
                    None => Seq::empty(),
                },
                m.approves(),
                m.from,
                m.to,
            )
        } else {
            q
        }
    }
}

/// Empties the lead's mailbox and resolves the requests that its messages answer. Returns
/// the messages, to be shown to the lead.
pub fn consume_lead_inbox(team: &mut TeamCtx) -> (r: Vec<MessageRecord>)
    ensures
        bus::mails(r@) == bus::addressed(old(team)@.mail, "lead"@),
        final(team)@ == (TeamView {
            mail: bus::not_addressed(old(team)@.mail, "lead"@),
            protocols: after_answers(
                old(team)@.protocols,
                bus::addressed(old(team)@.mail, "lead"@),
            ),
            ..old(team)@
        }),
{
    let ghost start = team@.protocols;
    let msgs = team.bus.read_inbox("lead");
    let ghost ms = bus::mails(msgs@);
    let ghost read = team@;
    let mut i: usize = 0;
    while i < msgs.len()
        invariant
            i <= msgs@.len(),
            ms == bus::mails(msgs@),
            team@ == (TeamView { protocols: after_answers(start, ms.take(i as int)), ..read }),
        decreases msgs@.len() - i,
    {
        assert(ms.take(i + 1).drop_last() =~= ms.take(i as int));
        assert(ms.take(i + 1).last() == msgs@[i as int]@);
        let m = &msgs[i];
        if text::ends_with(m.msg_type.as_str(), "_response") {
            let id = match m.request_id() {
                Some(s) => s,
                None => {
                    let e = String::new();
                    assert(e@ =~= Seq::<char>::empty());
                    e
                },
            };
            let _matched = team.protocols.match_response(
                m.msg_type.as_str(),
                id.as_str(),
                m.approves(),
                m.from.as_str(),
                m.to.as_str(),
            );
        }
        i += 1;
    }
    assert(ms.take(ms.len() as int) =~= ms);
    msgs
}

/// A message as the lead is shown it.
pub open spec fn event_line(m: bus::MailView) -> Seq<char> {
    let suffix = match m.request_id() {
        Some(id) => if id.len() > 0 {
            " request_id="@ + id
        } else {
            Seq::empty()
        },
        None => Seq::empty(),
    };
    "["@ + m.msg_type + suffix + "] "@ + m.from + ": "@ + m.content
}

/// Messages as the lead is shown them.
pub open spec fn team_events(ms: Seq<bus::MailView>) -> Seq<char> {
    "[Team events]\n"@ + text::joined(ms.map_values(|m: bus::MailView| event_line(m)), "\n"@)
}

/// Messages to the lead as one text.
pub fn format_team_events(msgs: &[MessageRecord]) -> (r: String)
    ensures
        r@ == team_events(bus::mails(msgs@)),
{
    let ghost want = bus::mails(msgs@).map_values(|m: bus::MailView| event_line(m));
    let mut lines: Vec<String> = Vec::new();
    let mut i: usize = 0;
    while i < msgs.len()
        invariant
            i <= msgs@.len(),
            want == bus::mails(msgs@).map_values(|m: bus::MailView| event_line(m)),
            text::views(lines@) == want.take(i as int),
        decreases msgs@.len() - i,
    {
        let ghost before = text::views(lines@);
        let m = &msgs[i];
        let mut suffix = String::new();
        assert(suffix@ =~= Seq::<char>::empty());
        if let Some(id) = m.request_id() {
            if !id.as_str().is_empty() {
                suffix = " request_id=".to_string().concat(id.as_str());
            }
        }
        lines.push(
            "[".to_string().concat(m.msg_type.as_str()).concat(suffix.as_str()).concat(
                "] ",
            ).concat(m.from.as_str()).concat(": ").concat(m.content.as_str()),
        );
        assert(text::views(lines@) =~= before.push(event_line(msgs@[i as int]@)));
        assert(text::views(lines@) =~= want.take(i + 1));
        i += 1;
    }
    assert(want.take(want.len() as int) =~= want);
    "[Team events]\n".to_string().concat(text::join(&lines, "\n").as_str())
}

/// An approval given for earlier work has no effect: once the owner's version advanced, an
/// answer to a plan of the earlier version changes nothing.
pub proof fn law_stale_approval_is_ignored(v: TeamView, owner: Seq<char>, m: bus::MailView)
    requires
        m.request_id() is Some,
        v.protocols.requests.contains_key(m.request_id()->0),
        v.protocols.requests[m.request_id()->0].work_version == Some(v.work.version(owner)),
        v.work.version(owner) < u32::MAX,
    ensures
        ({
            let w = TeamView { work: v.work.advanced(owner), ..v };
            &&& after_plan_response(w, owner, m) == w
            &&& plan_response_text(w, owner, m) == "[Ignored plan response: request mismatch]"@
        }),
{
}

/// A teammate stops once: after it accepted a shutdown, further requests are not accepted.
pub proof fn law_shutdown_once(v: TeamView, owner: Seq<char>, m: bus::MailView, m2: bus::MailView)
    requires
        accepts_shutdown(v, owner, m),
    ensures
        !accepts_shutdown(after_shutdown(v, owner, m), owner, m2),
{
}

/// Only an answer to the current plan moves a plan gate, and only an approval opens it:
/// whatever else comes into the mailbox, the owner's gate stays as it was.
pub proof fn law_gate_opens_by_approval(d: Drained, owner: Seq<char>, m: bus::MailView)
    ensures
        ({
            let after = after_mail(d, owner, m).team.protocols.gate(owner);
            after != d.team.protocols.gate(owner) ==> {
                &&& m.msg_type == "plan_approval_response"@
                &&& answers_current_plan(d.team, owner, m)
                &&& after == answered_gate(m)
                &&& after == GateStatus::Approved <==> m.approves()
            }
        }),
{
}

/// An answer to the current plan settles it: the request has its status, the plan gate its
/// state, the teammate works on, and the same answer does not count a second time.
pub proof fn law_plan_answer_settles(v: TeamView, owner: Seq<char>, m: bus::MailView)
    requires
        answers_current_plan(v, owner, m),
    ensures
        ({
            let w = after_plan_response(v, owner, m);
            &&& w.protocols.gate(owner) == answered_gate(m)
            &&& w.protocols.requests[m.request_id()->0].status == answered_status(m)
            &&& !w.protocols.plan_ids.contains_key(owner)
            &&& w.active[owner] == TeammateStatus::Working
            &&& after_plan_response(w, owner, m) == w
        }),
{
}

} // verus!
