//! What holds of plans, of the changes that they allow, and of the mail of a team.

use vstd::prelude::*;

use crate::client;
use crate::json;
use crate::task;
use crate::task::TaskStatus;
use crate::team::bus;
use crate::team::inbox;
use crate::team::lifecycle;
use crate::team::plan;
use crate::team::protocols;
use crate::team::protocols::{GateStatus, ProtocolStatus, ProtocolType};
use crate::team::runtime;
use crate::team::worktree;
use crate::team;
use crate::team::{TeamView, TeammateStatus};
use crate::text;

verus! {

/// Mail changes no task and nobody's work.
pub proof fn mail_keeps_tasks(d: inbox::Drained, owner: Seq<char>, ms: Seq<bus::MailView>)
    ensures
        inbox::after_mails(d, owner, ms).team.tasks == d.team.tasks,
        inbox::after_mails(d, owner, ms).team.work == d.team.work,
    decreases ms.len(),
{
    if ms.len() > 0 {
        mail_keeps_tasks(d, owner, ms.drop_last());
    }
}

// ---- plan gates ----

/// The law of plan gates: changes are free where no plan was asked for and where one was
/// approved, and blocked everywhere else.
pub proof fn law_only_an_approved_plan_frees_changes(g: GateStatus)
    ensures
        !g.blocks() <==> g == GateStatus::NotRequired || g == GateStatus::Approved,
{
}

/// The law of new teammates: one that has to plan cannot change anything at first, and one
/// that has not can; it works, on the task that it was given where it was given one; and
/// nobody else's plan gate, status or work is touched.
pub proof fn law_new_teammates_wait_for_their_plan(
    v: TeamView,
    name: Seq<char>,
    role: Seq<char>,
    task_id: Option<Seq<char>>,
    require_plan: bool,
    git: worktree::GitView,
    saved: Result<(), String>,
    other: Seq<char>,
)
    requires
        other != name,
    ensures
        ({
            let (answer, w, started) = runtime::spawned(
                v,
                name,
                role,
                task_id,
                require_plan,
                git,
                saved,
            );
            &&& started ==> {
                &&& w.protocols.gate(name).blocks() == require_plan
                &&& w.protocols.gate(name) != GateStatus::Approved
                &&& w.active.contains_key(name)
                &&& w.active[name] == TeammateStatus::Working
                &&& task_id is Some ==> {
                    &&& task::find_task(w.tasks, task_id->0) is Some
                    &&& task::find_task(w.tasks, task_id->0)->0.owner == Some(name)
                    &&& task::find_task(w.tasks, task_id->0)->0.status == TaskStatus::InProgress
                    &&& w.work.task_of(name) == Some(task_id->0)
                }
                &&& task_id is None ==> w.tasks == v.tasks && w.work == v.work
            }
            &&& !started ==> !w.active.contains_key(name) || v.active.contains_key(name)
            &&& w.protocols.gate(other) == v.protocols.gate(other)
            &&& w.protocols.requests == v.protocols.requests
            &&& w.active.contains_key(other) == v.active.contains_key(other)
            &&& w.active.contains_key(other) ==> w.active[other] == v.active[other]
            &&& w.work.task_of(other) == v.work.task_of(other)
            &&& w.mail == v.mail
        }),
{
    if runtime::spawn_refusal(v, name) is None {
        let joined = runtime::with_teammate(v, name, require_plan);
        if runtime::first_claim_failure(joined, name, task_id, git, saved) is None && task_id
            is Some {
            let id = task_id->0;
            let t = task::find_task(joined.tasks, id)->0;
            task::find_task_id(joined.tasks, id);
            task::law_save_then_load(joined.tasks, team::claimed_task(t, name), id);
        }
    }
}

/// The law of starts: a teammate comes exactly where its name is a valid one, not kept for
/// the runtime and not in use, and its first task, if it has one, can be claimed and was
/// saved.
pub proof fn law_when_a_teammate_comes(
    v: TeamView,
    name: Seq<char>,
    role: Seq<char>,
    task_id: Option<Seq<char>>,
    require_plan: bool,
    git: worktree::GitView,
    saved: Result<(), String>,
)
    ensures
        runtime::spawned(v, name, role, task_id, require_plan, git, saved).2 <==> {
            &&& 1 <= name.len() <= 64
            &&& forall|i: int|
                0 <= i < name.len() ==> {
                    let c = #[trigger] name[i];
                    'a' <= c <= 'z' || 'A' <= c <= 'Z' || '0' <= c <= '9' || c == '_' || c == '-'
                }
            &&& text::ascii_lowered(name) != "lead"@
            &&& text::ascii_lowered(name) != "agent"@
            &&& forall|k: Seq<char>| #[trigger]
                v.active.contains_key(k) ==> text::ascii_lowered(k) != text::ascii_lowered(name)
            &&& task_id is Some ==> team::claim_refusal(v, task_id->0, name, git) is None
                && saved is Ok
        },
{
    let joined = runtime::with_teammate(v, name, require_plan);
    assert(crate::pattern::is_agent_name(name) <==> 1 <= name.len() <= 64 && forall|i: int|
        0 <= i < name.len() ==> {
            let c = #[trigger] name[i];
            'a' <= c <= 'z' || 'A' <= c <= 'Z' || '0' <= c <= '9' || c == '_' || c == '-'
        }) by {
        if crate::pattern::is_agent_name(name) {
            assert forall|i: int| 0 <= i < name.len() implies {
                let c = #[trigger] name[i];
                'a' <= c <= 'z' || 'A' <= c <= 'Z' || '0' <= c <= '9' || c == '_' || c == '-'
            } by {
                assert(crate::pattern::is_name_char(name[i]));
            }
        }
    }
    if runtime::is_taken(v, name) {
        let k = choose|k: Seq<char>| #[trigger]
            v.active.contains_key(k) && runtime::same_name(k, name);
        assert(text::ascii_lowered(k) == text::ascii_lowered(name));
    } else {
        assert forall|k: Seq<char>| #[trigger] v.active.contains_key(k) implies text::ascii_lowered(
            k,
        ) != text::ascii_lowered(name) by {
            assert(!runtime::same_name(k, name));
        }
    }
    if task_id is Some {
        assert(team::claim_refusal(joined, task_id->0, name, git) == team::claim_refusal(
            v,
            task_id->0,
            name,
            git,
        ));
    }
}

/// The message approves the plan that `owner` submitted as a request to the lead.
pub open spec fn approves_plan_of(
    p: protocols::ProtocolsView,
    owner: Seq<char>,
    m: bus::MailView,
) -> bool {
    &&& m.msg_type == "plan_approval_response"@
    &&& m.approves()
    &&& m.request_id() is Some
    &&& p.requests.contains_key(m.request_id()->0)
    &&& p.requests[m.request_id()->0].ptype == ProtocolType::PlanApproval
    &&& p.requests[m.request_id()->0].sender == owner
    &&& p.requests[m.request_id()->0].target == "lead"@
    &&& p.requests[m.request_id()->0].status == ProtocolStatus::Pending
}

/// The requests of `b` are those of `a`, of which some may have been answered.
pub open spec fn only_answered(a: protocols::ProtocolsView, b: protocols::ProtocolsView) -> bool {
    &&& forall|id: Seq<char>| #[trigger]
        b.requests.contains_key(id) <==> a.requests.contains_key(id)
    &&& forall|id: Seq<char>| #[trigger]
        b.requests.contains_key(id) ==> {
            &&& b.requests[id].ptype == a.requests[id].ptype
            &&& b.requests[id].sender == a.requests[id].sender
            &&& b.requests[id].target == a.requests[id].target
            &&& b.requests[id].payload == a.requests[id].payload
            &&& b.requests[id].status == ProtocolStatus::Pending ==> a.requests[id].status
                == ProtocolStatus::Pending
        }
}

/// The law of approvals by mail: reading a mailbox frees the changes of nobody but the one
/// who reads, and only where a message in it approves a plan that waited. It submits and
/// withdraws no request.
pub proof fn law_mail_approves_only_waiting_plans(
    d: inbox::Drained,
    owner: Seq<char>,
    ms: Seq<bus::MailView>,
    other: Seq<char>,
)
    ensures
        ({
            let w = inbox::after_mails(d, owner, ms).team;
            &&& other != owner ==> w.protocols.gate(other) == d.team.protocols.gate(other)
            &&& w.protocols.gate(owner) == GateStatus::Approved && d.team.protocols.gate(owner)
                != GateStatus::Approved ==> exists|i: int|
                0 <= i < ms.len() && approves_plan_of(d.team.protocols, owner, #[trigger] ms[i])
            &&& only_answered(d.team.protocols, w.protocols)
        }),
    decreases ms.len(),
{
    if ms.len() > 0 {
        let head = ms.drop_last();
        law_mail_approves_only_waiting_plans(d, owner, head, other);
        let before = inbox::after_mails(d, owner, head);
        let w = inbox::after_mails(d, owner, ms).team;
        let m = ms.last();
        if w.protocols.gate(owner) == GateStatus::Approved && d.team.protocols.gate(owner)
            != GateStatus::Approved {
            if before.team.protocols.gate(owner) == GateStatus::Approved {
                let i = choose|i: int|
                    0 <= i < head.len() && approves_plan_of(
                        d.team.protocols,
                        owner,
                        #[trigger] head[i],
                    );
                assert(ms[i] == head[i]);
            } else {
                assert(inbox::answers_current_plan(before.team, owner, m));
                assert(before.team.protocols.requests.contains_key(m.request_id()->0));
                assert(approves_plan_of(d.team.protocols, owner, ms[ms.len() - 1]));
            }
        }
    }
}

/// The law of approvals: nothing but an approval of a submitted plan, received by mail,
/// makes a plan approved. A start, a claim, a completion, a plan, the end of a turn, a
/// release, a departure, a shutdown and an answer to the lead leave no plan approved that
/// was not.
pub proof fn law_nothing_else_approves_a_plan(
    v: TeamView,
    name: Seq<char>,
    who: Seq<char>,
    id: Seq<char>,
    git: worktree::GitView,
    ms: Seq<client::MessageView>,
    m: bus::MailView,
)
    requires
        v.protocols.gate(who) != GateStatus::Approved,
    ensures
        forall|role: Seq<char>, task_id: Option<Seq<char>>, require_plan: bool, saved: Result<(), String>|
            (#[trigger] runtime::spawned(v, name, role, task_id, require_plan, git, saved)).1.protocols.gate(
                who,
            ) != GateStatus::Approved,
        team::after_claim(v, id, name, git).protocols.gate(who) != GateStatus::Approved,
        team::after_complete(v, id).protocols.gate(who) != GateStatus::Approved,
        forall|text: Seq<char>|
            (#[trigger] plan::after_submit(v, name, text, id)).protocols.gate(who)
                != GateStatus::Approved,
        runtime::after_turn(v, name, ms).0.protocols.gate(who) != GateStatus::Approved,
        lifecycle::after_release(v, name).protocols.gate(who) != GateStatus::Approved,
        runtime::after_retiring(v, name).protocols.gate(who) != GateStatus::Approved,
        inbox::after_shutdown(v, name, m).protocols.gate(who) != GateStatus::Approved,
        forall|kind: Seq<char>, approve: bool, from: Seq<char>, to: Seq<char>|
            (#[trigger] v.protocols.after_response(kind, id, approve, from, to)).gate(who)
                != GateStatus::Approved,
{
}

/// The law of looking for work: it makes a plan approved only where a message to the one who
/// looks approves it.
pub proof fn law_looking_approves_only_by_mail(
    v: TeamView,
    name: Seq<char>,
    ms: Seq<client::MessageView>,
    git: worktree::GitView,
    unsaved: Seq<Seq<char>>,
    who: Seq<char>,
)
    requires
        v.protocols.gate(who) != GateStatus::Approved,
        runtime::looked(v, name, ms, git, unsaved).team.protocols.gate(who) == GateStatus::Approved,
    ensures
        who == name,
        exists|i: int|
            0 <= i < bus::addressed(v.mail, name).len() && approves_plan_of(
                v.protocols,
                name,
                #[trigger] bus::addressed(v.mail, name)[i],
            ),
{
    let read = TeamView { mail: bus::not_addressed(v.mail, name), ..v };
    law_mail_approves_only_waiting_plans(
        inbox::Drained { team: read, work: Seq::empty(), stop: false },
        name,
        bus::addressed(v.mail, name),
        who,
    );
}

/// The law of submission: a submitted plan blocks the changes of the one who submits it and
/// waits as a request to the lead with all of its text, bound to the work that it is for;
/// the lead gets it by mail; and nobody else's plan gate, status or request is touched.
pub proof fn law_a_plan_reaches_the_lead(
    v: TeamView,
    owner: Seq<char>,
    text: Seq<char>,
    id: Seq<char>,
    other: Seq<char>,
)
    ensures
        ({
            let w = plan::after_submit(v, owner, text, id);
            let r = w.protocols.requests[id];
            let inbox = bus::addressed(w.mail, "lead"@);
            &&& w.protocols.gate(owner).blocks()
            &&& w.active[owner] == TeammateStatus::WaitingApproval
            &&& w.protocols.plan_ids[owner] == id
            &&& w.protocols.requests.contains_key(id)
            &&& r.request_id == id && r.payload == text && r.sender == owner && r.target == "lead"@
            &&& r.ptype == ProtocolType::PlanApproval && r.status == ProtocolStatus::Pending
            &&& r.work_version == Some(v.work.version(owner)) && r.task_id == v.work.task_of(owner)
            &&& inbox.len() == bus::addressed(v.mail, "lead"@).len() + 1
            &&& inbox.last().content == text && inbox.last().from == owner
                && inbox.last().msg_type == "plan_approval_request"@
            &&& other != owner ==> w.protocols.gate(other) == v.protocols.gate(other)
                && w.active.contains_key(other) == v.active.contains_key(other)
                && w.active[other] == v.active[other]
            &&& other != id && v.protocols.requests.contains_key(other)
                ==> w.protocols.requests.contains_key(other) && w.protocols.requests[other]
                == v.protocols.requests[other]
            &&& w.tasks == v.tasks && w.work == v.work
        }),
{
    lead_is_a_name();
    let w = plan::after_submit(v, owner, text, id);
    assert(w.mail.drop_last() =~= v.mail);
}

/// The lead has a valid name.
proof fn lead_is_a_name()
    ensures
        crate::pattern::is_agent_name("lead"@),
{
    reveal_strlit("lead");
    assert("lead"@.len() == 4);
    assert forall|i: int| 0 <= i < "lead"@.len() implies crate::pattern::is_name_char(
        #[trigger] "lead"@[i],
    ) by {
        assert("lead"@[0] == 'l' && "lead"@[1] == 'e' && "lead"@[2] == 'a' && "lead"@[3] == 'd');
    }
}

// ---- mail ----

/// The law of mailboxes: a mailbox holds the messages that were sent to its owner, each of
/// them, in the order in which they were sent; what is left after reading are all others.
pub proof fn law_mailboxes_part_the_mail(ms: Seq<bus::MailView>, agent: Seq<char>)
    ensures
        bus::addressed(ms, agent) == ms.filter(|m: bus::MailView| m.to == agent),
        bus::not_addressed(ms, agent) == ms.filter(|m: bus::MailView| m.to != agent),
        bus::addressed(ms, agent).len() + bus::not_addressed(ms, agent).len() == ms.len(),
    decreases ms.len(),
{
    reveal(Seq::filter);
    if ms.len() > 0 {
        law_mailboxes_part_the_mail(ms.drop_last(), agent);
    }
}

/// The law of sending: a message to a valid name stands behind all others, unchanged; one to
/// any other name goes nowhere; and no message gets lost.
pub proof fn law_sending_adds_one_message(ms: Seq<bus::MailView>, m: bus::MailView)
    ensures
        ({
            let valid = 1 <= m.to.len() <= 64 && forall|i: int|
                0 <= i < m.to.len() ==> {
                    let c = #[trigger] m.to[i];
                    'a' <= c <= 'z' || 'A' <= c <= 'Z' || '0' <= c <= '9' || c == '_' || c == '-'
                };
            &&& valid ==> bus::sent(ms, m) == ms.push(m)
            &&& !valid ==> bus::sent(ms, m) == ms
        }),
{
    if crate::pattern::is_agent_name(m.to) {
        assert forall|i: int| 0 <= i < m.to.len() implies {
            let c = #[trigger] m.to[i];
            'a' <= c <= 'z' || 'A' <= c <= 'Z' || '0' <= c <= '9' || c == '_' || c == '-'
        } by {
            assert(crate::pattern::is_name_char(m.to[i]));
        }
    }
}

/// The law of what is told: every message that is read is told to its reader, in one line
/// each, but for an accepted request to stop; and the reader has to stop exactly where such
/// a request was among the messages.
pub proof fn law_every_message_is_told(d: inbox::Drained, owner: Seq<char>, m: bus::MailView)
    ensures
        ({
            let out = inbox::after_mail(d, owner, m);
            let stops = m.msg_type == "shutdown_request"@ && inbox::accepts_shutdown(
                d.team,
                owner,
                m,
            );
            let plain = m.msg_type != "shutdown_request"@ && m.msg_type
                != "plan_approval_response"@ && m.msg_type != "plan_request"@;
            &&& out.stop == (d.stop || stops)
            &&& stops ==> out.work == d.work && out.team.active[owner] == TeammateStatus::Stopping
            &&& !stops ==> out.work.len() == d.work.len() + 1 && out.work.drop_last() == d.work
            &&& plain ==> out.work.last() == "[Message from "@ + m.from + "] "@ + m.content
                && out.team == d.team
            &&& m.msg_type == "plan_request"@ ==> out.work.last() == "[Plan required] "@ + m.content
                && out.team == d.team
            &&& m.msg_type == "plan_approval_response"@ && inbox::answers_current_plan(
                d.team,
                owner,
                m,
            ) ==> out.work.last() == (if m.approves() {
                "[Plan approved] "@
            } else {
                "[Plan rejected] "@
            }) + m.content
        }),
{
    shutdown_is_no_plan();
    let out = inbox::after_mail(d, owner, m);
    if out.work.len() > d.work.len() {
        assert(out.work.drop_last() =~= d.work);
    }
}

proof fn shutdown_is_no_plan()
    ensures
        "shutdown_request"@ != "plan_approval_response"@,
        "shutdown_request"@ != "plan_request"@,
        "plan_request"@ != "plan_approval_response"@,
{
    reveal_strlit("shutdown_request");
    reveal_strlit("plan_approval_response");
    reveal_strlit("plan_request");
    assert("shutdown_request"@.len() != "plan_approval_response"@.len());
    assert("shutdown_request"@.len() != "plan_request"@.len());
    assert("plan_request"@.len() != "plan_approval_response"@.len());
}

/// The law of mailboxes read whole: the messages are worked off one after the other, in
/// their order, none is passed over; what is said of them reaches the teammate as one
/// message of the user.
pub proof fn law_mail_is_worked_off_in_order(
    d: inbox::Drained,
    owner: Seq<char>,
    a: Seq<bus::MailView>,
    b: Seq<bus::MailView>,
    ms: Seq<client::MessageView>,
    work: Seq<Seq<char>>,
)
    ensures
        inbox::after_mails(d, owner, a + b) == inbox::after_mails(
            inbox::after_mails(d, owner, a),
            owner,
            b,
        ),
        b.len() == 1 ==> inbox::after_mails(d, owner, b) == inbox::after_mail(d, owner, b[0]),
        work.len() == 0 ==> inbox::told(ms, work) == ms,
        work.len() > 0 ==> {
            let out = inbox::told(ms, work);
            &&& out.len() == ms.len() + 1
            &&& out.drop_last() == ms
            &&& out.last().role == "user"@
            &&& out.last().content == seq![
                client::BlockView::Text { text: text::joined(work, "\n"@) },
            ]
        },
    decreases b.len(),
{
    reveal_with_fuel(inbox::after_mails, 2);
    if b.len() == 0 {
        assert(a + b =~= a);
    } else {
        law_mail_is_worked_off_in_order(d, owner, a, b.drop_last(), ms, work);
        assert((a + b).drop_last() =~= a + b.drop_last());
    }
    if work.len() > 0 {
        assert(inbox::told(ms, work).drop_last() =~= ms);
    }
}

/// The law of shutdowns: a teammate stops only for a pending request of the lead to it, and
/// tells the lead so.
pub proof fn law_only_the_lead_stops_a_teammate(v: TeamView, owner: Seq<char>, m: bus::MailView)
    requires
        inbox::accepts_shutdown(v, owner, m),
    ensures
        ({
            let r = v.protocols.requests[m.request_id()->0];
            let w = inbox::after_shutdown(v, owner, m);
            let inbox = bus::addressed(w.mail, "lead"@);
            &&& m.request_id() is Some
            &&& v.protocols.requests.contains_key(m.request_id()->0)
            &&& r.ptype == ProtocolType::Shutdown && r.sender == "lead"@ && r.target == owner
            &&& r.status == ProtocolStatus::Pending
            &&& w.active.contains_key(owner) && w.active[owner] == TeammateStatus::Stopping
            &&& inbox.len() == bus::addressed(v.mail, "lead"@).len() + 1
            &&& inbox.last().from == owner && inbox.last().msg_type == "shutdown_response"@
            &&& w.tasks == v.tasks && w.work == v.work && w.protocols == v.protocols
        }),
{
    lead_is_a_name();
    let w = inbox::after_shutdown(v, owner, m);
    assert(w.mail.drop_last() =~= v.mail);
}

// ---- turns ----

/// The law of results: a teammate whose turn ends, and which neither stops nor waits for an
/// approval, reports the last text of its last reply to the lead, where there is one, says
/// that it waits, and is idle. One that stops goes without a word, and one whose plan waits
/// is left to wait.
pub proof fn law_results_reach_the_lead(v: TeamView, name: Seq<char>, ms: Seq<client::MessageView>)
    ensures
        ({
            let (w, phase) = runtime::after_turn(v, name, ms);
            let stopping = v.active.contains_key(name) && v.active[name]
                == TeammateStatus::Stopping;
            let waiting = v.protocols.gate(name) == GateStatus::Pending;
            let old = bus::addressed(v.mail, "lead"@);
            let new = bus::addressed(w.mail, "lead"@);
            &&& stopping ==> w == v && phase == runtime::Phase::Stop
            &&& !stopping ==> phase == runtime::Phase::Idle
            &&& !stopping && waiting ==> w.active[name] == TeammateStatus::WaitingApproval && w.mail
                == v.mail && w.work == v.work && w.protocols == v.protocols
            &&& !stopping && !waiting ==> {
                &&& w.active[name] == TeammateStatus::Idle
                &&& new.take(old.len() as int) == old
                &&& lifecycle::final_text(ms) is Some ==> new.len() == old.len() + 2
                    && new[old.len() as int].content == lifecycle::final_text(ms)->0
                    && new[old.len() as int].msg_type == "result"@ && new[old.len() as int].from
                    == name
                &&& lifecycle::final_text(ms) is None ==> new.len() == old.len() + 1
                &&& new.last().msg_type == "idle_notification"@ && new.last().from == name
            }
            &&& w.tasks == v.tasks
        }),
{
    lead_is_a_name();
    let (w, phase) = runtime::after_turn(v, name, ms);
    let old = bus::addressed(v.mail, "lead"@);
    let new = bus::addressed(w.mail, "lead"@);
    let stopping = v.active.contains_key(name) && v.active[name] == TeammateStatus::Stopping;
    if !stopping && v.protocols.gate(name) != GateStatus::Pending {
        let idle = runtime::plain_mail(name, "Waiting for more work."@, "idle_notification"@);
        match lifecycle::final_text(ms) {
            Some(summary) => {
                let result = runtime::plain_mail(name, summary, "result"@);
                bus::law_sent_then_read(v.mail, result);
                bus::law_sent_then_read(bus::sent(v.mail, result), idle);
                assert(new =~= old.push(result).push(idle));
            },
            None => {
                bus::law_sent_then_read(v.mail, idle);
                assert(new =~= old.push(idle));
            },
        }
        assert(new.take(old.len() as int) =~= old);
    }
}

/// The law of releases: at the end of its turn a teammate keeps its task as long as it is
/// not completed, and is free once it is: without work, under a new version, with nothing
/// that blocks its changes. Nobody else is touched.
pub proof fn law_finished_work_is_released(
    v: TeamView,
    name: Seq<char>,
    ms: Seq<client::MessageView>,
    other: Seq<char>,
)
    requires
        v.work.version(name) < u32::MAX,
    ensures
        ({
            let w = runtime::after_turn(v, name, ms).0;
            let id = v.work.task_of(name);
            let t = task::find_task(v.tasks, id->0);
            let finished = id is Some && t is Some && t->0.status == TaskStatus::Completed
                && t->0.owner == Some(name);
            let goes_on = (v.active.contains_key(name) && v.active[name]
                == TeammateStatus::Stopping) || v.protocols.gate(name) == GateStatus::Pending;
            &&& !finished || goes_on ==> w.work == v.work && w.protocols == v.protocols
            &&& finished && !goes_on ==> {
                &&& w.work.task_of(name) is None
                &&& w.work.version(name) == v.work.version(name) + 1
                &&& w.protocols.gate(name) == GateStatus::NotRequired
            }
            &&& other != name ==> w.work.task_of(other) == v.work.task_of(other)
                && w.work.version(other) == v.work.version(other) && w.protocols.gate(other)
                == v.protocols.gate(other) && w.active.contains_key(other)
                == v.active.contains_key(other) && w.active[other] == v.active[other]
            &&& w.protocols.requests == v.protocols.requests
        }),
{
}

/// The law of the last word: the final text is the last text block of the last message of
/// the assistant.
pub proof fn law_the_last_word(ms: Seq<client::MessageView>, bs: Seq<client::BlockView>)
    ensures
        match lifecycle::last_reply(ms) {
            Some(m) => exists|i: int|
                0 <= i < ms.len() && #[trigger] ms[i] == m && m.role == "assistant"@ && forall|
                    j: int,
                |
                    i < j < ms.len() ==> (#[trigger] ms[j]).role != "assistant"@,
            None => forall|j: int| 0 <= j < ms.len() ==> (#[trigger] ms[j]).role != "assistant"@,
        },
        match lifecycle::last_text(bs) {
            Some(t) => exists|i: int|
                0 <= i < bs.len() && #[trigger] bs[i] == (client::BlockView::Text { text: t })
                    && forall|j: int| i < j < bs.len() ==> !((#[trigger] bs[j]) is Text),
            None => forall|j: int| 0 <= j < bs.len() ==> !((#[trigger] bs[j]) is Text),
        },
        lifecycle::final_text(ms) == match lifecycle::last_reply(ms) {
            Some(m) => lifecycle::last_text(m.content),
            None => None,
        },
    decreases ms.len() + bs.len(),
{
    if ms.len() > 0 {
        let head = ms.drop_last();
        if ms.last().role == "assistant"@ {
            assert(ms[ms.len() - 1] == ms.last());
        } else {
            law_the_last_word(head, bs);
            match lifecycle::last_reply(head) {
                Some(m) => {
                    let i = choose|i: int|
                        0 <= i < head.len() && #[trigger] head[i] == m && m.role == "assistant"@
                            && forall|j: int|
                            i < j < head.len() ==> (#[trigger] head[j]).role != "assistant"@;
                    assert(ms[i] == m);
                    assert forall|j: int| i < j < ms.len() implies (#[trigger] ms[j]).role
                        != "assistant"@ by {
                        if j < head.len() {
                            assert(head[j] == ms[j]);
                        }
                    }
                },
                None => {
                    assert forall|j: int| 0 <= j < ms.len() implies (#[trigger] ms[j]).role
                        != "assistant"@ by {
                        if j < head.len() {
                            assert(head[j] == ms[j]);
                        }
                    }
                },
            }
        }
    }
    if bs.len() > 0 {
        let head = bs.drop_last();
        if bs.last() is Text {
            assert(bs[bs.len() - 1] == bs.last());
        } else {
            law_the_last_word(ms, head);
            match lifecycle::last_text(head) {
                Some(t) => {
                    let i = choose|i: int|
                        0 <= i < head.len() && #[trigger] head[i] == (client::BlockView::Text {
                            text: t,
                        }) && forall|j: int| i < j < head.len() ==> !((#[trigger] head[j]) is Text);
                    assert(bs[i] == head[i]);
                    assert forall|j: int| i < j < bs.len() implies !((#[trigger] bs[j]) is Text) by {
                        if j < head.len() {
                            assert(head[j] == bs[j]);
                        }
                    }
                },
                None => {
                    assert forall|j: int| 0 <= j < bs.len() implies !((#[trigger] bs[j]) is Text) by {
                        if j < head.len() {
                            assert(head[j] == bs[j]);
                        }
                    }
                },
            }
        }
    }
}

/// The law of departures: of the tasks of one who leaves, those in progress are pending again
/// and without an owner, and those that are completed stay so; all else of a task stays.
pub proof fn law_a_departure_gives_tasks_back(v: TeamView, name: Seq<char>, i: int)
    requires
        0 <= i < v.tasks.len(),
    ensures
        ({
            let w = runtime::after_retiring(v, name);
            let mine = v.tasks[i].status == TaskStatus::InProgress && v.tasks[i].owner == Some(
                name,
            );
            &&& w.tasks.len() == v.tasks.len()
            &&& mine ==> w.tasks[i].status == TaskStatus::Pending && w.tasks[i].owner is None
            &&& !mine ==> w.tasks[i] == v.tasks[i]
            &&& w.tasks[i].id == v.tasks[i].id && w.tasks[i].subject == v.tasks[i].subject
            &&& w.tasks[i].description == v.tasks[i].description
            &&& w.tasks[i].blocked_by == v.tasks[i].blocked_by && w.tasks[i].worktree
                == v.tasks[i].worktree
            &&& w.mail == v.mail && w.protocols.requests == v.protocols.requests
            &&& forall|k: Seq<char>|
                k != name ==> (#[trigger] w.active.contains_key(k)) == v.active.contains_key(k)
                    && w.protocols.gate(k) == v.protocols.gate(k) && w.work.task_of(k)
                    == v.work.task_of(k)
        }),
{
}

/// The law of answers: an answer moves a request exactly where the request is pending, the
/// answer is of the kind that it asks for, and comes from the one who was asked to the one
/// who asked; it is approved exactly where the answer approves.
pub proof fn law_answers_move_their_request(
    p: protocols::ProtocolsView,
    kind: Seq<char>,
    id: Seq<char>,
    approve: bool,
    from: Seq<char>,
    to: Seq<char>,
)
    ensures
        ({
            let q = p.after_response(kind, id, approve, from, to);
            let r = p.requests[id];
            let fits = p.requests.contains_key(id) && r.status == ProtocolStatus::Pending && from
                == r.target && to == r.sender && (r.ptype == ProtocolType::Shutdown ==> kind
                == "shutdown_response"@) && (r.ptype == ProtocolType::PlanApproval ==> kind
                == "plan_approval_response"@);
            &&& !fits ==> q == p
            &&& fits && approve ==> q.requests[id].status == ProtocolStatus::Approved
            &&& fits && !approve ==> q.requests[id].status == ProtocolStatus::Rejected
            &&& fits ==> q.requests[id].payload == r.payload && q.requests[id].sender == r.sender
                && q.requests[id].target == r.target && q.requests[id].task_id == r.task_id
            &&& q.gates == p.gates && q.plan_ids == p.plan_ids
        }),
{
}

/// The law of plan gates set: setting one sets it for its owner alone; without one there is
/// none to wait for. Setting the status of a request sets nothing else.
pub proof fn law_gates_are_set_one_by_one(
    p: protocols::ProtocolsView,
    owner: Seq<char>,
    g: GateStatus,
    other: Seq<char>,
    id: Seq<char>,
    status: ProtocolStatus,
)
    ensures
        p.with_gate(owner, g).gate(owner) == g,
        other != owner ==> p.with_gate(owner, g).gate(other) == p.gate(other),
        p.with_gate(owner, g).requests == p.requests,
        p.with_gate(owner, g).plan_ids == p.plan_ids,
        !p.gates.contains_key(owner) ==> p.gate(owner) == GateStatus::NotRequired,
        p.with_status(id, status).requests[id].status == status,
        p.with_status(id, status).requests[id].payload == p.requests[id].payload,
        p.with_status(id, status).requests[id].sender == p.requests[id].sender,
        p.with_status(id, status).requests[id].target == p.requests[id].target,
        p.with_status(id, status).gates == p.gates,
        other != id ==> p.with_status(id, status).requests[other] == p.requests[other],
{
}

/// The law of the lead's mail: its messages are worked off one after the other. One whose
/// type ends in `_response` answers its request, from its sender to its recipient; no other
/// changes a request, and none frees anybody's changes.
pub proof fn law_the_leads_mail_answers_requests(
    p: protocols::ProtocolsView,
    a: Seq<bus::MailView>,
    b: Seq<bus::MailView>,
    m: bus::MailView,
)
    ensures
        inbox::after_answers(p, a + b) == inbox::after_answers(inbox::after_answers(p, a), b),
        inbox::after_answers(p, a).gates == p.gates,
        inbox::after_answers(p, a).plan_ids == p.plan_ids,
        !text::ends(m.msg_type, "_response"@) ==> inbox::after_answers(p, seq![m]) == p,
        text::ends(m.msg_type, "_response"@) && m.request_id() is Some ==> inbox::after_answers(
            p,
            seq![m],
        ) == p.after_response(m.msg_type, m.request_id()->0, m.approves(), m.from, m.to),
    decreases a.len() + b.len(),
{
    assert(seq![m].drop_last() =~= Seq::empty());
    assert(inbox::after_answers(p, seq![m].drop_last()) == p);
    assert(seq![m].last() == m);
    if b.len() == 0 {
        assert(a + b =~= a);
    } else {
        law_the_leads_mail_answers_requests(p, a, b.drop_last(), m);
        assert((a + b).drop_last() =~= a + b.drop_last());
        assert((a + b).last() == b.last());
    }
    if a.len() > 0 {
        law_the_leads_mail_answers_requests(p, a.drop_last(), Seq::empty(), m);
    }
}

/// The law of what the lead sees: every message has a line of its own, in their order, that
/// names its type and its sender and holds all of its content.
pub proof fn law_the_lead_sees_every_message(ms: Seq<bus::MailView>, i: int)
    requires
        0 <= i < ms.len(),
    ensures
        inbox::team_events(ms) == "[Team events]\n"@ + text::joined(
            ms.map_values(|m: bus::MailView| inbox::event_line(m)),
            "\n"@,
        ),
        text::begins(inbox::event_line(ms[i]), "["@ + ms[i].msg_type),
        text::ends(inbox::event_line(ms[i]), "] "@ + ms[i].from + ": "@ + ms[i].content),
        ms[i].request_id() is Some ==> text::has(
            inbox::event_line(ms[i]),
            ms[i].request_id()->0,
        ),
        ms[i].request_id() is None || ms[i].request_id()->0.len() == 0 ==> inbox::event_line(ms[i])
            == "["@ + ms[i].msg_type + "] "@ + ms[i].from + ": "@ + ms[i].content,
{
    let m = ms[i];
    let out = inbox::event_line(m);
    let head = "["@ + m.msg_type;
    let tail = "] "@ + m.from + ": "@ + m.content;
    assert(out.subrange(0, head.len() as int) =~= head);
    assert(out.subrange(out.len() - tail.len(), out.len() as int) =~= tail);
    assert(head + Seq::<char>::empty() =~= head);
    if let Some(id) = m.request_id() {
        if id.len() == 0 {
            assert(out.subrange(0, 0) =~= id);
            assert(text::occurs_at(out, id, 0));
        } else {
            let at = (head + " request_id="@).len() as int;
            assert(out.subrange(at, at + id.len()) =~= id);
            assert(text::occurs_at(out, id, at));
        }
    }
}

/// The law of padded numbers: the digits of a request's number are as many as asked for and
/// stand for it.
pub proof fn law_request_numbers(n: nat, width: nat)
    requires
        n < protocols::power10(width),
    ensures
        protocols::padded(n, width).len() == width,
        crate::text_laws::value(protocols::padded(n, width)) == n,
    decreases width,
{
    if width > 0 {
        let w = (width - 1) as nat;
        assert(n / 10 < protocols::power10(w));
        law_request_numbers(n / 10, w);
        assert(protocols::padded(n, width).drop_last() =~= protocols::padded(n / 10, w));
    }
}

/// The law of consent: a message approves exactly where its metadata says so in the member
/// `approve`; one that says nothing, or anything but true, does not. It is about the request
/// that the member `request_id` names.
pub proof fn law_silence_is_no_approval(m: bus::MailView)
    ensures
        m.approves() <==> match json::json_value(m.metadata) {
            Ok(v) => match v.child("approve"@) {
                Some(json::JsonView::Bool(b)) => b,
                _ => false,
            },
            Err(_) => false,
        },
        m.request_id() == match json::json_value(m.metadata) {
            Ok(v) => match v.child("request_id"@) {
                Some(json::JsonView::Str(s)) => Some(s),
                _ => None,
            },
            Err(_) => None,
        },
{
}

/// The law of drawn ids: an id that is drawn is the first one, from the counter on, that no
/// request has, and the counter then stands behind it.
pub proof fn law_ids_are_drawn_in_turn(p: protocols::ProtocolsView, count: u32, k: nat)
    requires
        !p.requests.contains_key(protocols::request_name(protocols::drawn(count, k))),
        forall|j: nat|
            j < k ==> p.requests.contains_key(
                #[trigger] protocols::request_name(protocols::drawn(count, j)),
            ),
        count + k + 1 <= u32::MAX,
    ensures
        protocols::free_name(p, count) == protocols::request_name(
            ((count + k) % 1_000_000) as nat,
        ),
        protocols::count_after(p, count) == count + k + 1,
{
    assert(protocols::is_first_free(p, count, k));
    let f = protocols::first_free(p, count);
    assert(protocols::is_first_free(p, count, f));
    if f < k {
        assert(p.requests.contains_key(protocols::request_name(protocols::drawn(count, f))));
    } else if k < f {
        assert(p.requests.contains_key(protocols::request_name(protocols::drawn(count, k))));
    }
}

/// The law of current plans: an answer counts exactly where it is about the plan that its
/// reader submitted last, which waits for the lead, and which was made for the work and the
/// task that the reader has now.
pub proof fn law_which_answers_count(v: TeamView, owner: Seq<char>, m: bus::MailView)
    ensures
        inbox::answers_current_plan(v, owner, m) <==> {
            let id = m.request_id()->0;
            let r = v.protocols.requests[id];
            &&& m.request_id() is Some
            &&& v.protocols.requests.contains_key(id)
            &&& r.ptype == ProtocolType::PlanApproval && r.sender == owner && r.target == "lead"@
            &&& r.status == ProtocolStatus::Pending
            &&& v.protocols.plan_ids.contains_key(owner) && v.protocols.plan_ids[owner] == id
            &&& r.work_version == Some(
                if v.work.versions.contains_key(owner) {
                    v.work.versions[owner]
                } else {
                    0
                },
            )
            &&& v.work.current.contains_key(owner) ==> r.task_id == Some(
                v.work.current[owner].task_id,
            )
            &&& !v.work.current.contains_key(owner) ==> r.task_id is None
        },
        inbox::answers_current_plan(v, owner, m) ==> {
            let w = inbox::after_plan_response(v, owner, m);
            &&& m.approves() ==> w.protocols.gate(owner) == GateStatus::Approved
            &&& !m.approves() ==> w.protocols.gate(owner) == GateStatus::Rejected
            &&& m.approves() ==> w.protocols.requests[m.request_id()->0].status
                == ProtocolStatus::Approved
            &&& !m.approves() ==> w.protocols.requests[m.request_id()->0].status
                == ProtocolStatus::Rejected
            &&& !w.protocols.plan_ids.contains_key(owner)
            &&& w.active[owner] == TeammateStatus::Working
            &&& w.tasks == v.tasks && w.work == v.work && w.mail == v.mail
        },
        !inbox::answers_current_plan(v, owner, m) ==> inbox::after_plan_response(v, owner, m) == v,
{
}

/// The law of accepted shutdowns: a request to stop is accepted exactly where it is the
/// lead's to this teammate, pending, and the teammate does not stop already.
pub proof fn law_which_shutdowns_are_accepted(v: TeamView, owner: Seq<char>, m: bus::MailView)
    ensures
        inbox::accepts_shutdown(v, owner, m) <==> {
            let id = m.request_id()->0;
            let r = v.protocols.requests[id];
            &&& m.request_id() is Some
            &&& v.protocols.requests.contains_key(id)
            &&& r.ptype == ProtocolType::Shutdown && r.sender == "lead"@ && r.target == owner
            &&& r.status == ProtocolStatus::Pending
            &&& !v.active.contains_key(owner) || v.active[owner] != TeammateStatus::Stopping
        },
{
}

/// The law of taking and releasing: a look for work ends in a claim exactly where it changes
/// the work of the one who looks, and a turn ends in a release exactly where it does.
pub proof fn law_when_work_changes_hands(
    v: TeamView,
    name: Seq<char>,
    ms: Seq<client::MessageView>,
    git: worktree::GitView,
    unsaved: Seq<Seq<char>>,
)
    ensures
        runtime::takes_task(v, name, git, unsaved) <==> runtime::looked(
            v,
            name,
            ms,
            git,
            unsaved,
        ).team.work.task_of(name) != v.work.task_of(name),
        runtime::releases_work(v, name) <==> runtime::after_turn(v, name, ms).0.work.task_of(name)
            != v.work.task_of(name),
{
    let read = TeamView { mail: bus::not_addressed(v.mail, name), ..v };
    let mail = bus::addressed(v.mail, name);
    mail_keeps_tasks(
        inbox::Drained { team: read, work: Seq::empty(), stop: false },
        name,
        mail,
    );
}

/// The law of the counter: it counts every draw, and begins again behind the largest number
/// that it can hold.
pub proof fn law_the_counter_goes_round(count: u32, k: nat)
    ensures
        count + k < 0x1_0000_0000 ==> protocols::counted_on(count, k) == count + k,
        protocols::counted_on(u32::MAX, 1) == 0,
        protocols::counted_on(count, k + 0x1_0000_0000) == protocols::counted_on(count, k),
        protocols::drawn(count, k) == protocols::counted_on(count, k) % 1_000_000,
{
    assert((count + k + 0x1_0000_0000) % 0x1_0000_0000 == (count + k) % 0x1_0000_0000);
}

/// The law of phases: a teammate with mail stops where the mail stops it, works where it was
/// told something, and waits on where it was told nothing; all that it was told joins its
/// conversation; and its mailbox is empty then. Without mail it works exactly where it took
/// a task, of which it is told.
pub proof fn law_what_a_look_comes_to(
    v: TeamView,
    name: Seq<char>,
    ms: Seq<client::MessageView>,
    git: worktree::GitView,
    unsaved: Seq<Seq<char>>,
)
    ensures
        ({
            let out = runtime::looked(v, name, ms, git, unsaved);
            let mail = bus::addressed(v.mail, name);
            let read = TeamView { mail: bus::not_addressed(v.mail, name), ..v };
            let d = inbox::after_mails(
                inbox::Drained { team: read, work: Seq::empty(), stop: false },
                name,
                mail,
            );
            &&& mail.len() > 0 ==> {
                &&& out.team == d.team
                &&& d.stop ==> out.phase == runtime::Phase::Stop
                &&& !d.stop && d.work.len() > 0 ==> out.phase == runtime::Phase::Continue
                &&& !d.stop && d.work.len() == 0 ==> out.phase == runtime::Phase::Idle
                &&& d.work.len() == 0 ==> out.messages == ms
                &&& d.work.len() > 0 ==> out.messages == ms.push(
                    client::text_message("user"@, text::joined(d.work, "\n"@)),
                )
            }
            &&& mail.len() == 0 ==> {
                &&& out.phase != runtime::Phase::Stop
                &&& out.phase == runtime::Phase::Continue <==> out.team.work.task_of(name)
                    != v.work.task_of(name)
                &&& out.phase == runtime::Phase::Continue ==> out.messages.len() == ms.len() + 1
                    && out.messages.drop_last() == ms && out.messages.last().role == "user"@
                &&& out.phase == runtime::Phase::Idle ==> out.messages == ms
            }
        }),
{
    let out = runtime::looked(v, name, ms, git, unsaved);
    if out.messages.len() == ms.len() + 1 {
        assert(out.messages.drop_last() =~= ms);
    }
}

/// The law of first words: a new teammate is told its prompt, and behind it the task that it
/// was given, where it was given one: its id, its subject, all of its description, and where
/// to work.
pub proof fn law_what_a_new_teammate_is_told(v: TeamView, name: Seq<char>, prompt: Seq<char>)
    ensures
        ({
            let out = runtime::first_text(v, name, prompt);
            let a = v.work.current[name];
            let t = task::find_task(v.tasks, a.task_id);
            &&& prompt.is_prefix_of(out)
            &&& !v.work.current.contains_key(name) || t is None ==> out == prompt
            &&& v.work.current.contains_key(name) && t is Some ==> out == prompt
                + "\n\n[Assigned task "@ + t->0.id + "] "@ + t->0.subject + "\n"@
                + t->0.description + "\nWork directory: "@ + a.cwd
        }),
{
    let out = runtime::first_text(v, name, prompt);
    assert(prompt =~= out.take(prompt.len() as int));
    let a = v.work.current[name];
    if let Some(t) = task::find_task(v.tasks, a.task_id) {
        if v.work.current.contains_key(name) {
            assert(out =~= prompt + "\n\n[Assigned task "@ + t.id + "] "@ + t.subject + "\n"@
                + t.description + "\nWork directory: "@ + a.cwd);
        }
    }
}

} // verus!
