//! Plans that wait for the lead's approval, and the tools for plans and teammates.

use vstd::prelude::*;

use crate::json;
use crate::json::{Json, JsonNode};
use crate::team::bus;
use crate::team::inbox;
use crate::team::protocols;
use crate::team::protocols::{
    GateStatus, ProtocolState, ProtocolStatus, ProtocolType, RequestIds,
};
use crate::team::{TeamCtx, TeamView, TeammateStatus};
use crate::text;
use crate::tools::{AgentKind, PermissionCheck, PermissionView, Tool, ToolDefView};

verus! {

/// The metadata of a message about a request.
pub open spec fn request_metadata(id: Seq<char>) -> Seq<char> {
    json::JsonView::Object(seq![("request_id"@, json::json_quoted(id))]).rendered()
}

/// The request for the approval of a plan.
pub open spec fn plan_request(
    v: TeamView,
    owner: Seq<char>,
    plan: Seq<char>,
    id: Seq<char>,
) -> protocols::ProtocolView {
    protocols::ProtocolView {
        request_id: id,
        ptype: ProtocolType::PlanApproval,
        sender: owner,
        target: "lead"@,
        status: ProtocolStatus::Pending,
        payload: plan,
        work_version: Some(v.work.version(owner)),
        task_id: v.work.task_of(owner),
    }
}

/// The team after a plan was submitted as the request `id`.
pub open spec fn after_submit(
    v: TeamView,
    owner: Seq<char>,
    plan: Seq<char>,
    id: Seq<char>,
) -> TeamView {
    TeamView {
        protocols: protocols::ProtocolsView {
            requests: v.protocols.requests.insert(id, plan_request(v, owner, plan, id)),
            gates: v.protocols.gates.insert(owner, GateStatus::Pending),
            plan_ids: v.protocols.plan_ids.insert(owner, id),
        },
        mail: bus::sent(
            v.mail,
            bus::MailView {
                from: owner,
                to: "lead"@,
                content: plan,
                msg_type: "plan_approval_request"@,
                metadata: request_metadata(id),
            },
        ),
        active: v.active.insert(owner, TeammateStatus::WaitingApproval),
        ..v
    }
}

/// Submits a plan for the lead's approval. The request remembers the version of the
/// teammate's work and its task, so that an approval does not outlive the work that it is
/// for. Its id is the next free one of the counter. Where a plan waits already, nothing
/// happens.
pub fn submit_plan(team: &mut TeamCtx, ids: &mut RequestIds, owner: &str, plan: &str) -> (r: String)
    requires
        old(team)@.protocols.gate(owner@) != GateStatus::Pending
            ==> old(team)@.protocols.requests.dom().len() < protocols::REQUEST_IDS,
    ensures
        ({
            let p = old(team)@.protocols;
            if p.gate(owner@) == GateStatus::Pending {
                &&& r@ == "A plan is already waiting for review."@
                &&& final(team)@ == old(team)@
                &&& final(ids).count == old(ids).count
            } else {
                &&& r@ == "Plan submitted. Wait for Lead's decision."@
                &&& !p.requests.contains_key(protocols::free_name(p, old(ids).count))
                &&& final(team)@ == after_submit(
                    old(team)@,
                    owner@,
                    plan@,
                    protocols::free_name(p, old(ids).count),
                )
                &&& final(ids).count == protocols::count_after(p, old(ids).count)
            }
        }),
{
    let ghost before = team@;
    let task_id = match team.assignments.get(owner) {
        Some(a) => Some(a.task_id),
        None => None,
    };
    assert(text::opt_view(task_id) == before.work.task_of(owner@));
    let work_version: u32 = team.assignments.version(owner);
    if team.protocols.gate(owner) == GateStatus::Pending {
        return "A plan is already waiting for review.".to_string();
    }
    let request_id = team.protocols.new_request_id(ids);
    let request = ProtocolState {
        request_id: request_id.clone(),
        ptype: ProtocolType::PlanApproval,
        sender: owner.to_string(),
        target: "lead".to_string(),
        status: ProtocolStatus::Pending,
        payload: plan.to_string(),
        work_version: Some(work_version),
        task_id,
    };
    assert(request@ == plan_request(before, owner@, plan@, request_id@));
    team.protocols.pending.insert(request_id.as_str(), request);
    assert(team@.protocols.requests =~= before.protocols.requests.insert(request_id@, request@));
    team.protocols.plan_request_ids.insert(owner, request_id.clone());
    assert(team@.protocols.plan_ids =~= before.protocols.plan_ids.insert(owner@, request_id@));
    let mut members: Vec<(String, String)> = Vec::new();
    members.push(("request_id".to_string(), json::quote(request_id.as_str())));
    assert(json::pairs(members@) =~= seq![("request_id"@, json::json_quoted(request_id@))]);
    let metadata = Json { text: JsonNode::Object(members).render() };
    assert(metadata@ == request_metadata(request_id@));
    team.bus.send(owner, "lead", plan, "plan_approval_request", Some(metadata));
    team.protocols.set_gate(owner, GateStatus::Pending);
    team.active.insert(owner, TeammateStatus::WaitingApproval);
    assert(team@ == after_submit(before, owner@, plan@, request_id@));
    "Plan submitted. Wait for Lead's decision.".to_string()
}

/// The law of plans: a submitted plan blocks the teammate's changes until the lead approves
/// it, and that approval opens its plan gate.
pub proof fn law_approval_opens_the_gate(
    v: TeamView,
    owner: Seq<char>,
    plan: Seq<char>,
    id: Seq<char>,
    m: bus::MailView,
)
    requires
        m.request_id() == Some(id),
        m.approves(),
    ensures
        ({
            let waiting = after_submit(v, owner, plan, id);
            &&& waiting.protocols.gate(owner).blocks()
            &&& inbox::answers_current_plan(waiting, owner, m)
            &&& inbox::after_plan_response(waiting, owner, m).protocols.gate(owner)
                == GateStatus::Approved
            &&& inbox::after_plan_response(waiting, owner, m).active[owner]
                == TeammateStatus::Working
        }),
{
}

/// A rejected plan leaves the teammate's changes blocked, and it waits no more.
pub proof fn law_rejection_keeps_the_changes_blocked(
    v: TeamView,
    owner: Seq<char>,
    plan: Seq<char>,
    id: Seq<char>,
    m: bus::MailView,
)
    requires
        m.request_id() == Some(id),
        !m.approves(),
    ensures
        ({
            let waiting = after_submit(v, owner, plan, id);
            let w = inbox::after_plan_response(waiting, owner, m);
            &&& w.protocols.gate(owner) == GateStatus::Rejected
            &&& w.protocols.gate(owner).blocks()
            &&& w.protocols.requests[id].status == ProtocolStatus::Rejected
            &&& !w.protocols.plan_ids.contains_key(owner)
            &&& inbox::plan_response_text(waiting, owner, m) == "[Plan rejected] "@ + m.content
        }),
{
}

pub const SUBMIT_PLAN_NAME: &'static str = "submit_plan";

pub const SUBMIT_PLAN_DESCRIPTION: &'static str = "Submit a work plan for Lead approval before changing files or running bash.";

pub const SUBMIT_PLAN_SCHEMA: &'static str = r#"{"type":"object","properties":{"plan":{"type":"string"}},"required":["plan"]}"#;

/// The text member `key` of an input, or the empty text.
pub open spec fn text_or_empty(input: Seq<char>, key: Seq<char>) -> Seq<char> {
    match json::text_str_member(input, key) {
        Some(s) => s,
        None => ""@,
    }
}

fn member_or_empty(input: &Json, key: &str) -> (r: String)
    ensures
        r@ == text_or_empty(input@, key@),
{
    match input.str_member(key) {
        Some(s) => s,
        None => "".to_string(),
    }
}

/// The tool by which a teammate submits a plan.
pub struct SubmitPlanTool;

impl SubmitPlanTool {
    /// The plan that an input holds.
    pub fn plan(&self, input: &Json) -> (r: String)
        ensures
            r@ == text_or_empty(input@, "plan"@),
    {
        member_or_empty(input, "plan")
    }
}

impl Tool for SubmitPlanTool {
    open spec fn facts(&self) -> ToolDefView {
        ToolDefView {
            name: SUBMIT_PLAN_NAME@,
            description: SUBMIT_PLAN_DESCRIPTION@,
            input_schema: SUBMIT_PLAN_SCHEMA@,
        }
    }

    open spec fn permission(&self, input: Seq<char>) -> PermissionView {
        PermissionView::Pass
    }

    open spec fn offered(&self, kind: AgentKind) -> bool {
        kind == AgentKind::Teammate
    }

    fn name(&self) -> (r: &str) {
        SUBMIT_PLAN_NAME
    }

    fn description(&self) -> (r: &str) {
        SUBMIT_PLAN_DESCRIPTION
    }

    fn input_schema(&self) -> (r: Json) {
        Json { text: SUBMIT_PLAN_SCHEMA.to_string() }
    }

    fn check_permission(&self, input: &Json) -> (r: PermissionCheck) {
        PermissionCheck::Pass
    }

    fn available_for(&self, kind: AgentKind) -> (r: bool) {
        kind == AgentKind::Teammate
    }
}

pub const SPAWN_NAME: &'static str = "spawn_teammate";

pub const SPAWN_DESCRIPTION: &'static str = "Spawn a persistent teammate. Propose a team and wait for user confirmation first.";

pub const SPAWN_SCHEMA: &'static str = r#"{"type":"object","properties":{"name":{"type":"string","pattern":"^[A-Za-z0-9_-]{1,64}$"},"role":{"type":"string"},"prompt":{"type":"string"},"task_id":{"type":"string","pattern":"^task_[0-9a-f]{8}$"},"require_plan":{"type":"boolean"}},"required":["name","role","prompt"]}"#;

/// A request for a new teammate.
pub struct SpawnRequest {
    pub name: String,
    pub role: String,
    pub prompt: String,
    pub task_id: Option<String>,
    pub require_plan: bool,
}

/// The tool by which the lead calls for a teammate.
pub struct SpawnTeammateTool;

impl SpawnTeammateTool {
    /// The teammate that an input asks for.
    pub fn request(&self, input: &Json) -> (r: SpawnRequest)
        ensures
            r.name@ == text_or_empty(input@, "name"@),
            r.role@ == text_or_empty(input@, "role"@),
            r.prompt@ == text_or_empty(input@, "prompt"@),
            text::opt_view(r.task_id) == json::text_str_member(input@, "task_id"@),
            r.require_plan == (json::text_bool_member(input@, "require_plan"@) == Some(true)),
    {
        SpawnRequest {
            name: member_or_empty(input, "name"),
            role: member_or_empty(input, "role"),
            prompt: member_or_empty(input, "prompt"),
            task_id: input.str_member("task_id"),
            require_plan: match input.bool_member("require_plan") {
                Some(b) => b,
                None => false,
            },
        }
    }
}

impl Tool for SpawnTeammateTool {
    open spec fn facts(&self) -> ToolDefView {
        ToolDefView {
            name: SPAWN_NAME@,
            description: SPAWN_DESCRIPTION@,
            input_schema: SPAWN_SCHEMA@,
        }
    }

    open spec fn permission(&self, input: Seq<char>) -> PermissionView {
        PermissionView::Pass
    }

    open spec fn offered(&self, kind: AgentKind) -> bool {
        kind == AgentKind::Lead
    }

    fn name(&self) -> (r: &str) {
        SPAWN_NAME
    }

    fn description(&self) -> (r: &str) {
        SPAWN_DESCRIPTION
    }

    fn input_schema(&self) -> (r: Json) {
        Json { text: SPAWN_SCHEMA.to_string() }
    }

    fn check_permission(&self, input: &Json) -> (r: PermissionCheck) {
        PermissionCheck::Pass
    }

    fn available_for(&self, kind: AgentKind) -> (r: bool) {
        kind == AgentKind::Lead
    }
}

} // verus!
