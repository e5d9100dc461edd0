//! The team: teammates, their tasks, mailboxes and protocols.
//!
//! [`TeamCtx`] is the state that the lead and the teammates share. The functions here
//! decide and change that state; the caller holds the lock on the task directory, loads
//! the tasks before and saves them after.

use vstd::prelude::*;

use crate::strmap::StrMap;
use crate::task;
use crate::task::{Task, TaskStatus, TaskStore};
use crate::text;

pub mod assignment;
pub mod bus;
pub mod checkout;
pub mod claim_laws;
pub mod inbox;
pub mod lifecycle;
pub mod plan;
pub mod plan_laws;
pub mod protocols;
pub mod runtime;
pub mod worktree;
pub mod worktree_laws;

use crate::team::assignment::{Assignment, AssignmentRegistry};
use crate::team::bus::MessageBus;
use crate::team::protocols::{GateStatus, ProtocolRegistry};
use crate::team::worktree::GitRegistry;

verus! {

/// What a teammate is doing.
#[derive(Debug, Clone, Copy, PartialEq, Eq, Structural)]
pub enum TeammateStatus {
    Working,
    WaitingApproval,
    Idle,
    Stopping,
}

/// The state of the team.
pub struct TeamCtx {
    pub bus: MessageBus,
    pub assignments: AssignmentRegistry,
    pub protocols: ProtocolRegistry,
    pub active: StrMap<TeammateStatus>,
    pub task_store: TaskStore,
    pub workdir: String,
}

/// The mathematical content of a [`TeamCtx`].
#[verifier::ext_equal]
pub struct TeamView {
    pub mail: Seq<bus::MailView>,
    pub work: assignment::AssignmentsView,
    pub protocols: protocols::ProtocolsView,
    pub active: Map<Seq<char>, TeammateStatus>,
    pub tasks: Seq<task::TaskView>,
    pub workdir: Seq<char>,
    /// The directory above the mailboxes.
    pub mail_root: Seq<char>,
}

impl View for TeamCtx {
    type V = TeamView;

    open spec fn view(&self) -> TeamView {
        TeamView {
            mail: self.bus@,
            work: self.assignments@,
            protocols: self.protocols@,
            active: self.active@,
            tasks: self.task_store@,
            workdir: self.workdir@,
            mail_root: self.bus.workdir@,
        }
    }
}

impl TeamCtx {
    /// A team without teammates, over the given tasks.
    pub fn new(workdir: String, task_store: TaskStore) -> (r: Self)
        ensures
            r@.workdir == workdir@,
            r@.mail_root == workdir@,
            r@.tasks == task_store@,
            r@.mail == Seq::<bus::MailView>::empty(),
            r@.active == Map::<Seq<char>, TeammateStatus>::empty(),
            r@.work.current == Map::<Seq<char>, assignment::AssignmentView>::empty(),
            r@.work.versions == Map::<Seq<char>, u32>::empty(),
            r@.protocols.requests == Map::<Seq<char>, protocols::ProtocolView>::empty(),
            r@.protocols.gates == Map::<Seq<char>, GateStatus>::empty(),
            r@.protocols.plan_ids == Map::<Seq<char>, Seq<char>>::empty(),
    {
        TeamCtx {
            bus: MessageBus::new(workdir.clone()),
            assignments: AssignmentRegistry::new(),
            protocols: ProtocolRegistry::new(),
            active: StrMap::new(),
            task_store,
            workdir,
        }
    }
}

// ---- claiming and completing ----

/// The tasks before a task that are not completed; one that cannot be found is not.
pub open spec fn unfinished(ts: Seq<task::TaskView>, deps: Seq<Seq<char>>) -> Seq<Seq<char>>
    decreases deps.len(),
{
    if deps.len() == 0 {
        Seq::empty()
    } else {
        let rest = unfinished(ts, deps.drop_last());
        match task::find_task(ts, deps.last()) {
            Some(t) => if t.status == TaskStatus::Completed {
                rest
            } else {
                rest.push(deps.last())
            },
            None => rest.push(deps.last()),
        }
    }
}

/// A list of texts as `{:?}` prints it.
pub open spec fn debug_list(v: Seq<Seq<char>>) -> Seq<char> {
    "["@ + text::joined(v.map_values(|s: Seq<char>| text::debug_quoted(s)), ", "@) + "]"@
}

fn print_debug_list(v: &[String]) -> (r: String)
    ensures
        r@ == debug_list(text::views(v@)),
{
    let ghost want = text::views(v@).map_values(|s: Seq<char>| text::debug_quoted(s));
    let mut parts: Vec<String> = Vec::new();
    let mut i: usize = 0;
    while i < v.len()
        invariant
            i <= v@.len(),
            want == text::views(v@).map_values(|s: Seq<char>| text::debug_quoted(s)),
            text::views(parts@) == want.take(i as int),
        decreases v@.len() - i,
    {
        let ghost before = text::views(parts@);
        parts.push(text::debug_text(v[i].as_str()));
        assert(text::views(parts@) =~= before.push(text::debug_quoted(v@[i as int]@)));
        assert(text::views(parts@) =~= want.take(i + 1));
        i += 1;
    }
    assert(want.take(want.len() as int) =~= want);
    "[".to_string().concat(text::join(&parts, ", ").as_str()).concat("]")
}

/// Why `owner` cannot claim a task; nothing where it can.
pub open spec fn claim_refusal(v: TeamView, id: Seq<char>, owner: Seq<char>, git: worktree::GitView) -> Option<
    Seq<char>,
> {
    match task::find_task(v.tasks, id) {
        None => Some("Error: Task "@ + id + " not found"@),
        Some(t) => if t.status != TaskStatus::Pending {
            Some("Task "@ + id + " is "@ + t.status.word() + ", cannot claim"@)
        } else if t.owner is Some {
            Some("Task "@ + id + " is already owned by "@ + t.owner->0)
        } else if v.work.current.contains_key(owner) {
            Some(
                "Owner "@ + owner + " must finish current work before claiming another task"@,
            )
        } else if unfinished(v.tasks, t.blocked_by).len() > 0 {
            Some("Blocked by: "@ + debug_list(unfinished(v.tasks, t.blocked_by)))
        } else {
            match worktree::task_cwd(v.workdir, t, git).1 {
                Some(e) => Some("Cannot claim "@ + id + ": "@ + e),
                None => None,
            }
        },
    }
}

/// The task as its new owner works on it.
pub open spec fn claimed_task(t: task::TaskView, owner: Seq<char>) -> task::TaskView {
    task::TaskView { status: TaskStatus::InProgress, owner: Some(owner), ..t }
}

/// The team after a claim.
pub open spec fn after_claim(v: TeamView, id: Seq<char>, owner: Seq<char>, git: worktree::GitView) -> TeamView {
    let t = task::find_task(v.tasks, id)->0;
    TeamView {
        tasks: task::with_task(v.tasks, claimed_task(t, owner)),
        work: v.work.assigned(
            owner,
            assignment::AssignmentView {
                task_id: t.id,
                cwd: worktree::task_cwd(v.workdir, t, git).0,
            },
        ).advanced(owner),
        ..v
    }
}

/// Why `owner` cannot complete a task; nothing where it can.
pub open spec fn complete_refusal(v: TeamView, id: Seq<char>, owner: Seq<char>) -> Option<Seq<char>> {
    match task::find_task(v.tasks, id) {
        None => Some("Error: Task "@ + id + " not found"@),
        Some(t) => if t.status != TaskStatus::InProgress {
            Some("Task "@ + id + " is "@ + t.status.word() + ", cannot complete"@)
        } else if t.owner != Some(owner) {
            Some(
                "Task "@ + id + " is owned by "@ + (match t.owner {
                    Some(o) => o,
                    None => "none"@,
                }) + ", not "@ + owner,
            )
        } else if v.protocols.gate(owner).blocks() {
            Some("Task "@ + id + " cannot complete while plan status blocks changes"@)
        } else {
            None
        },
    }
}

/// The team after a completion.
pub open spec fn after_complete(v: TeamView, id: Seq<char>) -> TeamView {
    let t = task::find_task(v.tasks, id)->0;
    TeamView {
        tasks: task::with_task(
            v.tasks,
            task::TaskView { status: TaskStatus::Completed, ..t },
        ),
        ..v
    }
}

pub(crate) fn incomplete_deps(store: &TaskStore, t: &Task) -> (r: Vec<String>)
    ensures
        text::views(r@) == unfinished(store@, t@.blocked_by),
{
    let ghost deps = t@.blocked_by;
    let mut out: Vec<String> = Vec::new();
    let mut i: usize = 0;
    assert(text::views(out@) =~= Seq::<Seq<char>>::empty());
    while i < t.blocked_by.len()
        invariant
            i <= t.blocked_by@.len(),
            deps == text::views(t.blocked_by@),
            text::views(out@) == unfinished(store@, deps.take(i as int)),
        decreases t.blocked_by@.len() - i,
    {
        let ghost before = text::views(out@);
        assert(deps.take(i + 1).drop_last() =~= deps.take(i as int));
        assert(deps.take(i + 1).last() == t.blocked_by@[i as int]@);
        let done = match store.load(t.blocked_by[i].as_str()) {
            Some(d) => d.status == TaskStatus::Completed,
            None => false,
        };
        if !done {
            out.push(t.blocked_by[i].clone());
            assert(text::views(out@) =~= before.push(t.blocked_by@[i as int]@));
        }
        i += 1;
    }
    assert(deps.take(deps.len() as int) =~= deps);
    out
}

impl TeamCtx {
    /// The task as it would be saved, and the directory of the work, if `owner` claimed it
    /// now; or why it cannot.
    pub fn plan_claim(&self, task_id: &str, owner: &str, git: &GitRegistry) -> (r: Result<
        (Task, String),
        String,
    >)
        ensures
            match r {
                Ok((t, cwd)) => {
                    &&& claim_refusal(self@, task_id@, owner@, git@) is None
                    &&& task::find_task(self@.tasks, task_id@) is Some
                    &&& t@ == claimed_task(task::find_task(self@.tasks, task_id@)->0, owner@)
                    &&& cwd@ == worktree::task_cwd(
                        self@.workdir,
                        task::find_task(self@.tasks, task_id@)->0,
                        git@,
                    ).0
                },
                Err(e) => claim_refusal(self@, task_id@, owner@, git@) == Some(e@),
            },
    {
        let mut t = match self.task_store.load(task_id) {
            Some(t) => t,
            None => {
                return Err("Error: Task ".to_string().concat(task_id).concat(" not found"));
            },
        };
        let ghost tv = t@;
        if t.status != TaskStatus::Pending {
            return Err(
                "Task ".to_string().concat(task_id).concat(" is ").concat(
                    t.status.as_word(),
                ).concat(", cannot claim"),
            );
        }
        if let Some(o) = &t.owner {
            return Err(
                "Task ".to_string().concat(task_id).concat(" is already owned by ").concat(
                    o.as_str(),
                ),
            );
        }
        if self.assignments.get(owner).is_some() {
            return Err(
                "Owner ".to_string().concat(owner).concat(
                    " must finish current work before claiming another task",
                ),
            );
        }
        let blocked = incomplete_deps(&self.task_store, &t);
        assert(text::views(blocked@).len() == blocked@.len());
        if blocked.len() > 0 {
            return Err(
                "Blocked by: ".to_string().concat(print_debug_list(&blocked).as_str()),
            );
        }
        let (cwd, err) = worktree::task_worktree_cwd(self.workdir.as_str(), &t, git);
        if let Some(e) = err {
            return Err(
                "Cannot claim ".to_string().concat(task_id).concat(": ").concat(e.as_str()),
            );
        }
        t.status = TaskStatus::InProgress;
        t.owner = Some(owner.to_string());
        assert(t@ == claimed_task(tv, owner@));
        Ok((t, cwd))
    }

    /// The task as it would be saved if `owner` completed it now; or why it cannot.
    pub fn plan_complete(&self, task_id: &str, owner: &str) -> (r: Result<Task, String>)
        ensures
            match r {
                Ok(t) => {
                    &&& complete_refusal(self@, task_id@, owner@) is None
                    &&& task::find_task(self@.tasks, task_id@) is Some
                    &&& t@ == (task::TaskView {
                        status: TaskStatus::Completed,
                        ..task::find_task(self@.tasks, task_id@)->0
                    })
                },
                Err(e) => complete_refusal(self@, task_id@, owner@) == Some(e@),
            },
    {
        let mut t = match self.task_store.load(task_id) {
            Some(t) => t,
            None => {
                return Err("Error: Task ".to_string().concat(task_id).concat(" not found"));
            },
        };
        if t.status != TaskStatus::InProgress {
            return Err(
                "Task ".to_string().concat(task_id).concat(" is ").concat(
                    t.status.as_word(),
                ).concat(", cannot complete"),
            );
        }
        if !task::is_text(&t.owner, owner) {
            let who: &str = match &t.owner {
                Some(o) => o.as_str(),
                None => "none",
            };
            return Err(
                "Task ".to_string().concat(task_id).concat(" is owned by ").concat(who).concat(
                    ", not ",
                ).concat(owner),
            );
        }
        if self.protocols.gate(owner).blocks_mutating_tools() {
            return Err(
                "Task ".to_string().concat(task_id).concat(
                    " cannot complete while plan status blocks changes",
                ),
            );
        }
        t.status = TaskStatus::Completed;
        Ok(t)
    }
}

/// Claims a task for `owner` and binds the directory of the work. `saved` is how saving
/// the claimed task went; where it failed nothing is claimed.
pub fn claim_task(
    team: &mut TeamCtx,
    task_id: &str,
    owner: &str,
    git: &GitRegistry,
    saved: Result<(), String>,
) -> (r: String)
    requires
        claim_refusal(old(team)@, task_id@, owner@, git@) is None && saved is Ok
            ==> old(team)@.work.version(owner@) < u32::MAX,
    ensures
        match claim_refusal(old(team)@, task_id@, owner@, git@) {
            Some(e) => r@ == e && final(team)@ == old(team)@,
            None => match saved {
                Err(e) => r@ == "Error: "@ + e@ && final(team)@ == old(team)@,
                Ok(_) => {
                    &&& r@ == "Claimed "@ + task::find_task(old(team)@.tasks, task_id@)->0.id
                        + " ("@ + task::find_task(old(team)@.tasks, task_id@)->0.subject + ")"@
                    &&& final(team)@ == after_claim(old(team)@, task_id@, owner@, git@)
                },
            },
        },
{
    let (t, cwd) = match team.plan_claim(task_id, owner, git) {
        Ok(p) => p,
        Err(e) => {
            return e;
        },
    };
    if let Err(e) = saved {
        return "Error: ".to_string().concat(e.as_str());
    }
    team.task_store.save(&t);
    team.assignments.set(owner, Assignment { task_id: t.id.clone(), cwd });
    let _version: u32 = team.assignments.advance_version(owner);
    "Claimed ".to_string().concat(t.id.as_str()).concat(" (").concat(t.subject.as_str()).concat(")")
}

/// Completes a task of `owner`. `saved` is how saving the completed task went.
pub fn complete_task(team: &mut TeamCtx, task_id: &str, owner: &str, saved: Result<(), String>) -> (r:
    String)
    ensures
        match complete_refusal(old(team)@, task_id@, owner@) {
            Some(e) => r@ == e && final(team)@ == old(team)@,
            None => match saved {
                Err(e) => r@ == "Error: "@ + e@ && final(team)@ == old(team)@,
                Ok(_) => {
                    &&& r@ == "Completed "@ + task::find_task(old(team)@.tasks, task_id@)->0.id
                        + " ("@ + task::find_task(old(team)@.tasks, task_id@)->0.subject + ")"@
                    &&& final(team)@ == after_complete(old(team)@, task_id@)
                },
            },
        },
{
    let t = match team.plan_complete(task_id, owner) {
        Ok(p) => p,
        Err(e) => {
            return e;
        },
    };
    if let Err(e) = saved {
        return "Error: ".to_string().concat(e.as_str());
    }
    team.task_store.save(&t);
    "Completed ".to_string().concat(t.id.as_str()).concat(" (").concat(t.subject.as_str()).concat(
        ")",
    )
}

/// A claimed task has one owner: after a claim succeeded, every further claim of the same
/// task is refused, whoever makes it, and changes nothing.
pub proof fn law_one_winner(
    v: TeamView,
    id: Seq<char>,
    owner: Seq<char>,
    git: worktree::GitView,
    other: Seq<char>,
    git2: worktree::GitView,
)
    requires
        claim_refusal(v, id, owner, git) is None,
    ensures
        claim_refusal(after_claim(v, id, owner, git), id, other, git2) == Some(
            "Task "@ + id + " is "@ + TaskStatus::InProgress.word() + ", cannot claim"@,
        ),
        task::find_task(after_claim(v, id, owner, git).tasks, id) is Some,
        task::find_task(after_claim(v, id, owner, git).tasks, id)->0.owner == Some(owner),
{
    let t = task::find_task(v.tasks, id)->0;
    task::find_task_id(v.tasks, id);
    task::law_save_then_load(v.tasks, claimed_task(t, owner), id);
}

/// An owner works on one task at a time: after a claim succeeded, the owner's claims of
/// any other task are refused.
pub proof fn law_one_task_per_owner(
    v: TeamView,
    id: Seq<char>,
    owner: Seq<char>,
    git: worktree::GitView,
    other_id: Seq<char>,
    git2: worktree::GitView,
)
    requires
        claim_refusal(v, id, owner, git) is None,
    ensures
        claim_refusal(after_claim(v, id, owner, git), other_id, owner, git2) is Some,
{
    let w = after_claim(v, id, owner, git);
    assert(w.work.current.contains_key(owner));
}

/// Only its owner completes a task, and only while no plan of the owner waits.
pub proof fn law_only_owner_completes(v: TeamView, id: Seq<char>, owner: Seq<char>)
    requires
        complete_refusal(v, id, owner) is None,
    ensures
        task::find_task(v.tasks, id) is Some,
        task::find_task(v.tasks, id)->0.owner == Some(owner),
        task::find_task(v.tasks, id)->0.status == TaskStatus::InProgress,
        !v.protocols.gate(owner).blocks(),
{
}

} // verus!
