//! The life of a teammate: names, work, release.

use vstd::prelude::*;

use crate::client;
use crate::client::{ContentBlock, Message};
use crate::recall;
use crate::task;
use crate::task::{Task, TaskStatus};
use crate::team;
use crate::team::protocols::GateStatus;
use crate::team::worktree;
use crate::team::worktree::GitRegistry;
use crate::team::{TeamCtx, TeamView};
use crate::text;

verus! {

/// How long a teammate waits for messages before it looks for tasks, in seconds.
pub const IDLE_SCAN_SECONDS: u64 = 2;

/// A name that the runtime keeps for itself, however it is written.
pub open spec fn is_reserved(name: Seq<char>) -> bool {
    text::ascii_lowered(name) == "lead"@ || text::ascii_lowered(name) == "agent"@
}

/// Whether the runtime keeps a name for itself.
pub fn is_reserved_teammate_name(name: &str) -> (r: bool)
    ensures
        r == is_reserved(name@),
{
    let lower = text::ascii_lowercase(name);
    text::same(lower.as_str(), "lead") || text::same(lower.as_str(), "agent")
}

/// What a teammate is told of its part.
pub const TEAMMATE_DUTIES: &'static str = ". Use tools to complete the assigned Task, then call complete_task and report a concise result. If the first user message contains [Assigned task], that Task is already claimed; do not call claim_task for it again. When asked for a plan, call submit_plan and wait for approval before bash or file changes. File and shell tools use the Task's working directory; that directory is not a sandbox. The runtime delivers your final text to Lead. Use send_message only for intermediate coordination, addressing the coordinator as 'lead'.";

/// The system prompt of a teammate.
pub fn teammate_system_prompt(name: &str, role: &str) -> (r: String)
    ensures
        r@ == "You are '"@ + name@ + "', a "@ + role@ + TEAMMATE_DUTIES@,
{
    "You are '".to_string().concat(name).concat("', a ").concat(role).concat(TEAMMATE_DUTIES)
}

/// The team after an owner was released from its work.
pub open spec fn after_release(v: TeamView, owner: Seq<char>) -> TeamView {
    TeamView {
        work: v.work.released(owner).advanced(owner),
        protocols: v.protocols.with_gate(owner, GateStatus::NotRequired),
        ..v
    }
}

/// The owner's assigned task is completed and still its own.
pub open spec fn has_finished(v: TeamView, owner: Seq<char>) -> bool {
    match v.work.task_of(owner) {
        Some(id) => match task::find_task(v.tasks, id) {
            Some(t) => t.status == TaskStatus::Completed && t.owner == Some(owner),
            None => false,
        },
        None => false,
    }
}

/// Drops a teammate's assignment where its task is completed and still its own.
pub fn release_completed_assignment(team: &mut TeamCtx, owner: &str) -> (r: bool)
    requires
        has_finished(old(team)@, owner@) ==> old(team)@.work.version(owner@) < u32::MAX,
    ensures
        r == has_finished(old(team)@, owner@),
        final(team)@ == (if r {
            after_release(old(team)@, owner@)
        } else {
            old(team)@
        }),
{
    let a = match team.assignments.get(owner) {
        Some(a) => a,
        None => {
            return false;
        },
    };
    let t = match team.task_store.load(a.task_id.as_str()) {
        Some(t) => t,
        None => {
            return false;
        },
    };
    if t.status != TaskStatus::Completed || !task::is_text(&t.owner, owner) {
        return false;
    }
    release(team, owner);
    true
}

fn release(team: &mut TeamCtx, owner: &str)
    requires
        old(team)@.work.version(owner@) < u32::MAX,
    ensures
        final(team)@ == after_release(old(team)@, owner@),
{
    let _dropped = team.assignments.remove(owner);
    let _version: u32 = team.assignments.advance_version(owner);
    team.protocols.set_gate(owner, GateStatus::NotRequired);
}

/// A task after its owner left: work in progress is pending again.
pub open spec fn given_back(t: task::TaskView, owner: Seq<char>) -> task::TaskView {
    if t.status == TaskStatus::InProgress && t.owner == Some(owner) {
        task::TaskView { status: TaskStatus::Pending, owner: None, ..t }
    } else {
        t
    }
}

/// Releases a teammate that stops: the tasks it was working on are pending again, its
/// assignment is dropped and its gate is reset.
pub fn release_teammate_assignment(team: &mut TeamCtx, owner: &str)
    requires
        old(team)@.work.version(owner@) < u32::MAX,
    ensures
        final(team)@ == after_release(
            TeamView {
                tasks: old(team)@.tasks.map_values(|t: task::TaskView| given_back(t, owner@)),
                ..old(team)@
            },
            owner@,
        ),
{
    let ghost before = team@;
    let ghost want = before.tasks.map_values(|t: task::TaskView| given_back(t, owner@));
    let n: usize = team.task_store.tasks.len();
    let mut i: usize = 0;
    while i < n
        invariant
            i <= n,
            n == before.tasks.len(),
            want == before.tasks.map_values(|t: task::TaskView| given_back(t, owner@)),
            team@ == (TeamView { tasks: want.take(i as int) + before.tasks.skip(i as int), ..before }),
        decreases n - i,
    {
        let ghost ts = team@.tasks;
        assert(ts[i as int] == before.tasks[i as int]);
        assert(team.task_store.tasks@.len() == ts.len());
        let mut t = team.task_store.tasks[i].clone();
        if t.status == TaskStatus::InProgress && task::is_text(&t.owner, owner) {
            t.status = TaskStatus::Pending;
            t.owner = None;
            team.task_store.tasks.set(i, t);
            assert(team@.tasks =~= ts.update(i as int, want[i as int]));
        }
        assert(team@.tasks =~= want.take(i + 1) + before.tasks.skip(i + 1));
        i += 1;
    }
    assert(team@.tasks =~= want);
    release(team, owner);
}

/// A task that anyone may claim: pending, without an owner, with nothing left before it,
/// and with a worktree, if it has one, that is there.
pub open spec fn is_open(v: TeamView, t: task::TaskView, git: worktree::GitView) -> bool {
    &&& t.status == TaskStatus::Pending
    &&& t.owner is None
    &&& team::unfinished(v.tasks, t.blocked_by).len() == 0
    &&& worktree::task_cwd(v.workdir, t, git).1 is None
}

/// The open tasks among some tasks.
pub open spec fn open_among(v: TeamView, ts: Seq<task::TaskView>, git: worktree::GitView) -> Seq<
    task::TaskView,
>
    decreases ts.len(),
{
    if ts.len() == 0 {
        Seq::empty()
    } else if is_open(v, ts.last(), git) {
        open_among(v, ts.drop_last(), git).push(ts.last())
    } else {
        open_among(v, ts.drop_last(), git)
    }
}

/// The tasks that anyone may claim.
pub fn scan_unclaimed_tasks(team: &TeamCtx, git: &GitRegistry) -> (r: Vec<Task>)
    ensures
        task::tasks(r@) == open_among(team@, team@.tasks, git@),
{
    let ghost ts = team@.tasks;
    let mut out: Vec<Task> = Vec::new();
    let mut i: usize = 0;
    assert(task::tasks(out@) =~= Seq::<task::TaskView>::empty());
    while i < team.task_store.tasks.len()
        invariant
            i <= team.task_store.tasks@.len(),
            ts == team@.tasks,
            task::tasks(out@) == open_among(team@, ts.take(i as int), git@),
        decreases team.task_store.tasks@.len() - i,
    {
        let ghost before = task::tasks(out@);
        assert(ts.take(i + 1).drop_last() =~= ts.take(i as int));
        assert(ts.take(i + 1).last() == team.task_store.tasks@[i as int]@);
        let t = &team.task_store.tasks[i];
        if t.status == TaskStatus::Pending && t.owner.is_none() {
            let left = team::incomplete_deps(&team.task_store, t);
            assert(text::views(left@).len() == left@.len());
            if left.len() == 0 {
                let (_cwd, err) = worktree::task_worktree_cwd(team.workdir.as_str(), t, git);
                if err.is_none() {
                    out.push(t.clone());
                    assert(task::tasks(out@) =~= before.push(t@));
                }
            }
        }
        i += 1;
    }
    assert(ts.take(ts.len() as int) =~= ts);
    out
}

/// The first task among some that can be claimed under its id and is not one of those
/// that could not be saved.
pub open spec fn first_claimable(
    v: TeamView,
    open: Seq<task::TaskView>,
    owner: Seq<char>,
    git: worktree::GitView,
    unsaved: Seq<Seq<char>>,
) -> Option<Seq<char>>
    decreases open.len(),
{
    if open.len() == 0 {
        None
    } else if !unsaved.contains(open[0].id) && team::claim_refusal(v, open[0].id, owner, git) is None {
        Some(open[0].id)
    } else {
        first_claimable(v, open.skip(1), owner, git, unsaved)
    }
}

/// The task that a teammate claims next: none where it has work, or where no open task can
/// be claimed.
pub open spec fn next_claim(
    v: TeamView,
    owner: Seq<char>,
    git: worktree::GitView,
    unsaved: Seq<Seq<char>>,
) -> Option<Seq<char>> {
    if v.work.current.contains_key(owner) {
        None
    } else {
        first_claimable(v, open_among(v, v.tasks, git), owner, git, unsaved)
    }
}

/// Claims the first open task for a teammate that has no work. `unsaved` are the tasks
/// whose claim could not be saved; they are passed over. Returns the claimed task.
pub fn claim_next_task(team: &mut TeamCtx, owner: &str, git: &GitRegistry, unsaved: &[String]) -> (r:
    Option<Task>)
    requires
        next_claim(old(team)@, owner@, git@, text::views(unsaved@)) is Some
            ==> old(team)@.work.version(owner@) < u32::MAX,
    ensures
        match next_claim(old(team)@, owner@, git@, text::views(unsaved@)) {
            None => r is None && final(team)@ == old(team)@,
            Some(id) => {
                &&& final(team)@ == team::after_claim(old(team)@, id, owner@, git@)
                &&& r is Some
                &&& task::find_task(final(team)@.tasks, id) == Some(r->0@)
            },
        },
{
    let ghost v = team@;
    if team.assignments.get(owner).is_some() {
        return None;
    }
    let open = scan_unclaimed_tasks(team, git);
    let ghost os = task::tasks(open@);
    let ghost un = text::views(unsaved@);
    let mut i: usize = 0;
    assert(os.skip(0) =~= os);
    while i < open.len()
        invariant
            i <= open@.len(),
            os == task::tasks(open@),
            os == open_among(v, v.tasks, git@),
            un == text::views(unsaved@),
            team@ == v,
            v == old(team)@,
            next_claim(v, owner@, git@, un) is Some ==> v.work.version(owner@) < u32::MAX,
            !v.work.current.contains_key(owner@),
            first_claimable(v, os, owner@, git@, un) == first_claimable(
                v,
                os.skip(i as int),
                owner@,
                git@,
                un,
            ),
        decreases open@.len() - i,
    {
        let id = &open[i].id;
        assert(os.skip(i as int)[0] == open@[i as int]@);
        assert(os.skip(i as int).skip(1) =~= os.skip(i + 1));
        if !recall::list_has(unsaved, id) && team.plan_claim(id.as_str(), owner, git).is_ok() {
            let _said = team::claim_task(team, id.as_str(), owner, git, Ok(()));
            let r = team.task_store.load(id.as_str());
            proof {
                team::law_one_winner(v, id@, owner@, git@, owner@, git@);
            }
            return r;
        }
        i += 1;
    }
    None
}

/// Every open task can be claimed by a teammate that has no work, where ids are unique.
pub proof fn law_open_tasks_can_be_claimed(
    v: TeamView,
    t: task::TaskView,
    owner: Seq<char>,
    git: worktree::GitView,
)
    requires
        task::find_task(v.tasks, t.id) == Some(t),
        is_open(v, t, git),
        !v.work.current.contains_key(owner),
    ensures
        team::claim_refusal(v, t.id, owner, git) is None,
{
}

// ---- results ----

/// The last text block.
pub open spec fn last_text(bs: Seq<client::BlockView>) -> Option<Seq<char>>
    decreases bs.len(),
{
    if bs.len() == 0 {
        None
    } else {
        match bs.last() {
            client::BlockView::Text { text } => Some(text),
            _ => last_text(bs.drop_last()),
        }
    }
}

/// The last message of the assistant.
pub open spec fn last_reply(ms: Seq<client::MessageView>) -> Option<client::MessageView>
    decreases ms.len(),
{
    if ms.len() == 0 {
        None
    } else if ms.last().role == "assistant"@ {
        Some(ms.last())
    } else {
        last_reply(ms.drop_last())
    }
}

/// The last text of the last message of the assistant.
pub open spec fn final_text(ms: Seq<client::MessageView>) -> Option<Seq<char>> {
    match last_reply(ms) {
        Some(m) => last_text(m.content),
        None => None,
    }
}

/// The position of the last message of the assistant.
pub fn find_last_reply(messages: &[Message]) -> (r: Option<usize>)
    ensures
        match r {
            Some(i) => i < messages@.len() && last_reply(client::messages(messages@)) == Some(
                messages@[i as int]@,
            ),
            None => last_reply(client::messages(messages@)) is None,
        },
{
    let ghost ms = client::messages(messages@);
    let mut n: usize = messages.len();
    assert(ms.take(n as int) =~= ms);
    while n > 0
        invariant
            n <= messages@.len(),
            ms == client::messages(messages@),
            last_reply(ms) == last_reply(ms.take(n as int)),
        decreases n,
    {
        assert(ms.take(n as int).last() == messages@[n - 1]@);
        if text::same(messages[n - 1].role.as_str(), "assistant") {
            return Some(n - 1);
        }
        assert(ms.take(n as int).drop_last() =~= ms.take(n - 1));
        n -= 1;
    }
    None
}

/// The last text of the last message of the assistant: a teammate's result.
pub fn extract_last_assistant_text(messages: &[Message]) -> (r: Option<String>)
    ensures
        text::opt_view(r) == final_text(client::messages(messages@)),
{
    let i: usize = match find_last_reply(messages) {
        Some(i) => i,
        None => {
            return None;
        },
    };
    let content = &messages[i].content;
    let ghost bs = client::blocks(content@);
    let mut n: usize = content.len();
    assert(bs.take(n as int) =~= bs);
    while n > 0
        invariant
            n <= content@.len(),
            bs == client::blocks(content@),
            final_text(client::messages(messages@)) == last_text(bs),
            last_text(bs) == last_text(bs.take(n as int)),
        decreases n,
    {
        assert(bs.take(n as int).last() == content@[n - 1]@);
        if let ContentBlock::Text { text } = &content[n - 1] {
            return Some(text.clone());
        }
        assert(bs.take(n as int).drop_last() =~= bs.take(n - 1));
        n -= 1;
    }
    None
}

} // verus!
