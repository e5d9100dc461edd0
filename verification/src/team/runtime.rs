//! How a teammate comes, works, waits and goes.

use vstd::prelude::*;

use crate::client;
use crate::client::Message;
use crate::pattern;
use crate::task;
use crate::task::{Task, TaskStatus};
use crate::team;
use crate::team::bus;
use crate::team::inbox;
use crate::team::lifecycle;
use crate::team::protocols::GateStatus;
use crate::team::worktree;
use crate::team::worktree::GitRegistry;
use crate::team::{TeamCtx, TeamView, TeammateStatus};
use crate::text;

verus! {

/// What a teammate does next.
#[derive(Debug, Clone, Copy, PartialEq, Eq, Structural)]
pub enum Phase {
    /// It works.
    Continue,
    /// It waits for work.
    Idle,
    /// It goes.
    Stop,
}

/// A teammate's conversation.
pub struct TeammateRuntime {
    pub name: String,
    pub messages: Vec<Message>,
}

/// How a task is put before the teammate that works on it.
pub open spec fn task_note(head: Seq<char>, t: task::TaskView, cwd: Seq<char>) -> Seq<char> {
    head + t.id + "] "@ + t.subject + "\n"@ + t.description + "\nWork directory: "@ + cwd
}

fn print_task_note(head: &str, t: &Task, cwd: &str) -> (r: String)
    ensures
        r@ == task_note(head@, t@, cwd@),
{
    head.to_string().concat(t.id.as_str()).concat("] ").concat(t.subject.as_str()).concat(
        "\n",
    ).concat(t.description.as_str()).concat("\nWork directory: ").concat(cwd)
}

/// What a new teammate is told first: the task that it was given already comes with the
/// prompt.
pub open spec fn first_text(v: TeamView, name: Seq<char>, prompt: Seq<char>) -> Seq<char> {
    if v.work.current.contains_key(name) {
        match task::find_task(v.tasks, v.work.current[name].task_id) {
            Some(t) => prompt + task_note(
                "\n\n[Assigned task "@,
                t,
                v.work.current[name].cwd,
            ),
            None => prompt,
        }
    } else {
        prompt
    }
}

/// The team and the next phase after a teammate's turn.
pub open spec fn after_turn(v: TeamView, name: Seq<char>, ms: Seq<client::MessageView>) -> (
    TeamView,
    Phase,
) {
    if v.active.contains_key(name) && v.active[name] == TeammateStatus::Stopping {
        (v, Phase::Stop)
    } else if v.protocols.gate(name) == GateStatus::Pending {
        (
            TeamView { active: v.active.insert(name, TeammateStatus::WaitingApproval), ..v },
            Phase::Idle,
        )
    } else {
        let reported = match lifecycle::final_text(ms) {
            Some(summary) => TeamView {
                mail: bus::sent(v.mail, plain_mail(name, summary, "result"@)),
                ..v
            },
            None => v,
        };
        let released = if lifecycle::has_finished(reported, name) {
            lifecycle::after_release(reported, name)
        } else {
            reported
        };
        (
            TeamView {
                active: released.active.insert(name, TeammateStatus::Idle),
                mail: bus::sent(
                    released.mail,
                    plain_mail(name, "Waiting for more work."@, "idle_notification"@),
                ),
                ..released
            },
            Phase::Idle,
        )
    }
}

/// Whether a teammate's turn ends in the release of its work.
pub open spec fn releases_work(v: TeamView, name: Seq<char>) -> bool {
    &&& !(v.active.contains_key(name) && v.active[name] == TeammateStatus::Stopping)
    &&& v.protocols.gate(name) != GateStatus::Pending
    &&& lifecycle::has_finished(v, name)
}

/// A message to the lead without metadata.
pub open spec fn plain_mail(
    from: Seq<char>,
    content: Seq<char>,
    msg_type: Seq<char>,
) -> bus::MailView {
    bus::MailView { from, to: "lead"@, content, msg_type, metadata: "null"@ }
}

/// What a look for work comes to: the team, the conversation, and whether the teammate
/// stops, works or goes on waiting.
#[verifier::ext_equal]
pub struct Looked {
    pub team: TeamView,
    pub messages: Seq<client::MessageView>,
    pub phase: Phase,
}

/// What a look for work comes to: messages come first, then tasks.
pub open spec fn looked(
    v: TeamView,
    name: Seq<char>,
    ms: Seq<client::MessageView>,
    git: worktree::GitView,
    unsaved: Seq<Seq<char>>,
) -> Looked {
    let inbox = bus::addressed(v.mail, name);
    let read = TeamView { mail: bus::not_addressed(v.mail, name), ..v };
    if inbox.len() > 0 {
        let d = inbox::inbox_outcome(read, name, inbox);
        Looked {
            team: d.team,
            messages: inbox::told(ms, d.work),
            phase: if d.stop {
                Phase::Stop
            } else if d.work.len() > 0 {
                Phase::Continue
            } else {
                Phase::Idle
            },
        }
    } else {
        match lifecycle::next_claim(read, name, git, unsaved) {
            None => Looked { team: read, messages: ms, phase: Phase::Idle },
            Some(id) => {
                let claimed = team::after_claim(read, id, name, git);
                Looked {
                    team: claimed,
                    messages: ms.push(
                        client::text_message(
                            "user"@,
                            task_note(
                                "[Auto-claimed task "@,
                                task::find_task(claimed.tasks, id)->0,
                                claimed.work.current[name].cwd,
                            ),
                        ),
                    ),
                    phase: Phase::Continue,
                }
            },
        }
    }
}

/// Whether a look for work ends in the claim of a task.
pub open spec fn takes_task(
    v: TeamView,
    name: Seq<char>,
    git: worktree::GitView,
    unsaved: Seq<Seq<char>>,
) -> bool {
    let read = TeamView { mail: bus::not_addressed(v.mail, name), ..v };
    bus::addressed(v.mail, name).len() == 0 && lifecycle::next_claim(read, name, git, unsaved)
        is Some
}

/// The team after a teammate left.
pub open spec fn after_retiring(v: TeamView, name: Seq<char>) -> TeamView {
    let released = lifecycle::after_release(
        TeamView {
            tasks: v.tasks.map_values(|t: task::TaskView| lifecycle::given_back(t, name)),
            ..v
        },
        name,
    );
    TeamView { active: released.active.remove(name), ..released }
}

impl TeammateRuntime {
    /// A teammate that begins with a prompt, and with the task that it was given.
    pub fn new(name: String, prompt: &str, team: &TeamCtx) -> (r: Self)
        ensures
            r.name@ == name@,
            client::messages(r.messages@) == seq![
                client::text_message("user"@, first_text(team@, name@, prompt@)),
            ],
    {
        let mut text = prompt.to_string();
        if let Some(a) = team.assignments.get(name.as_str()) {
            if let Some(t) = team.task_store.load(a.task_id.as_str()) {
                text = text.concat(
                    print_task_note("\n\n[Assigned task ", &t, a.cwd.as_str()).as_str(),
                );
            }
        }
        assert(text@ == first_text(team@, name@, prompt@));
        let mut messages: Vec<Message> = Vec::new();
        messages.push(Message::user_text(text.as_str()));
        assert(client::messages(messages@) =~= seq![client::text_message("user"@, text@)]);
        TeammateRuntime { name, messages }
    }

    /// Notes that a turn ended: the lead gets the result, finished work is released, and the
    /// teammate waits, unless it was told to stop or its plan waits for approval.
    pub fn after_work(&self, team: &mut TeamCtx) -> (r: Phase)
        requires
            releases_work(old(team)@, self.name@) ==> old(team)@.work.version(self.name@)
                < u32::MAX,
        ensures
            (final(team)@, r) == after_turn(
                old(team)@,
                self.name@,
                client::messages(self.messages@),
            ),
    {
        let name = self.name.as_str();
        if let Some(s) = team.active.get(name) {
            if *s == TeammateStatus::Stopping {
                return Phase::Stop;
            }
        }
        if team.protocols.gate(name) == GateStatus::Pending {
            team.active.insert(name, TeammateStatus::WaitingApproval);
            return Phase::Idle;
        }
        if let Some(summary) = lifecycle::extract_last_assistant_text(&self.messages) {
            team.bus.send(name, "lead", summary.as_str(), "result", None);
        }
        let _released = lifecycle::release_completed_assignment(team, name);
        team.active.insert(name, TeammateStatus::Idle);
        team.bus.send(name, "lead", "Waiting for more work.", "idle_notification", None);
        Phase::Idle
    }

    /// Looks for work once: for messages first, and for a task to claim where there are
    /// none. `unsaved` are the tasks whose claim could not be saved.
    pub fn look_for_work(&mut self, team: &mut TeamCtx, git: &GitRegistry, unsaved: &[String]) -> (r:
        Phase)
        requires
            takes_task(old(team)@, old(self).name@, git@, text::views(unsaved@))
                ==> old(team)@.work.version(old(self).name@) < u32::MAX,
        ensures
            final(self).name == old(self).name,
            (Looked {
                team: final(team)@,
                messages: client::messages(final(self).messages@),
                phase: r,
            }) == looked(
                old(team)@,
                old(self).name@,
                client::messages(old(self).messages@),
                git@,
                text::views(unsaved@),
            ),
    {
        let ghost ms = client::messages(self.messages@);
        let inbox = team.bus.read_inbox(self.name.as_str());
        assert(bus::mails(inbox@).len() == inbox@.len());
        if inbox.len() > 0 {
            let before: usize = self.messages.len();
            let stop = inbox::apply_inbox(team, self.name.as_str(), &inbox, &mut self.messages);
            assert(client::messages(self.messages@).len() == self.messages@.len());
            assert(ms.len() == before);
            return if stop {
                Phase::Stop
            } else if self.messages.len() > before {
                Phase::Continue
            } else {
                Phase::Idle
            };
        }
        match lifecycle::claim_next_task(team, self.name.as_str(), git, unsaved) {
            None => Phase::Idle,
            Some(t) => {
                let cwd = match team.assignments.get(self.name.as_str()) {
                    Some(a) => a.cwd,
                    None => team.workdir.clone(),
                };
                let note = print_task_note("[Auto-claimed task ", &t, cwd.as_str());
                self.messages.push(Message::user_text(note.as_str()));
                assert(client::messages(self.messages@) =~= ms.push(
                    client::text_message("user"@, note@),
                ));
                Phase::Continue
            },
        }
    }

    /// Takes the teammate out of the team: its tasks are open again.
    pub fn retire(self, team: &mut TeamCtx)
        requires
            old(team)@.work.version(self.name@) < u32::MAX,
        ensures
            final(team)@ == after_retiring(old(team)@, self.name@),
    {
        lifecycle::release_teammate_assignment(team, self.name.as_str());
        let _gone = team.active.remove(self.name.as_str());
    }
}

/// A name that differs from another at most in the case of its ASCII letters.
pub open spec fn same_name(a: Seq<char>, b: Seq<char>) -> bool {
    text::ascii_lowered(a) == text::ascii_lowered(b)
}

/// Whether a teammate has the name, however it is written.
pub open spec fn is_taken(v: TeamView, name: Seq<char>) -> bool {
    exists|k: Seq<char>| #[trigger] v.active.contains_key(k) && same_name(k, name)
}

/// Why a teammate cannot come.
pub open spec fn spawn_refusal(v: TeamView, name: Seq<char>) -> Option<Seq<char>> {
    if !pattern::is_agent_name(name) {
        Some("Invalid teammate name: use 1-64 letters, digits, underscores, or dashes"@)
    } else if lifecycle::is_reserved(name) {
        Some("Invalid teammate name: '"@ + name + "' is reserved by the runtime"@)
    } else if is_taken(v, name) {
        Some("Teammate '"@ + name + "' already exists"@)
    } else {
        None
    }
}

/// The team with a new teammate that has no task yet.
pub open spec fn with_teammate(v: TeamView, name: Seq<char>, require_plan: bool) -> TeamView {
    TeamView {
        active: v.active.insert(name, TeammateStatus::Working),
        protocols: v.protocols.with_gate(
            name,
            if require_plan {
                GateStatus::Required
            } else {
                GateStatus::NotRequired
            },
        ),
        ..v
    }
}

/// Why the first task of a new teammate cannot be claimed.
pub open spec fn first_claim_failure(
    v: TeamView,
    name: Seq<char>,
    task_id: Option<Seq<char>>,
    git: worktree::GitView,
    saved: Result<(), String>,
) -> Option<Seq<char>> {
    match task_id {
        None => None,
        Some(id) => match team::claim_refusal(v, id, name, git) {
            Some(e) => Some(e),
            None => match saved {
                Ok(_) => None,
                Err(e) => Some("Error: "@ + e@),
            },
        },
    }
}

/// The answer to a request for a teammate, the team after it, and whether there is a new
/// teammate.
pub open spec fn spawned(
    v: TeamView,
    name: Seq<char>,
    role: Seq<char>,
    task_id: Option<Seq<char>>,
    require_plan: bool,
    git: worktree::GitView,
    saved: Result<(), String>,
) -> (Seq<char>, TeamView, bool) {
    match spawn_refusal(v, name) {
        Some(e) => (e, v, false),
        None => {
            let joined = with_teammate(v, name, require_plan);
            match first_claim_failure(joined, name, task_id, git, saved) {
                Some(e) => (
                    "Cannot spawn teammate '"@ + name + "': "@ + e,
                    TeamView {
                        active: joined.active.remove(name),
                        protocols: joined.protocols.with_gate(name, GateStatus::NotRequired),
                        ..joined
                    },
                    false,
                ),
                None => (
                    "Teammate '"@ + name + "' spawned as "@ + role
                        + ". End this turn; the runtime will deliver its events."@,
                    match task_id {
                        Some(id) => team::after_claim(joined, id, name, git),
                        None => joined,
                    },
                    true,
                ),
            }
        },
    }
}

fn name_is_taken(team: &TeamCtx, name: &str) -> (r: bool)
    ensures
        r == is_taken(team@, name@),
{
    let wanted = text::ascii_lowercase(name);
    let keys = team.active.keys();
    let ghost ks = text::views(keys@);
    let mut i: usize = 0;
    while i < keys.len()
        invariant
            i <= keys@.len(),
            ks == text::views(keys@),
            wanted@ == text::ascii_lowered(name@),
            forall|k: Seq<char>| #[trigger] ks.contains(k) <==> team.active@.contains_key(k),
            forall|j: int| 0 <= j < i ==> !same_name(#[trigger] ks[j], name@),
        decreases keys@.len() - i,
    {
        assert(ks[i as int] == keys@[i as int]@);
        assert(ks.contains(ks[i as int]));
        if text::same(text::ascii_lowercase(keys[i].as_str()).as_str(), wanted.as_str()) {
            assert(team@.active.contains_key(ks[i as int]));
            return true;
        }
        i += 1;
    }
    proof {
        assert forall|k: Seq<char>| #[trigger] team@.active.contains_key(k) implies !same_name(
            k,
            name@,
        ) by {
            assert(ks.contains(k));
            let j = choose|j: int| 0 <= j < ks.len() && ks[j] == k;
            assert(!same_name(ks[j], name@));
        }
    }
    false
}

/// Brings a teammate into the team, with its first task where one is named. `saved` is how
/// saving the claimed task went. Gives the answer for the lead, and whether the teammate is
/// to be started. Where the task cannot be claimed, no teammate comes.
pub fn spawn_teammate_thread(
    team: &mut TeamCtx,
    name: &str,
    role: &str,
    task_id: Option<&str>,
    require_plan: bool,
    git: &GitRegistry,
    saved: Result<(), String>,
) -> (r: (String, bool))
    requires
        task_id is Some && spawned(
            old(team)@,
            name@,
            role@,
            Some(task_id->0@),
            require_plan,
            git@,
            saved,
        ).2 ==> old(team)@.work.version(name@) < u32::MAX,
    ensures
        (r.0@, final(team)@, r.1) == spawned(
            old(team)@,
            name@,
            role@,
            match task_id {
                Some(id) => Some(id@),
                None => None,
            },
            require_plan,
            git@,
            saved,
        ),
{
    if !pattern::is_valid_agent_name(name) {
        return (
            "Invalid teammate name: use 1-64 letters, digits, underscores, or dashes".to_string(),
            false,
        );
    }
    if lifecycle::is_reserved_teammate_name(name) {
        return (
            "Invalid teammate name: '".to_string().concat(name).concat(
                "' is reserved by the runtime",
            ),
            false,
        );
    }
    if name_is_taken(team, name) {
        return ("Teammate '".to_string().concat(name).concat("' already exists"), false);
    }
    team.active.insert(name, TeammateStatus::Working);
    team.protocols.set_gate(
        name,
        if require_plan {
            GateStatus::Required
        } else {
            GateStatus::NotRequired
        },
    );
    if let Some(id) = task_id {
        let claimed = team.plan_claim(id, name, git).is_ok() && saved.is_ok();
        let said = team::claim_task(team, id, name, git, saved);
        if !claimed {
            let _gone = team.active.remove(name);
            team.protocols.set_gate(name, GateStatus::NotRequired);
            return (
                "Cannot spawn teammate '".to_string().concat(name).concat("': ").concat(
                    said.as_str(),
                ),
                false,
            );
        }
    }
    (
        "Teammate '".to_string().concat(name).concat("' spawned as ").concat(role).concat(
            ". End this turn; the runtime will deliver its events.",
        ),
        true,
    )
}

/// The law of failed starts: where no teammate comes, no task changes hands and nobody joins
/// the team.
pub proof fn law_failed_spawn_leaves_nothing(
    v: TeamView,
    name: Seq<char>,
    role: Seq<char>,
    task_id: Option<Seq<char>>,
    require_plan: bool,
    git: worktree::GitView,
    saved: Result<(), String>,
)
    requires
        !spawned(v, name, role, task_id, require_plan, git, saved).2,
    ensures
        ({
            let w = spawned(v, name, role, task_id, require_plan, git, saved).1;
            &&& w.active == v.active
            &&& w.tasks == v.tasks
            &&& w.work == v.work
            &&& w.mail == v.mail
        }),
{
    if spawn_refusal(v, name) is None {
        assert(same_name(name, name));
        assert(!v.active.contains_key(name));
        assert(v.active.insert(name, TeammateStatus::Working).remove(name) =~= v.active);
    }
}

/// The law of names: no two teammates have names that differ only in the case of letters. A
/// name that a teammate has is refused, however it is written.
pub proof fn law_names_are_taken_once(
    v: TeamView,
    name: Seq<char>,
    role: Seq<char>,
    task_id: Option<Seq<char>>,
    require_plan: bool,
    git: worktree::GitView,
    saved: Result<(), String>,
    again: Seq<char>,
)
    requires
        spawned(v, name, role, task_id, require_plan, git, saved).2,
        same_name(name, again),
    ensures
        spawn_refusal(spawned(v, name, role, task_id, require_plan, git, saved).1, again) is Some,
{
    let w = spawned(v, name, role, task_id, require_plan, git, saved).1;
    assert(w.active.contains_key(name));
}

/// The law of leaving: a teammate that left is not in the team any more, has no work, and
/// holds no task in progress; the tasks of others are as they were.
pub proof fn law_retired_leaves_no_work(v: TeamView, name: Seq<char>, i: int)
    requires
        0 <= i < v.tasks.len(),
    ensures
        ({
            let w = after_retiring(v, name);
            &&& !w.active.contains_key(name)
            &&& !w.work.current.contains_key(name)
            &&& !w.protocols.gate(name).blocks()
            &&& !(w.tasks[i].status == TaskStatus::InProgress && w.tasks[i].owner == Some(name))
            &&& v.tasks[i].owner != Some(name) ==> w.tasks[i] == v.tasks[i]
        }),
{
}

} // verus!
