//! What holds of the tasks of a team and of those who work on them.

use vstd::prelude::*;

use crate::task;
use crate::task::TaskStatus;
use crate::team;
use crate::team::lifecycle;
use crate::team::runtime;
use crate::team::worktree;
use crate::team::TeamView;

verus! {

/// A task with the id stands in the table, and the first one is completed.
pub open spec fn is_completed(ts: Seq<task::TaskView>, id: Seq<char>) -> bool {
    task::find_task(ts, id) is Some && task::find_task(ts, id)->0.status == TaskStatus::Completed
}

/// The law of lookups: the task under an id is the first one with it, and there is none only
/// where no task has it.
pub proof fn law_lookups_find_the_first(ts: Seq<task::TaskView>, id: Seq<char>)
    ensures
        match task::find_task(ts, id) {
            Some(t) => t.id == id && exists|i: int|
                0 <= i < ts.len() && #[trigger] ts[i] == t && forall|j: int|
                    0 <= j < i ==> (#[trigger] ts[j]).id != id,
            None => forall|j: int| 0 <= j < ts.len() ==> (#[trigger] ts[j]).id != id,
        },
    decreases ts.len(),
{
    if ts.len() > 0 {
        if ts[0].id == id {
            assert(task::find_task(ts, id) == Some(ts[0]));
        } else {
            let rest = ts.skip(1);
            law_lookups_find_the_first(rest, id);
            assert forall|j: int| 0 < j < ts.len() implies #[trigger] ts[j] == rest[j - 1] by {}
            match task::find_task(rest, id) {
                Some(t) => {
                    let i = choose|i: int|
                        0 <= i < rest.len() && #[trigger] rest[i] == t && forall|j: int|
                            0 <= j < i ==> (#[trigger] rest[j]).id != id;
                    assert(ts[i + 1] == t);
                    assert forall|j: int| 0 <= j < i + 1 implies (#[trigger] ts[j]).id != id by {
                        if j > 0 {
                            assert(rest[j - 1].id != id);
                        }
                    }
                },
                None => {
                    assert forall|j: int| 0 <= j < ts.len() implies (#[trigger] ts[j]).id != id by {
                        if j > 0 {
                            assert(rest[j - 1].id != id);
                        }
                    }
                },
            }
        }
    }
}

/// The law of saving: a saved task takes the place of the first one with its id, or stands
/// behind all others where there is none; no other task moves or changes.
pub proof fn law_saving_touches_one_task(ts: Seq<task::TaskView>, t: task::TaskView)
    ensures
        ({
            let out = task::with_task(ts, t);
            &&& task::find_task(ts, t.id) is None ==> out == ts.push(t)
            &&& task::find_task(ts, t.id) is Some ==> out.len() == ts.len()
            &&& forall|i: int|
                0 <= i < ts.len() && ts[i].id != t.id ==> #[trigger] out[i] == ts[i]
            &&& task::find_task(out, t.id) == Some(t)
        }),
    decreases ts.len(),
{
    let out = task::with_task(ts, t);
    task::law_save_then_load(ts, t, t.id);
    if ts.len() == 0 {
        assert(out =~= ts.push(t));
    } else if ts[0].id != t.id {
        let rest = ts.skip(1);
        law_saving_touches_one_task(rest, t);
        assert(out =~= seq![ts[0]] + task::with_task(rest, t));
        if task::find_task(ts, t.id) is None {
            assert(out =~= ts.push(t));
        }
        assert forall|i: int| 0 <= i < ts.len() && ts[i].id != t.id implies #[trigger] out[i]
            == ts[i] by {
            if i > 0 {
                assert(rest[i - 1] == ts[i]);
                assert(task::with_task(rest, t)[i - 1] == out[i]);
            }
        }
    }
}

/// The law of dependencies: what a task still waits for is every id among its dependencies
/// under which no completed task is found, in their order, and nothing else.
pub proof fn law_unfinished_dependencies(ts: Seq<task::TaskView>, deps: Seq<Seq<char>>)
    ensures
        team::unfinished(ts, deps) == deps.filter(|d: Seq<char>| !is_completed(ts, d)),
        team::unfinished(ts, deps).len() == 0 <==> forall|i: int|
            0 <= i < deps.len() ==> is_completed(ts, #[trigger] deps[i]),
    decreases deps.len(),
{
    reveal(Seq::filter);
    let open = |d: Seq<char>| !is_completed(ts, d);
    if deps.len() > 0 {
        let head = deps.drop_last();
        law_unfinished_dependencies(ts, head);
        if team::unfinished(ts, deps).len() == 0 {
            assert forall|i: int| 0 <= i < deps.len() implies is_completed(
                ts,
                #[trigger] deps[i],
            ) by {
                if i < head.len() {
                    assert(head[i] == deps[i]);
                }
            }
        }
        if forall|i: int| 0 <= i < deps.len() ==> is_completed(ts, #[trigger] deps[i]) {
            assert(is_completed(ts, deps[deps.len() - 1]));
            assert forall|i: int| 0 <= i < head.len() implies is_completed(
                ts,
                #[trigger] head[i],
            ) by {
                assert(head[i] == deps[i]);
            }
        }
    }
}

/// The law of claims: a task can be claimed exactly where it is in the table, pending and
/// without an owner, each of its dependencies is in the table as completed, its working
/// directory is in order, and the one who claims has no other work.
pub proof fn law_claims_wait_for_dependencies(
    v: TeamView,
    id: Seq<char>,
    owner: Seq<char>,
    git: worktree::GitView,
)
    ensures
        team::claim_refusal(v, id, owner, git) is None <==> {
            let t = task::find_task(v.tasks, id)->0;
            &&& task::find_task(v.tasks, id) is Some
            &&& t.status == TaskStatus::Pending
            &&& t.owner is None
            &&& !v.work.current.contains_key(owner)
            &&& worktree::task_cwd(v.workdir, t, git).1 is None
            &&& forall|i: int|
                0 <= i < t.blocked_by.len() ==> {
                    &&& task::find_task(v.tasks, #[trigger] t.blocked_by[i]) is Some
                    &&& task::find_task(v.tasks, t.blocked_by[i])->0.status
                        == TaskStatus::Completed
                }
        },
{
    if task::find_task(v.tasks, id) is Some {
        let t = task::find_task(v.tasks, id)->0;
        law_unfinished_dependencies(v.tasks, t.blocked_by);
        if team::unfinished(v.tasks, t.blocked_by).len() == 0 {
            assert forall|i: int| 0 <= i < t.blocked_by.len() implies {
                &&& task::find_task(v.tasks, #[trigger] t.blocked_by[i]) is Some
                &&& task::find_task(v.tasks, t.blocked_by[i])->0.status == TaskStatus::Completed
            } by {
                assert(is_completed(v.tasks, t.blocked_by[i]));
            }
        }
        if forall|i: int|
            0 <= i < t.blocked_by.len() ==> {
                &&& task::find_task(v.tasks, #[trigger] t.blocked_by[i]) is Some
                &&& task::find_task(v.tasks, t.blocked_by[i])->0.status == TaskStatus::Completed
            } {
            assert forall|i: int| 0 <= i < t.blocked_by.len() implies is_completed(
                v.tasks,
                #[trigger] t.blocked_by[i],
            ) by {}
        }
    }
}

/// The law of work: a claim gives the task to the one who claims, who works on it in its
/// directory under a new version; nothing else of the task, no other task, and nobody
/// else's work is touched.
pub proof fn law_a_claim_gives_one_task(
    v: TeamView,
    id: Seq<char>,
    owner: Seq<char>,
    git: worktree::GitView,
    other: Seq<char>,
)
    requires
        team::claim_refusal(v, id, owner, git) is None,
        v.work.version(owner) < u32::MAX,
    ensures
        ({
            let t = task::find_task(v.tasks, id)->0;
            let w = team::after_claim(v, id, owner, git);
            let c = task::find_task(w.tasks, id)->0;
            &&& task::find_task(w.tasks, id) is Some
            &&& c.status == TaskStatus::InProgress
            &&& c.owner == Some(owner)
            &&& c.id == t.id && c.subject == t.subject && c.description == t.description
            &&& c.blocked_by == t.blocked_by && c.worktree == t.worktree
            &&& other != id ==> task::find_task(w.tasks, other) == task::find_task(v.tasks, other)
            &&& w.tasks.len() == v.tasks.len()
            &&& w.work.task_of(owner) == Some(id)
            &&& w.work.current[owner].cwd == worktree::task_cwd(v.workdir, t, git).0
            &&& w.work.version(owner) == v.work.version(owner) + 1
            &&& other != owner ==> w.work.task_of(other) == v.work.task_of(other)
                && w.work.version(other) == v.work.version(other)
            &&& w.protocols == v.protocols && w.mail == v.mail && w.active == v.active
            &&& w.workdir == v.workdir && w.mail_root == v.mail_root
        }),
{
    let t = task::find_task(v.tasks, id)->0;
    task::find_task_id(v.tasks, id);
    let c = team::claimed_task(t, owner);
    task::law_save_then_load(v.tasks, c, id);
    task::law_save_then_load(v.tasks, c, other);
    law_saving_touches_one_task(v.tasks, c);
}

/// The law of completion: a task can be completed exactly by its owner, while it is in
/// progress and the owner's plan does not wait; then it is completed and still the owner's,
/// and nothing else changes.
pub proof fn law_a_completion_touches_one_task(
    v: TeamView,
    id: Seq<char>,
    owner: Seq<char>,
    other: Seq<char>,
)
    ensures
        team::complete_refusal(v, id, owner) is None <==> {
            let t = task::find_task(v.tasks, id)->0;
            &&& task::find_task(v.tasks, id) is Some
            &&& t.status == TaskStatus::InProgress
            &&& t.owner == Some(owner)
            &&& !v.protocols.gate(owner).blocks()
        },
        team::complete_refusal(v, id, owner) is None ==> {
            let t = task::find_task(v.tasks, id)->0;
            let w = team::after_complete(v, id);
            let c = task::find_task(w.tasks, id)->0;
            &&& is_completed(w.tasks, id)
            &&& c.owner == Some(owner)
            &&& c.id == t.id && c.subject == t.subject && c.description == t.description
            &&& c.blocked_by == t.blocked_by && c.worktree == t.worktree
            &&& other != id ==> task::find_task(w.tasks, other) == task::find_task(v.tasks, other)
            &&& w.tasks.len() == v.tasks.len()
            &&& w == (TeamView { tasks: w.tasks, ..v })
        },
{
    if team::complete_refusal(v, id, owner) is None {
        let t = task::find_task(v.tasks, id)->0;
        task::find_task_id(v.tasks, id);
        let c = task::TaskView { status: TaskStatus::Completed, ..t };
        task::law_save_then_load(v.tasks, c, id);
        task::law_save_then_load(v.tasks, c, other);
        law_saving_touches_one_task(v.tasks, c);
    }
}

/// The law of order: a completed dependency is what a task waited for. Where one task waits
/// for another alone, it cannot be claimed before the completion of the other, and can be
/// after it.
pub proof fn law_completion_unblocks(
    v: TeamView,
    id: Seq<char>,
    owner: Seq<char>,
    waiting: Seq<char>,
    next: Seq<char>,
    git: worktree::GitView,
)
    requires
        team::complete_refusal(v, id, owner) is None,
        task::find_task(v.tasks, waiting) is Some,
        task::find_task(v.tasks, waiting)->0.blocked_by == seq![id],
    ensures
        team::claim_refusal(v, waiting, next, git) is Some,
        ({
            let t = task::find_task(v.tasks, waiting)->0;
            t.status == TaskStatus::Pending && t.owner is None && !v.work.current.contains_key(next)
                && worktree::task_cwd(v.workdir, t, git).1 is None ==> team::claim_refusal(
                team::after_complete(v, id),
                waiting,
                next,
                git,
            ) is None
        }),
{
    let t = task::find_task(v.tasks, waiting)->0;
    let w = team::after_complete(v, id);
    law_claims_wait_for_dependencies(v, waiting, next, git);
    if team::claim_refusal(v, waiting, next, git) is None {
        assert(task::find_task(v.tasks, t.blocked_by[0])->0.status == TaskStatus::Completed);
    }
    if t.status == TaskStatus::Pending {
        law_a_completion_touches_one_task(v, id, owner, waiting);
        law_claims_wait_for_dependencies(w, waiting, next, git);
    }
}

/// The task may be taken by one who looks for work: it is found under its id, can be
/// claimed, and saving its claim did not fail before.
pub open spec fn may_be_taken(
    v: TeamView,
    t: task::TaskView,
    owner: Seq<char>,
    git: worktree::GitView,
    unsaved: Seq<Seq<char>>,
) -> bool {
    &&& task::find_task(v.tasks, t.id) == Some(t)
    &&& team::claim_refusal(v, t.id, owner, git) is None
    &&& !unsaved.contains(t.id)
}

proof fn open_tasks(v: TeamView, ts: Seq<task::TaskView>, git: worktree::GitView)
    ensures
        lifecycle::open_among(v, ts, git) == ts.filter(
            |t: task::TaskView| lifecycle::is_open(v, t, git),
        ),
    decreases ts.len(),
{
    reveal(Seq::filter);
    if ts.len() > 0 {
        open_tasks(v, ts.drop_last(), git);
    }
}

proof fn claimable_first(
    v: TeamView,
    open: Seq<task::TaskView>,
    owner: Seq<char>,
    git: worktree::GitView,
    unsaved: Seq<Seq<char>>,
)
    ensures
        match lifecycle::first_claimable(v, open, owner, git, unsaved) {
            Some(id) => exists|i: int|
                0 <= i < open.len() && (#[trigger] open[i]).id == id && !unsaved.contains(id)
                    && team::claim_refusal(v, id, owner, git) is None && forall|j: int|
                    0 <= j < i ==> unsaved.contains((#[trigger] open[j]).id) || team::claim_refusal(
                        v,
                        open[j].id,
                        owner,
                        git,
                    ) is Some,
            None => forall|j: int|
                0 <= j < open.len() ==> unsaved.contains((#[trigger] open[j]).id)
                    || team::claim_refusal(v, open[j].id, owner, git) is Some,
        },
    decreases open.len(),
{
    if open.len() > 0 {
        if !unsaved.contains(open[0].id) && team::claim_refusal(v, open[0].id, owner, git) is None {
            assert(lifecycle::first_claimable(v, open, owner, git, unsaved) == Some(open[0].id));
        } else {
            let rest = open.skip(1);
            claimable_first(v, rest, owner, git, unsaved);
            match lifecycle::first_claimable(v, rest, owner, git, unsaved) {
                Some(id) => {
                    let i = choose|i: int|
                        0 <= i < rest.len() && (#[trigger] rest[i]).id == id && !unsaved.contains(
                            id,
                        ) && team::claim_refusal(v, id, owner, git) is None && forall|j: int|
                            0 <= j < i ==> unsaved.contains((#[trigger] rest[j]).id)
                                || team::claim_refusal(v, rest[j].id, owner, git) is Some;
                    assert(open[i + 1] == rest[i]);
                    assert forall|j: int| 0 <= j < i + 1 implies unsaved.contains(
                        (#[trigger] open[j]).id,
                    ) || team::claim_refusal(v, open[j].id, owner, git) is Some by {
                        if j > 0 {
                            assert(rest[j - 1] == open[j]);
                        }
                    }
                },
                None => {
                    assert forall|j: int| 0 <= j < open.len() implies unsaved.contains(
                        (#[trigger] open[j]).id,
                    ) || team::claim_refusal(v, open[j].id, owner, git) is Some by {
                        if j > 0 {
                            assert(rest[j - 1] == open[j]);
                        }
                    }
                },
            }
        }
    }
}

/// The law of idle hands: a teammate that looks for work takes a task that it may claim, all
/// of whose dependencies are completed, and never a second one; it finds none only where
/// there is none that it may take.
pub proof fn law_idle_teammates_take_claimable_tasks(
    v: TeamView,
    owner: Seq<char>,
    git: worktree::GitView,
    unsaved: Seq<Seq<char>>,
)
    ensures
        match lifecycle::next_claim(v, owner, git, unsaved) {
            Some(id) => {
                let t = task::find_task(v.tasks, id)->0;
                &&& task::find_task(v.tasks, id) is Some
                &&& t.status == TaskStatus::Pending
                &&& t.owner is None
                &&& !v.work.current.contains_key(owner)
                &&& !unsaved.contains(id)
                &&& forall|i: int|
                    0 <= i < t.blocked_by.len() ==> {
                        &&& task::find_task(v.tasks, #[trigger] t.blocked_by[i]) is Some
                        &&& task::find_task(v.tasks, t.blocked_by[i])->0.status
                            == TaskStatus::Completed
                    }
            },
            None => v.work.current.contains_key(owner) || forall|i: int|
                0 <= i < v.tasks.len() ==> !may_be_taken(
                    v,
                    #[trigger] v.tasks[i],
                    owner,
                    git,
                    unsaved,
                ),
        },
{
    let open = lifecycle::open_among(v, v.tasks, git);
    let pred = |t: task::TaskView| lifecycle::is_open(v, t, git);
    open_tasks(v, v.tasks, git);
    claimable_first(v, open, owner, git, unsaved);
    match lifecycle::next_claim(v, owner, git, unsaved) {
        Some(id) => {
            law_claims_wait_for_dependencies(v, id, owner, git);
        },
        None => {
            if !v.work.current.contains_key(owner) {
                assert forall|i: int| 0 <= i < v.tasks.len() implies !may_be_taken(
                    v,
                    #[trigger] v.tasks[i],
                    owner,
                    git,
                    unsaved,
                ) by {
                    let t = v.tasks[i];
                    if may_be_taken(v, t, owner, git, unsaved) {
                        assert(pred(t));
                        v.tasks.lemma_filter_contains(pred, i);
                        let j = choose|j: int| 0 <= j < open.len() && open[j] == t;
                        assert(open[j].id == t.id);
                    }
                }
            }
        },
    }
}

proof fn claimable_behind(
    v: TeamView,
    a: Seq<task::TaskView>,
    x: task::TaskView,
    owner: Seq<char>,
    git: worktree::GitView,
    unsaved: Seq<Seq<char>>,
)
    ensures
        lifecycle::first_claimable(v, a.push(x), owner, git, unsaved) == (
        if lifecycle::first_claimable(v, a, owner, git, unsaved) is Some {
            lifecycle::first_claimable(v, a, owner, git, unsaved)
        } else if !unsaved.contains(x.id) && team::claim_refusal(v, x.id, owner, git) is None {
            Some(x.id)
        } else {
            None
        }),
    decreases a.len(),
{
    reveal_with_fuel(lifecycle::first_claimable, 2);
    if a.len() == 0 {
        assert(a.push(x).skip(1) =~= Seq::<task::TaskView>::empty());
    } else {
        claimable_behind(v, a.skip(1), x, owner, git, unsaved);
        assert(a.push(x).skip(1) =~= a.skip(1).push(x));
    }
}

/// The law of turns for tasks: a teammate that looks for work takes the first task of the
/// table that it may take.
pub proof fn law_the_first_task_is_taken(
    v: TeamView,
    ts: Seq<task::TaskView>,
    owner: Seq<char>,
    git: worktree::GitView,
    unsaved: Seq<Seq<char>>,
)
    ensures
        lifecycle::first_claimable(
            v,
            lifecycle::open_among(v, ts, git),
            owner,
            git,
            unsaved,
        ) matches Some(id) ==> exists|i: int|
            0 <= i < ts.len() && (#[trigger] ts[i]).id == id && forall|k: int|
                0 <= k < i ==> !may_be_taken(v, #[trigger] ts[k], owner, git, unsaved),
    decreases ts.len(),
{
    if ts.len() > 0 {
        let head = ts.drop_last();
        let t = ts.last();
        let open = lifecycle::open_among(v, head, git);
        law_the_first_task_is_taken(v, head, owner, git, unsaved);
        claimable_behind(v, open, t, owner, git, unsaved);
        match lifecycle::first_claimable(v, open, owner, git, unsaved) {
            Some(id) => {
                let i = choose|i: int|
                    0 <= i < head.len() && (#[trigger] head[i]).id == id && forall|k: int|
                        0 <= k < i ==> !may_be_taken(v, #[trigger] head[k], owner, git, unsaved);
                assert(ts[i] == head[i]);
                assert forall|k: int| 0 <= k < i implies !may_be_taken(
                    v,
                    #[trigger] ts[k],
                    owner,
                    git,
                    unsaved,
                ) by {
                    assert(ts[k] == head[k]);
                }
            },
            None => {
                claimable_first(v, open, owner, git, unsaved);
                open_tasks(v, head, git);
                let pred = |t: task::TaskView| lifecycle::is_open(v, t, git);
                assert forall|k: int| 0 <= k < head.len() implies !may_be_taken(
                    v,
                    #[trigger] ts[k],
                    owner,
                    git,
                    unsaved,
                ) by {
                    if may_be_taken(v, ts[k], owner, git, unsaved) {
                        assert(head[k] == ts[k]);
                        assert(pred(head[k]));
                        head.lemma_filter_contains(pred, k);
                        let j = choose|j: int| 0 <= j < open.len() && open[j] == head[k];
                        assert(open[j].id == ts[k].id);
                    }
                }
                assert(ts[ts.len() - 1] == t);
            },
        }
    }
}

/// The law of looking: a teammate that has mail reads it and takes no task; one that has
/// none takes at most one task, which is then its own and in progress.
pub proof fn law_looking_takes_at_most_one_task(
    v: TeamView,
    name: Seq<char>,
    ms: Seq<crate::client::MessageView>,
    git: worktree::GitView,
    unsaved: Seq<Seq<char>>,
    id: Seq<char>,
)
    ensures
        ({
            let out = runtime::looked(v, name, ms, git, unsaved);
            let had = crate::team::bus::addressed(v.mail, name).len() > 0;
            let before = task::find_task(v.tasks, id);
            let after = task::find_task(out.team.tasks, id);
            &&& after != before ==> {
                &&& !had
                &&& before is Some && after is Some
                &&& before->0.status == TaskStatus::Pending
                &&& after->0.status == TaskStatus::InProgress
                &&& after->0.owner == Some(name)
                &&& out.team.work.task_of(name) == Some(id)
                &&& out.phase == runtime::Phase::Continue
                &&& !unsaved.contains(id)
            }
            &&& !had && v.work.current.contains_key(name) ==> out.team.tasks == v.tasks
                && out.phase == runtime::Phase::Idle && out.messages == ms
        }),
{
    let read = TeamView { mail: crate::team::bus::not_addressed(v.mail, name), ..v };
    let inbox = crate::team::bus::addressed(v.mail, name);
    if inbox.len() > 0 {
        crate::team::plan_laws::mail_keeps_tasks(
            crate::team::inbox::Drained { team: read, work: Seq::empty(), stop: false },
            name,
            inbox,
        );
    } else {
        law_idle_teammates_take_claimable_tasks(read, name, git, unsaved);
        let open = lifecycle::open_among(read, read.tasks, git);
        claimable_first(read, open, name, git, unsaved);
        if let Some(taken) = lifecycle::next_claim(read, name, git, unsaved) {
            let t = task::find_task(read.tasks, taken)->0;
            task::find_task_id(read.tasks, taken);
            let c = team::claimed_task(t, name);
            task::law_save_then_load(read.tasks, c, id);
        }
    }
}

} // verus!
