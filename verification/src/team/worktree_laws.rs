//! What holds of the worktrees of a team's tasks.

use vstd::prelude::*;

use crate::paths;
use crate::task;
use crate::task::TaskStatus;
use crate::team::assignment;
use crate::team::checkout;
use crate::team::checkout::{
    AnswerView, CreateActionView, CreateStage, CreationView, RemovalView, RemoveActionView,
    RemoveStage,
};
use crate::team::worktree;
use crate::team::TeamView;
use crate::text;

verus! {

/// One to 64 letters, digits, underscores, dashes and dots, the first a letter or a digit, no
/// two dots together.
pub open spec fn is_tree_name(s: Seq<char>) -> bool {
    &&& 1 <= s.len() <= 64
    &&& 'a' <= s[0] <= 'z' || 'A' <= s[0] <= 'Z' || '0' <= s[0] <= '9'
    &&& forall|i: int|
        0 <= i < s.len() ==> {
            let c = #[trigger] s[i];
            'a' <= c <= 'z' || 'A' <= c <= 'Z' || '0' <= c <= '9' || c == '_' || c == '-' || c
                == '.'
        }
    &&& forall|i: int, j: int|
        0 <= i && j == i + 1 && j < s.len() ==> !(#[trigger] s[i] == '.' && #[trigger] s[j] == '.')
}

/// The law of names: these are the valid names of worktrees.
pub proof fn law_worktree_names(s: Seq<char>)
    ensures
        worktree::is_worktree_name(s) <==> is_tree_name(s),
{
    reveal_strlit("..");
    let dots = ".."@;
    assert(dots.len() == 2 && dots[0] == '.' && dots[1] == '.');
    if worktree::is_worktree_name(s) {
        assert forall|i: int| 0 <= i < s.len() implies {
            let c = #[trigger] s[i];
            'a' <= c <= 'z' || 'A' <= c <= 'Z' || '0' <= c <= '9' || c == '_' || c == '-' || c
                == '.'
        } by {
            assert(crate::pattern::is_name_char(s[i]) || s[i] == '.');
        }
        assert forall|i: int, j: int| 0 <= i && j == i + 1 && j < s.len() implies !(#[trigger] s[i]
            == '.' && #[trigger] s[j] == '.') by {
            if s[i] == '.' && s[j] == '.' {
                assert(s.subrange(i, i + 2) =~= dots);
                assert(text::occurs_at(s, dots, i));
            }
        }
    }
    if is_tree_name(s) {
        assert forall|i: int| 0 <= i < s.len() implies crate::pattern::is_name_char(#[trigger] s[i])
            || s[i] == '.' by {}
        if text::has(s, dots) {
            let i = choose|i: int| text::occurs_at(s, dots, i);
            assert(s.subrange(i, i + 2)[0] == s[i] && s.subrange(i, i + 2)[1] == s[i + 1]);
            assert(!(s[i] == '.' && s[i + 1] == '.'));
        }
    }
}

/// The law of creation: a worktree may be created exactly for a task that is pending, has
/// neither an owner nor a worktree, under a valid name that no other task uses, where
/// nothing stands at its place yet.
pub proof fn law_when_a_worktree_may_be_created(
    v: TeamView,
    name: Seq<char>,
    id: Seq<char>,
    base: Result<Seq<char>, Seq<char>>,
    path_exists: bool,
)
    ensures
        checkout::create_refusal(v, name, id, base, path_exists) is None <==> {
            let t = task::find_task(v.tasks, id)->0;
            &&& is_tree_name(name)
            &&& base is Ok
            &&& task::find_task(v.tasks, id) is Some
            &&& t.status == TaskStatus::Pending && t.owner is None && t.worktree is None
            &&& forall|i: int|
                0 <= i < v.tasks.len() && (#[trigger] v.tasks[i]).worktree == Some(name)
                    ==> v.tasks[i].id == id
            &&& !path_exists
        },
        checkout::create_refusal(v, name, id, base, path_exists) is None ==> {
            let t = task::find_task(v.tasks, id)->0;
            let c = checkout::creation_start(v, name, id, base);
            &&& c.name == name && c.branch == "wt/"@ + name
            &&& c.path == paths::joined_path(base->Ok_0, name)
            &&& c.task.worktree == Some(name)
            &&& c.task.id == t.id && c.task.status == t.status && c.task.owner == t.owner
            &&& c.task.subject == t.subject && c.task.description == t.description
                && c.task.blocked_by == t.blocked_by
            &&& c.stage == CreateStage::Root
        },
{
    law_worktree_names(name);
    if checkout::bound_elsewhere(v.tasks, name, id) {
        let i = choose|i: int|
            0 <= i < v.tasks.len() && (#[trigger] v.tasks[i]).id != id && v.tasks[i].worktree
                == Some(name);
        assert(v.tasks[i].worktree == Some(name));
    }
}

/// The law of creation's steps: it asks for the root, for the name, whether the branch is
/// there, and only where it is not for the worktree, at its place and on its branch; only
/// where git made it is the task saved, as it was bound. What the creation is for never
/// changes.
pub proof fn law_creation_goes_step_by_step(c: CreationView, a: AnswerView)
    ensures
        ({
            let (next, action) = checkout::after_answer(c, a);
            &&& next.name == c.name && next.task == c.task && next.path == c.path && next.branch
                == c.branch
            &&& action == CreateActionView::Git(
                seq!["check-ref-format"@, "--branch"@, c.branch],
            ) ==> c.stage == CreateStage::Root && a.ok
            &&& c.stage == CreateStage::Root && a.ok ==> next.stage == CreateStage::Format
                && action == CreateActionView::Git(seq!["check-ref-format"@, "--branch"@, c.branch])
            &&& c.stage == CreateStage::Format && a.ok ==> next.stage == CreateStage::Exists
                && action == CreateActionView::Git(
                seq!["show-ref"@, "--verify"@, "--quiet"@, "refs/heads/"@ + c.branch],
            )
            &&& c.stage == CreateStage::Exists && !a.ok ==> next.stage == CreateStage::Made
                && action == CreateActionView::Git(
                seq!["worktree"@, "add"@, "-b"@, c.branch, c.path, "HEAD"@],
            )
            &&& c.stage == CreateStage::Made && a.ok ==> next.stage == CreateStage::Saved && action
                == CreateActionView::Save(c.task)
            &&& (c.stage == CreateStage::Root || c.stage == CreateStage::Format) && !a.ok
                ==> next.stage == CreateStage::Done && action is Report
            &&& c.stage == CreateStage::Exists && a.ok ==> next.stage == CreateStage::Done && action
                is Report
            &&& c.stage == CreateStage::Made && !a.ok ==> next.stage == CreateStage::PathLeft
                && next.git_error == a.output && action == CreateActionView::Probe(c.path)
            &&& c.stage == CreateStage::PathLeft ==> next.path_left == a.ok && next.stage
                == CreateStage::BranchLeft
            &&& c.stage == CreateStage::Saved ==> next.stage == CreateStage::Done && action
                is Report && (text::begins(action->Report_0, "Worktree '"@) <==> a.ok)
        }),
{
    let (next, action) = checkout::after_answer(c, a);
    reveal_strlit("check-ref-format");
    reveal_strlit("show-ref");
    reveal_strlit("worktree");
    assert("check-ref-format"@.len() == 16 && "show-ref"@.len() == 8 && "worktree"@.len() == 8);
    if action is Git {
        let first = action->Git_0[0];
        if c.stage == CreateStage::Exists {
            assert(first == "worktree"@);
            assert(action->Git_0.len() == 6);
        }
        if c.stage == CreateStage::Format || c.stage == CreateStage::PathLeft {
            assert(action->Git_0.len() == 4);
        }
        assert(seq!["check-ref-format"@, "--branch"@, c.branch].len() == 3);
    }
    if c.stage == CreateStage::Saved {
        reveal_strlit("Worktree '");
        reveal_strlit("Partial success: Worktree '");
        let m = action->Report_0;
        if a.ok {
            assert(m.subrange(0, 10) =~= "Worktree '"@);
        } else {
            assert(m[0] == "Partial success: Worktree '"@[0]);
            assert(m[0] == 'P');
            if text::begins(m, "Worktree '"@) {
                assert(m.subrange(0, 10)[0] == m[0]);
                assert("Worktree '"@[0] == 'W');
            }
        }
    }
}

proof fn bound_filtered(ts: Seq<task::TaskView>, name: Seq<char>)
    ensures
        checkout::bound_tasks(ts, name) == ts.filter(
            |t: task::TaskView| t.worktree == Some(name),
        ),
    decreases ts.len(),
{
    reveal(Seq::filter);
    if ts.len() > 0 {
        bound_filtered(ts.drop_last(), name);
    }
}

proof fn owners_filtered(
    places: Seq<(Seq<char>, Option<Seq<char>>)>,
    here: Option<Seq<char>>,
)
    ensures
        checkout::owners_at(places, here) == places.filter(
            |p: (Seq<char>, Option<Seq<char>>)| p.1 == here,
        ).map_values(|p: (Seq<char>, Option<Seq<char>>)| p.0),
    decreases places.len(),
{
    reveal(Seq::filter);
    let f = |p: (Seq<char>, Option<Seq<char>>)| p.1 == here;
    let g = |p: (Seq<char>, Option<Seq<char>>)| p.0;
    if places.len() > 0 {
        owners_filtered(places.drop_last(), here);
        if f(places.last()) {
            assert(places.filter(f).map_values(g) =~= places.drop_last().filter(f).map_values(
                g,
            ).push(places.last().0));
        }
    }
}

proof fn active_first(ts: Seq<task::TaskView>)
    ensures
        checkout::first_active(ts) is None <==> forall|i: int|
            0 <= i < ts.len() ==> (#[trigger] ts[i]).status == TaskStatus::Completed,
    decreases ts.len(),
{
    if ts.len() > 0 && ts[0].status == TaskStatus::Completed {
        let rest = ts.skip(1);
        active_first(rest);
        if checkout::first_active(rest) is None {
            assert forall|i: int| 0 <= i < ts.len() implies (#[trigger] ts[i]).status
                == TaskStatus::Completed by {
                if i > 0 {
                    assert(rest[i - 1] == ts[i]);
                }
            }
        }
        if forall|i: int| 0 <= i < ts.len() ==> (#[trigger] ts[i]).status == TaskStatus::Completed {
            assert forall|i: int| 0 <= i < rest.len() implies (#[trigger] rest[i]).status
                == TaskStatus::Completed by {
                assert(rest[i] == ts[i + 1]);
            }
        }
    }
}

/// The law of removal: a worktree may be removed exactly where it is in order, a task is
/// bound to it, every task that is bound to it is completed, and nobody works in it.
pub proof fn law_when_a_worktree_may_be_removed(
    v: TeamView,
    name: Seq<char>,
    git: worktree::GitView,
    places: Seq<(Seq<char>, Option<Seq<char>>)>,
    here: Option<Seq<char>>,
)
    ensures
        checkout::remove_refusal(v, name, git, places, here) is None <==> {
            &&& worktree::registered(name, git) is Ok
            &&& exists|i: int|
                0 <= i < v.tasks.len() && (#[trigger] v.tasks[i]).worktree == Some(name)
            &&& forall|i: int|
                0 <= i < v.tasks.len() && (#[trigger] v.tasks[i]).worktree == Some(name)
                    ==> v.tasks[i].status == TaskStatus::Completed
            &&& forall|i: int| 0 <= i < places.len() ==> (#[trigger] places[i]).1 != here
        },
{
    let p = |t: task::TaskView| t.worktree == Some(name);
    let q = |x: (Seq<char>, Option<Seq<char>>)| x.1 == here;
    bound_filtered(v.tasks, name);
    owners_filtered(places, here);
    let bound = v.tasks.filter(p);
    active_first(bound);
    assert forall|i: int| 0 <= i < v.tasks.len() && p(#[trigger] v.tasks[i]) implies bound.contains(
        v.tasks[i],
    ) by {
        v.tasks.lemma_filter_contains(p, i);
    }
    assert forall|k: int| 0 <= k < bound.len() implies v.tasks.contains(#[trigger] bound[k]) && p(
        bound[k],
    ) by {
        assert(bound.contains(bound[k]));
        v.tasks.lemma_filter_contains_rev(p, bound[k]);
        filter_keeps(v.tasks, p, k);
    }
    assert forall|i: int| 0 <= i < places.len() && q(#[trigger] places[i]) implies places.filter(
        q,
    ).contains(places[i]) by {
        places.lemma_filter_contains(q, i);
    }
    if places.filter(q).len() > 0 {
        let x = places.filter(q)[0];
        assert(places.filter(q).contains(x));
        places.lemma_filter_contains_rev(q, x);
        filter_keeps(places, q, 0);
        let i = choose|i: int| 0 <= i < places.len() && places[i] == x;
        assert(places[i].1 == here);
    }
    assert(checkout::owners_at(places, here).len() == places.filter(q).len());
    if bound.len() > 0 {
        let k = choose|k: int| 0 <= k < v.tasks.len() && v.tasks[k] == bound[0];
        assert(v.tasks[k].worktree == Some(name));
    }
    let all_done = forall|i: int|
        0 <= i < v.tasks.len() && (#[trigger] v.tasks[i]).worktree == Some(name)
            ==> v.tasks[i].status == TaskStatus::Completed;
    if all_done {
        assert forall|k: int| 0 <= k < bound.len() implies (#[trigger] bound[k]).status
            == TaskStatus::Completed by {
            let i = choose|i: int| 0 <= i < v.tasks.len() && v.tasks[i] == bound[k];
            assert(v.tasks[i].worktree == Some(name));
        }
    }
    if checkout::first_active(bound) is None {
        assert forall|i: int|
            0 <= i < v.tasks.len() && (#[trigger] v.tasks[i]).worktree == Some(
                name,
            ) implies v.tasks[i].status == TaskStatus::Completed by {
            assert(p(v.tasks[i]));
            let k = choose|k: int| 0 <= k < bound.len() && bound[k] == v.tasks[i];
            assert(bound[k].status == TaskStatus::Completed);
        }
    }
}

proof fn filter_keeps<A>(s: Seq<A>, p: spec_fn(A) -> bool, k: int)
    requires
        0 <= k < s.filter(p).len(),
    ensures
        p(s.filter(p)[k]),
    decreases s.len(),
{
    reveal(Seq::filter);
    if s.len() > 0 {
        let head = s.drop_last();
        if k < head.filter(p).len() {
            filter_keeps(head, p, k);
        }
    }
}

/// The law of removal's steps: a worktree with changes that are not to be discarded stays; a
/// task is unbound only once git removed the worktree; and what git could not tell or do
/// ends the removal with a report.
pub proof fn law_removal_goes_step_by_step(r: RemovalView, a: AnswerView)
    ensures
        ({
            let (next, action) = checkout::after_removal_answer(r, a);
            let clean = text::trimmed(a.output).len() == 0;
            &&& next.name == r.name && next.path == r.path && next.discard_changes
                == r.discard_changes
            &&& r.stage == RemoveStage::Status && a.ok && (clean || r.discard_changes)
                ==> next.stage == RemoveStage::Removed && action is Git
                && action->Git_0.first() == "worktree"@ && action->Git_0[1] == "remove"@
                && action->Git_0.last() == r.path && (action->Git_0.len() == 4
                <==> r.discard_changes)
            &&& r.stage == RemoveStage::Status && !(a.ok && (clean || r.discard_changes))
                ==> next.stage == RemoveStage::Done && action is Report
            &&& action is Unbind <==> r.stage == RemoveStage::Removed && a.ok
            &&& r.stage == RemoveStage::Removed && !a.ok ==> action is Report && next.stage
                == RemoveStage::Done
        }),
{
}

/// The law of unbinding: a task loses the worktree that was removed and nothing else, and
/// other tasks lose nothing.
pub proof fn law_unbinding(t: task::TaskView, name: Seq<char>)
    ensures
        ({
            let u = checkout::unbound(t, name);
            &&& t.worktree == Some(name) ==> u.worktree is None
            &&& t.worktree != Some(name) ==> u.worktree == t.worktree
            &&& u.id == t.id && u.subject == t.subject && u.description == t.description
            &&& u.status == t.status && u.owner == t.owner && u.blocked_by == t.blocked_by
        }),
{
}

/// The law of counts: the uncommitted changes are counted by the lines that are not blank.
pub proof fn law_changes_are_counted(lines: Seq<Seq<char>>)
    ensures
        checkout::filled_lines(lines) == lines.filter(
            |l: Seq<char>| text::trimmed(l).len() > 0,
        ).len(),
    decreases lines.len(),
{
    reveal(Seq::filter);
    if lines.len() > 0 {
        law_changes_are_counted(lines.drop_last());
    }
}

/// The line at `i` begins the entry of `path`, the one at `j` says that it is on `branch`,
/// and no other entry begins between them.
pub open spec fn entry_at(
    lines: Seq<Seq<char>>,
    path: Seq<char>,
    branch: Seq<char>,
    i: int,
    j: int,
) -> bool {
    &&& 0 <= i < j < lines.len()
    &&& lines[i] == "worktree "@ + path
    &&& lines[j] == "branch "@ + branch
    &&& forall|k: int| i < k < j ==> !text::begins(#[trigger] lines[k], "worktree "@)
}

/// The line at `j` says that the entry that the lines begin in is on `branch`.
pub open spec fn open_entry_at(lines: Seq<Seq<char>>, branch: Seq<char>, j: int) -> bool {
    &&& 0 <= j < lines.len()
    &&& lines[j] == "branch "@ + branch
    &&& forall|k: int| 0 <= k < j ==> !text::begins(#[trigger] lines[k], "worktree "@)
}

proof fn listing_entries(
    lines: Seq<Seq<char>>,
    current: Option<Seq<char>>,
    path: Seq<char>,
    branch: Seq<char>,
)
    ensures
        worktree::is_listed(lines, current, path, branch) <==> (exists|i: int, j: int|
            entry_at(lines, path, branch, i, j)) || (current == Some(path) && exists|j: int|
            open_entry_at(lines, branch, j)),
    decreases lines.len(),
{
    reveal_strlit("worktree ");
    reveal_strlit("branch ");
    let wt = "worktree "@;
    let br = "branch "@;
    assert(wt[0] == 'w' && br[0] == 'b');
    if lines.len() > 0 {
        let l = lines[0];
        let rest = lines.skip(1);
        let next = if text::begins(l, wt) {
            Some(l.skip(wt.len() as int))
        } else {
            current
        };
        listing_entries(rest, next, path, branch);
        assert forall|k: int| 0 < k < lines.len() implies rest[k - 1] == #[trigger] lines[k] by {}
        // Every way to read the rest is a way to read the whole.
        if exists|i: int, j: int| entry_at(rest, path, branch, i, j) {
            let (i, j) = choose|i: int, j: int| entry_at(rest, path, branch, i, j);
            assert forall|k: int| i + 1 < k < j + 1 implies !text::begins(#[trigger] lines[k], wt) by {
                assert(rest[k - 1] == lines[k]);
            }
            assert(entry_at(lines, path, branch, i + 1, j + 1));
        }
        if next == Some(path) && exists|j: int| open_entry_at(rest, branch, j) {
            let j = choose|j: int| open_entry_at(rest, branch, j);
            assert forall|k: int| 0 < k < j + 1 implies !text::begins(#[trigger] lines[k], wt) by {
                assert(rest[k - 1] == lines[k]);
            }
            if text::begins(l, wt) {
                text_is_joined(l, wt);
                assert(lines[0] == wt + path);
                assert(entry_at(lines, path, branch, 0, j + 1));
            } else {
                assert(open_entry_at(lines, branch, j + 1));
            }
        }
        if !text::begins(l, wt) && text::begins(l, br) && l.skip(br.len() as int) == branch
            && current == Some(path) {
            text_is_joined(l, br);
            assert(open_entry_at(lines, branch, 0));
        }
        // And every way to read the whole is one to read the rest, or ends at once.
        if exists|i: int, j: int| entry_at(lines, path, branch, i, j) {
            let (i, j) = choose|i: int, j: int| entry_at(lines, path, branch, i, j);
            if i > 0 {
                assert forall|k: int| i - 1 < k < j - 1 implies !text::begins(
                    #[trigger] rest[k],
                    wt,
                ) by {
                    assert(rest[k] == lines[k + 1]);
                }
                assert(rest[i - 1] == lines[i] && rest[j - 1] == lines[j]);
                assert(entry_at(rest, path, branch, i - 1, j - 1));
            } else {
                assert(l == wt + path);
                assert(l.subrange(0, wt.len() as int) =~= wt);
                assert(l.skip(wt.len() as int) =~= path);
                assert forall|k: int| 0 <= k < j - 1 implies !text::begins(#[trigger] rest[k], wt) by {
                    assert(rest[k] == lines[k + 1]);
                }
                assert(rest[j - 1] == lines[j]);
                assert(open_entry_at(rest, branch, j - 1));
            }
        }
        if current == Some(path) && exists|j: int| open_entry_at(lines, branch, j) {
            let j = choose|j: int| open_entry_at(lines, branch, j);
            if j == 0 {
                assert(l == br + branch);
                assert(l.subrange(0, br.len() as int) =~= br);
                assert(l.skip(br.len() as int) =~= branch);
                assert(!text::begins(l, wt)) by {
                    if text::begins(l, wt) {
                        assert(l.subrange(0, wt.len() as int)[0] == l[0]);
                        assert(l[0] == br[0]);
                    }
                }
            } else {
                assert(!text::begins(lines[0], wt));
                assert forall|k: int| 0 <= k < j - 1 implies !text::begins(#[trigger] rest[k], wt) by {
                    assert(rest[k] == lines[k + 1]);
                }
                assert(rest[j - 1] == lines[j]);
                assert(open_entry_at(rest, branch, j - 1));
            }
        }
    }
}

proof fn text_is_joined(l: Seq<char>, head: Seq<char>)
    requires
        text::begins(l, head),
    ensures
        l == head + l.skip(head.len() as int),
{
    let p = l.subrange(0, head.len() as int);
    assert(l =~= p + l.skip(head.len() as int));
}

/// The law of git's list: a worktree is listed exactly where an entry for its path says that
/// it is on its branch.
pub proof fn law_listed_worktrees(lines: Seq<Seq<char>>, path: Seq<char>, branch: Seq<char>)
    ensures
        worktree::is_listed(lines, None, path, branch) <==> exists|i: int, j: int|
            entry_at(lines, path, branch, i, j),
{
    listing_entries(lines, None, path, branch);
}

/// The law of working places: a task works in its worktree, where git lists that on its own
/// branch and its directory is there, and in the working directory where it has none; a
/// worktree that is not in order is an error.
pub proof fn law_where_tasks_work(workdir: Seq<char>, t: task::TaskView, git: worktree::GitView)
    ensures
        ({
            let (cwd, wrong) = worktree::task_cwd(workdir, t, git);
            let name = t.worktree->0;
            let path = paths::joined_path(git.base->Ok_0, name);
            let in_order = is_tree_name(name) && git.base is Ok && git.ok && git.dirs.contains(path)
                && exists|i: int, j: int|
                entry_at(
                    text::lines_of(git.output),
                    path,
                    "refs/heads/"@ + ("wt/"@ + name),
                    i,
                    j,
                );
            &&& t.worktree is None ==> cwd == workdir && wrong is None
            &&& t.worktree is Some ==> (wrong is None <==> in_order)
            &&& t.worktree is Some && in_order ==> cwd == path
        }),
{
    if t.worktree is Some {
        let name = t.worktree->0;
        law_worktree_names(name);
        if git.base is Ok {
            law_listed_worktrees(
                text::lines_of(git.output),
                paths::joined_path(git.base->Ok_0, name),
                "refs/heads/"@ + ("wt/"@ + name),
            );
        }
    }
}

/// The law of owners' places: one without work is in the working directory; one with work is
/// where its task works, and only while the task is its own and begun.
pub proof fn law_where_owners_work(
    workdir: Seq<char>,
    ts: Seq<task::TaskView>,
    reg: assignment::AssignmentsView,
    owner: Seq<char>,
    git: worktree::GitView,
)
    ensures
        ({
            let r = assignment::cwd_of(workdir, ts, reg, owner, git);
            let id = reg.current[owner].task_id;
            let t = task::find_task(ts, id)->0;
            &&& !reg.current.contains_key(owner) ==> r == Ok::<Seq<char>, Seq<char>>(workdir)
            &&& reg.current.contains_key(owner) ==> (r is Ok <==> task::find_task(ts, id) is Some
                && t.status != TaskStatus::Pending && t.owner == Some(owner) && worktree::task_cwd(
                workdir,
                t,
                git,
            ).1 is None)
            &&& reg.current.contains_key(owner) && r is Ok ==> r->Ok_0 == worktree::task_cwd(
                workdir,
                t,
                git,
            ).0
        }),
{
}

/// The law of what is left behind: a creation that git refused reports git's words, and names
/// the directory and the branch that were left, each exactly where it was.
pub proof fn law_what_is_left_behind_is_named(c: CreationView, branch_left: bool)
    ensures
        ({
            let out = checkout::failed_report(c, branch_left);
            let path_part = "checkout path '"@ + c.path + "'"@;
            let branch_part = "branch '"@ + c.branch + "'"@;
            let head = "Partial operation: git worktree add failed leaving "@;
            &&& text::ends(out, "Git error: "@ + c.git_error)
            &&& !c.path_left && !branch_left ==> out == "Git error: "@ + c.git_error
            &&& c.path_left && branch_left ==> text::begins(
                out,
                head + path_part + ", "@ + branch_part + ". Task "@,
            )
            &&& c.path_left && !branch_left ==> text::begins(out, head + path_part + ". Task "@)
            &&& !c.path_left && branch_left ==> text::begins(out, head + branch_part + ". Task "@)
        }),
{
    let out = checkout::failed_report(c, branch_left);
    let path_part = "checkout path '"@ + c.path + "'"@;
    let branch_part = "branch '"@ + c.branch + "'"@;
    let tail = "Git error: "@ + c.git_error;
    reveal_strlit("Git error: ");
    reveal_strlit("'. Git error: ");
    assert(out.subrange(out.len() - tail.len(), out.len() as int) =~= tail);
    if c.path_left || branch_left {
        let parts = if c.path_left && branch_left {
            path_part + ", "@ + branch_part
        } else if c.path_left {
            path_part
        } else {
            branch_part
        };
        let head = "Partial operation: git worktree add failed leaving "@ + parts + ". Task "@;
        assert(out.subrange(0, head.len() as int) =~= head);
        if c.path_left && branch_left {
            assert(head =~= "Partial operation: git worktree add failed leaving "@ + path_part
                + ", "@ + branch_part + ". Task "@);
        }
    }
}

} // verus!
