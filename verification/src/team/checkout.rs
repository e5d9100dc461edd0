//! Creating and removing the worktrees of tasks.
//!
//! Both go step by step: the library says what to ask git or the disk next, and the caller
//! hands back the answer.

use vstd::prelude::*;

use crate::task;
use crate::task::{Task, TaskStatus};
use crate::team::worktree;
use crate::team::worktree::GitRegistry;
use crate::team::{TeamCtx, TeamView};
use crate::text;

verus! {

/// The answer to a step: whether it holds or succeeded, and what was printed.
pub struct Answer {
    pub ok: bool,
    pub output: String,
}

/// The mathematical content of an [`Answer`].
#[verifier::ext_equal]
pub struct AnswerView {
    pub ok: bool,
    pub output: Seq<char>,
}

impl View for Answer {
    type V = AnswerView;

    open spec fn view(&self) -> AnswerView {
        AnswerView { ok: self.ok, output: self.output@ }
    }
}

// ---- creating ----

/// What a creation waits for.
#[derive(Debug, Clone, Copy, PartialEq, Eq, Structural)]
pub enum CreateStage {
    /// Whether the working directory is the root of a repository.
    Root,
    /// Whether the branch name is acceptable.
    Format,
    /// Whether the branch exists.
    Exists,
    /// Whether git made the worktree.
    Made,
    /// Whether a failed attempt left the directory.
    PathLeft,
    /// Whether a failed attempt left the branch.
    BranchLeft,
    /// Whether the task was saved.
    Saved,
    /// Nothing.
    Done,
}

/// What to do next in a creation.
pub enum CreateAction {
    /// Find out whether the working directory is the root of a repository.
    CheckRoot,
    /// Run git with these arguments.
    Git(Vec<String>),
    /// Find out whether this path exists.
    Probe(String),
    /// Save the task in this form.
    Save(Task),
    /// Done: report this.
    Report(String),
}

/// The mathematical content of a [`CreateAction`].
#[verifier::ext_equal]
pub enum CreateActionView {
    CheckRoot,
    Git(Seq<Seq<char>>),
    Probe(Seq<char>),
    Save(task::TaskView),
    Report(Seq<char>),
}

impl View for CreateAction {
    type V = CreateActionView;

    open spec fn view(&self) -> CreateActionView {
        match *self {
            CreateAction::CheckRoot => CreateActionView::CheckRoot,
            CreateAction::Git(args) => CreateActionView::Git(text::views(args@)),
            CreateAction::Probe(p) => CreateActionView::Probe(p@),
            CreateAction::Save(t) => CreateActionView::Save(t@),
            CreateAction::Report(m) => CreateActionView::Report(m@),
        }
    }
}

/// The creation of a worktree for a task.
pub struct Creation {
    pub name: String,
    pub task: Task,
    pub path: String,
    pub branch: String,
    pub stage: CreateStage,
    pub git_error: String,
    pub path_left: bool,
}

/// The mathematical content of a [`Creation`].
#[verifier::ext_equal]
pub struct CreationView {
    pub name: Seq<char>,
    pub task: task::TaskView,
    pub path: Seq<char>,
    pub branch: Seq<char>,
    pub stage: CreateStage,
    pub git_error: Seq<char>,
    pub path_left: bool,
}

impl View for Creation {
    type V = CreationView;

    open spec fn view(&self) -> CreationView {
        CreationView {
            name: self.name@,
            task: self.task@,
            path: self.path@,
            branch: self.branch@,
            stage: self.stage,
            git_error: self.git_error@,
            path_left: self.path_left,
        }
    }
}

/// Another task is bound to the worktree.
pub open spec fn bound_elsewhere(ts: Seq<task::TaskView>, name: Seq<char>, id: Seq<char>) -> bool {
    exists|i: int| 0 <= i < ts.len() && (#[trigger] ts[i]).id != id && ts[i].worktree == Some(name)
}

/// Why a worktree cannot be created, as far as names, the directory of the worktrees and
/// tasks decide.
pub open spec fn create_refusal(
    v: TeamView,
    name: Seq<char>,
    id: Seq<char>,
    base: Result<Seq<char>, Seq<char>>,
    path_exists: bool,
) -> Option<Seq<char>> {
    match worktree::checkout_path(base, name) {
        Err(e) => Some("Error: "@ + e),
        Ok(path) => match task::find_task(v.tasks, id) {
            None => Some("Error: Task "@ + id + " not found"@),
            Some(t) => if t.status != TaskStatus::Pending || t.owner is Some {
                Some("Error: Task "@ + id + " must be pending and unowned"@)
            } else if t.worktree is Some {
                Some("Error: Task "@ + id + " already uses worktree '"@ + t.worktree->0 + "'"@)
            } else if bound_elsewhere(v.tasks, name, id) {
                Some("Error: Worktree '"@ + name + "' already bound to another task"@)
            } else if path_exists {
                Some("Error: Worktree path already exists: "@ + path)
            } else {
                None
            },
        },
    }
}

/// A creation at its first step.
pub open spec fn creation_start(
    v: TeamView,
    name: Seq<char>,
    id: Seq<char>,
    base: Result<Seq<char>, Seq<char>>,
) -> CreationView {
    CreationView {
        name,
        task: task::TaskView {
            worktree: Some(name),
            ..task::find_task(v.tasks, id)->0
        },
        path: worktree::checkout_path(base, name)->Ok_0,
        branch: "wt/"@ + name,
        stage: CreateStage::Root,
        git_error: Seq::empty(),
        path_left: false,
    }
}

/// The question to git whether the branch exists.
pub open spec fn ask_branch(c: CreationView) -> CreateActionView {
    CreateActionView::Git(
        seq!["show-ref"@, "--verify"@, "--quiet"@, "refs/heads/"@ + c.branch],
    )
}

/// The report of a creation that git refused: what it left behind, if anything.
pub open spec fn failed_report(c: CreationView, branch_left: bool) -> Seq<char> {
    if c.path_left || branch_left {
        let path_part = "checkout path '"@ + c.path + "'"@;
        let branch_part = "branch '"@ + c.branch + "'"@;
        let parts = if c.path_left && branch_left {
            path_part + ", "@ + branch_part
        } else if c.path_left {
            path_part
        } else {
            branch_part
        };
        "Partial operation: git worktree add failed leaving "@ + parts + ". Task "@ + c.task.id
            + " remains unbound; inspect '"@ + c.path + "' and '"@ + c.branch + "'. Git error: "@
            + c.git_error
    } else {
        "Git error: "@ + c.git_error
    }
}

/// The creation and the next action after an answer.
pub open spec fn after_answer(c: CreationView, a: AnswerView) -> (CreationView, CreateActionView) {
    let done = CreationView { stage: CreateStage::Done, ..c };
    match c.stage {
        CreateStage::Root => if a.ok {
            (
                CreationView { stage: CreateStage::Format, ..c },
                CreateActionView::Git(seq!["check-ref-format"@, "--branch"@, c.branch]),
            )
        } else {
            (
                done,
                CreateActionView::Report(
                    "Error: Working directory must be the root of a Git repository"@,
                ),
            )
        },
        CreateStage::Format => if a.ok {
            (CreationView { stage: CreateStage::Exists, ..c }, ask_branch(c))
        } else {
            (
                done,
                CreateActionView::Report(
                    "Error: Invalid worktree branch '"@ + c.branch + "': "@ + a.output,
                ),
            )
        },
        CreateStage::Exists => if a.ok {
            (
                done,
                CreateActionView::Report("Error: Branch '"@ + c.branch + "' already exists"@),
            )
        } else {
            (
                CreationView { stage: CreateStage::Made, ..c },
                CreateActionView::Git(
                    seq!["worktree"@, "add"@, "-b"@, c.branch, c.path, "HEAD"@],
                ),
            )
        },
        CreateStage::Made => if a.ok {
            (CreationView { stage: CreateStage::Saved, ..c }, CreateActionView::Save(c.task))
        } else {
            (
                CreationView { stage: CreateStage::PathLeft, git_error: a.output, ..c },
                CreateActionView::Probe(c.path),
            )
        },
        CreateStage::PathLeft => (
            CreationView { stage: CreateStage::BranchLeft, path_left: a.ok, ..c },
            ask_branch(c),
        ),
        CreateStage::BranchLeft => (done, CreateActionView::Report(failed_report(c, a.ok))),
        CreateStage::Saved => if a.ok {
            (
                done,
                CreateActionView::Report(
                    "Worktree '"@ + c.name + "' created at "@ + c.path + " for task "@
                        + c.task.id,
                ),
            )
        } else {
            (
                done,
                CreateActionView::Report(
                    "Partial success: Worktree '"@ + c.name + "' created at "@ + c.path + " on '"@
                        + c.branch + "', but binding failed: "@ + a.output
                        + ". Git data retained for manual recovery."@,
                ),
            )
        },
        CreateStage::Done => (c, CreateActionView::Report(Seq::empty())),
    }
}

fn has_other_binding(team: &TeamCtx, name: &str, id: &str) -> (r: bool)
    ensures
        r == bound_elsewhere(team@.tasks, name@, id@),
{
    let ghost ts = team@.tasks;
    let mut i: usize = 0;
    while i < team.task_store.tasks.len()
        invariant
            i <= team.task_store.tasks@.len(),
            ts == team@.tasks,
            forall|j: int|
                0 <= j < i ==> !((#[trigger] ts[j]).id != id@ && ts[j].worktree == Some(name@)),
        decreases team.task_store.tasks@.len() - i,
    {
        let t = &team.task_store.tasks[i];
        assert(ts[i as int] == t@);
        if !text::same(t.id.as_str(), id) && task::is_text(&t.worktree, name) {
            return true;
        }
        i += 1;
    }
    false
}

/// Begins to create a worktree for a task that is pending and has no owner. `base` is the
/// directory of the worktrees with all links resolved, and `path_exists` says whether there
/// is something at the worktree's path. The first step is [`CreateAction::CheckRoot`].
pub fn create_worktree(
    team: &TeamCtx,
    name: &str,
    task_id: &str,
    base: &Result<String, String>,
    path_exists: bool,
) -> (r: Result<Creation, String>)
    ensures
        ({
            let b = worktree::base_view(*base);
            match r {
                Ok(c) => create_refusal(team@, name@, task_id@, b, path_exists) is None && c@
                    == creation_start(team@, name@, task_id@, b),
                Err(e) => create_refusal(team@, name@, task_id@, b, path_exists) == Some(e@),
            }
        }),
{
    let path = match worktree::worktree_path(base, name) {
        Ok(p) => p,
        Err(e) => {
            return Err("Error: ".to_string().concat(e.as_str()));
        },
    };
    let mut t = match team.task_store.load(task_id) {
        Some(t) => t,
        None => {
            return Err("Error: Task ".to_string().concat(task_id).concat(" not found"));
        },
    };
    let ghost tv = t@;
    if t.status != TaskStatus::Pending || t.owner.is_some() {
        return Err(
            "Error: Task ".to_string().concat(task_id).concat(" must be pending and unowned"),
        );
    }
    if let Some(w) = &t.worktree {
        return Err(
            "Error: Task ".to_string().concat(task_id).concat(" already uses worktree '").concat(
                w.as_str(),
            ).concat("'"),
        );
    }
    if has_other_binding(team, name, task_id) {
        return Err(
            "Error: Worktree '".to_string().concat(name).concat("' already bound to another task"),
        );
    }
    if path_exists {
        return Err(
            "Error: Worktree path already exists: ".to_string().concat(path.as_str()),
        );
    }
    t.worktree = Some(name.to_string());
    let empty = String::new();
    assert(empty@ =~= Seq::<char>::empty());
    let c = Creation {
        name: name.to_string(),
        task: t,
        path,
        branch: worktree::worktree_branch(name),
        stage: CreateStage::Root,
        git_error: empty,
        path_left: false,
    };
    assert(c@.task == (task::TaskView { worktree: Some(name@), ..tv }));
    Ok(c)
}

fn words3(a: &str, b: &str, c: &str) -> (r: Vec<String>)
    ensures
        text::views(r@) == seq![a@, b@, c@],
{
    let mut v: Vec<String> = Vec::new();
    v.push(a.to_string());
    v.push(b.to_string());
    v.push(c.to_string());
    assert(text::views(v@) =~= seq![a@, b@, c@]);
    v
}

impl Creation {
    fn branch_question(&self) -> (r: CreateAction)
        ensures
            r@ == ask_branch(self@),
    {
        let mut v = words3("show-ref", "--verify", "--quiet");
        let ghost before = text::views(v@);
        v.push("refs/heads/".to_string().concat(self.branch.as_str()));
        assert(text::views(v@) =~= before.push("refs/heads/"@ + self.branch@));
        assert(text::views(v@) =~= seq![
            "show-ref"@,
            "--verify"@,
            "--quiet"@,
            "refs/heads/"@ + self.branch@,
        ]);
        CreateAction::Git(v)
    }

    fn failure(&self, branch_left: bool) -> (r: String)
        ensures
            r@ == failed_report(self@, branch_left),
    {
        if !self.path_left && !branch_left {
            return "Git error: ".to_string().concat(self.git_error.as_str());
        }
        let path_part = "checkout path '".to_string().concat(self.path.as_str()).concat("'");
        let branch_part = "branch '".to_string().concat(self.branch.as_str()).concat("'");
        let parts = if self.path_left && branch_left {
            path_part.concat(", ").concat(branch_part.as_str())
        } else if self.path_left {
            path_part
        } else {
            branch_part
        };
        "Partial operation: git worktree add failed leaving ".to_string().concat(
            parts.as_str(),
        ).concat(". Task ").concat(self.task.id.as_str()).concat(
            " remains unbound; inspect '",
        ).concat(self.path.as_str()).concat("' and '").concat(self.branch.as_str()).concat(
            "'. Git error: ",
        ).concat(self.git_error.as_str())
    }

    /// Takes the answer to the last step and says what to do next.
    pub fn advance(&mut self, answer: Answer) -> (r: CreateAction)
        ensures
            (final(self)@, r@) == after_answer(old(self)@, answer@),
    {
        match self.stage {
            CreateStage::Root => {
                if answer.ok {
                    self.stage = CreateStage::Format;
                    CreateAction::Git(
                        words3("check-ref-format", "--branch", self.branch.as_str()),
                    )
                } else {
                    self.stage = CreateStage::Done;
                    CreateAction::Report(
                        "Error: Working directory must be the root of a Git repository".to_string(),
                    )
                }
            },
            CreateStage::Format => {
                if answer.ok {
                    self.stage = CreateStage::Exists;
                    self.branch_question()
                } else {
                    self.stage = CreateStage::Done;
                    CreateAction::Report(
                        "Error: Invalid worktree branch '".to_string().concat(
                            self.branch.as_str(),
                        ).concat("': ").concat(answer.output.as_str()),
                    )
                }
            },
            CreateStage::Exists => {
                if answer.ok {
                    self.stage = CreateStage::Done;
                    CreateAction::Report(
                        "Error: Branch '".to_string().concat(self.branch.as_str()).concat(
                            "' already exists",
                        ),
                    )
                } else {
                    self.stage = CreateStage::Made;
                    let mut v = words3("worktree", "add", "-b");
                    let ghost before = text::views(v@);
                    v.push(self.branch.clone());
                    v.push(self.path.clone());
                    v.push("HEAD".to_string());
                    assert(text::views(v@) =~= before.push(self.branch@).push(self.path@).push(
                        "HEAD"@,
                    ));
                    assert(text::views(v@) =~= seq![
                        "worktree"@,
                        "add"@,
                        "-b"@,
                        self.branch@,
                        self.path@,
                        "HEAD"@,
                    ]);
                    CreateAction::Git(v)
                }
            },
            CreateStage::Made => {
                if answer.ok {
                    self.stage = CreateStage::Saved;
                    CreateAction::Save(self.task.clone())
                } else {
                    self.stage = CreateStage::PathLeft;
                    self.git_error = answer.output;
                    CreateAction::Probe(self.path.clone())
                }
            },
            CreateStage::PathLeft => {
                self.stage = CreateStage::BranchLeft;
                self.path_left = answer.ok;
                self.branch_question()
            },
            CreateStage::BranchLeft => {
                let report = self.failure(answer.ok);
                self.stage = CreateStage::Done;
                CreateAction::Report(report)
            },
            CreateStage::Saved => {
                self.stage = CreateStage::Done;
                if answer.ok {
                    CreateAction::Report(
                        "Worktree '".to_string().concat(self.name.as_str()).concat(
                            "' created at ",
                        ).concat(self.path.as_str()).concat(" for task ").concat(
                            self.task.id.as_str(),
                        ),
                    )
                } else {
                    CreateAction::Report(
                        "Partial success: Worktree '".to_string().concat(
                            self.name.as_str(),
                        ).concat("' created at ").concat(self.path.as_str()).concat(
                            " on '",
                        ).concat(self.branch.as_str()).concat("', but binding failed: ").concat(
                            answer.output.as_str(),
                        ).concat(". Git data retained for manual recovery."),
                    )
                }
            },
            CreateStage::Done => {
                let empty = String::new();
                assert(empty@ =~= Seq::<char>::empty());
                CreateAction::Report(empty)
            },
        }
    }
}

/// How far a creation has come; every answer takes it further.
pub open spec fn steps_left(stage: CreateStage) -> nat {
    match stage {
        CreateStage::Root => 7,
        CreateStage::Format => 6,
        CreateStage::Exists => 5,
        CreateStage::Made => 4,
        CreateStage::PathLeft => 3,
        CreateStage::BranchLeft => 2,
        CreateStage::Saved => 1,
        CreateStage::Done => 0,
    }
}

/// A creation comes to an end, and the task is bound only after git made the worktree: a
/// save is asked for in answer to git's success, and in no other case.
pub proof fn law_creation_ends(c: CreationView, a: AnswerView)
    ensures
        c.stage != CreateStage::Done ==> steps_left(after_answer(c, a).0.stage) < steps_left(
            c.stage,
        ),
        after_answer(c, a).1 is Save ==> c.stage == CreateStage::Made && a.ok,
        after_answer(c, a).0.stage == CreateStage::Done <==> after_answer(c, a).1 is Report,
{
}

// ---- removing ----

/// The tasks that are bound to a worktree.
pub open spec fn bound_tasks(ts: Seq<task::TaskView>, name: Seq<char>) -> Seq<task::TaskView>
    decreases ts.len(),
{
    if ts.len() == 0 {
        Seq::empty()
    } else if ts.last().worktree == Some(name) {
        bound_tasks(ts.drop_last(), name).push(ts.last())
    } else {
        bound_tasks(ts.drop_last(), name)
    }
}

/// The id of the first task that is not completed.
pub open spec fn first_active(ts: Seq<task::TaskView>) -> Option<Seq<char>>
    decreases ts.len(),
{
    if ts.len() == 0 {
        None
    } else if ts[0].status != TaskStatus::Completed {
        Some(ts[0].id)
    } else {
        first_active(ts.skip(1))
    }
}

/// The owners whose place is `here`.
pub open spec fn owners_at(
    places: Seq<(Seq<char>, Option<Seq<char>>)>,
    here: Option<Seq<char>>,
) -> Seq<Seq<char>>
    decreases places.len(),
{
    if places.len() == 0 {
        Seq::empty()
    } else if places.last().1 == here {
        owners_at(places.drop_last(), here).push(places.last().0)
    } else {
        owners_at(places.drop_last(), here)
    }
}

/// The content of a list of places.
pub open spec fn place_views(v: Seq<(String, Option<String>)>) -> Seq<
    (Seq<char>, Option<Seq<char>>),
> {
    v.map_values(|p: (String, Option<String>)| (p.0@, text::opt_view(p.1)))
}

/// Why a worktree cannot be removed, as far as names, tasks and assignments decide.
pub open spec fn remove_refusal(
    v: TeamView,
    name: Seq<char>,
    git: worktree::GitView,
    places: Seq<(Seq<char>, Option<Seq<char>>)>,
    here: Option<Seq<char>>,
) -> Option<Seq<char>> {
    match worktree::registered(name, git) {
        Err(e) => Some("Error: "@ + e),
        Ok(_) => {
            let bound = bound_tasks(v.tasks, name);
            if bound.len() == 0 {
                Some("Error: Worktree '"@ + name + "' is not bound to a task"@)
            } else {
                match first_active(bound) {
                    Some(id) => Some(
                        "Error: Worktree '"@ + name + "' bound to active task "@ + id
                            + "; complete it first"@,
                    ),
                    None => if owners_at(places, here).len() > 0 {
                        Some(
                            "Error: Worktree '"@ + name + "' still in use by "@ + text::joined(
                                owners_at(places, here),
                                ", "@,
                            ),
                        )
                    } else {
                        None
                    },
                }
            }
        },
    }
}

/// What a removal waits for.
#[derive(Debug, Clone, Copy, PartialEq, Eq, Structural)]
pub enum RemoveStage {
    /// What git says of the state of the worktree.
    Status,
    /// Whether git removed it.
    Removed,
    /// Nothing.
    Done,
}

/// What to do next in a removal.
pub enum RemoveAction {
    /// Run git with these arguments in the worktree.
    GitInside(Vec<String>),
    /// Run git with these arguments in the working directory.
    Git(Vec<String>),
    /// Done: unbind the tasks and report this.
    Unbind(String),
    /// Done: report this.
    Report(String),
}

/// The mathematical content of a [`RemoveAction`].
#[verifier::ext_equal]
pub enum RemoveActionView {
    GitInside(Seq<Seq<char>>),
    Git(Seq<Seq<char>>),
    Unbind(Seq<char>),
    Report(Seq<char>),
}

impl View for RemoveAction {
    type V = RemoveActionView;

    open spec fn view(&self) -> RemoveActionView {
        match *self {
            RemoveAction::GitInside(a) => RemoveActionView::GitInside(text::views(a@)),
            RemoveAction::Git(a) => RemoveActionView::Git(text::views(a@)),
            RemoveAction::Unbind(m) => RemoveActionView::Unbind(m@),
            RemoveAction::Report(m) => RemoveActionView::Report(m@),
        }
    }
}

/// The removal of a worktree.
pub struct Removal {
    pub name: String,
    pub path: String,
    pub discard_changes: bool,
    pub stage: RemoveStage,
}

/// The mathematical content of a [`Removal`].
#[verifier::ext_equal]
pub struct RemovalView {
    pub name: Seq<char>,
    pub path: Seq<char>,
    pub discard_changes: bool,
    pub stage: RemoveStage,
}

impl View for Removal {
    type V = RemovalView;

    open spec fn view(&self) -> RemovalView {
        RemovalView {
            name: self.name@,
            path: self.path@,
            discard_changes: self.discard_changes,
            stage: self.stage,
        }
    }
}

/// The number of lines that are not blank.
pub open spec fn filled_lines(lines: Seq<Seq<char>>) -> nat
    decreases lines.len(),
{
    if lines.len() == 0 {
        0
    } else {
        filled_lines(lines.drop_last()) + (if text::trimmed(lines.last()).len() > 0 {
            1nat
        } else {
            0nat
        })
    }
}

/// The arguments that remove the worktree.
pub open spec fn removal_args(r: RemovalView) -> Seq<Seq<char>> {
    if r.discard_changes {
        seq!["worktree"@, "remove"@, "--force"@, r.path]
    } else {
        seq!["worktree"@, "remove"@, r.path]
    }
}

/// The removal and the next action after an answer.
pub open spec fn after_removal_answer(r: RemovalView, a: AnswerView) -> (
    RemovalView,
    RemoveActionView,
) {
    let done = RemovalView { stage: RemoveStage::Done, ..r };
    match r.stage {
        RemoveStage::Status => if !a.ok {
            (
                done,
                RemoveActionView::Report(
                    "Error: Cannot verify worktree '"@ + r.name + "' status: "@ + a.output,
                ),
            )
        } else if text::trimmed(a.output).len() > 0 && !r.discard_changes {
            (
                done,
                RemoveActionView::Report(
                    "Error: Worktree '"@ + r.name + "' has "@ + text::decimal(
                        filled_lines(text::lines_of(a.output)),
                    ) + " uncommitted change(s); preserve or discard them manually"@,
                ),
            )
        } else {
            (
                RemovalView { stage: RemoveStage::Removed, ..r },
                RemoveActionView::Git(removal_args(r)),
            )
        },
        RemoveStage::Removed => if a.ok {
            (
                done,
                RemoveActionView::Unbind(
                    "Worktree '"@ + r.name + "' removed; branch '"@ + ("wt/"@ + r.name)
                        + "' retained"@,
                ),
            )
        } else {
            (done, RemoveActionView::Report("Git error: "@ + a.output))
        },
        RemoveStage::Done => (r, RemoveActionView::Report(Seq::empty())),
    }
}

fn bound_list(team: &TeamCtx, name: &str) -> (r: Vec<Task>)
    ensures
        task::tasks(r@) == bound_tasks(team@.tasks, name@),
{
    let ghost ts = team@.tasks;
    let mut out: Vec<Task> = Vec::new();
    let mut i: usize = 0;
    assert(task::tasks(out@) =~= Seq::<task::TaskView>::empty());
    while i < team.task_store.tasks.len()
        invariant
            i <= team.task_store.tasks@.len(),
            ts == team@.tasks,
            task::tasks(out@) == bound_tasks(ts.take(i as int), name@),
        decreases team.task_store.tasks@.len() - i,
    {
        let ghost before = task::tasks(out@);
        assert(ts.take(i + 1).drop_last() =~= ts.take(i as int));
        assert(ts.take(i + 1).last() == team.task_store.tasks@[i as int]@);
        let t = &team.task_store.tasks[i];
        if task::is_text(&t.worktree, name) {
            out.push(t.clone());
            assert(task::tasks(out@) =~= before.push(t@));
        }
        i += 1;
    }
    assert(ts.take(ts.len() as int) =~= ts);
    out
}

fn first_active_id(ts: &[Task]) -> (r: Option<String>)
    ensures
        text::opt_view(r) == first_active(task::tasks(ts@)),
{
    let ghost vs = task::tasks(ts@);
    let mut i: usize = 0;
    assert(vs.skip(0) =~= vs);
    while i < ts.len()
        invariant
            i <= ts@.len(),
            vs == task::tasks(ts@),
            first_active(vs) == first_active(vs.skip(i as int)),
        decreases ts@.len() - i,
    {
        assert(vs.skip(i as int)[0] == ts@[i as int]@);
        if ts[i].status != TaskStatus::Completed {
            return Some(ts[i].id.clone());
        }
        assert(vs.skip(i as int).skip(1) =~= vs.skip(i + 1));
        i += 1;
    }
    None
}

fn same_opt(a: &Option<String>, b: &Option<String>) -> (r: bool)
    ensures
        r == (text::opt_view(*a) == text::opt_view(*b)),
{
    match (a, b) {
        (Some(x), Some(y)) => *x == *y,
        (None, None) => true,
        _ => false,
    }
}

fn list_owners_at(places: &[(String, Option<String>)], here: &Option<String>) -> (r: Vec<String>)
    ensures
        text::views(r@) == owners_at(place_views(places@), text::opt_view(*here)),
{
    let ghost ps = place_views(places@);
    let mut out: Vec<String> = Vec::new();
    let mut i: usize = 0;
    assert(text::views(out@) =~= Seq::<Seq<char>>::empty());
    while i < places.len()
        invariant
            i <= places@.len(),
            ps == place_views(places@),
            text::views(out@) == owners_at(ps.take(i as int), text::opt_view(*here)),
        decreases places@.len() - i,
    {
        let ghost before = text::views(out@);
        assert(ps.take(i + 1).drop_last() =~= ps.take(i as int));
        assert(ps.take(i + 1).last() == ps[i as int]);
        if same_opt(&places[i].1, here) {
            out.push(places[i].0.clone());
            assert(text::views(out@) =~= before.push(places@[i as int].0@));
        }
        i += 1;
    }
    assert(ps.take(ps.len() as int) =~= ps);
    out
}

/// Begins to remove a worktree whose tasks are all completed and in which nobody works.
/// `places` are the owners with the resolved directories of their assignments, `here` is
/// the resolved directory of the worktree. The first step is to ask git for its state.
pub fn remove_worktree(
    team: &TeamCtx,
    name: &str,
    discard_changes: bool,
    git: &GitRegistry,
    places: &[(String, Option<String>)],
    here: &Option<String>,
) -> (r: Result<(Removal, RemoveAction), String>)
    ensures
        ({
            let refusal = remove_refusal(
                team@,
                name@,
                git@,
                place_views(places@),
                text::opt_view(*here),
            );
            match r {
                Ok((m, a)) => {
                    &&& refusal is None
                    &&& m@ == (RemovalView {
                        name: name@,
                        path: worktree::registered(name@, git@)->Ok_0,
                        discard_changes,
                        stage: RemoveStage::Status,
                    })
                    &&& a@ == RemoveActionView::GitInside(
                        seq!["status"@, "--porcelain"@, "--ignored"@],
                    )
                },
                Err(e) => refusal == Some(e@),
            }
        }),
{
    let path = match worktree::registered_worktree(name, git) {
        Ok(p) => p,
        Err(e) => {
            return Err("Error: ".to_string().concat(e.as_str()));
        },
    };
    let bound = bound_list(team, name);
    assert(task::tasks(bound@).len() == bound@.len());
    if bound.len() == 0 {
        return Err(
            "Error: Worktree '".to_string().concat(name).concat("' is not bound to a task"),
        );
    }
    if let Some(id) = first_active_id(&bound) {
        return Err(
            "Error: Worktree '".to_string().concat(name).concat("' bound to active task ").concat(
                id.as_str(),
            ).concat("; complete it first"),
        );
    }
    let leased = list_owners_at(places, here);
    assert(text::views(leased@).len() == leased@.len());
    if leased.len() > 0 {
        return Err(
            "Error: Worktree '".to_string().concat(name).concat("' still in use by ").concat(
                text::join(&leased, ", ").as_str(),
            ),
        );
    }
    let m = Removal { name: name.to_string(), path, discard_changes, stage: RemoveStage::Status };
    Ok((m, RemoveAction::GitInside(words3("status", "--porcelain", "--ignored"))))
}

fn count_filled(lines: &[String]) -> (r: usize)
    ensures
        r == filled_lines(text::views(lines@)),
{
    let ghost ls = text::views(lines@);
    let mut n: usize = 0;
    let mut i: usize = 0;
    while i < lines.len()
        invariant
            n <= i <= lines@.len(),
            ls == text::views(lines@),
            n == filled_lines(ls.take(i as int)),
        decreases lines@.len() - i,
    {
        assert(ls.take(i + 1).drop_last() =~= ls.take(i as int));
        assert(ls.take(i + 1).last() == lines@[i as int]@);
        let t = text::trim(lines[i].as_str());
        if !t.as_str().is_empty() {
            n += 1;
        }
        i += 1;
    }
    assert(ls.take(ls.len() as int) =~= ls);
    n
}

impl Removal {
    /// Takes the answer to the last step and says what to do next.
    pub fn advance(&mut self, answer: Answer) -> (r: RemoveAction)
        ensures
            (final(self)@, r@) == after_removal_answer(old(self)@, answer@),
    {
        match self.stage {
            RemoveStage::Status => {
                if !answer.ok {
                    self.stage = RemoveStage::Done;
                    return RemoveAction::Report(
                        "Error: Cannot verify worktree '".to_string().concat(
                            self.name.as_str(),
                        ).concat("' status: ").concat(answer.output.as_str()),
                    );
                }
                let t = text::trim(answer.output.as_str());
                if !t.as_str().is_empty() && !self.discard_changes {
                    self.stage = RemoveStage::Done;
                    let lines = text::lines(answer.output.as_str());
                    let n: usize = count_filled(&lines);
                    return RemoveAction::Report(
                        "Error: Worktree '".to_string().concat(self.name.as_str()).concat(
                            "' has ",
                        ).concat(text::number_text(n as u64).as_str()).concat(
                            " uncommitted change(s); preserve or discard them manually",
                        ),
                    );
                }
                self.stage = RemoveStage::Removed;
                if self.discard_changes {
                    let mut v = words3("worktree", "remove", "--force");
                    let ghost before = text::views(v@);
                    v.push(self.path.clone());
                    assert(text::views(v@) =~= before.push(self.path@));
                    assert(text::views(v@) =~= removal_args(old(self)@));
                    RemoveAction::Git(v)
                } else {
                    RemoveAction::Git(words3("worktree", "remove", self.path.as_str()))
                }
            },
            RemoveStage::Removed => {
                self.stage = RemoveStage::Done;
                if answer.ok {
                    RemoveAction::Unbind(
                        "Worktree '".to_string().concat(self.name.as_str()).concat(
                            "' removed; branch '",
                        ).concat(worktree::worktree_branch(self.name.as_str()).as_str()).concat(
                            "' retained",
                        ),
                    )
                } else {
                    RemoveAction::Report("Git error: ".to_string().concat(answer.output.as_str()))
                }
            },
            RemoveStage::Done => {
                let empty = String::new();
                assert(empty@ =~= Seq::<char>::empty());
                RemoveAction::Report(empty)
            },
        }
    }
}

/// A task without its worktree, where it was bound to this one.
pub open spec fn unbound(t: task::TaskView, name: Seq<char>) -> task::TaskView {
    if t.worktree == Some(name) {
        task::TaskView { worktree: None, ..t }
    } else {
        t
    }
}

/// Unbinds all tasks from a worktree that was removed.
pub fn unbind_tasks(team: &mut TeamCtx, name: &str)
    ensures
        final(team)@ == (TeamView {
            tasks: old(team)@.tasks.map_values(|t: task::TaskView| unbound(t, name@)),
            ..old(team)@
        }),
{
    let ghost before = team@;
    let ghost want = before.tasks.map_values(|t: task::TaskView| unbound(t, name@));
    let n: usize = team.task_store.tasks.len();
    let mut i: usize = 0;
    while i < n
        invariant
            i <= n,
            n == before.tasks.len(),
            want == before.tasks.map_values(|t: task::TaskView| unbound(t, name@)),
            team@ == (TeamView { tasks: want.take(i as int) + before.tasks.skip(i as int), ..before }),
        decreases n - i,
    {
        let ghost ts = team@.tasks;
        assert(ts[i as int] == before.tasks[i as int]);
        assert(team.task_store.tasks@.len() == ts.len());
        let mut t = team.task_store.tasks[i].clone();
        if task::is_text(&t.worktree, name) {
            t.worktree = None;
            team.task_store.tasks.set(i, t);
            assert(team@.tasks =~= ts.update(i as int, want[i as int]));
        }
        assert(team@.tasks =~= want.take(i + 1) + before.tasks.skip(i + 1));
        i += 1;
    }
    assert(team@.tasks =~= want);
}

/// Uncommitted changes are removed only on request: without it, git is asked to remove the
/// worktree only where it reported no change, and never by force.
pub proof fn law_changes_are_kept(r: RemovalView, a: AnswerView)
    requires
        !r.discard_changes,
        after_removal_answer(r, a).1 is Git,
    ensures
        r.stage == RemoveStage::Status,
        a.ok,
        text::trimmed(a.output).len() == 0,
        after_removal_answer(r, a).1 == RemoveActionView::Git(
            seq!["worktree"@, "remove"@, r.path],
        ),
{
}

} // verus!
