//! Tasks and the table that holds them.

use vstd::prelude::*;

use crate::text;

verus! {

/// The status of a task.
#[derive(Clone, Copy, Debug, PartialEq, Eq, Structural)]
pub enum TaskStatus {
    Pending,
    InProgress,
    Completed,
}

impl TaskStatus {
    /// The status as a word.
    pub open spec fn word(self) -> Seq<char> {
        match self {
            TaskStatus::Pending => "pending"@,
            TaskStatus::InProgress => "in_progress"@,
            TaskStatus::Completed => "completed"@,
        }
    }

    /// The status as a word, for messages.
    pub fn as_word(&self) -> (r: &'static str)
        ensures
            r@ == self.word(),
    {
        match self {
            TaskStatus::Pending => "pending",
            TaskStatus::InProgress => "in_progress",
            TaskStatus::Completed => "completed",
        }
    }
}

/// A task of the team.
pub struct Task {
    /// `task_` and eight hexadecimal digits.
    pub id: String,
    pub subject: String,
    pub description: String,
    pub status: TaskStatus,
    /// The agent that works on it.
    pub owner: Option<String>,
    /// The tasks that have to be completed before.
    pub blocked_by: Vec<String>,
    /// The worktree that it is worked on in.
    pub worktree: Option<String>,
}

/// The mathematical content of a [`Task`].
#[verifier::ext_equal]
pub struct TaskView {
    pub id: Seq<char>,
    pub subject: Seq<char>,
    pub description: Seq<char>,
    pub status: TaskStatus,
    pub owner: Option<Seq<char>>,
    pub blocked_by: Seq<Seq<char>>,
    pub worktree: Option<Seq<char>>,
}

impl View for Task {
    type V = TaskView;

    open spec fn view(&self) -> TaskView {
        TaskView {
            id: self.id@,
            subject: self.subject@,
            description: self.description@,
            status: self.status,
            owner: text::opt_view(self.owner),
            blocked_by: text::views(self.blocked_by@),
            worktree: text::opt_view(self.worktree),
        }
    }
}

/// The contents of a list of tasks.
pub open spec fn tasks(v: Seq<Task>) -> Seq<TaskView> {
    v.map_values(|t: Task| t@)
}

/// Whether an optional text is the given one.
pub fn is_text(o: &Option<String>, s: &str) -> (r: bool)
    ensures
        r == (text::opt_view(*o) == Some(s@)),
{
    match o {
        Some(t) => text::same(t.as_str(), s),
        None => false,
    }
}

fn copy_texts(v: &[String]) -> (r: Vec<String>)
    ensures
        text::views(r@) == text::views(v@),
{
    let mut out: Vec<String> = Vec::new();
    let mut i: usize = 0;
    while i < v.len()
        invariant
            i <= v@.len(),
            text::views(out@) == text::views(v@).take(i as int),
        decreases v@.len() - i,
    {
        let ghost before = text::views(out@);
        out.push(v[i].clone());
        assert(text::views(out@) =~= before.push(v@[i as int]@));
        assert(text::views(out@) =~= text::views(v@).take(i + 1));
        i += 1;
    }
    assert(text::views(v@).take(v@.len() as int) =~= text::views(v@));
    out
}

impl Clone for Task {
    fn clone(&self) -> (r: Self)
        ensures
            r@ == self@,
    {
        Task {
            id: self.id.clone(),
            subject: self.subject.clone(),
            description: self.description.clone(),
            status: self.status,
            owner: text::copy_opt(&self.owner),
            blocked_by: copy_texts(&self.blocked_by),
            worktree: text::copy_opt(&self.worktree),
        }
    }
}

impl Task {
    /// Whether the task can be claimed, given the tasks before it that are not done.
    pub fn can_claim(&self, incomplete_deps: &[String]) -> (r: bool)
        ensures
            r == (self.status == TaskStatus::Pending && incomplete_deps@.len() == 0),
    {
        self.status == TaskStatus::Pending && incomplete_deps.len() == 0
    }

    /// Whether `owner` can complete the task.
    pub fn can_complete(&self, owner: &str) -> (r: bool)
        ensures
            r == (self.status == TaskStatus::InProgress && self@.owner == Some(owner@)),
    {
        self.status == TaskStatus::InProgress && is_text(&self.owner, owner)
    }
}

/// The first task with the id `id`.
pub open spec fn find_task(ts: Seq<TaskView>, id: Seq<char>) -> Option<TaskView>
    decreases ts.len(),
{
    if ts.len() == 0 {
        None
    } else if ts[0].id == id {
        Some(ts[0])
    } else {
        find_task(ts.skip(1), id)
    }
}

/// The table with a task in place of the first one of the same id, or added to it.
pub open spec fn with_task(ts: Seq<TaskView>, t: TaskView) -> Seq<TaskView>
    decreases ts.len(),
{
    if ts.len() == 0 {
        seq![t]
    } else if ts[0].id == t.id {
        seq![t] + ts.skip(1)
    } else {
        seq![ts[0]] + with_task(ts.skip(1), t)
    }
}

/// The tasks, as they are on disk.
pub struct TaskStore {
    pub tasks: Vec<Task>,
}

impl View for TaskStore {
    type V = Seq<TaskView>;

    open spec fn view(&self) -> Seq<TaskView> {
        tasks(self.tasks@)
    }
}

impl TaskStore {
    /// A table of the given tasks.
    pub fn new(tasks: Vec<Task>) -> (r: Self)
        ensures
            r@ == self::tasks(tasks@),
    {
        TaskStore { tasks }
    }

    fn position(&self, id: &str) -> (r: Option<usize>)
        ensures
            match r {
                Some(i) => i < self.tasks@.len() && self@[i as int].id == id@ && forall|j: int|
                    0 <= j < i ==> (#[trigger] self@[j]).id != id@,
                None => forall|j: int| 0 <= j < self@.len() ==> (#[trigger] self@[j]).id != id@,
            },
    {
        let mut i: usize = 0;
        while i < self.tasks.len()
            invariant
                i <= self.tasks@.len(),
                forall|j: int| 0 <= j < i ==> (#[trigger] self@[j]).id != id@,
            decreases self.tasks@.len() - i,
        {
            if text::same(self.tasks[i].id.as_str(), id) {
                return Some(i);
            }
            i += 1;
        }
        None
    }

    /// The task with the id `id`.
    pub fn load(&self, id: &str) -> (r: Option<Task>)
        ensures
            find_task(self@, id@) == (match r {
                Some(t) => Some(t@),
                None => None::<TaskView>,
            }),
    {
        match self.position(id) {
            Some(i) => {
                proof {
                    find_at(self@, id@, i as int);
                }
                Some(self.tasks[i].clone())
            },
            None => {
                proof {
                    find_none(self@, id@);
                }
                None
            },
        }
    }

    /// Puts a task into the table, in place of the one with the same id.
    pub fn save(&mut self, task: &Task)
        ensures
            final(self)@ == with_task(old(self)@, task@),
    {
        let ghost before = self@;
        match self.position(task.id.as_str()) {
            Some(i) => {
                self.tasks.set(i, task.clone());
                assert(self@ =~= before.update(i as int, task@));
                proof {
                    with_task_at(before, task@, i as int);
                }
            },
            None => {
                self.tasks.push(task.clone());
                assert(self@ =~= before.push(task@));
                proof {
                    with_task_new(before, task@);
                }
            },
        }
    }

    /// All tasks.
    pub fn list(&self) -> (r: Vec<Task>)
        ensures
            tasks(r@) == self@,
    {
        let mut out: Vec<Task> = Vec::new();
        let mut i: usize = 0;
        while i < self.tasks.len()
            invariant
                i <= self.tasks@.len(),
                tasks(out@) == self@.take(i as int),
            decreases self.tasks@.len() - i,
        {
            let ghost before = tasks(out@);
            out.push(self.tasks[i].clone());
            assert(tasks(out@) =~= before.push(self@[i as int]));
            assert(tasks(out@) =~= self@.take(i + 1));
            i += 1;
        }
        assert(self@.take(self@.len() as int) =~= self@);
        out
    }
}

proof fn find_at(ts: Seq<TaskView>, id: Seq<char>, i: int)
    requires
        0 <= i < ts.len(),
        ts[i].id == id,
        forall|j: int| 0 <= j < i ==> (#[trigger] ts[j]).id != id,
    ensures
        find_task(ts, id) == Some(ts[i]),
    decreases ts.len(),
{
    if i > 0 {
        assert(ts[0].id != id);
        assert(forall|j: int| 0 <= j < ts.skip(1).len() ==> ts.skip(1)[j] == #[trigger] ts[j + 1]);
        find_at(ts.skip(1), id, i - 1);
    }
}

proof fn find_none(ts: Seq<TaskView>, id: Seq<char>)
    requires
        forall|j: int| 0 <= j < ts.len() ==> (#[trigger] ts[j]).id != id,
    ensures
        find_task(ts, id) is None,
    decreases ts.len(),
{
    if ts.len() > 0 {
        assert(forall|j: int| 0 <= j < ts.skip(1).len() ==> ts.skip(1)[j] == #[trigger] ts[j + 1]);
        find_none(ts.skip(1), id);
    }
}

/// A task is found under its own id.
pub proof fn find_task_id(ts: Seq<TaskView>, id: Seq<char>)
    ensures
        find_task(ts, id) is Some ==> find_task(ts, id)->0.id == id,
    decreases ts.len(),
{
    if ts.len() > 0 && ts[0].id != id {
        find_task_id(ts.skip(1), id);
    }
}

proof fn with_task_at(ts: Seq<TaskView>, t: TaskView, i: int)
    requires
        0 <= i < ts.len(),
        ts[i].id == t.id,
        forall|j: int| 0 <= j < i ==> (#[trigger] ts[j]).id != t.id,
    ensures
        with_task(ts, t) == ts.update(i, t),
    decreases ts.len(),
{
    if i > 0 {
        assert(ts[0].id != t.id);
        assert(forall|j: int| 0 <= j < ts.skip(1).len() ==> ts.skip(1)[j] == #[trigger] ts[j + 1]);
        with_task_at(ts.skip(1), t, i - 1);
    }
    assert(with_task(ts, t) =~= ts.update(i, t));
}

proof fn with_task_new(ts: Seq<TaskView>, t: TaskView)
    requires
        forall|j: int| 0 <= j < ts.len() ==> (#[trigger] ts[j]).id != t.id,
    ensures
        with_task(ts, t) == ts.push(t),
    decreases ts.len(),
{
    if ts.len() > 0 {
        assert(forall|j: int| 0 <= j < ts.skip(1).len() ==> ts.skip(1)[j] == #[trigger] ts[j + 1]);
        with_task_new(ts.skip(1), t);
    }
    assert(with_task(ts, t) =~= ts.push(t));
}

/// A task that was saved is what is loaded under its id, and other ids load as before.
pub proof fn law_save_then_load(ts: Seq<TaskView>, t: TaskView, id: Seq<char>)
    ensures
        find_task(with_task(ts, t), id) == (if id == t.id {
            Some(t)
        } else {
            find_task(ts, id)
        }),
    decreases ts.len(),
{
    reveal_with_fuel(find_task, 2);
    let out = with_task(ts, t);
    if ts.len() == 0 {
        assert(out.skip(1) =~= Seq::<TaskView>::empty());
    } else if ts[0].id == t.id {
        assert(out.skip(1) =~= ts.skip(1));
    } else {
        law_save_then_load(ts.skip(1), t, id);
        assert(out.skip(1) =~= with_task(ts.skip(1), t));
    }
}

} // verus!
