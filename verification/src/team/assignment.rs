//! Who works on what, and where.

use vstd::prelude::*;

use crate::strmap::StrMap;
use crate::task;
use crate::task::{TaskStatus, TaskStore};
use crate::team::worktree;
use crate::team::worktree::GitRegistry;
use crate::text;

verus! {

/// The task that a teammate works on and the directory in which it does.
pub struct Assignment {
    pub task_id: String,
    pub cwd: String,
}

/// The mathematical content of an [`Assignment`].
#[verifier::ext_equal]
pub struct AssignmentView {
    pub task_id: Seq<char>,
    pub cwd: Seq<char>,
}

impl View for Assignment {
    type V = AssignmentView;

    open spec fn view(&self) -> AssignmentView {
        AssignmentView { task_id: self.task_id@, cwd: self.cwd@ }
    }
}

impl Clone for Assignment {
    fn clone(&self) -> (r: Self)
        ensures
            r@ == self@,
    {
        Assignment { task_id: self.task_id.clone(), cwd: self.cwd.clone() }
    }
}

/// The assignments, and for each owner a version that every change of work advances, so
/// that the approval of a plan for earlier work can be told apart.
pub struct AssignmentRegistry {
    pub assignments: StrMap<Assignment>,
    pub versions: StrMap<u32>,
}

/// The mathematical content of an [`AssignmentRegistry`].
#[verifier::ext_equal]
pub struct AssignmentsView {
    pub current: Map<Seq<char>, AssignmentView>,
    pub versions: Map<Seq<char>, u32>,
}

impl AssignmentsView {
    /// The version of an owner's work: 0 before there was any.
    pub open spec fn version(self, owner: Seq<char>) -> u32 {
        if self.versions.contains_key(owner) {
            self.versions[owner]
        } else {
            0
        }
    }

    /// The task that an owner works on.
    pub open spec fn task_of(self, owner: Seq<char>) -> Option<Seq<char>> {
        if self.current.contains_key(owner) {
            Some(self.current[owner].task_id)
        } else {
            None
        }
    }

    /// The registry after the owner's version advanced.
    pub open spec fn advanced(self, owner: Seq<char>) -> AssignmentsView {
        AssignmentsView {
            versions: self.versions.insert(owner, (self.version(owner) + 1) as u32),
            ..self
        }
    }

    /// The registry after the owner was assigned work.
    pub open spec fn assigned(self, owner: Seq<char>, a: AssignmentView) -> AssignmentsView {
        AssignmentsView { current: self.current.insert(owner, a), ..self }
    }

    /// The registry after the owner's assignment was dropped.
    pub open spec fn released(self, owner: Seq<char>) -> AssignmentsView {
        AssignmentsView { current: self.current.remove(owner), ..self }
    }
}

impl View for AssignmentRegistry {
    type V = AssignmentsView;

    open spec fn view(&self) -> AssignmentsView {
        AssignmentsView {
            current: self.assignments@.map_values(|a: Assignment| a@),
            versions: self.versions@,
        }
    }
}

impl AssignmentRegistry {
    /// A registry without assignments.
    pub fn new() -> (r: Self)
        ensures
            r@.current == Map::<Seq<char>, AssignmentView>::empty(),
            r@.versions == Map::<Seq<char>, u32>::empty(),
    {
        let r = AssignmentRegistry { assignments: StrMap::new(), versions: StrMap::new() };
        assert(r@.current =~= Map::<Seq<char>, AssignmentView>::empty());
        r
    }

    /// The assignment of an owner.
    pub fn get(&self, owner: &str) -> (r: Option<Assignment>)
        ensures
            match r {
                Some(a) => self@.current.contains_key(owner@) && a@ == self@.current[owner@],
                None => !self@.current.contains_key(owner@),
            },
    {
        match self.assignments.get(owner) {
            Some(a) => Some(a.clone()),
            None => None,
        }
    }

    /// Assigns work to an owner.
    pub fn set(&mut self, owner: &str, a: Assignment)
        ensures
            final(self)@ == old(self)@.assigned(owner@, a@),
    {
        let ghost before = self@;
        self.assignments.insert(owner, a);
        assert(self@ =~= before.assigned(owner@, a@)) by {
            assert(self@.current =~= before.current.insert(owner@, a@));
        }
    }

    /// Drops the assignment of an owner.
    pub fn remove(&mut self, owner: &str) -> (r: Option<Assignment>)
        ensures
            final(self)@ == old(self)@.released(owner@),
            match r {
                Some(a) => old(self)@.current.contains_key(owner@) && a@ == old(
                    self,
                )@.current[owner@],
                None => !old(self)@.current.contains_key(owner@),
            },
    {
        let ghost before = self@;
        let r = self.assignments.remove(owner);
        assert(self@.current =~= before.current.remove(owner@));
        r
    }

    /// All assignments with their owners, each once.
    pub fn snap(&self) -> (r: Vec<(String, Assignment)>)
        ensures
            snap_owners(r@).no_duplicates(),
            forall|k: Seq<char>| #[trigger]
                snap_owners(r@).contains(k) <==> self@.current.contains_key(k),
            forall|i: int|
                0 <= i < r@.len() ==> (#[trigger] r@[i]).1@ == self@.current[r@[i].0@],
    {
        let keys = self.assignments.keys();
        let ghost ks = text::views(keys@);
        let mut out: Vec<(String, Assignment)> = Vec::new();
        let mut i: usize = 0;
        while i < keys.len()
            invariant
                i <= keys@.len(),
                ks == text::views(keys@),
                forall|k: Seq<char>| #[trigger]
                    ks.contains(k) <==> self.assignments@.contains_key(k),
                snap_owners(out@) == ks.take(i as int),
                forall|j: int|
                    0 <= j < out@.len() ==> (#[trigger] out@[j]).1@ == self@.current[out@[j].0@],
            decreases keys@.len() - i,
        {
            let ghost before = snap_owners(out@);
            assert(ks[i as int] == keys@[i as int]@);
            assert(ks.contains(ks[i as int]));
            if let Some(a) = self.assignments.get(keys[i].as_str()) {
                let a2 = a.clone();
                assert(a2@ == self@.current[keys@[i as int]@]);
                out.push((keys[i].clone(), a2));
            }
            assert(snap_owners(out@) =~= before.push(ks[i as int]));
            assert(snap_owners(out@) =~= ks.take(i + 1));
            i += 1;
        }
        assert(ks.take(ks.len() as int) =~= ks);
        out
    }

    /// The version of an owner's work.
    pub fn version(&self, owner: &str) -> (r: u32)
        ensures
            r == self@.version(owner@),
    {
        match self.versions.get(owner) {
            Some(v) => *v,
            None => 0,
        }
    }

    /// Advances the version of an owner's work: approvals of plans for earlier work no
    /// longer hold.
    pub fn advance_version(&mut self, owner: &str) -> (r: u32)
        requires
            old(self)@.version(owner@) < u32::MAX,
        ensures
            final(self)@ == old(self)@.advanced(owner@),
            r == old(self)@.version(owner@) + 1,
    {
        let n: u32 = self.version(owner) + 1;
        self.versions.insert(owner, n);
        n
    }
}

/// The owners in a snapshot.
pub open spec fn snap_owners(v: Seq<(String, Assignment)>) -> Seq<Seq<char>> {
    v.map_values(|p: (String, Assignment)| p.0@)
}

/// The directory in which an owner works: the working directory without an assignment,
/// else the one of the task; an error where the task is no longer the owner's or its
/// worktree is broken.
pub open spec fn cwd_of(
    workdir: Seq<char>,
    ts: Seq<task::TaskView>,
    reg: AssignmentsView,
    owner: Seq<char>,
    git: worktree::GitView,
) -> Result<Seq<char>, Seq<char>> {
    match reg.task_of(owner) {
        None => Ok(workdir),
        Some(id) => match task::find_task(ts, id) {
            None => Err("Task "@ + id + " not found"@),
            Some(t) => if t.status == TaskStatus::Pending || t.owner != Some(owner) {
                Err("Assignment for "@ + owner + " is no longer active"@)
            } else {
                match worktree::task_cwd(workdir, t, git) {
                    (_, Some(e)) => Err(e),
                    (cwd, None) => Ok(cwd),
                }
            },
        },
    }
}

/// The directory in which an owner works. It never falls back to the working directory
/// where an assignment is broken.
pub fn assignment_cwd(
    workdir: &str,
    store: &TaskStore,
    registry: &AssignmentRegistry,
    owner: &str,
    git: &GitRegistry,
) -> (r: Result<String, String>)
    ensures
        cwd_of(workdir@, store@, registry@, owner@, git@) == (match r {
            Ok(p) => Ok::<Seq<char>, Seq<char>>(p@),
            Err(e) => Err(e@),
        }),
{
    match registry.get(owner) {
        Some(a) => match store.load(a.task_id.as_str()) {
            Some(t) => {
                if t.status == TaskStatus::Pending || !task::is_text(&t.owner, owner) {
                    return Err(
                        "Assignment for ".to_string().concat(owner).concat(
                            " is no longer active",
                        ),
                    );
                }
                let (cwd, err) = worktree::task_worktree_cwd(workdir, &t, git);
                match err {
                    Some(e) => Err(e),
                    None => Ok(cwd),
                }
            },
            None => Err(
                "Task ".to_string().concat(a.task_id.as_str()).concat(" not found"),
            ),
        },
        None => Ok(workdir.to_string()),
    }
}

} // verus!
