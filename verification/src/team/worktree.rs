//! Worktrees of tasks.

use vstd::prelude::*;

use crate::paths;
use crate::pattern;
use crate::task;
use crate::task::Task;
use crate::text;

verus! {

/// The directory of the worktrees, below the working directory.
pub const WORKTREES_DIR_NAME: &'static str = ".worktrees";

/// What a worktree name has to look like.
pub const WORKTREE_NAME_RULE: &'static str = "worktree name must be 1-64 chars, start [A-Za-z0-9], rest [A-Za-z0-9._-], no '..'";

/// A valid worktree name.
pub open spec fn is_worktree_name(s: Seq<char>) -> bool {
    pattern::is_worktree_shape(s) && !text::has(s, ".."@)
}

/// What is wrong with a worktree name, if anything is.
pub fn validate_worktree_name(name: &str) -> (r: Option<String>)
    ensures
        match r {
            Some(e) => !is_worktree_name(name@) && e@ == WORKTREE_NAME_RULE@,
            None => is_worktree_name(name@),
        },
{
    let ok = match pattern::regex_is_match(pattern::WORKTREE_NAME_PATTERN, name) {
        Some(b) => b,
        None => false,
    };
    if !ok || text::contains(name, "..") {
        return Some(WORKTREE_NAME_RULE.to_string());
    }
    None
}

/// The directory of the worktrees with all links resolved, or why it could not be resolved.
pub open spec fn base_view(base: Result<String, String>) -> Result<Seq<char>, Seq<char>> {
    match base {
        Ok(b) => Ok(b@),
        Err(e) => Err(e@),
    }
}

/// Where a worktree is: below the resolved directory of the worktrees.
pub open spec fn checkout_path(base: Result<Seq<char>, Seq<char>>, name: Seq<char>) -> Result<
    Seq<char>,
    Seq<char>,
> {
    if !is_worktree_name(name) {
        Err(WORKTREE_NAME_RULE@)
    } else {
        match base {
            Ok(b) => Ok(paths::joined_path(b, name)),
            Err(e) => Err(e),
        }
    }
}

/// Where a worktree is. `base` is the directory of the worktrees with all links resolved, as
/// git prints it, or why it could not be resolved.
pub fn worktree_path(base: &Result<String, String>, name: &str) -> (r: Result<String, String>)
    ensures
        base_view(r) == checkout_path(base_view(*base), name@),
{
    match validate_worktree_name(name) {
        Some(e) => Err(e),
        None => match base {
            Ok(b) => Ok(paths::join_path(b.as_str(), name)),
            Err(e) => Err(e.clone()),
        },
    }
}

/// The branch of a worktree.
pub fn worktree_branch(name: &str) -> (r: String)
    ensures
        r@ == "wt/"@ + name@,
{
    "wt/".to_string().concat(name)
}

/// A worktree lies in the directory of the worktrees itself: its path is the directory,
/// a separator and the name, which holds no separator and is none of the dot names.
pub proof fn law_worktree_stays_inside(dir: Seq<char>, name: Seq<char>)
    requires
        is_worktree_name(name),
        dir.len() > 0,
    ensures
        paths::joined_path(dir, name) == dir + name || paths::joined_path(dir, name) == dir + "/"@
            + name,
        !name.contains('/'),
        name != "."@,
        name != ".."@,
{
    reveal_strlit(".");
    reveal_strlit("..");
    if name.contains('/') {
        let i = choose|i: int| 0 <= i < name.len() && name[i] == '/';
        assert(pattern::is_name_char(name[i]) || name[i] == '.');
    }
    assert("."@[0] == '.');
    assert(".."@[0] == '.');
    assert(name[0] != '/');
}

/// What git says of its worktrees: whether it answered, what it printed for
/// `git worktree list --porcelain`, and which of the listed paths are directories; and the
/// directory of the worktrees with all links resolved, or why it could not be resolved.
pub struct GitRegistry {
    pub base: Result<String, String>,
    pub ok: bool,
    pub output: String,
    pub dirs: Vec<String>,
}

/// The mathematical content of a [`GitRegistry`].
#[verifier::ext_equal]
pub struct GitView {
    pub base: Result<Seq<char>, Seq<char>>,
    pub ok: bool,
    pub output: Seq<char>,
    pub dirs: Seq<Seq<char>>,
}

impl View for GitRegistry {
    type V = GitView;

    open spec fn view(&self) -> GitView {
        GitView {
            base: base_view(self.base),
            ok: self.ok,
            output: self.output@,
            dirs: text::views(self.dirs@),
        }
    }
}

/// Whether the lines list `path` on `branch`; `current` is the path of the entry that the
/// lines begin in.
pub open spec fn is_listed(
    lines: Seq<Seq<char>>,
    current: Option<Seq<char>>,
    path: Seq<char>,
    branch: Seq<char>,
) -> bool
    decreases lines.len(),
{
    if lines.len() == 0 {
        false
    } else {
        let l = lines[0];
        if text::begins(l, "worktree "@) {
            is_listed(lines.skip(1), Some(l.skip("worktree "@.len() as int)), path, branch)
        } else if text::begins(l, "branch "@) && l.skip("branch "@.len() as int) == branch && current
            == Some(path) {
            true
        } else {
            is_listed(lines.skip(1), current, path, branch)
        }
    }
}

fn listed(lines: &[String], path: &str, branch: &str) -> (r: bool)
    ensures
        r == is_listed(text::views(lines@), None, path@, branch@),
{
    let ghost ls = text::views(lines@);
    let mut current: Option<String> = None;
    let mut i: usize = 0;
    assert(ls.skip(0) =~= ls);
    while i < lines.len()
        invariant
            i <= lines@.len(),
            ls == text::views(lines@),
            is_listed(ls, None, path@, branch@) == is_listed(
                ls.skip(i as int),
                text::opt_view(current),
                path@,
                branch@,
            ),
        decreases lines@.len() - i,
    {
        assert(ls.skip(i as int)[0] == lines@[i as int]@);
        assert(ls.skip(i as int).skip(1) =~= ls.skip(i + 1));
        if let Some(p) = text::strip_prefix(lines[i].as_str(), "worktree ") {
            current = Some(p);
        } else if let Some(b) = text::strip_prefix(lines[i].as_str(), "branch ") {
            if text::same(b.as_str(), branch) && task::is_text(&current, path) {
                return true;
            }
        }
        i += 1;
    }
    false
}

/// Where the registered worktree `name` is, or what is wrong with it.
pub open spec fn registered(name: Seq<char>, git: GitView) -> Result<Seq<char>, Seq<char>> {
    match checkout_path(git.base, name) {
        Err(e) => Err(e),
        Ok(path) => if !git.ok {
            Err("cannot read git worktree registry: "@ + git.output)
        } else if !is_listed(
            text::lines_of(git.output),
            None,
            path,
            "refs/heads/"@ + ("wt/"@ + name),
        ) {
            Err("worktree '"@ + name + "' is not registered with git"@)
        } else if !git.dirs.contains(path) {
            Err("worktree '"@ + name + "' is missing at "@ + path)
        } else {
            Ok(path)
        },
    }
}

/// Where the worktree `name` is: it has to be registered with git on its own branch, and
/// its directory has to be there.
pub fn registered_worktree(name: &str, git: &GitRegistry) -> (r: Result<String, String>)
    ensures
        base_view(r) == registered(name@, git@),
{
    let path = match worktree_path(&git.base, name) {
        Ok(p) => p,
        Err(e) => return Err(e),
    };
    if !git.ok {
        return Err(
            "cannot read git worktree registry: ".to_string().concat(git.output.as_str()),
        );
    }
    let lines = text::lines(git.output.as_str());
    let branch = "refs/heads/".to_string().concat(worktree_branch(name).as_str());
    if !listed(&lines, path.as_str(), branch.as_str()) {
        return Err(
            "worktree '".to_string().concat(name).concat("' is not registered with git"),
        );
    }
    if !crate::recall::list_has(&git.dirs, &path) {
        return Err(
            "worktree '".to_string().concat(name).concat("' is missing at ").concat(path.as_str()),
        );
    }
    Ok(path)
}

/// The directory of a task, and what is wrong with its worktree.
pub open spec fn task_cwd(workdir: Seq<char>, t: task::TaskView, git: GitView) -> (
    Seq<char>,
    Option<Seq<char>>,
) {
    match t.worktree {
        None => (workdir, None),
        Some(name) => match registered(name, git) {
            Ok(p) => (p, None),
            Err(e) => (workdir, Some(e)),
        },
    }
}

/// The directory of a task: its worktree, or the working directory where it has none. A
/// broken worktree is an error; the caller must not go on in the working directory.
pub fn task_worktree_cwd(workdir: &str, task: &Task, git: &GitRegistry) -> (r: (
    String,
    Option<String>,
))
    ensures
        (r.0@, text::opt_view(r.1)) == task_cwd(workdir@, task@, git@),
{
    match &task.worktree {
        None => (workdir.to_string(), None),
        Some(name) => match registered_worktree(name.as_str(), git) {
            Ok(p) => (p, None),
            Err(e) => (workdir.to_string(), Some(e)),
        },
    }
}

} // verus!
