//! The tool that finds files by pattern.

use vstd::prelude::*;

use crate::json;
use crate::json::Json;
use crate::paths;
use crate::text;
use crate::tools::{AgentKind, PermissionCheck, PermissionView, Tool, ToolDefView};

verus! {

/// How many paths one search gives back at most.
pub const MAX_RESULTS: usize = 5000;

pub const GLOB_NAME: &'static str = "glob";

pub const GLOB_DESCRIPTION: &'static str = "Fast file pattern matching tool that works with any codebase size. Supports glob patterns like **/*.js or src/**/*.ts. Returns matching file paths.";

pub const GLOB_SCHEMA: &'static str = r#"{"type":"object","properties":{"pattern":{"type":"string","description":"The glob pattern to match files against"},"path":{"type":"string","description":"The directory to search in. If not specified, the current working directory will be used. IMPORTANT: Omit this field to use the default directory. DO NOT enter undefined or null - simply omit it for the default behavior. Must be a valid directory path if provided."}},"required":["pattern"]}"#;

/// A path with `/` in place of each backslash.
pub open spec fn unix_path(p: Seq<char>) -> Seq<char> {
    p.map_values(|c: char| if c == '\\' { '/' } else { c })
}

/// The paths that a search gives back of those that it found.
pub open spec fn listed(found: Seq<Seq<char>>) -> Seq<Seq<char>> {
    text_prefix(found).map_values(|p: Seq<char>| unix_path(p))
}

/// The first [`MAX_RESULTS`] entries of a list.
pub open spec fn text_prefix(found: Seq<Seq<char>>) -> Seq<Seq<char>> {
    if found.len() <= MAX_RESULTS {
        found
    } else {
        found.take(MAX_RESULTS as int)
    }
}

/// The tool's answer to a search that found these paths.
pub open spec fn glob_answer(found: Seq<Seq<char>>) -> Seq<char> {
    if found.len() == 0 {
        "Error: no matches"@
    } else {
        text::joined(listed(found), "\n"@)
    }
}

/// Writes a path with `/` as its separator.
pub fn to_unix_path(p: &str) -> (r: String)
    ensures
        r@ == unix_path(p@),
{
    let chars = text::to_chars(p);
    let mut out = String::new();
    assert(out@ =~= Seq::<char>::empty());
    let mut i: usize = 0;
    while i < chars.len()
        invariant
            i <= chars@.len(),
            chars@ == p@,
            out@ == unix_path(p@).take(i as int),
        decreases chars@.len() - i,
    {
        let ghost before = out@;
        let c = if chars[i] == '\\' { '/' } else { chars[i] };
        out.push(c);
        assert(out@ =~= before.push(c));
        assert(out@ =~= unix_path(p@).take(i + 1));
        i += 1;
    }
    assert(unix_path(p@).take(p@.len() as int) =~= unix_path(p@));
    out
}

/// The paths that a search gives back, of the paths below its directory that matched.
pub fn glob_in(found: &[String]) -> (r: Vec<String>)
    ensures
        text::views(r@) == listed(text::views(found@)),
{
    let ghost want = listed(text::views(found@));
    let mut out: Vec<String> = Vec::new();
    let mut i: usize = 0;
    assert(text::views(out@) =~= want.take(0));
    while i < found.len() && i < MAX_RESULTS
        invariant
            i <= found@.len(),
            i <= MAX_RESULTS,
            want == listed(text::views(found@)),
            text::views(out@) == want.take(i as int),
        decreases found@.len() - i,
    {
        let ghost before = text::views(out@);
        let p = to_unix_path(found[i].as_str());
        out.push(p);
        assert(text::views(out@) =~= before.push(p@));
        assert(want[i as int] == p@);
        assert(text::views(out@) =~= want.take(i + 1));
        i += 1;
    }
    assert(want.take(want.len() as int) =~= want);
    out
}

/// The tool's answer to a search that found these paths.
pub fn run_glob(found: &[String]) -> (r: String)
    ensures
        r@ == glob_answer(text::views(found@)),
{
    let results = glob_in(found);
    if results.len() == 0 {
        assert(text::views(results@).len() == 0);
        "Error: no matches".to_string()
    } else {
        assert(text::views(results@).len() > 0);
        text::join(&results, "\n")
    }
}

/// The pattern that a search is for, and the directory it starts from.
pub open spec fn glob_target(
    input: Seq<char>,
    cwd: Result<Seq<char>, Seq<char>>,
) -> Result<(Seq<char>, Seq<char>), Seq<char>> {
    let pattern = match json::text_str_member(input, "pattern"@) {
        Some(p) => p,
        None => ""@,
    };
    match json::text_str_member(input, "path"@) {
        Some(base) => Ok((pattern, base)),
        None => match cwd {
            Ok(base) => Ok((pattern, base)),
            Err(e) => Err("Error: "@ + e),
        },
    }
}

/// The tool that finds files by pattern.
pub struct GlobTool;

impl GlobTool {
    /// What to search for, and where: the directory that the input names, or else the
    /// agent's own, which may be unknown for the reason that `cwd` holds.
    pub fn target(&self, input: &Json, cwd: Result<&str, &str>) -> (r: Result<
        (String, String),
        String,
    >)
        ensures
            glob_target(
                input@,
                match cwd {
                    Ok(d) => Ok(d@),
                    Err(e) => Err(e@),
                },
            ) == (match r {
                Ok((pattern, base)) => Ok::<(Seq<char>, Seq<char>), Seq<char>>((pattern@, base@)),
                Err(e) => Err(e@),
            }),
    {
        let pattern = match input.str_member("pattern") {
            Some(p) => p,
            None => "".to_string(),
        };
        match input.str_member("path") {
            Some(base) => Ok((pattern, base)),
            None => match cwd {
                Ok(base) => Ok((pattern, base.to_string())),
                Err(e) => Err("Error: ".to_string().concat(e)),
            },
        }
    }

    /// The pattern below `base` that the file system is asked for.
    pub fn full_pattern(&self, base: &str, pattern: &str) -> (r: String)
        ensures
            r@ == paths::joined_path(base@, pattern@),
    {
        paths::join_path(base, pattern)
    }
}

impl Tool for GlobTool {
    open spec fn facts(&self) -> ToolDefView {
        ToolDefView {
            name: GLOB_NAME@,
            description: GLOB_DESCRIPTION@,
            input_schema: GLOB_SCHEMA@,
        }
    }

    open spec fn permission(&self, input: Seq<char>) -> PermissionView {
        PermissionView::Pass
    }

    open spec fn offered(&self, kind: AgentKind) -> bool {
        true
    }

    fn name(&self) -> (r: &str) {
        GLOB_NAME
    }

    fn description(&self) -> (r: &str) {
        GLOB_DESCRIPTION
    }

    fn input_schema(&self) -> (r: Json) {
        Json { text: GLOB_SCHEMA.to_string() }
    }

    fn check_permission(&self, input: &Json) -> (r: PermissionCheck) {
        PermissionCheck::Pass
    }

    fn available_for(&self, kind: AgentKind) -> (r: bool) {
        true
    }
}

/// The law of listings: a search lists the paths that it found, in their order, up to the
/// limit, each as it is but with `/` for every backslash.
pub proof fn law_found_paths_are_listed(found: Seq<Seq<char>>, i: int, k: int)
    requires
        0 <= i < found.len(),
        i < MAX_RESULTS,
        0 <= k < found[i].len(),
    ensures
        listed(found).len() == (if found.len() <= MAX_RESULTS {
            found.len()
        } else {
            MAX_RESULTS as nat
        }),
        listed(found)[i].len() == found[i].len(),
        listed(found)[i][k] == (if found[i][k] == '\\' {
            '/'
        } else {
            found[i][k]
        }),
        glob_answer(found) == text::joined(listed(found), "\n"@),
{
}

} // verus!
