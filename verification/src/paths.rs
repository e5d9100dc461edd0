//! Paths as text, with `/` between their parts.

use vstd::prelude::*;

use crate::text;

verus! {

/// The path of `name` below `dir`. An absolute `name` stands for itself.
pub open spec fn joined_path(dir: Seq<char>, name: Seq<char>) -> Seq<char> {
    if name.len() > 0 && name[0] == '/' {
        name
    } else if dir.len() == 0 || dir.last() == '/' {
        dir + name
    } else {
        dir + "/"@ + name
    }
}

/// The path of `name` below `dir`.
pub fn join_path(dir: &str, name: &str) -> (r: String)
    ensures
        r@ == joined_path(dir@, name@),
{
    let n = text::to_chars(name);
    if n.len() > 0 && n[0] == '/' {
        return name.to_string();
    }
    let d = text::to_chars(dir);
    if d.len() == 0 || d[d.len() - 1] == '/' {
        dir.to_string().concat(name)
    } else {
        dir.to_string().concat("/").concat(name)
    }
}

} // verus!
