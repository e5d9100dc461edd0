//! Patterns over text.

use vstd::prelude::*;

use crate::text;

verus! {

/// The names of agents, which are also the names of their mailboxes.
pub const AGENT_NAME_PATTERN: &'static str = "^[A-Za-z0-9_-]{1,64}$";

/// The names of worktrees; that they hold no `..` is checked apart.
pub const WORKTREE_NAME_PATTERN: &'static str = "^[A-Za-z0-9][A-Za-z0-9._-]{0,63}$";

/// The characters that may not stand in the name of a tool.
pub const DISALLOWED_CHARS: &'static str = "[^a-zA-Z0-9_-]";

/// Whether a pattern is found in a text, by `regex::Regex`; nothing where the pattern
/// itself is invalid.
pub uninterp spec fn regex_match(pattern: Seq<char>, text: Seq<char>) -> Option<bool>;

/// The text with every match of a pattern replaced, by `regex::Regex`; nothing where the
/// pattern itself is invalid.
pub uninterp spec fn regex_replaced(pattern: Seq<char>, text: Seq<char>, with: Seq<char>) -> Option<
    Seq<char>,
>;

/// A letter, a digit, an underscore or a dash.
pub open spec fn is_name_char(c: char) -> bool {
    text::is_ascii_alnum(c) || c == '_' || c == '-'
}

/// One to 64 name characters.
pub open spec fn is_agent_name(s: Seq<char>) -> bool {
    &&& 1 <= s.len() <= 64
    &&& forall|i: int| 0 <= i < s.len() ==> is_name_char(#[trigger] s[i])
}

/// One to 64 name characters or dots, the first a letter or a digit.
pub open spec fn is_worktree_shape(s: Seq<char>) -> bool {
    &&& 1 <= s.len() <= 64
    &&& text::is_ascii_alnum(s[0])
    &&& forall|i: int| 0 <= i < s.len() ==> is_name_char(#[trigger] s[i]) || s[i] == '.'
}

/// The character that a tool name has in place of `c`.
pub open spec fn tool_name_char(c: char) -> char {
    if is_name_char(c) {
        c
    } else {
        '_'
    }
}

/// Calls `regex::Regex::new` and `Regex::is_match`. Of the two patterns for names, which
/// are anchored at both ends and hold one class of characters or two, it says which texts
/// they match.
#[verifier::external_body]
pub(crate) fn regex_is_match(pattern: &str, text: &str) -> (r: Option<bool>)
    ensures
        r == regex_match(pattern@, text@),
        pattern@ == AGENT_NAME_PATTERN@ ==> r == Some(is_agent_name(text@)),
        pattern@ == WORKTREE_NAME_PATTERN@ ==> r == Some(is_worktree_shape(text@)),
{
    match regex::Regex::new(pattern) {
        Ok(re) => Some(re.is_match(text)),
        Err(_) => None,
    }
}

/// Calls `regex::Regex::new` and `Regex::replace_all`. For the pattern of disallowed
/// characters, which matches single characters, and a replacement by one underscore, it
/// says what the text becomes.
#[verifier::external_body]
pub(crate) fn regex_replace_all(pattern: &str, text: &str, with: &str) -> (r: Option<String>)
    ensures
        regex_replaced(pattern@, text@, with@) == (match r {
            Some(s) => Some(s@),
            None => None::<Seq<char>>,
        }),
        pattern@ == DISALLOWED_CHARS@ && with@ == "_"@ ==> r is Some && r->0@
            == text@.map_values(|c: char| tool_name_char(c)),
{
    match regex::Regex::new(pattern) {
        Ok(re) => Some(re.replace_all(text, with).into_owned()),
        Err(_) => None,
    }
}

/// Whether a valid pattern is found in a text.
pub fn found(pattern: &str, text: &str) -> (r: bool)
    ensures
        r == (regex_match(pattern@, text@) == Some(true)),
{
    match regex_is_match(pattern, text) {
        Some(b) => b,
        None => false,
    }
}

/// Whether a text can name an agent: one to 64 letters, digits, underscores or dashes.
pub fn is_valid_agent_name(name: &str) -> (r: bool)
    ensures
        r == is_agent_name(name@),
{
    match regex_is_match(AGENT_NAME_PATTERN, name) {
        Some(b) => b,
        None => false,
    }
}

} // verus!
