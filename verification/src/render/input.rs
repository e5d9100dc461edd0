//! The user's input: what becomes of a line, and of an answer.

use vstd::prelude::*;

use crate::text;

verus! {

/// What a key does.
pub enum Effect {
    /// The line goes to the agent.
    Submit(String),
    /// What is going on is broken off.
    Cancel,
}

/// The line that is being typed.
pub struct InputState {
    pub line: String,
}

impl Default for InputState {
    fn default() -> (r: Self)
        ensures
            r.line@ == Seq::<char>::empty(),
    {
        let line = String::new();
        assert(line@ =~= Seq::<char>::empty());
        InputState { line }
    }
}

/// Submits the line and begins a new one.
pub fn apply_submit(s: &mut InputState) -> (r: Effect)
    ensures
        r is Submit,
        r->Submit_0@ == old(s).line@,
        final(s).line@ == Seq::<char>::empty(),
{
    let mut line = String::new();
    assert(line@ =~= Seq::<char>::empty());
    std::mem::swap(&mut line, &mut s.line);
    Effect::Submit(line)
}

/// Breaks off. The line stays as it is.
pub fn apply_ctrl_c(s: &mut InputState) -> (r: Effect)
    ensures
        r is Cancel,
        *final(s) == *old(s),
{
    Effect::Cancel
}

/// Whether a line that answers a question for permission grants it: only `y` does, in
/// either case.
pub fn grants(line: &str) -> (r: bool)
    ensures
        r == (text::ascii_lowered(text::trimmed(line@)) == "y"@),
{
    text::same(text::ascii_lowercase(text::trim(line).as_str()).as_str(), "y")
}

/// What a line of the user asks for.
pub enum LineCommand {
    /// Nothing.
    Again,
    /// The end of the session.
    Quit,
    /// An answer of the agent.
    Query(String),
}

/// Reads a line of the user.
pub fn interpret_line(line: &str) -> (r: LineCommand)
    ensures
        ({
            let query = text::trimmed(line@);
            if query.len() == 0 {
                r is Again
            } else if text::ascii_lowered(query) == "q"@ || query == "exit"@ {
                r is Quit
            } else {
                r is Query && r->Query_0@ == query
            }
        }),
{
    let query = text::trim(line);
    if query.as_str().is_empty() {
        LineCommand::Again
    } else if text::same(text::ascii_lowercase(query.as_str()).as_str(), "q") || text::same(
        query.as_str(),
        "exit",
    ) {
        LineCommand::Quit
    } else {
        LineCommand::Query(query)
    }
}

} // verus!
