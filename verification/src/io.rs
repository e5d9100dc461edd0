//! What the agent shows and reads, apart from the terminal.

use vstd::prelude::*;

use crate::json::Json;
use crate::text;

verus! {

/// Where the agent shows things to the user.
pub trait Output: Send + Sync {
    /// Shows a line.
    fn emit(&mut self, line: &str);

    /// Shows a banner.
    fn banner(&mut self, msg: &str);

    /// Shows a status.
    fn status(&mut self, msg: &str);

    /// Shows an error.
    fn error(&mut self, msg: &str);

    /// Shows an empty line.
    fn blank(&mut self);

    /// Shows what a tool gave back.
    fn render_tool_result(&mut self, name: &str, result: &str, color: bool);

    /// Shows the prompt.
    fn prompt(&mut self);

    /// Shows why a command was denied.
    fn blocked(&mut self, pattern: &str);

    /// Shows a question for permission.
    fn permission(&mut self, reason: &str, name: &str, input: &Json);
}

/// Where the agent reads the user's input.
pub trait Input: Send + Sync {
    /// Reads a line. There is none at the end of the input.
    fn read_line(&mut self) -> Option<String>;

    /// Asks for permission.
    fn ask_permission(&mut self, reason: &str, name: &str, input: &Json) -> bool;
}

/// An output that keeps what it is given.
pub struct MemoryOutput {
    pub shown: Vec<String>,
}

impl View for MemoryOutput {
    type V = Seq<Seq<char>>;

    open spec fn view(&self) -> Seq<Seq<char>> {
        text::views(self.shown@)
    }
}

impl MemoryOutput {
    /// An output that was given nothing yet.
    pub fn new() -> (r: Self)
        ensures
            r@ == Seq::<Seq<char>>::empty(),
    {
        let r = MemoryOutput { shown: Vec::new() };
        assert(r@ =~= Seq::<Seq<char>>::empty());
        r
    }

    /// The lines so far.
    pub fn lines(&self) -> (r: Vec<String>)
        ensures
            text::views(r@) == self@,
    {
        let mut out: Vec<String> = Vec::new();
        let mut i: usize = 0;
        assert(text::views(out@) =~= self@.take(0));
        while i < self.shown.len()
            invariant
                i <= self.shown@.len(),
                text::views(out@) == self@.take(i as int),
            decreases self.shown@.len() - i,
        {
            let ghost before = text::views(out@);
            let line = self.shown[i].clone();
            out.push(line);
            assert(text::views(out@) =~= before.push(line@));
            assert(text::views(out@) =~= self@.take(i + 1));
            i += 1;
        }
        assert(self@.take(self@.len() as int) =~= self@);
        out
    }

    /// Forgets the lines so far.
    pub fn clear(&mut self)
        ensures
            final(self)@ == Seq::<Seq<char>>::empty(),
    {
        self.shown = Vec::new();
        assert(self@ =~= Seq::<Seq<char>>::empty());
    }

    fn keep(&mut self, line: String)
        ensures
            final(self)@ == old(self)@.push(line@),
    {
        let ghost before = self@;
        self.shown.push(line);
        assert(self@ =~= before.push(line@));
    }
}

impl Default for MemoryOutput {
    fn default() -> (r: Self)
        ensures
            r@ == Seq::<Seq<char>>::empty(),
    {
        MemoryOutput::new()
    }
}

impl Output for MemoryOutput {
    fn emit(&mut self, line: &str)
        ensures
            final(self)@ == old(self)@.push(line@),
    {
        self.keep(line.to_string());
    }

    fn banner(&mut self, msg: &str)
        ensures
            final(self)@ == old(self)@.push("[BANNER] "@ + msg@),
    {
        self.keep("[BANNER] ".to_string().concat(msg));
    }

    fn status(&mut self, msg: &str)
        ensures
            final(self)@ == old(self)@.push("[STATUS] "@ + msg@),
    {
        self.keep("[STATUS] ".to_string().concat(msg));
    }

    fn error(&mut self, msg: &str)
        ensures
            final(self)@ == old(self)@.push("[ERROR] "@ + msg@),
    {
        self.keep("[ERROR] ".to_string().concat(msg));
    }

    fn blank(&mut self)
        ensures
            final(self)@ == old(self)@.push(""@),
    {
        self.keep("".to_string());
    }

    fn render_tool_result(&mut self, name: &str, result: &str, color: bool)
        ensures
            final(self)@ == old(self)@.push("[TOOL] "@ + name@ + " -> "@ + result@),
    {
        self.keep("[TOOL] ".to_string().concat(name).concat(" -> ").concat(result));
    }

    fn prompt(&mut self)
        ensures
            final(self)@ == old(self)@.push(">> "@),
    {
        self.keep(">> ".to_string());
    }

    fn blocked(&mut self, pattern: &str)
        ensures
            final(self)@ == old(self)@.push("[BLOCKED] "@ + pattern@),
    {
        self.keep("[BLOCKED] ".to_string().concat(pattern));
    }

    fn permission(&mut self, reason: &str, name: &str, input: &Json)
        ensures
            final(self)@ == old(self)@.push(
                "[PERMISSION] "@ + reason@ + " "@ + name@ + "("@ + input@ + ")"@,
            ),
    {
        self.keep(
            "[PERMISSION] ".to_string().concat(reason).concat(" ").concat(name).concat("(").concat(
                input.text.as_str(),
            ).concat(")"),
        );
    }
}

/// An input whose answers were given before. The answer that was given last comes first.
pub struct MockInput {
    pub read_responses: Vec<Option<String>>,
    pub permission_responses: Vec<bool>,
}

/// The answer on top of a stack of answers.
pub open spec fn top_line(v: Seq<Option<String>>) -> Option<Seq<char>> {
    if v.len() == 0 {
        None
    } else {
        text::opt_view(v.last())
    }
}

impl MockInput {
    /// An input without answers.
    pub fn new() -> (r: Self)
        ensures
            r.read_responses@.len() == 0,
            r.permission_responses@.len() == 0,
    {
        MockInput { read_responses: Vec::new(), permission_responses: Vec::new() }
    }

    /// Adds an answer for [`Input::read_line`].
    pub fn push_read(&mut self, response: Option<String>)
        ensures
            final(self).read_responses@ == old(self).read_responses@.push(response),
            final(self).permission_responses == old(self).permission_responses,
    {
        self.read_responses.push(response);
    }

    /// Adds an answer for [`Input::ask_permission`].
    pub fn push_permission(&mut self, granted: bool)
        ensures
            final(self).permission_responses@ == old(self).permission_responses@.push(granted),
            final(self).read_responses == old(self).read_responses,
    {
        self.permission_responses.push(granted);
    }
}

impl Default for MockInput {
    fn default() -> (r: Self)
        ensures
            r.read_responses@.len() == 0,
            r.permission_responses@.len() == 0,
    {
        MockInput::new()
    }
}

impl Input for MockInput {
    fn read_line(&mut self) -> (r: Option<String>)
        ensures
            text::opt_view(r) == top_line(old(self).read_responses@),
            final(self).read_responses@ == (if old(self).read_responses@.len() == 0 {
                old(self).read_responses@
            } else {
                old(self).read_responses@.drop_last()
            }),
            final(self).permission_responses == old(self).permission_responses,
    {
        match self.read_responses.pop() {
            Some(answer) => answer,
            None => None,
        }
    }

    fn ask_permission(&mut self, reason: &str, name: &str, input: &Json) -> (r: bool)
        ensures
            r == (old(self).permission_responses@.len() > 0
                && old(self).permission_responses@.last()),
            final(self).permission_responses@ == (if old(self).permission_responses@.len() == 0 {
                old(self).permission_responses@
            } else {
                old(self).permission_responses@.drop_last()
            }),
            final(self).read_responses == old(self).read_responses,
    {
        match self.permission_responses.pop() {
            Some(granted) => granted,
            None => false,
        }
    }
}

/// An output and an input together.
pub struct IO<O: Output, I: Input> {
    pub output: O,
    pub input: I,
}

impl<O: Output, I: Input> IO<O, I> {
    pub fn new(output: O, input: I) -> (r: Self)
        ensures
            r.output == output,
            r.input == input,
    {
        IO { output, input }
    }
}

impl IO<MemoryOutput, MockInput> {
    /// An output and an input in memory.
    pub fn memory() -> (r: Self)
        ensures
            r.output@ == Seq::<Seq<char>>::empty(),
            r.input.read_responses@.len() == 0,
            r.input.permission_responses@.len() == 0,
    {
        IO { output: MemoryOutput::new(), input: MockInput::new() }
    }
}

} // verus!
