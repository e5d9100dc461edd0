//! Tools: what the model is told of them, who may use them, and what a call gives back.

use vstd::prelude::*;

use crate::agent::Agent;
use crate::error;
use crate::error::AgentError;
use crate::json::Json;
use crate::text;

pub mod glob_tool;
pub mod laws;
pub mod load_skill;

verus! {

/// The kinds of agents.
#[derive(Debug, Clone, Copy, PartialEq, Eq, Structural)]
pub enum AgentKind {
    /// The agent that talks with the user.
    Lead,
    /// An agent started for one task of another agent.
    Subagent,
    /// A member of the team.
    Teammate,
}

/// What a tool asks for before it is run on some input.
#[derive(Debug, PartialEq)]
pub enum PermissionCheck {
    /// Nothing.
    Pass,
    /// The user's approval, for this reason.
    NeedsApproval(&'static str),
}

/// The mathematical content of a [`PermissionCheck`].
#[verifier::ext_equal]
pub enum PermissionView {
    Pass,
    NeedsApproval(Seq<char>),
}

impl View for PermissionCheck {
    type V = PermissionView;

    open spec fn view(&self) -> PermissionView {
        match self {
            PermissionCheck::Pass => PermissionView::Pass,
            PermissionCheck::NeedsApproval(reason) => PermissionView::NeedsApproval(reason@),
        }
    }
}

/// What a tool call came to.
pub enum ToolResult {
    /// The tool ran. A tool that reports a failure in its own words has run too.
    Output(String),
    /// No tool of that name is registered.
    NotFound { name: String, available: Vec<String> },
    /// The tool is not for this kind of agent.
    Rejected { name: String, reason: String },
    /// The call was denied before the tool ran.
    Denied { name: String, reason: String },
    /// The tool failed.
    Error(AgentError),
}

/// The mathematical content of a [`ToolResult`].
#[verifier::ext_equal]
pub enum ToolResultView {
    Output(Seq<char>),
    NotFound { name: Seq<char>, available: Seq<Seq<char>> },
    Rejected { name: Seq<char>, reason: Seq<char> },
    Denied { name: Seq<char>, reason: Seq<char> },
    Error(error::ErrorView),
}

impl View for ToolResult {
    type V = ToolResultView;

    open spec fn view(&self) -> ToolResultView {
        match self {
            ToolResult::Output(s) => ToolResultView::Output(s@),
            ToolResult::NotFound { name, available } => ToolResultView::NotFound {
                name: name@,
                available: text::views(available@),
            },
            ToolResult::Rejected { name, reason } => ToolResultView::Rejected {
                name: name@,
                reason: reason@,
            },
            ToolResult::Denied { name, reason } => ToolResultView::Denied {
                name: name@,
                reason: reason@,
            },
            ToolResult::Error(e) => ToolResultView::Error(e@),
        }
    }
}

impl ToolResultView {
    /// The text that goes back to the model.
    pub open spec fn content(self) -> Seq<char> {
        match self {
            ToolResultView::Output(s) => s,
            ToolResultView::NotFound { name, available } => "Error: tool '"@ + name
                + "' not found. Available tools: "@ + text::joined(available, ", "@),
            ToolResultView::Rejected { name, reason } => "Error: Tool '"@ + name + "' rejected: "@
                + reason,
            ToolResultView::Denied { name, reason } => "Error: Tool '"@ + name + "' denied: "@
                + reason,
            ToolResultView::Error(e) => "Error: "@ + e.shown(),
        }
    }
}

impl ToolResult {
    /// The text that goes back to the model, whatever the call came to.
    pub fn as_content(&self) -> (r: String)
        ensures
            r@ == self@.content(),
    {
        match self {
            ToolResult::Output(s) => s.clone(),
            ToolResult::NotFound { name, available } => "Error: tool '".to_string().concat(
                name.as_str(),
            ).concat("' not found. Available tools: ").concat(
                text::join(available, ", ").as_str(),
            ),
            ToolResult::Rejected { name, reason } => "Error: Tool '".to_string().concat(
                name.as_str(),
            ).concat("' rejected: ").concat(reason.as_str()),
            ToolResult::Denied { name, reason } => "Error: Tool '".to_string().concat(
                name.as_str(),
            ).concat("' denied: ").concat(reason.as_str()),
            ToolResult::Error(e) => "Error: ".to_string().concat(e.to_string().as_str()),
        }
    }

    /// Whether the tool ran, so that the hooks that follow a tool are due.
    pub fn was_executed(&self) -> (r: bool)
        ensures
            r == (self@ is Output),
    {
        matches!(self, ToolResult::Output(_))
    }

    /// The error of a tool that failed.
    pub fn into_error(self) -> (r: Option<AgentError>)
        ensures
            match r {
                Some(e) => self@ == ToolResultView::Error(e@),
                None => !(self@ is Error),
            },
    {
        match self {
            ToolResult::Error(e) => Some(e),
            _ => None,
        }
    }
}

/// What a tool may use while it runs: the agent that called it.
pub struct ToolContext<'a> {
    pub agent: &'a Agent,
}

impl<'a> ToolContext<'a> {
    /// The name under which the agent works.
    pub fn owner(&self) -> (r: &str)
        ensures
            r@ == self.agent@.owner,
    {
        self.agent.owner()
    }
}

/// The description of a tool that is sent to the model.
pub struct ToolDefinition {
    pub name: String,
    pub description: String,
    pub input_schema: Json,
}

/// The mathematical content of a [`ToolDefinition`].
#[verifier::ext_equal]
pub struct ToolDefView {
    pub name: Seq<char>,
    pub description: Seq<char>,
    pub input_schema: Seq<char>,
}

impl View for ToolDefinition {
    type V = ToolDefView;

    open spec fn view(&self) -> ToolDefView {
        ToolDefView {
            name: self.name@,
            description: self.description@,
            input_schema: self.input_schema@,
        }
    }
}

/// The contents of a list of tool definitions.
pub open spec fn definitions(v: Seq<ToolDefinition>) -> Seq<ToolDefView> {
    v.map_values(|t: ToolDefinition| t@)
}

/// A tool: how it is described, what it asks for, and who may use it.
pub trait Tool: Send + Sync {
    /// The description that is sent to the model.
    closed spec fn facts(&self) -> ToolDefView {
        arbitrary()
    }

    /// What the tool asks for before it is run on an input.
    closed spec fn permission(&self, input: Seq<char>) -> PermissionView {
        arbitrary()
    }

    /// Whether agents of a kind have the tool.
    closed spec fn offered(&self, kind: AgentKind) -> bool {
        arbitrary()
    }

    /// The name by which the tool is called.
    fn name(&self) -> (r: &str)
        ensures
            r@ == self.facts().name,
    ;

    /// What the tool does, for the model.
    fn description(&self) -> (r: &str)
        ensures
            r@ == self.facts().description,
    ;

    /// The JSON schema of the tool's input.
    fn input_schema(&self) -> (r: Json)
        ensures
            r@ == self.facts().input_schema,
    ;

    /// What the tool asks for before it is run on `input`.
    fn check_permission(&self, input: &Json) -> (r: PermissionCheck)
        ensures
            r@ == self.permission(input@),
    ;

    /// Whether agents of this kind have the tool.
    fn available_for(&self, kind: AgentKind) -> (r: bool)
        ensures
            r == self.offered(kind),
    ;

    /// Whether subagents have the tool.
    fn available_for_subagent(&self) -> (r: bool)
        ensures
            r == self.offered(AgentKind::Subagent),
    {
        self.available_for(AgentKind::Subagent)
    }
}

/// The tools of a list that are not called `name`.
pub open spec fn without(tools: Seq<Box<dyn Tool>>, name: Seq<char>) -> Seq<Box<dyn Tool>>
    decreases tools.len(),
{
    if tools.len() == 0 {
        tools
    } else if tools.last().facts().name == name {
        without(tools.drop_last(), name)
    } else {
        without(tools.drop_last(), name).push(tools.last())
    }
}

/// The descriptions of the tools that agents of a kind have.
pub open spec fn offered_to(tools: Seq<Box<dyn Tool>>, kind: AgentKind) -> Seq<ToolDefView>
    decreases tools.len(),
{
    if tools.len() == 0 {
        Seq::empty()
    } else if tools.last().offered(kind) {
        offered_to(tools.drop_last(), kind).push(tools.last().facts())
    } else {
        offered_to(tools.drop_last(), kind)
    }
}

/// What the first tool called `name` asks for.
pub open spec fn asked_by(
    tools: Seq<Box<dyn Tool>>,
    name: Seq<char>,
    input: Seq<char>,
) -> Option<PermissionView>
    decreases tools.len(),
{
    if tools.len() == 0 {
        None
    } else if tools[0].facts().name == name {
        Some(tools[0].permission(input))
    } else {
        asked_by(tools.skip(1), name, input)
    }
}

/// The tools that agents can call.
pub struct ToolRegistry {
    pub tools: Vec<Box<dyn Tool>>,
}

impl View for ToolRegistry {
    type V = Seq<Box<dyn Tool>>;

    open spec fn view(&self) -> Seq<Box<dyn Tool>> {
        self.tools@
    }
}

impl ToolRegistry {
    /// A registry without tools.
    pub fn new() -> (r: Self)
        ensures
            r@ == Seq::<Box<dyn Tool>>::empty(),
    {
        ToolRegistry { tools: Vec::new() }
    }

    /// Takes out the tools called `name`.
    pub fn unregister(&mut self, name: &str)
        ensures
            final(self)@ == without(old(self)@, name@),
    {
        let mut out: Vec<Box<dyn Tool>> = Vec::new();
        let ghost all = self.tools@;
        let ghost mut done: int = 0;
        assert(all.skip(0) =~= all);
        assert(all.take(0) =~= Seq::<Box<dyn Tool>>::empty());
        while self.tools.len() > 0
            invariant
                0 <= done <= all.len(),
                self.tools@ == all.skip(done),
                out@ == without(all.take(done), name@),
            decreases self.tools@.len(),
        {
            let tool = self.tools.remove(0);
            proof {
                assert(tool == all[done]);
                assert(self.tools@ =~= all.skip(done + 1));
                assert(all.take(done + 1).drop_last() =~= all.take(done));
                assert(all.take(done + 1).last() == tool);
                done = done + 1;
            }
            if !text::same(tool.name(), name) {
                out.push(tool);
            }
        }
        assert(all.take(all.len() as int) =~= all);
        self.tools = out;
    }

    /// Adds a tool, in place of those that have its name.
    pub fn register_dynamic(&mut self, tool: Box<dyn Tool>)
        ensures
            final(self)@ == without(old(self)@, tool.facts().name).push(tool),
    {
        self.unregister(tool.name());
        self.tools.push(tool);
    }

    /// The descriptions of the tools that agents of this kind have.
    pub fn definitions_for(&self, kind: AgentKind) -> (r: Vec<ToolDefinition>)
        ensures
            definitions(r@) == offered_to(self@, kind),
    {
        let mut out: Vec<ToolDefinition> = Vec::new();
        let mut i: usize = 0;
        assert(definitions(out@) =~= Seq::<ToolDefView>::empty());
        while i < self.tools.len()
            invariant
                i <= self.tools@.len(),
                definitions(out@) == offered_to(self.tools@.take(i as int), kind),
            decreases self.tools@.len() - i,
        {
            let tool = &self.tools[i];
            proof {
                assert(self.tools@.take(i + 1).drop_last() =~= self.tools@.take(i as int));
                assert(self.tools@.take(i + 1).last() == *tool);
            }
            if tool.available_for(kind) {
                let ghost before = definitions(out@);
                let def = ToolDefinition {
                    name: tool.name().to_string(),
                    description: tool.description().to_string(),
                    input_schema: tool.input_schema(),
                };
                assert(def@ =~= tool.facts());
                out.push(def);
                assert(definitions(out@) =~= before.push(def@));
            }
            i += 1;
        }
        assert(self.tools@.take(self.tools@.len() as int) =~= self.tools@);
        out
    }

    /// What the tool called `name` asks for before it is run on `input`: nothing is known of
    /// a tool that is not registered.
    pub fn check_permission(&self, name: &str, input: &Json) -> (r: Option<PermissionCheck>)
        ensures
            asked_by(self@, name@, input@) == (match r {
                Some(check) => Some(check@),
                None => None::<PermissionView>,
            }),
    {
        let mut i: usize = 0;
        assert(self.tools@.skip(0) =~= self.tools@);
        while i < self.tools.len()
            invariant
                i <= self.tools@.len(),
                asked_by(self@, name@, input@) == asked_by(
                    self.tools@.skip(i as int),
                    name@,
                    input@,
                ),
            decreases self.tools@.len() - i,
        {
            let tool = &self.tools[i];
            assert(self.tools@.skip(i as int)[0] == *tool);
            assert(self.tools@.skip(i as int).skip(1) =~= self.tools@.skip(i + 1));
            if text::same(tool.name(), name) {
                return Some(tool.check_permission(input));
            }
            i += 1;
        }
        None
    }
}

} // verus!
