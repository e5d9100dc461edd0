//! The agent: what it is made of, and what it may do.

use vstd::prelude::*;

use crate::background;
use crate::background::tools::{wake_text, BackgroundStopHook};
use crate::background::BackgroundManager;
use crate::builtins;
use crate::builtins::{
    ContextInjectHook, LargeOutputHook, PermissionHook, SummaryHook, TodoReminderHook,
};
use crate::client;
use crate::client::{Client, ContentBlock, Message};
use crate::agent::run::{LoopAction, LoopEvent, LoopState};
use crate::compact;
use crate::compact::ContextCompactor;
use crate::error;
use crate::error::AgentError;
use crate::hooks;
use crate::hooks::{
    AnyPostToolHook, AnyPreToolHook, AnyPromptHook, AnyStopHook, HookContext, Hooks, PostToolHook,
    PreToolHook, StopHook, ToolRun,
};
use crate::json::Json;
use crate::memory::MemoryStore;
use crate::paths;
use crate::strmap::StrMap;
use crate::team::lifecycle;
use crate::team::protocols::GateStatus;
use crate::text;
use crate::tools;
use crate::tools::{AgentKind, Tool, ToolRegistry, ToolResult};

pub mod laws;
pub mod run;

verus! {

/// How many tokens the model may answer with.
pub const MAX_TOKENS: u32 = 8000;

/// The system prompt of a subagent.
pub const SUB_SYSTEM: &'static str = "You are a focused coding agent. Complete your task efficiently. Use tools as needed. Return a concise summary of your work.";

/// How many turns a subagent may have at most.
pub const MAX_SUBAGENT_TURNS: usize = 50;

/// How the loop ended.
#[derive(Debug, Clone, Copy, PartialEq, Eq, Structural)]
pub enum LoopOutcome {
    /// The model had nothing more to do.
    Completed,
    /// No turn was left.
    MaxTurnsReached,
}

/// What an agent is made from.
pub struct AgentConfig {
    pub api_key: String,
    pub base_url: String,
    pub model: String,
    pub workdir: String,
    pub skills_dir: String,
}

/// An agent.
pub struct Agent {
    pub client: Client,
    pub workdir: String,
    /// How many skills were found.
    pub skills: usize,
    /// Whether scheduled prompts come to this agent.
    pub has_cron: bool,
    pub compactor: ContextCompactor,
    pub memory: MemoryStore,
    pub hooks: Hooks,
    pub base_system: String,
    pub max_turns: usize,
    pub kind: AgentKind,
    /// The name under which it works.
    pub owner: String,
    /// Whether it belongs to the team.
    pub in_team: bool,
    pub max_tokens: u32,
}

/// The mathematical content of an [`Agent`], without its hooks.
#[verifier::ext_equal]
pub struct AgentView {
    pub api_key: Seq<char>,
    pub base_url: Seq<char>,
    pub model: Seq<char>,
    pub workdir: Seq<char>,
    pub skills: usize,
    pub has_cron: bool,
    pub transcript_dir: Seq<char>,
    pub tool_results_dir: Seq<char>,
    pub memory_dir: Seq<char>,
    pub read_only: bool,
    pub base_system: Seq<char>,
    pub max_turns: usize,
    pub kind: AgentKind,
    pub owner: Seq<char>,
    pub in_team: bool,
    pub max_tokens: u32,
}

impl View for Agent {
    type V = AgentView;

    open spec fn view(&self) -> AgentView {
        AgentView {
            api_key: self.client.api_key@,
            base_url: self.client.base_url@,
            model: self.client.model@,
            workdir: self.workdir@,
            skills: self.skills,
            has_cron: self.has_cron,
            transcript_dir: self.compactor.transcript_dir@,
            tool_results_dir: self.compactor.tool_results_dir@,
            memory_dir: self.memory.memory_dir@,
            read_only: self.memory.read_only,
            base_system: self.base_system@,
            max_turns: self.max_turns,
            kind: self.kind,
            owner: self.owner@,
            in_team: self.in_team,
            max_tokens: self.max_tokens,
        }
    }
}

/// The hooks of a lead and of a subagent: permissions before tools, the reminder after them.
/// The reports of background tasks, which come last where the loop is about to end, are
/// added by [`Agent::stop_reply`].
pub open spec fn has_default_hooks(h: Hooks) -> bool {
    &&& h.user_prompt@ == seq![AnyPromptHook::ContextInject(ContextInjectHook)]
    &&& h.pre_tool@ == seq![AnyPreToolHook::Permission(PermissionHook)]
    &&& h.post_tool@ == seq![
        AnyPostToolHook::LargeOutput(LargeOutputHook),
        AnyPostToolHook::TodoReminder(TodoReminderHook { counter: 0 }),
    ]
    &&& h.stop@ == seq![AnyStopHook::Summary(SummaryHook)]
}

/// The hooks of a teammate: permissions before tools.
pub open spec fn has_teammate_hooks(h: Hooks) -> bool {
    &&& h.user_prompt@ == Seq::<AnyPromptHook>::empty()
    &&& h.pre_tool@ == seq![AnyPreToolHook::Permission(PermissionHook)]
    &&& h.post_tool@ == seq![AnyPostToolHook::LargeOutput(LargeOutputHook)]
    &&& h.stop@ == Seq::<AnyStopHook>::empty()
}

/// The law of endings: no hook of an agent keeps its loop going, so that only the reports of
/// background tasks do.
pub proof fn law_hooks_let_the_loop_end(h: Hooks, messages: Seq<client::MessageView>)
    requires
        has_default_hooks(h) || has_teammate_hooks(h),
    ensures
        hooks::first_forced(h.stop@, messages) is None,
{
    if has_default_hooks(h) {
        assert(h.stop@[0] == AnyStopHook::Summary(SummaryHook));
        assert(hooks::first_forced(h.stop@.skip(1), messages) is None);
    }
}

fn build_hooks() -> (r: Hooks)
    ensures
        has_default_hooks(r),
{
    let mut h = Hooks::new();
    h.user_prompt.push(AnyPromptHook::ContextInject(ContextInjectHook));
    h.pre_tool.push(AnyPreToolHook::Permission(PermissionHook));
    h.post_tool.push(AnyPostToolHook::LargeOutput(LargeOutputHook));
    h.stop.push(AnyStopHook::Summary(SummaryHook));
    h.post_tool.push(AnyPostToolHook::TodoReminder(TodoReminderHook::new()));
    assert(h.user_prompt@ =~= seq![AnyPromptHook::ContextInject(ContextInjectHook)]);
    assert(h.pre_tool@ =~= seq![AnyPreToolHook::Permission(PermissionHook)]);
    assert(h.post_tool@ =~= seq![
        AnyPostToolHook::LargeOutput(LargeOutputHook),
        AnyPostToolHook::TodoReminder(TodoReminderHook { counter: 0 }),
    ]);
    assert(h.stop@ =~= seq![AnyStopHook::Summary(SummaryHook)]);
    h
}

fn build_teammate_hooks() -> (r: Hooks)
    ensures
        has_teammate_hooks(r),
{
    let mut h = Hooks::new();
    h.pre_tool.push(AnyPreToolHook::Permission(PermissionHook));
    h.post_tool.push(AnyPostToolHook::LargeOutput(LargeOutputHook));
    assert(h.user_prompt@ =~= Seq::<AnyPromptHook>::empty());
    assert(h.pre_tool@ =~= seq![AnyPreToolHook::Permission(PermissionHook)]);
    assert(h.post_tool@ =~= seq![AnyPostToolHook::LargeOutput(LargeOutputHook)]);
    assert(h.stop@ =~= Seq::<AnyStopHook>::empty());
    h
}

/// The law of permissions: whatever an agent's tools and the user's answers, the permission
/// verdict decides on every call that the agent makes. So no agent runs a forbidden command.
pub proof fn law_agents_obey_permissions(
    h: Hooks,
    tools: Seq<Box<dyn Tool>>,
    answers: Seq<bool>,
    name: Seq<char>,
    input: Seq<char>,
)
    requires
        has_default_hooks(h) || has_teammate_hooks(h),
    ensures
        hooks::first_verdict(h.pre_tool@, tools, answers, name, input)
            == builtins::permission_verdict(
            tools::asked_by(tools, name, input),
            answers,
            name,
            input,
        ),
        builtins::call_denial(name, input) is Some ==> hooks::first_verdict(
            h.pre_tool@,
            tools,
            answers,
            name,
            input,
        ) is Some,
{
    let hs = h.pre_tool@;
    assert(hs[0] == AnyPreToolHook::Permission(PermissionHook));
    assert(hooks::first_verdict(hs.skip(1), tools, answers, name, input) is None);
}

proof fn nothing_stopped(hook: AnyPostToolHook, runs: Seq<ToolRun>)
    requires
        hook is LargeOutput,
    ensures
        hooks::passed_on(hook, runs) == runs,
    decreases runs.len(),
{
    if runs.len() == 0 {
        assert(hooks::passed_on(hook, runs) =~= runs);
    } else {
        nothing_stopped(hook, runs.drop_last());
        assert(runs.drop_last().push(runs.last()) =~= runs);
    }
}

/// The law of reminders: a lead or a subagent that ran some tools is reminded of its list at
/// the next run exactly where the count of the runs since it last wrote the list says so; a
/// teammate is reminded of nothing.
pub proof fn law_agents_are_reminded(h: Hooks, seen: Seq<ToolRun>, run: ToolRun)
    ensures
        has_default_hooks(h) ==> hooks::first_reply(h.post_tool@, seen, run) == (
        if builtins::reminds(builtins::counted_all(0, builtins::names_of(seen)), run.name) {
            Some(builtins::TODO_REMINDER@)
        } else {
            None::<Seq<char>>
        }),
        has_teammate_hooks(h) ==> hooks::first_reply(h.post_tool@, seen, run) is None,
{
    let hs = h.post_tool@;
    if has_default_hooks(h) {
        let first = AnyPostToolHook::LargeOutput(LargeOutputHook);
        let second = AnyPostToolHook::TodoReminder(TodoReminderHook { counter: 0 });
        assert(hs[0] == first);
        nothing_stopped(first, seen);
        let rest = hs.skip(1);
        assert(rest[0] == second);
        assert(hooks::first_reply(rest.skip(1), hooks::passed_on(second, seen), run) is None);
        assert(hooks::first_reply(hs, seen, run) == hooks::first_reply(rest, seen, run));
    }
    if has_teammate_hooks(h) {
        let only = AnyPostToolHook::LargeOutput(LargeOutputHook);
        assert(hs[0] == only);
        assert(hooks::first_reply(hs.skip(1), hooks::passed_on(only, seen), run) is None);
    }
}

/// The beginning of the system prompt, with the directory and the system between its parts.
pub open spec fn base_prompt(workdir: Seq<char>, os: Seq<char>) -> Seq<char> {
    "You are a coding agent at "@ + workdir + " on "@ + os
        + ". Before starting any multi-step task, use todo_write to plan your steps. Update status as you go. You can use tools as needed."@
}

/// The system prompt of the lead.
pub open spec fn lead_prompt(catalog: Seq<char>, workdir: Seq<char>, os: Seq<char>) -> Seq<char> {
    if catalog.len() == 0 {
        base_prompt(workdir, os)
    } else {
        base_prompt(workdir, os) + "\n\nSkills available:\n"@ + catalog
            + "\n\nUse load_skill to read the full instructions when a skill applies."@
    }
}

/// Writes the system prompt of the lead.
pub fn build_base_system(catalog: &str, workdir: &str, os: &str) -> (r: String)
    ensures
        r@ == lead_prompt(catalog@, workdir@, os@),
{
    let base = "You are a coding agent at ".to_string().concat(workdir).concat(" on ").concat(
        os,
    ).concat(
        ". Before starting any multi-step task, use todo_write to plan your steps. Update status as you go. You can use tools as needed.",
    );
    if catalog.is_empty() {
        base
    } else {
        base.concat("\n\nSkills available:\n").concat(catalog).concat(
            "\n\nUse load_skill to read the full instructions when a skill applies.",
        )
    }
}

/// The directory of tool results below a directory.
pub open spec fn results_dir(dir: Seq<char>) -> Seq<char> {
    paths::joined_path(paths::joined_path(dir, ".task_outputs"@), "tool-results"@)
}

fn compactor_in(dir: &str) -> (r: ContextCompactor)
    ensures
        r.transcript_dir@ == paths::joined_path(dir@, ".transcripts"@),
        r.tool_results_dir@ == results_dir(dir@),
{
    ContextCompactor::new(
        paths::join_path(dir, ".transcripts"),
        paths::join_path(paths::join_path(dir, ".task_outputs").as_str(), "tool-results"),
    )
}

/// The lead that a configuration makes.
pub open spec fn lead_of(
    cfg: AgentConfig,
    catalog: Seq<char>,
    skills: usize,
    os: Seq<char>,
) -> AgentView {
    AgentView {
        api_key: cfg.api_key@,
        base_url: cfg.base_url@,
        model: cfg.model@,
        workdir: cfg.workdir@,
        skills,
        has_cron: true,
        transcript_dir: paths::joined_path(cfg.workdir@, ".transcripts"@),
        tool_results_dir: results_dir(cfg.workdir@),
        memory_dir: paths::joined_path(cfg.workdir@, ".memory"@),
        read_only: false,
        base_system: lead_prompt(catalog, cfg.workdir@, os),
        max_turns: usize::MAX,
        kind: AgentKind::Lead,
        owner: "agent"@,
        in_team: true,
        max_tokens: MAX_TOKENS,
    }
}

/// The error that keeps a lead from starting: the first of its parts that failed.
pub open spec fn start_error(
    task_store: Result<(), String>,
    cron: Result<(), String>,
    team: Result<(), String>,
) -> Option<error::ErrorView> {
    match task_store {
        Err(e) => Some(error::ErrorView::Other("task store init: "@ + e@)),
        Ok(_) => match cron {
            Err(e) => Some(error::ErrorView::Other("cron init: "@ + e@)),
            Ok(_) => match team {
                Err(e) => Some(error::ErrorView::Other("team init: "@ + e@)),
                Ok(_) => None,
            },
        },
    }
}

impl AgentView {
    /// The directory of a subagent.
    pub open spec fn subagent_dir(self, id: u64) -> Seq<char> {
        paths::joined_path(
            paths::joined_path(self.workdir, ".subagents"@),
            "subagent_"@ + text::decimal(id as nat),
        )
    }

    /// A subagent: it shares the client and the working directory, keeps its files apart,
    /// only reads memories, and has turns of its own.
    pub open spec fn subagent(self, id: u64, max_turns: usize, system: Seq<char>) -> AgentView {
        AgentView {
            has_cron: false,
            transcript_dir: paths::joined_path(self.subagent_dir(id), ".transcripts"@),
            tool_results_dir: results_dir(self.subagent_dir(id)),
            memory_dir: paths::joined_path(self.workdir, ".memory"@),
            read_only: true,
            base_system: system,
            max_turns,
            kind: AgentKind::Subagent,
            owner: "agent"@,
            in_team: false,
            ..self
        }
    }

    /// A teammate: it shares the client and the working directory, keeps its files apart,
    /// only reads memories, and may work without end.
    pub open spec fn teammate(self, name: Seq<char>, system: Seq<char>) -> AgentView {
        let dir = paths::joined_path(paths::joined_path(self.workdir, ".teammates"@), name);
        AgentView {
            has_cron: false,
            transcript_dir: paths::joined_path(dir, ".transcripts"@),
            tool_results_dir: results_dir(dir),
            memory_dir: paths::joined_path(self.workdir, ".memory"@),
            read_only: true,
            base_system: system,
            max_turns: usize::MAX,
            kind: AgentKind::Teammate,
            owner: name,
            in_team: true,
            ..self
        }
    }
}

/// The tools that change something, which a plan gate blocks.
pub open spec fn is_mutating(name: Seq<char>) -> bool {
    name == "command"@ || name == "write_file"@ || name == "edit_file"@
}

/// Why a tool call is denied: a hook's reason comes first, then the plan gate.
pub open spec fn call_denial(
    verdict: Option<Seq<char>>,
    kind: AgentKind,
    in_team: bool,
    gate: GateStatus,
    name: Seq<char>,
) -> Option<Seq<char>> {
    match verdict {
        Some(reason) => Some(reason),
        None => if kind == AgentKind::Teammate && in_team && is_mutating(name) && gate.blocks() {
            Some(
                "Blocked: plan status is "@ + gate.name()
                    + ". Submit or revise the plan and wait for approval."@,
            )
        } else {
            None
        },
    }
}

/// Calls `fastrand::u64` over its whole range. Nothing is claimed of the number.
#[verifier::external_body]
fn random_id() -> u64 {
    fastrand::u64(..)
}

impl Agent {
    /// A lead. `catalog` lists its skills, and the results say how the start of its task
    /// store, its schedule and its team went. The first of them that failed is the error.
    pub fn new(
        cfg: AgentConfig,
        catalog: &str,
        skills: usize,
        os: &str,
        task_store: Result<(), String>,
        cron: Result<(), String>,
        team: Result<(), String>,
    ) -> (r: Result<Agent, AgentError>)
        ensures
            match start_error(task_store, cron, team) {
                Some(e) => r is Err && r->Err_0@ == e,
                None => {
                    &&& r is Ok
                    &&& r->Ok_0@ == lead_of(cfg, catalog@, skills, os@)
                    &&& has_default_hooks(r->Ok_0.hooks)
                },
            },
    {
        if let Err(e) = task_store {
            return Err(AgentError::Other("task store init: ".to_string().concat(e.as_str())));
        }
        if let Err(e) = cron {
            return Err(AgentError::Other("cron init: ".to_string().concat(e.as_str())));
        }
        if let Err(e) = team {
            return Err(AgentError::Other("team init: ".to_string().concat(e.as_str())));
        }
        let compactor = compactor_in(cfg.workdir.as_str());
        let memory = MemoryStore::new(paths::join_path(cfg.workdir.as_str(), ".memory"));
        let base_system = build_base_system(catalog, cfg.workdir.as_str(), os);
        Ok(
            Agent {
                client: Client::new(cfg.api_key, cfg.base_url, cfg.model),
                workdir: cfg.workdir,
                skills,
                has_cron: true,
                compactor,
                memory,
                hooks: build_hooks(),
                base_system,
                max_turns: usize::MAX,
                kind: AgentKind::Lead,
                owner: "agent".to_string(),
                in_team: true,
                max_tokens: MAX_TOKENS,
            },
        )
    }

    fn copy_client(&self) -> (r: Client)
        ensures
            r.api_key@ == self.client.api_key@,
            r.base_url@ == self.client.base_url@,
            r.model@ == self.client.model@,
    {
        Client::new(
            self.client.api_key.clone(),
            self.client.base_url.clone(),
            self.client.model.clone(),
        )
    }

    /// A subagent whose files are kept under the number `id`.
    pub fn child_agent_with_id(&self, id: u64, max_turns: usize, sub_system: &str) -> (r: Agent)
        ensures
            r@ == self@.subagent(id, max_turns, sub_system@),
            has_default_hooks(r.hooks),
    {
        let name = "subagent_".to_string().concat(text::number_text(id).as_str());
        let dir = paths::join_path(
            paths::join_path(self.workdir.as_str(), ".subagents").as_str(),
            name.as_str(),
        );
        Agent {
            client: self.copy_client(),
            workdir: self.workdir.clone(),
            skills: self.skills,
            has_cron: false,
            compactor: compactor_in(dir.as_str()),
            memory: MemoryStore::new_read_only(
                paths::join_path(self.workdir.as_str(), ".memory"),
            ),
            hooks: build_hooks(),
            base_system: sub_system.to_string(),
            max_turns,
            kind: AgentKind::Subagent,
            owner: "agent".to_string(),
            in_team: false,
            max_tokens: self.max_tokens,
        }
    }

    /// A subagent whose files are kept under a number drawn at random.
    pub fn child_agent(&self, max_turns: usize, sub_system: &str) -> (r: Agent)
        ensures
            exists|id: u64| r@ == #[trigger] self@.subagent(id, max_turns, sub_system@),
            has_default_hooks(r.hooks),
    {
        self.child_agent_with_id(random_id(), max_turns, sub_system)
    }

    /// A teammate.
    pub fn child_teammate(&self, name: &str, system: &str) -> (r: Agent)
        ensures
            r@ == self@.teammate(name@, system@),
            has_teammate_hooks(r.hooks),
    {
        let dir = paths::join_path(
            paths::join_path(self.workdir.as_str(), ".teammates").as_str(),
            name,
        );
        Agent {
            client: self.copy_client(),
            workdir: self.workdir.clone(),
            skills: self.skills,
            has_cron: false,
            compactor: compactor_in(dir.as_str()),
            memory: MemoryStore::new_read_only(
                paths::join_path(self.workdir.as_str(), ".memory"),
            ),
            hooks: build_teammate_hooks(),
            base_system: system.to_string(),
            max_turns: usize::MAX,
            kind: AgentKind::Teammate,
            owner: name.to_string(),
            in_team: true,
            max_tokens: self.max_tokens,
        }
    }

    /// How the start of the schedule went, for an agent that has one.
    pub fn start_cron_runtime(&self, started: Result<(), String>) -> (r: Result<(), AgentError>)
        ensures
            match started {
                Err(e) => if self.has_cron {
                    r is Err && r->Err_0@ == error::ErrorView::Other("cron start: "@ + e@)
                } else {
                    r is Ok
                },
                Ok(_) => r is Ok,
            },
    {
        match started {
            Err(e) => if self.has_cron {
                Err(AgentError::Other("cron start: ".to_string().concat(e.as_str())))
            } else {
                Ok(())
            },
            Ok(_) => Ok(()),
        }
    }

    /// The name under which the agent works.
    pub fn owner(&self) -> (r: &str)
        ensures
            r@ == self@.owner,
    {
        self.owner.as_str()
    }

    /// The directory in which the agent works.
    pub fn workdir(&self) -> (r: &str)
        ensures
            r@ == self@.workdir,
    {
        self.workdir.as_str()
    }

    /// The agent's system prompt, before memories are added.
    pub fn base_system(&self) -> (r: &str)
        ensures
            r@ == self@.base_system,
    {
        self.base_system.as_str()
    }

    /// How many skills the agent has.
    pub fn skills_len(&self) -> (r: usize)
        ensures
            r == self@.skills,
    {
        self.skills
    }

    /// Shows the user's input to the hooks on it.
    pub fn trigger_prompt(&self, query: &str) {
        self.hooks.trigger_prompt(query);
    }

    /// What keeps a tool from running: a hook that denies it, or the agent's plan gate.
    /// Nothing keeps it where there is no result yet: the caller then runs the tool.
    pub fn execute_tool(
        &self,
        registry: &ToolRegistry,
        ctx: &HookContext,
        gate: GateStatus,
        name: &str,
        input: &Json,
    ) -> (r: Option<ToolResult>)
        ensures
            match call_denial(
                hooks::first_verdict(
                    self.hooks.pre_tool@,
                    registry@,
                    ctx.answers@,
                    name@,
                    input@,
                ),
                self.kind,
                self.in_team,
                gate,
                name@,
            ) {
                Some(reason) => r is Some && r->0@ == (tools::ToolResultView::Denied {
                    name: name@,
                    reason,
                }),
                None => r is None,
            },
    {
        if let Some(reason) = self.hooks.trigger_pre_tool(registry, ctx, name, input) {
            return Some(ToolResult::Denied { name: name.to_string(), reason });
        }
        let mutating = text::same(name, "command") || text::same(name, "write_file") || text::same(
            name,
            "edit_file",
        );
        if self.kind == AgentKind::Teammate && self.in_team && mutating
            && gate.blocks_mutating_tools() {
            let reason = "Blocked: plan status is ".to_string().concat(gate.as_name()).concat(
                ". Submit or revise the plan and wait for approval.",
            );
            return Some(ToolResult::Denied { name: name.to_string(), reason });
        }
        None
    }

    /// What forces the loop to go on where it is about to end: the answer of the agent's
    /// hooks, or else the reports of background tasks, which a teammate does not get. They
    /// are collected only where no hook answers.
    pub fn stop_reply(
        &self,
        manager: &mut BackgroundManager,
        outputs: &StrMap<String>,
        messages: &[Message],
    ) -> (r: Option<String>)
        ensures
            ({
                let answer = hooks::first_forced(self.hooks.stop@, client::messages(messages@));
                let woken = answer is None && self.kind != AgentKind::Teammate;
                &&& text::opt_view(r) == (if woken {
                    wake_text(
                        background::notices(old(manager)@.tasks, old(manager)@.ready, outputs@),
                    )
                } else {
                    answer
                })
                &&& final(manager)@ == (if woken {
                    old(manager)@.collected()
                } else {
                    old(manager)@
                })
            }),
    {
        match self.hooks.trigger_stop(messages) {
            Some(m) => Some(m),
            None => if self.kind == AgentKind::Teammate {
                None
            } else {
                BackgroundStopHook.on_stop(manager, outputs)
            },
        }
    }
}

/// The law of plan gates: while a teammate's plan blocks changes, no tool that changes
/// something runs, whatever the hooks say.
pub proof fn law_gate_blocks_changes(
    verdict: Option<Seq<char>>,
    gate: GateStatus,
    name: Seq<char>,
)
    requires
        gate.blocks(),
        is_mutating(name),
    ensures
        call_denial(verdict, AgentKind::Teammate, true, gate, name) is Some,
{
}

/// The results of a round of tool calls, and the reminders that came with them.
pub struct ToolRound {
    pub results: Vec<ContentBlock>,
    pub reminders: Vec<String>,
}

/// The mathematical content of a [`ToolRound`].
#[verifier::ext_equal]
pub struct RoundView {
    pub results: Seq<client::BlockView>,
    pub reminders: Seq<Seq<char>>,
}

impl View for ToolRound {
    type V = RoundView;

    open spec fn view(&self) -> RoundView {
        RoundView {
            results: client::blocks(self.results@),
            reminders: text::views(self.reminders@),
        }
    }
}

impl RoundView {
    /// The round after one more call.
    pub open spec fn noted(
        self,
        id: Seq<char>,
        content: Seq<char>,
        reminder: Option<Seq<char>>,
    ) -> RoundView {
        RoundView {
            results: self.results.push(
                client::BlockView::ToolResult { tool_use_id: id, content },
            ),
            reminders: match reminder {
                Some(m) => self.reminders.push(m),
                None => self.reminders,
            },
        }
    }
}

impl ToolRound {
    /// A round without calls.
    pub fn new() -> (r: Self)
        ensures
            r@.results == Seq::<client::BlockView>::empty(),
            r@.reminders == Seq::<Seq<char>>::empty(),
    {
        let r = ToolRound { results: Vec::new(), reminders: Vec::new() };
        assert(r@.results =~= Seq::<client::BlockView>::empty());
        assert(r@.reminders =~= Seq::<Seq<char>>::empty());
        r
    }

    /// Notes the result of a call. The hooks after tools are asked where the tool ran.
    pub fn note(
        &mut self,
        hooks: &mut Hooks,
        id: &str,
        name: &str,
        input: &Json,
        result: &ToolResult,
    )
        ensures
            final(self)@ == old(self)@.noted(
                id@,
                result@.content(),
                if result@ is Output {
                    hooks::first_reply(
                        old(hooks).post_tool@,
                        Seq::empty(),
                        ToolRun { name: name@, input: input@, output: result@.content() },
                    )
                } else {
                    None
                },
            ),
            !(result@ is Output) ==> *final(hooks) == *old(hooks),
            result@ is Output ==> hooks::saw(
                old(hooks).post_tool@,
                final(hooks).post_tool@,
                ToolRun { name: name@, input: input@, output: result@.content() },
            ),
            final(hooks).user_prompt == old(hooks).user_prompt,
            final(hooks).pre_tool == old(hooks).pre_tool,
            final(hooks).stop == old(hooks).stop,
    {
        let ghost before = self@;
        let content = result.as_content();
        if result.was_executed() {
            if let Some(m) = hooks.trigger_post_tool(name, input, content.as_str()) {
                self.reminders.push(m);
                assert(self@.reminders =~= before.reminders.push(m@));
            }
        }
        let block = ContentBlock::ToolResult { tool_use_id: id.to_string(), content };
        self.results.push(block);
        assert(self@.results =~= before.results.push(block@));
    }

    /// The messages that follow the round.
    pub fn finish(self) -> (r: Vec<Message>)
        ensures
            client::messages(r@) == hooks::post_tool_messages(self@.results, self@.reminders),
    {
        hooks::assemble_post_tool_messages(self.results, self.reminders)
    }
}

/// The text of a reply: its text blocks, one below the other.
pub open spec fn reply_text(bs: Seq<client::BlockView>) -> Option<Seq<char>> {
    if compact::block_texts(bs).len() == 0 {
        None
    } else {
        Some(text::joined(compact::block_texts(bs), "\n"@))
    }
}

/// The text of a reply. There is none where no block is text.
pub fn extract_final_text(content: &[ContentBlock]) -> (r: Option<String>)
    ensures
        text::opt_view(r) == reply_text(client::blocks(content@)),
{
    let texts = compact::texts_of(content);
    assert(text::views(texts@).len() == texts@.len());
    if texts.len() == 0 {
        None
    } else {
        Some(text::join(&texts, "\n"))
    }
}

/// The number of turns that a subagent gets: at least one, and at most
/// [`MAX_SUBAGENT_TURNS`].
pub fn subagent_turns(wanted: usize) -> (r: usize)
    ensures
        r == (if wanted < 1 {
            1
        } else if wanted > MAX_SUBAGENT_TURNS {
            MAX_SUBAGENT_TURNS
        } else {
            wanted
        }),
{
    if wanted < 1 {
        1
    } else if wanted > MAX_SUBAGENT_TURNS {
        MAX_SUBAGENT_TURNS
    } else {
        wanted
    }
}

/// What a subagent reports.
pub open spec fn subagent_report(
    outcome: LoopOutcome,
    ms: Seq<client::MessageView>,
    turns: usize,
) -> Seq<char> {
    match outcome {
        LoopOutcome::Completed => {
            let content = match lifecycle::last_reply(ms) {
                Some(m) => m.content,
                None => Seq::empty(),
            };
            match reply_text(content) {
                Some(t) => t,
                None => "(no summary)"@,
            }
        },
        LoopOutcome::MaxTurnsReached => "Subagent stopped after "@ + text::decimal(turns as nat)
            + " turns without a final answer."@,
    }
}

impl Agent {
    /// Takes a step of the agent's loop: see [`LoopState::step`].
    pub fn run_loop(
        &self,
        state: &mut LoopState,
        messages: &mut Vec<Message>,
        event: LoopEvent,
    ) -> (r: LoopAction)
        requires
            event is Compacted ==> old(state).retries < compact::MAX_REACTIVE_RETRIES,
        ensures
            (run::Stepped {
                state: final(state)@,
                messages: client::messages(final(messages)@),
                action: r@,
            }) == run::stepped(old(state)@, client::messages(old(messages)@), event),
    {
        state.step(messages, event)
    }

    /// What a subagent reports when its loop ended: the text of its last reply, or why there
    /// is none. An error of the loop is passed on.
    pub fn run_subagent(&self, outcome: Result<LoopOutcome, AgentError>, messages: &[Message]) -> (r:
        Result<String, AgentError>)
        ensures
            match outcome {
                Err(e) => r == Err::<String, AgentError>(e),
                Ok(o) => r is Ok && r->Ok_0@ == subagent_report(
                    o,
                    client::messages(messages@),
                    self.max_turns,
                ),
            },
    {
        match outcome {
            Err(e) => Err(e),
            Ok(LoopOutcome::Completed) => Ok(
                match lifecycle::find_last_reply(messages) {
                    Some(i) => match extract_final_text(&messages[i].content) {
                        Some(t) => t,
                        None => "(no summary)".to_string(),
                    },
                    None => "(no summary)".to_string(),
                },
            ),
            Ok(LoopOutcome::MaxTurnsReached) => Ok(
                "Subagent stopped after ".to_string().concat(
                    text::number_text(self.max_turns as u64).as_str(),
                ).concat(" turns without a final answer."),
            ),
        }
    }
}

} // verus!
