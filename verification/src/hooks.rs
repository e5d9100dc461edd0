//! Hooks: what runs at the fixed points of the agent's loop.
//!
//! There are four points: after the user's input, before a tool, after a tool, and where the
//! loop is about to end. At the last three, the first hook that answers decides, and the
//! hooks after it are not asked.

use vstd::prelude::*;

use crate::builtins::{
    ContextInjectHook, LargeOutputHook, PermissionHook, SummaryHook, TodoReminderHook,
};
use crate::client;
use crate::client::{ContentBlock, Message};
use crate::json::Json;
use crate::text;
use crate::tools::{Tool, ToolRegistry};

verus! {

/// What a hook may use beside its arguments.
pub struct HookContext {
    /// The user's answers to the questions that the hook puts, in the order of the
    /// questions. A question without an answer counts as answered with no.
    pub answers: Vec<bool>,
}

impl HookContext {
    /// The context of an agent that can ask nobody.
    pub fn test_noop() -> (r: Self)
        ensures
            r.answers@ == Seq::<bool>::empty(),
    {
        HookContext { answers: Vec::new() }
    }
}

/// A hook on the user's input. It only watches: its result steers nothing.
pub trait PromptHook: Send + Sync {
    fn on_prompt(&self, query: &str);
}

/// A hook before a tool runs. Its answer keeps the tool from running, and is the reason.
pub trait PreToolHook: Send + Sync {
    /// The hook's answer.
    closed spec fn verdict(
        &self,
        tools: Seq<Box<dyn Tool>>,
        answers: Seq<bool>,
        name: Seq<char>,
        input: Seq<char>,
    ) -> Option<Seq<char>> {
        arbitrary()
    }

    fn on_pre_tool(
        &self,
        registry: &ToolRegistry,
        ctx: &HookContext,
        name: &str,
        input: &Json,
    ) -> (r: Option<String>)
        ensures
            text::opt_view(r) == self.verdict(registry@, ctx.answers@, name@, input@),
    ;
}

/// A tool that ran, with its output.
#[verifier::ext_equal]
pub struct ToolRun {
    pub name: Seq<char>,
    pub input: Seq<char>,
    pub output: Seq<char>,
}

/// A hook after a tool ran. Its answer is a reminder for the model, and may depend on the
/// runs that it saw before.
pub trait PostToolHook: Send + Sync {
    /// The hook's answer to a run, after it saw the runs of `seen`.
    closed spec fn reply_after(&self, seen: Seq<ToolRun>, run: ToolRun) -> Option<Seq<char>> {
        arbitrary()
    }

    /// Shows a run to the hook. From then on it answers as one that saw this run.
    fn on_post_tool(&mut self, name: &str, input: &Json, output: &str) -> (r: Option<String>)
        ensures
            ({
                let run = ToolRun { name: name@, input: input@, output: output@ };
                &&& text::opt_view(r) == old(self).reply_after(Seq::empty(), run)
                &&& forall|seen: Seq<ToolRun>, next: ToolRun| #[trigger]
                    final(self).reply_after(seen, next) == old(self).reply_after(
                        seq![run] + seen,
                        next,
                    )
            }),
    ;
}

/// A hook where the loop is about to end. Its answer goes to the model, and the loop goes
/// on.
pub trait StopHook: Send + Sync {
    /// The hook's answer.
    closed spec fn forced(&self, messages: Seq<client::MessageView>) -> Option<Seq<char>> {
        arbitrary()
    }

    fn on_stop(&self, messages: &[Message]) -> (r: Option<String>)
        ensures
            text::opt_view(r) == self.forced(client::messages(messages@)),
    ;
}

/// A hook on the user's input: one that every agent has, or another.
pub enum AnyPromptHook {
    ContextInject(ContextInjectHook),
    Other(Box<dyn PromptHook>),
}

impl PromptHook for AnyPromptHook {
    fn on_prompt(&self, query: &str) {
        match self {
            AnyPromptHook::ContextInject(h) => h.on_prompt(query),
            AnyPromptHook::Other(h) => h.on_prompt(query),
        }
    }
}

/// A hook before a tool runs: one that every agent has, or another.
pub enum AnyPreToolHook {
    Permission(PermissionHook),
    Other(Box<dyn PreToolHook>),
}

impl PreToolHook for AnyPreToolHook {
    open spec fn verdict(
        &self,
        tools: Seq<Box<dyn Tool>>,
        answers: Seq<bool>,
        name: Seq<char>,
        input: Seq<char>,
    ) -> Option<Seq<char>> {
        match *self {
            AnyPreToolHook::Permission(h) => h.verdict(tools, answers, name, input),
            AnyPreToolHook::Other(h) => h.verdict(tools, answers, name, input),
        }
    }

    fn on_pre_tool(
        &self,
        registry: &ToolRegistry,
        ctx: &HookContext,
        name: &str,
        input: &Json,
    ) -> (r: Option<String>) {
        match self {
            AnyPreToolHook::Permission(h) => h.on_pre_tool(registry, ctx, name, input),
            AnyPreToolHook::Other(h) => h.on_pre_tool(registry, ctx, name, input),
        }
    }
}

/// A hook after a tool ran: one that every agent has, or another.
pub enum AnyPostToolHook {
    LargeOutput(LargeOutputHook),
    TodoReminder(TodoReminderHook),
    Other(Box<dyn PostToolHook>),
}

impl PostToolHook for AnyPostToolHook {
    open spec fn reply_after(&self, seen: Seq<ToolRun>, run: ToolRun) -> Option<Seq<char>> {
        match *self {
            AnyPostToolHook::LargeOutput(h) => h.reply_after(seen, run),
            AnyPostToolHook::TodoReminder(h) => h.reply_after(seen, run),
            AnyPostToolHook::Other(h) => h.reply_after(seen, run),
        }
    }

    fn on_post_tool(&mut self, name: &str, input: &Json, output: &str) -> (r: Option<String>) {
        match self {
            AnyPostToolHook::LargeOutput(h) => h.on_post_tool(name, input, output),
            AnyPostToolHook::TodoReminder(h) => h.on_post_tool(name, input, output),
            AnyPostToolHook::Other(h) => h.on_post_tool(name, input, output),
        }
    }
}

/// A hook where the loop is about to end: one that every agent has, or another.
pub enum AnyStopHook {
    Summary(SummaryHook),
    Other(Box<dyn StopHook>),
}

impl StopHook for AnyStopHook {
    open spec fn forced(&self, messages: Seq<client::MessageView>) -> Option<Seq<char>> {
        match *self {
            AnyStopHook::Summary(h) => h.forced(messages),
            AnyStopHook::Other(h) => h.forced(messages),
        }
    }

    fn on_stop(&self, messages: &[Message]) -> (r: Option<String>) {
        match self {
            AnyStopHook::Summary(h) => h.on_stop(messages),
            AnyStopHook::Other(h) => h.on_stop(messages),
        }
    }
}

/// The answer of the first hook that has one.
pub open spec fn first_verdict(
    hooks: Seq<AnyPreToolHook>,
    tools: Seq<Box<dyn Tool>>,
    answers: Seq<bool>,
    name: Seq<char>,
    input: Seq<char>,
) -> Option<Seq<char>>
    decreases hooks.len(),
{
    if hooks.len() == 0 {
        None
    } else {
        match hooks[0].verdict(tools, answers, name, input) {
            Some(reason) => Some(reason),
            None => first_verdict(hooks.skip(1), tools, answers, name, input),
        }
    }
}

/// The runs to which a hook gives no answer. They are shown to the hooks after it.
pub open spec fn passed_on(hook: AnyPostToolHook, runs: Seq<ToolRun>) -> Seq<ToolRun>
    decreases runs.len(),
{
    if runs.len() == 0 {
        Seq::empty()
    } else {
        let head = passed_on(hook, runs.drop_last());
        match hook.reply_after(runs.drop_last(), runs.last()) {
            Some(_) => head,
            None => head.push(runs.last()),
        }
    }
}

/// The answer of the first hook that has one to a run, after the hooks were shown the runs
/// of `seen`.
pub open spec fn first_reply(hooks: Seq<AnyPostToolHook>, seen: Seq<ToolRun>, run: ToolRun) -> Option<
    Seq<char>,
>
    decreases hooks.len(),
{
    if hooks.len() == 0 {
        None
    } else {
        match hooks[0].reply_after(seen, run) {
            Some(m) => Some(m),
            None => first_reply(hooks.skip(1), passed_on(hooks[0], seen), run),
        }
    }
}

/// The answer of the first hook that has one.
pub open spec fn first_forced(
    hooks: Seq<AnyStopHook>,
    messages: Seq<client::MessageView>,
) -> Option<Seq<char>>
    decreases hooks.len(),
{
    if hooks.len() == 0 {
        None
    } else {
        match hooks[0].forced(messages) {
            Some(m) => Some(m),
            None => first_forced(hooks.skip(1), messages),
        }
    }
}

/// The hooks `new` answer as the hooks `old` after they were shown a run.
pub open spec fn saw(old_hooks: Seq<AnyPostToolHook>, new: Seq<AnyPostToolHook>, run: ToolRun) -> bool {
    forall|seen: Seq<ToolRun>, next: ToolRun| #[trigger]
        first_reply(new, seen, next) == first_reply(old_hooks, seq![run] + seen, next)
}

/// One hook answers as another one that saw a run.
pub open spec fn hook_saw(old_hook: AnyPostToolHook, new: AnyPostToolHook, run: ToolRun) -> bool {
    forall|seen: Seq<ToolRun>, next: ToolRun| #[trigger]
        new.reply_after(seen, next) == old_hook.reply_after(seq![run] + seen, next)
}

proof fn passed_on_after(
    old_hook: AnyPostToolHook,
    new: AnyPostToolHook,
    run: ToolRun,
    seen: Seq<ToolRun>,
)
    requires
        hook_saw(old_hook, new, run),
    ensures
        passed_on(old_hook, seq![run] + seen) == (match old_hook.reply_after(Seq::empty(), run) {
            Some(_) => passed_on(new, seen),
            None => seq![run] + passed_on(new, seen),
        }),
    decreases seen.len(),
{
    let all = seq![run] + seen;
    if seen.len() == 0 {
        assert(all.drop_last() =~= Seq::<ToolRun>::empty());
        assert(all.last() == run);
        assert(passed_on(old_hook, Seq::<ToolRun>::empty()) =~= Seq::<ToolRun>::empty());
        assert(passed_on(old_hook, all) =~= (match old_hook.reply_after(Seq::empty(), run) {
            Some(_) => passed_on(new, seen),
            None => seq![run] + passed_on(new, seen),
        }));
    } else {
        let head = seen.drop_last();
        passed_on_after(old_hook, new, run, head);
        assert(all.drop_last() =~= seq![run] + head);
        assert(all.last() == seen.last());
        assert(new.reply_after(head, seen.last()) == old_hook.reply_after(
            seq![run] + head,
            seen.last(),
        ));
        assert(passed_on(old_hook, all) =~= (match old_hook.reply_after(Seq::empty(), run) {
            Some(_) => passed_on(new, seen),
            None => seq![run] + passed_on(new, seen),
        }));
    }
}

proof fn answered_here(
    old_hooks: Seq<AnyPostToolHook>,
    new: Seq<AnyPostToolHook>,
    run: ToolRun,
)
    requires
        old_hooks.len() > 0,
        new.len() > 0,
        hook_saw(old_hooks[0], new[0], run),
        old_hooks[0].reply_after(Seq::empty(), run) is Some,
        new.skip(1) == old_hooks.skip(1),
    ensures
        saw(old_hooks, new, run),
{
    assert forall|seen: Seq<ToolRun>, next: ToolRun| #[trigger]
        first_reply(new, seen, next) == first_reply(old_hooks, seq![run] + seen, next) by {
        passed_on_after(old_hooks[0], new[0], run, seen);
        assert(new[0].reply_after(seen, next) == old_hooks[0].reply_after(
            seq![run] + seen,
            next,
        ));
    }
}

proof fn answered_later(
    old_hooks: Seq<AnyPostToolHook>,
    new: Seq<AnyPostToolHook>,
    run: ToolRun,
)
    requires
        old_hooks.len() > 0,
        new.len() > 0,
        hook_saw(old_hooks[0], new[0], run),
        old_hooks[0].reply_after(Seq::empty(), run) is None,
        saw(old_hooks.skip(1), new.skip(1), run),
    ensures
        saw(old_hooks, new, run),
{
    assert forall|seen: Seq<ToolRun>, next: ToolRun| #[trigger]
        first_reply(new, seen, next) == first_reply(old_hooks, seq![run] + seen, next) by {
        passed_on_after(old_hooks[0], new[0], run, seen);
        assert(new[0].reply_after(seen, next) == old_hooks[0].reply_after(
            seq![run] + seen,
            next,
        ));
        let rest = passed_on(new[0], seen);
        assert(first_reply(new.skip(1), rest, next) == first_reply(
            old_hooks.skip(1),
            seq![run] + rest,
            next,
        ));
    }
}

proof fn none_answers(new: Seq<AnyPostToolHook>, old_hooks: Seq<AnyPostToolHook>, run: ToolRun)
    requires
        old_hooks.len() == 0,
        new.len() == 0,
    ensures
        saw(old_hooks, new, run),
{
}

/// The hooks of an agent.
pub struct Hooks {
    pub user_prompt: Vec<AnyPromptHook>,
    pub pre_tool: Vec<AnyPreToolHook>,
    pub post_tool: Vec<AnyPostToolHook>,
    pub stop: Vec<AnyStopHook>,
}

impl Hooks {
    /// No hooks.
    pub fn new() -> (r: Self)
        ensures
            r.user_prompt@.len() == 0,
            r.pre_tool@.len() == 0,
            r.post_tool@.len() == 0,
            r.stop@.len() == 0,
    {
        Hooks {
            user_prompt: Vec::new(),
            pre_tool: Vec::new(),
            post_tool: Vec::new(),
            stop: Vec::new(),
        }
    }

    /// Adds a hook on the user's input, after those that are there.
    pub fn on_prompt<H: PromptHook + 'static>(&mut self, h: H)
        ensures
            final(self).user_prompt@ == old(self).user_prompt@.push(AnyPromptHook::Other(Box::new(h))),
            final(self).pre_tool == old(self).pre_tool,
            final(self).post_tool == old(self).post_tool,
            final(self).stop == old(self).stop,
    {
        self.user_prompt.push(AnyPromptHook::Other(Box::new(h)));
    }

    /// Adds a hook before tools, after those that are there.
    pub fn on_pre_tool<H: PreToolHook + 'static>(&mut self, h: H)
        ensures
            final(self).pre_tool@ == old(self).pre_tool@.push(AnyPreToolHook::Other(Box::new(h))),
            final(self).user_prompt == old(self).user_prompt,
            final(self).post_tool == old(self).post_tool,
            final(self).stop == old(self).stop,
    {
        self.pre_tool.push(AnyPreToolHook::Other(Box::new(h)));
    }

    /// Adds a hook after tools, after those that are there.
    pub fn on_post_tool<H: PostToolHook + 'static>(&mut self, h: H)
        ensures
            final(self).post_tool@ == old(self).post_tool@.push(AnyPostToolHook::Other(Box::new(h))),
            final(self).user_prompt == old(self).user_prompt,
            final(self).pre_tool == old(self).pre_tool,
            final(self).stop == old(self).stop,
    {
        self.post_tool.push(AnyPostToolHook::Other(Box::new(h)));
    }

    /// Adds a hook on the loop's end, after those that are there.
    pub fn on_stop<H: StopHook + 'static>(&mut self, h: H)
        ensures
            final(self).stop@ == old(self).stop@.push(AnyStopHook::Other(Box::new(h))),
            final(self).user_prompt == old(self).user_prompt,
            final(self).pre_tool == old(self).pre_tool,
            final(self).post_tool == old(self).post_tool,
    {
        self.stop.push(AnyStopHook::Other(Box::new(h)));
    }

    /// Shows the user's input to the hooks on it.
    pub fn trigger_prompt(&self, query: &str) {
        let mut i: usize = 0;
        while i < self.user_prompt.len()
            invariant
                i <= self.user_prompt@.len(),
            decreases self.user_prompt@.len() - i,
        {
            self.user_prompt[i].on_prompt(query);
            i += 1;
        }
    }

    /// Asks the hooks before tools. The first answer is why the tool may not run.
    pub fn trigger_pre_tool(
        &self,
        registry: &ToolRegistry,
        ctx: &HookContext,
        name: &str,
        input: &Json,
    ) -> (r: Option<String>)
        ensures
            text::opt_view(r) == first_verdict(
                self.pre_tool@,
                registry@,
                ctx.answers@,
                name@,
                input@,
            ),
    {
        let ghost all = self.pre_tool@;
        assert(all.skip(0) =~= all);
        let mut i: usize = 0;
        while i < self.pre_tool.len()
            invariant
                i <= self.pre_tool@.len(),
                all == self.pre_tool@,
                first_verdict(all, registry@, ctx.answers@, name@, input@) == first_verdict(
                    all.skip(i as int),
                    registry@,
                    ctx.answers@,
                    name@,
                    input@,
                ),
            decreases self.pre_tool@.len() - i,
        {
            assert(all.skip(i as int)[0] == all[i as int]);
            assert(all.skip(i as int).skip(1) =~= all.skip(i + 1));
            if let Some(reason) = self.pre_tool[i].on_pre_tool(registry, ctx, name, input) {
                return Some(reason);
            }
            i += 1;
        }
        None
    }

    /// Asks the hooks after tools. The first answer is a reminder for the model. From then on
    /// the hooks that were asked answer as ones that saw this run; those after the first that
    /// answered are left as they are.
    pub fn trigger_post_tool(&mut self, name: &str, input: &Json, output: &str) -> (r: Option<
        String,
    >)
        ensures
            ({
                let run = ToolRun { name: name@, input: input@, output: output@ };
                &&& text::opt_view(r) == first_reply(old(self).post_tool@, Seq::empty(), run)
                &&& saw(old(self).post_tool@, final(self).post_tool@, run)
            }),
            final(self).user_prompt == old(self).user_prompt,
            final(self).pre_tool == old(self).pre_tool,
            final(self).stop == old(self).stop,
    {
        let r = ask_from(&mut self.post_tool, 0, name, input, output);
        assert(old(self).post_tool@.skip(0) =~= old(self).post_tool@);
        assert(self.post_tool@.skip(0) =~= self.post_tool@);
        r
    }

    /// Asks the hooks on the loop's end. The first answer goes to the model, and the loop
    /// goes on.
    pub fn trigger_stop(&self, messages: &[Message]) -> (r: Option<String>)
        ensures
            text::opt_view(r) == first_forced(self.stop@, client::messages(messages@)),
    {
        let ghost all = self.stop@;
        let ghost ms = client::messages(messages@);
        assert(all.skip(0) =~= all);
        let mut i: usize = 0;
        while i < self.stop.len()
            invariant
                i <= self.stop@.len(),
                all == self.stop@,
                ms == client::messages(messages@),
                first_forced(all, ms) == first_forced(all.skip(i as int), ms),
            decreases self.stop@.len() - i,
        {
            assert(all.skip(i as int)[0] == all[i as int]);
            assert(all.skip(i as int).skip(1) =~= all.skip(i + 1));
            if let Some(m) = self.stop[i].on_stop(messages) {
                return Some(m);
            }
            i += 1;
        }
        None
    }
}

fn ask_from(
    hooks: &mut Vec<AnyPostToolHook>,
    i: usize,
    name: &str,
    input: &Json,
    output: &str,
) -> (r: Option<String>)
    requires
        i <= old(hooks)@.len(),
    ensures
        ({
            let run = ToolRun { name: name@, input: input@, output: output@ };
            &&& text::opt_view(r) == first_reply(
                old(hooks)@.skip(i as int),
                Seq::empty(),
                run,
            )
            &&& saw(old(hooks)@.skip(i as int), final(hooks)@.skip(i as int), run)
        }),
        final(hooks)@.len() == old(hooks)@.len(),
        final(hooks)@.take(i as int) == old(hooks)@.take(i as int),
    decreases old(hooks)@.len() - i,
{
    let ghost run = ToolRun { name: name@, input: input@, output: output@ };
    let ghost all = hooks@;
    let ghost tail = all.skip(i as int);
    if i >= hooks.len() {
        proof {
            none_answers(tail, tail, run);
        }
        return None;
    }
    assert(tail[0] == all[i as int]);
    let answer = hooks[i].on_post_tool(name, input, output);
    let ghost mid = hooks@;
    assert(mid.skip(i + 1) =~= all.skip(i + 1));
    assert(mid.take(i as int) =~= all.take(i as int));
    assert(tail.skip(1) =~= all.skip(i + 1));
    assert(hook_saw(tail[0], mid[i as int], run));
    if answer.is_some() {
        proof {
            assert(mid.skip(i as int)[0] == mid[i as int]);
            assert(mid.skip(i as int).skip(1) =~= tail.skip(1));
            answered_here(tail, mid.skip(i as int), run);
        }
        return answer;
    }
    let r = ask_from(hooks, i + 1, name, input, output);
    proof {
        let end = hooks@;
        assert(passed_on(tail[0], Seq::<ToolRun>::empty()) =~= Seq::<ToolRun>::empty());
        assert(end.take(i + 1)[i as int] == mid.take(i + 1)[i as int]);
        assert(end[i as int] == mid[i as int]);
        assert(end.take(i as int) =~= end.take(i + 1).take(i as int));
        assert(mid.take(i as int) =~= mid.take(i + 1).take(i as int));
        assert(end.skip(i as int)[0] == end[i as int]);
        assert(end.skip(i as int).skip(1) =~= end.skip(i + 1));
        answered_later(tail, end.skip(i as int), run);
    }
    r
}

/// The law of order: the first hook that answers decides, whatever the hooks after it would
/// say.
pub proof fn law_first_answer_decides(
    hooks: Seq<AnyPreToolHook>,
    tools: Seq<Box<dyn Tool>>,
    answers: Seq<bool>,
    name: Seq<char>,
    input: Seq<char>,
    i: int,
)
    requires
        0 <= i < hooks.len(),
        hooks[i].verdict(tools, answers, name, input) is Some,
        forall|j: int|
            0 <= j < i ==> (#[trigger] hooks[j]).verdict(tools, answers, name, input) is None,
    ensures
        first_verdict(hooks, tools, answers, name, input) == hooks[i].verdict(
            tools,
            answers,
            name,
            input,
        ),
    decreases i,
{
    if i > 0 {
        let rest = hooks.skip(1);
        assert(hooks[0].verdict(tools, answers, name, input) is None);
        assert(rest[i - 1] == hooks[i]);
        assert forall|j: int| 0 <= j < i - 1 implies (#[trigger] rest[j]).verdict(
            tools,
            answers,
            name,
            input,
        ) is None by {
            assert(rest[j] == hooks[j + 1]);
        }
        law_first_answer_decides(rest, tools, answers, name, input, i - 1);
    }
}

/// The blocks of a list of reminders.
pub open spec fn reminder_blocks(reminders: Seq<Seq<char>>) -> Seq<client::BlockView> {
    reminders.map_values(|t: Seq<char>| client::BlockView::Text { text: t })
}

/// A message of the user that holds blocks.
pub open spec fn blocks_message(content: Seq<client::BlockView>) -> client::MessageView {
    client::MessageView { role: "user"@, content }
}

/// The messages that follow a round of tool calls.
pub open spec fn post_tool_messages(
    results: Seq<client::BlockView>,
    reminders: Seq<Seq<char>>,
) -> Seq<client::MessageView> {
    if results.len() == 0 && reminders.len() == 0 {
        seq![client::text_message("user"@, "(no tool calls to execute)"@)]
    } else if reminders.len() == 0 {
        seq![blocks_message(results)]
    } else if results.len() == 0 {
        seq![blocks_message(reminder_blocks(reminders))]
    } else {
        seq![blocks_message(results), blocks_message(reminder_blocks(reminders))]
    }
}

/// Puts the results of a round of tool calls, and the reminders that came with it, into
/// messages of the user. A reminder never stands in the place of a result. The messages are
/// never empty: the model's API refuses an empty one.
pub fn assemble_post_tool_messages(tool_results: Vec<ContentBlock>, reminders: Vec<String>) -> (r:
    Vec<Message>)
    ensures
        client::messages(r@) == post_tool_messages(
            client::blocks(tool_results@),
            text::views(reminders@),
        ),
{
    let ghost results = client::blocks(tool_results@);
    let ghost notes = text::views(reminders@);
    let mut out: Vec<Message> = Vec::new();
    if tool_results.len() > 0 {
        out.push(Message::user_blocks(tool_results));
        assert(client::messages(out@) =~= seq![blocks_message(results)]);
    }
    if reminders.len() > 0 {
        let mut blocks: Vec<ContentBlock> = Vec::new();
        let mut i: usize = 0;
        assert(client::blocks(blocks@) =~= reminder_blocks(notes).take(0));
        while i < reminders.len()
            invariant
                i <= reminders@.len(),
                notes == text::views(reminders@),
                client::blocks(blocks@) == reminder_blocks(notes).take(i as int),
            decreases reminders@.len() - i,
        {
            let ghost before = client::blocks(blocks@);
            let b = ContentBlock::Text { text: reminders[i].clone() };
            blocks.push(b);
            assert(client::blocks(blocks@) =~= before.push(b@));
            assert(client::blocks(blocks@) =~= reminder_blocks(notes).take(i + 1));
            i += 1;
        }
        assert(reminder_blocks(notes).take(notes.len() as int) =~= reminder_blocks(notes));
        let ghost before = client::messages(out@);
        out.push(Message::user_blocks(blocks));
        assert(client::messages(out@) =~= before.push(blocks_message(reminder_blocks(notes))));
    }
    if out.len() == 0 {
        out.push(Message::user_text("(no tool calls to execute)"));
        assert(client::messages(out@) =~= seq![
            client::text_message("user"@, "(no tool calls to execute)"@),
        ]);
    }
    assert(client::messages(out@) =~= post_tool_messages(results, notes));
    out
}

/// The law of results: every result goes back to the model as it is, in the first of the
/// messages, and no message is empty.
pub proof fn law_results_come_back(results: Seq<client::BlockView>, reminders: Seq<Seq<char>>)
    ensures
        post_tool_messages(results, reminders).len() > 0,
        forall|i: int|
            0 <= i < post_tool_messages(results, reminders).len() ==> (
            #[trigger] post_tool_messages(results, reminders)[i]).content.len() > 0,
        results.len() > 0 ==> post_tool_messages(results, reminders)[0].content == results,
{
}

} // verus!
