//! The hooks that every agent has.

use vstd::prelude::*;

use crate::client;
use crate::client::{ContentBlock, Message};
use crate::hooks::{HookContext, PostToolHook, PreToolHook, PromptHook, StopHook, ToolRun};
use crate::json;
use crate::json::Json;
use crate::pattern;
use crate::text;
use crate::tools;
use crate::tools::{PermissionCheck, PermissionView, Tool, ToolRegistry};

verus! {

/// The text of the reminder.
pub const TODO_REMINDER: &'static str = "<reminder>Update your todos.</reminder>";

/// After how many tool calls without `todo_write` the reminder comes.
pub const TODO_REMINDER_CALLS: usize = 3;

/// Reminds the model of its list of things to do, at every third tool call since it last
/// wrote the list.
pub struct TodoReminderHook {
    pub counter: usize,
}

/// The counter after a call of the tool `name`.
pub open spec fn counted(counter: nat, name: Seq<char>) -> nat {
    if name == "todo_write"@ || counter + 1 >= TODO_REMINDER_CALLS {
        0
    } else {
        counter + 1
    }
}

/// Whether a call of the tool `name` brings the reminder.
pub open spec fn reminds(counter: nat, name: Seq<char>) -> bool {
    name != "todo_write"@ && counter + 1 >= TODO_REMINDER_CALLS
}

/// The counter after calls of the tools `names`.
pub open spec fn counted_all(counter: nat, names: Seq<Seq<char>>) -> nat
    decreases names.len(),
{
    if names.len() == 0 {
        counter
    } else {
        counted(counted_all(counter, names.drop_last()), names.last())
    }
}

/// The tools that ran.
pub open spec fn names_of(runs: Seq<ToolRun>) -> Seq<Seq<char>> {
    runs.map_values(|r: ToolRun| r.name)
}

proof fn counting_goes_on(counter: nat, name: Seq<char>, names: Seq<Seq<char>>)
    ensures
        counted_all(counter, seq![name] + names) == counted_all(counted(counter, name), names),
    decreases names.len(),
{
    let all = seq![name] + names;
    if names.len() == 0 {
        assert(all.drop_last() =~= Seq::<Seq<char>>::empty());
        assert(all.last() == name);
        assert(counted_all(counter, Seq::<Seq<char>>::empty()) == counter);
    } else {
        counting_goes_on(counter, name, names.drop_last());
        assert(all.drop_last() =~= seq![name] + names.drop_last());
        assert(all.last() == names.last());
    }
}

impl TodoReminderHook {
    /// A hook that has counted nothing yet.
    pub fn new() -> (r: Self)
        ensures
            r.counter == 0,
    {
        TodoReminderHook { counter: 0 }
    }

    /// Forgets the calls counted so far.
    pub fn reset_counter(&mut self)
        ensures
            final(self).counter == 0,
    {
        self.counter = 0;
    }
}

impl PostToolHook for TodoReminderHook {
    open spec fn reply_after(&self, seen: Seq<ToolRun>, run: ToolRun) -> Option<Seq<char>> {
        if reminds(counted_all(self.counter as nat, names_of(seen)), run.name) {
            Some(TODO_REMINDER@)
        } else {
            None
        }
    }

    fn on_post_tool(&mut self, name: &str, input: &Json, output: &str) -> (r: Option<String>)
        ensures
            final(self).counter == counted(old(self).counter as nat, name@),
    {
        proof {
            let run = ToolRun { name: name@, input: input@, output: output@ };
            let c = self.counter as nat;
            assert(names_of(Seq::<ToolRun>::empty()) =~= Seq::<Seq<char>>::empty());
            assert forall|seen: Seq<ToolRun>|
                counted_all(c, #[trigger] names_of(seq![run] + seen)) == counted_all(
                    counted(c, name@),
                    names_of(seen),
                ) by {
                assert(names_of(seq![run] + seen) =~= seq![name@] + names_of(seen));
                counting_goes_on(c, name@, names_of(seen));
            }
        }
        if text::same(name, "todo_write") {
            self.counter = 0;
            return None;
        }
        if self.counter >= TODO_REMINDER_CALLS - 1 {
            self.counter = 0;
            Some(TODO_REMINDER.to_string())
        } else {
            self.counter = self.counter + 1;
            None
        }
    }
}

/// The law of reminders: while the list is not written, a fresh hook reminds at each third
/// call and at no other.
pub proof fn law_every_third_call_reminds(names: Seq<Seq<char>>)
    requires
        forall|i: int| 0 <= i < names.len() ==> #[trigger] names[i] != "todo_write"@,
    ensures
        counted_all(0, names) == names.len() % TODO_REMINDER_CALLS as nat,
        names.len() > 0 ==> (reminds(counted_all(0, names.drop_last()), names.last()) <==> names.len()
            % TODO_REMINDER_CALLS as nat == 0),
    decreases names.len(),
{
    if names.len() > 0 {
        let front = names.drop_last();
        assert forall|i: int| 0 <= i < front.len() implies #[trigger] front[i]
            != "todo_write"@ by {
            assert(front[i] == names[i]);
        }
        law_every_third_call_reminds(front);
    }
}

/// The law of resetting: after the list was written, the count begins anew.
pub proof fn law_writing_resets(counter: nat, names: Seq<Seq<char>>)
    ensures
        counted_all(counter, names.push("todo_write"@)) == 0,
        !reminds(counted_all(counter, names), "todo_write"@),
{
    assert(names.push("todo_write"@).drop_last() =~= names);
}

/// Notes the directory in which the agent works.
pub struct ContextInjectHook;

impl PromptHook for ContextInjectHook {
    fn on_prompt(&self, query: &str) {
    }
}

/// How many bytes of output are worth a warning in the log.
pub const LARGE_OUTPUT_BYTES: usize = 100_000;

/// Watches for large outputs. It reminds the model of nothing.
pub struct LargeOutputHook;

impl LargeOutputHook {
    /// Whether an output is worth a warning in the log.
    pub fn warns(&self, output: &str) -> (r: bool)
        ensures
            r == (text::utf8_len(output@) > LARGE_OUTPUT_BYTES),
    {
        text::byte_len(output) > LARGE_OUTPUT_BYTES
    }
}

impl PostToolHook for LargeOutputHook {
    open spec fn reply_after(&self, seen: Seq<ToolRun>, run: ToolRun) -> Option<Seq<char>> {
        None
    }

    fn on_post_tool(&mut self, name: &str, input: &Json, output: &str) -> (r: Option<String>) {
        None
    }
}

/// How many of the blocks are results of tools.
pub open spec fn results_in(blocks: Seq<client::BlockView>) -> nat
    decreases blocks.len(),
{
    if blocks.len() == 0 {
        0
    } else if blocks.last() is ToolResult {
        results_in(blocks.drop_last()) + 1
    } else {
        results_in(blocks.drop_last())
    }
}

/// How many results of tools a conversation holds.
pub open spec fn tool_results(messages: Seq<client::MessageView>) -> nat
    decreases messages.len(),
{
    if messages.len() == 0 {
        0
    } else {
        tool_results(messages.drop_last()) + results_in(messages.last().content)
    }
}

/// Counts the tool calls of a session where it ends.
pub struct SummaryHook;

impl SummaryHook {
    /// How many results of tools the conversation holds, counted up to the largest number
    /// there is.
    pub fn tool_count(&self, messages: &[Message]) -> (r: usize)
        ensures
            r == (if tool_results(client::messages(messages@)) <= usize::MAX {
                tool_results(client::messages(messages@))
            } else {
                usize::MAX as nat
            }),
    {
        let ghost ms = client::messages(messages@);
        let mut n: usize = 0;
        let mut i: usize = 0;
        while i < messages.len()
            invariant
                i <= messages@.len(),
                ms == client::messages(messages@),
                n == (if tool_results(ms.take(i as int)) <= usize::MAX {
                    tool_results(ms.take(i as int))
                } else {
                    usize::MAX as nat
                }),
            decreases messages@.len() - i,
        {
            let content = &messages[i].content;
            let ghost bs = client::blocks(content@);
            let ghost before = tool_results(ms.take(i as int));
            assert(ms.take(i + 1).drop_last() =~= ms.take(i as int));
            assert(ms.take(i + 1).last().content == bs);
            let mut k: usize = 0;
            while k < content.len()
                invariant
                    k <= content@.len(),
                    bs == client::blocks(content@),
                    n == (if before + results_in(bs.take(k as int)) <= usize::MAX {
                        before + results_in(bs.take(k as int))
                    } else {
                        usize::MAX as nat
                    }),
                decreases content@.len() - k,
            {
                assert(bs.take(k + 1).drop_last() =~= bs.take(k as int));
                assert(bs.take(k + 1).last() == content@[k as int]@);
                if matches!(content[k], ContentBlock::ToolResult { .. }) {
                    n = n.saturating_add(1);
                }
                k += 1;
            }
            assert(bs.take(bs.len() as int) =~= bs);
            i += 1;
        }
        assert(ms.take(ms.len() as int) =~= ms);
        n
    }
}

impl StopHook for SummaryHook {
    open spec fn forced(&self, messages: Seq<client::MessageView>) -> Option<Seq<char>> {
        None
    }

    fn on_stop(&self, messages: &[Message]) -> (r: Option<String>) {
        None
    }
}

/// Recursive removal.
pub const DENY_RM: &'static str = r"(?i)\brm\s+-rf\s+/?";

/// Privilege escalation.
pub const DENY_SUDO: &'static str = r"(?i)\bsudo\b";

/// Halting the machine.
pub const DENY_SHUTDOWN: &'static str = r"(?i)\b(shutdown|reboot|halt|poweroff)\b";

/// Formatting disks and writing to them directly.
pub const DENY_DISK: &'static str = r"(?i)\b(mkfs|dd\s+if=)\b";

/// Writing to block devices.
pub const DENY_DEVICE: &'static str = r"(?i)>?\s*/dev/sd[ab]\d?";

/// Opening files to everybody.
pub const DENY_CHMOD: &'static str = r"(?i)\b(chmod)\s+777";

/// Giving trees of files to root.
pub const DENY_CHOWN: &'static str = r"(?i)\b(chown)\s+-R\s+root:";

/// Removal and disk writes.
pub const APPROVE_REMOVAL: &'static str = r"(?i)\b(rm|dd|mkfs)\b";

/// Other users' rights.
pub const APPROVE_RIGHTS: &'static str = r"(?i)\b(sudo|su|doas)\b";

/// Running what was downloaded.
pub const APPROVE_DOWNLOAD: &'static str = r"(?i)\b(curl|wget)\s+.*\|\s*(sh|bash)";

/// Evaluation of text as commands.
pub const APPROVE_EVAL: &'static str = r"(?i)\beval\b";

/// Why a command needs approval.
pub const APPROVAL_REASON: &'static str = "This command may modify system state and requires approval";

/// Whether a command matches a pattern.
pub open spec fn hit(pattern: Seq<char>, command: Seq<char>) -> bool {
    pattern::regex_match(pattern, command) == Some(true)
}

/// Why a command is always denied.
pub open spec fn denial(command: Seq<char>) -> Option<Seq<char>> {
    if hit(DENY_RM@, command) {
        Some("rm -rf / (destructive command)"@)
    } else if hit(DENY_SUDO@, command) {
        Some("sudo (privilege escalation)"@)
    } else if hit(DENY_SHUTDOWN@, command) {
        Some("system shutdown command"@)
    } else if hit(DENY_DISK@, command) {
        Some("dd (direct disk write)"@)
    } else if hit(DENY_DEVICE@, command) {
        Some("dangerous command"@)
    } else if hit(DENY_CHMOD@, command) {
        Some("chmod 777 (insecure permissions)"@)
    } else if hit(DENY_CHOWN@, command) {
        Some("dangerous command"@)
    } else {
        None
    }
}

/// Whether a command needs the user's approval.
pub open spec fn needs_approval(command: Seq<char>) -> bool {
    ||| hit(APPROVE_REMOVAL@, command)
    ||| hit(APPROVE_RIGHTS@, command)
    ||| hit(APPROVE_DOWNLOAD@, command)
    ||| hit(APPROVE_EVAL@, command)
}

/// The command that a call of a tool runs: only `command` runs one.
pub open spec fn command_of(name: Seq<char>, input: Seq<char>) -> Option<Seq<char>> {
    if name == "command"@ {
        match json::text_str_member(input, "command"@) {
            Some(c) => Some(c),
            None => Some(""@),
        }
    } else {
        None
    }
}

/// Why a tool call is denied without a question.
pub open spec fn call_denial(name: Seq<char>, input: Seq<char>) -> Option<Seq<char>> {
    match command_of(name, input) {
        Some(c) => denial(c),
        None => None,
    }
}

/// The reasons for which the user is asked before a tool runs, in the order of the
/// questions.
pub open spec fn questions_for(
    asked: Option<PermissionView>,
    name: Seq<char>,
    input: Seq<char>,
) -> Seq<Seq<char>> {
    let first = match command_of(name, input) {
        Some(c) => if needs_approval(c) {
            seq![APPROVAL_REASON@]
        } else {
            Seq::empty()
        },
        None => Seq::empty(),
    };
    match asked {
        Some(PermissionView::NeedsApproval(reason)) => first.push(reason),
        _ => first,
    }
}

/// Whether the first `n` answers are there and are all yes.
pub open spec fn all_granted(answers: Seq<bool>, n: nat) -> bool {
    n <= answers.len() && forall|i: int| 0 <= i < n ==> #[trigger] answers[i]
}

/// What becomes of a tool call: the reason for which it is denied, or nothing.
pub open spec fn permission_verdict(
    asked: Option<PermissionView>,
    answers: Seq<bool>,
    name: Seq<char>,
    input: Seq<char>,
) -> Option<Seq<char>> {
    match call_denial(name, input) {
        Some(reason) => Some("Permission denied: "@ + reason),
        None => if all_granted(answers, questions_for(asked, name, input).len()) {
            None
        } else {
            Some("Permission denied by user"@)
        },
    }
}

/// Why a command is always denied: the first pattern of the list that is found in it says
/// so.
pub fn check_deny_patterns(command: &str) -> (r: Option<&'static str>)
    ensures
        denial(command@) == (match r {
            Some(reason) => Some(reason@),
            None => None::<Seq<char>>,
        }),
{
    if pattern::found(DENY_RM, command) {
        Some("rm -rf / (destructive command)")
    } else if pattern::found(DENY_SUDO, command) {
        Some("sudo (privilege escalation)")
    } else if pattern::found(DENY_SHUTDOWN, command) {
        Some("system shutdown command")
    } else if pattern::found(DENY_DISK, command) {
        Some("dd (direct disk write)")
    } else if pattern::found(DENY_DEVICE, command) {
        Some("dangerous command")
    } else if pattern::found(DENY_CHMOD, command) {
        Some("chmod 777 (insecure permissions)")
    } else if pattern::found(DENY_CHOWN, command) {
        Some("dangerous command")
    } else {
        None
    }
}

/// Why a command needs the user's approval.
pub fn requires_approval(command: &str) -> (r: Option<&'static str>)
    ensures
        match r {
            Some(reason) => needs_approval(command@) && reason@ == APPROVAL_REASON@,
            None => !needs_approval(command@),
        },
{
    if pattern::found(APPROVE_REMOVAL, command) || pattern::found(APPROVE_RIGHTS, command)
        || pattern::found(APPROVE_DOWNLOAD, command) || pattern::found(APPROVE_EVAL, command) {
        Some(APPROVAL_REASON)
    } else {
        None
    }
}

/// Denies dangerous commands, and has the user decide on doubtful ones and on the tools that
/// ask for it.
pub struct PermissionHook;

impl PermissionHook {
    fn command(&self, name: &str, input: &Json) -> (r: Option<String>)
        ensures
            text::opt_view(r) == command_of(name@, input@),
    {
        if text::same(name, "command") {
            match input.str_member("command") {
                Some(c) => Some(c),
                None => Some("".to_string()),
            }
        } else {
            None
        }
    }

    /// Why a call is denied without a question.
    pub fn blocked(&self, name: &str, input: &Json) -> (r: Option<&'static str>)
        ensures
            call_denial(name@, input@) == (match r {
                Some(reason) => Some(reason@),
                None => None::<Seq<char>>,
            }),
    {
        match self.command(name, input) {
            Some(c) => check_deny_patterns(c.as_str()),
            None => None,
        }
    }

    /// The reasons for which the user is to be asked before the tool runs, in the order of
    /// the questions.
    pub fn questions(&self, registry: &ToolRegistry, name: &str, input: &Json) -> (r: Vec<
        &'static str,
    >)
        ensures
            r@.map_values(|s: &'static str| s@) == questions_for(
                tools::asked_by(registry@, name@, input@),
                name@,
                input@,
            ),
    {
        let mut out: Vec<&'static str> = Vec::new();
        let asked = registry.check_permission(name, input);
        if let Some(c) = self.command(name, input) {
            if let Some(reason) = requires_approval(c.as_str()) {
                out.push(reason);
            }
        }
        if let Some(PermissionCheck::NeedsApproval(reason)) = asked {
            out.push(reason);
        }
        assert(out@.map_values(|s: &'static str| s@) =~= questions_for(
            tools::asked_by(registry@, name@, input@),
            name@,
            input@,
        ));
        out
    }
}

impl PreToolHook for PermissionHook {
    open spec fn verdict(
        &self,
        tools: Seq<Box<dyn Tool>>,
        answers: Seq<bool>,
        name: Seq<char>,
        input: Seq<char>,
    ) -> Option<Seq<char>> {
        permission_verdict(tools::asked_by(tools, name, input), answers, name, input)
    }

    fn on_pre_tool(
        &self,
        registry: &ToolRegistry,
        ctx: &HookContext,
        name: &str,
        input: &Json,
    ) -> (r: Option<String>) {
        if let Some(reason) = self.blocked(name, input) {
            return Some("Permission denied: ".to_string().concat(reason));
        }
        let questions = self.questions(registry, name, input);
        let ghost n = questions_for(
            tools::asked_by(registry@, name@, input@),
            name@,
            input@,
        ).len();
        assert(questions@.map_values(|s: &'static str| s@).len() == n);
        let mut i: usize = 0;
        while i < questions.len()
            invariant
                i <= questions@.len(),
                questions@.len() == n,
                n == questions_for(
                    tools::asked_by(registry@, name@, input@),
                    name@,
                    input@,
                ).len(),
                call_denial(name@, input@) is None,
                all_granted(ctx.answers@, i as nat),
            decreases questions@.len() - i,
        {
            if i >= ctx.answers.len() || !ctx.answers[i] {
                return Some("Permission denied by user".to_string());
            }
            i += 1;
        }
        None
    }
}

/// The law of denial: no answer and no tool lets a forbidden command through.
pub proof fn law_forbidden_commands_never_run(
    asked: Option<PermissionView>,
    answers: Seq<bool>,
    input: Seq<char>,
    command: Seq<char>,
)
    requires
        json::text_str_member(input, "command"@) == Some(command),
        denial(command) is Some,
    ensures
        permission_verdict(asked, answers, "command"@, input) is Some,
{
}

/// The law of silence: where nobody can be asked, whatever needs a question is denied, and
/// what needs none passes.
pub proof fn law_unasked_is_denied(
    asked: Option<PermissionView>,
    name: Seq<char>,
    input: Seq<char>,
)
    requires
        call_denial(name, input) is None,
    ensures
        permission_verdict(asked, Seq::empty(), name, input) is None <==> questions_for(
            asked,
            name,
            input,
        ).len() == 0,
{
}

} // verus!
