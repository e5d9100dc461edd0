//! What holds of the agent's loop, whatever happens in it.

use vstd::prelude::*;

use crate::agent;
use crate::agent::run;
use crate::agent::run::{ActionView, CronJob, LoopEvent, LoopView};
use crate::agent::{AgentView, LoopOutcome};
use crate::builtins;
use crate::client;
use crate::client::{CallResult, Message};
use crate::compact_laws;
use crate::error;
use crate::hooks;
use crate::hooks::{
    AnyPostToolHook, AnyPreToolHook, AnyStopHook, PostToolHook, PreToolHook, StopHook, ToolRun,
};
use crate::json;
use crate::paths;
use crate::pattern;
use crate::team::lifecycle;
use crate::team::plan_laws;
use crate::team::protocols::GateStatus;
use crate::text;
use crate::tools::{AgentKind, PermissionView, Tool};

verus! {

/// The number of tool calls among some blocks.
pub open spec fn tool_uses(bs: Seq<client::BlockView>) -> nat {
    bs.filter(|b: client::BlockView| b is ToolUse).len()
}

proof fn calls_by_position(bs: Seq<client::BlockView>)
    ensures
        run::calls_in(bs).len() == tool_uses(bs),
        forall|i: int|
            0 <= i < bs.len() && (#[trigger] bs[i]) is ToolUse ==> {
                let k = tool_uses(bs.take(i)) as int;
                &&& k < run::calls_in(bs).len()
                &&& run::calls_in(bs)[k].id == bs[i]->ToolUse_id
                &&& run::calls_in(bs)[k].name == bs[i]->ToolUse_name
                &&& run::calls_in(bs)[k].input == bs[i]->ToolUse_input
            },
    decreases bs.len(),
{
    reveal(Seq::filter);
    if bs.len() > 0 {
        let head = bs.drop_last();
        calls_by_position(head);
        assert forall|i: int| 0 <= i < bs.len() && (#[trigger] bs[i]) is ToolUse implies {
            let k = tool_uses(bs.take(i)) as int;
            &&& k < run::calls_in(bs).len()
            &&& run::calls_in(bs)[k].id == bs[i]->ToolUse_id
            &&& run::calls_in(bs)[k].name == bs[i]->ToolUse_name
            &&& run::calls_in(bs)[k].input == bs[i]->ToolUse_input
        } by {
            if i < head.len() {
                assert(head[i] == bs[i]);
                assert(head.take(i) =~= bs.take(i));
            } else {
                assert(bs.take(i) =~= head);
            }
        }
    }
}

/// The law of tool calls: a reply has as many calls to run as it has blocks that call a
/// tool, and each such block gives the call with its id, its name and its input, at the
/// place that its rank among these blocks gives it.
pub proof fn law_every_tool_call_runs(bs: Seq<client::BlockView>)
    ensures
        run::calls_in(bs).len() == tool_uses(bs),
        forall|i: int|
            0 <= i < bs.len() && (#[trigger] bs[i]) is ToolUse ==> {
                let k = tool_uses(bs.take(i)) as int;
                &&& k < run::calls_in(bs).len()
                &&& run::calls_in(bs)[k].id == bs[i]->ToolUse_id
                &&& run::calls_in(bs)[k].name == bs[i]->ToolUse_name
                &&& run::calls_in(bs)[k].input == bs[i]->ToolUse_input
            },
{
    calls_by_position(bs);
}

/// The law of replies: a reply joins the conversation, behind all that was said, as the
/// assistant's message. Where it stopped for tools, each of its tool calls is run, in the
/// order of its blocks, and no other; else the hooks on the loop's end are asked.
pub proof fn law_a_reply_is_kept_and_acted_on(
    s: LoopView,
    ms: Seq<client::MessageView>,
    result: CallResult,
)
    requires
        result@ is Success,
    ensures
        ({
            let next = run::stepped(s, ms, LoopEvent::Called(result));
            let bs = result@->content;
            &&& next.messages.len() == ms.len() + 1
            &&& next.messages.take(ms.len() as int) == ms
            &&& next.messages.last().role == "assistant"@
            &&& next.messages.last().content == bs
            &&& result@->stop_reason == "tool_use"@ ==> {
                &&& next.action is RunTools
                &&& next.action->calls.len() == tool_uses(bs)
                &&& forall|i: int|
                    0 <= i < bs.len() && (#[trigger] bs[i]) is ToolUse ==> {
                        let call = next.action->calls[tool_uses(bs.take(i)) as int];
                        &&& tool_uses(bs.take(i)) < next.action->calls.len()
                        &&& call.id == bs[i]->ToolUse_id
                        &&& call.name == bs[i]->ToolUse_name
                        &&& call.input == bs[i]->ToolUse_input
                    }
            }
            &&& result@->stop_reason != "tool_use"@ ==> next.action is AskStop
        }),
{
    let next = run::stepped(s, ms, LoopEvent::Called(result));
    calls_by_position(result@->content);
    assert(next.messages.take(ms.len() as int) =~= ms);
}

/// The law of the conversation: no event takes anything out of it or changes what stands in
/// it, except that a failed call takes back the scheduled prompts of its turn.
pub proof fn law_the_conversation_grows(
    s: LoopView,
    ms: Seq<client::MessageView>,
    event: LoopEvent,
)
    ensures
        ({
            let next = run::stepped(s, ms, event);
            let failed = event is Called && next.action is Finish && s.waiting.len() > 0;
            &&& !failed ==> ms.len() <= next.messages.len() && next.messages.take(ms.len() as int)
                == ms
            &&& failed && s.scheduled_start <= ms.len() ==> next.messages == ms.take(
                s.scheduled_start as int,
            )
        }),
{
    let next = run::stepped(s, ms, event);
    assert(ms.take(ms.len() as int) =~= ms);
    if next.messages.len() >= ms.len() {
        match event {
            LoopEvent::Jobs(js) => {
                assert(next.messages.take(ms.len() as int) =~= ms);
            },
            LoopEvent::Called(_) => {
                if next.action is Finish {
                } else if next.action is Compact {
                } else {
                    assert(next.messages.take(ms.len() as int) =~= ms);
                }
            },
            LoopEvent::Stopping(f) => {
                if f is Some {
                    assert(next.messages.take(ms.len() as int) =~= ms);
                }
            },
            LoopEvent::ToolsRun(more) => {
                assert(next.messages.take(ms.len() as int) =~= ms);
            },
            _ => {},
        }
    }
}

/// The law of schedules: every due prompt joins the conversation, in the order of the
/// schedule, as a message of the user that says it was scheduled; and every one of them
/// waits to be confirmed.
pub proof fn law_due_prompts_are_delivered(
    s: LoopView,
    ms: Seq<client::MessageView>,
    due: Vec<CronJob>,
)
    ensures
        ({
            let next = run::stepped(s, ms, LoopEvent::Jobs(due));
            &&& next.messages.len() == ms.len() + due@.len()
            &&& next.state.waiting.len() == due@.len()
            &&& forall|i: int|
                0 <= i < due@.len() ==> {
                    let m = next.messages[ms.len() + i];
                    &&& m.role == "user"@
                    &&& m.content == seq![
                        client::BlockView::Text { text: "[Scheduled] "@ + due@[i].prompt@ },
                    ]
                    &&& (#[trigger] next.state.waiting[i]).id == due@[i].id@
                    &&& next.state.waiting[i].prompt == due@[i].prompt@
                }
        }),
{
}

/// The law of tool results: what the tools gave joins the conversation unchanged, behind
/// all that was said; and a hook that does not let the loop end is heard as the user.
pub proof fn law_results_and_objections_are_told(
    s: LoopView,
    ms: Seq<client::MessageView>,
    more: Vec<Message>,
    objection: String,
)
    ensures
        ({
            let next = run::stepped(s, ms, LoopEvent::ToolsRun(more));
            &&& next.messages.len() == ms.len() + more@.len()
            &&& forall|i: int|
                0 <= i < more@.len() ==> next.messages[ms.len() + i] == (#[trigger] more@[i])@
        }),
        ({
            let next = run::stepped(s, ms, LoopEvent::Stopping(Some(objection)));
            &&& next.messages.len() == ms.len() + 1
            &&& next.messages.last().role == "user"@
            &&& next.messages.last().content == seq![
                client::BlockView::Text { text: objection@ },
            ]
            &&& !(next.action is Remember)
            &&& s.turn < s.max_turns ==> !(next.action is Finish) && next.state.turn == s.turn + 1
        }),
{
}

/// The law of the way to the model: a turn ends in a call of the model only once the
/// conversation was made ready for it, and that comes behind the reports of background
/// tasks for the lead, the schedule where there is one, and the mailbox for a teammate.
pub proof fn law_the_way_to_the_model(
    s: LoopView,
    ms: Seq<client::MessageView>,
    event: LoopEvent,
)
    ensures
        ({
            let next = run::stepped(s, ms, event);
            let turns = event is Started || event is ToolsRun || (event is Stopping
                && event->Stopping_0 is Some) || (event is Compacted && event->Compacted_0 is Ok);
            let begins = turns && s.turn < s.max_turns;
            let reported = event is Collected || (begins && s.kind != AgentKind::Lead);
            let scheduled = event is Jobs || (reported && !s.has_cron);
            let in_mail = s.kind == AgentKind::Teammate && s.in_team;
            &&& begins ==> next.state.turn == s.turn + 1 && next.state.waiting.len() == 0
            &&& !begins ==> next.state.turn == s.turn
            &&& next.action is Collect <==> begins && s.kind == AgentKind::Lead
            &&& next.action is TakeJobs <==> reported && s.has_cron
            &&& reported ==> next.state.scheduled_start == next.messages.len()
            &&& next.action is Drain <==> scheduled && in_mail
            &&& next.action is Prepare <==> (scheduled && !in_mail) || (event is Drained
                && !event->Drained_0)
            &&& next.action is Call <==> event is Prepared && event->Prepared_0 is Ok
        }),
{
}

/// The law of outcomes: the loop ends as completed only when a teammate was told to stop or
/// the memories were seen to; as out of turns only when a turn was due and none was left;
/// and with an error only on an error of the model, of compaction or of a cancelled call.
pub proof fn law_outcomes(s: LoopView, ms: Seq<client::MessageView>, event: LoopEvent)
    ensures
        ({
            let next = run::stepped(s, ms, event);
            let turns = event is Started || event is ToolsRun || (event is Stopping
                && event->Stopping_0 is Some) || (event is Compacted && event->Compacted_0 is Ok);
            let outcome = next.action->Finish_outcome;
            &&& next.action is Finish && outcome is Ok && outcome->Ok_0 == LoopOutcome::Completed
                <==> (event is Drained && event->Drained_0) || (event is Remembered
                && event->Remembered_0 == 0) || event is Consolidated
            &&& next.action is Finish && outcome is Ok && outcome->Ok_0
                == LoopOutcome::MaxTurnsReached <==> turns && s.turn >= s.max_turns
            &&& event is Prepared && event->Prepared_0 is Err ==> next.action is Finish
                && outcome == Err::<LoopOutcome, error::ErrorView>(event->Prepared_0->Err_0@)
            &&& event is Compacted && event->Compacted_0 is Err ==> next.action is Finish
                && outcome == Err::<LoopOutcome, error::ErrorView>(event->Compacted_0->Err_0@)
            &&& event is Called && event->Called_0@ is Failure ==> next.action is Finish
                && outcome == Err::<LoopOutcome, error::ErrorView>(event->Called_0@->Failure_0)
            &&& event is Called && event->Called_0@ is Cancelled ==> next.action is Finish
                && outcome == Err::<LoopOutcome, error::ErrorView>(
                error::ErrorView::Other("Cancelled"@),
            )
            &&& event is Called && event->Called_0@ is PromptTooLong && next.action is Finish
                ==> outcome == Err::<LoopOutcome, error::ErrorView>(
                event->Called_0@->PromptTooLong_0,
            )
        }),
{
}

// ---- tools ----

/// The law of tool rounds: each call adds its result, with its id, behind the results so
/// far, and its reminder, where there is one, behind the reminders so far.
pub proof fn law_each_call_has_its_result(
    round: agent::RoundView,
    id: Seq<char>,
    content: Seq<char>,
    reminder: Option<Seq<char>>,
)
    ensures
        ({
            let next = round.noted(id, content, reminder);
            &&& next.results.len() == round.results.len() + 1
            &&& next.results.drop_last() == round.results
            &&& next.results.last() is ToolResult
            &&& next.results.last()->tool_use_id == id
            &&& next.results.last()->ToolResult_content == content
            &&& reminder is None ==> next.reminders == round.reminders
            &&& reminder is Some ==> next.reminders.len() == round.reminders.len() + 1
                && next.reminders.drop_last() == round.reminders && next.reminders.last()
                == reminder->0
        }),
{
    let next = round.noted(id, content, reminder);
    assert(next.results.drop_last() =~= round.results);
    if reminder is Some {
        assert(next.reminders.drop_last() =~= round.reminders);
    }
}

/// The law of rounds told: all results, followed by all reminders, go to the model as the
/// user's, in their order, results and reminders in messages of their own; a round without
/// any says so.
pub proof fn law_rounds_are_told_whole(
    results: Seq<client::BlockView>,
    reminders: Seq<Seq<char>>,
)
    ensures
        ({
            let out = hooks::post_tool_messages(results, reminders);
            let texts = reminders.map_values(
                |t: Seq<char>| client::BlockView::Text { text: t },
            );
            &&& forall|i: int| 0 <= i < out.len() ==> (#[trigger] out[i]).role == "user"@
            &&& results.len() + reminders.len() == 0 ==> out.len() == 1 && out[0].content == seq![
                client::BlockView::Text { text: "(no tool calls to execute)"@ },
            ]
            &&& results.len() > 0 && reminders.len() == 0 ==> out.len() == 1 && out[0].content
                == results
            &&& results.len() == 0 && reminders.len() > 0 ==> out.len() == 1 && out[0].content
                == texts
            &&& results.len() > 0 && reminders.len() > 0 ==> out.len() == 2 && out[0].content
                == results && out[1].content == texts
        }),
{
}

/// The law of denials: a hook's reason denies a call; and a teammate whose plan has to be
/// submitted, waits or was rejected runs neither a command nor a change of a file. Nothing
/// else is denied.
pub proof fn law_which_calls_are_denied(
    verdict: Option<Seq<char>>,
    kind: AgentKind,
    in_team: bool,
    status: GateStatus,
    name: Seq<char>,
)
    ensures
        ({
            let denial = agent::call_denial(verdict, kind, in_team, status, name);
            let changes = name == "command"@ || name == "write_file"@ || name == "edit_file"@;
            let held = status == GateStatus::Required || status == GateStatus::Pending || status
                == GateStatus::Rejected;
            &&& verdict is Some ==> denial == verdict
            &&& denial is Some <==> verdict is Some || (kind == AgentKind::Teammate && in_team
                && changes && held)
        }),
{
}

/// The law of permissions: a command that one of the forbidding patterns fits never runs. A
/// call passes exactly where no such pattern fits its command and the user said yes to each
/// question, of which there is one for a command that an approval pattern fits, and one for
/// a tool that asks.
pub proof fn law_permissions(
    asked: Option<PermissionView>,
    answers: Seq<bool>,
    name: Seq<char>,
    input: Seq<char>,
)
    ensures
        ({
            let given = json::text_str_member(input, "command"@);
            let command = if given is Some {
                given->0
            } else {
                ""@
            };
            let fits = |p: Seq<char>|
                name == "command"@ && pattern::regex_match(p, command) == Some(true);
            let forbidden = fits(builtins::DENY_RM@) || fits(builtins::DENY_SUDO@) || fits(
                builtins::DENY_SHUTDOWN@,
            ) || fits(builtins::DENY_DISK@) || fits(builtins::DENY_DEVICE@) || fits(
                builtins::DENY_CHMOD@,
            ) || fits(builtins::DENY_CHOWN@);
            let risky = fits(builtins::APPROVE_REMOVAL@) || fits(builtins::APPROVE_RIGHTS@) || fits(
                builtins::APPROVE_DOWNLOAD@,
            ) || fits(builtins::APPROVE_EVAL@);
            let tool_asks = asked is Some && asked->0 is NeedsApproval;
            let questions: int = (if risky {
                1int
            } else {
                0
            }) + (if tool_asks {
                1int
            } else {
                0
            });
            &&& builtins::permission_verdict(asked, answers, name, input) is None <==> !forbidden
                && questions <= answers.len() && forall|i: int|
                0 <= i < questions ==> #[trigger] answers[i]
            &&& builtins::questions_for(asked, name, input).len() == questions
            &&& tool_asks ==> builtins::questions_for(asked, name, input).last()
                == asked->0->NeedsApproval_0
        }),
{
    let qs = builtins::questions_for(asked, name, input);
    assert(builtins::all_granted(answers, qs.len()) <==> qs.len() <= answers.len() && forall|i: int|
        0 <= i < qs.len() ==> #[trigger] answers[i]);
}

/// The law of silent hooks: no verdict is given exactly where no hook gives one, and the
/// loop is not kept going exactly where no hook keeps it going; else the first hook that
/// speaks is heard.
pub proof fn law_the_first_hook_is_heard(
    pre: Seq<AnyPreToolHook>,
    stop: Seq<AnyStopHook>,
    tools: Seq<Box<dyn Tool>>,
    answers: Seq<bool>,
    name: Seq<char>,
    input: Seq<char>,
    messages: Seq<client::MessageView>,
)
    ensures
        hooks::first_verdict(pre, tools, answers, name, input) is None <==> forall|i: int|
            0 <= i < pre.len() ==> (#[trigger] pre[i]).verdict(tools, answers, name, input) is None,
        match hooks::first_forced(stop, messages) {
            None => forall|i: int|
                0 <= i < stop.len() ==> (#[trigger] stop[i]).forced(messages) is None,
            Some(m) => exists|i: int|
                0 <= i < stop.len() && (#[trigger] stop[i]).forced(messages) == Some(m) && forall|
                    j: int,
                |
                    0 <= j < i ==> (#[trigger] stop[j]).forced(messages) is None,
        },
    decreases pre.len() + stop.len(),
{
    if pre.len() > 0 && pre[0].verdict(tools, answers, name, input) is None {
        let rest = pre.skip(1);
        law_the_first_hook_is_heard(rest, stop, tools, answers, name, input, messages);
        if hooks::first_verdict(rest, tools, answers, name, input) is None {
            assert forall|i: int| 0 <= i < pre.len() implies (#[trigger] pre[i]).verdict(
                tools,
                answers,
                name,
                input,
            ) is None by {
                if i > 0 {
                    assert(rest[i - 1] == pre[i]);
                }
            }
        } else {
            let i = choose|i: int|
                0 <= i < rest.len() && (#[trigger] rest[i]).verdict(tools, answers, name, input)
                    is Some;
            assert(pre[i + 1] == rest[i]);
        }
    }
    if stop.len() > 0 {
        if stop[0].forced(messages) is None {
            let rest = stop.skip(1);
            law_the_first_hook_is_heard(pre, rest, tools, answers, name, input, messages);
            match hooks::first_forced(rest, messages) {
                None => {
                    assert forall|i: int| 0 <= i < stop.len() implies (#[trigger] stop[i]).forced(
                        messages,
                    ) is None by {
                        if i > 0 {
                            assert(rest[i - 1] == stop[i]);
                        }
                    }
                },
                Some(m) => {
                    let i = choose|i: int|
                        0 <= i < rest.len() && (#[trigger] rest[i]).forced(messages) == Some(m)
                            && forall|j: int|
                            0 <= j < i ==> (#[trigger] rest[j]).forced(messages) is None;
                    assert(stop[i + 1] == rest[i]);
                    assert forall|j: int| 0 <= j < i + 1 implies (#[trigger] stop[j]).forced(
                        messages,
                    ) is None by {
                        if j > 0 {
                            assert(rest[j - 1] == stop[j]);
                        }
                    }
                },
            }
        } else {
            assert(hooks::first_forced(stop, messages) == stop[0].forced(messages));
        }
    }
}

/// The law of counts: the tool results of a session are counted each once.
pub proof fn law_results_are_counted(ms: Seq<client::MessageView>, bs: Seq<client::BlockView>)
    ensures
        builtins::results_in(bs) == bs.filter(|b: client::BlockView| b is ToolResult).len(),
        builtins::tool_results(ms) == ms.flat_map(
            |m: client::MessageView|
                m.content.filter(|b: client::BlockView| b is ToolResult),
        ).len(),
    decreases ms.len() + bs.len(),
{
    reveal(Seq::filter);
    let f = |m: client::MessageView| m.content.filter(|b: client::BlockView| b is ToolResult);
    if bs.len() > 0 {
        law_results_are_counted(ms, bs.drop_last());
    }
    if ms.len() > 0 {
        law_results_are_counted(ms.drop_last(), bs);
        results_counted(ms.last().content);
        ms.drop_last().lemma_flat_map_push(f, ms.last());
        assert(ms =~= ms.drop_last().push(ms.last()));
    } else {
        assert(ms.map_values(f) =~= Seq::empty());
    }
}

proof fn results_counted(bs: Seq<client::BlockView>)
    ensures
        builtins::results_in(bs) == bs.filter(|b: client::BlockView| b is ToolResult).len(),
    decreases bs.len(),
{
    reveal(Seq::filter);
    if bs.len() > 0 {
        results_counted(bs.drop_last());
    }
}

// ---- agents ----

/// The law of helpers: a subagent and a teammate use the lead's model and working directory,
/// read its memories and never write them, keep no schedule, and keep their own files; a
/// subagent has the turns that it was given and no team, a teammate works in the team under
/// its name.
pub proof fn law_helpers(
    lead: AgentView,
    id: u64,
    turns: usize,
    name: Seq<char>,
    system: Seq<char>,
)
    ensures
        ({
            let sub = lead.subagent(id, turns, system);
            let mate = lead.teammate(name, system);
            let memory = paths::joined_path(lead.workdir, ".memory"@);
            &&& sub.api_key == lead.api_key && sub.base_url == lead.base_url && sub.model
                == lead.model && sub.workdir == lead.workdir && sub.max_tokens == lead.max_tokens
            &&& mate.api_key == lead.api_key && mate.base_url == lead.base_url && mate.model
                == lead.model && mate.workdir == lead.workdir && mate.max_tokens == lead.max_tokens
            &&& sub.read_only && mate.read_only
            &&& sub.memory_dir == memory && mate.memory_dir == memory
            &&& !sub.has_cron && !mate.has_cron
            &&& sub.kind == AgentKind::Subagent && mate.kind == AgentKind::Teammate
            &&& sub.max_turns == turns && mate.max_turns == usize::MAX
            &&& !sub.in_team && mate.in_team
            &&& mate.owner == name
            &&& sub.base_system == system && mate.base_system == system
            &&& sub.transcript_dir == paths::joined_path(
                paths::joined_path(
                    paths::joined_path(lead.workdir, ".subagents"@),
                    "subagent_"@ + text::decimal(id as nat),
                ),
                ".transcripts"@,
            )
            &&& mate.transcript_dir == paths::joined_path(
                paths::joined_path(paths::joined_path(lead.workdir, ".teammates"@), name),
                ".transcripts"@,
            )
        }),
{
}

/// The law of reports: what a subagent reports is all the text of the last message of the
/// assistant, and that it was stopped only where no turn was left.
pub proof fn law_subagents_report_their_last_reply(
    ms: Seq<client::MessageView>,
    i: int,
    turns: usize,
)
    requires
        0 <= i < ms.len(),
        ms[i].role == "assistant"@,
        forall|j: int| i < j < ms.len() ==> (#[trigger] ms[j]).role != "assistant"@,
    ensures
        ({
            let texts = ms[i].content.filter(|b: client::BlockView| b is Text).map_values(
                |b: client::BlockView| b->text,
            );
            agent::subagent_report(LoopOutcome::Completed, ms, turns) == if texts.len() == 0 {
                "(no summary)"@
            } else {
                text::joined(texts, "\n"@)
            }
        }),
{
    plan_laws::law_the_last_word(ms, Seq::empty());
    compact_laws::law_every_text_is_read(ms[i].content);
    let m = lifecycle::last_reply(ms)->0;
    assert(lifecycle::last_reply(ms) is Some);
    let k = choose|k: int|
        0 <= k < ms.len() && #[trigger] ms[k] == m && m.role == "assistant"@ && forall|j: int|
            k < j < ms.len() ==> (#[trigger] ms[j]).role != "assistant"@;
    if k < i {
        assert(ms[i].role != "assistant"@);
    }
    if i < k {
        assert(ms[k].role != "assistant"@);
    }
    assert(m == ms[i]);
}

/// The law of the lead's prompt: it names the working directory and the system, and lists the
/// skills where there are any.
pub proof fn law_the_lead_is_told_its_place(
    catalog: Seq<char>,
    workdir: Seq<char>,
    os: Seq<char>,
)
    ensures
        ({
            let out = agent::lead_prompt(catalog, workdir, os);
            &&& text::begins(out, "You are a coding agent at "@ + workdir + " on "@ + os)
            &&& catalog.len() > 0 ==> text::has(out, "\n\nSkills available:\n"@ + catalog)
            &&& catalog.len() == 0 ==> out == agent::base_prompt(workdir, os)
        }),
{
    let out = agent::lead_prompt(catalog, workdir, os);
    let head = "You are a coding agent at "@ + workdir + " on "@ + os;
    assert(out.subrange(0, head.len() as int) =~= head);
    if catalog.len() > 0 {
        let base = agent::base_prompt(workdir, os);
        let pat = "\n\nSkills available:\n"@ + catalog;
        assert(out.subrange(base.len() as int, (base.len() + pat.len()) as int) =~= pat);
        assert(text::occurs_at(out, pat, base.len() as int));
    }
}

/// The law of reminders heard: of the hooks after a tool the first that replies is heard, and
/// one is asked only where those before it had nothing to say.
pub proof fn law_the_first_reply_is_heard(
    hs: Seq<AnyPostToolHook>,
    seen: Seq<ToolRun>,
    run: ToolRun,
)
    ensures
        hs.len() == 0 ==> hooks::first_reply(hs, seen, run) is None,
        hs.len() > 0 && hs[0].reply_after(seen, run) is Some ==> hooks::first_reply(hs, seen, run)
            == hs[0].reply_after(seen, run),
        hs.len() > 0 && hs[0].reply_after(seen, run) is None ==> hooks::first_reply(hs, seen, run)
            == hooks::first_reply(hs.skip(1), hooks::passed_on(hs[0], seen), run),
        forall|i: int|
            0 <= i < hooks::passed_on(hs[0], seen).len() ==> seen.contains(
                #[trigger] hooks::passed_on(hs[0], seen)[i],
            ),
{
    runs_are_passed_on(hs[0], seen);
}

proof fn runs_are_passed_on(h: AnyPostToolHook, runs: Seq<ToolRun>)
    ensures
        forall|i: int|
            0 <= i < hooks::passed_on(h, runs).len() ==> runs.contains(
                #[trigger] hooks::passed_on(h, runs)[i],
            ),
    decreases runs.len(),
{
    if runs.len() > 0 {
        let head = runs.drop_last();
        runs_are_passed_on(h, head);
        let out = hooks::passed_on(h, runs);
        let before = hooks::passed_on(h, head);
        assert forall|i: int| 0 <= i < out.len() implies runs.contains(#[trigger] out[i]) by {
            if i < before.len() {
                assert(out[i] == before[i]);
                let k = choose|k: int| 0 <= k < head.len() && head[k] == before[i];
                assert(runs[k] == out[i]);
            } else {
                assert(runs[runs.len() - 1] == out[i]);
            }
        }
    }
}

} // verus!
