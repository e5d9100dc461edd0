//! The agent's loop: what it does next, given what it did last.
//!
//! The loop itself calls the model, runs tools, reads files and waits. All of that is done
//! by the caller. [`LoopState::step`] takes the outcome of one such action, brings the
//! conversation up to date, and names the next action.

use vstd::prelude::*;

use crate::agent::{Agent, LoopOutcome};
use crate::client;
use crate::client::{CallResult, ContentBlock, Message};
use crate::compact;
use crate::error;
use crate::error::AgentError;
use crate::json::Json;
use crate::text;
use crate::tools::AgentKind;

verus! {

/// A prompt that was scheduled for now.
pub struct CronJob {
    pub id: String,
    pub prompt: String,
}

/// The mathematical content of a [`CronJob`].
#[verifier::ext_equal]
pub struct JobView {
    pub id: Seq<char>,
    pub prompt: Seq<char>,
}

impl View for CronJob {
    type V = JobView;

    open spec fn view(&self) -> JobView {
        JobView { id: self.id@, prompt: self.prompt@ }
    }
}

/// The contents of a list of jobs.
pub open spec fn jobs(v: Seq<CronJob>) -> Seq<JobView> {
    v.map_values(|j: CronJob| j@)
}

/// A tool that the model calls.
pub struct ToolCall {
    pub id: String,
    pub name: String,
    pub input: Json,
}

/// The mathematical content of a [`ToolCall`].
#[verifier::ext_equal]
pub struct CallView {
    pub id: Seq<char>,
    pub name: Seq<char>,
    pub input: Seq<char>,
}

impl View for ToolCall {
    type V = CallView;

    open spec fn view(&self) -> CallView {
        CallView { id: self.id@, name: self.name@, input: self.input@ }
    }
}

/// The contents of a list of calls.
pub open spec fn calls(v: Seq<ToolCall>) -> Seq<CallView> {
    v.map_values(|c: ToolCall| c@)
}

/// The tool calls among the blocks of a reply, in their order.
pub open spec fn calls_in(blocks: Seq<client::BlockView>) -> Seq<CallView>
    decreases blocks.len(),
{
    if blocks.len() == 0 {
        Seq::empty()
    } else {
        match blocks.last() {
            client::BlockView::ToolUse { id, name, input } => calls_in(blocks.drop_last()).push(
                CallView { id, name, input },
            ),
            _ => calls_in(blocks.drop_last()),
        }
    }
}

/// The tool calls of a reply.
pub fn tool_calls(content: &[ContentBlock]) -> (r: Vec<ToolCall>)
    ensures
        calls(r@) == calls_in(client::blocks(content@)),
{
    let ghost bs = client::blocks(content@);
    let mut out: Vec<ToolCall> = Vec::new();
    let mut i: usize = 0;
    assert(calls(out@) =~= calls_in(bs.take(0)));
    while i < content.len()
        invariant
            i <= content@.len(),
            bs == client::blocks(content@),
            calls(out@) == calls_in(bs.take(i as int)),
        decreases content@.len() - i,
    {
        assert(bs.take(i + 1).drop_last() =~= bs.take(i as int));
        assert(bs.take(i + 1).last() == content@[i as int]@);
        let ghost before = calls(out@);
        if let ContentBlock::ToolUse { id, name, input } = &content[i] {
            let call = ToolCall { id: id.clone(), name: name.clone(), input: input.clone() };
            out.push(call);
            assert(calls(out@) =~= before.push(call@));
        }
        i += 1;
    }
    assert(bs.take(bs.len() as int) =~= bs);
    out
}

/// What happened.
pub enum LoopEvent {
    /// The loop begins.
    Started,
    /// The reports of background tasks were added.
    Collected,
    /// These scheduled prompts are due.
    Jobs(Vec<CronJob>),
    /// The mailbox was emptied, and the agent has to stop or not.
    Drained(bool),
    /// The conversation was made ready for the model.
    Prepared(Result<(), AgentError>),
    /// The model was called.
    Called(CallResult),
    /// The conversation was compacted because it was too long.
    Compacted(Result<(), AgentError>),
    /// The hooks on the loop's end were asked.
    Stopping(Option<String>),
    /// The tools ran, and gave these messages.
    ToolsRun(Vec<Message>),
    /// Memories were extracted, and so many were stored.
    Remembered(usize),
    /// The memories were consolidated.
    Consolidated,
}

/// What to do next.
pub enum LoopAction {
    /// Add the reports of background tasks.
    Collect,
    /// Take the scheduled prompts that are due.
    TakeJobs,
    /// Empty the mailbox.
    Drain,
    /// Make the conversation ready for the model.
    Prepare,
    /// Call the model.
    Call,
    /// Compact the conversation, which is too long.
    Compact,
    /// Confirm the scheduled prompts, and ask the hooks on the loop's end.
    AskStop { confirm: Vec<CronJob> },
    /// Confirm the scheduled prompts, and run the tools.
    RunTools { confirm: Vec<CronJob>, calls: Vec<ToolCall> },
    /// Extract memories.
    Remember,
    /// Consolidate the memories.
    Consolidate,
    /// Put the scheduled prompts back, and end with this outcome.
    Finish { restore: Vec<CronJob>, outcome: Result<LoopOutcome, AgentError> },
}

/// The mathematical content of a [`LoopAction`].
#[verifier::ext_equal]
pub enum ActionView {
    Collect,
    TakeJobs,
    Drain,
    Prepare,
    Call,
    Compact,
    AskStop { confirm: Seq<JobView> },
    RunTools { confirm: Seq<JobView>, calls: Seq<CallView> },
    Remember,
    Consolidate,
    Finish { restore: Seq<JobView>, outcome: Result<LoopOutcome, error::ErrorView> },
}

impl View for LoopAction {
    type V = ActionView;

    open spec fn view(&self) -> ActionView {
        match *self {
            LoopAction::Collect => ActionView::Collect,
            LoopAction::TakeJobs => ActionView::TakeJobs,
            LoopAction::Drain => ActionView::Drain,
            LoopAction::Prepare => ActionView::Prepare,
            LoopAction::Call => ActionView::Call,
            LoopAction::Compact => ActionView::Compact,
            LoopAction::AskStop { confirm } => ActionView::AskStop { confirm: jobs(confirm@) },
            LoopAction::RunTools { confirm, calls: cs } => ActionView::RunTools {
                confirm: jobs(confirm@),
                calls: calls(cs@),
            },
            LoopAction::Remember => ActionView::Remember,
            LoopAction::Consolidate => ActionView::Consolidate,
            LoopAction::Finish { restore, outcome } => ActionView::Finish {
                restore: jobs(restore@),
                outcome: match outcome {
                    Ok(o) => Ok(o),
                    Err(e) => Err(e@),
                },
            },
        }
    }
}

/// Where the loop stands.
pub struct LoopState {
    pub kind: AgentKind,
    pub has_cron: bool,
    pub in_team: bool,
    pub max_turns: usize,
    /// The turns begun so far.
    pub turn: usize,
    /// How often in a row the conversation was compacted because it was too long.
    pub retries: u32,
    /// How long the conversation was before the scheduled prompts came.
    pub scheduled_start: usize,
    /// The scheduled prompts of this turn that are not confirmed yet.
    pub waiting: Vec<CronJob>,
}

/// The mathematical content of a [`LoopState`].
#[verifier::ext_equal]
pub struct LoopView {
    pub kind: AgentKind,
    pub has_cron: bool,
    pub in_team: bool,
    pub max_turns: nat,
    pub turn: nat,
    pub retries: u32,
    pub scheduled_start: nat,
    pub waiting: Seq<JobView>,
}

impl View for LoopState {
    type V = LoopView;

    open spec fn view(&self) -> LoopView {
        LoopView {
            kind: self.kind,
            has_cron: self.has_cron,
            in_team: self.in_team,
            max_turns: self.max_turns as nat,
            turn: self.turn as nat,
            retries: self.retries,
            scheduled_start: self.scheduled_start as nat,
            waiting: jobs(self.waiting@),
        }
    }
}

/// The loop after a step: where it stands, the conversation, and what to do next.
#[verifier::ext_equal]
pub struct Stepped {
    pub state: LoopView,
    pub messages: Seq<client::MessageView>,
    pub action: ActionView,
}

/// The messages that scheduled prompts become.
pub open spec fn job_messages(js: Seq<JobView>) -> Seq<client::MessageView> {
    js.map_values(|j: JobView| client::text_message("user"@, "[Scheduled] "@ + j.prompt))
}

/// The first `n` messages, or all where there are fewer.
pub open spec fn cut(ms: Seq<client::MessageView>, n: nat) -> Seq<client::MessageView> {
    if n <= ms.len() {
        ms.take(n as int)
    } else {
        ms
    }
}

/// The end of the loop, with nothing to put back.
pub open spec fn finish(
    s: LoopView,
    ms: Seq<client::MessageView>,
    outcome: Result<LoopOutcome, error::ErrorView>,
) -> Stepped {
    Stepped { state: s, messages: ms, action: ActionView::Finish { restore: Seq::empty(), outcome } }
}

/// The end of the loop on an error of the model: the scheduled prompts of this turn leave
/// the conversation and are put back.
pub open spec fn fail(s: LoopView, ms: Seq<client::MessageView>, e: error::ErrorView) -> Stepped {
    Stepped {
        state: LoopView { waiting: Seq::empty(), ..s },
        messages: if s.waiting.len() > 0 {
            cut(ms, s.scheduled_start)
        } else {
            ms
        },
        action: ActionView::Finish { restore: s.waiting, outcome: Err(e) },
    }
}

/// After the scheduled prompts: the mailbox, for a teammate, or the model.
pub open spec fn after_jobs(s: LoopView, ms: Seq<client::MessageView>) -> Stepped {
    Stepped {
        state: s,
        messages: ms,
        action: if s.kind == AgentKind::Teammate && s.in_team {
            ActionView::Drain
        } else {
            ActionView::Prepare
        },
    }
}

/// After the reports of background tasks: the scheduled prompts, where there is a schedule.
pub open spec fn after_reports(s: LoopView, ms: Seq<client::MessageView>) -> Stepped {
    let marked = LoopView { scheduled_start: ms.len(), ..s };
    if s.has_cron {
        Stepped { state: marked, messages: ms, action: ActionView::TakeJobs }
    } else {
        after_jobs(marked, ms)
    }
}

/// A new turn, if there is one left.
pub open spec fn new_turn(s: LoopView, ms: Seq<client::MessageView>) -> Stepped {
    if s.turn >= s.max_turns {
        finish(s, ms, Ok(LoopOutcome::MaxTurnsReached))
    } else {
        let begun = LoopView { turn: s.turn + 1, waiting: Seq::empty(), ..s };
        if s.kind == AgentKind::Lead {
            Stepped { state: begun, messages: ms, action: ActionView::Collect }
        } else {
            after_reports(begun, ms)
        }
    }
}

/// After a call of the model.
pub open spec fn after_call(
    s: LoopView,
    ms: Seq<client::MessageView>,
    result: client::ResultView,
) -> Stepped {
    match result {
        client::ResultView::Success { content, stop_reason } => Stepped {
            state: LoopView { retries: 0, waiting: Seq::empty(), ..s },
            messages: ms.push(client::MessageView { role: "assistant"@, content }),
            action: if stop_reason == "tool_use"@ {
                ActionView::RunTools { confirm: s.waiting, calls: calls_in(content) }
            } else {
                ActionView::AskStop { confirm: s.waiting }
            },
        },
        client::ResultView::PromptTooLong(e) => if s.retries < compact::MAX_REACTIVE_RETRIES {
            Stepped { state: s, messages: ms, action: ActionView::Compact }
        } else {
            fail(s, ms, e)
        },
        client::ResultView::Failure(e) => fail(s, ms, e),
        client::ResultView::Cancelled => fail(s, ms, error::ErrorView::Other("Cancelled"@)),
    }
}

/// What an event leads to.
pub open spec fn stepped(s: LoopView, ms: Seq<client::MessageView>, event: LoopEvent) -> Stepped {
    match event {
        LoopEvent::Started => new_turn(s, ms),
        LoopEvent::Collected => after_reports(s, ms),
        LoopEvent::Jobs(js) => after_jobs(
            LoopView { waiting: jobs(js@), ..s },
            ms + job_messages(jobs(js@)),
        ),
        LoopEvent::Drained(stop) => if stop {
            finish(s, ms, Ok(LoopOutcome::Completed))
        } else {
            Stepped { state: s, messages: ms, action: ActionView::Prepare }
        },
        LoopEvent::Prepared(r) => match r {
            Ok(_) => Stepped { state: s, messages: ms, action: ActionView::Call },
            Err(e) => finish(s, ms, Err(e@)),
        },
        LoopEvent::Called(result) => after_call(s, ms, result@),
        LoopEvent::Compacted(r) => match r {
            Ok(_) => new_turn(LoopView { retries: (s.retries + 1) as u32, ..s }, ms),
            Err(e) => finish(s, ms, Err(e@)),
        },
        LoopEvent::Stopping(forced) => match forced {
            Some(f) => new_turn(s, ms.push(client::text_message("user"@, f@))),
            None => Stepped { state: s, messages: ms, action: ActionView::Remember },
        },
        LoopEvent::ToolsRun(more) => new_turn(s, ms + client::messages(more@)),
        LoopEvent::Remembered(stored) => if stored > 0 {
            Stepped { state: s, messages: ms, action: ActionView::Consolidate }
        } else {
            finish(s, ms, Ok(LoopOutcome::Completed))
        },
        LoopEvent::Consolidated => finish(s, ms, Ok(LoopOutcome::Completed)),
    }
}

impl LoopState {
    /// The loop of an agent before it begins.
    pub fn new(agent: &Agent) -> (r: Self)
        ensures
            r@ == (LoopView {
                kind: agent.kind,
                has_cron: agent.has_cron,
                in_team: agent.in_team,
                max_turns: agent.max_turns as nat,
                turn: 0,
                retries: 0,
                scheduled_start: 0,
                waiting: Seq::empty(),
            }),
    {
        let r = LoopState {
            kind: agent.kind,
            has_cron: agent.has_cron,
            in_team: agent.in_team,
            max_turns: agent.max_turns,
            turn: 0,
            retries: 0,
            scheduled_start: 0,
            waiting: Vec::new(),
        };
        assert(r@.waiting =~= Seq::<JobView>::empty());
        r
    }

    fn end(outcome: Result<LoopOutcome, AgentError>) -> (r: LoopAction)
        ensures
            r@ == (ActionView::Finish {
                restore: Seq::empty(),
                outcome: match outcome {
                    Ok(o) => Ok(o),
                    Err(e) => Err(e@),
                },
            }),
    {
        let restore: Vec<CronJob> = Vec::new();
        assert(jobs(restore@) =~= Seq::<JobView>::empty());
        LoopAction::Finish { restore, outcome }
    }

    fn take_waiting(&mut self) -> (r: Vec<CronJob>)
        ensures
            jobs(r@) == old(self)@.waiting,
            final(self)@ == (LoopView { waiting: Seq::empty(), ..old(self)@ }),
    {
        let mut none: Vec<CronJob> = Vec::new();
        assert(jobs(none@) =~= Seq::<JobView>::empty());
        std::mem::swap(&mut none, &mut self.waiting);
        none
    }

    fn past_jobs(&self) -> (r: LoopAction)
        ensures
            forall|ms: Seq<client::MessageView>| r@ == #[trigger] after_jobs(self@, ms).action,
    {
        if self.kind == AgentKind::Teammate && self.in_team {
            LoopAction::Drain
        } else {
            LoopAction::Prepare
        }
    }

    fn past_reports(&mut self, messages: &Vec<Message>) -> (r: LoopAction)
        ensures
            (Stepped {
                state: final(self)@,
                messages: client::messages(messages@),
                action: r@,
            }) == after_reports(old(self)@, client::messages(messages@)),
    {
        let ghost ms = client::messages(messages@);
        assert(ms.len() == messages@.len());
        self.scheduled_start = messages.len();
        if self.has_cron {
            LoopAction::TakeJobs
        } else {
            let r = self.past_jobs();
            assert(r@ == after_jobs(self@, ms).action);
            r
        }
    }

    fn next_turn(&mut self, messages: &Vec<Message>) -> (r: LoopAction)
        ensures
            (Stepped {
                state: final(self)@,
                messages: client::messages(messages@),
                action: r@,
            }) == new_turn(old(self)@, client::messages(messages@)),
    {
        if self.turn >= self.max_turns {
            return LoopState::end(Ok(LoopOutcome::MaxTurnsReached));
        }
        self.turn = self.turn + 1;
        let _dropped = self.take_waiting();
        if self.kind == AgentKind::Lead {
            LoopAction::Collect
        } else {
            self.past_reports(messages)
        }
    }

    fn give_up(&mut self, messages: &mut Vec<Message>, e: AgentError) -> (r: LoopAction)
        ensures
            (Stepped {
                state: final(self)@,
                messages: client::messages(final(messages)@),
                action: r@,
            }) == fail(old(self)@, client::messages(old(messages)@), e@),
    {
        let ghost ms = client::messages(messages@);
        assert(ms.len() == messages@.len());
        assert(self@.waiting.len() == self.waiting@.len());
        if self.waiting.len() > 0 && self.scheduled_start <= messages.len() {
            messages.truncate(self.scheduled_start);
            assert(client::messages(messages@) =~= cut(ms, self.scheduled_start as nat));
        }
        let restore = self.take_waiting();
        LoopAction::Finish { restore, outcome: Err(e) }
    }

    fn past_call(&mut self, messages: &mut Vec<Message>, result: CallResult) -> (r: LoopAction)
        ensures
            (Stepped {
                state: final(self)@,
                messages: client::messages(final(messages)@),
                action: r@,
            }) == after_call(old(self)@, client::messages(old(messages)@), result@),
    {
        match result {
            CallResult::Success(reply) => {
                let ghost ms = client::messages(messages@);
                self.retries = 0;
                let wants_tools = text::same(reply.stop_reason.as_str(), "tool_use");
                let calls = tool_calls(&reply.content);
                let said = Message::assistant_content(reply.content);
                messages.push(said);
                assert(client::messages(messages@) =~= ms.push(said@));
                let confirm = self.take_waiting();
                if wants_tools {
                    LoopAction::RunTools { confirm, calls }
                } else {
                    LoopAction::AskStop { confirm }
                }
            },
            CallResult::PromptTooLong(e) => if self.retries < compact::MAX_REACTIVE_RETRIES {
                LoopAction::Compact
            } else {
                self.give_up(messages, e)
            },
            CallResult::Failure(e) => self.give_up(messages, e),
            CallResult::Cancelled => self.give_up(
                messages,
                AgentError::Other("Cancelled".to_string()),
            ),
        }
    }

    fn deliver(messages: &mut Vec<Message>, due: &Vec<CronJob>)
        ensures
            client::messages(final(messages)@) == client::messages(old(messages)@)
                + job_messages(jobs(due@)),
    {
        let ghost ms = client::messages(messages@);
        let ghost more = job_messages(jobs(due@));
        let mut i: usize = 0;
        assert(client::messages(messages@) =~= ms + more.take(0));
        while i < due.len()
            invariant
                i <= due@.len(),
                more == job_messages(jobs(due@)),
                client::messages(messages@) == ms + more.take(i as int),
            decreases due@.len() - i,
        {
            let ghost before = client::messages(messages@);
            let note = "[Scheduled] ".to_string().concat(due[i].prompt.as_str());
            let m = Message::user_text(note.as_str());
            messages.push(m);
            assert(client::messages(messages@) =~= before.push(m@));
            assert(more[i as int] == m@);
            assert(client::messages(messages@) =~= ms + more.take(i + 1));
            i += 1;
        }
        assert(more.take(more.len() as int) =~= more);
    }

    /// Takes the outcome of the last action, brings the conversation up to date and names
    /// the next action.
    pub fn step(&mut self, messages: &mut Vec<Message>, event: LoopEvent) -> (r: LoopAction)
        requires
            event is Compacted ==> old(self).retries < compact::MAX_REACTIVE_RETRIES,
        ensures
            (Stepped {
                state: final(self)@,
                messages: client::messages(final(messages)@),
                action: r@,
            }) == stepped(old(self)@, client::messages(old(messages)@), event),
    {
        let ghost ms = client::messages(messages@);
        match event {
            LoopEvent::Started => self.next_turn(messages),
            LoopEvent::Collected => self.past_reports(messages),
            LoopEvent::Jobs(due) => {
                LoopState::deliver(messages, &due);
                self.waiting = due;
                let r = self.past_jobs();
                assert(r@ == after_jobs(self@, client::messages(messages@)).action);
                r
            },
            LoopEvent::Drained(stop) => if stop {
                LoopState::end(Ok(LoopOutcome::Completed))
            } else {
                LoopAction::Prepare
            },
            LoopEvent::Prepared(r) => match r {
                Ok(_) => LoopAction::Call,
                Err(e) => LoopState::end(Err(e)),
            },
            LoopEvent::Called(result) => self.past_call(messages, result),
            LoopEvent::Compacted(r) => match r {
                Ok(_) => {
                    self.retries = self.retries + 1;
                    self.next_turn(messages)
                },
                Err(e) => LoopState::end(Err(e)),
            },
            LoopEvent::Stopping(forced) => match forced {
                Some(f) => {
                    let m = Message::user_text(f.as_str());
                    messages.push(m);
                    assert(client::messages(messages@) =~= ms.push(m@));
                    self.next_turn(messages)
                },
                None => LoopAction::Remember,
            },
            LoopEvent::ToolsRun(mut more) => {
                let ghost added = client::messages(more@);
                messages.append(&mut more);
                assert(client::messages(messages@) =~= ms + added);
                self.next_turn(messages)
            },
            LoopEvent::Remembered(stored) => if stored > 0 {
                LoopAction::Consolidate
            } else {
                LoopState::end(Ok(LoopOutcome::Completed))
            },
            LoopEvent::Consolidated => LoopState::end(Ok(LoopOutcome::Completed)),
        }
    }
}

/// The law of turns: the loop begins no more turns than it may, and where none is left it
/// ends and says so.
pub proof fn law_turns_are_limited(
    s: LoopView,
    ms: Seq<client::MessageView>,
    event: LoopEvent,
)
    requires
        s.turn <= s.max_turns,
    ensures
        stepped(s, ms, event).state.turn <= s.max_turns,
        stepped(s, ms, event).state.max_turns == s.max_turns,
        s.turn == s.max_turns ==> stepped(s, ms, event).state.turn == s.turn,
        s.turn == s.max_turns && event is ToolsRun ==> stepped(s, ms, event).action == (
        ActionView::Finish {
            restore: Seq::empty(),
            outcome: Ok(LoopOutcome::MaxTurnsReached),
        }),
{
}

/// The law of scheduled prompts: where the call that follows their delivery fails, the
/// conversation is what it was before, and the same prompts are put back.
pub proof fn law_failed_call_puts_prompts_back(
    s: LoopView,
    ms: Seq<client::MessageView>,
    due: Vec<CronJob>,
    result: CallResult,
)
    requires
        s.scheduled_start == ms.len(),
        result@ is Failure || result@ is Cancelled || (result@ is PromptTooLong && s.retries
            >= compact::MAX_REACTIVE_RETRIES),
    ensures
        ({
            let delivered = stepped(s, ms, LoopEvent::Jobs(due));
            let failed = stepped(delivered.state, delivered.messages, LoopEvent::Called(result));
            &&& failed.messages == ms
            &&& failed.action is Finish
            &&& failed.action->restore == jobs(due@)
            &&& failed.action->Finish_outcome is Err
        }),
{
    let delivered = stepped(s, ms, LoopEvent::Jobs(due));
    let more = job_messages(jobs(due@));
    assert((ms + more).take(ms.len() as int) =~= ms);
    if due@.len() == 0 {
        assert(ms + more =~= ms);
    }
    assert(delivered.messages == ms + more);
}

/// The law of confirmation: scheduled prompts are confirmed exactly when the model replied
/// to them, and a prompt that was confirmed is never put back.
pub proof fn law_prompts_are_confirmed_once(
    s: LoopView,
    ms: Seq<client::MessageView>,
    result: CallResult,
    next: CallResult,
)
    requires
        result@ is Success,
    ensures
        ({
            let replied = stepped(s, ms, LoopEvent::Called(result));
            &&& (replied.action is AskStop && replied.action->AskStop_confirm == s.waiting
                || replied.action is RunTools && replied.action->RunTools_confirm == s.waiting)
            &&& replied.state.waiting.len() == 0
            &&& !(stepped(replied.state, replied.messages, LoopEvent::Called(next)).action is Finish
                && stepped(
                replied.state,
                replied.messages,
                LoopEvent::Called(next),
            ).action->restore.len() > 0)
        }),
{
}

/// The law of endings: once the hooks let the loop end, it completes whatever memories were
/// stored, with the conversation as it is; they are consolidated exactly where some were.
pub proof fn law_the_loop_completes(s: LoopView, ms: Seq<client::MessageView>, stored: usize)
    ensures
        ({
            let asked = stepped(s, ms, LoopEvent::Stopping(None));
            let remembered = stepped(asked.state, asked.messages, LoopEvent::Remembered(stored));
            let last = if stored > 0 {
                stepped(remembered.state, remembered.messages, LoopEvent::Consolidated)
            } else {
                remembered
            };
            &&& asked.action == ActionView::Remember
            &&& remembered.action == ActionView::Consolidate <==> stored > 0
            &&& last.messages == ms
            &&& last.action == (ActionView::Finish {
                restore: Seq::empty(),
                outcome: Ok(LoopOutcome::Completed),
            })
        }),
{
}

/// The law of retries: a conversation that is too long is compacted at most
/// [`compact::MAX_REACTIVE_RETRIES`] times in a row; a reply begins the count anew.
pub proof fn law_retries_are_limited(
    s: LoopView,
    ms: Seq<client::MessageView>,
    result: CallResult,
)
    requires
        s.retries <= compact::MAX_REACTIVE_RETRIES,
    ensures
        ({
            let next = stepped(s, ms, LoopEvent::Called(result));
            &&& next.action is Compact <==> result@ is PromptTooLong && s.retries
                < compact::MAX_REACTIVE_RETRIES
            &&& next.action is Compact ==> stepped(
                next.state,
                next.messages,
                LoopEvent::Compacted(Ok(())),
            ).state.retries == s.retries + 1
            &&& result@ is Success ==> next.state.retries == 0
        }),
{
}

} // verus!
