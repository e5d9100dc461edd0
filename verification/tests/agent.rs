//! The agent and its loop.

use bytemaker::agent::run::{tool_calls, CronJob, LoopAction, LoopEvent, LoopState};
use bytemaker::agent::{
    build_base_system, extract_final_text, subagent_turns, Agent, AgentConfig, LoopOutcome,
    ToolRound, MAX_TOKENS, SUB_SYSTEM,
};
use bytemaker::background::{BackgroundManager, WorkerEnd};
use bytemaker::client::{CallResult, ContentBlock, Message, MessagesResponse};
use bytemaker::error::AgentError;
use bytemaker::hooks::HookContext;
use bytemaker::json::Json;
use bytemaker::strmap::StrMap;
use bytemaker::team::protocols::GateStatus;
use bytemaker::tools::{AgentKind, ToolContext, ToolRegistry, ToolResult};

fn config() -> AgentConfig {
    AgentConfig {
        api_key: "test-key".into(),
        base_url: "http://localhost".into(),
        model: "test-model".into(),
        workdir: "/work".into(),
        skills_dir: "/work/skills".into(),
    }
}

fn lead() -> Agent {
    match Agent::new(config(), "", 0, "linux", Ok(()), Ok(()), Ok(())) {
        Ok(a) => a,
        Err(_) => panic!("every part started"),
    }
}

fn command(c: &str) -> Json {
    Json { text: format!("{{\"command\":\"{}\"}}", c) }
}

fn gate(agent: &Agent, status: GateStatus, name: &str, c: &str) -> Option<ToolResult> {
    let ctx = HookContext::test_noop();
    agent.execute_tool(&ToolRegistry::new(), &ctx, status, name, &command(c))
}

fn reply(stop: &str, content: Vec<ContentBlock>) -> LoopEvent {
    LoopEvent::Called(CallResult::Success(MessagesResponse {
        content,
        stop_reason: stop.to_string(),
    }))
}

fn job(id: &str, prompt: &str) -> CronJob {
    CronJob { id: id.to_string(), prompt: prompt.to_string() }
}

#[test]
fn test_agent_constructs_isolated() {
    let a = lead();
    assert!(a.kind == AgentKind::Lead);
    assert_eq!(a.max_turns, usize::MAX);
    assert_eq!(a.max_tokens, MAX_TOKENS);
    assert_eq!(a.owner(), "agent");
    assert_eq!(a.workdir(), "/work");
    assert_eq!(a.skills_len(), 0);
    a.trigger_prompt("hello");
    let _b = lead();
}

#[test]
fn child_agent_shares_infra_and_scopes_per_loop_state() {
    let a = lead();
    let child = a.child_agent(30, "sub");
    assert_eq!(child.client.model, a.client.model);
    assert_eq!(child.client.api_key, a.client.api_key);
    assert_eq!(child.client.base_url, a.client.base_url);
    assert_eq!(child.workdir(), a.workdir());
    assert!(child.kind == AgentKind::Subagent);
    assert_eq!(child.max_turns, 30);
    assert!(!child.has_cron);
    assert!(!child.in_team);
    assert!(child.memory.read_only);
    assert_eq!(child.base_system(), "sub");
    assert!(child.compactor.transcript_dir.starts_with("/work/.subagents/subagent_"));
    let known = a.child_agent_with_id(7, 30, "sub");
    assert_eq!(known.compactor.transcript_dir, "/work/.subagents/subagent_7/.transcripts");
    assert_eq!(
        known.compactor.tool_results_dir,
        "/work/.subagents/subagent_7/.task_outputs/tool-results"
    );
}

#[test]
fn teammates_keep_their_files_apart() {
    let t = lead().child_teammate("alice", "sys");
    assert!(t.kind == AgentKind::Teammate);
    assert_eq!(t.owner(), "alice");
    assert!(t.in_team && !t.has_cron && t.memory.read_only);
    assert_eq!(t.compactor.transcript_dir, "/work/.teammates/alice/.transcripts");
    assert_eq!(t.memory.memory_dir, "/work/.memory");
    assert_eq!(ToolContext { agent: &t }.owner(), "alice");
}

#[test]
fn subagent_execute_tool_runs_pre_tool_denies_destructive() {
    let child = lead().child_agent(30, "sub");
    let result = gate(&child, GateStatus::NotRequired, "command", "rm -rf /");
    assert!(
        matches!(result, Some(ToolResult::Denied { .. })),
        "destructive command must be denied"
    );
}

#[test]
fn agent_new_propagates_task_store_failure() {
    let result = Agent::new(config(), "", 0, "linux", Err("no".into()), Ok(()), Ok(()));
    assert!(result.is_err(), "Agent::new should fail when task store can't be created");
    assert_eq!(result.err().unwrap().to_string(), "task store init: no");
    let result = Agent::new(config(), "", 0, "linux", Ok(()), Err("c".into()), Err("t".into()));
    assert_eq!(result.err().unwrap().to_string(), "cron init: c");
    let result = Agent::new(config(), "", 0, "linux", Ok(()), Ok(()), Err("t".into()));
    assert_eq!(result.err().unwrap().to_string(), "team init: t");
    assert_eq!(
        lead().start_cron_runtime(Err("x".into())).err().unwrap().to_string(),
        "cron start: x"
    );
    assert!(lead().child_agent(1, "s").start_cron_runtime(Err("x".into())).is_ok());
}

#[test]
fn execute_tool_plan_gate_blocks_command_for_teammate() {
    let child = lead().child_teammate("alice", "sub");
    let r = gate(&child, GateStatus::Pending, "command", "ls");
    match r {
        Some(ToolResult::Denied { name, reason }) => {
            assert_eq!(name, "command");
            assert_eq!(
                reason,
                "Blocked: plan status is Pending. Submit or revise the plan and wait for approval."
            );
        }
        _ => panic!("teammate command must be gated"),
    }
    assert!(gate(&child, GateStatus::Pending, "read_file", "").is_none());
    assert!(gate(&lead(), GateStatus::Pending, "command", "ls").is_none());
}

#[test]
fn execute_tool_allows_command_when_approved() {
    let child = lead().child_teammate("alice", "sub");
    let r = gate(&child, GateStatus::Approved, "command", "echo hi");
    assert!(r.is_none(), "should not be gated when approved");
}

#[test]
fn the_system_prompt_lists_skills() {
    let plain = build_base_system("", "/w", "linux");
    assert!(plain.starts_with("You are a coding agent at /w on linux. Before"));
    assert!(plain.ends_with("You can use tools as needed."));
    let full = build_base_system("- pdf", "/w", "linux");
    assert!(full.contains("\n\nSkills available:\n- pdf\n\nUse load_skill to read"));
}

#[test]
fn a_round_of_tools_gives_results_and_reminders() {
    let mut a = lead();
    let mut round = ToolRound::new();
    let input = command("ls");
    for i in 0..3 {
        let id = format!("t{}", i);
        round.note(&mut a.hooks, &id, "command", &input, &ToolResult::Output("out".into()));
    }
    let denied = ToolResult::Denied { name: "command".into(), reason: "no".into() };
    round.note(&mut a.hooks, "t3", "command", &input, &denied);
    let ms = round.finish();
    assert_eq!(ms.len(), 2);
    assert_eq!(ms[0].content.len(), 4);
    assert_eq!(ms[1].content.len(), 1);
    assert!(matches!(&ms[0].content[3], ContentBlock::ToolResult { tool_use_id, content }
        if tool_use_id == "t3" && content == "Error: Tool 'command' denied: no"));
    assert!(matches!(&ms[1].content[0], ContentBlock::Text { text } if text.contains("todos")));
}

#[test]
fn reports_keep_the_loop_going_but_not_for_teammates() {
    let a = lead();
    let mut manager = BackgroundManager::new("/out");
    let id = manager.start("make", "t", 0).ok().unwrap();
    let end = WorkerEnd::Exited { code: Some(0), stdout: "ok".into(), stderr: String::new() };
    let text = manager.finish(&id, end);
    let mut outputs: StrMap<String> = StrMap::new();
    outputs.insert(&id, text);
    let teammate = a.child_teammate("alice", "sys");
    assert!(teammate.stop_reply(&mut manager, &outputs, &[]).is_none());
    let woken = a.stop_reply(&mut manager, &outputs, &[]).unwrap();
    assert!(woken.contains("<task_notification>"));
    assert!(a.stop_reply(&mut manager, &outputs, &[]).is_none());
}

#[test]
fn the_loop_of_a_lead_goes_from_reports_to_the_model() {
    let a = lead();
    let mut state = LoopState::new(&a);
    let mut ms = vec![Message::user_text("hi")];
    assert!(matches!(a.run_loop(&mut state, &mut ms, LoopEvent::Started), LoopAction::Collect));
    assert!(matches!(a.run_loop(&mut state, &mut ms, LoopEvent::Collected), LoopAction::TakeJobs));
    let due = vec![job("j1", "water")];
    assert!(matches!(a.run_loop(&mut state, &mut ms, LoopEvent::Jobs(due)), LoopAction::Prepare));
    assert!(matches!(&ms[1].content[0], ContentBlock::Text { text } if text == "[Scheduled] water"));
    let prepared = LoopEvent::Prepared(Ok(()));
    assert!(matches!(a.run_loop(&mut state, &mut ms, prepared), LoopAction::Call));
    let call = ContentBlock::ToolUse {
        id: "t1".into(),
        name: "glob".into(),
        input: Json { text: "{}".into() },
    };
    match a.run_loop(&mut state, &mut ms, reply("tool_use", vec![call])) {
        LoopAction::RunTools { confirm, calls } => {
            assert_eq!(confirm.len(), 1);
            assert_eq!(confirm[0].id, "j1");
            assert_eq!(calls.len(), 1);
            assert_eq!(calls[0].name, "glob");
        }
        _ => panic!("tools are run"),
    }
    assert_eq!(ms.len(), 3);
    let more = vec![Message::user_text("result")];
    assert!(matches!(
        a.run_loop(&mut state, &mut ms, LoopEvent::ToolsRun(more)),
        LoopAction::Collect
    ));
    assert_eq!(ms.len(), 4);
    assert!(matches!(
        a.run_loop(&mut state, &mut ms, reply("end_turn", vec![])),
        LoopAction::AskStop { .. }
    ));
    assert!(matches!(
        a.run_loop(&mut state, &mut ms, LoopEvent::Stopping(Some("go on".into()))),
        LoopAction::Collect
    ));
    assert!(matches!(
        a.run_loop(&mut state, &mut ms, LoopEvent::Stopping(None)),
        LoopAction::Remember
    ));
    assert!(matches!(
        a.run_loop(&mut state, &mut ms, LoopEvent::Remembered(2)),
        LoopAction::Consolidate
    ));
    assert!(matches!(
        a.run_loop(&mut state, &mut ms, LoopEvent::Consolidated),
        LoopAction::Finish { outcome: Ok(LoopOutcome::Completed), .. }
    ));
    assert!(matches!(
        a.run_loop(&mut state, &mut ms, LoopEvent::Remembered(0)),
        LoopAction::Finish { outcome: Ok(LoopOutcome::Completed), .. }
    ));
}

#[test]
fn a_failed_call_puts_scheduled_prompts_back() {
    let a = lead();
    let mut state = LoopState::new(&a);
    let mut ms = vec![Message::user_text("hi")];
    state.step(&mut ms, LoopEvent::Started);
    state.step(&mut ms, LoopEvent::Collected);
    state.step(&mut ms, LoopEvent::Jobs(vec![job("a", "x"), job("b", "y")]));
    assert_eq!(ms.len(), 3);
    let failed = CallResult::Failure(AgentError::Network("down".into()));
    match state.step(&mut ms, LoopEvent::Called(failed)) {
        LoopAction::Finish { restore, outcome } => {
            assert_eq!(restore.len(), 2);
            assert_eq!(restore[1].prompt, "y");
            assert_eq!(outcome.err().unwrap().to_string(), "Network error: down");
        }
        _ => panic!("the loop ends"),
    }
    assert_eq!(ms.len(), 1);
    match state.step(&mut ms, LoopEvent::Called(CallResult::Cancelled)) {
        LoopAction::Finish { restore, outcome } => {
            assert!(restore.is_empty());
            assert_eq!(outcome.err().unwrap().to_string(), "Cancelled");
        }
        _ => panic!("the loop ends"),
    }
}

#[test]
fn a_prompt_that_is_too_long_is_compacted_once() {
    let a = lead();
    let mut state = LoopState::new(&a);
    let mut ms = vec![Message::user_text("hi")];
    let too_long = || {
        LoopEvent::Called(CallResult::PromptTooLong(AgentError::Api {
            status: 400,
            body: "prompt_too_long".into(),
        }))
    };
    state.step(&mut ms, LoopEvent::Started);
    assert!(matches!(state.step(&mut ms, too_long()), LoopAction::Compact));
    assert!(matches!(state.step(&mut ms, LoopEvent::Compacted(Ok(()))), LoopAction::Collect));
    assert!(matches!(
        state.step(&mut ms, too_long()),
        LoopAction::Finish { outcome: Err(_), .. }
    ));
    state.step(&mut ms, reply("end_turn", vec![]));
    assert!(matches!(state.step(&mut ms, too_long()), LoopAction::Compact));
    let failed = LoopEvent::Prepared(Err(AgentError::FileSystem("full".into())));
    assert!(matches!(state.step(&mut ms, failed), LoopAction::Finish { outcome: Err(_), .. }));
}

#[test]
fn turns_of_a_subagent_are_limited() {
    assert_eq!(subagent_turns(0), 1);
    assert_eq!(subagent_turns(30), 30);
    assert_eq!(subagent_turns(99), 50);
    let child = lead().child_agent(2, SUB_SYSTEM);
    let mut state = LoopState::new(&child);
    let mut ms = vec![Message::user_text("hi")];
    assert!(matches!(state.step(&mut ms, LoopEvent::Started), LoopAction::Prepare));
    assert!(matches!(state.step(&mut ms, LoopEvent::ToolsRun(vec![])), LoopAction::Prepare));
    assert!(matches!(
        state.step(&mut ms, LoopEvent::ToolsRun(vec![])),
        LoopAction::Finish { outcome: Ok(LoopOutcome::MaxTurnsReached), .. }
    ));
    let said = child.run_subagent(Ok(LoopOutcome::MaxTurnsReached), &ms);
    assert_eq!(
        said.ok().unwrap(),
        "Subagent stopped after 2 turns without a final answer."
    );
    assert_eq!(child.run_subagent(Ok(LoopOutcome::Completed), &ms).ok().unwrap(), "(no summary)");
    ms.push(Message::assistant_text("done"));
    assert_eq!(child.run_subagent(Ok(LoopOutcome::Completed), &ms).ok().unwrap(), "done");
    assert!(child.run_subagent(Err(AgentError::Other("e".into())), &ms).is_err());
}

#[test]
fn a_teammate_empties_its_mailbox_first() {
    let t = lead().child_teammate("alice", "s");
    let mut state = LoopState::new(&t);
    let mut ms: Vec<Message> = vec![];
    assert!(matches!(state.step(&mut ms, LoopEvent::Started), LoopAction::Drain));
    assert!(matches!(state.step(&mut ms, LoopEvent::Drained(false)), LoopAction::Prepare));
    assert!(matches!(
        state.step(&mut ms, LoopEvent::Drained(true)),
        LoopAction::Finish { outcome: Ok(LoopOutcome::Completed), .. }
    ));
}

#[test]
fn replies_are_read_block_by_block() {
    let content = vec![
        ContentBlock::Text { text: "a".into() },
        ContentBlock::ToolUse {
            id: "t".into(),
            name: "n".into(),
            input: Json { text: "{}".into() },
        },
        ContentBlock::Text { text: "b".into() },
    ];
    assert_eq!(extract_final_text(&content), Some("a\nb".to_string()));
    assert_eq!(tool_calls(&content).len(), 1);
    assert_eq!(extract_final_text(&[]), None);
}
