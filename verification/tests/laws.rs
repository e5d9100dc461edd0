//! What holds across calls, on chosen values.

use bytemaker::agent::run::{CronJob, LoopAction, LoopEvent, LoopState};
use bytemaker::agent::{Agent, AgentConfig};
use bytemaker::background::{BackgroundManager, WorkerEnd};
use bytemaker::client::{CallResult, Message, MessagesResponse};
use bytemaker::compact::{ContextCompactor, KEEP_RECENT_MESSAGES};
use bytemaker::json::Json;
use bytemaker::memory::{MemoryRecord, MemoryStore, RECALL_CHAR_LIMIT};
use bytemaker::task::{Task, TaskStatus, TaskStore};
use bytemaker::team::inbox::drain_inbox;
use bytemaker::team::protocols::{ProtocolState, ProtocolStatus, ProtocolType};
use bytemaker::team::runtime::{spawn_teammate_thread, TeammateRuntime};
use bytemaker::team::worktree::GitRegistry;
use bytemaker::team::{claim_task, TeamCtx, TeammateStatus};

fn task(id: &str, status: TaskStatus, owner: Option<&str>) -> Task {
    Task {
        id: id.to_string(),
        subject: "T".to_string(),
        description: "".to_string(),
        status,
        owner: owner.map(String::from),
        blocked_by: vec![],
        worktree: None,
    }
}

fn git() -> GitRegistry {
    GitRegistry {
        base: Ok("/work/.worktrees".to_string()),
        ok: true,
        output: String::new(),
        dirs: vec![],
    }
}

fn shutdown(id: &str, target: &str) -> ProtocolState {
    ProtocolState {
        request_id: id.into(),
        ptype: ProtocolType::Shutdown,
        sender: "lead".into(),
        target: target.into(),
        status: ProtocolStatus::Pending,
        payload: String::new(),
        work_version: None,
        task_id: None,
    }
}

#[test]
fn only_open_tasks_are_claimed_and_only_owners_complete() {
    let open = task("t", TaskStatus::Pending, None);
    assert!(open.can_claim(&[]));
    assert!(!open.can_claim(&["other".to_string()]));
    assert!(!open.can_complete("alice"));
    let taken = task("t", TaskStatus::InProgress, Some("alice"));
    assert!(!taken.can_claim(&[]));
    assert!(taken.can_complete("alice"));
    assert!(!taken.can_complete("bob"));
    assert!(!task("t", TaskStatus::Completed, Some("alice")).can_complete("alice"));
}

#[test]
fn who_leaves_gives_the_work_back() {
    let tasks = vec![
        task("task_00000001", TaskStatus::Pending, None),
        task("task_00000002", TaskStatus::Pending, None),
    ];
    let mut team = TeamCtx::new("/work".to_string(), TaskStore::new(tasks));
    let id = Some("task_00000001");
    let (_, started) = spawn_teammate_thread(&mut team, "alice", "r", id, false, &git(), Ok(()));
    assert!(started);
    claim_task(&mut team, "task_00000002", "bob", &git(), Ok(()));
    let rt = TeammateRuntime::new("alice".to_string(), "go", &team);
    rt.retire(&mut team);
    assert!(team.active.get("alice").is_none());
    let left = team.task_store.list();
    assert_eq!(left[0].status, TaskStatus::Pending);
    assert_eq!(left[0].owner, None);
    assert_eq!(left[1].status, TaskStatus::InProgress);
    assert_eq!(left[1].owner.as_deref(), Some("bob"));
}

#[test]
fn a_second_shutdown_is_not_accepted() {
    let mut team = TeamCtx::new("/work".to_string(), TaskStore::new(vec![]));
    spawn_teammate_thread(&mut team, "alice", "r", None, false, &git(), Ok(()));
    for id in ["req_000001", "req_000002"] {
        team.protocols.pending.insert(id, shutdown(id, "alice"));
    }
    let ask = |id: &str| Some(Json { text: format!("{{\"request_id\":\"{}\"}}", id) });
    team.bus.send("lead", "alice", "", "shutdown_request", ask("req_000001"));
    assert!(drain_inbox(&mut team, "alice", &mut vec![]));
    assert_eq!(team.active.get("alice"), Some(&TeammateStatus::Stopping));
    team.bus.send("lead", "alice", "", "shutdown_request", ask("req_000002"));
    assert!(!drain_inbox(&mut team, "alice", &mut vec![]));
}

#[test]
fn an_answer_settles_its_own_request_alone() {
    let mut team = TeamCtx::new("/work".to_string(), TaskStore::new(vec![]));
    for (id, name) in [("req_000001", "alice"), ("req_000002", "bob")] {
        team.protocols.pending.insert(id, shutdown(id, name));
    }
    let settled =
        team.protocols.match_response("shutdown_response", "req_000001", true, "alice", "lead");
    assert!(settled);
    let status = |id: &str| team.protocols.pending.get(id).map(|s| s.status);
    assert_eq!(status("req_000001"), Some(ProtocolStatus::Approved));
    assert_eq!(status("req_000002"), Some(ProtocolStatus::Pending));
}

#[test]
fn starting_a_task_leaves_the_others_alone() {
    let mut m = BackgroundManager::new("/out");
    let first = m.start("a", "t1", 1).ok().unwrap();
    let end = WorkerEnd::Exited { code: Some(0), stdout: "x".into(), stderr: String::new() };
    m.finish(&first, end);
    let shown = m.output(&first, Some("x"));
    m.start("b", "t2", 2).ok().unwrap();
    assert_eq!(m.output(&first, Some("x")), shown);
    assert_eq!(m.running_count(), 1);
}

#[test]
fn recalled_text_is_bounded() {
    let big = |f: &str| (f.to_string(), Some("x".repeat(RECALL_CHAR_LIMIT)));
    let shown = MemoryStore::load_memories(vec![big("a.md"), big("b.md")]);
    assert!(shown.matches('x').count() <= RECALL_CHAR_LIMIT);
    assert!(shown.contains('x'));
}

#[test]
fn recalled_records_are_shown_as_indented_json() {
    let shown = MemoryStore::load_memories(vec![("a.md".into(), Some("say \"hi\"".into()))]);
    assert_eq!(shown, r#"[
  {
    "source": "a.md",
    "content": "say \"hi\""
  }
]"#);
}

#[test]
fn the_question_for_records_numbers_them() {
    let records = vec![MemoryRecord {
        filename: "a.md".into(),
        name: "Tabs \"4\"".into(),
        description: "likes tabs".into(),
        mem_type: "user".into(),
        body: "Use tabs.".into(),
    }];
    let q = MemoryStore::selection_request(&records, &[Message::user_text("tabs?")]).unwrap();
    assert!(q.ends_with("Memory catalog:\n0: Tabs \"4\" - likes tabs"), "{}", q);
    assert!(MemoryStore::selection_request(&[], &[Message::user_text("tabs?")]).is_none());
}

#[test]
fn compaction_does_not_part_a_call_from_its_result() {
    let mut ms: Vec<Message> = (0..20).map(|i| Message::user_text(&format!("m{}", i))).collect();
    let at = 20 - KEEP_RECENT_MESSAGES;
    ms[at - 1] = Message::builder()
        .assistant()
        .tool_use("t1", "command", Json { text: "{}".into() })
        .build();
    ms[at] = Message::builder().user().tool_result("t1", "out").build();
    let c = ContextCompactor::new("/work/t".to_string(), "/work/tr".to_string());
    c.reactive_compact(&mut ms, "do X", "goal: X");
    assert_eq!(ms.len(), 2 + KEEP_RECENT_MESSAGES);
    assert!(ContextCompactor::has_tool_use(&ms[1]));
    assert!(ContextCompactor::is_tool_result(&ms[2]));
}

#[test]
fn scheduled_prompts_are_confirmed_once() {
    let cfg = AgentConfig {
        api_key: "k".into(),
        base_url: "http://localhost".into(),
        model: "m".into(),
        workdir: "/work".into(),
        skills_dir: "/work/skills".into(),
    };
    let agent = Agent::new(cfg, "", 0, "linux", Ok(()), Ok(()), Ok(())).ok().unwrap();
    let mut state = LoopState::new(&agent);
    let mut ms = vec![Message::user_text("hi")];
    let reply = || {
        LoopEvent::Called(CallResult::Success(MessagesResponse {
            content: vec![],
            stop_reason: "end_turn".into(),
        }))
    };
    state.step(&mut ms, LoopEvent::Started);
    let job = CronJob { id: "j".into(), prompt: "p".into() };
    state.step(&mut ms, LoopEvent::Jobs(vec![job]));
    for expected in [1, 0] {
        match state.step(&mut ms, reply()) {
            LoopAction::AskStop { confirm } => assert_eq!(confirm.len(), expected),
            _ => panic!("the hooks are asked"),
        }
    }
}
