//! The team: tasks, mailboxes, protocols, worktrees, teammates.

use bytemaker::client::{ContentBlock, Message};
use bytemaker::json::Json;
use bytemaker::strmap::StrMap;
use bytemaker::task::{Task, TaskStatus, TaskStore};
use bytemaker::team::assignment::{assignment_cwd, Assignment, AssignmentRegistry};
use bytemaker::team::bus::MessageBus;
use bytemaker::team::checkout::{
    create_worktree, remove_worktree, unbind_tasks, Answer, CreateAction, RemoveAction,
};
use bytemaker::team::inbox::{consume_lead_inbox, drain_inbox, format_team_events};
use bytemaker::team::lifecycle::{
    claim_next_task, extract_last_assistant_text, is_reserved_teammate_name,
    release_completed_assignment, scan_unclaimed_tasks, teammate_system_prompt,
};
use bytemaker::team::plan::{submit_plan, SpawnTeammateTool, SubmitPlanTool};
use bytemaker::team::protocols::{
    GateStatus, ProtocolRegistry, ProtocolState, ProtocolStatus, ProtocolType, RequestIds,
};
use bytemaker::team::runtime::{spawn_teammate_thread, Phase, TeammateRuntime};
use bytemaker::team::worktree::{
    registered_worktree, task_worktree_cwd, validate_worktree_name, worktree_branch, worktree_path,
    GitRegistry,
};
use bytemaker::team::{claim_task, complete_task, TeamCtx, TeammateStatus};
use bytemaker::tools::{AgentKind, PermissionCheck, Tool};

fn task(id: &str) -> Task {
    Task {
        id: id.to_string(),
        subject: "T".to_string(),
        description: "".to_string(),
        status: TaskStatus::Pending,
        owner: None,
        blocked_by: vec![],
        worktree: None,
    }
}

fn git() -> GitRegistry {
    GitRegistry {
        base: base(),
        ok: true,
        output: String::new(),
        dirs: vec![],
    }
}

fn base() -> Result<String, String> {
    Ok("/work/.worktrees".to_string())
}

fn no_git() -> GitRegistry {
    GitRegistry {
        base: base(),
        ok: false,
        output: "not a git repository".to_string(),
        dirs: vec![],
    }
}

fn team(ids: &[&str]) -> TeamCtx {
    let tasks = ids.iter().map(|id| task(id)).collect();
    TeamCtx::new("/work".to_string(), TaskStore::new(tasks))
}

fn claim(team: &mut TeamCtx, id: &str, owner: &str) -> String {
    claim_task(team, id, owner, &git(), Ok(()))
}

fn answer(ok: bool, output: &str) -> Answer {
    Answer { ok, output: output.to_string() }
}

fn json(text: &str) -> Json {
    Json { text: text.to_string() }
}

fn shutdown_req() -> ProtocolState {
    ProtocolState {
        request_id: "req_000001".into(),
        ptype: ProtocolType::Shutdown,
        sender: "lead".into(),
        target: "alice".into(),
        status: ProtocolStatus::Pending,
        payload: String::new(),
        work_version: None,
        task_id: None,
    }
}

fn text_of(m: &Message) -> &str {
    match &m.content[0] {
        ContentBlock::Text { text } => text,
        _ => panic!("a text block"),
    }
}

#[test]
fn no_assignment_returns_workdir() {
    let store = TaskStore::new(vec![]);
    let reg = AssignmentRegistry::new();
    let cwd = assignment_cwd("/work", &store, &reg, "alice", &git()).unwrap();
    assert_eq!(cwd, "/work");
}

#[test]
fn version_advances() {
    let mut reg = AssignmentRegistry::new();
    assert_eq!(reg.version("alice"), 0);
    assert_eq!(reg.advance_version("alice"), 1);
    assert_eq!(reg.advance_version("alice"), 2);
    assert_eq!(reg.version("alice"), 2);
}

#[test]
fn assignment_for_inactive_task_errors() {
    let mut t = task("task_00000001");
    t.owner = Some("alice".to_string());
    let store = TaskStore::new(vec![t]);
    let mut reg = AssignmentRegistry::new();
    reg.set(
        "alice",
        Assignment { task_id: "task_00000001".to_string(), cwd: "/work".to_string() },
    );
    let r = assignment_cwd("/work", &store, &reg, "alice", &git());
    assert!(r.is_err(), "pending task assignment must error, got {:?}", r);
    assert_eq!(reg.snap().len(), 1);
}

#[test]
fn send_then_read_is_destructive() {
    let mut bus = MessageBus::new("/work".to_string());
    bus.send("lead", "alice", "hi", "message", None);
    let msgs = bus.read_inbox("alice");
    assert_eq!(msgs.len(), 1);
    assert_eq!(msgs[0].content, "hi");
    assert_eq!(msgs[0].msg_type, "message");
    assert!(bus.read_inbox("alice").is_empty());
}

#[test]
fn peek_detects_messages() {
    let mut bus = MessageBus::new("/work".to_string());
    assert!(!bus.peek("bob"));
    bus.send("lead", "bob", "x", "message", None);
    assert!(bus.peek("bob"));
}

#[test]
fn invalid_agent_name_rejected() {
    let mut bus = MessageBus::new("/work".to_string());
    bus.send("lead", "../escape", "x", "message", None);
    assert!(!bus.peek("../escape"));
    let boxes = Ok("/work/.mailboxes".to_string());
    assert_eq!(
        bus.mailbox_path(&boxes, "../escape"),
        Err("Invalid mailbox recipient: \"../escape\"".to_string())
    );
    assert_eq!(bus.maildir(), "/work/.mailboxes");
    assert_eq!(bus.mailbox_path(&boxes, "al"), Ok("/work/.mailboxes/al.jsonl".to_string()));
    assert_eq!(bus.mailbox_path(&Err("full".into()), "al"), Err("full".to_string()));
}

#[test]
fn claim_succeeds_for_pending_unowned() {
    let mut team = team(&["task_00000001"]);
    assert!(claim(&mut team, "task_00000001", "alice").starts_with("Claimed"));
    assert_eq!(team.assignments.get("alice").unwrap().task_id, "task_00000001");
}

#[test]
fn claim_blocks_second_owner() {
    let mut team = team(&["task_00000001"]);
    claim(&mut team, "task_00000001", "alice");
    let r = claim(&mut team, "task_00000001", "bob");
    assert!(r.contains("cannot claim"), "second owner must be blocked, got {}", r);
}

#[test]
fn claim_rejects_second_task_same_owner() {
    let mut team = team(&["task_00000001", "task_00000002"]);
    claim(&mut team, "task_00000001", "alice");
    let r = claim(&mut team, "task_00000002", "alice");
    assert!(r.contains("finish current work"));
}

#[test]
fn complete_checks_owner() {
    let mut team = team(&["task_00000001"]);
    claim(&mut team, "task_00000001", "alice");
    let r = complete_task(&mut team, "task_00000001", "bob", Ok(()));
    assert!(r.contains("owned by alice"));
    let r = complete_task(&mut team, "task_00000001", "alice", Ok(()));
    assert_eq!(r, "Completed task_00000001 (T)");
}

#[test]
fn concurrent_claims_one_winner() {
    let mut team = team(&["task_00000001"]);
    let results: Vec<String> = ["alice", "bob", "carol"]
        .iter()
        .map(|name| claim(&mut team, "task_00000001", name))
        .collect();
    let winners = results.iter().filter(|r| r.starts_with("Claimed")).count();
    assert_eq!(winners, 1, "exactly one claim must win, got {:?}", results);
}

#[test]
fn claims_say_why_they_are_refused() {
    let mut team = team(&["task_00000001", "task_00000002"]);
    assert_eq!(claim(&mut team, "task_x", "a"), "Error: Task task_x not found");
    team.task_store.tasks[1].blocked_by = vec!["task_00000001".to_string(), "zz".to_string()];
    assert_eq!(
        claim(&mut team, "task_00000002", "a"),
        "Blocked by: [\"task_00000001\", \"zz\"]"
    );
    let r = claim_task(&mut team, "task_00000001", "a", &git(), Err("disk full".to_string()));
    assert_eq!(r, "Error: disk full");
    assert!(team.assignments.get("a").is_none());
    team.task_store.tasks[0].worktree = Some("missing".to_string());
    let r = claim(&mut team, "task_00000001", "a");
    assert!(r.starts_with("Cannot claim task_00000001: "), "{}", r);
}

#[test]
fn consume_lead_inbox_matches_response() {
    let mut team = team(&[]);
    team.protocols.pending.insert("req_000001", shutdown_req());
    team.bus.send(
        "alice",
        "lead",
        "ack",
        "shutdown_response",
        Some(json(r#"{"request_id":"req_000001","approve":true}"#)),
    );
    let inbox = consume_lead_inbox(&mut team);
    assert_eq!(inbox.len(), 1);
    assert_eq!(
        team.protocols.pending.get("req_000001").unwrap().status,
        ProtocolStatus::Approved
    );
}

#[test]
fn format_team_events_shape() {
    let mut team = team(&[]);
    team.bus.send("alice", "lead", "done", "result", None);
    let inbox = team.bus.read_inbox("lead");
    let s = format_team_events(&inbox);
    assert!(s.starts_with("[Team events]"));
    assert!(s.contains("[result] alice: done"));
}

#[test]
fn match_response_approves_on_valid_pair() {
    let mut reg = ProtocolRegistry::new();
    reg.pending.insert("req_000001", shutdown_req());
    assert!(reg.match_response("shutdown_response", "req_000001", true, "alice", "lead"));
    assert_eq!(reg.pending.get("req_000001").unwrap().status, ProtocolStatus::Approved);
}

#[test]
fn match_response_rejects_wrong_type() {
    let mut reg = ProtocolRegistry::new();
    reg.pending.insert("req_000001", shutdown_req());
    assert!(!reg.match_response("plan_approval_response", "req_000001", true, "alice", "lead"));
}

#[test]
fn match_response_rejects_wrong_role() {
    let mut reg = ProtocolRegistry::new();
    reg.pending.insert("req_000001", shutdown_req());
    assert!(!reg.match_response("shutdown_response", "req_000001", true, "bob", "lead"));
}

#[test]
fn match_response_rejects_double_resolution() {
    let mut reg = ProtocolRegistry::new();
    reg.pending.insert("req_000001", shutdown_req());
    assert!(reg.match_response("shutdown_response", "req_000001", true, "alice", "lead"));
    assert!(
        !reg.match_response("shutdown_response", "req_000001", true, "alice", "lead"),
        "already-approved request must not resolve twice"
    );
}

#[test]
fn gate_blocks_mutating_tools_states() {
    assert!(GateStatus::Required.blocks_mutating_tools());
    assert!(GateStatus::Pending.blocks_mutating_tools());
    assert!(GateStatus::Rejected.blocks_mutating_tools());
    assert!(!GateStatus::NotRequired.blocks_mutating_tools());
    assert!(!GateStatus::Approved.blocks_mutating_tools());
}

#[test]
fn request_ids_differ() {
    let mut reg = ProtocolRegistry::new();
    let mut ids = RequestIds::new();
    let a = reg.new_request_id(&mut ids);
    reg.pending.insert(&a, shutdown_req());
    let b = reg.new_request_id(&mut ids);
    assert_ne!(a, b);
    assert!(a.starts_with("req_") && a.len() == 10);
    assert_eq!((a.as_str(), b.as_str(), ids.count), ("req_000000", "req_000001", 2));
    let other = ProtocolRegistry::new();
    assert_eq!(other.new_request_id(&mut ids), "req_000002");
    let mut again = RequestIds { count: 1_000_000 };
    assert_eq!(reg.new_request_id(&mut again), "req_000001");
    assert_eq!(again.count, 1_000_002);
    let mut last = RequestIds { count: u32::MAX };
    assert_eq!(reg.new_request_id(&mut last), "req_967295");
    assert_eq!(last.count, 0);
}

#[test]
fn reserved_names_rejected() {
    assert!(is_reserved_teammate_name("lead"));
    assert!(is_reserved_teammate_name("Lead"));
    assert!(is_reserved_teammate_name("agent"));
    assert!(!is_reserved_teammate_name("alice"));
}

fn spawn(team: &mut TeamCtx, name: &str, task_id: Option<&str>) -> (String, bool) {
    spawn_teammate_thread(team, name, "r", task_id, false, &git(), Ok(()))
}

#[test]
fn spawn_rejects_invalid_and_reserved() {
    let mut team = team(&[]);
    let (r, started) = spawn(&mut team, "../x", None);
    assert!(r.contains("Invalid"));
    assert!(!started);
    let (r, _) = spawn(&mut team, "lead", None);
    assert!(r.contains("reserved"));
}

#[test]
fn spawn_rejects_duplicate() {
    let mut team = team(&[]);
    let (r1, started) = spawn(&mut team, "alice", None);
    assert!(r1.contains("spawned"));
    assert!(started);
    let (r2, _) = spawn(&mut team, "alice", None);
    assert!(r2.contains("already exists"));
    let (r3, _) = spawn(&mut team, "ALICE", None);
    assert!(r3.contains("already exists"));
}

#[test]
fn spawn_with_bad_task_does_not_spawn() {
    let mut team = team(&[]);
    let (r, started) = spawn(&mut team, "alice", Some("task_00000000"));
    assert!(r.contains("Cannot spawn"), "bad task_id must prevent spawn, got {}", r);
    assert!(!started);
    assert!(!team.active.contains_key("alice"));
}

#[test]
fn a_teammate_begins_with_its_task() {
    let mut team = team(&["task_00000001"]);
    let (_, started) = spawn(&mut team, "alice", Some("task_00000001"));
    assert!(started);
    let rt = TeammateRuntime::new("alice".to_string(), "Hello", &team);
    assert_eq!(rt.messages.len(), 1);
    assert_eq!(
        text_of(&rt.messages[0]),
        "Hello\n\n[Assigned task task_00000001] T\n\nWork directory: /work"
    );
}

#[test]
fn a_turn_reports_its_result_and_waits() {
    let mut team = team(&["task_00000001"]);
    spawn(&mut team, "alice", Some("task_00000001"));
    let mut rt = TeammateRuntime::new("alice".to_string(), "Hello", &team);
    rt.messages.push(Message::assistant_text("all done"));
    complete_task(&mut team, "task_00000001", "alice", Ok(()));
    assert_eq!(rt.after_work(&mut team), Phase::Idle);
    assert!(team.assignments.get("alice").is_none());
    assert_eq!(team.active.get("alice"), Some(&TeammateStatus::Idle));
    let mail = team.bus.read_inbox("lead");
    assert_eq!(mail.len(), 2);
    assert_eq!((mail[0].msg_type.as_str(), mail[0].content.as_str()), ("result", "all done"));
    assert_eq!(mail[1].msg_type, "idle_notification");
}

#[test]
fn an_idle_teammate_takes_messages_before_tasks() {
    let mut team = team(&["task_00000001"]);
    spawn(&mut team, "alice", None);
    let mut rt = TeammateRuntime::new("alice".to_string(), "Hello", &team);
    team.bus.send("lead", "alice", "look at x", "message", None);
    assert_eq!(rt.look_for_work(&mut team, &git(), &[]), Phase::Continue);
    assert_eq!(text_of(&rt.messages[1]), "[Message from lead] look at x");
    assert_eq!(rt.look_for_work(&mut team, &git(), &[]), Phase::Continue);
    assert_eq!(
        text_of(&rt.messages[2]),
        "[Auto-claimed task task_00000001] T\n\nWork directory: /work"
    );
    assert_eq!(rt.look_for_work(&mut team, &git(), &[]), Phase::Idle);
    rt.retire(&mut team);
    assert!(!team.active.contains_key("alice"));
    assert_eq!(team.task_store.tasks[0].status, TaskStatus::Pending);
    assert!(team.task_store.tasks[0].owner.is_none());
}

#[test]
fn an_accepted_shutdown_stops_a_teammate() {
    let mut team = team(&[]);
    spawn(&mut team, "alice", None);
    team.protocols.pending.insert("req_000001", shutdown_req());
    team.bus.send(
        "lead",
        "alice",
        "",
        "shutdown_request",
        Some(json(r#"{"request_id":"req_000001"}"#)),
    );
    let mut messages: Vec<Message> = vec![];
    assert!(drain_inbox(&mut team, "alice", &mut messages));
    assert_eq!(team.active.get("alice"), Some(&TeammateStatus::Stopping));
    let rt = TeammateRuntime { name: "alice".to_string(), messages };
    assert_eq!(rt.after_work(&mut team), Phase::Stop);
    let mail = team.bus.read_inbox("lead");
    assert_eq!(mail[0].metadata.text, r#"{"request_id":"req_000001","approve":true}"#);
}

#[test]
fn submit_plan_sets_pending_gate() {
    let mut team = team(&[]);
    let r = submit_plan(&mut team, &mut RequestIds::new(), "alice", "step 1; step 2");
    assert!(r.contains("submitted"));
    assert_eq!(team.protocols.gate("alice"), GateStatus::Pending);
    assert!(team.bus.peek("lead"));
}

#[test]
fn submit_plan_rejects_duplicate() {
    let mut team = team(&[]);
    submit_plan(&mut team, &mut RequestIds::new(), "alice", "plan a");
    let r = submit_plan(&mut team, &mut RequestIds::new(), "alice", "plan b");
    assert!(r.contains("already waiting"));
}

fn approval(id: &str) -> Json {
    json(&format!("{{\"request_id\":\"{}\",\"approve\":true}}", id))
}

#[test]
fn an_approved_plan_opens_the_way_and_a_stale_one_does_not() {
    let mut team = team(&["task_00000001"]);
    submit_plan(&mut team, &mut RequestIds::new(), "alice", "plan");
    let id = team.bus.read_inbox("lead")[0].request_id().unwrap();
    claim(&mut team, "task_00000001", "alice");
    let mut messages: Vec<Message> = vec![];
    team.bus.send("lead", "alice", "go", "plan_approval_response", Some(approval(&id)));
    drain_inbox(&mut team, "alice", &mut messages);
    assert_eq!(text_of(&messages[0]), "[Ignored plan response: request mismatch]");
    assert_eq!(team.protocols.gate("alice"), GateStatus::Pending);

    let mut team = self::team(&[]);
    submit_plan(&mut team, &mut RequestIds::new(), "bob", "plan");
    let id = team.bus.read_inbox("lead")[0].request_id().unwrap();
    team.bus.send("lead", "bob", "go", "plan_approval_response", Some(approval(&id)));
    drain_inbox(&mut team, "bob", &mut messages);
    assert_eq!(text_of(&messages[1]), "[Plan approved] go");
    assert_eq!(team.protocols.gate("bob"), GateStatus::Approved);
}

#[test]
fn a_rejected_plan_is_told_and_keeps_changes_blocked() {
    let mut team = team(&[]);
    submit_plan(&mut team, &mut RequestIds::new(), "bob", "plan");
    let id = team.bus.read_inbox("lead")[0].request_id().unwrap();
    let no = json(&format!("{{\"request_id\":\"{}\",\"approve\":false}}", id));
    team.bus.send("lead", "bob", "too broad", "plan_approval_response", Some(no));
    let mut messages: Vec<Message> = vec![];
    assert!(!drain_inbox(&mut team, "bob", &mut messages));
    assert_eq!(text_of(&messages[0]), "[Plan rejected] too broad");
    assert_eq!(team.protocols.gate("bob"), GateStatus::Rejected);
    assert!(team.protocols.gate("bob").blocks_mutating_tools());
    assert_eq!(team.protocols.pending.get(&id).unwrap().status, ProtocolStatus::Rejected);
    assert!(team.protocols.plan_request_ids.get("bob").is_none());
    assert_eq!(team.active.get("bob"), Some(&TeammateStatus::Working));
    assert!(submit_plan(&mut team, &mut RequestIds::new(), "bob", "smaller plan").contains("submitted"));
}

#[test]
fn plan_and_teammate_tools_are_described() {
    assert_eq!(SubmitPlanTool.name(), "submit_plan");
    assert!(SubmitPlanTool.available_for(AgentKind::Teammate));
    assert!(!SubmitPlanTool.available_for(AgentKind::Lead));
    assert_eq!(SubmitPlanTool.check_permission(&json("{}")), PermissionCheck::Pass);
    assert_eq!(SubmitPlanTool.plan(&json(r#"{"plan":"a"}"#)), "a");
    assert_eq!(SpawnTeammateTool.name(), "spawn_teammate");
    assert!(SpawnTeammateTool.available_for(AgentKind::Lead));
    assert!(!SpawnTeammateTool.available_for(AgentKind::Teammate));
    let schema: serde_json::Value =
        serde_json::from_str(&SpawnTeammateTool.input_schema().text).unwrap();
    assert_eq!(schema["required"][2], "prompt");
    assert_eq!(schema["properties"]["name"]["pattern"], "^[A-Za-z0-9_-]{1,64}$");
    let q = SpawnTeammateTool.request(&json(r#"{"name":"al","require_plan":true}"#));
    assert_eq!((q.name.as_str(), q.role.as_str(), q.require_plan), ("al", "", true));
    assert!(q.task_id.is_none());
}

#[test]
fn validate_rejects_bad_names() {
    assert!(validate_worktree_name("../x").is_some());
    assert!(validate_worktree_name(".hidden").is_some());
    assert!(validate_worktree_name(&"a".repeat(65)).is_some());
    assert!(validate_worktree_name("auth-refactor").is_none());
    assert!(validate_worktree_name("a.b-c_d").is_none());
}

#[test]
fn task_worktree_cwd_no_binding_returns_workdir() {
    let (cwd, err) = task_worktree_cwd("/work", &task("task_12345678"), &no_git());
    assert_eq!(cwd, "/work");
    assert!(err.is_none());
}

#[test]
fn task_worktree_cwd_broken_binding_errors() {
    let mut t = task("task_12345678");
    t.worktree = Some("missing".into());
    let (_cwd, err) = task_worktree_cwd("/work", &t, &no_git());
    assert!(err.is_some(), "broken worktree binding must produce an error");
}

#[test]
fn create_worktree_rejects_non_git_workdir() {
    let team = team(&["task_00000001"]);
    let mut creation = match create_worktree(&team, "auth", "task_00000001", &base(), false) {
        Ok(c) => c,
        Err(e) => panic!("the request is fine: {}", e),
    };
    let r = match creation.advance(answer(false, "")) {
        CreateAction::Report(r) => r,
        _ => panic!("nothing more to do"),
    };
    assert!(
        r.contains("must be the root of a Git repository"),
        "non-git workdir must be rejected, got {}",
        r
    );
}

#[test]
fn create_worktree_rejects_non_pending_task() {
    let mut team = team(&["task_00000001"]);
    claim(&mut team, "task_00000001", "alice");
    assert!(create_worktree(&team, "auth", "task_00000001", &base(), false).is_err());
}

#[test]
fn a_worktree_is_made_and_bound_step_by_step() {
    let team = team(&["task_00000001"]);
    let mut c = create_worktree(&team, "auth", "task_00000001", &base(), false).ok().unwrap();
    let format = c.advance(answer(true, ""));
    assert!(matches!(format, CreateAction::Git(ref a) if a[0] == "check-ref-format"));
    let exists = c.advance(answer(true, ""));
    assert!(matches!(exists, CreateAction::Git(ref a) if a[3] == "refs/heads/wt/auth"));
    let add = c.advance(answer(false, ""));
    assert!(matches!(add, CreateAction::Git(ref a) if a[4] == "/work/.worktrees/auth"));
    match c.advance(answer(true, "")) {
        CreateAction::Save(t) => assert_eq!(t.worktree.as_deref(), Some("auth")),
        _ => panic!("the task is saved"),
    }
    match c.advance(answer(true, "")) {
        CreateAction::Report(r) => assert_eq!(
            r,
            "Worktree 'auth' created at /work/.worktrees/auth for task task_00000001"
        ),
        _ => panic!("done"),
    }
}

#[test]
fn a_failed_worktree_says_what_it_left_behind() {
    let team = team(&["task_00000001"]);
    let mut c = create_worktree(&team, "auth", "task_00000001", &base(), false).ok().unwrap();
    c.advance(answer(true, ""));
    c.advance(answer(true, ""));
    c.advance(answer(false, ""));
    assert!(matches!(c.advance(answer(false, "boom")), CreateAction::Probe(_)));
    c.advance(answer(true, ""));
    match c.advance(answer(false, "")) {
        CreateAction::Report(r) => {
            assert!(r.contains("leaving checkout path '/work/.worktrees/auth'"));
            assert!(r.ends_with("Git error: boom"));
        }
        _ => panic!("done"),
    }
}

#[test]
fn changes_in_a_worktree_keep_it() {
    let mut team = team(&["task_00000001"]);
    team.task_store.tasks[0].worktree = Some("auth".to_string());
    team.task_store.tasks[0].status = TaskStatus::Completed;
    let git = GitRegistry {
        base: base(),
        ok: true,
        output: "worktree /work/.worktrees/auth\nHEAD 1\nbranch refs/heads/wt/auth\n".to_string(),
        dirs: vec!["/work/.worktrees/auth".to_string()],
    };
    let (mut removal, first) =
        remove_worktree(&team, "auth", false, &git, &[], &None).ok().unwrap();
    assert!(matches!(first, RemoveAction::GitInside(_)));
    match removal.advance(answer(true, " M a.rs")) {
        RemoveAction::Report(r) => assert_eq!(
            r,
            "Error: Worktree 'auth' has 1 uncommitted change(s); preserve or discard them manually"
        ),
        _ => panic!("changes are kept"),
    }
    let (mut removal, _) = remove_worktree(&team, "auth", true, &git, &[], &None).ok().unwrap();
    let remove = removal.advance(answer(true, " M a.rs"));
    assert!(matches!(remove, RemoveAction::Git(ref a) if a[2] == "--force"));
    assert!(matches!(removal.advance(answer(true, "")), RemoveAction::Unbind(_)));
}

#[test]
fn worktrees_have_their_own_place_and_branch() {
    assert_eq!(worktree_path(&base(), "auth"), Ok("/work/.worktrees/auth".to_string()));
    assert!(worktree_path(&base(), "a..b").is_err());
    let linked = Ok("/real/.worktrees".to_string());
    assert_eq!(worktree_path(&linked, "auth"), Ok("/real/.worktrees/auth".to_string()));
    assert_eq!(worktree_path(&Err("gone".to_string()), "auth"), Err("gone".to_string()));
    let git = GitRegistry {
        base: linked,
        ok: true,
        output: "worktree /real/.worktrees/auth\nHEAD 1\nbranch refs/heads/wt/auth\n".to_string(),
        dirs: vec!["/real/.worktrees/auth".to_string()],
    };
    assert_eq!(registered_worktree("auth", &git), Ok("/real/.worktrees/auth".to_string()));
    assert!(worktree_branch("auth").ends_with("auth"));
    assert!(registered_worktree("auth", &no_git()).is_err());
}

#[test]
fn unbinding_frees_the_tasks_of_a_worktree() {
    let mut team = team(&["task_00000001"]);
    team.task_store.tasks[0].worktree = Some("auth".to_string());
    unbind_tasks(&mut team, "auth");
    assert!(team.task_store.tasks[0].worktree.is_none());
}

#[test]
fn open_tasks_are_found_and_claimed_in_order() {
    let mut team = team(&["task_00000001", "task_00000002"]);
    team.task_store.tasks[0].blocked_by = vec!["task_00000002".to_string()];
    let open = scan_unclaimed_tasks(&team, &git());
    assert_eq!(open.len(), 1);
    assert_eq!(open[0].id, "task_00000002");
    let none = claim_next_task(&mut team, "al", &git(), &["task_00000002".to_string()]);
    assert!(none.is_none());
    let t = claim_next_task(&mut team, "al", &git(), &[]).unwrap();
    assert_eq!(t.id, "task_00000002");
    assert_eq!(t.owner.as_deref(), Some("al"));
    assert!(!release_completed_assignment(&mut team, "al"));
    complete_task(&mut team, "task_00000002", "al", Ok(()));
    assert!(release_completed_assignment(&mut team, "al"));
}

#[test]
fn results_are_the_last_words_of_the_assistant() {
    assert!(extract_last_assistant_text(&[Message::user_text("x")]).is_none());
    let ms = vec![Message::assistant_text("a"), Message::user_text("x")];
    assert_eq!(extract_last_assistant_text(&ms), Some("a".to_string()));
    assert!(teammate_system_prompt("al", "tester").starts_with("You are 'al', a tester."));
}

#[test]
fn saved_tasks_are_found_again() {
    let mut store = TaskStore::new(vec![task("a"), task("b")]);
    let mut t = store.load("b").unwrap();
    t.subject = "new".to_string();
    store.save(&t);
    assert_eq!(store.load("b").unwrap().subject, "new");
    assert_eq!(store.list().len(), 2);
    assert!(store.load("c").is_none());
}

#[test]
fn a_map_keeps_the_last_value_of_each_key() {
    let mut m: StrMap<u32> = StrMap::new();
    m.insert("a", 1);
    m.insert("b", 2);
    m.insert("a", 3);
    assert_eq!(m.len(), 2);
    assert_eq!(m.get("a"), Some(&3));
    assert_eq!(m.remove("a"), Some(3));
    assert_eq!(m.remove("a"), None);
    assert_eq!(m.keys(), vec!["b".to_string()]);
}
