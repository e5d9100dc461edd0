//! Tasks in the background.

use bytemaker::background::tools::{BackgroundStopHook, TaskOutputTool, TaskStopTool};
use bytemaker::background::{truncate_chars, BackgroundManager, TaskStatus, WorkerEnd};
use bytemaker::client::{ContentBlock, Message};
use bytemaker::json::Json;
use bytemaker::strmap::StrMap;
use bytemaker::tools::{PermissionCheck, Tool};

fn manager() -> BackgroundManager {
    BackgroundManager::new("/out")
}

fn json(text: &str) -> Json {
    Json { text: text.to_string() }
}

fn exited(code: i32, out: &str) -> WorkerEnd {
    WorkerEnd::Exited { code: Some(code), stdout: out.to_string(), stderr: String::new() }
}

/// Starts a task, ends it, and collects its notification.
fn run(mut mgr: BackgroundManager, end: WorkerEnd) -> (String, String) {
    let id = mgr.start("do it", "toolu", 7).ok().unwrap();
    let text = mgr.finish(&id, end);
    let mut outputs: StrMap<String> = StrMap::new();
    outputs.insert(&id, text.clone());
    let got = mgr.collect(&outputs);
    assert_eq!(got.len(), 1);
    assert!(mgr.collect(&outputs).is_empty());
    (got[0].clone(), text)
}

#[test]
fn generate_id_format_and_unique() {
    let mut mgr = manager();
    let mut ids: Vec<String> = Vec::new();
    for i in 0..50 {
        let id = mgr.start("echo", "t", 0).ok().unwrap();
        assert!(id.starts_with("bg_"));
        assert_eq!(id.len(), 11); // "bg_" + 8 hex
        assert!(id[3..].chars().all(|c| c.is_ascii_hexdigit()));
        assert!(!ids.contains(&id), "id collision: {}", id);
        mgr.finalize(&id, TaskStatus::Completed, Some(i));
        ids.push(id);
    }
}

#[test]
fn the_first_free_number_gives_the_id() {
    let mut mgr = manager();
    let first = mgr.start_with("echo", "t", 0, &[0x1234abcd]);
    assert_eq!(first, Ok("bg_1234abcd".to_string()));
    let second = mgr.start_with("echo", "t", 0, &[0x1234abcd, 15]);
    assert_eq!(second, Ok("bg_0000000f".to_string()));
    let none = mgr.start_with("echo", "t", 0, &[0x1234abcd, 15]);
    assert_eq!(none, Err("Error: failed to allocate task id".to_string()));
    assert_eq!(mgr.output_file("bg_0000000f"), Some("/out/bg_0000000f.log".to_string()));
}

#[test]
fn start_completes_and_collect_injects_notification() {
    let mut mgr = manager();
    let id = mgr.start("echo hello_bg", "toolu_1", 1).ok().unwrap();
    assert!(id.starts_with("bg_"));
    let text = mgr.finish(&id, exited(0, "hello_bg\n"));
    assert_eq!(text, "hello_bg");
    let mut outputs: StrMap<String> = StrMap::new();
    outputs.insert(&id, text);
    let got = mgr.collect(&outputs);
    assert_eq!(got.len(), 1, "expected one notification, got: {:?}", got);
    let n = &got[0];
    assert!(n.contains("<task_notification>"));
    assert!(n.contains(&id));
    assert!(n.contains("completed"));
    assert!(n.contains("hello_bg"));

    let again = mgr.collect(&outputs);
    assert!(again.is_empty(), "collect should drain, not repeat");
}

#[test]
fn failed_command_yields_failed_notification() {
    let (note, _) = run(manager(), exited(7, ""));
    assert!(note.contains("failed"), "got: {}", note);
    assert!(note.contains("<exit_code>7</exit_code>"), "exit code in notification: {}", note);
    assert!(note.contains("(no output)"));
}

#[test]
fn timeout_yields_failed_with_consistent_text() {
    let (note, log) = run(BackgroundManager::with_timeout("/out", 1), WorkerEnd::TimedOut);
    assert!(note.contains("failed"), "status must be failed: {}", note);
    assert!(note.contains("none"), "exit_code must be none: {}", note);
    assert_eq!(log, "Error: Timeout (1s)");
}

#[test]
fn stop_cancels_running_task() {
    let mut mgr = BackgroundManager::with_timeout("/out", 60);
    let id = mgr.start("sleep 60", "toolu_4", 1).ok().unwrap();
    let msg = mgr.stop(&id);
    assert!(msg.contains(&format!("[Stopped {}]", id)), "stop msg: {}", msg);
    let text = mgr.finish(&id, WorkerEnd::Cancelled);
    assert_eq!(text, "Cancelled by TaskStop");
    let got = mgr.collect(&StrMap::new());
    assert_eq!(got.len(), 1);
    assert!(got[0].contains("cancelled"), "status must be cancelled: {}", got[0]);
    assert!(got[0].contains("(output unavailable)"));
}

#[test]
fn stop_on_finalized_task_returns_already() {
    let mut mgr = BackgroundManager::with_timeout("/out", 60);
    let id = mgr.start("sleep 60", "toolu_5", 1).ok().unwrap();
    assert!(mgr.stop(&id).contains("[Stopped"));
    mgr.finish(&id, WorkerEnd::Cancelled);
    let second = mgr.stop(&id);
    assert!(second.contains("already"), "got: {}", second);
    assert_eq!(second, format!("Task {} already cancelled", id));
}

#[test]
fn stop_unknown_task_is_noop_error() {
    let msg = manager().stop("bg_deadbeef");
    assert!(msg.contains("not found"), "unknown stop: {}", msg);
}

#[test]
fn every_end_of_a_worker_has_its_text() {
    let (_, t) = run(manager(), WorkerEnd::SpawnFailed("no shell".into()));
    assert_eq!(t, "Error: spawn failed: no shell");
    let (_, t) = run(manager(), WorkerEnd::WaitFailed("gone".into()));
    assert_eq!(t, "Error: wait failed: gone");
    let (note, t) = run(manager(), WorkerEnd::Panicked);
    assert_eq!(t, "Error: worker panicked");
    assert!(note.contains("<status>failed</status>"));
    let killed = WorkerEnd::Exited { code: None, stdout: "a".into(), stderr: "b".into() };
    let (note, t) = run(manager(), killed);
    assert_eq!(t, "a\nb");
    assert!(note.contains("<exit_code>none</exit_code>"));
    let (note, _) = run(manager(), exited(-3, "x"));
    assert!(note.contains("<exit_code>-3</exit_code>"));
}

#[test]
fn no_more_than_eight_tasks_run() {
    let mut mgr = manager();
    assert_eq!(mgr.start("  ", "t", 0), Err("Error: empty command".to_string()));
    let mut last = String::new();
    for _ in 0..8 {
        last = mgr.start("sleep", "t", 0).ok().unwrap();
    }
    assert_eq!(mgr.running_count(), 8);
    let ninth = mgr.start("sleep", "t", 0);
    assert_eq!(
        ninth,
        Err("Error: too many concurrent background tasks (8). Wait for some to finish via TaskOutput."
            .to_string())
    );
    mgr.finish(&last, exited(0, ""));
    assert!(mgr.start("sleep", "t", 0).is_ok());
}

#[test]
fn texts_are_cut_between_characters() {
    assert_eq!(truncate_chars("abc", 5), "abc");
    assert_eq!(truncate_chars("abcdef", 3), "abc");
    assert_eq!(truncate_chars("aé€", 3), "aé");
    assert_eq!(truncate_chars("aé€", 5), "aé");
    assert_eq!(truncate_chars("aé€", 6), "aé€");
    assert_eq!(truncate_chars("é", 1), "");
}

#[test]
fn summaries_hold_five_hundred_characters() {
    let (note, _) = run(manager(), exited(0, &"\u{20ac}".repeat(600)));
    assert_eq!(note.matches('\u{20ac}').count(), 500);
}

#[test]
fn output_shows_a_task() {
    let mut mgr = manager();
    let id = mgr.start_with(" make ", "t", 0, &[1]).ok().unwrap();
    assert!(!mgr.is_done(&id));
    assert!(mgr.keep_waiting(&id, 999, 1000));
    assert!(!mgr.keep_waiting(&id, 1000, 1000));
    assert_eq!(
        mgr.output(&id, None),
        "task_id: bg_00000001\nstatus: running\ncommand: make\nexit_code: none\noutput:\n"
    );
    mgr.finish(&id, exited(2, "boom"));
    assert!(mgr.is_done(&id));
    assert_eq!(
        mgr.output(&id, Some(" boom\n")),
        "task_id: bg_00000001\nstatus: failed\ncommand: make\nexit_code: 2\noutput:\nboom"
    );
    assert_eq!(mgr.output("bg_x", None), "Error: task bg_x not found");
    assert!(mgr.is_done("bg_x"));
    assert!(!mgr.keep_waiting("bg_x", 0, 1000));
    assert!(!mgr.keep_waiting(&id, 0, 1000));
}

#[test]
fn reports_come_as_a_message_or_keep_the_loop_going() {
    let mut mgr = manager();
    let mut messages: Vec<Message> = vec![];
    assert!(mgr.collect_and_inject(&mut messages, &StrMap::new()).is_none());
    assert!(messages.is_empty());
    for n in [1u32, 2] {
        let id = mgr.start_with("x", "t", 0, &[n]).ok().unwrap();
        mgr.finish(&id, exited(0, ""));
    }
    assert_eq!(mgr.collect_and_inject(&mut messages, &StrMap::new()), Some(2));
    assert_eq!(messages.len(), 1);
    assert_eq!(messages[0].role, "user");
    assert!(matches!(&messages[0].content[1], ContentBlock::Text { text } if text.contains("bg_00000002")));
    let hook = BackgroundStopHook;
    assert!(hook.on_stop(&mut mgr, &StrMap::new()).is_none());
    let id = mgr.start_with("x", "t", 0, &[3]).ok().unwrap();
    mgr.finish(&id, exited(0, ""));
    assert!(hook.on_stop(&mut mgr, &StrMap::new()).unwrap().contains("bg_00000003"));
}

#[test]
fn task_output_tool_metadata() {
    let t = TaskOutputTool;
    assert_eq!(t.name(), "task_output");
    assert!(t.description().contains("background"));
    let s: serde_json::Value = serde_json::from_str(&t.input_schema().text).unwrap();
    assert_eq!(s["required"][0], "task_id");
    assert_eq!(s["properties"]["block"]["type"], "boolean");
    assert_eq!(t.check_permission(&json("{}")), PermissionCheck::Pass);
    assert!(t.available_for_subagent());
}

#[test]
fn task_stop_tool_metadata() {
    let t = TaskStopTool;
    assert_eq!(t.name(), "task_stop");
    let s: serde_json::Value = serde_json::from_str(&t.input_schema().text).unwrap();
    assert_eq!(s["required"][0], "task_id");
    assert_eq!(t.check_permission(&json("{}")), PermissionCheck::Pass);
    assert!(t.available_for_subagent());
}

#[test]
fn task_tools_read_their_input() {
    let q = TaskOutputTool.request(&json(r#"{"task_id":"bg_1","block":true,"timeout_ms":5}"#));
    let q = q.ok().unwrap();
    assert_eq!((q.task_id.as_str(), q.block, q.timeout_ms), ("bg_1", true, 5));
    let q = TaskOutputTool.request(&json(r#"{"task_id":"bg_1"}"#)).ok().unwrap();
    assert_eq!((q.block, q.timeout_ms), (false, 30_000));
    assert_eq!(
        TaskOutputTool.request(&json("{}")).err(),
        Some("Error: task_id required".to_string())
    );
    let mut mgr = manager();
    let id = mgr.start_with("x", "t", 0, &[9]).ok().unwrap();
    let (said, signal) = TaskStopTool.execute(&mgr, &json(r#"{"task_id":"bg_00000009"}"#));
    assert_eq!(said, "[Stopped bg_00000009]");
    assert_eq!(signal, Some(id));
    let (said, signal) = TaskStopTool.execute(&mgr, &json("{}"));
    assert_eq!(said, "Error: task_id required");
    assert!(signal.is_none());
}

#[test]
fn collect_on_fresh_manager_is_empty() {
    let mut mgr = BackgroundManager::new("/tmp/bg_test_empty_collect");
    assert!(mgr.collect(&StrMap::new()).is_empty());
}
