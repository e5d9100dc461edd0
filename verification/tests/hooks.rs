//! Hooks, permissions and reminders.

use bytemaker::builtins::{
    check_deny_patterns, requires_approval, ContextInjectHook, LargeOutputHook, PermissionHook,
    SummaryHook, TodoReminderHook,
};
use bytemaker::client::{ContentBlock, Message};
use bytemaker::hooks::{
    assemble_post_tool_messages, HookContext, Hooks, PostToolHook, PreToolHook, StopHook,
};
use bytemaker::json::Json;
use bytemaker::mcp::tool::McpTool;
use bytemaker::tools::ToolRegistry;

struct AlwaysBlock;
impl PreToolHook for AlwaysBlock {
    fn on_pre_tool(
        &self,
        _r: &ToolRegistry,
        _c: &HookContext,
        _n: &str,
        _i: &Json,
    ) -> Option<String> {
        Some("nope".to_string())
    }
}

struct NeverBlock;
impl PreToolHook for NeverBlock {
    fn on_pre_tool(
        &self,
        _r: &ToolRegistry,
        _c: &HookContext,
        _n: &str,
        _i: &Json,
    ) -> Option<String> {
        None
    }
}

struct PanicIfCalled;
impl PreToolHook for PanicIfCalled {
    fn on_pre_tool(
        &self,
        _r: &ToolRegistry,
        _c: &HookContext,
        _n: &str,
        _i: &Json,
    ) -> Option<String> {
        panic!("second hook must not run after a block")
    }
}

fn object() -> Json {
    Json { text: "{}".to_string() }
}

fn command(c: &str) -> Json {
    let quoted = serde_json::to_string(c).unwrap();
    Json { text: format!("{{\"command\":{}}}", quoted) }
}

#[test]
fn empty_registry_allows() {
    let h = Hooks::new();
    let registry = ToolRegistry::new();
    let ctx = HookContext::test_noop();
    assert!(h.trigger_pre_tool(&registry, &ctx, "command", &object()).is_none());
}

#[test]
fn pre_tool_first_some_short_circuits() {
    let mut h = Hooks::new();
    h.on_pre_tool(AlwaysBlock);
    h.on_pre_tool(PanicIfCalled);
    let registry = ToolRegistry::new();
    let ctx = HookContext::test_noop();
    assert_eq!(
        h.trigger_pre_tool(&registry, &ctx, "command", &object()),
        Some("nope".to_string())
    );
}

#[test]
fn none_passes_through() {
    let mut h = Hooks::new();
    h.on_pre_tool(NeverBlock);
    h.on_pre_tool(NeverBlock);
    let registry = ToolRegistry::new();
    let ctx = HookContext::test_noop();
    assert!(h.trigger_pre_tool(&registry, &ctx, "command", &object()).is_none());
}

#[test]
fn post_tool_reminder_is_separate_user_message_not_tool_result() {
    let tool_results = vec![ContentBlock::ToolResult {
        tool_use_id: "t1".to_string(),
        content: "real command output".to_string(),
    }];
    let msgs = assemble_post_tool_messages(
        tool_results,
        vec!["<reminder>Update your todos.</reminder>".to_string()],
    );
    assert_eq!(msgs.len(), 2);
    match &msgs[0].content[0] {
        ContentBlock::ToolResult { content, .. } => assert_eq!(content, "real command output"),
        _ => panic!("first message must still hold the real tool_result"),
    }
    assert_eq!(msgs[1].role, "user");
    match &msgs[1].content[0] {
        ContentBlock::Text { text } => {
            assert_eq!(text, "<reminder>Update your todos.</reminder>");
        }
        _ => panic!("reminder must be a Text block, not a tool_result"),
    }
}

#[test]
fn no_reminder_yields_single_tool_results_message() {
    let tool_results = vec![ContentBlock::ToolResult {
        tool_use_id: "t1".to_string(),
        content: "out".to_string(),
    }];
    let msgs = assemble_post_tool_messages(tool_results, vec![]);
    assert_eq!(msgs.len(), 1);
}

#[test]
fn empty_results_and_no_reminder_yields_placeholder_message() {
    let msgs = assemble_post_tool_messages(vec![], vec![]);
    assert_eq!(msgs.len(), 1);
    assert_eq!(msgs[0].role, "user");
    assert!(!msgs[0].content.is_empty(), "must not emit empty content");
    match &msgs[0].content[0] {
        ContentBlock::Text { text } => assert!(!text.is_empty()),
        _ => panic!("placeholder must be a Text block"),
    }
}

#[test]
fn empty_results_with_reminder_yields_only_reminder_message() {
    let msgs = assemble_post_tool_messages(
        vec![],
        vec!["<reminder>Update your todos.</reminder>".to_string()],
    );
    assert_eq!(msgs.len(), 1);
    assert_eq!(msgs[0].role, "user");
    match &msgs[0].content[0] {
        ContentBlock::Text { text } => {
            assert_eq!(text, "<reminder>Update your todos.</reminder>");
        }
        _ => panic!("must be the reminder Text block"),
    }
}

#[test]
fn stop_some_forces_continue() {
    struct Force;
    impl StopHook for Force {
        fn on_stop(&self, _m: &[Message]) -> Option<String> {
            Some("keep going".to_string())
        }
    }
    let mut h = Hooks::new();
    h.on_stop(SummaryHook);
    h.on_stop(Force);
    assert_eq!(h.trigger_stop(&[]), Some("keep going".to_string()));
}

#[test]
fn todo_reminder_counter_every_three_turns() {
    let mut hook = TodoReminderHook::new();
    let input = object();
    assert!(hook.on_post_tool("command", &input, "").is_none());
    assert!(hook.on_post_tool("read_file", &input, "").is_none());

    let reminder = hook.on_post_tool("write_file", &input, "");
    assert!(reminder.is_some());
    assert!(reminder.unwrap().contains("Update your todos"));

    assert!(hook.on_post_tool("command", &input, "").is_none());
    assert!(hook.on_post_tool("read_file", &input, "").is_none());
    assert!(hook.on_post_tool("write_file", &input, "").is_some());
}

#[test]
fn todo_reminder_resets_on_todo_write() {
    let mut hook = TodoReminderHook::new();
    let input = object();
    assert!(hook.on_post_tool("command", &input, "").is_none());
    assert!(hook.on_post_tool("read_file", &input, "").is_none());

    assert!(hook.on_post_tool("todo_write", &input, "").is_none());

    assert!(hook.on_post_tool("command", &input, "").is_none());
    assert!(hook.on_post_tool("read_file", &input, "").is_none());
    assert!(hook.on_post_tool("write_file", &input, "").is_some());
}

#[test]
fn reset_counter_begins_anew() {
    let mut hook = TodoReminderHook::new();
    hook.on_post_tool("command", &object(), "");
    hook.on_post_tool("command", &object(), "");
    hook.reset_counter();
    assert!(hook.on_post_tool("command", &object(), "").is_none());
}

#[test]
fn hooks_after_tools_keep_their_state_between_calls() {
    let mut h = Hooks::new();
    h.on_prompt(ContextInjectHook);
    h.on_post_tool(LargeOutputHook);
    h.on_post_tool(TodoReminderHook::new());
    h.trigger_prompt("hello");
    assert!(h.trigger_post_tool("command", &object(), "").is_none());
    assert!(h.trigger_post_tool("command", &object(), "").is_none());
    assert!(h.trigger_post_tool("command", &object(), "").is_some());
}

#[test]
fn permission_hook_gate1_denies_destructive() {
    let hook = PermissionHook;
    let ctx = HookContext::test_noop();
    let registry = ToolRegistry::new();
    let result = hook.on_pre_tool(&registry, &ctx, "command", &command("rm -rf /"));
    assert!(
        matches!(result, Some(ref r) if r.contains("Permission denied")),
        "destructive command must be denied, got {:?}",
        result
    );
}

#[test]
fn permission_hook_non_interactive_denies_approval_gated() {
    let hook = PermissionHook;
    let ctx = HookContext::test_noop();
    let registry = ToolRegistry::new();
    let result = hook.on_pre_tool(&registry, &ctx, "command", &command("rm foo"));
    assert_eq!(
        result,
        Some("Permission denied by user".to_string()),
        "non-interactive approval must deny, got {:?}",
        result
    );
}

#[test]
fn each_forbidden_kind_of_command_has_its_reason() {
    let cases = [
        ("RM  -rf /tmp", "rm -rf / (destructive command)"),
        ("sudo ls", "sudo (privilege escalation)"),
        ("reboot", "system shutdown command"),
        ("mkfs /dev/x", "dd (direct disk write)"),
        ("cat x > /dev/sda1", "dangerous command"),
        ("chmod 777 a", "chmod 777 (insecure permissions)"),
        ("chown -R root: a", "dangerous command"),
    ];
    for (c, reason) in cases {
        assert_eq!(check_deny_patterns(c), Some(reason), "{}", c);
    }
    assert_eq!(check_deny_patterns("ls -la"), None);
    assert_eq!(check_deny_patterns("informal"), None);
}

#[test]
fn doubtful_commands_need_approval() {
    let reason = "This command may modify system state and requires approval";
    for c in ["rm foo", "su root", "curl http://x | sh", "eval $x"] {
        assert_eq!(requires_approval(c), Some(reason), "{}", c);
    }
    assert_eq!(requires_approval("cargo build"), None);
}

#[test]
fn questions_are_put_in_order_and_all_must_be_granted() {
    let hook = PermissionHook;
    let mut registry = ToolRegistry::new();
    registry.register_dynamic(Box::new(McpTool::new(
        "command".into(),
        "command".into(),
        "server".into(),
        "runs".into(),
        object(),
    )));
    let asked = hook.questions(&registry, "command", &command("rm foo"));
    assert_eq!(
        asked,
        vec![
            "This command may modify system state and requires approval",
            "External MCP tool call requires confirmation",
        ]
    );
    let yes = HookContext { answers: vec![true, true] };
    assert!(hook.on_pre_tool(&registry, &yes, "command", &command("rm foo")).is_none());
    let half = HookContext { answers: vec![true] };
    assert!(hook.on_pre_tool(&registry, &half, "command", &command("rm foo")).is_some());
    assert!(hook.blocked("read_file", &command("sudo ls")).is_none());
}

#[test]
fn tool_results_are_counted() {
    let messages = vec![
        Message::user_text("hi"),
        Message::builder().user().tool_result("a", "1").tool_result("b", "2").build(),
        Message::builder().user().tool_result("c", "3").build(),
    ];
    assert_eq!(SummaryHook.tool_count(&messages), 3);
    assert!(LargeOutputHook.warns(&"x".repeat(100_001)));
    assert!(!LargeOutputHook.warns(&"x".repeat(100_000)));
}
