//! Compaction of long conversations.

use bytemaker::client::{ContentBlock, Message};
use bytemaker::compact::{
    shorten_for_summary, ContextCompactor, KEEP_RECENT_MESSAGES, LARGE_RESULT_CHAR_LIMIT, SNIP_HEAD, SNIP_MAX_MESSAGES,
    SUMMARY_INPUT_CHAR_LIMIT,
};
use bytemaker::error::AgentError;
use bytemaker::json::Json;

fn user_text(s: &str) -> Message {
    Message::user_text(s)
}

fn assistant_tool_use(id: &str) -> Message {
    Message::builder()
        .assistant()
        .tool_use(id, "command", Json { text: r#"{"command":"ls"}"#.to_string() })
        .build()
}

fn user_tool_result(id: &str, content: &str) -> Message {
    Message::builder().user().tool_result(id, content).build()
}

fn compactor() -> ContextCompactor {
    ContextCompactor::new("/work/t".to_string(), "/work/tr".to_string())
}

fn result_of(m: &Message, i: usize) -> &str {
    match &m.content[i] {
        ContentBlock::ToolResult { content, .. } => content,
        _ => panic!("expected tool_result"),
    }
}

fn text_of(m: &Message) -> &str {
    match &m.content[0] {
        ContentBlock::Text { text } => text,
        _ => panic!("expected text block"),
    }
}

#[test]
fn estimate_chars_grows_with_content() {
    let empty: Vec<Message> = vec![];
    assert!(ContextCompactor::estimate_chars(&empty) <= 2); // "[]" = 2 chars
    let one = vec![user_text("hi")];
    let two = vec![user_text("hi"), user_text("there")];
    assert!(ContextCompactor::estimate_chars(&one) > 0);
    assert!(ContextCompactor::estimate_chars(&two) > ContextCompactor::estimate_chars(&one));
}

#[test]
fn has_tool_use_only_for_assistant_with_tool_use() {
    assert!(ContextCompactor::has_tool_use(&assistant_tool_use("t1")));
    assert!(!ContextCompactor::has_tool_use(&user_text("hello")));
    let text_only = Message::assistant_text("done");
    assert!(!ContextCompactor::has_tool_use(&text_only));
}

#[test]
fn is_tool_result_only_for_user_with_tool_result() {
    assert!(ContextCompactor::is_tool_result(&user_tool_result("t1", "out")));
    assert!(!ContextCompactor::is_tool_result(&user_text("hello")));
    assert!(!ContextCompactor::is_tool_result(&assistant_tool_use("t1")));
}

#[test]
fn write_transcript_creates_jsonl_one_line_per_message() {
    let msgs = vec![user_text("a"), user_text("b")];
    let content = ContextCompactor::write_transcript(&msgs);
    let lines: Vec<&str> = content.lines().collect();
    assert_eq!(lines.len(), 2);
    assert!(lines[0].contains("\"role\":\"user\""));
    assert_eq!(compactor().transcript_path(), "/work/t/transcript.jsonl");
}

#[test]
fn persist_large_output_passes_through_small() {
    let small = "x".repeat(100);
    let (shown, file) = compactor().persist_large_output("t1", &small, true);
    assert_eq!(shown, small);
    assert!(file.is_none());
}

#[test]
fn persist_large_output_writes_file_and_returns_preview() {
    let big = "A".repeat(LARGE_RESULT_CHAR_LIMIT + 1000);
    let (wrapped, file) = compactor().persist_large_output("toolu_01", &big, true);
    assert!(wrapped.contains("<persisted-output>"));
    assert!(wrapped.contains("Full output:"));
    assert!(wrapped.contains("toolu_01.txt"));
    // the preview has exactly 2000 characters
    assert!(wrapped.contains(&"A".repeat(2000)));
    assert!(!wrapped.contains(&"A".repeat(2001)));
    let file = file.expect("the whole output goes to a file");
    assert_eq!(file.path, "/work/tr/toolu_01.txt");
    assert_eq!(file.content.len(), big.len());
}

#[test]
fn persist_large_output_sanitizes_id() {
    let big = "B".repeat(LARGE_RESULT_CHAR_LIMIT + 10);
    let (_wrapped, file) = compactor().persist_large_output("bad/id?:id", &big, true);
    assert_eq!(file.expect("a file").path, "/work/tr/bad_id__id.txt");
}

#[test]
fn tool_result_budget_no_op_under_limit() {
    let mut msgs = vec![user_tool_result("t1", "small output")];
    let files = compactor().tool_result_budget(&mut msgs, true);
    assert_eq!(result_of(&msgs[0], 0), "small output");
    assert!(files.is_empty());
}

#[test]
fn tool_result_budget_persists_largest_over_limit() {
    let big = "Z".repeat(120_000);
    let medium = "Y".repeat(100_000);
    let mut msgs = vec![Message::builder()
        .user()
        .tool_result("big1", &big)
        .tool_result("medium1", &medium)
        .tool_result("small1", "tiny")
        .build()];
    let files = compactor().tool_result_budget(&mut msgs, true);
    assert!(result_of(&msgs[0], 0).contains("<persisted-output>"));
    assert_eq!(result_of(&msgs[0], 1), medium);
    assert_eq!(result_of(&msgs[0], 2), "tiny");
    assert_eq!(files.len(), 1);
    assert_eq!(files[0].path, "/work/tr/big1.txt");
    assert_eq!(files[0].content, big);
}

#[test]
fn tool_result_budget_skips_blocks_under_large_limit_even_if_total_over() {
    let mut blocks = Vec::new();
    for i in 0..10 {
        blocks.push(ContentBlock::ToolResult {
            tool_use_id: format!("m{}", i),
            content: "x".repeat(20_000),
        });
    }
    let mut msgs = vec![Message::user_blocks(blocks)];
    let files = compactor().tool_result_budget(&mut msgs, true);
    for i in 0..10 {
        assert_eq!(result_of(&msgs[0], i).len(), 20_000);
    }
    assert!(files.is_empty());
}

#[test]
fn micro_compact_keeps_recent_three_and_replaces_older() {
    let mut msgs: Vec<Message> =
        (0..5).map(|i| user_tool_result(&format!("t{}", i), &"y".repeat(200))).collect();
    compactor().micro_compact(&mut msgs);
    for m in &msgs[2..5] {
        assert_eq!(result_of(m, 0).len(), 200);
    }
    for m in &msgs[0..2] {
        assert_eq!(result_of(m, 0), "[Earlier tool result omitted.]");
    }
}

#[test]
fn micro_compact_preserves_persisted_path() {
    let persisted = format!(
        "<persisted-output>\nFull output: /tmp/old.txt\nPreview:\n{}\n</persisted-output>",
        "p".repeat(200)
    );
    let mut msgs = vec![
        user_tool_result("t0", &persisted),
        user_tool_result("t1", &"q".repeat(200)),
        user_tool_result("t2", &"r".repeat(200)),
        user_tool_result("t3", &"s".repeat(200)),
    ];
    compactor().micro_compact(&mut msgs);
    assert_eq!(result_of(&msgs[0], 0), "[Earlier tool result saved at /tmp/old.txt]");
}

#[test]
fn summary_input_short_passthrough() {
    let s = compactor().summary_input(&[user_text("hello world")]);
    assert!(s.contains("hello world"));
    assert!(!s.contains("middle omitted"));
}

#[test]
fn summary_input_long_truncates_with_marker() {
    let big = "a".repeat(SUMMARY_INPUT_CHAR_LIMIT + 10_000);
    let s = compactor().summary_input(&[user_text(&big)]);
    assert!(s.contains("middle omitted; full transcript is on disk"));
    assert!(s.len() < big.len());
}

#[test]
fn summary_message_separates_request_and_summary() {
    let m = ContextCompactor::summary_message("Compacted", "do X", "goal: X", "/tmp/t.jsonl");
    assert_eq!(m.role, "user");
    let text = text_of(&m);
    assert!(text.contains("[Compacted]"));
    assert!(text.contains("Current user request:\ndo X"));
    assert!(text.contains("Conversation summary (reference only):\ngoal: X"));
    assert!(text.contains("Full transcript: /tmp/t.jsonl"));
}

#[test]
fn snip_compact_no_op_at_or_under_limit() {
    let mut msgs: Vec<Message> = (0..50).map(|i| user_text(&format!("m{}", i))).collect();
    let before = msgs.len();
    compactor().snip_compact(&mut msgs, SNIP_MAX_MESSAGES);
    assert_eq!(msgs.len(), before);
}

#[test]
fn snip_compact_archives_middle_keeps_head_and_tail() {
    let mut msgs: Vec<Message> = (0..60).map(|i| user_text(&format!("m{}", i))).collect();
    compactor().snip_compact(&mut msgs, SNIP_MAX_MESSAGES);
    assert_eq!(msgs.len(), SNIP_HEAD + 1 + (SNIP_MAX_MESSAGES - SNIP_HEAD));
    assert_eq!(text_of(&msgs[0]), "m0");
    assert!(text_of(&msgs[SNIP_HEAD]).contains("messages archived"));
    assert_eq!(text_of(&msgs[SNIP_HEAD + 1]), "m13");
}

#[test]
fn snip_compact_protects_head_tool_use_pair() {
    let mut msgs: Vec<Message> = vec![
        user_text("m0"),
        user_text("m1"),
        assistant_tool_use("tu1"),
        user_tool_result("tu1", "result"),
    ];
    for i in 4..60 {
        msgs.push(user_text(&format!("m{}", i)));
    }
    compactor().snip_compact(&mut msgs, SNIP_MAX_MESSAGES);
    assert!(msgs.iter().take(4).any(ContextCompactor::has_tool_use));
    assert!(msgs.iter().take(4).any(ContextCompactor::is_tool_result));
}

#[test]
fn snip_compact_protects_tail_tool_result_pair() {
    let mut msgs: Vec<Message> = (0..13).map(|i| user_text(&format!("m{}", i))).collect();
    msgs.push(assistant_tool_use("tuX"));
    msgs.push(user_tool_result("tuX", "r"));
    for i in 15..60 {
        msgs.push(user_text(&format!("m{}", i)));
    }
    compactor().snip_compact(&mut msgs, SNIP_MAX_MESSAGES);
    let tail_has_tool_use = msgs.iter().any(ContextCompactor::has_tool_use);
    let tail_has_tool_result = msgs.iter().any(ContextCompactor::is_tool_result);
    assert!(tail_has_tool_use && tail_has_tool_result);
}

#[test]
fn summaries_come_from_the_text_blocks_of_a_reply() {
    let reply = vec![
        ContentBlock::Text { text: " goal: X".into() },
        ContentBlock::Text { text: "files: a.rs \n".into() },
    ];
    assert_eq!(ContextCompactor::summarize_history(&reply), "goal: X\nfiles: a.rs");
    assert_eq!(ContextCompactor::summarize_history(&[]), "(empty summary)");
}

#[test]
fn compacting_leaves_one_message() {
    let mut msgs: Vec<Message> = (0..4).map(|i| user_text(&format!("m{}", i))).collect();
    compactor().compact_history(&mut msgs, "do X", "goal: X");
    assert_eq!(msgs.len(), 1);
    assert!(text_of(&msgs[0]).contains("goal: X"));
    assert!(text_of(&msgs[0]).contains("/work/t/transcript.jsonl"));
}

#[test]
fn reactive_compaction_keeps_the_newest_messages() {
    let mut msgs: Vec<Message> = (0..20).map(|i| user_text(&format!("m{}", i))).collect();
    compactor().reactive_compact(&mut msgs, "do X", "goal: X");
    assert_eq!(msgs.len(), 1 + KEEP_RECENT_MESSAGES);
    assert_eq!(text_of(&msgs[KEEP_RECENT_MESSAGES]), "m19");
}

#[test]
fn a_failed_transcript_does_not_lose_the_large_results() {
    let mut msgs: Vec<Message> = (0..60).map(|i| user_text(&format!("m{}", i))).collect();
    msgs.push(user_tool_result("big", &"x".repeat(200_001)));
    assert!(compactor().pending_transcript(&msgs, true).is_some());
    let failed = Err(AgentError::FileSystem("full".into()));
    let prepared = compactor().prepare(&mut msgs, true, failed);
    assert_eq!(prepared.outcome.err().unwrap().to_string(), "File system error: full");
    assert_eq!(prepared.files.len(), 1);
    assert_eq!(prepared.files[0].content.len(), 200_001);
    assert_eq!(msgs.len(), 61);
    assert!(result_of(&msgs[60], 0).contains("Full output: /work/tr/big.txt"));
}

#[test]
fn sizes_are_counted_in_characters() {
    let wide = "\u{20ac}".repeat(LARGE_RESULT_CHAR_LIMIT);
    let (shown, file) = compactor().persist_large_output("t1", &wide, true);
    assert_eq!(shown, wide);
    assert!(file.is_none());
    let (shown, file) = compactor().persist_large_output("t1", &format!("{}x", wide), true);
    assert!(shown.starts_with("<persisted-output>"));
    assert!(file.is_some());

    let msgs = vec![user_text("\u{20ac}\u{20ac}")];
    let plain = vec![user_text("ab")];
    assert_eq!(ContextCompactor::estimate_chars(&msgs), ContextCompactor::estimate_chars(&plain));

    let mut batch = vec![Message::builder()
        .user()
        .tool_result("a", "\u{20ac}".repeat(40_000).as_str())
        .tool_result("b", "\u{20ac}".repeat(40_000).as_str())
        .build()];
    assert!(compactor().large_results(&batch, true).is_empty());
    assert!(compactor().tool_result_budget(&mut batch, true).is_empty());
    let mut large = vec![user_tool_result("a", &"x".repeat(200_001))];
    assert_eq!(compactor().large_results(&large, true)[0].path, "/work/tr/a.txt");
    assert_eq!(compactor().tool_result_budget(&mut large, true).len(), 1);

    let mut old: Vec<Message> = (0..4)
        .map(|i| user_tool_result(&format!("t{}", i), &"\u{20ac}".repeat(100)))
        .collect();
    compactor().micro_compact(&mut old);
    assert_eq!(result_of(&old[0], 0), "\u{20ac}".repeat(100));

    let text = "\u{20ac}".repeat(SUMMARY_INPUT_CHAR_LIMIT);
    assert_eq!(shorten_for_summary(text.clone()), text);
}

#[test]
fn preparing_a_short_conversation_changes_nothing() {
    let mut msgs = vec![user_text("hello")];
    assert!(compactor().pending_transcript(&msgs, true).is_none());
    let prepared = compactor().prepare(&mut msgs, true, Ok(()));
    assert!(prepared.files.is_empty());
    assert!(matches!(prepared.outcome, Ok(false)));
    assert_eq!(text_of(&msgs[0]), "hello");
}
