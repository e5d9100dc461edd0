//! Memory records: files, recall, extraction, consolidation.

use bytemaker::client::Message;
use bytemaker::consolidate::{
    Consolidation, ConsolidationAction, ConsolidationEvent, FileChange,
};
use bytemaker::error::AgentError;
use bytemaker::json::JsonNode;
use bytemaker::memory::{
    parse_frontmatter, MemoryFile, MemoryFrontmatter, MemoryRecord, MemoryStore, ValidatedRecord,
    CONSOLIDATE_THRESHOLD,
};
use bytemaker::memory_text::{memory_document, memory_slug, split_document, tokenize_query};
use bytemaker::recall::{
    build_system, dialogue_text, extract_json_array, keyword_memory_selection, pick_records,
    recent_user_text, should_store_memory, validate_memory_record,
};

fn store() -> MemoryStore {
    MemoryStore::new("/work/.memory".to_string())
}

fn user_text(s: &str) -> Message {
    Message::user_text(s)
}

/// Reads the header of a document, as the program does.
fn decode(content: &str) -> Option<MemoryFrontmatter> {
    let (header, _) = split_document(content)?;
    let v: serde_yaml::Value = serde_yaml::from_str(&header).ok()?;
    let field = |k: &str| v.get(k).and_then(|x| x.as_str()).map(String::from);
    Some(MemoryFrontmatter {
        name: field("name"),
        description: field("description"),
        mem_type: field("type"),
    })
}

fn file(filename: &str, content: &str) -> MemoryFile {
    MemoryFile {
        filename: filename.to_string(),
        content: content.to_string(),
        front: decode(content),
    }
}

fn written(name: &str, mem_type: &str, description: &str, body: &str) -> MemoryFile {
    let w = store().write_memory_file(name, mem_type, description, body).ok().unwrap();
    file(&w.filename, &w.content)
}

fn record(filename: &str, name: &str, description: &str, body: &str) -> MemoryRecord {
    MemoryRecord {
        filename: filename.into(),
        name: name.into(),
        description: description.into(),
        mem_type: "user".into(),
        body: body.into(),
    }
}

fn vrec(scope: &str, name: &str, desc: &str, body: &str) -> ValidatedRecord {
    ValidatedRecord {
        name: name.into(),
        mem_type: "user".into(),
        description: desc.into(),
        body: body.into(),
        scope: scope.into(),
    }
}

fn object(pairs: &[(&str, &str)]) -> JsonNode {
    JsonNode::Object(
        pairs
            .iter()
            .map(|(k, v)| (k.to_string(), serde_json::to_string(v).unwrap()))
            .collect(),
    )
}

#[test]
fn slug_normalizes_punctuation() {
    assert_eq!(memory_slug("User Preference: Tabs"), "user-preference-tabs");
    assert_eq!(memory_slug("  leading   spaces "), "leading-spaces");
}

#[test]
fn slug_keeps_cjk() {
    assert_eq!(memory_slug("用户偏好"), "用户偏好");
}

#[test]
fn slug_empty_or_all_punct_falls_back() {
    assert_eq!(memory_slug(""), "memory");
    assert_eq!(memory_slug("!!!"), "memory");
    assert_eq!(memory_slug("---"), "memory");
}

#[test]
fn parse_frontmatter_normal() {
    let text = "---\nname: tabs\ndescription: prefer tabs\ntype: user\n---\n\nbody here";
    let (fm, body) = parse_frontmatter(text, decode(text));
    assert_eq!(fm.name.as_deref(), Some("tabs"));
    assert_eq!(fm.description.as_deref(), Some("prefer tabs"));
    assert_eq!(fm.mem_type.as_deref(), Some("user"));
    assert_eq!(body, "body here");
}

#[test]
fn parse_frontmatter_missing_falls_back_to_full_text() {
    let text = "# just a heading\nno fm";
    let (fm, body) = parse_frontmatter(text, decode(text));
    assert!(fm.name.is_none());
    assert_eq!(body, text);
}

#[test]
fn parse_frontmatter_malformed_yaml_falls_back() {
    let text = "---\nname: : :\n---\nbody";
    let (fm, body) = parse_frontmatter(text, decode(text));
    assert!(fm.name.is_none());
    assert!(body.starts_with("---"));
}

#[test]
fn memory_document_round_trips() {
    let doc = memory_document("Tabs", "user", "prefer tabs", "Use tabs for indent.");
    let (fm, body) = parse_frontmatter(&doc, decode(&doc));
    assert_eq!(fm.name.as_deref(), Some("Tabs"));
    assert_eq!(fm.mem_type.as_deref(), Some("user"));
    assert_eq!(body.trim(), "Use tabs for indent.");
}

#[test]
fn headers_hold_awkward_values() {
    let doc = memory_document("a: b #c", "user", "\"quoted\"\nlines", "body");
    let (fm, _) = parse_frontmatter(&doc, decode(&doc));
    assert_eq!(fm.name.as_deref(), Some("a: b #c"));
    assert_eq!(fm.description.as_deref(), Some("\"quoted\"\nlines"));
}

#[test]
fn memory_path_rejects_separators_and_dotdot() {
    let store = store();
    assert!(store.memory_path("a/b.md", false).is_err());
    assert!(store.memory_path("..", false).is_err());
    assert!(store.memory_path(".", false).is_err());
    assert!(store.memory_path("good.md", false).is_ok());
    assert_eq!(store.memory_path("good.md", false), Ok("/work/.memory/good.md".to_string()));
}

#[test]
fn memory_path_rejects_index_unless_allowed() {
    let store = store();
    assert!(store.memory_path("MEMORY.md", false).is_err());
    assert!(store.memory_path("MEMORY.md", true).is_ok());
}

#[test]
fn write_then_read_file_and_index() {
    let w = store()
        .write_memory_file("User preference tabs", "user", "prefer tabs", "Use tabs.")
        .ok()
        .unwrap();
    let slug = memory_slug("User preference tabs");
    let filename = format!("{}.md", slug);
    assert_eq!(w.filename, filename);
    assert_eq!(
        w.content,
        memory_document("User preference tabs", "user", "prefer tabs", "Use tabs.")
    );
    let index = MemoryStore::rebuild_memory_index(&[file(&w.filename, &w.content)]);
    let shown = MemoryStore::read_memory_index(Some(&index));
    assert!(shown.contains(&format!("- [User preference tabs]({}) - prefer tabs", filename)));
    assert_eq!(MemoryStore::read_memory_index(None), "");
}

#[test]
fn write_rejects_bad_input() {
    let store = store();
    assert!(store.write_memory_file("", "user", "d", "b").is_err());
    assert!(store.write_memory_file("n", "bogus", "d", "b").is_err());
    assert!(store.write_memory_file("n", "user", "", "b").is_err());
    assert!(store.write_memory_file("n", "user", "d", "").is_err());
}

#[test]
fn list_memory_files_sorted_and_skips_index() {
    let files = vec![
        written("Beta", "project", "b desc", "b body"),
        file("MEMORY.md", "- index"),
        written("Alpha", "user", "a desc", "a body"),
    ];
    let records = MemoryStore::list_memory_files(&files);
    assert_eq!(records.len(), 2);
    assert_eq!(records[0].filename, "alpha.md");
    assert_eq!(records[0].name, "Alpha");
    assert_eq!(records[1].filename, "beta.md");
    assert!(records.iter().all(|r| r.filename != "MEMORY.md"));
}

#[test]
fn rebuild_index_falls_back_to_stem_and_first_line() {
    let files = vec![file("plain.md", "# Heading\nfirst body line\nsecond")];
    let index = MemoryStore::rebuild_memory_index(&files);
    assert!(index.contains("- [plain](plain.md) - # Heading"), "index was: {}", index);
}

#[test]
fn validate_record_require_scope() {
    let base = [("name", "n"), ("type", "user"), ("description", "d"), ("body", "b")];
    let with = |k: &'static str, v: &'static str| {
        let mut all = base.to_vec();
        all.retain(|p| p.0 != k);
        all.push((k, v));
        object(&all)
    };
    assert!(validate_memory_record(&with("scope", "persistent"), true).is_some());
    assert!(validate_memory_record(&with("scope", "current_task"), true).is_some());
    let bad_scope = with("scope", "other");
    assert!(validate_memory_record(&bad_scope, true).is_none());
    assert!(validate_memory_record(&bad_scope, false).is_some());
    let bad_type = object(&[
        ("name", "n"),
        ("type", "bogus"),
        ("description", "d"),
        ("body", "b"),
        ("scope", "persistent"),
    ]);
    assert!(validate_memory_record(&bad_type, true).is_none());
}

#[test]
fn should_store_rejects_non_persistent() {
    let existing = vec![];
    assert!(!should_store_memory(&vrec("current_task", "n", "d", "b"), &existing));
    assert!(should_store_memory(&vrec("persistent", "n", "d", "b"), &existing));
}

#[test]
fn should_store_rejects_temporary_markers() {
    let cases = ["this session", "本次会话", "current task", "暂时"];
    for m in cases {
        assert!(
            !should_store_memory(&vrec("persistent", "n", "d", m), &[]),
            "marker {} should reject",
            m
        );
    }
    let marker = format!("only for this {} of yours", "task");
    assert!(!should_store_memory(&vrec("persistent", "n", "d", &marker), &[]));
}

#[test]
fn should_store_rejects_duplicates() {
    let existing = vec![record("n.md", "n", "same desc", "other body")];
    assert!(!should_store_memory(&vrec("persistent", "n", "diff", "diff"), &existing));
    assert!(!should_store_memory(&vrec("persistent", "other", "same desc", "diff"), &existing));
    assert!(!should_store_memory(&vrec("persistent", "other", "diff", "other body"), &existing));
    assert!(should_store_memory(&vrec("persistent", "other", "fresh", "fresh"), &existing));
}

#[test]
fn extract_json_array_valid() {
    assert_eq!(extract_json_array("[0, 2]").len(), 2);
}

#[test]
fn extract_json_array_empty_text() {
    assert!(extract_json_array("no array here").is_empty());
}

#[test]
fn extract_json_array_with_leading_text() {
    let v = extract_json_array("Here are the indices:\n[1, 3]\nDone.");
    assert_eq!(v.len(), 2);
    assert_eq!(v[0], "1");
}

#[test]
fn tokenize_query_ascii_and_cjk() {
    let t = tokenize_query("I prefer tabs 用户偏好 ab");
    assert!(t.contains(&"prefer".to_string()));
    assert!(t.contains(&"tabs".to_string()));
    assert!(t.contains(&"用户偏好".to_string()));
    assert!(!t.contains(&"ab".to_string()));
    assert!(!t.contains(&"i".to_string()));
}

#[test]
fn keyword_selection_ranks_and_caps() {
    let records = vec![
        MemoryRecord {
            filename: "a.md".into(),
            name: "prefer tabs".into(),
            description: "indentation".into(),
            mem_type: "user".into(),
            body: "".into(),
        },
        MemoryRecord {
            filename: "b.md".into(),
            name: "database config".into(),
            description: "connection".into(),
            mem_type: "project".into(),
            body: "".into(),
        },
    ];
    let sel = keyword_memory_selection(&records, "tabs indentation prefer", 5);
    assert_eq!(sel, vec!["a.md".to_string()]);
    let capped = keyword_memory_selection(&records, "tabs database", 1);
    assert_eq!(capped.len(), 1);
}

#[test]
fn recent_user_text_caps_turns_and_chars() {
    let msgs: Vec<Message> = (0..5).map(|i| user_text(&format!("turn{}", i))).collect();
    let t = recent_user_text(&msgs, 3);
    assert!(t.contains("turn4") && t.contains("turn2") && !t.contains("turn0"));
    let big = vec![user_text(&"x".repeat(5000))];
    assert!(recent_user_text(&big, 3).chars().count() <= 4000);
}

#[test]
fn dialogue_text_prefixes_role() {
    let msgs = vec![user_text("hello"), Message::assistant_text("hi back")];
    let d = dialogue_text(&msgs, 12);
    assert!(d.contains("user: hello"));
    assert!(d.contains("assistant: hi back"));
}

#[test]
fn build_system_passthrough_when_empty() {
    assert_eq!(build_system("base", "", ""), "base");
}

#[test]
fn build_system_appends_sections() {
    let s = build_system("base", "- [n](n.md) - d", "[recalled]");
    assert!(s.starts_with("base\n\n"));
    assert!(s.contains("Memory is selected background knowledge"));
    assert!(s.contains("Memory catalog:\n- [n](n.md) - d"));
    assert!(s.contains("Relevant memory records:\n[recalled]"));
}

/// A directory after some changes.
fn apply(mut files: Vec<MemoryFile>, changes: Vec<FileChange>) -> Vec<MemoryFile> {
    for c in changes {
        match c {
            FileChange::Remove(f) => files.retain(|x| x.filename != f),
            FileChange::Write { filename, content } => {
                files.retain(|x| x.filename != filename);
                files.push(file(&filename, &content));
            }
        }
    }
    files
}

fn names_of(files: &[MemoryFile]) -> Vec<String> {
    files.iter().map(|f| f.filename.clone()).collect()
}

#[test]
fn replace_records_writes_new_set_and_rebuilds_index() {
    let files = vec![
        written("Old One", "user", "old desc", "old body"),
        written("Old Two", "project", "old2", "old2 body"),
    ];
    let new = vec![vrec("", "Merged", "merged desc", "merged body")];
    let changes = MemoryStore::replace_records(&names_of(&files), &new);
    let files = apply(files, changes);
    let records = MemoryStore::list_memory_files(&files);
    assert_eq!(records.len(), 1);
    assert_eq!(records[0].name, "Merged");
    let index = MemoryStore::rebuild_memory_index(&files);
    assert!(index.contains("Merged"));
    assert!(!index.contains("Old One"));
}

#[test]
fn restore_from_snapshot_recovers_originals() {
    let files = vec![
        written("Keep A", "user", "desc a", "body a"),
        written("Keep B", "project", "desc b", "body b"),
    ];
    let snapshot: Vec<(String, String)> =
        files.iter().map(|f| (f.filename.clone(), f.content.clone())).collect();
    let broken = vec![file("garbage.md", "trash")];
    let changes = MemoryStore::restore_from_snapshot(&names_of(&broken), &snapshot);
    let files = apply(broken, changes);
    let records = MemoryStore::list_memory_files(&files);
    let names: Vec<&str> = records.iter().map(|r| r.name.as_str()).collect();
    assert!(names.contains(&"Keep A"));
    assert!(names.contains(&"Keep B"));
    assert!(!names.contains(&"garbage"));
}

#[test]
fn the_model_picks_records_by_number() {
    let records = vec![record("a.md", "a", "d", "b"), record("b.md", "b", "d", "b")];
    let picked = pick_records(&[Some(1), Some(7), None, Some(1), Some(0)], &records, 5);
    assert_eq!(picked, vec!["b.md".to_string(), "a.md".to_string()]);
    assert_eq!(pick_records(&[Some(1), Some(0)], &records, 1), vec!["b.md".to_string()]);
    let messages = vec![user_text("which editor do I use?")];
    assert!(MemoryStore::selection_request(&records, &messages).is_some());
    assert!(MemoryStore::selection_request(&[], &messages).is_none());
    let chosen = MemoryStore::select_relevant_memories(&records, &messages, Some("[1]"), 5);
    assert_eq!(chosen, vec!["b.md".to_string()]);
}

#[test]
fn without_a_reply_keywords_pick_the_records() {
    let records = vec![
        record("tabs.md", "prefer tabs", "indentation", ""),
        record("db.md", "database", "connection", ""),
    ];
    let messages = vec![user_text("tabs or spaces for indentation?")];
    let chosen = MemoryStore::select_relevant_memories(&records, &messages, None, 5);
    assert_eq!(chosen, vec!["tabs.md".to_string()]);
}

#[test]
fn chosen_records_are_shown_and_missing_ones_passed_over() {
    let shown = MemoryStore::load_memories(vec![
        ("a.md".to_string(), Some("text of a".to_string())),
        ("gone.md".to_string(), None),
    ]);
    assert!(shown.contains("text of a"));
    assert!(!shown.contains("gone"));
}

#[test]
fn extraction_stores_each_worthy_proposal_once() {
    let messages = vec![user_text("I prefer using tabs. Remember that.")];
    let reply = r#"[
        {"name":"Tabs","type":"user","scope":"persistent","description":"likes tabs","body":"Use tabs."},
        {"name":"tabs!","type":"user","scope":"persistent","description":"x","body":"y"},
        {"name":"Now","type":"user","scope":"current_task","description":"z","body":"w"},
        {"name":"Editor","type":"user","scope":"persistent","description":"vim","body":"Uses vim."}
    ]"#;
    assert!(store().extraction_request(&[], &messages).unwrap().contains("(none)"));
    let mut x = store().extract_memories(vec![], &messages, Some(reply)).unwrap();
    let mut names = Vec::new();
    while let Some(c) = x.next() {
        names.push(c.name.clone());
        x.note_stored(&c);
    }
    assert_eq!(names, vec!["Tabs".to_string(), "Editor".to_string()]);
    assert_eq!(x.stored, 2);
    assert_eq!(x.records[1].filename, "editor.md");
}

#[test]
fn a_store_that_may_only_read_extracts_nothing() {
    let reader = MemoryStore::new_read_only("/m".to_string());
    let messages = vec![user_text("remember this")];
    assert!(reader.extraction_request(&[], &messages).is_none());
    assert!(reader.extract_memories(vec![], &messages, Some("[]")).is_none());
    assert!(store().extract_memories(vec![], &[], Some("[]")).is_none());
    assert!(store().extract_memories(vec![], &messages, None).is_none());
}

fn ten_files() -> Vec<MemoryFile> {
    (0..CONSOLIDATE_THRESHOLD)
        .map(|i| written(&format!("p{}", i), "user", "d", &format!("body {}", i)))
        .collect()
}

fn names_left(files: &[(String, String)]) -> Vec<String> {
    files.iter().map(|f| f.0.clone()).collect()
}

fn make(files: &mut Vec<(String, String)>, changes: Vec<FileChange>) {
    for c in changes {
        match c {
            FileChange::Remove(f) => files.retain(|x| x.0 != f),
            FileChange::Write { filename, content } => {
                files.retain(|x| x.0 != filename);
                files.push((filename, content));
            }
        }
    }
}

const TWO_RECORDS: &str = r#"[{"name":"A","type":"user","description":"d","body":"b"},
    {"name":"B","type":"user","description":"e","body":"c"}]"#;

#[test]
fn a_consolidation_leaves_the_new_records() {
    let all = ten_files();
    let mut dir: Vec<(String, String)> =
        all.iter().map(|f| (f.filename.clone(), f.content.clone())).collect();
    let mut work = Consolidation::new(&store(), &all);
    match work.next(ConsolidationEvent::Started) {
        ConsolidationAction::Ask(q) => assert!(q.contains("## p0.md")),
        _ => panic!("the model is asked"),
    }
    match work.next(ConsolidationEvent::Replied(Some(TWO_RECORDS.to_string()), ten_files())) {
        ConsolidationAction::Apply(changes) => make(&mut dir, changes),
        _ => panic!("the records are replaced"),
    }
    let left = names_left(&dir);
    assert_eq!(left, vec!["a.md".to_string(), "b.md".to_string()]);
    let done = work.next(ConsolidationEvent::Applied(Ok(()), left));
    assert!(matches!(done, ConsolidationAction::Done(2)));
}

#[test]
fn a_failed_consolidation_puts_the_records_back() {
    let all = ten_files();
    let before: Vec<(String, String)> =
        all.iter().map(|f| (f.filename.clone(), f.content.clone())).collect();
    let mut work = Consolidation::new(&store(), &all);
    work.next(ConsolidationEvent::Started);
    work.next(ConsolidationEvent::Replied(Some(TWO_RECORDS.to_string()), ten_files()));
    let mut dir = vec![("a.md".to_string(), "half".to_string())];
    let failed = Err(AgentError::FileSystem("full".into()));
    match work.next(ConsolidationEvent::Applied(failed, names_left(&dir))) {
        ConsolidationAction::Restore(changes) => make(&mut dir, changes),
        _ => panic!("the records are restored"),
    }
    assert_eq!(dir, before);
    assert!(matches!(work.next(ConsolidationEvent::Restored), ConsolidationAction::Done(0)));
}

#[test]
fn the_files_are_looked_at_again_when_the_model_replied() {
    let mut work = Consolidation::new(&store(), &ten_files());
    let mut now = ten_files();
    now.remove(0);
    now.push(written("late", "user", "d", "came meanwhile"));
    let reply = Some(TWO_RECORDS.to_string());
    match work.next(ConsolidationEvent::Replied(reply, now)) {
        ConsolidationAction::Apply(changes) => {
            let late = FileChange::Remove("late.md".to_string());
            assert!(changes.iter().any(|c| shown(c) == shown(&late)));
        }
        _ => panic!("the records are replaced"),
    }
    assert_eq!(work.snapshot.len(), CONSOLIDATE_THRESHOLD - 1);
    assert!(work.snapshot.iter().all(|s| s.0 != "late.md" && s.0 != "p0.md"));
}

fn shown(c: &FileChange) -> String {
    match c {
        FileChange::Remove(f) => format!("-{}", f),
        FileChange::Write { filename, .. } => format!("+{}", filename),
    }
}

#[test]
fn a_consolidation_that_is_not_due_asks_nobody() {
    let few = vec![written("a", "user", "d", "b")];
    let mut work = Consolidation::new(&store(), &few);
    assert!(matches!(work.next(ConsolidationEvent::Started), ConsolidationAction::Done(0)));
    let reader = MemoryStore::new_read_only("/work/.memory".to_string());
    let mut work = Consolidation::new(&reader, &ten_files());
    assert!(matches!(work.next(ConsolidationEvent::Started), ConsolidationAction::Done(0)));
    let reply = ConsolidationEvent::Replied(Some(TWO_RECORDS.to_string()), ten_files());
    assert!(matches!(work.next(reply), ConsolidationAction::Done(0)));
    let mut work = Consolidation::new(&store(), &ten_files());
    let none = ConsolidationEvent::Replied(None, ten_files());
    assert!(matches!(work.next(none), ConsolidationAction::Done(0)));
}

#[test]
fn a_limit_of_none_selects_nothing() {
    let records = vec![record("a.md", "tabs", "likes tabs", "b")];
    let asked = vec![user_text("tabs?")];
    let by_model = MemoryStore::select_relevant_memories(&records, &asked, Some("[0]"), 0);
    assert!(by_model.is_empty());
    assert!(MemoryStore::select_relevant_memories(&records, &asked, None, 0).is_empty());
    assert!(pick_records(&[Some(0)], &records, 0).is_empty());
    assert_eq!(pick_records(&[Some(0), Some(0)], &records, 1), vec!["a.md".to_string()]);
}

#[test]
fn a_slug_is_its_own_slug() {
    for name in ["  A -- b__ ", "x!!y", "__", "\u{00dc}ber \u{4e2d}"] {
        let s = memory_slug(name);
        assert_eq!(memory_slug(&s), s);
        assert!(!s.contains("--"));
        assert!(!s.starts_with(['-', '_']) && !s.ends_with(['-', '_']));
    }
    assert_eq!(memory_slug("  A -- b__ "), "a-b");
}

#[test]
fn consolidation_needs_many_records_and_distinct_files() {
    let few: Vec<MemoryRecord> = vec![record("a.md", "a", "d", "b")];
    assert!(store().consolidation_request(&few).is_none());
    let many: Vec<MemoryRecord> = (0..CONSOLIDATE_THRESHOLD)
        .map(|i| record(&format!("p{}.md", i), &format!("p{}", i), "d", "b"))
        .collect();
    assert!(store().consolidation_request(&many).unwrap().contains("## p0.md\nname: p0"));
    let good = r#"[{"name":"A","type":"user","description":"d","body":"b"}]"#;
    assert_eq!(MemoryStore::consolidate_memories(good).unwrap().len(), 1);
    let twice = r#"[{"name":"A","type":"user","description":"d","body":"b"},
                    {"name":"a!","type":"user","description":"e","body":"c"}]"#;
    assert!(MemoryStore::consolidate_memories(twice).is_none());
    assert!(MemoryStore::consolidate_memories("[]").is_none());
}
