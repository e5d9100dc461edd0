//! Output, input, and lines on a terminal.

use bytemaker::io::{Input, MemoryOutput, MockInput, Output, IO};
use bytemaker::json::Json;
use bytemaker::output::{heading, logo, skills_dir};
use bytemaker::render::input::{
    apply_ctrl_c, apply_submit, grants, interpret_line, Effect, InputState, LineCommand,
};
use bytemaker::render::{Backend, Coordinator, VirtualTerm};

fn object() -> Json {
    Json { text: "{}".to_string() }
}

#[test]
fn memory_output_collects_lines() {
    let mut output = MemoryOutput::new();
    output.banner("hello");
    output.emit("world");
    output.error("error");

    let lines = output.lines();
    assert_eq!(lines.len(), 3);
    assert!(lines[0].contains("hello"));
    assert_eq!(lines[1], "world");
    assert!(lines[2].contains("error"));
}

#[test]
fn memory_output_clear() {
    let mut output = MemoryOutput::new();
    output.emit("a");
    output.emit("b");
    assert_eq!(output.lines().len(), 2);

    output.clear();
    assert!(output.lines().is_empty());
}

#[test]
fn memory_output_marks_each_kind_of_line() {
    let mut output = MemoryOutput::default();
    output.status("s");
    output.blank();
    output.render_tool_result("glob", "a.rs", true);
    output.prompt();
    output.blocked("sudo");
    output.permission("why", "command", &Json { text: r#"{"command":"ls"}"#.to_string() });
    assert_eq!(
        output.lines(),
        vec![
            "[STATUS] s".to_string(),
            "".to_string(),
            "[TOOL] glob -> a.rs".to_string(),
            ">> ".to_string(),
            "[BLOCKED] sudo".to_string(),
            r#"[PERMISSION] why command({"command":"ls"})"#.to_string(),
        ]
    );
}

#[test]
fn mock_input_fifo() {
    let mut input = MockInput::new();
    // the answer that was given last comes first
    input.push_read(None); // EOF
    input.push_read(Some("second".into()));
    input.push_read(Some("first".into()));

    assert_eq!(input.read_line(), Some("first".into()));
    assert_eq!(input.read_line(), Some("second".into()));
    assert_eq!(input.read_line(), None);
}

#[test]
fn mock_input_permission() {
    let mut input = MockInput::new();
    input.push_permission(false);
    input.push_permission(true);

    assert!(input.ask_permission("", "", &object()));
    assert!(!input.ask_permission("", "", &object()));
    // no by default
    assert!(!input.ask_permission("", "", &object()));
}

#[test]
fn io_memory_creates_pair() {
    let mut mem_output = MemoryOutput::new();
    let _mock_input = MockInput::new();

    mem_output.emit("test");
    assert_eq!(mem_output.lines()[0], "test");

    let mut io = IO::memory();
    io.output.emit("x");
    assert_eq!(io.output.lines(), vec!["x".to_string()]);
    assert!(io.input.read_line().is_none());
}

#[test]
fn emit_after_partial_finishes_the_partial_line() {
    let mut c = Coordinator::new(VirtualTerm::new(24, 80));
    c.emit_partial("hello").unwrap();
    c.emit("world").unwrap();
    let v = c.into_backend();
    assert!(
        v.screendump().contains("hello\r\nworld\r\n") || v.screendump().contains("hello\nworld"),
        "got: {:?}",
        v.screendump()
    );
}

#[test]
fn emit_two_full_lines_have_newlines() {
    let mut c = Coordinator::new(VirtualTerm::new(24, 80));
    c.emit("a").unwrap();
    c.emit("b").unwrap();
    let s = c.into_backend().screendump();
    assert!(s.contains("a") && s.contains("b"), "got: {:?}", s);
    assert_eq!(s, "a\r\nb\r\n");
}

#[test]
fn half_lines_go_on_where_they_stopped() {
    let mut c = Coordinator::new(VirtualTerm::new(10, 20));
    c.emit_partial("to").unwrap();
    c.emit_partial("ken").unwrap();
    let v = c.into_backend();
    assert_eq!(v.screendump(), "token");
    assert_eq!(v.size(), (10, 20));
}

#[test]
fn every_line_is_flushed() {
    struct Counting(usize);
    impl Backend for Counting {
        fn write_str(&mut self, _s: &str) -> std::io::Result<()> {
            Ok(())
        }
        fn flush(&mut self) -> std::io::Result<()> {
            self.0 += 1;
            Ok(())
        }
        fn size(&self) -> (usize, usize) {
            (1, 1)
        }
    }
    let mut c = Coordinator::new(Counting(0));
    c.emit_partial("a").unwrap();
    c.emit("b").unwrap();
    assert_eq!(c.into_backend().0, 2);
}

/// A backend that takes a number of writes and refuses the rest.
struct Failing {
    left: usize,
    got: String,
}

impl Backend for Failing {
    fn write_str(&mut self, s: &str) -> std::io::Result<()> {
        if self.left == 0 {
            return Err(std::io::Error::other("closed"));
        }
        self.left -= 1;
        self.got.push_str(s);
        Ok(())
    }

    fn flush(&mut self) -> std::io::Result<()> {
        Ok(())
    }

    fn size(&self) -> (usize, usize) {
        (1, 1)
    }
}

#[test]
fn errors_of_the_backend_are_handed_on() {
    let mut c = Coordinator::new(Failing { left: 2, got: String::new() });
    c.emit_partial("half").unwrap();
    assert_eq!(c.emit("line").unwrap_err().to_string(), "closed");
    assert!(!c.mid_line);
    assert!(c.emit_partial("more").is_err());
    assert!(!c.mid_line);
    assert_eq!(c.into_backend().got, "half\r\n");
}

#[test]
fn submit_pushes_to_queue_and_clears() {
    let mut s = InputState::default();
    s.line = "hello".into();
    let eff = apply_submit(&mut s);
    assert!(matches!(eff, Effect::Submit(ref l) if l == "hello"));
    assert_eq!(s.line, "");
}

#[test]
fn ctrl_c_emits_cancel() {
    let mut s = InputState::default();
    let eff = apply_ctrl_c(&mut s);
    assert!(matches!(eff, Effect::Cancel));
}

#[test]
fn only_y_grants_a_permission() {
    assert!(grants(" Y \n"));
    assert!(grants("y"));
    assert!(!grants("yes"));
    assert!(!grants(""));
}

#[test]
fn lines_of_the_user_are_queries_or_commands() {
    assert!(matches!(interpret_line("  \t "), LineCommand::Again));
    assert!(matches!(interpret_line(" Q "), LineCommand::Quit));
    assert!(matches!(interpret_line("exit"), LineCommand::Quit));
    assert!(matches!(interpret_line("EXIT"), LineCommand::Query(ref q) if q == "EXIT"));
    assert!(matches!(interpret_line(" fix it "), LineCommand::Query(ref q) if q == "fix it"));
}

#[test]
fn the_logo_has_five_rows_of_nine_letters() {
    let art = logo();
    let rows: Vec<&str> = art.split('\n').collect();
    assert_eq!(rows.len(), 5);
    assert_eq!(rows[0], "####   #   #    #     ####  #   #   ###   #   #   ####  ####");
    assert_eq!(rows[4], "####      #     ##    ###   #   #  #   #  #   #   ###   #");
    assert!(rows.iter().all(|r| !r.ends_with(' ')));
}

#[test]
fn headings_stand_above_their_text() {
    assert_eq!(heading("TODO", "- a"), "\n## TODO\n- a");
}

#[test]
fn skills_are_sought_where_the_environment_says() {
    assert_eq!(skills_dir(Some("/s"), "/w"), "/s");
    assert_eq!(skills_dir(Some("  "), "/w"), "/w/skills");
    assert_eq!(skills_dir(None, "/w"), "/w/skills");
}
