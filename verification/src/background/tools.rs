//! The tools and the hook through which the model deals with background tasks.

use vstd::prelude::*;

use crate::background;
use crate::background::BackgroundManager;
use crate::json;
use crate::json::Json;
use crate::strmap::StrMap;
use crate::text;
use crate::tools::{AgentKind, PermissionCheck, PermissionView, Tool, ToolDefView};

verus! {

/// What forces the loop to go on where it would end: the reports of the tasks that ended.
pub open spec fn wake_text(notes: Seq<Seq<char>>) -> Option<Seq<char>> {
    if notes.len() == 0 {
        None
    } else {
        Some(text::joined(notes, "\n"@))
    }
}

/// Keeps the loop going while there are tasks to report.
pub struct BackgroundStopHook;

impl BackgroundStopHook {
    /// Collects the reports. Where there are any, they go to the model and the loop goes on.
    pub fn on_stop(&self, manager: &mut BackgroundManager, outputs: &StrMap<String>) -> (r: Option<
        String,
    >)
        ensures
            text::opt_view(r) == wake_text(
                background::notices(old(manager)@.tasks, old(manager)@.ready, outputs@),
            ),
            final(manager)@ == old(manager)@.collected(),
    {
        let notes = manager.collect(outputs);
        assert(text::views(notes@).len() == notes@.len());
        if notes.len() == 0 {
            None
        } else {
            Some(text::join(&notes, "\n"))
        }
    }
}

pub const TASK_OUTPUT_NAME: &'static str = "task_output";

pub const TASK_OUTPUT_DESCRIPTION: &'static str = "Get the status and output of a background task. Set block=true to wait (with timeout) for it to finish.";

pub const TASK_OUTPUT_SCHEMA: &'static str = r#"{"type":"object","properties":{"task_id":{"type":"string"},"block":{"type":"boolean","default":false},"timeout_ms":{"type":"integer","default":30000}},"required":["task_id"]}"#;

/// How long a request waits for a task unless it says otherwise, in milliseconds.
pub const DEFAULT_WAIT_MS: u64 = 30_000;

/// A request for a task's output.
pub struct OutputRequest {
    pub task_id: String,
    /// Whether to wait until the task has ended.
    pub block: bool,
    /// How long to wait at most.
    pub timeout_ms: u64,
}

/// The mathematical content of an [`OutputRequest`].
#[verifier::ext_equal]
pub struct RequestView {
    pub task_id: Seq<char>,
    pub block: bool,
    pub timeout_ms: u64,
}

impl View for OutputRequest {
    type V = RequestView;

    open spec fn view(&self) -> RequestView {
        RequestView { task_id: self.task_id@, block: self.block, timeout_ms: self.timeout_ms }
    }
}

/// The request that an input stands for.
pub open spec fn output_request(input: Seq<char>) -> Result<RequestView, Seq<char>> {
    match json::text_str_member(input, "task_id"@) {
        None => Err("Error: task_id required"@),
        Some(task_id) => Ok(
            RequestView {
                task_id,
                block: json::text_bool_member(input, "block"@) == Some(true),
                timeout_ms: match json::text_u64_member(input, "timeout_ms"@) {
                    Some(n) => n,
                    None => DEFAULT_WAIT_MS,
                },
            },
        ),
    }
}

/// The tool that shows a task's status and output.
pub struct TaskOutputTool;

impl TaskOutputTool {
    /// The request that an input stands for, or the answer to an input that names no task.
    pub fn request(&self, input: &Json) -> (r: Result<OutputRequest, String>)
        ensures
            output_request(input@) == (match r {
                Ok(q) => Ok::<RequestView, Seq<char>>(q@),
                Err(e) => Err(e@),
            }),
    {
        match input.str_member("task_id") {
            None => Err("Error: task_id required".to_string()),
            Some(task_id) => {
                let block = match input.bool_member("block") {
                    Some(b) => b,
                    None => false,
                };
                let timeout_ms: u64 = match input.u64_member("timeout_ms") {
                    Some(n) => n,
                    None => DEFAULT_WAIT_MS,
                };
                Ok(OutputRequest { task_id, block, timeout_ms })
            },
        }
    }
}

impl Tool for TaskOutputTool {
    open spec fn facts(&self) -> ToolDefView {
        ToolDefView {
            name: TASK_OUTPUT_NAME@,
            description: TASK_OUTPUT_DESCRIPTION@,
            input_schema: TASK_OUTPUT_SCHEMA@,
        }
    }

    open spec fn permission(&self, input: Seq<char>) -> PermissionView {
        PermissionView::Pass
    }

    open spec fn offered(&self, kind: AgentKind) -> bool {
        true
    }

    fn name(&self) -> (r: &str) {
        TASK_OUTPUT_NAME
    }

    fn description(&self) -> (r: &str) {
        TASK_OUTPUT_DESCRIPTION
    }

    fn input_schema(&self) -> (r: Json) {
        Json { text: TASK_OUTPUT_SCHEMA.to_string() }
    }

    fn check_permission(&self, input: &Json) -> (r: PermissionCheck) {
        PermissionCheck::Pass
    }

    fn available_for(&self, kind: AgentKind) -> (r: bool) {
        true
    }
}

pub const TASK_STOP_NAME: &'static str = "task_stop";

pub const TASK_STOP_DESCRIPTION: &'static str = "Stop a running background task by cancelling it and killing its process tree.";

pub const TASK_STOP_SCHEMA: &'static str = r#"{"type":"object","properties":{"task_id":{"type":"string"}},"required":["task_id"]}"#;

/// The tool that stops a task.
pub struct TaskStopTool;

impl TaskStopTool {
    /// Stops the task that the input names. Gives the answer, and the id of the task whose
    /// worker is to be signalled, if any.
    pub fn execute(&self, manager: &BackgroundManager, input: &Json) -> (r: (
        String,
        Option<String>,
    ))
        ensures
            match json::text_str_member(input@, "task_id"@) {
                None => r.0@ == "Error: task_id required"@ && r.1 is None,
                Some(id) => {
                    &&& r.0@ == background::stop_answer(manager@, id)
                    &&& text::opt_view(r.1) == (if background::running(
                        manager@.tasks,
                    ).contains(id) {
                        Some(id)
                    } else {
                        None
                    })
                },
            },
    {
        match input.str_member("task_id") {
            None => ("Error: task_id required".to_string(), None),
            Some(id) => {
                let answer = manager.stop(id.as_str());
                if manager.is_done(id.as_str()) {
                    (answer, None)
                } else {
                    (answer, Some(id))
                }
            },
        }
    }
}

impl Tool for TaskStopTool {
    open spec fn facts(&self) -> ToolDefView {
        ToolDefView {
            name: TASK_STOP_NAME@,
            description: TASK_STOP_DESCRIPTION@,
            input_schema: TASK_STOP_SCHEMA@,
        }
    }

    open spec fn permission(&self, input: Seq<char>) -> PermissionView {
        PermissionView::Pass
    }

    open spec fn offered(&self, kind: AgentKind) -> bool {
        true
    }

    fn name(&self) -> (r: &str) {
        TASK_STOP_NAME
    }

    fn description(&self) -> (r: &str) {
        TASK_STOP_DESCRIPTION
    }

    fn input_schema(&self) -> (r: Json) {
        Json { text: TASK_STOP_SCHEMA.to_string() }
    }

    fn check_permission(&self, input: &Json) -> (r: PermissionCheck) {
        PermissionCheck::Pass
    }

    fn available_for(&self, kind: AgentKind) -> (r: bool) {
        true
    }
}

} // verus!
