//! Commands that run in the background while the agent goes on.

use vstd::prelude::*;

use crate::client;
use crate::client::{ContentBlock, Message};
use crate::hooks;
use crate::paths;
use crate::strmap::StrMap;
use crate::text;

pub mod laws;
pub mod tools;

verus! {

/// How many tasks may run at once.
pub const MAX_CONCURRENT: usize = 8;

/// After how many seconds a task is stopped.
pub const BG_TIMEOUT_SECS: u64 = 120;

/// How many bytes of a task's output are kept and shown.
pub const MAX_OUTPUT_BYTES: usize = 50_000;

/// How many characters of a task's output its notification holds.
pub const SUMMARY_CHARS: usize = 500;

/// How many ids are tried for a task.
pub const MAX_ID_RETRIES: usize = 100;

/// Where a task stands.
#[derive(Debug, Clone, Copy, PartialEq, Eq, Structural)]
pub enum TaskStatus {
    Running,
    Completed,
    Failed,
    Cancelled,
}

impl TaskStatus {
    /// The status as a word.
    pub open spec fn word(self) -> Seq<char> {
        match self {
            TaskStatus::Running => "running"@,
            TaskStatus::Completed => "completed"@,
            TaskStatus::Failed => "failed"@,
            TaskStatus::Cancelled => "cancelled"@,
        }
    }
}

/// The status as a word.
pub fn status_word(status: TaskStatus) -> (r: &'static str)
    ensures
        r@ == status.word(),
{
    match status {
        TaskStatus::Running => "running",
        TaskStatus::Completed => "completed",
        TaskStatus::Failed => "failed",
        TaskStatus::Cancelled => "cancelled",
    }
}

/// A command in the background.
pub struct BackgroundTask {
    /// `bg_` and eight hexadecimal digits.
    pub id: String,
    pub command: String,
    pub status: TaskStatus,
    /// The tool call that started it.
    pub tool_use_id: String,
    /// When it was started, in seconds since 1970.
    pub started_at: u64,
    /// The file that holds its output.
    pub output_file: String,
    pub exit_code: Option<i32>,
}

/// The mathematical content of a [`BackgroundTask`].
#[verifier::ext_equal]
pub struct TaskView {
    pub id: Seq<char>,
    pub command: Seq<char>,
    pub status: TaskStatus,
    pub tool_use_id: Seq<char>,
    pub started_at: u64,
    pub output_file: Seq<char>,
    pub exit_code: Option<i32>,
}

impl View for BackgroundTask {
    type V = TaskView;

    open spec fn view(&self) -> TaskView {
        TaskView {
            id: self.id@,
            command: self.command@,
            status: self.status,
            tool_use_id: self.tool_use_id@,
            started_at: self.started_at,
            output_file: self.output_file@,
            exit_code: self.exit_code,
        }
    }
}

/// The longest beginning of a text that takes no more than `max` bytes.
pub open spec fn fitting(s: Seq<char>, max: nat) -> Seq<char>
    decreases s.len(),
{
    if s.len() == 0 || text::utf8_len(seq![s[0]]) > max {
        Seq::empty()
    } else {
        seq![s[0]] + fitting(s.skip(1), (max - text::utf8_len(seq![s[0]])) as nat)
    }
}

proof fn first_and_rest(s: Seq<char>)
    requires
        s.len() > 0,
    ensures
        text::utf8_len(s) == text::utf8_len(seq![s[0]]) + text::utf8_len(s.skip(1)),
{
    reveal_with_fuel(vstd::utf8::encode_utf8, 2);
    assert(s.drop_first() =~= s.skip(1));
    let one = seq![s[0]];
    assert(one.drop_first() =~= Seq::<char>::empty());
    assert(vstd::utf8::encode_utf8(one) =~= vstd::utf8::encode_scalar(s[0] as u32));
}

/// The law of shortening: what is kept is a beginning of the text that fits, and a text that
/// fits is kept whole; otherwise the next character would not fit any more.
pub proof fn law_fitting_is_longest(s: Seq<char>, max: nat)
    ensures
        fitting(s, max).len() <= s.len(),
        fitting(s, max) == s.take(fitting(s, max).len() as int),
        text::utf8_len(fitting(s, max)) <= max,
        text::utf8_len(s) <= max ==> fitting(s, max) == s,
        fitting(s, max).len() < s.len() ==> text::utf8_len(
            s.take(fitting(s, max).len() as int + 1),
        ) > max,
    decreases s.len(),
{
    let kept = fitting(s, max);
    if s.len() == 0 {
        assert(kept =~= s);
    } else if text::utf8_len(seq![s[0]]) > max {
        first_and_rest(s);
        assert(kept =~= s.take(0));
        assert(s.take(1) =~= seq![s[0]]);
        assert(text::utf8_len(Seq::<char>::empty()) == 0);
    } else {
        first_and_rest(s);
        let rest = s.skip(1);
        let w = text::utf8_len(seq![s[0]]);
        let left = (max - w) as nat;
        law_fitting_is_longest(rest, left);
        let tail = fitting(rest, left);
        assert(kept =~= s.take(kept.len() as int));
        assert(kept[0] == s[0]);
        assert(kept.skip(1) =~= tail);
        first_and_rest(kept);
        if text::utf8_len(s) <= max {
            assert(kept =~= s);
        }
        if kept.len() < s.len() {
            let more = s.take(kept.len() as int + 1);
            assert(more[0] == s[0]);
            assert(more.skip(1) =~= rest.take(tail.len() as int + 1));
            first_and_rest(more);
        }
    }
}

/// Shortens a text to at most `max_bytes` bytes, at the end of a character.
pub fn truncate_chars(s: &str, max_bytes: usize) -> (r: String)
    ensures
        r@ == fitting(s@, max_bytes as nat),
{
    let v = text::to_chars(s);
    let mut left: usize = max_bytes;
    let mut i: usize = 0;
    assert(s@.take(0) + fitting(s@.skip(0), left as nat) =~= fitting(s@, max_bytes as nat)) by {
        assert(s@.skip(0) =~= s@);
    }
    while i < v.len()
        invariant
            i <= v@.len(),
            v@ == s@,
            fitting(s@, max_bytes as nat) == s@.take(i as int) + fitting(
                s@.skip(i as int),
                left as nat,
            ),
        decreases v@.len() - i,
    {
        let one = text::from_chars(&v, i, i + 1);
        let width: usize = text::byte_len(one.as_str());
        proof {
            assert(one@ =~= seq![s@[i as int]]);
            assert(s@.skip(i as int)[0] == s@[i as int]);
            assert(s@.skip(i as int).skip(1) =~= s@.skip(i + 1));
        }
        if width > left {
            assert(s@.take(i as int) + Seq::<char>::empty() =~= s@.take(i as int));
            assert(v@.subrange(0, i as int) =~= s@.take(i as int));
            return text::from_chars(&v, 0, i);
        }
        left = left - width;
        assert(s@.take(i + 1) + fitting(s@.skip(i + 1), left as nat) =~= s@.take(i as int) + (
        seq![s@[i as int]] + fitting(s@.skip(i + 1), left as nat)));
        i += 1;
    }
    assert(s@.take(i as int) + fitting(s@.skip(i as int), left as nat) =~= s@);
    s.to_string()
}

/// An exit code as text.
pub open spec fn exit_text(code: Option<i32>) -> Seq<char> {
    match code {
        Some(c) => text::signed(c as int),
        None => "none"@,
    }
}

fn print_exit(code: Option<i32>) -> (r: String)
    ensures
        r@ == exit_text(code),
{
    match code {
        Some(c) => text::signed_text(c),
        None => "none".to_string(),
    }
}

/// The beginning of a task's output that goes into its notification.
pub open spec fn summary(output: Option<Seq<char>>) -> Seq<char> {
    match output {
        Some(s) => text::first_chars(text::trimmed(s), SUMMARY_CHARS as int),
        None => "(output unavailable)"@,
    }
}

/// The notification of a finished task.
pub open spec fn notification(t: TaskView, output: Option<Seq<char>>) -> Seq<char> {
    "<task_notification>\n  <task_id>"@ + t.id + "</task_id>\n  <status>"@ + t.status.word()
        + "</status>\n  <command>"@ + t.command + "</command>\n  <exit_code>"@ + exit_text(
        t.exit_code,
    ) + "</exit_code>\n  <summary>"@ + summary(output) + "</summary>\n</task_notification>"@
}

/// Writes the notification of a finished task, with the beginning of its output.
pub fn format_notification(task: &BackgroundTask, output: Option<&str>) -> (r: String)
    ensures
        r@ == notification(
            task@,
            match output {
                Some(s) => Some(s@),
                None => None,
            },
        ),
{
    let summary = match output {
        Some(s) => text::take_chars(text::trim(s).as_str(), SUMMARY_CHARS),
        None => "(output unavailable)".to_string(),
    };
    "<task_notification>\n  <task_id>".to_string().concat(task.id.as_str()).concat(
        "</task_id>\n  <status>",
    ).concat(status_word(task.status)).concat("</status>\n  <command>").concat(
        task.command.as_str(),
    ).concat("</command>\n  <exit_code>").concat(print_exit(task.exit_code).as_str()).concat(
        "</exit_code>\n  <summary>",
    ).concat(summary.as_str()).concat("</summary>\n</task_notification>")
}

/// The tasks that run.
pub open spec fn running(tasks: Map<Seq<char>, TaskView>) -> Set<Seq<char>> {
    tasks.dom().filter(|k: Seq<char>| tasks[k].status == TaskStatus::Running)
}

/// A hexadecimal digit.
pub open spec fn hex_digit(d: nat) -> char {
    if d < 10 {
        (48 + d) as char
    } else {
        (87 + d) as char
    }
}

/// The last `width` hexadecimal digits of a number, with leading zeros.
pub open spec fn hex(n: nat, width: nat) -> Seq<char>
    decreases width,
{
    if width == 0 {
        Seq::empty()
    } else {
        hex(n / 16, (width - 1) as nat).push(hex_digit(n % 16))
    }
}

/// The id that a number gives.
pub open spec fn task_name(n: u32) -> Seq<char> {
    "bg_"@ + hex(n as nat, 8)
}

fn print_hex(n: u32, width: u32) -> (r: String)
    ensures
        r@ == hex(n as nat, width as nat),
    decreases width,
{
    if width == 0 {
        let r = String::new();
        assert(r@ =~= Seq::<char>::empty());
        r
    } else {
        let mut r = print_hex(n / 16, width - 1);
        let d: u8 = (n % 16) as u8;
        let c: char = if d < 10 {
            (48 + d) as char
        } else {
            (87 + d) as char
        };
        r.push(c);
        r
    }
}

/// The first id that no task has, of those that the numbers give; only the first
/// [`MAX_ID_RETRIES`] numbers are tried.
pub open spec fn free_name(tasks: Map<Seq<char>, TaskView>, drawn: Seq<u32>, tries: nat) -> Option<
    Seq<char>,
>
    decreases tries,
{
    if drawn.len() == 0 || tries == 0 {
        None
    } else if !tasks.contains_key(task_name(drawn[0])) {
        Some(task_name(drawn[0]))
    } else {
        free_name(tasks, drawn.skip(1), (tries - 1) as nat)
    }
}

/// How a worker came to its end.
pub enum WorkerEnd {
    /// The command could not be started.
    SpawnFailed(String),
    /// The task was stopped on request.
    Cancelled,
    /// The task ran too long.
    TimedOut,
    /// The command ended.
    Exited { code: Option<i32>, stdout: String, stderr: String },
    /// The command could not be waited for.
    WaitFailed(String),
    /// The worker itself broke down.
    Panicked,
}

/// The mathematical content of a [`WorkerEnd`].
#[verifier::ext_equal]
pub enum EndView {
    SpawnFailed(Seq<char>),
    Cancelled,
    TimedOut,
    Exited { code: Option<i32>, stdout: Seq<char>, stderr: Seq<char> },
    WaitFailed(Seq<char>),
    Panicked,
}

impl View for WorkerEnd {
    type V = EndView;

    open spec fn view(&self) -> EndView {
        match self {
            WorkerEnd::SpawnFailed(e) => EndView::SpawnFailed(e@),
            WorkerEnd::Cancelled => EndView::Cancelled,
            WorkerEnd::TimedOut => EndView::TimedOut,
            WorkerEnd::Exited { code, stdout, stderr } => EndView::Exited {
                code: *code,
                stdout: stdout@,
                stderr: stderr@,
            },
            WorkerEnd::WaitFailed(e) => EndView::WaitFailed(e@),
            WorkerEnd::Panicked => EndView::Panicked,
        }
    }
}

impl EndView {
    /// The status that the task gets.
    pub open spec fn status(self) -> TaskStatus {
        match self {
            EndView::Cancelled => TaskStatus::Cancelled,
            EndView::Exited { code, .. } => if code == Some(0i32) {
                TaskStatus::Completed
            } else {
                TaskStatus::Failed
            },
            _ => TaskStatus::Failed,
        }
    }

    /// The exit code that the task gets.
    pub open spec fn exit_code(self) -> Option<i32> {
        match self {
            EndView::Exited { code, .. } => code,
            _ => None,
        }
    }

    /// The text that is kept as the task's output.
    pub open spec fn text(self, timeout_secs: u64) -> Seq<char> {
        match self {
            EndView::SpawnFailed(e) => "Error: spawn failed: "@ + e,
            EndView::Cancelled => "Cancelled by TaskStop"@,
            EndView::TimedOut => "Error: Timeout ("@ + text::decimal(timeout_secs as nat) + "s)"@,
            EndView::Exited { stdout, stderr, .. } => {
                let body = text::trimmed(stdout + "\n"@ + stderr);
                if body.len() == 0 {
                    "(no output)"@
                } else {
                    fitting(body, MAX_OUTPUT_BYTES as nat)
                }
            },
            EndView::WaitFailed(e) => "Error: wait failed: "@ + e,
            EndView::Panicked => "Error: worker panicked"@,
        }
    }
}

/// The tasks in the background.
pub struct BackgroundManager {
    /// The directory of the files that hold the tasks' output.
    pub output_dir: String,
    pub tasks: StrMap<BackgroundTask>,
    /// The tasks that have ended and were not reported yet, the earliest first.
    pub ready: Vec<String>,
    pub timeout_secs: u64,
}

/// The mathematical content of a [`BackgroundManager`].
#[verifier::ext_equal]
pub struct ManagerView {
    pub output_dir: Seq<char>,
    pub tasks: Map<Seq<char>, TaskView>,
    pub ready: Seq<Seq<char>>,
    pub timeout_secs: u64,
}

impl View for BackgroundManager {
    type V = ManagerView;

    open spec fn view(&self) -> ManagerView {
        ManagerView {
            output_dir: self.output_dir@,
            tasks: self.tasks@.map_values(|t: BackgroundTask| t@),
            ready: text::views(self.ready@),
            timeout_secs: self.timeout_secs,
        }
    }
}

/// The answer to a request to start a task.
pub open spec fn start_answer(v: ManagerView, command: Seq<char>, drawn: Seq<u32>) -> Result<
    Seq<char>,
    Seq<char>,
> {
    if text::trimmed(command).len() == 0 {
        Err("Error: empty command"@)
    } else if running(v.tasks).len() >= MAX_CONCURRENT {
        Err(
            "Error: too many concurrent background tasks (8). Wait for some to finish via TaskOutput."@,
        )
    } else {
        match free_name(v.tasks, drawn, MAX_ID_RETRIES as nat) {
            Some(id) => Ok(id),
            None => Err("Error: failed to allocate task id"@),
        }
    }
}

impl ManagerView {
    /// The tasks after one of them was started.
    pub open spec fn started(
        self,
        id: Seq<char>,
        command: Seq<char>,
        tool_use_id: Seq<char>,
        started_at: u64,
    ) -> ManagerView {
        let t = TaskView {
            id,
            command: text::trimmed(command),
            status: TaskStatus::Running,
            tool_use_id,
            started_at,
            output_file: paths::joined_path(self.output_dir, id + ".log"@),
            exit_code: None,
        };
        ManagerView { tasks: self.tasks.insert(id, t), ..self }
    }

    /// The tasks after a request to start one.
    pub open spec fn after_start(
        self,
        command: Seq<char>,
        tool_use_id: Seq<char>,
        started_at: u64,
        drawn: Seq<u32>,
    ) -> ManagerView {
        match start_answer(self, command, drawn) {
            Ok(id) => self.started(id, command, tool_use_id, started_at),
            Err(_) => self,
        }
    }

    /// The tasks after one of them ended.
    pub open spec fn ended(self, id: Seq<char>, status: TaskStatus, exit_code: Option<i32>)
        -> ManagerView {
        if self.tasks.contains_key(id) {
            ManagerView {
                tasks: self.tasks.insert(
                    id,
                    TaskView { status, exit_code, ..self.tasks[id] },
                ),
                ready: self.ready.push(id),
                ..self
            }
        } else {
            self
        }
    }

    /// The tasks after the ended ones were reported.
    pub open spec fn collected(self) -> ManagerView {
        ManagerView {
            tasks: self.tasks.remove_keys(self.ready.to_set()),
            ready: Seq::empty(),
            ..self
        }
    }
}

/// The output of a task, where it is known.
pub open spec fn output_of(outputs: Map<Seq<char>, String>, id: Seq<char>) -> Option<Seq<char>> {
    if outputs.contains_key(id) {
        Some(outputs[id]@)
    } else {
        None
    }
}

/// The notifications of the ended tasks. A task is reported once, though it be listed twice.
pub open spec fn notices(
    tasks: Map<Seq<char>, TaskView>,
    ready: Seq<Seq<char>>,
    outputs: Map<Seq<char>, String>,
) -> Seq<Seq<char>>
    decreases ready.len(),
{
    if ready.len() == 0 {
        Seq::empty()
    } else {
        let rest = notices(tasks.remove(ready[0]), ready.skip(1), outputs);
        if tasks.contains_key(ready[0]) {
            seq![notification(tasks[ready[0]], output_of(outputs, ready[0]))] + rest
        } else {
            rest
        }
    }
}

/// What is shown of a task.
pub open spec fn report(v: ManagerView, id: Seq<char>, output: Option<Seq<char>>) -> Seq<char> {
    if v.tasks.contains_key(id) {
        let t = v.tasks[id];
        let body = match output {
            Some(s) => text::trimmed(s),
            None => Seq::empty(),
        };
        "task_id: "@ + id + "\nstatus: "@ + t.status.word() + "\ncommand: "@ + t.command
            + "\nexit_code: "@ + exit_text(t.exit_code) + "\noutput:\n"@ + fitting(
            body,
            MAX_OUTPUT_BYTES as nat,
        )
    } else {
        "Error: task "@ + id + " not found"@
    }
}

/// The answer to a request to stop a task.
pub open spec fn stop_answer(v: ManagerView, id: Seq<char>) -> Seq<char> {
    if !v.tasks.contains_key(id) {
        "Error: task "@ + id + " not found"@
    } else if v.tasks[id].status == TaskStatus::Running {
        "[Stopped "@ + id + "]"@
    } else {
        "Task "@ + id + " already "@ + v.tasks[id].status.word()
    }
}

/// Calls `fastrand::u32` over its whole range. Nothing is claimed of the number.
#[verifier::external_body]
fn random_number() -> u32 {
    fastrand::u32(..)
}

proof fn one_more(ks: Seq<Seq<char>>, n: int)
    requires
        0 <= n < ks.len(),
    ensures
        forall|k: Seq<char>| #[trigger]
            ks.take(n + 1).to_set().contains(k) <==> ks.take(n).to_set().contains(k) || k == ks[n],
{
    let next = ks.take(n + 1);
    let now = ks.take(n);
    assert forall|k: Seq<char>| #[trigger] next.to_set().contains(k) <==> now.to_set().contains(k)
        || k == ks[n] by {
        if next.contains(k) {
            let i = choose|i: int| 0 <= i < next.len() && next[i] == k;
            if i < n {
                assert(now[i] == k);
            }
        }
        if now.contains(k) {
            let i = choose|i: int| 0 <= i < now.len() && now[i] == k;
            assert(next[i] == k);
        }
        assert(next[n] == ks[n]);
    }
}

proof fn counted_once(
    ks: Seq<Seq<char>>,
    tasks: Map<Seq<char>, TaskView>,
    n: int,
)
    requires
        0 <= n < ks.len(),
        ks.no_duplicates(),
        tasks.contains_key(ks[n]),
    ensures
        ({
            let before = ks.take(n).to_set().filter(
                |k: Seq<char>| tasks[k].status == TaskStatus::Running,
            );
            let after = ks.take(n + 1).to_set().filter(
                |k: Seq<char>| tasks[k].status == TaskStatus::Running,
            );
            &&& before.finite()
            &&& after.len() == before.len() + (if tasks[ks[n]].status == TaskStatus::Running {
                1int
            } else {
                0int
            })
        }),
{
    let p = |k: Seq<char>| tasks[k].status == TaskStatus::Running;
    let before = ks.take(n).to_set().filter(p);
    let after = ks.take(n + 1).to_set().filter(p);
    assert(ks.take(n + 1) =~= ks.take(n).push(ks[n]));
    assert(ks.take(n + 1).to_set() =~= ks.take(n).to_set().insert(ks[n])) by {
        one_more(ks, n);
    }
    assert(!before.contains(ks[n])) by {
        if ks.take(n).contains(ks[n]) {
            let i = choose|i: int| 0 <= i < n && ks.take(n)[i] == ks[n];
            assert(ks[i] == ks[n]);
        }
    }
    if p(ks[n]) {
        assert(after =~= before.insert(ks[n]));
    } else {
        assert(after =~= before);
    }
}

impl BackgroundManager {
    /// A manager without tasks.
    pub fn new(output_dir: &str) -> (r: Self)
        ensures
            r@ == (ManagerView {
                output_dir: output_dir@,
                tasks: Map::empty(),
                ready: Seq::empty(),
                timeout_secs: BG_TIMEOUT_SECS,
            }),
    {
        BackgroundManager::with_timeout(output_dir, BG_TIMEOUT_SECS)
    }

    /// A manager without tasks, with a time limit of its own.
    pub fn with_timeout(output_dir: &str, timeout_secs: u64) -> (r: Self)
        ensures
            r@ == (ManagerView {
                output_dir: output_dir@,
                tasks: Map::empty(),
                ready: Seq::empty(),
                timeout_secs,
            }),
    {
        let r = BackgroundManager {
            output_dir: output_dir.to_string(),
            tasks: StrMap::new(),
            ready: Vec::new(),
            timeout_secs,
        };
        assert(r@.tasks =~= Map::<Seq<char>, TaskView>::empty());
        assert(r@.ready =~= Seq::<Seq<char>>::empty());
        r
    }

    /// How many tasks run.
    pub fn running_count(&self) -> (r: usize)
        ensures
            running(self@.tasks).finite(),
            r == running(self@.tasks).len(),
    {
        let ghost tasks = self@.tasks;
        let keys = self.tasks.keys();
        let ghost ks = text::views(keys@);
        let mut n: usize = 0;
        let mut i: usize = 0;
        assert(ks.take(0).to_set().filter(
            |k: Seq<char>| tasks[k].status == TaskStatus::Running,
        ) =~= Set::<Seq<char>>::empty());
        while i < keys.len()
            invariant
                i <= keys@.len(),
                n <= i,
                ks == text::views(keys@),
                tasks == self@.tasks,
                ks.no_duplicates(),
                forall|k: Seq<char>| #[trigger] ks.contains(k) <==> self.tasks@.contains_key(k),
                n == ks.take(i as int).to_set().filter(
                    |k: Seq<char>| tasks[k].status == TaskStatus::Running,
                ).len(),
            decreases keys@.len() - i,
        {
            assert(ks[i as int] == keys@[i as int]@);
            assert(ks.contains(ks[i as int]));
            proof {
                counted_once(ks, tasks, i as int);
            }
            if let Some(t) = self.tasks.get(keys[i].as_str()) {
                if t.status == TaskStatus::Running {
                    n += 1;
                }
            }
            i += 1;
        }
        proof {
            assert(ks.take(ks.len() as int) =~= ks);
            assert(ks.to_set().filter(|k: Seq<char>| tasks[k].status == TaskStatus::Running)
                =~= running(tasks)) by {
                assert forall|k: Seq<char>| ks.to_set().contains(k) <==> tasks.contains_key(k) by {
                    assert(ks.contains(k) <==> self.tasks@.contains_key(k));
                }
            }
            assert(ks.to_set().finite());
        }
        n
    }

    /// The first id that is free, of those that the numbers give.
    pub fn generate_id(&self, drawn: &[u32]) -> (r: Option<String>)
        ensures
            text::opt_view(r) == free_name(self@.tasks, drawn@, MAX_ID_RETRIES as nat),
    {
        let mut i: usize = 0;
        assert(drawn@.skip(0) =~= drawn@);
        while i < drawn.len() && i < MAX_ID_RETRIES
            invariant
                i <= drawn@.len(),
                i <= MAX_ID_RETRIES,
                free_name(self@.tasks, drawn@, MAX_ID_RETRIES as nat) == free_name(
                    self@.tasks,
                    drawn@.skip(i as int),
                    (MAX_ID_RETRIES - i) as nat,
                ),
            decreases MAX_ID_RETRIES - i,
        {
            let id = "bg_".to_string().concat(print_hex(drawn[i], 8).as_str());
            assert(drawn@.skip(i as int)[0] == drawn@[i as int]);
            assert(drawn@.skip(i as int).skip(1) =~= drawn@.skip(i + 1));
            if !self.tasks.contains_key(id.as_str()) {
                return Some(id);
            }
            i += 1;
        }
        None
    }

    /// Starts a task, with the first free id of those that the numbers give. On success the
    /// caller runs the command.
    pub fn start_with(
        &mut self,
        command: &str,
        tool_use_id: &str,
        started_at: u64,
        drawn: &[u32],
    ) -> (r: Result<String, String>)
        ensures
            start_answer(old(self)@, command@, drawn@) == (match r {
                Ok(id) => Ok::<Seq<char>, Seq<char>>(id@),
                Err(e) => Err(e@),
            }),
            final(self)@ == old(self)@.after_start(command@, tool_use_id@, started_at, drawn@),
    {
        let command = text::trim(command);
        if command.as_str().is_empty() {
            return Err("Error: empty command".to_string());
        }
        if self.running_count() >= MAX_CONCURRENT {
            return Err(
                "Error: too many concurrent background tasks (8). Wait for some to finish via TaskOutput.".to_string(),
            );
        }
        match self.generate_id(drawn) {
            None => Err("Error: failed to allocate task id".to_string()),
            Some(id) => {
                let task = BackgroundTask {
                    id: id.clone(),
                    command,
                    status: TaskStatus::Running,
                    tool_use_id: tool_use_id.to_string(),
                    started_at,
                    output_file: paths::join_path(
                        self.output_dir.as_str(),
                        id.clone().concat(".log").as_str(),
                    ),
                    exit_code: None,
                };
                let ghost before = self@;
                self.tasks.insert(id.as_str(), task);
                assert(self@.tasks =~= before.tasks.insert(id@, task@));
                Ok(id)
            },
        }
    }

    /// Starts a task, with an id drawn at random. On success the caller runs the command.
    pub fn start(&mut self, command: &str, tool_use_id: &str, started_at: u64) -> (r: Result<
        String,
        String,
    >)
        ensures
            exists|drawn: Seq<u32>|
                {
                    &&& start_answer(old(self)@, command@, drawn) == (match r {
                        Ok(id) => Ok::<Seq<char>, Seq<char>>(id@),
                        Err(e) => Err(e@),
                    })
                    &&& final(self)@ == #[trigger] old(self)@.after_start(
                        command@,
                        tool_use_id@,
                        started_at,
                        drawn,
                    )
                    &&& drawn.len() == MAX_ID_RETRIES || free_name(
                        old(self)@.tasks,
                        drawn,
                        MAX_ID_RETRIES as nat,
                    ) is Some
                },
    {
        let mut drawn: Vec<u32> = Vec::new();
        let mut found = false;
        while drawn.len() < MAX_ID_RETRIES && !found
            invariant
                self@ == old(self)@,
                drawn@.len() <= MAX_ID_RETRIES,
                found ==> free_name(self@.tasks, drawn@, MAX_ID_RETRIES as nat) is Some,
            decreases MAX_ID_RETRIES - drawn@.len(),
        {
            drawn.push(random_number());
            found = self.generate_id(&drawn).is_some();
        }
        self.start_with(command, tool_use_id, started_at, &drawn)
    }

    /// Notes that a task ended.
    pub fn finalize(&mut self, id: &str, status: TaskStatus, exit_code: Option<i32>)
        ensures
            final(self)@ == old(self)@.ended(id@, status, exit_code),
    {
        let ghost before = self@;
        if let Some(t) = self.tasks.remove(id) {
            let task = BackgroundTask { status, exit_code, ..t };
            self.tasks.insert(id, task);
            self.ready.push(id.to_string());
            assert(self@.tasks =~= before.tasks.insert(id@, task@));
            assert(self@.ready =~= before.ready.push(id@));
        } else {
            assert(self@.tasks =~= before.tasks);
        }
    }

    /// Notes how a task's worker came to its end, and gives the text to keep as the task's
    /// output.
    pub fn finish(&mut self, id: &str, end: WorkerEnd) -> (r: String)
        ensures
            r@ == end@.text(old(self).timeout_secs),
            final(self)@ == old(self)@.ended(id@, end@.status(), end@.exit_code()),
    {
        let timeout_secs: u64 = self.timeout_secs;
        match end {
            WorkerEnd::SpawnFailed(e) => {
                self.finalize(id, TaskStatus::Failed, None);
                "Error: spawn failed: ".to_string().concat(e.as_str())
            },
            WorkerEnd::Cancelled => {
                self.finalize(id, TaskStatus::Cancelled, None);
                "Cancelled by TaskStop".to_string()
            },
            WorkerEnd::TimedOut => {
                self.finalize(id, TaskStatus::Failed, None);
                "Error: Timeout (".to_string().concat(
                    text::number_text(timeout_secs).as_str(),
                ).concat("s)")
            },
            WorkerEnd::Exited { code, stdout, stderr } => {
                let status = match code {
                    Some(c) => if c == 0 {
                        TaskStatus::Completed
                    } else {
                        TaskStatus::Failed
                    },
                    None => TaskStatus::Failed,
                };
                self.finalize(id, status, code);
                let body = text::trim(
                    stdout.concat("\n").concat(stderr.as_str()).as_str(),
                );
                if body.as_str().is_empty() {
                    "(no output)".to_string()
                } else {
                    truncate_chars(body.as_str(), MAX_OUTPUT_BYTES)
                }
            },
            WorkerEnd::WaitFailed(e) => {
                self.finalize(id, TaskStatus::Failed, None);
                "Error: wait failed: ".to_string().concat(e.as_str())
            },
            WorkerEnd::Panicked => {
                self.finalize(id, TaskStatus::Failed, None);
                "Error: worker panicked".to_string()
            },
        }
    }

    /// Reports the tasks that ended, and forgets them. `outputs` holds the texts of their
    /// output files, by id, as far as they could be read.
    pub fn collect(&mut self, outputs: &StrMap<String>) -> (r: Vec<String>)
        ensures
            text::views(r@) == notices(old(self)@.tasks, old(self)@.ready, outputs@),
            final(self)@ == old(self)@.collected(),
    {
        let ghost before = self@;
        let ghost ready = self@.ready;
        let mut out: Vec<String> = Vec::new();
        let mut i: usize = 0;
        proof {
            assert(ready.skip(0) =~= ready);
            assert(self@.tasks =~= before.tasks.remove_keys(ready.take(0).to_set()));
            assert(text::views(out@) + notices(before.tasks, ready, outputs@) =~= notices(
                before.tasks,
                ready,
                outputs@,
            ));
        }
        while i < self.ready.len()
            invariant
                i <= self.ready@.len(),
                self@.ready == ready,
                before == old(self)@,
                ready == before.ready,
                self@.output_dir == before.output_dir,
                self@.timeout_secs == before.timeout_secs,
                self@.tasks == before.tasks.remove_keys(ready.take(i as int).to_set()),
                notices(before.tasks, ready, outputs@) == text::views(out@) + notices(
                    self@.tasks,
                    ready.skip(i as int),
                    outputs@,
                ),
            decreases self.ready@.len() - i,
        {
            let id = self.ready[i].clone();
            let ghost tasks = self@.tasks;
            let ghost rest = ready.skip(i as int);
            let ghost written = text::views(out@);
            proof {
                assert(rest[0] == id@);
                assert(rest.skip(1) =~= ready.skip(i + 1));
            }
            let removed = self.tasks.remove(id.as_str());
            proof {
                assert(self@.tasks =~= tasks.remove(id@));
                assert(ready.take(i + 1) =~= ready.take(i as int).push(id@));
                one_more(ready, i as int);
                assert(self@.tasks =~= before.tasks.remove_keys(ready.take(i + 1).to_set()));
            }
            if let Some(task) = removed {
                let output = match outputs.get(id.as_str()) {
                    Some(s) => Some(s.as_str()),
                    None => None,
                };
                let note = format_notification(&task, output);
                out.push(note);
                proof {
                    assert(task@ == tasks[id@]);
                    assert(text::views(out@) =~= written.push(note@));
                    let tail = notices(self@.tasks, ready.skip(i + 1), outputs@);
                    assert(text::views(out@) + tail =~= written + (seq![note@] + tail));
                }
            }
            i += 1;
        }
        proof {
            assert(ready.take(ready.len() as int) =~= ready);
            assert(text::views(out@) + Seq::<Seq<char>>::empty() =~= text::views(out@));
        }
        self.ready = Vec::new();
        assert(self@.ready =~= Seq::<Seq<char>>::empty());
        out
    }

    /// Reports the tasks that ended in a message of its own. Gives their number, or nothing
    /// where none ended.
    pub fn collect_and_inject(&mut self, messages: &mut Vec<Message>, outputs: &StrMap<String>)
        -> (r: Option<usize>)
        ensures
            final(self)@ == old(self)@.collected(),
            ({
                let notes = notices(old(self)@.tasks, old(self)@.ready, outputs@);
                if notes.len() == 0 {
                    r is None && client::messages(final(messages)@) == client::messages(
                        old(messages)@,
                    )
                } else {
                    r == Some(notes.len() as usize) && r->0 == notes.len() && client::messages(
                        final(messages)@,
                    ) == client::messages(old(messages)@).push(
                        hooks::blocks_message(hooks::reminder_blocks(notes)),
                    )
                }
            }),
    {
        let notes = self.collect(outputs);
        let ghost ns = text::views(notes@);
        if notes.len() == 0 {
            return None;
        }
        let count: usize = notes.len();
        let mut blocks: Vec<ContentBlock> = Vec::new();
        let mut i: usize = 0;
        assert(client::blocks(blocks@) =~= hooks::reminder_blocks(ns).take(0));
        while i < notes.len()
            invariant
                i <= notes@.len(),
                ns == text::views(notes@),
                client::blocks(blocks@) == hooks::reminder_blocks(ns).take(i as int),
            decreases notes@.len() - i,
        {
            let ghost before = client::blocks(blocks@);
            let b = ContentBlock::Text { text: notes[i].clone() };
            blocks.push(b);
            assert(client::blocks(blocks@) =~= before.push(b@));
            assert(client::blocks(blocks@) =~= hooks::reminder_blocks(ns).take(i + 1));
            i += 1;
        }
        assert(hooks::reminder_blocks(ns).take(ns.len() as int) =~= hooks::reminder_blocks(ns));
        let ghost before = client::messages(messages@);
        messages.push(Message::user_blocks(blocks));
        assert(client::messages(messages@) =~= before.push(
            hooks::blocks_message(hooks::reminder_blocks(ns)),
        ));
        Some(count)
    }

    /// The file that holds a task's output.
    pub fn output_file(&self, task_id: &str) -> (r: Option<String>)
        ensures
            text::opt_view(r) == (if self@.tasks.contains_key(task_id@) {
                Some(self@.tasks[task_id@].output_file)
            } else {
                None
            }),
    {
        match self.tasks.get(task_id) {
            Some(t) => Some(t.output_file.clone()),
            None => None,
        }
    }

    /// Whether there is nothing to wait for: the task has ended, or there is no such task.
    pub fn is_done(&self, task_id: &str) -> (r: bool)
        ensures
            r == !running(self@.tasks).contains(task_id@),
    {
        match self.tasks.get(task_id) {
            Some(t) => t.status != TaskStatus::Running,
            None => true,
        }
    }

    /// Whether a request for a task's output goes on waiting: the task still runs, and the
    /// time that the request may wait is not over.
    pub fn keep_waiting(&self, task_id: &str, waited_ms: u64, timeout_ms: u64) -> (r: bool)
        ensures
            r == (running(self@.tasks).contains(task_id@) && waited_ms < timeout_ms),
    {
        !self.is_done(task_id) && waited_ms < timeout_ms
    }

    /// What is shown of a task, with the text of its output file as far as it could be read.
    pub fn output(&self, task_id: &str, content: Option<&str>) -> (r: String)
        ensures
            r@ == report(
                self@,
                task_id@,
                match content {
                    Some(s) => Some(s@),
                    None => None,
                },
            ),
    {
        match self.tasks.get(task_id) {
            Some(t) => {
                let body = match content {
                    Some(s) => text::trim(s),
                    None => {
                        let e = String::new();
                        assert(e@ =~= Seq::<char>::empty());
                        e
                    },
                };
                let body = truncate_chars(body.as_str(), MAX_OUTPUT_BYTES);
                "task_id: ".to_string().concat(task_id).concat("\nstatus: ").concat(
                    status_word(t.status),
                ).concat("\ncommand: ").concat(t.command.as_str()).concat("\nexit_code: ").concat(
                    print_exit(t.exit_code).as_str(),
                ).concat("\noutput:\n").concat(body.as_str())
            },
            None => "Error: task ".to_string().concat(task_id).concat(" not found"),
        }
    }

    /// The answer to a request to stop a task. Where the task runs, the caller signals its
    /// worker, which then ends as cancelled.
    pub fn stop(&self, task_id: &str) -> (r: String)
        ensures
            r@ == stop_answer(self@, task_id@),
    {
        match self.tasks.get(task_id) {
            None => "Error: task ".to_string().concat(task_id).concat(" not found"),
            Some(t) => if t.status == TaskStatus::Running {
                "[Stopped ".to_string().concat(task_id).concat("]")
            } else {
                "Task ".to_string().concat(task_id).concat(" already ").concat(
                    status_word(t.status),
                )
            },
        }
    }
}

/// The law of the limit: no operation lets more than [`MAX_CONCURRENT`] tasks run at once.
pub proof fn law_running_is_bounded(
    v: ManagerView,
    command: Seq<char>,
    tool_use_id: Seq<char>,
    started_at: u64,
    drawn: Seq<u32>,
    id: Seq<char>,
    end: EndView,
)
    requires
        running(v.tasks).finite(),
        running(v.tasks).len() <= MAX_CONCURRENT,
    ensures
        running(v.after_start(command, tool_use_id, started_at, drawn).tasks).len()
            <= MAX_CONCURRENT,
        running(v.ended(id, end.status(), end.exit_code()).tasks).len() <= MAX_CONCURRENT,
        running(v.collected().tasks).len() <= MAX_CONCURRENT,
{
    let before = running(v.tasks);
    let started = v.after_start(command, tool_use_id, started_at, drawn).tasks;
    if let Ok(new) = start_answer(v, command, drawn) {
        assert(running(started) =~= before.insert(new));
    }
    let ended = running(v.ended(id, end.status(), end.exit_code()).tasks);
    assert(ended.subset_of(before));
    vstd::set_lib::lemma_len_subset(ended, before);
    let collected = running(v.collected().tasks);
    assert(collected.subset_of(before));
    vstd::set_lib::lemma_len_subset(collected, before);
}

proof fn free_name_is_free(tasks: Map<Seq<char>, TaskView>, drawn: Seq<u32>, tries: nat)
    ensures
        match free_name(tasks, drawn, tries) {
            Some(id) => !tasks.contains_key(id),
            None => true,
        },
    decreases tries,
{
    if drawn.len() > 0 && tries > 0 {
        free_name_is_free(tasks, drawn.skip(1), (tries - 1) as nat);
    }
}

/// The law of ids: a started task takes no other task's place. Every task that was there is
/// still there, as it was.
pub proof fn law_start_keeps_the_others(
    v: ManagerView,
    command: Seq<char>,
    tool_use_id: Seq<char>,
    started_at: u64,
    drawn: Seq<u32>,
    id: Seq<char>,
)
    requires
        v.tasks.contains_key(id),
    ensures
        v.after_start(command, tool_use_id, started_at, drawn).tasks.contains_key(id),
        v.after_start(command, tool_use_id, started_at, drawn).tasks[id] == v.tasks[id],
{
    free_name_is_free(v.tasks, drawn, MAX_ID_RETRIES as nat);
}

/// The law of reporting: a task that ended is reported, with its final status, when the
/// reports are next collected.
pub proof fn law_ended_is_reported(
    v: ManagerView,
    id: Seq<char>,
    end: EndView,
    outputs: Map<Seq<char>, String>,
)
    requires
        v.tasks.contains_key(id),
    ensures
        ({
            let done = v.ended(id, end.status(), end.exit_code());
            notices(done.tasks, done.ready, outputs).contains(
                notification(done.tasks[id], output_of(outputs, id)),
            )
        }),
{
    let done = v.ended(id, end.status(), end.exit_code());
    assert(done.ready[done.ready.len() - 1] == id);
    listed_is_reported(done.tasks, done.ready, outputs, id);
}

proof fn listed_is_reported(
    tasks: Map<Seq<char>, TaskView>,
    ready: Seq<Seq<char>>,
    outputs: Map<Seq<char>, String>,
    id: Seq<char>,
)
    requires
        ready.contains(id),
        tasks.contains_key(id),
    ensures
        notices(tasks, ready, outputs).contains(notification(tasks[id], output_of(outputs, id))),
    decreases ready.len(),
{
    let all = notices(tasks, ready, outputs);
    let rest = notices(tasks.remove(ready[0]), ready.skip(1), outputs);
    let note = notification(tasks[id], output_of(outputs, id));
    if ready[0] == id {
        assert(all[0] == note);
    } else {
        let i = choose|i: int| 0 <= i < ready.len() && ready[i] == id;
        assert(ready.skip(1)[i - 1] == id);
        listed_is_reported(tasks.remove(ready[0]), ready.skip(1), outputs, id);
        let j = choose|j: int| 0 <= j < rest.len() && rest[j] == note;
        if tasks.contains_key(ready[0]) {
            assert(all[j + 1] == note);
        } else {
            assert(all[j] == note);
        }
    }
}

/// The law of single reports: what was collected is not collected again.
pub proof fn law_reported_once(v: ManagerView, outputs: Map<Seq<char>, String>, id: Seq<char>)
    requires
        v.ready.contains(id),
    ensures
        notices(v.collected().tasks, v.collected().ready, outputs).len() == 0,
        !v.collected().tasks.contains_key(id),
{
}

} // verus!
