//! What holds of the commands in the background.

use vstd::prelude::*;

use crate::background;
use crate::background::{EndView, ManagerView, TaskStatus, TaskView};
use crate::json;
use crate::paths;
use crate::text;

verus! {

/// The number that a hexadecimal digit stands for.
pub open spec fn digit_value(c: char) -> int {
    if '0' <= c <= '9' {
        c as int - '0' as int
    } else {
        c as int - 'a' as int + 10
    }
}

/// The number that hexadecimal digits stand for.
pub open spec fn hex_value(s: Seq<char>) -> int
    decreases s.len(),
{
    if s.len() == 0 {
        0
    } else {
        16 * hex_value(s.drop_last()) + digit_value(s.last())
    }
}

/// The power of sixteen with `width` as its exponent.
pub open spec fn power16(width: nat) -> nat
    decreases width,
{
    if width == 0 {
        1
    } else {
        16 * power16((width - 1) as nat)
    }
}

/// The law of hexadecimal digits: there are as many as asked for, and they stand for the
/// number, where it is not too large for them.
pub proof fn law_hex_stands_for_its_number(n: nat, width: nat)
    requires
        n < power16(width),
    ensures
        background::hex(n, width).len() == width,
        hex_value(background::hex(n, width)) == n,
        forall|i: int|
            0 <= i < width ==> {
                let c = #[trigger] background::hex(n, width)[i];
                '0' <= c <= '9' || 'a' <= c <= 'f'
            },
    decreases width,
{
    if width > 0 {
        let w = (width - 1) as nat;
        law_hex_stands_for_its_number(n / 16, w);
        let s = background::hex(n, width);
        assert(s.drop_last() =~= background::hex(n / 16, w));
        assert(s.last() == background::hex_digit(n % 16));
        assert(digit_value(background::hex_digit(n % 16)) == n % 16);
        assert forall|i: int| 0 <= i < width implies {
            let c = #[trigger] s[i];
            '0' <= c <= '9' || 'a' <= c <= 'f'
        } by {
            if i < w {
                assert(s[i] == background::hex(n / 16, w)[i]);
            }
        }
    }
}

/// The law of ids: different numbers give different ids.
pub proof fn law_ids_differ(a: u32, b: u32)
    requires
        a != b,
    ensures
        background::task_name(a) != background::task_name(b),
{
    assert(power16(8) == 0x1_0000_0000) by {
        reveal_with_fuel(power16, 9);
    }
    law_hex_stands_for_its_number(a as nat, 8);
    law_hex_stands_for_its_number(b as nat, 8);
    let p = "bg_"@;
    if background::task_name(a) == background::task_name(b) {
        assert(background::hex(a as nat, 8) =~= background::task_name(a).skip(p.len() as int));
        assert(background::hex(b as nat, 8) =~= background::task_name(b).skip(p.len() as int));
    }
}

/// The law of free ids: of the numbers drawn, as far as they are tried, the first whose id
/// no task has gives the id; there is none only where all of them are in use.
pub proof fn law_the_first_free_id_is_taken(
    tasks: Map<Seq<char>, TaskView>,
    drawn: Seq<u32>,
    tries: nat,
)
    ensures
        match background::free_name(tasks, drawn, tries) {
            Some(id) => !tasks.contains_key(id) && exists|i: int|
                0 <= i < drawn.len() && i < tries && background::task_name(#[trigger] drawn[i])
                    == id && forall|j: int|
                    0 <= j < i ==> tasks.contains_key(background::task_name(#[trigger] drawn[j])),
            None => forall|j: int|
                0 <= j < drawn.len() && j < tries ==> tasks.contains_key(
                    background::task_name(#[trigger] drawn[j]),
                ),
        },
    decreases tries,
{
    if drawn.len() > 0 && tries > 0 {
        if tasks.contains_key(background::task_name(drawn[0])) {
            let rest = drawn.skip(1);
            law_the_first_free_id_is_taken(tasks, rest, (tries - 1) as nat);
            match background::free_name(tasks, rest, (tries - 1) as nat) {
                Some(id) => {
                    let i = choose|i: int|
                        0 <= i < rest.len() && i < tries - 1 && background::task_name(
                            #[trigger] rest[i],
                        ) == id && forall|j: int|
                            0 <= j < i ==> tasks.contains_key(
                                background::task_name(#[trigger] rest[j]),
                            );
                    assert(background::task_name(drawn[i + 1]) == id);
                    assert forall|j: int| 0 <= j < i + 1 implies tasks.contains_key(
                        background::task_name(#[trigger] drawn[j]),
                    ) by {
                        if j > 0 {
                            assert(rest[j - 1] == drawn[j]);
                        }
                    }
                },
                None => {
                    assert forall|j: int| 0 <= j < drawn.len() && j < tries implies tasks.contains_key(
                        background::task_name(#[trigger] drawn[j]),
                    ) by {
                        if j > 0 {
                            assert(rest[j - 1] == drawn[j]);
                        }
                    }
                },
            }
        } else {
            assert(background::free_name(tasks, drawn, tries) == Some(
                background::task_name(drawn[0]),
            ));
        }
    }
}

/// The law of starts: a task starts exactly where there is a command, fewer tasks run than
/// may, and an id is free; it then runs, new, with what was asked for; and nothing else
/// changes. Where it does not start, nothing changes.
pub proof fn law_when_a_task_starts(
    v: ManagerView,
    command: Seq<char>,
    tool_use_id: Seq<char>,
    started_at: u64,
    drawn: Seq<u32>,
)
    ensures
        ({
            let answer = background::start_answer(v, command, drawn);
            let w = v.after_start(command, tool_use_id, started_at, drawn);
            let running = v.tasks.dom().filter(
                |k: Seq<char>| v.tasks[k].status == TaskStatus::Running,
            );
            &&& answer is Ok <==> text::trimmed(command).len() > 0 && running.len()
                < background::MAX_CONCURRENT && exists|i: int|
                0 <= i < drawn.len() && i < background::MAX_ID_RETRIES && !v.tasks.contains_key(
                    background::task_name(#[trigger] drawn[i]),
                )
            &&& answer is Err ==> w == v
            &&& answer is Ok ==> {
                let id = answer->Ok_0;
                let t = w.tasks[id];
                &&& !v.tasks.contains_key(id)
                &&& w.tasks.dom() == v.tasks.dom().insert(id)
                &&& forall|k: Seq<char>|
                    v.tasks.contains_key(k) ==> #[trigger] w.tasks[k] == v.tasks[k]
                &&& t.id == id && t.status == TaskStatus::Running && t.exit_code is None
                &&& t.command == text::trimmed(command) && t.tool_use_id == tool_use_id
                    && t.started_at == started_at
                &&& t.output_file == paths::joined_path(v.output_dir, id + ".log"@)
                &&& w.ready == v.ready
            }
        }),
{
    law_the_first_free_id_is_taken(v.tasks, drawn, background::MAX_ID_RETRIES as nat);
    let w = v.after_start(command, tool_use_id, started_at, drawn);
    if let Ok(id) = background::start_answer(v, command, drawn) {
        assert(w.tasks.dom() =~= v.tasks.dom().insert(id));
    }
}

/// The law of ends: a command that ended with code zero is completed, one that was stopped
/// on request is cancelled, and every other has failed; only one that ended has its code.
pub proof fn law_how_tasks_end(end: EndView)
    ensures
        end.status() == TaskStatus::Completed <==> end is Exited && end->code == Some(0i32),
        end.status() == TaskStatus::Cancelled <==> end is Cancelled,
        end.status() != TaskStatus::Running,
        end is Exited ==> end.exit_code() == end->code,
        !(end is Exited) ==> end.exit_code() is None,
{
}

/// The law of output: of a command that ended all that it wrote is kept, its output first
/// and its errors behind, without white space round them, as far as there is room; one that
/// wrote nothing says so.
pub proof fn law_output_is_kept(
    code: Option<i32>,
    stdout: Seq<char>,
    stderr: Seq<char>,
    secs: u64,
)
    ensures
        ({
            let out = (EndView::Exited { code, stdout, stderr }).text(secs);
            let all = text::trimmed(stdout + "\n"@ + stderr);
            &&& all.len() == 0 ==> out == "(no output)"@
            &&& all.len() > 0 ==> out.is_prefix_of(all) && text::utf8_len(out)
                <= background::MAX_OUTPUT_BYTES
            &&& all.len() > 0 && text::utf8_len(all) <= background::MAX_OUTPUT_BYTES ==> out == all
            &&& all.len() > 0 && out.len() < all.len() ==> text::utf8_len(
                all.take(out.len() as int + 1),
            ) > background::MAX_OUTPUT_BYTES
        }),
{
    let all = text::trimmed(stdout + "\n"@ + stderr);
    background::law_fitting_is_longest(all, background::MAX_OUTPUT_BYTES as nat);
}

/// The law of noted ends: an ended task has its status and its code, waits behind the others
/// to be reported, and stays what it was in all else; no other task is touched.
pub proof fn law_an_end_touches_one_task(
    v: ManagerView,
    id: Seq<char>,
    status: TaskStatus,
    code: Option<i32>,
    other: Seq<char>,
)
    ensures
        ({
            let w = v.ended(id, status, code);
            &&& !v.tasks.contains_key(id) ==> w == v
            &&& v.tasks.contains_key(id) ==> {
                &&& w.tasks.contains_key(id)
                &&& w.tasks[id].status == status && w.tasks[id].exit_code == code
                &&& w.tasks[id].id == v.tasks[id].id && w.tasks[id].command == v.tasks[id].command
                &&& w.tasks[id].tool_use_id == v.tasks[id].tool_use_id
                &&& w.tasks[id].output_file == v.tasks[id].output_file
                &&& w.ready.len() == v.ready.len() + 1 && w.ready.drop_last() == v.ready
                &&& w.ready.last() == id
            }
            &&& other != id ==> w.tasks.contains_key(other) == v.tasks.contains_key(other)
                && w.tasks[other] == v.tasks[other]
        }),
{
    let w = v.ended(id, status, code);
    if v.tasks.contains_key(id) {
        assert(w.ready.drop_last() =~= v.ready);
    }
}

/// The law of reports: every ended task is reported once, in the order in which they ended,
/// with its own output, and no other task is.
pub proof fn law_reports_follow_the_ends(
    tasks: Map<Seq<char>, TaskView>,
    ready: Seq<Seq<char>>,
    outputs: Map<Seq<char>, String>,
)
    requires
        ready.no_duplicates(),
        forall|i: int| 0 <= i < ready.len() ==> tasks.contains_key(#[trigger] ready[i]),
    ensures
        background::notices(tasks, ready, outputs).len() == ready.len(),
        forall|i: int|
            0 <= i < ready.len() ==> background::notices(tasks, ready, outputs)[i]
                == background::notification(
                tasks[#[trigger] ready[i]],
                if outputs.contains_key(ready[i]) {
                    Some(outputs[ready[i]]@)
                } else {
                    None
                },
            ),
    decreases ready.len(),
{
    if ready.len() > 0 {
        let rest = ready.skip(1);
        let fewer = tasks.remove(ready[0]);
        assert forall|i: int| 0 <= i < rest.len() implies fewer.contains_key(#[trigger] rest[i])
            && fewer[rest[i]] == tasks[rest[i]] by {
            assert(rest[i] == ready[i + 1]);
            assert(ready[i + 1] != ready[0]);
        }
        assert(rest.no_duplicates()) by {
            assert forall|i: int, j: int| 0 <= i < j < rest.len() implies rest[i] != rest[j] by {
                assert(rest[i] == ready[i + 1] && rest[j] == ready[j + 1]);
            }
        }
        law_reports_follow_the_ends(fewer, rest, outputs);
        let all = background::notices(tasks, ready, outputs);
        let more = background::notices(fewer, rest, outputs);
        assert forall|i: int| 0 <= i < ready.len() implies all[i] == background::notification(
            tasks[#[trigger] ready[i]],
            if outputs.contains_key(ready[i]) {
                Some(outputs[ready[i]]@)
            } else {
                None
            },
        ) by {
            if i > 0 {
                assert(all[i] == more[i - 1]);
                assert(rest[i - 1] == ready[i]);
            }
        }
    }
}

/// The law of collecting: what was reported is gone, and what was not stays as it was.
pub proof fn law_collecting_keeps_the_rest(v: ManagerView, id: Seq<char>)
    ensures
        v.collected().ready.len() == 0,
        v.collected().tasks.contains_key(id) <==> v.tasks.contains_key(id) && !v.ready.contains(id),
        v.collected().tasks.contains_key(id) ==> v.collected().tasks[id] == v.tasks[id],
{
}

/// The law of notifications: a notification has the beginning of the task's output, without
/// white space round it, and says where the output is not known.
pub proof fn law_summaries(output: Seq<char>)
    ensures
        background::summary(Some(output)).is_prefix_of(text::trimmed(output)),
        text::trimmed(output).len() <= background::SUMMARY_CHARS ==> background::summary(
            Some(output),
        ) == text::trimmed(output),
        text::trimmed(output).len() > background::SUMMARY_CHARS ==> background::summary(
            Some(output),
        ).len() == background::SUMMARY_CHARS,
        background::summary(None) == "(output unavailable)"@,
{
    let t = text::trimmed(output);
    let s = background::summary(Some(output));
    assert(s =~= t.take(s.len() as int));
}

/// The law of shown tasks: what is shown of a task has its id, its status, its command and
/// the beginning of its output; of an unknown task nothing is shown but that it is.
pub proof fn law_what_is_shown_of_a_task(
    v: ManagerView,
    id: Seq<char>,
    output: Option<Seq<char>>,
)
    ensures
        ({
            let out = background::report(v, id, output);
            let body = match output {
                Some(s) => text::trimmed(s),
                None => Seq::empty(),
            };
            &&& v.tasks.contains_key(id) ==> text::begins(
                out,
                "task_id: "@ + id + "\nstatus: "@ + v.tasks[id].status.word() + "\ncommand: "@
                    + v.tasks[id].command,
            ) && text::ends(
                out,
                "\noutput:\n"@ + background::fitting(body, background::MAX_OUTPUT_BYTES as nat),
            )
            &&& !v.tasks.contains_key(id) ==> out == "Error: task "@ + id + " not found"@
        }),
{
    let out = background::report(v, id, output);
    if v.tasks.contains_key(id) {
        let body = match output {
            Some(s) => text::trimmed(s),
            None => Seq::empty(),
        };
        let head = "task_id: "@ + id + "\nstatus: "@ + v.tasks[id].status.word() + "\ncommand: "@
            + v.tasks[id].command;
        let tail = "\noutput:\n"@ + background::fitting(body, background::MAX_OUTPUT_BYTES as nat);
        assert(out.subrange(0, head.len() as int) =~= head);
        assert(out.subrange(out.len() - tail.len(), out.len() as int) =~= tail);
    }
}

/// The law of stopping: only a task that runs is stopped; of one that ended the status is
/// told, and of an unknown one that it is unknown.
pub proof fn law_only_running_tasks_are_stopped(v: ManagerView, id: Seq<char>)
    ensures
        ({
            let out = background::stop_answer(v, id);
            &&& !v.tasks.contains_key(id) ==> out == "Error: task "@ + id + " not found"@
            &&& v.tasks.contains_key(id) && v.tasks[id].status == TaskStatus::Running ==> out
                == "[Stopped "@ + id + "]"@
            &&& v.tasks.contains_key(id) && v.tasks[id].status != TaskStatus::Running ==> out
                == "Task "@ + id + " already "@ + v.tasks[id].status.word()
        }),
{
}

/// The law of waking: the loop goes on exactly where there are reports, with all of them.
pub proof fn law_reports_wake_the_loop(notes: Seq<Seq<char>>)
    ensures
        background::tools::wake_text(notes) is Some <==> notes.len() > 0,
        notes.len() > 0 ==> background::tools::wake_text(notes) == Some(
            text::joined(notes, "\n"@),
        ),
{
}

/// The law of requests for output: one names its task, waits only where it says so, and as
/// long as it says, or as long as usual.
pub proof fn law_requests_for_output(input: Seq<char>)
    ensures
        ({
            let r = background::tools::output_request(input);
            let id = json::text_str_member(input, "task_id"@);
            let ms = json::text_u64_member(input, "timeout_ms"@);
            &&& r is Ok <==> id is Some
            &&& r is Ok ==> r->Ok_0.task_id == id->0
            &&& r is Ok ==> (r->Ok_0.block <==> json::text_bool_member(input, "block"@) == Some(
                true,
            ))
            &&& r is Ok && ms is Some ==> r->Ok_0.timeout_ms == ms->0
            &&& r is Ok && ms is None ==> r->Ok_0.timeout_ms
                == background::tools::DEFAULT_WAIT_MS
        }),
{
}

} // verus!
