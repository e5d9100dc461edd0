//! What compaction keeps of a conversation.

use vstd::prelude::*;

use crate::client;
use crate::compact;

verus! {

/// Every tool result stands directly behind a message that calls a tool.
pub open spec fn results_follow_calls(ms: Seq<client::MessageView>) -> bool {
    forall|i: int|
        0 <= i < ms.len() && compact::holds_result(#[trigger] ms[i]) ==> i > 0
            && compact::holds_call(ms[i - 1])
}

/// Every tool call but one in the last message is followed directly by its result.
pub open spec fn calls_are_answered(ms: Seq<client::MessageView>) -> bool {
    forall|i: int|
        0 <= i < ms.len() - 1 && compact::holds_call(#[trigger] ms[i]) ==> compact::holds_result(
            ms[i + 1],
        )
}

/// Two conversations with the same tool calls and results at the same places.
pub open spec fn same_shape(a: Seq<client::MessageView>, b: Seq<client::MessageView>) -> bool {
    &&& a.len() == b.len()
    &&& forall|i: int|
        0 <= i < a.len() ==> compact::holds_call(#[trigger] a[i]) == compact::holds_call(b[i])
            && compact::holds_result(a[i]) == compact::holds_result(b[i])
}

/// The same kind of block, with the same identifiers.
pub open spec fn same_block_identity(a: client::BlockView, b: client::BlockView) -> bool {
    match a {
        client::BlockView::ToolResult { tool_use_id, .. } => b is ToolResult && b->tool_use_id
            == tool_use_id,
        _ => a == b,
    }
}

pub open spec fn same_blocks_identity(
    a: Seq<client::BlockView>,
    b: Seq<client::BlockView>,
) -> bool {
    &&& a.len() == b.len()
    &&& forall|i: int| 0 <= i < a.len() ==> same_block_identity(#[trigger] a[i], b[i])
}

proof fn roles_differ()
    ensures
        "user"@ != "assistant"@,
{
    reveal_strlit("user");
    reveal_strlit("assistant");
    assert("user"@.len() != "assistant"@.len());
}

proof fn identity_keeps_kind(a: client::MessageView, b: client::MessageView)
    requires
        a.role == b.role,
        same_blocks_identity(a.content, b.content),
    ensures
        compact::holds_call(a) == compact::holds_call(b),
        compact::holds_result(a) == compact::holds_result(b),
{
    if compact::holds_call(a) {
        let i = choose|i: int| 0 <= i < a.content.len() && (#[trigger] a.content[i]) is ToolUse;
        assert(same_block_identity(a.content[i], b.content[i]));
        assert(b.content[i] is ToolUse);
    }
    if compact::holds_call(b) {
        let i = choose|i: int| 0 <= i < b.content.len() && (#[trigger] b.content[i]) is ToolUse;
        assert(same_block_identity(a.content[i], b.content[i]));
        assert(a.content[i] is ToolUse);
    }
    if compact::holds_result(a) {
        let i = choose|i: int| 0 <= i < a.content.len() && (#[trigger] a.content[i]) is ToolResult;
        assert(same_block_identity(a.content[i], b.content[i]));
        assert(b.content[i] is ToolResult);
    }
    if compact::holds_result(b) {
        let i = choose|i: int| 0 <= i < b.content.len() && (#[trigger] b.content[i]) is ToolResult;
        assert(same_block_identity(a.content[i], b.content[i]));
        assert(a.content[i] is ToolResult);
    }
}

proof fn moving_keeps_identity(
    dir: Seq<char>,
    ready: bool,
    bs: Seq<client::BlockView>,
    order: Seq<int>,
    total: int,
)
    requires
        forall|k: int|
            0 <= k < order.len() ==> 0 <= #[trigger] order[k] < bs.len()
                && bs[order[k]] is ToolResult,
    ensures
        same_blocks_identity(bs, compact::moved_out(dir, ready, bs, order, total).0),
    decreases order.len(),
{
    if order.len() > 0 && total > compact::TOOL_RESULT_BATCH_CHAR_LIMIT {
        let b = bs[order[0]];
        assert(forall|k: int| 0 <= k < order.skip(1).len() ==> order.skip(1)[k] == order[k + 1]);
        if compact::result_size(b) <= compact::LARGE_RESULT_CHAR_LIMIT {
            moving_keeps_identity(dir, ready, bs, order.skip(1), total);
        } else {
            let nb = compact::persisted_block(dir, ready, b);
            let next = bs.update(order[0], nb);
            let t = total - compact::result_size(b) + compact::result_size(nb);
            assert(nb is ToolResult);
            moving_keeps_identity(dir, ready, next, order.skip(1), t);
            let out = compact::moved_out(dir, ready, next, order.skip(1), t).0;
            assert forall|i: int| 0 <= i < bs.len() implies same_block_identity(
                #[trigger] bs[i],
                out[i],
            ) by {
                assert(same_block_identity(next[i], out[i]));
            }
        }
    }
}

/// Moving results to files keeps every block in its place, with its kind and its ids.
pub proof fn law_budget_keeps_blocks(dir: Seq<char>, ready: bool, bs: Seq<client::BlockView>)
    ensures
        same_blocks_identity(bs, compact::budgeted_blocks(dir, ready, bs).0),
{
    compact::largest_first_members(bs, bs.len() as int);
    moving_keeps_identity(
        dir,
        ready,
        bs,
        compact::largest_first(bs, bs.len() as int),
        compact::total_size(bs, bs.len() as int) as int,
    );
}

proof fn order_is_distinct(bs: Seq<client::BlockView>, n: int)
    requires
        n <= bs.len(),
    ensures
        compact::largest_first(bs, n).no_duplicates(),
        forall|i: int|
            0 <= i < n && (#[trigger] bs[i]) is ToolResult ==> compact::largest_first(
                bs,
                n,
            ).contains(i),
    decreases n,
{
    if n > 0 {
        order_is_distinct(bs, n - 1);
        compact::largest_first_members(bs, n - 1);
        let order = compact::largest_first(bs, n - 1);
        let size = compact::result_size(bs[n - 1]);
        let p = compact::place(bs, order, size);
        compact::place_bounds(bs, order, size);
        let all = compact::largest_first(bs, n);
        if bs[n - 1] is ToolResult {
            assert(all =~= order.insert(p, n - 1));
            assert(forall|k: int| 0 <= k < p ==> all[k] == order[k]);
            assert(forall|k: int| p < k < all.len() ==> all[k] == order[k - 1]);
            assert(all[p] == n - 1);
            assert forall|i: int| 0 <= i < n && (#[trigger] bs[i]) is ToolResult implies all.contains(
                i,
            ) by {
                if i < n - 1 {
                    let k = choose|k: int| 0 <= k < order.len() && order[k] == i;
                    if k < p {
                        assert(all[k] == i);
                    } else {
                        assert(all[k + 1] == i);
                    }
                }
            }
        }
    }
}

/// The order in which results are moved: no larger result comes after a smaller one.
pub proof fn law_largest_first(bs: Seq<client::BlockView>, n: int)
    requires
        n <= bs.len(),
    ensures
        forall|a: int, b: int|
            0 <= a < b < compact::largest_first(bs, n).len() ==> compact::result_size(
                bs[#[trigger] compact::largest_first(bs, n)[a]],
            ) >= compact::result_size(bs[#[trigger] compact::largest_first(bs, n)[b]]),
    decreases n,
{
    if n > 0 {
        law_largest_first(bs, n - 1);
        let order = compact::largest_first(bs, n - 1);
        let size = compact::result_size(bs[n - 1]);
        let p = compact::place(bs, order, size);
        place_splits(bs, order, size);
        let all = compact::largest_first(bs, n);
        if bs[n - 1] is ToolResult {
            assert(all =~= order.insert(p, n - 1));
            assert forall|a: int, b: int| 0 <= a < b < all.len() implies compact::result_size(
                bs[#[trigger] all[a]],
            ) >= compact::result_size(bs[#[trigger] all[b]]) by {
                let x = if a < p { a } else { a - 1 };
                let y = if b < p { b } else { b - 1 };
                if a == p {
                    assert(all[b] == order[b - 1]);
                    assert(compact::result_size(bs[order[p]]) < size);
                    if p < b - 1 {
                        assert(compact::result_size(bs[order[p]]) >= compact::result_size(
                            bs[order[b - 1]],
                        ));
                    }
                } else if b == p {
                    assert(all[a] == order[a]);
                } else {
                    assert(all[a] == order[x]);
                    assert(all[b] == order[y]);
                }
            }
        }
    }
}

proof fn place_splits(bs: Seq<client::BlockView>, order: Seq<int>, size: nat)
    ensures
        0 <= compact::place(bs, order, size) <= order.len(),
        forall|k: int|
            0 <= k < compact::place(bs, order, size) ==> compact::result_size(
                bs[#[trigger] order[k]],
            ) >= size,
        compact::place(bs, order, size) < order.len() ==> compact::result_size(
            bs[order[compact::place(bs, order, size)]],
        ) < size,
    decreases order.len(),
{
    if order.len() > 0 && compact::result_size(bs[order[0]]) >= size {
        place_splits(bs, order.skip(1), size);
        let q = compact::place(bs, order.skip(1), size);
        assert forall|k: int| 0 <= k < compact::place(bs, order, size) implies compact::result_size(
            bs[#[trigger] order[k]],
        ) >= size by {
            if k > 0 {
                assert(order.skip(1)[k - 1] == order[k]);
            }
        }
        if q < order.skip(1).len() {
            assert(order.skip(1)[q] == order[q + 1]);
        }
    }
}

proof fn moving_reaches_limit(
    dir: Seq<char>,
    ready: bool,
    bs: Seq<client::BlockView>,
    order: Seq<int>,
    total: int,
)
    requires
        order.no_duplicates(),
        forall|k: int| 0 <= k < order.len() ==> 0 <= #[trigger] order[k] < bs.len(),
        total == compact::total_size(bs, bs.len() as int),
    ensures
        ({
            let out = compact::moved_out(dir, ready, bs, order, total).0;
            &&& out.len() == bs.len()
            &&& forall|i: int|
                0 <= i < bs.len() && !order.contains(i) ==> #[trigger] out[i] == bs[i]
            &&& forall|i: int|
                0 <= i < bs.len() ==> #[trigger] out[i] == bs[i] || (compact::result_size(bs[i])
                    > compact::LARGE_RESULT_CHAR_LIMIT && out[i] == compact::persisted_block(
                    dir,
                    ready,
                    bs[i],
                ))
            &&& compact::total_size(out, out.len() as int) <= compact::TOOL_RESULT_BATCH_CHAR_LIMIT
                || forall|k: int|
                0 <= k < order.len() && compact::result_size(bs[#[trigger] order[k]])
                    > compact::LARGE_RESULT_CHAR_LIMIT ==> out[order[k]]
                    == compact::persisted_block(dir, ready, bs[order[k]])
        }),
    decreases order.len(),
{
    if order.len() > 0 && total > compact::TOOL_RESULT_BATCH_CHAR_LIMIT {
        let b = bs[order[0]];
        let rest = order.skip(1);
        assert(forall|k: int| 0 <= k < rest.len() ==> #[trigger] rest[k] == order[k + 1]);
        assert(!rest.contains(order[0])) by {
            if rest.contains(order[0]) {
                let k = choose|k: int| 0 <= k < rest.len() && rest[k] == order[0];
                assert(order[k + 1] == order[0]);
            }
        }
        assert forall|i: int| !order.contains(i) implies !rest.contains(i) by {
            if rest.contains(i) {
                let k = choose|k: int| 0 <= k < rest.len() && rest[k] == i;
                assert(order[k + 1] == i);
            }
        }
        if compact::result_size(b) <= compact::LARGE_RESULT_CHAR_LIMIT {
            moving_reaches_limit(dir, ready, bs, rest, total);
            let out = compact::moved_out(dir, ready, bs, rest, total).0;
            assert forall|k: int|
                0 <= k < order.len() && compact::result_size(bs[#[trigger] order[k]])
                    > compact::LARGE_RESULT_CHAR_LIMIT && compact::total_size(
                    out,
                    out.len() as int,
                ) > compact::TOOL_RESULT_BATCH_CHAR_LIMIT implies out[order[k]]
                == compact::persisted_block(dir, ready, bs[order[k]]) by {
                assert(k > 0);
                assert(rest[k - 1] == order[k]);
            }
        } else {
            let nb = compact::persisted_block(dir, ready, b);
            let next = bs.update(order[0], nb);
            let t = total - compact::result_size(b) + compact::result_size(nb);
            compact::total_after_update(bs, bs.len() as int, order[0], nb);
            moving_reaches_limit(dir, ready, next, rest, t);
            let out = compact::moved_out(dir, ready, next, rest, t).0;
            assert(out[order[0]] == nb);
            assert forall|k: int|
                0 <= k < order.len() && compact::result_size(bs[#[trigger] order[k]])
                    > compact::LARGE_RESULT_CHAR_LIMIT && compact::total_size(
                    out,
                    out.len() as int,
                ) > compact::TOOL_RESULT_BATCH_CHAR_LIMIT implies out[order[k]]
                == compact::persisted_block(dir, ready, bs[order[k]]) by {
                if k > 0 {
                    assert(rest[k - 1] == order[k]);
                    assert(order[k] != order[0]);
                    assert(next[order[k]] == bs[order[k]]);
                }
            }
        }
    }
}

/// After the budget the newest results are within the limit together, or every single
/// large one of them has gone to a file. Results that are not large are never touched.
pub proof fn law_budget_reaches_limit(dir: Seq<char>, ready: bool, bs: Seq<client::BlockView>)
    ensures
        ({
            let out = compact::budgeted_blocks(dir, ready, bs).0;
            &&& out.len() == bs.len()
            &&& forall|i: int|
                0 <= i < bs.len() && compact::result_size(bs[i])
                    <= compact::LARGE_RESULT_CHAR_LIMIT ==> #[trigger] out[i] == bs[i]
            &&& compact::total_size(out, out.len() as int) <= compact::TOOL_RESULT_BATCH_CHAR_LIMIT
                || forall|i: int|
                0 <= i < bs.len() && compact::result_size(bs[i])
                    > compact::LARGE_RESULT_CHAR_LIMIT ==> #[trigger] out[i]
                    == compact::persisted_block(dir, ready, bs[i])
        }),
{
    let order = compact::largest_first(bs, bs.len() as int);
    let total = compact::total_size(bs, bs.len() as int) as int;
    compact::largest_first_members(bs, bs.len() as int);
    order_is_distinct(bs, bs.len() as int);
    moving_reaches_limit(dir, ready, bs, order, total);
    let out = compact::budgeted_blocks(dir, ready, bs).0;
    assert forall|i: int|
        0 <= i < bs.len() && compact::result_size(bs[i]) > compact::LARGE_RESULT_CHAR_LIMIT
            && compact::total_size(out, out.len() as int)
            > compact::TOOL_RESULT_BATCH_CHAR_LIMIT implies #[trigger] out[i]
        == compact::persisted_block(dir, ready, bs[i]) by {
        assert(bs[i] is ToolResult);
        let k = choose|k: int| 0 <= k < order.len() && order[k] == i;
        assert(order[k] == i);
    }
}

/// The budget leaves calls and results where they are.
pub proof fn law_budget_keeps_shape(dir: Seq<char>, ready: bool, ms: Seq<client::MessageView>)
    ensures
        same_shape(ms, compact::budgeted(dir, ready, ms)),
{
    let out = compact::budgeted(dir, ready, ms);
    if ms.len() > 0 && ms.last().role == "user"@ {
        law_budget_keeps_blocks(dir, ready, ms.last().content);
        identity_keeps_kind(ms.last(), out.last());
        assert forall|i: int| 0 <= i < ms.len() implies compact::holds_call(#[trigger] ms[i])
            == compact::holds_call(out[i]) && compact::holds_result(ms[i])
            == compact::holds_result(out[i]) by {
            if i < ms.len() - 1 {
                assert(out[i] == ms[i]);
            }
        }
    }
}

/// Reducing old results keeps every block in its place, with its kind and its ids.
pub proof fn law_reduction_keeps_blocks(ms: Seq<client::MessageView>, i: int)
    requires
        0 <= i < ms.len(),
    ensures
        compact::reduced(ms).len() == ms.len(),
        compact::reduced(ms)[i].role == ms[i].role,
        same_blocks_identity(ms[i].content, compact::reduced(ms)[i].content),
{
}

/// Reducing old results leaves calls and results where they are.
pub proof fn law_reduction_keeps_shape(ms: Seq<client::MessageView>)
    ensures
        same_shape(ms, compact::reduced(ms)),
{
    assert forall|i: int| 0 <= i < ms.len() implies compact::holds_call(#[trigger] ms[i])
        == compact::holds_call(compact::reduced(ms)[i]) && compact::holds_result(ms[i])
        == compact::holds_result(compact::reduced(ms)[i]) by {
        law_reduction_keeps_blocks(ms, i);
        identity_keeps_kind(ms[i], compact::reduced(ms)[i]);
    }
}

/// The newest tool results stay as they are: a block with fewer than the kept number of
/// results from it on is not changed.
pub proof fn law_newest_results_stay(ms: Seq<client::MessageView>, i: int, j: int)
    requires
        0 <= i < ms.len(),
        0 <= j < ms[i].content.len(),
        compact::results_before(ms, i) + compact::results_in(ms[i].content.take(j))
            + compact::KEEP_RECENT_RESULTS >= compact::results_before(ms, ms.len() as int),
    ensures
        compact::reduced(ms)[i].content[j] == ms[i].content[j],
{
}

proof fn shape_keeps_pairs(a: Seq<client::MessageView>, b: Seq<client::MessageView>)
    requires
        same_shape(a, b),
    ensures
        results_follow_calls(a) ==> results_follow_calls(b),
        calls_are_answered(a) ==> calls_are_answered(b),
{
    if results_follow_calls(a) {
        assert forall|i: int| 0 <= i < b.len() && compact::holds_result(#[trigger] b[i]) implies i > 0
            && compact::holds_call(b[i - 1]) by {
            assert(compact::holds_result(a[i]));
            assert(compact::holds_call(a[i - 1]));
        }
    }
    if calls_are_answered(a) {
        assert forall|i: int|
            0 <= i < b.len() - 1 && compact::holds_call(
                #[trigger] b[i],
            ) implies compact::holds_result(b[i + 1]) by {
            assert(compact::holds_call(a[i]));
            assert(compact::holds_result(a[i + 1]));
        }
    }
}

proof fn past_results_bounds(ms: Seq<client::MessageView>, i: int, stop: int)
    requires
        i <= stop,
    ensures
        i <= compact::past_results(ms, i, stop) <= stop,
        forall|k: int|
            i <= k < compact::past_results(ms, i, stop) ==> compact::holds_result(#[trigger] ms[k]),
    decreases stop - i,
{
    if i < stop && compact::holds_result(ms[i]) {
        past_results_bounds(ms, i + 1, stop);
    }
}

proof fn note_is_plain(role: Seq<char>, text: Seq<char>)
    ensures
        !compact::holds_call(client::text_message(role, text)),
        !compact::holds_result(client::text_message(role, text)),
{
    let m = client::text_message(role, text);
    assert(m.content.len() == 1);
    assert(m.content[0] is Text);
}

/// Archiving the middle parts no tool call from its result.
pub proof fn law_snip_keeps_pairs(ms: Seq<client::MessageView>, max: int, path: Seq<char>)
    requires
        ms.len() <= max || max > compact::SNIP_HEAD,
    ensures
        results_follow_calls(ms) ==> results_follow_calls(compact::snipped(ms, max, path)),
        results_follow_calls(ms) && calls_are_answered(ms) ==> calls_are_answered(
            compact::snipped(ms, max, path),
        ),
{
    roles_differ();
    if let Some((h, t)) = compact::snip_cut(ms, max) {
        let note = compact::archive_note((t - h) as nat, path);
        let out = compact::snipped(ms, max, path);
        let tail = ms.len() - (max - compact::SNIP_HEAD);
        note_is_plain(
            "user"@,
            "["@ + crate::text::decimal((t - h) as nat) + " messages archived at "@ + path + "]"@,
        );
        if compact::holds_call(ms[compact::SNIP_HEAD - 1]) && compact::SNIP_HEAD <= tail {
            past_results_bounds(ms, compact::SNIP_HEAD as int, tail);
        }
        assert(compact::SNIP_HEAD <= h < t < ms.len());
        assert(forall|i: int| 0 <= i < h ==> out[i] == ms[i]);
        assert(out[h] == note);
        assert(forall|i: int| h < i < out.len() ==> out[i] == ms[i - h - 1 + t]);
        if results_follow_calls(ms) {
            assert forall|i: int|
                0 <= i < out.len() && compact::holds_result(#[trigger] out[i]) implies i > 0
                && compact::holds_call(out[i - 1]) by {
                if i < h {
                    assert(compact::holds_result(ms[i]));
                    assert(out[i - 1] == ms[i - 1]);
                } else if i > h {
                    let k = i - h - 1 + t;
                    assert(compact::holds_result(ms[k]));
                    if i == h + 1 {
                        // The tail begins with a result: then it was moved to the call before.
                        assert(k == t);
                        assert(t == tail - 1 || t == tail);
                        assert(compact::holds_call(ms[t - 1]));
                        if t == tail - 1 {
                            assert(compact::holds_call(ms[t]));
                        }
                        assert(false);
                    } else {
                        assert(out[i - 1] == ms[k - 1]);
                    }
                }
            }
            if calls_are_answered(ms) {
                assert forall|i: int|
                    0 <= i < out.len() - 1 && compact::holds_call(
                        #[trigger] out[i],
                    ) implies compact::holds_result(out[i + 1]) by {
                    if i < h - 1 {
                        assert(compact::holds_call(ms[i]));
                        assert(out[i + 1] == ms[i + 1]);
                    } else if i == h - 1 {
                        assert(compact::holds_call(ms[h - 1]));
                        if compact::holds_call(ms[compact::SNIP_HEAD - 1]) {
                            assert(compact::holds_result(ms[compact::SNIP_HEAD as int]));
                            past_results_bounds(ms, compact::SNIP_HEAD + 1, tail);
                            if h > compact::SNIP_HEAD {
                                assert(compact::holds_result(ms[h - 1]));
                            }
                        }
                        assert(false);
                    } else if i > h {
                        let k = i - h - 1 + t;
                        assert(compact::holds_call(ms[k]));
                        assert(out[i + 1] == ms[k + 1]);
                    }
                }
            }
        }
    }
}

/// The preparation before a call of the model keeps calls and results together.
pub proof fn law_prepare_keeps_pairs(
    dir: Seq<char>,
    ready: bool,
    ms: Seq<client::MessageView>,
    path: Seq<char>,
)
    requires
        results_follow_calls(ms),
        calls_are_answered(ms),
    ensures
        results_follow_calls(compact::prepared(dir, ready, ms, path)),
        calls_are_answered(compact::prepared(dir, ready, ms, path)),
{
    let b = compact::budgeted(dir, ready, ms);
    law_budget_keeps_shape(dir, ready, ms);
    shape_keeps_pairs(ms, b);
    law_snip_keeps_pairs(b, compact::SNIP_MAX_MESSAGES as int, path);
    let s = compact::snipped(b, compact::SNIP_MAX_MESSAGES as int, path);
    law_reduction_keeps_shape(s);
    shape_keeps_pairs(s, compact::reduced(s));
}

/// A reactive compaction keeps calls and results together.
pub proof fn law_reactive_keeps_pairs(
    ms: Seq<client::MessageView>,
    request: Seq<char>,
    summary: Seq<char>,
    path: Seq<char>,
)
    requires
        results_follow_calls(ms),
        calls_are_answered(ms),
    ensures
        results_follow_calls(compact::reactive_result(ms, request, summary, path)),
        calls_are_answered(compact::reactive_result(ms, request, summary, path)),
{
    roles_differ();
    let out = compact::reactive_result(ms, request, summary, path);
    let t = compact::reactive_tail(ms);
    note_is_plain(
        "user"@,
        "["@ + "Reactive compact"@ + "]\n\nCurrent user request:\n"@ + request
            + "\n\nConversation summary (reference only):\n"@ + summary
            + "\n\nFull transcript: "@ + path,
    );
    assert(out[0] == compact::summary_view("Reactive compact"@, request, summary, path));
    if t > 0 {
        let tail = ms.len() - compact::KEEP_RECENT_MESSAGES;
        assert(forall|i: int| 0 < i < out.len() ==> out[i] == ms[i - 1 + t]);
        assert forall|i: int| 0 <= i < out.len() && compact::holds_result(#[trigger] out[i]) implies i
            > 0 && compact::holds_call(out[i - 1]) by {
            if i > 0 {
                let k = i - 1 + t;
                assert(compact::holds_result(ms[k]));
                assert(compact::holds_call(ms[k - 1]));
                if i == 1 {
                    if t == tail - 1 {
                        assert(compact::holds_call(ms[t]));
                    }
                    assert(false);
                }
                assert(out[i - 1] == ms[k - 1]);
            }
        }
        assert forall|i: int|
            0 <= i < out.len() - 1 && compact::holds_call(
                #[trigger] out[i],
            ) implies compact::holds_result(out[i + 1]) by {
            if i > 0 {
                let k = i - 1 + t;
                assert(compact::holds_call(ms[k]));
                assert(out[i + 1] == ms[k + 1]);
            }
        }
    }
}

/// A reactive compaction loses nothing: the messages that it has summarised, followed by
/// those that it keeps, are the conversation. Behind the summary stand the newest messages,
/// as many as are to be kept, and one more where the oldest of them answers a call; of a
/// conversation with no more than these everything is summarised.
pub proof fn law_reactive_loses_nothing(
    ms: Seq<client::MessageView>,
    request: Seq<char>,
    summary: Seq<char>,
    path: Seq<char>,
)
    ensures
        ({
            let source = compact::reactive_old(ms);
            let out = compact::reactive_result(ms, request, summary, path);
            &&& out.len() >= 1
            &&& out.len() > 1 ==> source + out.skip(1) == ms
            &&& out.len() == 1 ==> source == ms
            &&& ms.len() <= compact::KEEP_RECENT_MESSAGES ==> out.len() == 1
            &&& ms.len() > compact::KEEP_RECENT_MESSAGES + 1 ==> compact::KEEP_RECENT_MESSAGES
                <= out.len() - 1 <= compact::KEEP_RECENT_MESSAGES + 1
            &&& out.len() - 1 == compact::KEEP_RECENT_MESSAGES + 1 ==> compact::holds_call(out[1])
                && compact::holds_result(out[2])
            &&& out[0].role == "user"@
            &&& out[0].content == seq![
                client::BlockView::Text {
                    text: "[Reactive compact]\n\nCurrent user request:\n"@ + request
                        + "\n\nConversation summary (reference only):\n"@ + summary
                        + "\n\nFull transcript: "@ + path,
                },
            ]
        }),
{
    let source = compact::reactive_old(ms);
    let out = compact::reactive_result(ms, request, summary, path);
    let t = compact::reactive_tail(ms);
    if t > 0 {
        assert(out.skip(1) =~= ms.skip(t));
        assert(source + out.skip(1) =~= ms);
        assert(out[1] == ms[t]);
        assert(out[2] == ms[t + 1]);
    }
    reveal_strlit("[");
    reveal_strlit("Reactive compact");
    reveal_strlit("]\n\nCurrent user request:\n");
    reveal_strlit("[Reactive compact]\n\nCurrent user request:\n");
    let head = "["@ + "Reactive compact"@ + "]\n\nCurrent user request:\n"@;
    assert(head =~= "[Reactive compact]\n\nCurrent user request:\n"@);
}

/// Archiving keeps both ends: the head and the tail of the conversation stay as they are,
/// and between them stands one message that says how many messages went where. A
/// conversation that is not too long stays whole.
pub proof fn law_snip_keeps_both_ends(ms: Seq<client::MessageView>, max: int, path: Seq<char>)
    requires
        max > compact::SNIP_HEAD,
    ensures
        ({
            let out = compact::snipped(ms, max, path);
            match compact::snip_cut(ms, max) {
                None => out == ms,
                Some((h, t)) => {
                    &&& ms.len() > max
                    &&& compact::SNIP_HEAD <= h < t < ms.len()
                    &&& max - compact::SNIP_HEAD <= ms.len() - t <= max - compact::SNIP_HEAD + 1
                    &&& out.len() == h + 1 + (ms.len() - t)
                    &&& out.take(h) == ms.take(h)
                    &&& out.skip(h + 1) == ms.skip(t)
                    &&& out[h].role == "user"@
                    &&& out[h].content == seq![
                        client::BlockView::Text {
                            text: "["@ + crate::text::decimal((t - h) as nat)
                                + " messages archived at "@ + path + "]"@,
                        },
                    ]
                },
            }
        }),
        ms.len() <= max ==> compact::snip_cut(ms, max) is None,
        ms.len() > max + 1 && !compact::holds_call(ms[compact::SNIP_HEAD - 1])
            ==> compact::snip_cut(ms, max) is Some,
{
    if let Some((h, t)) = compact::snip_cut(ms, max) {
        let out = compact::snipped(ms, max, path);
        let tail = ms.len() - (max - compact::SNIP_HEAD);
        if compact::holds_call(ms[compact::SNIP_HEAD - 1]) {
            past_results_bounds(ms, compact::SNIP_HEAD as int, tail);
        }
        assert(out.take(h) =~= ms.take(h));
        assert(out.skip(h + 1) =~= ms.skip(t));
    }
}

/// Archiving makes a conversation short: where every result follows its call, no more than
/// the allowed number of messages is left, save for those that hold a call and its result
/// together at the two ends, and the note between them.
pub proof fn law_snip_shortens(ms: Seq<client::MessageView>, max: int, path: Seq<char>)
    requires
        max > compact::SNIP_HEAD + 1,
        results_follow_calls(ms),
    ensures
        compact::snipped(ms, max, path).len() <= max + 3,
        compact::snip_cut(ms, max) is Some ==> compact::snipped(ms, max, path).len() <= ms.len(),
{
    roles_differ();
    if ms.len() > max {
        let tail = ms.len() - (max - compact::SNIP_HEAD);
        let h = compact::head_end(ms, tail);
        assert(compact::SNIP_HEAD < tail);
        if compact::holds_call(ms[compact::SNIP_HEAD - 1]) {
            past_results_bounds(ms, compact::SNIP_HEAD as int, tail);
            if h > compact::SNIP_HEAD + 1 {
                assert(compact::holds_result(ms[compact::SNIP_HEAD as int]));
                assert(compact::holds_result(ms[compact::SNIP_HEAD + 1]));
                assert(compact::holds_call(ms[compact::SNIP_HEAD as int]));
                assert(false);
            }
        }
        if compact::snip_cut(ms, max) is None {
            assert(h <= compact::SNIP_HEAD + 1);
            assert(tail - 1 <= h);
        }
    }
}

/// The budget touches nothing but the tool results of a last message of the user, and
/// nothing at all where these are within the limit together.
pub proof fn law_budget_touches_the_last_message(
    dir: Seq<char>,
    ready: bool,
    ms: Seq<client::MessageView>,
)
    ensures
        ({
            let out = compact::budgeted(dir, ready, ms);
            &&& out.len() == ms.len()
            &&& forall|i: int| 0 <= i < ms.len() - 1 ==> #[trigger] out[i] == ms[i]
            &&& ms.len() > 0 ==> out.last().role == ms.last().role
            &&& ms.len() > 0 && ms.last().role != "user"@ ==> out == ms
                && compact::budget_files(dir, ready, ms).len() == 0
            &&& ms.len() > 0 && compact::total_size(
                ms.last().content,
                ms.last().content.len() as int,
            ) <= compact::TOOL_RESULT_BATCH_CHAR_LIMIT ==> out == ms && compact::budget_files(
                dir,
                ready,
                ms,
            ).len() == 0
        }),
{
    let out = compact::budgeted(dir, ready, ms);
    if ms.len() > 0 && ms.last().role == "user"@ {
        assert(forall|i: int| 0 <= i < ms.len() - 1 ==> #[trigger] out[i] == ms[i]);
        if compact::total_size(ms.last().content, ms.last().content.len() as int)
            <= compact::TOOL_RESULT_BATCH_CHAR_LIMIT {
            assert(out =~= ms);
        }
    }
}

/// The size of a list of results is the sum of their sizes, and that of a result the number
/// of its characters.
pub proof fn law_sizes_add_up(
    a: Seq<client::BlockView>,
    b: Seq<client::BlockView>,
    id: Seq<char>,
    content: Seq<char>,
)
    ensures
        compact::total_size(a + b, (a + b).len() as int) == compact::total_size(a, a.len() as int)
            + compact::total_size(b, b.len() as int),
        compact::total_size(
            seq![client::BlockView::ToolResult { tool_use_id: id, content }],
            1,
        ) == content.len(),
    decreases b.len(),
{
    let one = seq![client::BlockView::ToolResult { tool_use_id: id, content }];
    assert(compact::total_size(one, 0) == 0);
    if b.len() == 0 {
        assert(a + b =~= a);
    } else {
        law_sizes_add_up(a, b.drop_last(), id, content);
        total_of_prefix(a + b.drop_last(), a + b, (a + b).len() - 1);
        total_of_prefix(b.drop_last(), b, b.len() - 1);
    }
}

proof fn total_of_prefix(a: Seq<client::BlockView>, b: Seq<client::BlockView>, n: int)
    requires
        n <= a.len(),
        n <= b.len(),
        forall|i: int| 0 <= i < n ==> a[i] == b[i],
    ensures
        compact::total_size(a, n) == compact::total_size(b, n),
    decreases n,
{
    if n > 0 {
        total_of_prefix(a, b, n - 1);
    }
}

proof fn moving_saves(
    dir: Seq<char>,
    ready: bool,
    bs: Seq<client::BlockView>,
    order: Seq<int>,
    total: int,
)
    requires
        order.no_duplicates(),
        forall|k: int|
            0 <= k < order.len() ==> 0 <= #[trigger] order[k] < bs.len()
                && bs[order[k]] is ToolResult,
    ensures
        ({
            let (out, saved) = compact::moved_out(dir, ready, bs, order, total);
            &&& out.len() == bs.len()
            &&& forall|i: int| 0 <= i < bs.len() && !order.contains(i) ==> #[trigger] out[i] == bs[i]
            &&& ready ==> forall|i: int|
                0 <= i < bs.len() && #[trigger] out[i] != bs[i] ==> saved.contains(
                    (
                        compact::result_path(dir, bs[i]->tool_use_id),
                        bs[i]->ToolResult_content,
                    ),
                )
            &&& !ready ==> saved.len() == 0
            &&& forall|b: int|
                0 <= b < order.len() && out[#[trigger] order[b]] != bs[order[b]] ==> forall|a: int|
                    0 <= a < b && compact::result_size(bs[#[trigger] order[a]])
                        > compact::LARGE_RESULT_CHAR_LIMIT ==> out[order[a]]
                        == compact::persisted_block(dir, ready, bs[order[a]])
        }),
    decreases order.len(),
{
    if order.len() > 0 && total > compact::TOOL_RESULT_BATCH_CHAR_LIMIT {
        let b0 = bs[order[0]];
        let rest = order.skip(1);
        let (out, saved) = compact::moved_out(dir, ready, bs, order, total);
        assert(forall|k: int| 0 <= k < rest.len() ==> #[trigger] rest[k] == order[k + 1]);
        assert(!rest.contains(order[0])) by {
            if rest.contains(order[0]) {
                let k = choose|k: int| 0 <= k < rest.len() && rest[k] == order[0];
                assert(order[k + 1] == order[0]);
            }
        }
        assert forall|i: int| !order.contains(i) implies !rest.contains(i) by {
            if rest.contains(i) {
                let k = choose|k: int| 0 <= k < rest.len() && rest[k] == i;
                assert(order[k + 1] == i);
            }
        }
        assert(order.contains(order[0]));
        if compact::result_size(b0) <= compact::LARGE_RESULT_CHAR_LIMIT {
            moving_saves(dir, ready, bs, rest, total);
            assert forall|b: int|
                0 <= b < order.len() && out[#[trigger] order[b]] != bs[order[b]] implies forall|
                a: int,
            |
                0 <= a < b && compact::result_size(bs[#[trigger] order[a]])
                    > compact::LARGE_RESULT_CHAR_LIMIT ==> out[order[a]]
                    == compact::persisted_block(dir, ready, bs[order[a]]) by {
                assert forall|a: int|
                    0 <= a < b && compact::result_size(bs[#[trigger] order[a]])
                        > compact::LARGE_RESULT_CHAR_LIMIT implies out[order[a]]
                    == compact::persisted_block(dir, ready, bs[order[a]]) by {
                    assert(rest[a - 1] == order[a] && rest[b - 1] == order[b]);
                }
            }
        } else {
            let nb = compact::persisted_block(dir, ready, b0);
            let next = bs.update(order[0], nb);
            let t = total - compact::result_size(b0) + compact::result_size(nb);
            assert forall|k: int| 0 <= k < rest.len() implies 0 <= #[trigger] rest[k] < next.len()
                && next[rest[k]] is ToolResult by {
                assert(rest[k] == order[k + 1]);
            }
            moving_saves(dir, ready, next, rest, t);
            let more = compact::moved_out(dir, ready, next, rest, t).1;
            assert(out[order[0]] == nb);
            if ready {
                let first = (compact::result_path(dir, b0->tool_use_id), b0->ToolResult_content);
                assert(saved == seq![first] + more);
                assert(saved[0] == first);
                assert forall|i: int| 0 <= i < bs.len() && #[trigger] out[i] != bs[i] implies saved.contains(
                    (
                        compact::result_path(dir, bs[i]->tool_use_id),
                        bs[i]->ToolResult_content,
                    ),
                ) by {
                    if i != order[0] {
                        let f = (
                            compact::result_path(dir, bs[i]->tool_use_id),
                            bs[i]->ToolResult_content,
                        );
                        assert(next[i] == bs[i]);
                        assert(more.contains(f));
                        let k = choose|k: int| 0 <= k < more.len() && more[k] == f;
                        assert(saved[k + 1] == f);
                    }
                }
            }
            assert forall|b: int|
                0 <= b < order.len() && out[#[trigger] order[b]] != bs[order[b]] implies forall|
                a: int,
            |
                0 <= a < b && compact::result_size(bs[#[trigger] order[a]])
                    > compact::LARGE_RESULT_CHAR_LIMIT ==> out[order[a]]
                    == compact::persisted_block(dir, ready, bs[order[a]]) by {
                assert forall|a: int|
                    0 <= a < b && compact::result_size(bs[#[trigger] order[a]])
                        > compact::LARGE_RESULT_CHAR_LIMIT implies out[order[a]]
                    == compact::persisted_block(dir, ready, bs[order[a]]) by {
                    assert(order[b] != order[0]);
                    assert(rest[b - 1] == order[b]);
                    assert(next[order[b]] == bs[order[b]]);
                    if a > 0 {
                        assert(order[a] != order[0]);
                        assert(rest[a - 1] == order[a]);
                        assert(next[order[a]] == bs[order[a]]);
                    }
                }
            }
        }
    }
}

/// What the budget takes out of the conversation is in a file: every result that it changed
/// is written whole, where there is a directory. The largest leave first: no result leaves
/// while a larger one stays.
pub proof fn law_moved_results_are_saved(dir: Seq<char>, ready: bool, bs: Seq<client::BlockView>)
    ensures
        ({
            let (out, saved) = compact::budgeted_blocks(dir, ready, bs);
            &&& ready ==> forall|i: int|
                0 <= i < bs.len() && #[trigger] out[i] != bs[i] ==> saved.contains(
                    (
                        compact::result_path(dir, bs[i]->tool_use_id),
                        bs[i]->ToolResult_content,
                    ),
                )
            &&& !ready ==> saved.len() == 0
            &&& forall|i: int, j: int|
                0 <= i < bs.len() && 0 <= j < bs.len() && #[trigger] out[j] != bs[j]
                    && compact::result_size(bs[i]) > compact::result_size(bs[j])
                    ==> #[trigger] out[i] == compact::persisted_block(dir, ready, bs[i])
        }),
{
    let n = bs.len() as int;
    let order = compact::largest_first(bs, n);
    let total = compact::total_size(bs, n) as int;
    let (out, saved) = compact::budgeted_blocks(dir, ready, bs);
    compact::largest_first_members(bs, n);
    order_is_distinct(bs, n);
    law_largest_first(bs, n);
    moving_saves(dir, ready, bs, order, total);
    moving_reaches_limit(dir, ready, bs, order, total);
    assert forall|i: int, j: int|
        0 <= i < bs.len() && 0 <= j < bs.len() && #[trigger] out[j] != bs[j]
            && compact::result_size(bs[i]) > compact::result_size(bs[j]) implies #[trigger] out[i]
        == compact::persisted_block(dir, ready, bs[i]) by {
        assert(order.contains(j));
        assert(bs[i] is ToolResult);
        assert(order.contains(i));
        let a = choose|a: int| 0 <= a < order.len() && order[a] == i;
        let b = choose|b: int| 0 <= b < order.len() && order[b] == j;
        if b < a {
            assert(compact::result_size(bs[order[b]]) >= compact::result_size(bs[order[a]]));
        }
        assert(a < b);
        assert(out[order[b]] != bs[order[b]]);
        assert(compact::result_size(bs[order[a]]) > compact::LARGE_RESULT_CHAR_LIMIT);
        assert(out[order[a]] == compact::persisted_block(dir, ready, bs[order[a]]));
    }
}

/// What stands for a result in a file: the path of the file, where there is one, and the
/// beginning of the result.
pub proof fn law_moved_results_are_named(
    dir: Seq<char>,
    ready: bool,
    id: Seq<char>,
    content: Seq<char>,
)
    ensures
        ({
            let b = client::BlockView::ToolResult { tool_use_id: id, content };
            let out = compact::persisted_block(dir, ready, b);
            &&& out is ToolResult
            &&& out->tool_use_id == id
            &&& content.len() <= compact::LARGE_RESULT_CHAR_LIMIT ==> out->ToolResult_content
                == content
            &&& content.len() > compact::LARGE_RESULT_CHAR_LIMIT && ready
                ==> out->ToolResult_content == "<persisted-output>\nFull output: "@
                + compact::result_path(dir, id) + "\nPreview:\n"@ + content.take(
                compact::PREVIEW_CHARS as int,
            ) + "\n</persisted-output>"@
            &&& content.len() > compact::LARGE_RESULT_CHAR_LIMIT && !ready
                ==> out->ToolResult_content == "<persisted-output>\nPreview:\n"@ + content.take(
                compact::PREVIEW_CHARS as int,
            ) + "\n</persisted-output>"@
        }),
{
}

/// The name of a file for a result has only characters that a file name may have, and as
/// many as the call's id, up to the limit; an id of such characters is kept.
pub proof fn law_result_files_are_safe(dir: Seq<char>, id: Seq<char>)
    ensures
        ({
            let name = compact::safe_id(id);
            &&& compact::result_path(dir, id) == crate::paths::joined_path(dir, name + ".txt"@)
            &&& 0 < name.len() <= compact::SAFE_ID_CHARS
            &&& forall|i: int|
                0 <= i < name.len() ==> {
                    let c = #[trigger] name[i];
                    ||| 'a' <= c <= 'z'
                    ||| 'A' <= c <= 'Z'
                    ||| '0' <= c <= '9'
                    ||| c == '.'
                    ||| c == '_'
                    ||| c == '-'
                }
            &&& id.len() > 0 ==> forall|i: int|
                0 <= i < name.len() && i < id.len() ==> {
                    let c = id[i];
                    let safe = 'a' <= c <= 'z' || 'A' <= c <= 'Z' || '0' <= c <= '9' || c == '.'
                        || c == '_' || c == '-';
                    #[trigger] name[i] == (if safe {
                        c
                    } else {
                        '_'
                    })
                }
            &&& 0 < id.len() <= compact::SAFE_ID_CHARS ==> name.len() == id.len()
            &&& id.len() == 0 ==> name == "unknown"@
        }),
{
    reveal_strlit("unknown");
}

/// The tool results of the user's messages, in their order.
pub open spec fn all_results(ms: Seq<client::MessageView>) -> Seq<client::BlockView> {
    ms.flat_map(|m: client::MessageView| message_results(m))
}

/// The tool results of a message of the user.
pub open spec fn message_results(m: client::MessageView) -> Seq<client::BlockView> {
    if m.role == "user"@ {
        m.content.filter(|b: client::BlockView| b is ToolResult)
    } else {
        Seq::empty()
    }
}

proof fn results_counted(bs: Seq<client::BlockView>)
    ensures
        compact::results_in(bs) == bs.filter(|b: client::BlockView| b is ToolResult).len(),
    decreases bs.len(),
{
    reveal(Seq::filter);
    if bs.len() > 0 {
        results_counted(bs.drop_last());
    }
}

proof fn all_results_counted(ms: Seq<client::MessageView>, n: int)
    requires
        0 <= n <= ms.len(),
    ensures
        compact::results_before(ms, n) == all_results(ms.take(n)).len(),
    decreases n,
{
    let f = |m: client::MessageView| message_results(m);
    if n > 0 {
        all_results_counted(ms, n - 1);
        results_counted(ms[n - 1].content);
        ms.take(n - 1).lemma_flat_map_push(f, ms[n - 1]);
        assert(ms.take(n) =~= ms.take(n - 1).push(ms[n - 1]));
    } else {
        assert(ms.take(0).map_values(f) =~= Seq::empty());
        assert(all_results(ms.take(0)).len() == 0);
    }
}

/// Old results give way, and only they: of the tool results in the user's messages the
/// newest stay, and so do short ones. Any other gives way to the path of its file, or to a
/// word that there was one.
pub proof fn law_old_results_give_way(ms: Seq<client::MessageView>, i: int, j: int)
    requires
        0 <= i < ms.len(),
        0 <= j < ms[i].content.len(),
    ensures
        ({
            let b = ms[i].content[j];
            let out = compact::reduced(ms)[i].content[j];
            let earlier = all_results(ms.take(i)).len() + ms[i].content.take(j).filter(
                |b: client::BlockView| b is ToolResult,
            ).len();
            let newest = earlier + compact::KEEP_RECENT_RESULTS >= all_results(ms).len();
            let path = compact::saved_path(crate::text::lines_of(b->ToolResult_content));
            &&& compact::reduced(ms).len() == ms.len()
            &&& compact::reduced(ms)[i].role == ms[i].role
            &&& compact::reduced(ms)[i].content.len() == ms[i].content.len()
            &&& ms[i].role != "user"@ || !(b is ToolResult) || newest ==> out == b
            &&& b is ToolResult && b->ToolResult_content.len() <= compact::OLD_RESULT_LIMIT ==> out
                == b
            &&& ms[i].role == "user"@ && b is ToolResult && !newest && b->ToolResult_content.len()
                > compact::OLD_RESULT_LIMIT ==> {
                &&& out is ToolResult
                &&& out->tool_use_id == b->tool_use_id
                &&& path is Some ==> out->ToolResult_content == "[Earlier tool result saved at "@
                    + path->0 + "]"@
                &&& path is None ==> out->ToolResult_content == "[Earlier tool result omitted.]"@
            }
        }),
{
    all_results_counted(ms, i);
    all_results_counted(ms, ms.len() as int);
    assert(ms.take(ms.len() as int) =~= ms);
    results_counted(ms[i].content.take(j));
}

/// The path that a text names is that of its first line that gives one.
pub proof fn law_saved_path_is_the_first(lines: Seq<Seq<char>>)
    ensures
        match compact::saved_path(lines) {
            Some(p) => exists|i: int|
                0 <= i < lines.len() && #[trigger] lines[i] == "Full output: "@ + p && forall|k: int|
                    0 <= k < i ==> !"Full output: "@.is_prefix_of(#[trigger] lines[k]),
            None => forall|k: int|
                0 <= k < lines.len() ==> !"Full output: "@.is_prefix_of(#[trigger] lines[k]),
        },
    decreases lines.len(),
{
    let head = "Full output: "@;
    if lines.len() > 0 {
        if crate::text::begins(lines[0], head) {
            assert(lines[0] =~= head + lines[0].skip(head.len() as int));
        } else {
            assert(!head.is_prefix_of(lines[0]));
            law_saved_path_is_the_first(lines.skip(1));
            assert(forall|k: int| 0 <= k < lines.len() - 1 ==> #[trigger] lines.skip(1)[k] == lines[k + 1]);
            assert forall|k: int| 0 < k < lines.len() implies lines.skip(1)[k - 1] == #[trigger] lines[k] by {}
            if let Some(p) = compact::saved_path(lines.skip(1)) {
                let i = choose|i: int|
                    0 <= i < lines.skip(1).len() && #[trigger] lines.skip(1)[i] == head + p
                        && forall|k: int| 0 <= k < i ==> !head.is_prefix_of(#[trigger] lines.skip(1)[k]);
                assert(lines[i + 1] == head + p);
                assert forall|k: int| 0 <= k < i + 1 implies !head.is_prefix_of(
                    #[trigger] lines[k],
                ) by {
                    if k > 0 {
                        assert(!head.is_prefix_of(lines.skip(1)[k - 1]));
                    }
                }
            } else {
                assert forall|k: int| 0 <= k < lines.len() implies !head.is_prefix_of(
                    #[trigger] lines[k],
                ) by {
                    if k > 0 {
                        assert(!head.is_prefix_of(lines.skip(1)[k - 1]));
                    }
                }
            }
        }
    }
}

/// The text to summarise is the whole conversation, or where that is too long its first
/// part and its larger last part, in this order, and says that the middle is missing.
pub proof fn law_summaries_see_both_ends(c: Seq<char>)
    ensures
        ({
            let out = compact::summary_source(c);
            let gap = "\n...[middle omitted; full transcript is on disk]...\n"@;
            &&& c.len() <= compact::SUMMARY_INPUT_CHAR_LIMIT ==> out == c
            &&& c.len() > compact::SUMMARY_INPUT_CHAR_LIMIT ==> {
                &&& out.len() == compact::SUMMARY_INPUT_CHAR_LIMIT + gap.len()
                &&& out.take(20_000) == c.take(20_000)
                &&& out.subrange(20_000, 20_000 + gap.len() as int) == gap
                &&& out.skip(out.len() - 60_000) == c.skip(c.len() - 60_000)
            }
        }),
{
    let out = compact::summary_source(c);
    let gap = "\n...[middle omitted; full transcript is on disk]...\n"@;
    if c.len() > compact::SUMMARY_INPUT_CHAR_LIMIT {
        assert(out.take(20_000) =~= c.take(20_000));
        assert(out.subrange(20_000, 20_000 + gap.len() as int) =~= gap);
        assert(out.skip(out.len() - 60_000) =~= c.skip(c.len() - 60_000));
    }
}

/// The texts of a reply are those of its text blocks, each of them, in their order.
pub proof fn law_every_text_is_read(bs: Seq<client::BlockView>)
    ensures
        compact::block_texts(bs) == bs.filter(|b: client::BlockView| b is Text).map_values(
            |b: client::BlockView| b->text,
        ),
    decreases bs.len(),
{
    reveal(Seq::filter);
    let texts = |b: client::BlockView| b->text;
    let kept = |b: client::BlockView| b is Text;
    if bs.len() > 0 {
        law_every_text_is_read(bs.drop_last());
        if bs.last() is Text {
            assert(bs.filter(kept).map_values(texts) =~= bs.drop_last().filter(kept).map_values(
                texts,
            ).push(bs.last()->text));
        }
    }
}

/// A transcript holds every message of the conversation, each on a line of its own, in
/// their order.
pub proof fn law_transcripts_hold_every_message(
    a: Seq<client::MessageView>,
    b: Seq<client::MessageView>,
    m: client::MessageView,
)
    ensures
        compact::transcript_text(a + b) == compact::transcript_text(a)
            + compact::transcript_text(b),
        compact::transcript_text(seq![m]) == client::message_json(m) + "\n"@,
    decreases b.len(),
{
    assert(seq![m].drop_last() =~= Seq::empty());
    assert(compact::transcript_text(seq![m].drop_last()) =~= Seq::empty());
    assert(compact::transcript_text(seq![m]) =~= client::message_json(m) + "\n"@);
    if b.len() == 0 {
        assert(a + b =~= a);
        assert(compact::transcript_text(a + b) =~= compact::transcript_text(a)
            + compact::transcript_text(b));
    } else {
        law_transcripts_hold_every_message(a, b.drop_last(), m);
        assert((a + b).drop_last() =~= a + b.drop_last());
        assert(compact::transcript_text(a + b) =~= compact::transcript_text(a)
            + compact::transcript_text(b));
    }
}

/// A transcript is due exactly where messages are archived, and it holds all messages as they
/// are before that, so that no archived message is lost.
pub proof fn law_archived_messages_are_in_the_transcript(
    dir: Seq<char>,
    ready: bool,
    ms: Seq<client::MessageView>,
)
    ensures
        ({
            let b = compact::budgeted(dir, ready, ms);
            let due = compact::due_transcript(dir, ready, ms);
            &&& due is Some <==> compact::snip_cut(b, compact::SNIP_MAX_MESSAGES as int) is Some
            &&& due is Some ==> due->0 == compact::transcript_text(b)
            &&& ms.len() <= compact::SNIP_MAX_MESSAGES ==> due is None
        }),
{
}

/// The summary of a reply is all of its text, without white space round it, and says where
/// there is none.
pub proof fn law_summaries_are_read_whole(bs: Seq<client::BlockView>)
    ensures
        ({
            let texts = bs.filter(|b: client::BlockView| b is Text).map_values(
                |b: client::BlockView| b->text,
            );
            let all = crate::text::trimmed(crate::text::joined(texts, "\n"@));
            compact::reply_summary(bs) == if all.len() == 0 {
                "(empty summary)"@
            } else {
                all
            }
        }),
{
    law_every_text_is_read(bs);
}

/// The preparation keeps the newest messages: what a conversation ends with, it still ends
/// with, message by message, each with its role and the same kinds of blocks.
pub proof fn law_preparation_keeps_the_end(
    dir: Seq<char>,
    ready: bool,
    ms: Seq<client::MessageView>,
    path: Seq<char>,
    k: int,
)
    requires
        0 <= k < ms.len(),
        k < compact::SNIP_MAX_MESSAGES - compact::SNIP_HEAD,
    ensures
        ({
            let out = compact::prepared(dir, ready, ms, path);
            let i = ms.len() - 1 - k;
            let j = out.len() - 1 - k;
            &&& 0 <= j
            &&& out[j].role == ms[i].role
            &&& same_blocks_identity(ms[i].content, out[j].content)
        }),
{
    let b = compact::budgeted(dir, ready, ms);
    let max = compact::SNIP_MAX_MESSAGES as int;
    let s = compact::snipped(b, max, path);
    let i = ms.len() - 1 - k;
    law_budget_touches_the_last_message(dir, ready, ms);
    if i == ms.len() - 1 && ms.last().role == "user"@ {
        law_budget_keeps_blocks(dir, ready, ms.last().content);
    }
    assert(b[i].role == ms[i].role);
    assert(same_blocks_identity(ms[i].content, b[i].content)) by {
        if i < ms.len() - 1 {
            assert(b[i] == ms[i]);
        }
    }
    law_snip_keeps_both_ends(b, max, path);
    let j = s.len() - 1 - k;
    assert(s[j] == b[i]) by {
        if let Some((h, t)) = compact::snip_cut(b, max) {
            assert(s.skip(h + 1)[i - t] == b.skip(t)[i - t]);
        }
    }
    law_reduction_keeps_blocks(s, j);
    let out = compact::reduced(s);
    assert forall|q: int| 0 <= q < ms[i].content.len() implies same_block_identity(
        #[trigger] ms[i].content[q],
        out[j].content[q],
    ) by {
        assert(same_block_identity(b[i].content[q], s[j].content[q]));
        assert(same_block_identity(ms[i].content[q], b[i].content[q]));
        assert(same_block_identity(s[j].content[q], out[j].content[q]));
    }
}

} // verus!
