//! What holds of the extraction and the consolidation of memory records.

use vstd::prelude::*;

use crate::consolidate;
use crate::consolidate::{
    ChangeView, ConsolidationActionView, ConsolidationEvent, ConsolidationView,
};
use crate::error::AgentError;
use crate::memory;
use crate::memory::MemoryFile;
use crate::memory_text;
use crate::recall;
use crate::text;

verus! {

/// The records that there are once some proposals were stored.
pub open spec fn with_stored(
    existing: Seq<memory::RecordView>,
    cs: Seq<memory::CandidateView>,
) -> Seq<memory::RecordView> {
    existing + cs.map_values(|c: memory::CandidateView| consolidate::stored_record(c))
}

proof fn less_is_worth_no_less(
    c: memory::CandidateView,
    a: Seq<memory::RecordView>,
    b: Seq<memory::RecordView>,
)
    ensures
        recall::worth_storing(c, a + b) ==> recall::worth_storing(c, a),
{
    if recall::worth_storing(c, a + b) {
        assert forall|i: int| 0 <= i < a.len() implies !recall::repeats(c, #[trigger] a[i]) by {
            assert((a + b)[i] == a[i]);
        }
    }
}

/// The law of extraction: where every writing succeeds, each valid proposal is stored unless
/// it is not worth storing beside the records that there are in the end; and whatever fails,
/// what is stored was proposed, and worth storing.
pub proof fn law_worthy_proposals_are_stored(
    items: Seq<Seq<char>>,
    existing: Seq<memory::RecordView>,
    outcomes: Seq<bool>,
    k: int,
)
    ensures
        ({
            let out = consolidate::stored(items, existing, outcomes);
            &&& 0 <= k < items.len() && outcomes.len() >= items.len() && (forall|i: int|
                0 <= i < outcomes.len() ==> #[trigger] outcomes[i]) ==> match recall::candidate_in(
                items[k],
                true,
            ) {
                Some(c) => out.contains(c) || !recall::worth_storing(c, with_stored(existing, out)),
                None => true,
            }
            &&& forall|i: int|
                0 <= i < out.len() ==> is_proposed(#[trigger] out[i], items)
                    && recall::worth_storing(out[i], existing)
            &&& out.len() <= items.len()
        }),
    decreases items.len(),
{
    let out = consolidate::stored(items, existing, outcomes);
    if items.len() > 0 {
        let rest = items.skip(1);
        match recall::candidate_in(items[0], true) {
            Some(c) if recall::worth_storing(c, existing) => {
                if consolidate::next_succeeds(outcomes) {
                    let more = existing.push(consolidate::stored_record(c));
                    let later = consolidate::later(outcomes);
                    law_worthy_proposals_are_stored(rest, more, later, k - 1);
                    let tail = consolidate::stored(rest, more, later);
                    assert(out =~= seq![c] + tail);
                    assert(with_stored(existing, out) =~= with_stored(more, tail));
                    assert(out[0] == c);
                    assert forall|i: int| 0 <= i < out.len() implies is_proposed(
                        #[trigger] out[i],
                        items,
                    ) && recall::worth_storing(out[i], existing) by {
                        if i == 0 {
                            assert(recall::candidate_in(items[0], true) == Some(c));
                        } else {
                            assert(out[i] == tail[i - 1]);
                            proposed_before(tail[i - 1], items);
                            less_is_worth_no_less(
                                tail[i - 1],
                                existing,
                                seq![consolidate::stored_record(c)],
                            );
                            assert(existing + seq![consolidate::stored_record(c)] =~= more);
                        }
                    }
                    if 0 < k < items.len() {
                        assert(rest[k - 1] == items[k]);
                        if let Some(x) = recall::candidate_in(items[k], true) {
                            if tail.contains(x) {
                                let j = choose|j: int| 0 <= j < tail.len() && tail[j] == x;
                                assert(out[j + 1] == x);
                            }
                        }
                    }
                } else {
                    law_worthy_proposals_are_stored(
                        rest,
                        existing,
                        consolidate::later(outcomes),
                        k - 1,
                    );
                    assert forall|i: int| 0 <= i < out.len() implies is_proposed(
                        #[trigger] out[i],
                        items,
                    ) by {
                        proposed_before(out[i], items);
                    }
                }
            },
            _ => {
                law_worthy_proposals_are_stored(rest, existing, outcomes, k - 1);
                assert forall|i: int| 0 <= i < out.len() implies is_proposed(
                    #[trigger] out[i],
                    items,
                ) by {
                    proposed_before(out[i], items);
                }
                if k == 0 {
                    if let Some(c) = recall::candidate_in(items[0], true) {
                        less_is_worth_no_less(
                            c,
                            existing,
                            out.map_values(
                                |c: memory::CandidateView| consolidate::stored_record(c),
                            ),
                        );
                    }
                } else if 0 < k < items.len() {
                    assert(rest[k - 1] == items[k]);
                }
            },
        }
    }
}

/// One of the items is the proposal.
pub open spec fn is_proposed(c: memory::CandidateView, items: Seq<Seq<char>>) -> bool {
    exists|i: int|
        0 <= i < items.len() && recall::candidate_in(#[trigger] items[i], true) == Some(c)
}

proof fn proposed_before(c: memory::CandidateView, items: Seq<Seq<char>>)
    requires
        items.len() > 0,
        is_proposed(c, items.skip(1)),
    ensures
        is_proposed(c, items),
{
    let rest = items.skip(1);
    let i = choose|i: int|
        0 <= i < rest.len() && recall::candidate_in(#[trigger] rest[i], true) == Some(c);
    assert(items[i + 1] == rest[i]);
}

/// The law of stored records: a stored proposal becomes a record with all that it says, in
/// the file that its name gives.
pub proof fn law_stored_records_say_what_was_proposed(c: memory::CandidateView)
    ensures
        consolidate::stored_record(c).name == c.name,
        consolidate::stored_record(c).description == c.description,
        consolidate::stored_record(c).mem_type == c.mem_type,
        consolidate::stored_record(c).body == c.body,
        consolidate::stored_record(c).filename == memory_text::slug(c.name) + ".md"@,
{
}

/// The law of proposals for all records: the valid items are taken up, each of them, in
/// their order; where two of them would have the same file, or the model could not be asked,
/// none is.
pub proof fn law_every_valid_item_is_taken_up(items: Seq<Seq<char>>, reply: Seq<char>)
    ensures
        consolidate::valid_items(items) == items.filter_map(
            |t: Seq<char>| recall::candidate_in(t, false),
        ),
        ({
            let cs = recall::array_from(reply, 0).filter_map(
                |t: Seq<char>| recall::candidate_in(t, false),
            );
            let clash = exists|i: int, j: int|
                0 <= i < j < cs.len() && memory_text::slug((#[trigger] cs[i]).name)
                    == memory_text::slug((#[trigger] cs[j]).name);
            consolidate::proposed(Some(reply)) == if clash {
                Seq::empty()
            } else {
                cs
            }
        }),
        consolidate::proposed(None).len() == 0,
{
    valid_by_filter(items);
    valid_by_filter(recall::array_from(reply, 0));
}

proof fn valid_by_filter(items: Seq<Seq<char>>)
    ensures
        consolidate::valid_items(items) == items.filter_map(
            |t: Seq<char>| recall::candidate_in(t, false),
        ),
    decreases items.len(),
{
    let f = |t: Seq<char>| recall::candidate_in(t, false);
    if items.len() > 0 {
        valid_by_filter(items.drop_last());
        match recall::candidate_in(items.last(), false) {
            Some(c) => {
                assert(consolidate::valid_items(items) =~= items.drop_last().filter_map(f) + seq![
                    c,
                ]);
            },
            None => {},
        }
    }
}

/// The law of questions: the model is asked to consolidate exactly where the store may write
/// and has enough records, which are not too large together; and the question shows every
/// record whole.
pub proof fn law_when_records_are_consolidated(read_only: bool, rs: Seq<memory::RecordView>)
    ensures
        ({
            let q = consolidate::consolidation_question(read_only, rs);
            &&& q is Some <==> !read_only && rs.len() >= memory::CONSOLIDATE_THRESHOLD
                && consolidate::all_sections(rs).len() <= memory::CONSOLIDATE_INPUT_CHAR_LIMIT
            &&& q is Some ==> forall|i: int|
                0 <= i < rs.len() ==> text::has(
                    q->0,
                    "## "@ + (#[trigger] rs[i]).filename + "\nname: "@ + rs[i].name + "\ntype: "@
                        + rs[i].mem_type + "\ndescription: "@ + rs[i].description + "\n\n"@
                        + rs[i].body,
                )
        }),
{
    let q = consolidate::consolidation_question(read_only, rs);
    if q is Some {
        let parts = rs.map_values(|r: memory::RecordView| consolidate::record_section(r));
        assert forall|i: int| 0 <= i < rs.len() implies text::has(
            q->0,
            "## "@ + (#[trigger] rs[i]).filename + "\nname: "@ + rs[i].name + "\ntype: "@
                + rs[i].mem_type + "\ndescription: "@ + rs[i].description + "\n\n"@ + rs[i].body,
        ) by {
            part_is_in(parts, i, "\n\n"@);
            let all = text::joined(parts, "\n\n"@);
            let k = choose|k: int| text::occurs_at(all, parts[i], k);
            let p = memory::CONSOLIDATE_PROMPT@;
            assert((p + all).subrange(p.len() + k, p.len() + k + parts[i].len()) =~= all.subrange(
                k,
                k + parts[i].len(),
            ));
            assert(text::occurs_at(p + all, parts[i], p.len() + k));
        }
    }
}

/// Each part stands in the joined text.
pub proof fn part_is_in(parts: Seq<Seq<char>>, i: int, sep: Seq<char>)
    requires
        0 <= i < parts.len(),
    ensures
        text::has(text::joined(parts, sep), parts[i]),
    decreases parts.len(),
{
    let all = text::joined(parts, sep);
    if parts.len() == 1 {
        assert(all.subrange(0, all.len() as int) =~= all);
        assert(text::occurs_at(all, parts[0], 0));
    } else {
        let head = text::joined(parts.drop_last(), sep);
        if i == parts.len() - 1 {
            let k = (head + sep).len() as int;
            assert(all.subrange(k, k + parts[i].len()) =~= parts[i]);
            assert(text::occurs_at(all, parts[i], k));
        } else {
            part_is_in(parts.drop_last(), i, sep);
            let k = choose|k: int| text::occurs_at(head, parts[i], k);
            assert(all.subrange(k, k + parts[i].len()) =~= head.subrange(k, k + parts[i].len()));
            assert(text::occurs_at(all, parts[i], k));
        }
    }
}

/// The law of changes: changes are made one after the other; a written file holds what was
/// written, a removed one is gone, and no other file is touched.
pub proof fn law_changes(
    dir: Map<Seq<char>, Seq<char>>,
    a: Seq<ChangeView>,
    b: Seq<ChangeView>,
    f: Seq<char>,
    content: Seq<char>,
    other: Seq<char>,
)
    requires
        other != f,
    ensures
        consolidate::changed(dir, a + b) == consolidate::changed(consolidate::changed(dir, a), b),
        ({
            let w = consolidate::changed(dir, seq![ChangeView::Write { filename: f, content }]);
            let r = consolidate::changed(dir, seq![ChangeView::Remove(f)]);
            &&& w.contains_key(f) && w[f] == content
            &&& !r.contains_key(f)
            &&& w.contains_key(other) == dir.contains_key(other) && w[other] == dir[other]
            &&& r.contains_key(other) == dir.contains_key(other) && (r.contains_key(other)
                ==> r[other] == dir[other])
        }),
    decreases b.len(),
{
    let one = seq![ChangeView::Write { filename: f, content }];
    let gone = seq![ChangeView::Remove(f)];
    assert(one.drop_last() =~= Seq::empty() && gone.drop_last() =~= Seq::empty());
    assert(consolidate::changed(dir, one.drop_last()) == dir);
    assert(consolidate::changed(dir, gone.drop_last()) == dir);
    assert(one.last() == (ChangeView::Write { filename: f, content }));
    assert(gone.last() == ChangeView::Remove(f));
    if b.len() == 0 {
        assert(a + b =~= a);
    } else {
        law_changes(dir, a, b.drop_last(), f, content, other);
        assert((a + b).drop_last() =~= a + b.drop_last());
    }
}

/// The law of a consolidation's course: the model is asked where there is a question. A
/// reply with proposals puts their files in the place of all record files that are there,
/// and a reply without any, or without a question, changes nothing; what failed is undone,
/// and what succeeded is reported with the number of its records.
pub proof fn law_a_consolidation_runs_its_course(
    v: ConsolidationView,
    reply: Option<String>,
    files: Vec<MemoryFile>,
    error: AgentError,
    left: Vec<String>,
)
    ensures
        v.question is Some ==> v.action(ConsolidationEvent::Started)
            == ConsolidationActionView::Ask(v.question->0),
        v.question is None ==> v.action(ConsolidationEvent::Started)
            == ConsolidationActionView::Done(0),
        ({
            let w = v.after(ConsolidationEvent::Replied(reply, files));
            let action = v.action(ConsolidationEvent::Replied(reply, files));
            let cs = consolidate::proposed(text::opt_view(reply));
            let names = memory::record_file_names(memory::file_views(files@));
            &&& w.question == v.question && w.names == v.names
            &&& v.question is Some ==> w.records == cs
            &&& v.question is None ==> w.records.len() == 0
            &&& v.question is None || cs.len() == 0 ==> action == ConsolidationActionView::Done(0)
            &&& v.question is Some && cs.len() > 0 ==> {
                &&& action is Apply
                &&& action->Apply_0.len() == names.len() + cs.len()
                &&& forall|i: int|
                    0 <= i < names.len() ==> #[trigger] action->Apply_0[i] == ChangeView::Remove(
                        names[i],
                    )
                &&& forall|i: int|
                    0 <= i < cs.len() ==> {
                        let change = action->Apply_0[names.len() + i];
                        let c = #[trigger] cs[i];
                        &&& change is Write
                        &&& change->filename == memory_text::slug(text::trimmed(c.name)) + ".md"@
                        &&& change->content == memory_text::record_document(
                            text::trimmed(c.name),
                            c.mem_type,
                            c.description,
                            c.body,
                        )
                    }
            }
        }),
        v.action(ConsolidationEvent::Applied(Ok(()), left)) == ConsolidationActionView::Done(
            v.records.len(),
        ),
        v.action(ConsolidationEvent::Applied(Err(error), left)) is Restore,
        v.action(ConsolidationEvent::Restored) == ConsolidationActionView::Done(0),
{
    let names = memory::record_file_names(memory::file_views(files@));
    let cs = consolidate::proposed(text::opt_view(reply));
    let action = v.action(ConsolidationEvent::Replied(reply, files));
    if v.question is Some && cs.len() > 0 {
        let all = consolidate::replacement(names, cs);
        assert(action == ConsolidationActionView::Apply(all));
        assert forall|i: int| 0 <= i < cs.len() implies {
            let change = all[names.len() + i];
            let c = #[trigger] cs[i];
            &&& change is Write
            &&& change->filename == memory_text::slug(text::trimmed(c.name)) + ".md"@
            &&& change->content == memory_text::record_document(
                text::trimmed(c.name),
                c.mem_type,
                c.description,
                c.body,
            )
        } by {}
    }
}

/// The law of writings: one of which nothing is known counts as failed, so that nothing is
/// stored where nothing was written; the outcomes are used one after the other.
pub proof fn law_unknown_writings_failed(
    items: Seq<Seq<char>>,
    existing: Seq<memory::RecordView>,
    outcomes: Seq<bool>,
    first: bool,
)
    ensures
        consolidate::stored(items, existing, Seq::empty()).len() == 0,
        !consolidate::next_succeeds(Seq::empty()),
        consolidate::next_succeeds(seq![first] + outcomes) == first,
        consolidate::later(seq![first] + outcomes) == outcomes,
        consolidate::later(Seq::empty()).len() == 0,
    decreases items.len(),
{
    assert((seq![first] + outcomes).skip(1) =~= outcomes);
    if items.len() > 0 {
        law_unknown_writings_failed(items.skip(1), existing, outcomes, first);
        assert(consolidate::later(Seq::<bool>::empty()) =~= Seq::<bool>::empty());
    }
}

/// The law of known records: the model is shown each of them by its name and description, in
/// their order, and that there are none where there are none.
pub proof fn law_known_records_are_shown(rs: Seq<memory::RecordView>)
    ensures
        rs.len() == 0 ==> consolidate::known_lines(rs) == "(none)"@,
        rs.len() > 0 ==> consolidate::known_lines(rs) == text::joined(
            rs.map_values(|r: memory::RecordView| "- "@ + r.name + ": "@ + r.description),
            "\n"@,
        ),
{
}

} // verus!
