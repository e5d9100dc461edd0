//! Keeping the set of memory records: extracting new ones and consolidating old ones.

use vstd::prelude::*;

use crate::client;
use crate::client::Message;
use crate::error::AgentError;
use crate::json;
use crate::memory;
use crate::memory::{MemoryFile, MemoryRecord, MemoryStore, ValidatedRecord};
use crate::memory_laws;
use crate::memory_text;
use crate::recall;
use crate::text;

verus! {

// ---- extracting ----

/// The existing records as they are shown to the model.
pub open spec fn known_lines(rs: Seq<memory::RecordView>) -> Seq<char> {
    if rs.len() == 0 {
        "(none)"@
    } else {
        text::joined(
            rs.map_values(|r: memory::RecordView| "- "@ + r.name + ": "@ + r.description),
            "\n"@,
        )
    }
}

/// The question for durable knowledge in a conversation.
pub open spec fn extract_prompt(rs: Seq<memory::RecordView>, said: Seq<char>) -> Seq<char> {
    memory::EXTRACT_PROMPT@ + text::first_chars(known_lines(rs), 6000) + "\n\nDialogue:\n"@ + said
}

/// The record that a stored proposal becomes.
pub open spec fn stored_record(c: memory::CandidateView) -> memory::RecordView {
    memory::RecordView {
        filename: memory_text::slug(c.name) + ".md"@,
        name: c.name,
        description: c.description,
        mem_type: c.mem_type,
        body: c.body,
    }
}

/// The next proposal that is worth storing, with the items that come after it.
pub open spec fn next_worthy(items: Seq<Seq<char>>, existing: Seq<memory::RecordView>) -> Option<
    (memory::CandidateView, Seq<Seq<char>>),
>
    decreases items.len(),
{
    if items.len() == 0 {
        None
    } else {
        match recall::candidate_in(items[0], true) {
            Some(c) if recall::worth_storing(c, existing) => Some((c, items.skip(1))),
            _ => next_worthy(items.skip(1), existing),
        }
    }
}

/// Whether the next writing succeeds; one of which nothing is known fails.
pub open spec fn next_succeeds(outcomes: Seq<bool>) -> bool {
    outcomes.len() > 0 && outcomes[0]
}

/// The outcomes of the writings after the next.
pub open spec fn later(outcomes: Seq<bool>) -> Seq<bool> {
    if outcomes.len() > 0 {
        outcomes.skip(1)
    } else {
        outcomes
    }
}

/// The proposals that are stored, given which of the writings succeed. One whose writing
/// failed is passed over, and counts as not there for those after it.
pub open spec fn stored(
    items: Seq<Seq<char>>,
    existing: Seq<memory::RecordView>,
    outcomes: Seq<bool>,
) -> Seq<memory::CandidateView>
    decreases items.len(),
{
    if items.len() == 0 {
        Seq::empty()
    } else {
        match recall::candidate_in(items[0], true) {
            Some(c) if recall::worth_storing(c, existing) => if next_succeeds(outcomes) {
                seq![c] + stored(
                    items.skip(1),
                    existing.push(stored_record(c)),
                    later(outcomes),
                )
            } else {
                stored(items.skip(1), existing, later(outcomes))
            },
            _ => stored(items.skip(1), existing, outcomes),
        }
    }
}

/// The work on the model's proposals: the items that are left, the records that exist by
/// now, and how many were stored.
pub struct Extraction {
    pub items: Vec<String>,
    pub records: Vec<MemoryRecord>,
    pub stored: usize,
}

impl Extraction {
    /// Starts on the proposals in a reply of the model.
    pub fn new(reply: &str, existing: Vec<MemoryRecord>) -> (r: Self)
        ensures
            text::views(r.items@) == recall::array_from(reply@, 0),
            r.records == existing,
            r.stored == 0,
    {
        Extraction { items: recall::extract_json_array(reply), records: existing, stored: 0 }
    }

    /// The next proposal to store. Proposals that are not worth storing are dropped.
    pub fn next(&mut self) -> (r: Option<ValidatedRecord>)
        ensures
            final(self).records == old(self).records,
            final(self).stored == old(self).stored,
            match next_worthy(text::views(old(self).items@), memory::records(old(self).records@)) {
                Some((c, rest)) => r is Some && r->0@ == c && text::views(final(self).items@)
                    == rest,
                None => r is None && final(self).items@.len() == 0,
            },
    {
        let ghost all = text::views(self.items@);
        let ghost rs = memory::records(self.records@);
        while self.items.len() > 0
            invariant
                rs == memory::records(self.records@),
                self.records == old(self).records,
                self.stored == old(self).stored,
                all == text::views(old(self).items@),
                rs == memory::records(old(self).records@),
                next_worthy(all, rs) == next_worthy(text::views(self.items@), rs),
            decreases self.items@.len(),
        {
            let ghost before = text::views(self.items@);
            assert(before[0] == self.items@[0]@);
            let item = self.items.remove(0);
            assert(text::views(self.items@) =~= before.skip(1));
            if let Some(c) = recall::read_candidate(item.as_str(), true) {
                if recall::should_store_memory(&c, &self.records) {
                    return Some(c);
                }
            }
        }
        None
    }

    /// Takes note that a proposal was written.
    pub fn note_stored(&mut self, c: &ValidatedRecord)
        requires
            old(self).stored < usize::MAX,
        ensures
            final(self).items == old(self).items,
            memory::records(final(self).records@) == memory::records(old(self).records@).push(
                stored_record(c@),
            ),
            final(self).stored == old(self).stored + 1,
    {
        let ghost before = memory::records(self.records@);
        let rec = MemoryRecord {
            filename: memory_text::memory_slug(c.name.as_str()).concat(".md"),
            name: c.name.clone(),
            description: c.description.clone(),
            mem_type: c.mem_type.clone(),
            body: c.body.clone(),
        };
        self.records.push(rec);
        assert(memory::records(self.records@) =~= before.push(rec@));
        self.stored = self.stored + 1;
    }
}

proof fn stored_avoid_existing(
    items: Seq<Seq<char>>,
    existing: Seq<memory::RecordView>,
    outcomes: Seq<bool>,
)
    ensures
        forall|i: int, k: int|
            0 <= i < stored(items, existing, outcomes).len() && 0 <= k < existing.len()
                ==> !recall::repeats(
                #[trigger] stored(items, existing, outcomes)[i],
                #[trigger] existing[k],
            ),
    decreases items.len(),
{
    if items.len() > 0 {
        match recall::candidate_in(items[0], true) {
            Some(c) if recall::worth_storing(c, existing) => if next_succeeds(outcomes) {
                let next = existing.push(stored_record(c));
                stored_avoid_existing(items.skip(1), next, later(outcomes));
                let out = stored(items, existing, outcomes);
                assert forall|i: int, k: int|
                    0 <= i < out.len() && 0 <= k < existing.len() implies !recall::repeats(
                    #[trigger] out[i],
                    #[trigger] existing[k],
                ) by {
                    assert(next[k] == existing[k]);
                    if i > 0 {
                        assert(out[i] == stored(items.skip(1), next, later(outcomes))[i - 1]);
                    }
                }
            } else {
                stored_avoid_existing(items.skip(1), existing, later(outcomes));
                assert(stored(items, existing, outcomes) == stored(
                    items.skip(1),
                    existing,
                    later(outcomes),
                ));
            },
            _ => {
                stored_avoid_existing(items.skip(1), existing, outcomes);
                assert(stored(items, existing, outcomes) == stored(
                    items.skip(1),
                    existing,
                    outcomes,
                ));
            },
        }
    }
}

/// Whichever of the writings fail, no stored proposal repeats a record that was there before
/// or one that was stored before it: neither its file nor, but for case and spacing, its
/// description or its body.
pub proof fn law_stored_files_are_new(
    items: Seq<Seq<char>>,
    existing: Seq<memory::RecordView>,
    outcomes: Seq<bool>,
)
    ensures
        forall|i: int, j: int|
            0 <= i < j < stored(items, existing, outcomes).len() ==> {
                let a = #[trigger] stored(items, existing, outcomes)[i];
                let b = #[trigger] stored(items, existing, outcomes)[j];
                &&& memory_text::slug(a.name) != memory_text::slug(b.name)
                &&& memory_text::comparable(a.description) != memory_text::comparable(
                    b.description,
                )
                &&& memory_text::comparable(a.body) != memory_text::comparable(b.body)
            },
        forall|i: int, k: int|
            0 <= i < stored(items, existing, outcomes).len() && 0 <= k < existing.len() ==> {
                let a = #[trigger] stored(items, existing, outcomes)[i];
                let e = #[trigger] existing[k];
                &&& memory_text::slug(a.name) != memory_text::slug(e.name)
                &&& memory_text::comparable(a.description) != memory_text::comparable(
                    e.description,
                )
                &&& memory_text::comparable(a.body) != memory_text::comparable(e.body)
            },
    decreases items.len(),
{
    stored_avoid_existing(items, existing, outcomes);
    if items.len() > 0 {
        match recall::candidate_in(items[0], true) {
            Some(c) if recall::worth_storing(c, existing) => if next_succeeds(outcomes) {
                let next = existing.push(stored_record(c));
                let after = later(outcomes);
                law_stored_files_are_new(items.skip(1), next, after);
                stored_avoid_existing(items.skip(1), next, after);
                let rest = stored(items.skip(1), next, after);
                let out = stored(items, existing, outcomes);
                assert forall|i: int, j: int| 0 <= i < j < out.len() implies !recall::repeats(
                    #[trigger] out[j],
                    stored_record(#[trigger] out[i]),
                ) by {
                    assert(out[j] == rest[j - 1]);
                    if i == 0 {
                        assert(next[existing.len() as int] == stored_record(c));
                        assert(!recall::repeats(rest[j - 1], next[existing.len() as int]));
                    } else {
                        assert(out[i] == rest[i - 1]);
                    }
                }
            } else {
                law_stored_files_are_new(items.skip(1), existing, later(outcomes));
                assert(stored(items, existing, outcomes) == stored(
                    items.skip(1),
                    existing,
                    later(outcomes),
                ));
            },
            _ => {
                law_stored_files_are_new(items.skip(1), existing, outcomes);
                assert(stored(items, existing, outcomes) == stored(
                    items.skip(1),
                    existing,
                    outcomes,
                ));
            },
        }
    }
}

/// Taking the next worthy proposal and noting it as stored where its writing succeeds, again
/// and again, stores exactly the proposals of [`stored`].
pub proof fn law_extraction_steps(
    items: Seq<Seq<char>>,
    existing: Seq<memory::RecordView>,
    outcomes: Seq<bool>,
)
    ensures
        match next_worthy(items, existing) {
            Some((c, rest)) => stored(items, existing, outcomes) == (if next_succeeds(outcomes) {
                seq![c] + stored(rest, existing.push(stored_record(c)), later(outcomes))
            } else {
                stored(rest, existing, later(outcomes))
            }),
            None => stored(items, existing, outcomes).len() == 0,
        },
    decreases items.len(),
{
    if items.len() > 0 {
        law_extraction_steps(items.skip(1), existing, outcomes);
    }
}

// ---- consolidating ----

/// A record as it is shown to the model.
pub open spec fn record_section(r: memory::RecordView) -> Seq<char> {
    "## "@ + r.filename + "\nname: "@ + r.name + "\ntype: "@ + r.mem_type + "\ndescription: "@
        + r.description + "\n\n"@ + r.body
}

/// All records as they are shown to the model.
pub open spec fn all_sections(rs: Seq<memory::RecordView>) -> Seq<char> {
    text::joined(rs.map_values(|r: memory::RecordView| record_section(r)), "\n\n"@)
}

/// The question for consolidated records; none where the store may only read, the records
/// are few, or they are too large together.
pub open spec fn consolidation_question(read_only: bool, rs: Seq<memory::RecordView>) -> Option<
    Seq<char>,
> {
    if !read_only && rs.len() >= memory::CONSOLIDATE_THRESHOLD && all_sections(rs).len()
        <= memory::CONSOLIDATE_INPUT_CHAR_LIMIT {
        Some(memory::CONSOLIDATE_PROMPT@ + all_sections(rs))
    } else {
        None
    }
}

/// The valid proposals among some items.
pub open spec fn valid_items(items: Seq<Seq<char>>) -> Seq<memory::CandidateView>
    decreases items.len(),
{
    if items.len() == 0 {
        Seq::empty()
    } else {
        match recall::candidate_in(items.last(), false) {
            Some(c) => valid_items(items.drop_last()).push(c),
            None => valid_items(items.drop_last()),
        }
    }
}

/// No two records would have the same file.
pub open spec fn files_differ(cs: Seq<memory::CandidateView>) -> bool {
    forall|i: int, j: int|
        0 <= i < j < cs.len() ==> memory_text::slug((#[trigger] cs[i]).name) != memory_text::slug(
            (#[trigger] cs[j]).name,
        )
}

/// Each of the records has a file that counts as a record.
pub open spec fn have_record_files(cs: Seq<memory::CandidateView>) -> bool {
    forall|i: int|
        0 <= i < cs.len() ==> memory::is_record_file(
            memory::record_filename((#[trigger] cs[i]).name),
        ) && text::trimmed(cs[i].name) == cs[i].name
}

proof fn valid_name_is_trimmed(item: Seq<char>)
    ensures
        recall::candidate_in(item, false) is Some ==> {
            let name = recall::candidate_in(item, false)->0.name;
            text::trimmed(name) == name
        },
{
    if recall::candidate_in(item, false) is Some {
        memory_laws::trimmed_twice(json::json_value(item)->Ok_0.str_or_empty("name"@));
    }
}

/// A change of one file of the directory.
pub enum FileChange {
    Remove(String),
    Write { filename: String, content: String },
}

/// The mathematical content of a [`FileChange`].
#[verifier::ext_equal]
pub enum ChangeView {
    Remove(Seq<char>),
    Write { filename: Seq<char>, content: Seq<char> },
}

impl View for FileChange {
    type V = ChangeView;

    open spec fn view(&self) -> ChangeView {
        match *self {
            FileChange::Remove(f) => ChangeView::Remove(f@),
            FileChange::Write { filename, content } => ChangeView::Write {
                filename: filename@,
                content: content@,
            },
        }
    }
}

/// The contents of a list of changes.
pub open spec fn change_views(v: Seq<FileChange>) -> Seq<ChangeView> {
    v.map_values(|c: FileChange| c@)
}

/// A directory after some changes.
pub open spec fn changed(dir: Map<Seq<char>, Seq<char>>, cs: Seq<ChangeView>) -> Map<
    Seq<char>,
    Seq<char>,
>
    decreases cs.len(),
{
    if cs.len() == 0 {
        dir
    } else {
        let d = changed(dir, cs.drop_last());
        match cs.last() {
            ChangeView::Remove(f) => d.remove(f),
            ChangeView::Write { filename, content } => d.insert(filename, content),
        }
    }
}

/// The removal of the given files.
pub open spec fn removals(names: Seq<Seq<char>>) -> Seq<ChangeView> {
    names.map_values(|f: Seq<char>| ChangeView::Remove(f))
}

/// The changes that put some records in place of the existing files.
pub open spec fn replacement(existing: Seq<Seq<char>>, cs: Seq<memory::CandidateView>) -> Seq<
    ChangeView,
> {
    removals(existing) + cs.map_values(
        |c: memory::CandidateView|
            ChangeView::Write {
                filename: memory::record_filename(c.name),
                content: memory_text::record_document(
                    text::trimmed(c.name),
                    c.mem_type,
                    c.description,
                    c.body,
                ),
            },
    )
}

/// The changes that put a snapshot back in place of the existing files.
pub open spec fn restoration(existing: Seq<Seq<char>>, snapshot: Seq<(Seq<char>, Seq<char>)>) -> Seq<
    ChangeView,
> {
    removals(existing) + snapshot.map_values(
        |p: (Seq<char>, Seq<char>)| ChangeView::Write { filename: p.0, content: p.1 },
    )
}

proof fn removed_files_are_gone(dir: Map<Seq<char>, Seq<char>>, names: Seq<Seq<char>>)
    ensures
        forall|f: Seq<char>|
            #[trigger] changed(dir, removals(names)).contains_key(f) <==> dir.contains_key(f)
                && !names.contains(f),
        forall|f: Seq<char>| #[trigger]
            changed(dir, removals(names)).contains_key(f) ==> changed(dir, removals(names))[f]
                == dir[f],
    decreases names.len(),
{
    if names.len() > 0 {
        let head = names.drop_last();
        removed_files_are_gone(dir, head);
        assert(removals(names).drop_last() =~= removals(head));
        assert(removals(names).last() == ChangeView::Remove(names.last()));
        let after = changed(dir, removals(names));
        assert(after == changed(dir, removals(head)).remove(names.last()));
        assert forall|f: Seq<char>| #[trigger] after.contains_key(f) <==> dir.contains_key(f)
            && !names.contains(f) by {
            assert(changed(dir, removals(head)).contains_key(f) <==> dir.contains_key(f)
                && !head.contains(f));
            if names.contains(f) {
                let k = choose|k: int| 0 <= k < names.len() && names[k] == f;
                if k < head.len() {
                    assert(head[k] == f);
                }
            } else {
                assert(names.last() != f);
                if head.contains(f) {
                    let k = choose|k: int| 0 <= k < head.len() && head[k] == f;
                    assert(names[k] == f);
                }
            }
        }
    }
}

proof fn writes_land(
    dir: Map<Seq<char>, Seq<char>>,
    first: Seq<ChangeView>,
    snapshot: Seq<(Seq<char>, Seq<char>)>,
)
    requires
        forall|i: int, j: int|
            0 <= i < j < snapshot.len() ==> (#[trigger] snapshot[i]).0 != (#[trigger] snapshot[j]).0,
    ensures
        ({
            let out = changed(
                dir,
                first + snapshot.map_values(
                    |p: (Seq<char>, Seq<char>)|
                        ChangeView::Write { filename: p.0, content: p.1 },
                ),
            );
            &&& forall|i: int|
                0 <= i < snapshot.len() ==> out.contains_key((#[trigger] snapshot[i]).0)
                    && out[snapshot[i].0] == snapshot[i].1
            &&& forall|f: Seq<char>|
                (forall|i: int| 0 <= i < snapshot.len() ==> (#[trigger] snapshot[i]).0 != f) ==> (
                #[trigger] out.contains_key(f) <==> changed(dir, first).contains_key(f))
            &&& forall|f: Seq<char>|
                (forall|i: int| 0 <= i < snapshot.len() ==> (#[trigger] snapshot[i]).0 != f)
                    && #[trigger] out.contains_key(f) ==> out[f] == changed(dir, first)[f]
        }),
    decreases snapshot.len(),
{
    let w = |p: (Seq<char>, Seq<char>)| ChangeView::Write { filename: p.0, content: p.1 };
    if snapshot.len() == 0 {
        assert(first + snapshot.map_values(w) =~= first);
    } else {
        let head = snapshot.drop_last();
        writes_land(dir, first, head);
        let all = first + snapshot.map_values(w);
        assert(all.drop_last() =~= first + head.map_values(w));
        let p = snapshot.last();
        assert(all.last() == ChangeView::Write { filename: p.0, content: p.1 });
        let before = changed(dir, first + head.map_values(w));
        let out = changed(dir, all);
        assert(out == before.insert(p.0, p.1));
        assert forall|i: int| 0 <= i < snapshot.len() implies out.contains_key(
            (#[trigger] snapshot[i]).0,
        ) && out[snapshot[i].0] == snapshot[i].1 by {
            if i < head.len() {
                assert(head[i] == snapshot[i]);
                assert(snapshot[i].0 != snapshot[snapshot.len() - 1].0);
            }
        }
        assert forall|f: Seq<char>|
            (forall|i: int| 0 <= i < snapshot.len() ==> (#[trigger] snapshot[i]).0 != f) implies (
        #[trigger] out.contains_key(f) <==> changed(dir, first).contains_key(f)) by {
            assert(p.0 != f) by {
                assert(snapshot[snapshot.len() - 1].0 != f);
            }
            assert(forall|i: int| 0 <= i < head.len() ==> (#[trigger] head[i]) == snapshot[i]);
            assert(before.contains_key(f) <==> changed(dir, first).contains_key(f));
        }
        assert forall|f: Seq<char>|
            (forall|i: int| 0 <= i < snapshot.len() ==> (#[trigger] snapshot[i]).0 != f)
                && #[trigger] out.contains_key(f) implies out[f] == changed(dir, first)[f] by {
            assert(p.0 != f) by {
                assert(snapshot[snapshot.len() - 1].0 != f);
            }
            assert(forall|i: int| 0 <= i < head.len() ==> (#[trigger] head[i]) == snapshot[i]);
            assert(before.contains_key(f));
        }
    }
}

/// Restoring undoes whatever happened to the directory since the snapshot was taken: every
/// file of the snapshot is there with its content, of the files that were listed none
/// other is left, and the rest of the directory is as it was.
pub proof fn law_restore_recovers(
    dir: Map<Seq<char>, Seq<char>>,
    existing: Seq<Seq<char>>,
    snapshot: Seq<(Seq<char>, Seq<char>)>,
)
    requires
        forall|i: int, j: int|
            0 <= i < j < snapshot.len() ==> (#[trigger] snapshot[i]).0 != (#[trigger] snapshot[j]).0,
    ensures
        ({
            let out = changed(dir, restoration(existing, snapshot));
            &&& forall|i: int|
                0 <= i < snapshot.len() ==> out.contains_key((#[trigger] snapshot[i]).0)
                    && out[snapshot[i].0] == snapshot[i].1
            &&& forall|f: Seq<char>|
                existing.contains(f) && (forall|i: int|
                    0 <= i < snapshot.len() ==> (#[trigger] snapshot[i]).0 != f)
                    ==> !#[trigger] out.contains_key(f)
            &&& forall|f: Seq<char>|
                !existing.contains(f) && (forall|i: int|
                    0 <= i < snapshot.len() ==> (#[trigger] snapshot[i]).0 != f) ==> (
                #[trigger] out.contains_key(f) <==> dir.contains_key(f)) && (out.contains_key(f)
                    ==> out[f] == dir[f])
        }),
{
    removed_files_are_gone(dir, existing);
    writes_land(dir, removals(existing), snapshot);
}

impl MemoryStore {
    /// The question for durable knowledge in a conversation; none where the store may
    /// only read or nothing was said.
    pub fn extraction_request(&self, records: &[MemoryRecord], messages: &[Message]) -> (r: Option<
        String,
    >)
        ensures
            ({
                let said = recall::dialogue(client::messages(messages@), 12);
                match r {
                    Some(p) => !self.read_only && said.len() > 0 && p@ == extract_prompt(
                        memory::records(records@),
                        said,
                    ),
                    None => self.read_only || said.len() == 0,
                }
            }),
    {
        if self.read_only {
            return None;
        }
        let said = recall::dialogue_text(messages, 12);
        if said.as_str().is_empty() {
            return None;
        }
        let known = if records.len() == 0 {
            "(none)".to_string()
        } else {
            let ghost want = memory::records(records@).map_values(
                |r: memory::RecordView| "- "@ + r.name + ": "@ + r.description,
            );
            let mut lines: Vec<String> = Vec::new();
            let mut i: usize = 0;
            while i < records.len()
                invariant
                    i <= records@.len(),
                    want == memory::records(records@).map_values(
                        |r: memory::RecordView| "- "@ + r.name + ": "@ + r.description,
                    ),
                    text::views(lines@) == want.take(i as int),
                decreases records@.len() - i,
            {
                let ghost before = text::views(lines@);
                let r = &records[i];
                lines.push(
                    "- ".to_string().concat(r.name.as_str()).concat(": ").concat(
                        r.description.as_str(),
                    ),
                );
                assert(text::views(lines@) =~= before.push(want[i as int]));
                assert(text::views(lines@) =~= want.take(i + 1));
                i += 1;
            }
            assert(want.take(want.len() as int) =~= want);
            text::join(&lines, "\n")
        };
        Some(
            memory::EXTRACT_PROMPT.to_string().concat(
                text::take_chars(known.as_str(), 6000).as_str(),
            ).concat("\n\nDialogue:\n").concat(said.as_str()),
        )
    }

    /// Starts on what the model's reply says is worth remembering of a conversation. There is
    /// nothing to start on where the store may only read, nothing was said, or the model did
    /// not reply.
    pub fn extract_memories(
        &self,
        existing: Vec<MemoryRecord>,
        messages: &[Message],
        reply: Option<&str>,
    ) -> (r: Option<Extraction>)
        ensures
            ({
                let said = recall::dialogue(client::messages(messages@), 12);
                match r {
                    Some(x) => {
                        &&& !self.read_only
                        &&& said.len() > 0
                        &&& reply is Some
                        &&& text::views(x.items@) == recall::array_from(reply->0@, 0)
                        &&& x.records == existing
                        &&& x.stored == 0
                    },
                    None => self.read_only || said.len() == 0 || reply is None,
                }
            }),
    {
        if self.read_only || recall::dialogue_text(messages, 12).as_str().is_empty() {
            return None;
        }
        match reply {
            Some(text) => Some(Extraction::new(text, existing)),
            None => None,
        }
    }

    /// The question for consolidated records; none where the store may only read, the
    /// records are few, or they are too large together.
    pub fn consolidation_request(&self, records: &[MemoryRecord]) -> (r: Option<String>)
        ensures
            text::opt_view(r) == consolidation_question(
                self.read_only,
                memory::records(records@),
            ),
    {
        if self.read_only || records.len() < memory::CONSOLIDATE_THRESHOLD {
            return None;
        }
        let ghost want = memory::records(records@).map_values(
            |r: memory::RecordView| record_section(r),
        );
        let mut parts: Vec<String> = Vec::new();
        let mut i: usize = 0;
        while i < records.len()
            invariant
                i <= records@.len(),
                want == memory::records(records@).map_values(
                    |r: memory::RecordView| record_section(r),
                ),
                text::views(parts@) == want.take(i as int),
            decreases records@.len() - i,
        {
            let ghost before = text::views(parts@);
            let r = &records[i];
            parts.push(
                "## ".to_string().concat(r.filename.as_str()).concat("\nname: ").concat(
                    r.name.as_str(),
                ).concat("\ntype: ").concat(r.mem_type.as_str()).concat("\ndescription: ").concat(
                    r.description.as_str(),
                ).concat("\n\n").concat(r.body.as_str()),
            );
            assert(text::views(parts@) =~= before.push(record_section(records@[i as int]@)));
            assert(text::views(parts@) =~= want.take(i + 1));
            i += 1;
        }
        assert(want.take(want.len() as int) =~= want);
        let all = text::join(&parts, "\n\n");
        if text::to_chars(all.as_str()).len() > memory::CONSOLIDATE_INPUT_CHAR_LIMIT {
            return None;
        }
        Some(memory::CONSOLIDATE_PROMPT.to_string().concat(all.as_str()))
    }

    /// The consolidated records in a reply of the model; none where there are no valid
    /// ones or two of them would have the same file.
    pub fn consolidate_memories(reply: &str) -> (r: Option<Vec<ValidatedRecord>>)
        ensures
            ({
                let cs = valid_items(recall::array_from(reply@, 0));
                match r {
                    Some(v) => cs.len() > 0 && files_differ(cs) && memory::candidates(v@) == cs
                        && have_record_files(cs),
                    None => cs.len() == 0 || !files_differ(cs),
                }
            }),
    {
        let items = recall::extract_json_array(reply);
        let ghost its = text::views(items@);
        let mut out: Vec<ValidatedRecord> = Vec::new();
        let mut slugs: Vec<String> = Vec::new();
        let mut same = false;
        let mut i: usize = 0;
        assert(memory::candidates(out@) =~= Seq::<memory::CandidateView>::empty());
        assert(text::views(slugs@) =~= Seq::<Seq<char>>::empty());
        while i < items.len()
            invariant
                i <= items@.len(),
                its == text::views(items@),
                memory::candidates(out@) == valid_items(its.take(i as int)),
                text::views(slugs@) == memory::candidates(out@).map_values(
                    |c: memory::CandidateView| memory_text::slug(c.name),
                ),
                same == !files_differ(memory::candidates(out@)),
                have_record_files(memory::candidates(out@)),
            decreases items@.len() - i,
        {
            let ghost before = memory::candidates(out@);
            let ghost had = text::views(slugs@);
            assert(its.take(i + 1).drop_last() =~= its.take(i as int));
            assert(its.take(i + 1).last() == items@[i as int]@);
            if let Some(c) = recall::read_candidate(items[i].as_str(), false) {
                let slug = memory_text::memory_slug(c.name.as_str());
                proof {
                    valid_name_is_trimmed(items@[i as int]@);
                    memory::slug_names_a_record(slug@);
                }
                let again = recall::list_has(&slugs, &slug);
                slugs.push(slug);
                out.push(c);
                assert(text::views(slugs@) =~= had.push(slug@));
                assert(memory::candidates(out@) =~= before.push(c@));
                proof {
                    let after = memory::candidates(out@);
                    if again {
                        let k = choose|k: int| 0 <= k < had.len() && had[k] == slug@;
                        assert(memory_text::slug(after[k].name) == memory_text::slug(
                            after[after.len() - 1].name,
                        ));
                        assert(!files_differ(after));
                    } else {
                        assert forall|a: int| 0 <= a < before.len() implies memory_text::slug(
                            (#[trigger] before[a]).name,
                        ) != slug@ by {
                            assert(had[a] == memory_text::slug(before[a].name));
                            assert(had.contains(had[a]));
                        }
                        if files_differ(before) {
                            assert(files_differ(after)) by {
                                assert forall|a: int, b: int|
                                    0 <= a < b < after.len() implies memory_text::slug(
                                    (#[trigger] after[a]).name,
                                ) != memory_text::slug((#[trigger] after[b]).name) by {
                                    assert(after[a] == before[a]);
                                    if b < before.len() {
                                        assert(after[b] == before[b]);
                                    }
                                }
                            }
                        } else {
                            let (a, b) = choose|a: int, b: int|
                                0 <= a < b < before.len() && memory_text::slug(
                                    (#[trigger] before[a]).name,
                                ) == memory_text::slug((#[trigger] before[b]).name);
                            assert(after[a] == before[a] && after[b] == before[b]);
                            assert(!files_differ(after));
                        }
                    }
                }
                same = same || again;
            }
            assert(text::views(slugs@) =~= memory::candidates(out@).map_values(
                |c: memory::CandidateView| memory_text::slug(c.name),
            ));
            i += 1;
        }
        assert(its.take(its.len() as int) =~= its);
        if out.len() == 0 || same {
            None
        } else {
            Some(out)
        }
    }

    /// The changes that put the consolidated records in place of the existing files.
    pub fn replace_records(existing: &[String], consolidated: &[ValidatedRecord]) -> (r: Vec<
        FileChange,
    >)
        ensures
            change_views(r@) == replacement(
                text::views(existing@),
                memory::candidates(consolidated@),
            ),
    {
        let mut out = remove_all(existing);
        let ghost first = change_views(out@);
        let ghost cs = memory::candidates(consolidated@);
        let ghost want = replacement(text::views(existing@), cs);
        let mut i: usize = 0;
        assert(first =~= want.take(first.len() as int));
        while i < consolidated.len()
            invariant
                i <= consolidated@.len(),
                cs == memory::candidates(consolidated@),
                first == removals(text::views(existing@)),
                want == replacement(text::views(existing@), cs),
                want.len() == first.len() + cs.len(),
                change_views(out@) == want.take(first.len() + i),
            decreases consolidated@.len() - i,
        {
            let ghost before = change_views(out@);
            let c = &consolidated[i];
            let name = text::trim(c.name.as_str());
            let filename = memory_text::memory_slug(name.as_str()).concat(".md");
            let content = memory_text::memory_document(
                name.as_str(),
                c.mem_type.as_str(),
                c.description.as_str(),
                c.body.as_str(),
            );
            out.push(FileChange::Write { filename, content });
            assert(change_views(out@) =~= before.push(out@.last()@));
            assert(change_views(out@) =~= want.take(first.len() + i + 1));
            i += 1;
        }
        assert(want.take(want.len() as int) =~= want);
        out
    }

    /// The changes that put a snapshot back in place of the existing files.
    pub fn restore_from_snapshot(existing: &[String], snapshot: &[(String, String)]) -> (r: Vec<
        FileChange,
    >)
        ensures
            change_views(r@) == restoration(
                text::views(existing@),
                json::pairs(snapshot@),
            ),
    {
        let mut out = remove_all(existing);
        let ghost first = change_views(out@);
        let ghost sv = json::pairs(snapshot@);
        let ghost want = restoration(text::views(existing@), sv);
        let mut i: usize = 0;
        assert(first =~= want.take(first.len() as int));
        while i < snapshot.len()
            invariant
                i <= snapshot@.len(),
                sv == json::pairs(snapshot@),
                first == removals(text::views(existing@)),
                want == restoration(text::views(existing@), sv),
                want.len() == first.len() + sv.len(),
                change_views(out@) == want.take(first.len() + i),
            decreases snapshot@.len() - i,
        {
            let ghost before = change_views(out@);
            out.push(
                FileChange::Write {
                    filename: snapshot[i].0.clone(),
                    content: snapshot[i].1.clone(),
                },
            );
            assert(change_views(out@) =~= before.push(out@.last()@));
            assert(change_views(out@) =~= want.take(first.len() + i + 1));
            i += 1;
        }
        assert(want.take(want.len() as int) =~= want);
        out
    }
}

fn remove_all(names: &[String]) -> (r: Vec<FileChange>)
    ensures
        change_views(r@) == removals(text::views(names@)),
{
    let ghost want = removals(text::views(names@));
    let mut out: Vec<FileChange> = Vec::new();
    let mut i: usize = 0;
    while i < names.len()
        invariant
            i <= names@.len(),
            want == removals(text::views(names@)),
            change_views(out@) == want.take(i as int),
        decreases names@.len() - i,
    {
        let ghost before = change_views(out@);
        out.push(FileChange::Remove(names[i].clone()));
        assert(change_views(out@) =~= before.push(ChangeView::Remove(names@[i as int]@)));
        assert(change_views(out@) =~= want.take(i + 1));
        i += 1;
    }
    assert(want.take(want.len() as int) =~= want);
    out
}

// ---- a consolidation from its beginning to its end ----

/// What the file `name` of a directory holds.
pub open spec fn content_of(fs: Seq<memory::FileView>, name: Seq<char>) -> Option<Seq<char>>
    decreases fs.len(),
{
    if fs.len() == 0 {
        None
    } else if fs[0].filename == name {
        Some(fs[0].content)
    } else {
        content_of(fs.skip(1), name)
    }
}

/// The named files of a directory with their contents, as far as they are there.
pub open spec fn snapshot_of(names: Seq<Seq<char>>, fs: Seq<memory::FileView>) -> Seq<
    (Seq<char>, Seq<char>),
>
    decreases names.len(),
{
    if names.len() == 0 {
        Seq::empty()
    } else {
        let head = snapshot_of(names.drop_last(), fs);
        match content_of(fs, names.last()) {
            Some(c) => head.push((names.last(), c)),
            None => head,
        }
    }
}

/// The names of the files of a snapshot.
pub open spec fn snapshot_names(snapshot: Seq<(Seq<char>, Seq<char>)>) -> Seq<Seq<char>> {
    snapshot.map_values(|p: (Seq<char>, Seq<char>)| p.0)
}

/// A consolidation: the question to the model, the record files that it is about, what they
/// held when the model replied, and the records that take their place.
pub struct Consolidation {
    pub question: Option<String>,
    pub names: Vec<String>,
    pub snapshot: Vec<(String, String)>,
    pub records: Vec<ValidatedRecord>,
}

/// The mathematical content of a [`Consolidation`].
#[verifier::ext_equal]
pub struct ConsolidationView {
    pub question: Option<Seq<char>>,
    pub names: Seq<Seq<char>>,
    pub snapshot: Seq<(Seq<char>, Seq<char>)>,
    pub records: Seq<memory::CandidateView>,
}

impl View for Consolidation {
    type V = ConsolidationView;

    open spec fn view(&self) -> ConsolidationView {
        ConsolidationView {
            question: text::opt_view(self.question),
            names: text::views(self.names@),
            snapshot: json::pairs(self.snapshot@),
            records: memory::candidates(self.records@),
        }
    }
}

/// What happened in a consolidation.
pub enum ConsolidationEvent {
    /// It begins.
    Started,
    /// The model replied, or could not be asked. These files are there now.
    Replied(Option<String>, Vec<MemoryFile>),
    /// The changes were made and the index was rebuilt, or that failed. These record files
    /// are there now.
    Applied(Result<(), AgentError>, Vec<String>),
    /// The earlier files were put back.
    Restored,
}

/// What to do next in a consolidation.
pub enum ConsolidationAction {
    /// Ask the model.
    Ask(String),
    /// Make these changes, and rebuild the index.
    Apply(Vec<FileChange>),
    /// Make these changes as far as they can be made, and rebuild the index.
    Restore(Vec<FileChange>),
    /// It is over, with so many records; none where it came to nothing.
    Done(usize),
}

/// The mathematical content of a [`ConsolidationAction`].
#[verifier::ext_equal]
pub enum ConsolidationActionView {
    Ask(Seq<char>),
    Apply(Seq<ChangeView>),
    Restore(Seq<ChangeView>),
    Done(nat),
}

impl View for ConsolidationAction {
    type V = ConsolidationActionView;

    open spec fn view(&self) -> ConsolidationActionView {
        match *self {
            ConsolidationAction::Ask(q) => ConsolidationActionView::Ask(q@),
            ConsolidationAction::Apply(cs) => ConsolidationActionView::Apply(change_views(cs@)),
            ConsolidationAction::Restore(cs) => ConsolidationActionView::Restore(change_views(cs@)),
            ConsolidationAction::Done(n) => ConsolidationActionView::Done(n as nat),
        }
    }
}

/// The records that a reply of the model puts in place of the others; none where it holds no
/// valid ones, or two of them would have the same file.
pub open spec fn proposed(reply: Option<Seq<char>>) -> Seq<memory::CandidateView> {
    match reply {
        Some(t) => {
            let cs = valid_items(recall::array_from(t, 0));
            if files_differ(cs) {
                cs
            } else {
                Seq::empty()
            }
        },
        None => Seq::empty(),
    }
}

impl ConsolidationView {
    /// A consolidation of a directory that has not begun.
    pub open spec fn of(read_only: bool, fs: Seq<memory::FileView>) -> ConsolidationView {
        ConsolidationView {
            question: consolidation_question(
                read_only,
                memory::record_files(fs).map_values(|f: memory::FileView| memory::record_of(f)),
            ),
            names: memory::record_file_names(fs),
            snapshot: Seq::empty(),
            records: Seq::empty(),
        }
    }

    /// The consolidation after an event.
    pub open spec fn after(self, event: ConsolidationEvent) -> ConsolidationView {
        match event {
            ConsolidationEvent::Replied(reply, files) => ConsolidationView {
                snapshot: snapshot_of(self.names, memory::file_views(files@)),
                records: if self.question is Some {
                    proposed(text::opt_view(reply))
                } else {
                    Seq::empty()
                },
                ..self
            },
            _ => self,
        }
    }

    /// What to do after an event: ask where there is a question, replace the records where
    /// the reply proposes some, and restore them where that fails.
    pub open spec fn action(self, event: ConsolidationEvent) -> ConsolidationActionView {
        match event {
            ConsolidationEvent::Started => match self.question {
                Some(q) => ConsolidationActionView::Ask(q),
                None => ConsolidationActionView::Done(0),
            },
            ConsolidationEvent::Replied(_, files) => {
                let cs = self.after(event).records;
                if cs.len() == 0 {
                    ConsolidationActionView::Done(0)
                } else {
                    ConsolidationActionView::Apply(
                        replacement(
                            memory::record_file_names(memory::file_views(files@)),
                            cs,
                        ),
                    )
                }
            },
            ConsolidationEvent::Applied(outcome, left) => match outcome {
                Ok(_) => ConsolidationActionView::Done(self.records.len()),
                Err(_) => ConsolidationActionView::Restore(
                    restoration(text::views(left@), self.snapshot),
                ),
            },
            ConsolidationEvent::Restored => ConsolidationActionView::Done(0),
        }
    }

    /// The new records have different files, and each counts as a record.
    pub open spec fn sound(self) -> bool {
        files_differ(self.records) && have_record_files(self.records)
    }
}

impl Consolidation {
    /// The consolidation of a directory that holds these files.
    pub fn new(store: &MemoryStore, files: &[MemoryFile]) -> (r: Self)
        ensures
            r@ == ConsolidationView::of(store.read_only, memory::file_views(files@)),
            r@.sound(),
    {
        let ghost fs = memory::file_views(files@);
        let records = MemoryStore::list_memory_files(files);
        let question = store.consolidation_request(&records);
        let names = MemoryStore::record_names(files);
        let r = Consolidation { question, names, snapshot: Vec::new(), records: Vec::new() };
        assert(r@.snapshot =~= Seq::<(Seq<char>, Seq<char>)>::empty());
        assert(r@.records =~= Seq::<memory::CandidateView>::empty());
        r
    }

    /// What to do next, given what happened. Where the replacement failed, what the record
    /// files held before is put back, and the consolidation came to nothing.
    pub fn next(&mut self, event: ConsolidationEvent) -> (r: ConsolidationAction)
        ensures
            final(self)@ == old(self)@.after(event),
            r@ == old(self)@.action(event),
            old(self)@.sound() ==> final(self)@.sound(),
    {
        match event {
            ConsolidationEvent::Started => match &self.question {
                Some(q) => ConsolidationAction::Ask(q.clone()),
                None => ConsolidationAction::Done(0),
            },
            ConsolidationEvent::Replied(reply, files) => {
                self.snapshot = take_snapshot(&self.names, &files);
                let proposal = match (&self.question, reply) {
                    (Some(_), Some(t)) => MemoryStore::consolidate_memories(t.as_str()),
                    _ => None,
                };
                match proposal {
                    Some(records) => {
                        let existing = MemoryStore::record_names(&files);
                        let changes = MemoryStore::replace_records(&existing, &records);
                        self.records = records;
                        ConsolidationAction::Apply(changes)
                    },
                    None => {
                        self.records = Vec::new();
                        assert(self@.records =~= Seq::<memory::CandidateView>::empty());
                        ConsolidationAction::Done(0)
                    },
                }
            },
            ConsolidationEvent::Applied(outcome, left) => match outcome {
                Ok(_) => {
                    assert(self@.records.len() == self.records@.len());
                    ConsolidationAction::Done(self.records.len())
                },
                Err(_) => ConsolidationAction::Restore(
                    MemoryStore::restore_from_snapshot(&left, &self.snapshot),
                ),
            },
            ConsolidationEvent::Restored => ConsolidationAction::Done(0),
        }
    }
}

fn find_content(files: &[MemoryFile], name: &String) -> (r: Option<String>)
    ensures
        text::opt_view(r) == content_of(memory::file_views(files@), name@),
{
    let ghost fs = memory::file_views(files@);
    let mut i: usize = 0;
    assert(fs.skip(0) =~= fs);
    while i < files.len()
        invariant
            i <= files@.len(),
            fs == memory::file_views(files@),
            content_of(fs, name@) == content_of(fs.skip(i as int), name@),
        decreases files@.len() - i,
    {
        assert(fs.skip(i as int)[0] == files@[i as int]@);
        assert(fs.skip(i as int).skip(1) =~= fs.skip(i + 1));
        if files[i].filename == *name {
            return Some(files[i].content.clone());
        }
        i += 1;
    }
    None
}

fn take_snapshot(names: &[String], files: &[MemoryFile]) -> (r: Vec<(String, String)>)
    ensures
        json::pairs(r@) == snapshot_of(text::views(names@), memory::file_views(files@)),
{
    let ghost ns = text::views(names@);
    let ghost fs = memory::file_views(files@);
    let mut out: Vec<(String, String)> = Vec::new();
    let mut i: usize = 0;
    assert(json::pairs(out@) =~= snapshot_of(ns.take(0), fs));
    while i < names.len()
        invariant
            i <= names@.len(),
            ns == text::views(names@),
            fs == memory::file_views(files@),
            json::pairs(out@) == snapshot_of(ns.take(i as int), fs),
        decreases names@.len() - i,
    {
        let ghost before = json::pairs(out@);
        assert(ns.take(i + 1).drop_last() =~= ns.take(i as int));
        assert(ns.take(i + 1).last() == names@[i as int]@);
        if let Some(c) = find_content(files, &names[i]) {
            out.push((names[i].clone(), c));
            assert(json::pairs(out@) =~= before.push((names@[i as int]@, c@)));
        }
        i += 1;
    }
    assert(ns.take(ns.len() as int) =~= ns);
    out
}

/// A snapshot that holds the record files of a directory, each once, with their contents.
pub open spec fn describes(snapshot: Seq<(Seq<char>, Seq<char>)>, dir: Map<Seq<char>, Seq<char>>) -> bool {
    &&& forall|i: int, j: int|
        0 <= i < j < snapshot.len() ==> (#[trigger] snapshot[i]).0 != (#[trigger] snapshot[j]).0
    &&& forall|i: int|
        0 <= i < snapshot.len() ==> memory::is_record_file((#[trigger] snapshot[i]).0)
            && dir.contains_key(snapshot[i].0) && dir[snapshot[i].0] == snapshot[i].1
    &&& forall|f: Seq<char>| #[trigger]
        dir.contains_key(f) && memory::is_record_file(f) ==> snapshot_names(snapshot).contains(f)
}

/// The listed names are those of the record files of a directory.
pub open spec fn lists(names: Seq<Seq<char>>, dir: Map<Seq<char>, Seq<char>>) -> bool {
    forall|f: Seq<char>| #[trigger]
        names.contains(f) <==> dir.contains_key(f) && memory::is_record_file(f)
}

/// Two directories with the same record files and the same contents in them.
pub open spec fn same_records(a: Map<Seq<char>, Seq<char>>, b: Map<Seq<char>, Seq<char>>) -> bool {
    forall|f: Seq<char>|
        #![trigger a.contains_key(f)]
        #![trigger b.contains_key(f)]
        memory::is_record_file(f) ==> (a.contains_key(f) <==> b.contains_key(f)) && (
        a.contains_key(f) ==> a[f] == b[f])
}

/// The names of the record files of a directory.
pub open spec fn record_names(dir: Map<Seq<char>, Seq<char>>) -> Set<Seq<char>> {
    dir.dom().filter(|f: Seq<char>| memory::is_record_file(f))
}

/// The law of the rollback: whatever a failed replacement made of the directory, the restore
/// that answers it gives back every record file as it was, and no other; the consolidation
/// then reports nothing.
pub proof fn law_failed_consolidation_changes_nothing(
    v: ConsolidationView,
    dir: Map<Seq<char>, Seq<char>>,
    spoiled: Map<Seq<char>, Seq<char>>,
    error: AgentError,
    left: Vec<String>,
)
    requires
        describes(v.snapshot, dir),
        lists(text::views(left@), spoiled),
    ensures
        ({
            let answer = v.action(ConsolidationEvent::Applied(Err(error), left));
            &&& answer matches ConsolidationActionView::Restore(cs)
            &&& same_records(changed(spoiled, cs), dir)
            &&& v.after(ConsolidationEvent::Applied(Err(error), left)).action(
                ConsolidationEvent::Restored,
            ) == ConsolidationActionView::Done(0)
        }),
{
    let names = text::views(left@);
    let out = changed(spoiled, restoration(names, v.snapshot));
    law_restore_recovers(spoiled, names, v.snapshot);
    assert forall|f: Seq<char>| memory::is_record_file(f) implies (out.contains_key(f)
        <==> dir.contains_key(f)) && (out.contains_key(f) ==> out[f] == dir[f]) by {
        if snapshot_names(v.snapshot).contains(f) {
            let k = choose|k: int|
                0 <= k < v.snapshot.len() && snapshot_names(v.snapshot)[k] == f;
            assert(v.snapshot[k].0 == f);
        } else {
            assert forall|i: int| 0 <= i < v.snapshot.len() implies (#[trigger] v.snapshot[i]).0
                != f by {
                assert(snapshot_names(v.snapshot)[i] == v.snapshot[i].0);
            }
            assert(!dir.contains_key(f));
            assert(names.contains(f) <==> spoiled.contains_key(f));
            if names.contains(f) {
                assert(!out.contains_key(f));
            } else {
                assert(out.contains_key(f) <==> spoiled.contains_key(f));
            }
        }
    }
}

/// The law of success: where the changes of a consolidation were made, the record files of
/// the directory are exactly those of the proposed records, one for each, and their number
/// is what the consolidation reports.
pub proof fn law_consolidation_leaves_the_new_records(
    v: ConsolidationView,
    dir: Map<Seq<char>, Seq<char>>,
    reply: Option<String>,
    files: Vec<MemoryFile>,
    left: Vec<String>,
)
    requires
        lists(memory::record_file_names(memory::file_views(files@)), dir),
        v.after(ConsolidationEvent::Replied(reply, files)).sound(),
    ensures
        ({
            let w = v.after(ConsolidationEvent::Replied(reply, files));
            let done = w.action(ConsolidationEvent::Applied(Ok(()), left));
            v.action(ConsolidationEvent::Replied(reply, files)) matches
                ConsolidationActionView::Apply(cs) ==> {
                let out = changed(dir, cs);
                &&& w.records == proposed(text::opt_view(reply))
                &&& done == ConsolidationActionView::Done(w.records.len())
                &&& record_names(out).finite()
                &&& record_names(out).len() == w.records.len()
                &&& forall|i: int|
                    0 <= i < w.records.len() ==> {
                        let f = memory::record_filename((#[trigger] w.records[i]).name);
                        &&& record_names(out).contains(f)
                        &&& out[f] == memory_text::record_document(
                            text::trimmed(w.records[i].name),
                            w.records[i].mem_type,
                            w.records[i].description,
                            w.records[i].body,
                        )
                    }
            }
        }),
{
    let w = v.after(ConsolidationEvent::Replied(reply, files));
    let rs = w.records;
    if rs.len() > 0 {
        let written = rs.map_values(
            |c: memory::CandidateView|
                (
                    memory::record_filename(c.name),
                    memory_text::record_document(
                        text::trimmed(c.name),
                        c.mem_type,
                        c.description,
                        c.body,
                    ),
                ),
        );
        let existing = memory::record_file_names(memory::file_views(files@));
        let cs = replacement(existing, rs);
        let out = changed(dir, cs);
        assert forall|i: int, j: int| 0 <= i < j < written.len() implies (#[trigger] written[i]).0 != (
        #[trigger] written[j]).0 by {
            let a = memory_text::slug(rs[i].name);
            let b = memory_text::slug(rs[j].name);
            assert(a != b);
            if a + ".md"@ == b + ".md"@ {
                assert((a + ".md"@).len() == (b + ".md"@).len());
                assert(a =~= (a + ".md"@).take(a.len() as int));
                assert(b =~= (b + ".md"@).take(b.len() as int));
            }
        }
        assert(cs =~= removals(existing) + written.map_values(
            |p: (Seq<char>, Seq<char>)| ChangeView::Write { filename: p.0, content: p.1 },
        ));
        removed_files_are_gone(dir, existing);
        writes_land(dir, removals(existing), written);
        let names = written.map_values(|p: (Seq<char>, Seq<char>)| p.0);
        assert forall|i: int| 0 <= i < rs.len() implies {
            let f = memory::record_filename((#[trigger] rs[i]).name);
            &&& record_names(out).contains(f)
            &&& out[f] == memory_text::record_document(
                text::trimmed(rs[i].name),
                rs[i].mem_type,
                rs[i].description,
                rs[i].body,
            )
        } by {
            assert(written[i].0 == memory::record_filename(rs[i].name));
        }
        assert forall|f: Seq<char>| record_names(out).contains(f) <==> names.contains(f) by {
            if names.contains(f) {
                let k = choose|k: int| 0 <= k < names.len() && names[k] == f;
                assert(memory::record_filename(rs[k].name) == f);
            } else {
                assert forall|i: int| 0 <= i < written.len() implies (#[trigger] written[i]).0 != f by {
                    assert(names[i] == written[i].0);
                }
                assert(out.contains_key(f) <==> changed(dir, removals(existing)).contains_key(f));
            }
        }
        assert(record_names(out) =~= names.to_set());
        assert(names.no_duplicates()) by {
            assert forall|i: int, j: int| 0 <= i < j < names.len() implies names[i] != names[j] by {
                assert(names[i] == written[i].0 && names[j] == written[j].0);
            }
        }
        names.unique_seq_to_set();
    }
}

/// A consolidation that is not due comes to nothing, and the model is not asked.
pub proof fn law_no_consolidation_of_few_records(read_only: bool, fs: Seq<memory::FileView>)
    requires
        read_only || memory::record_files(fs).len() < memory::CONSOLIDATE_THRESHOLD,
    ensures
        ConsolidationView::of(read_only, fs).action(ConsolidationEvent::Started)
            == ConsolidationActionView::Done(0),
{
}

proof fn content_found(fs: Seq<memory::FileView>, k: int)
    requires
        0 <= k < fs.len(),
        forall|i: int, j: int|
            0 <= i < j < fs.len() ==> (#[trigger] fs[i]).filename != (#[trigger] fs[j]).filename,
    ensures
        content_of(fs, fs[k].filename) == Some(fs[k].content),
    decreases fs.len(),
{
    if k > 0 {
        assert(fs[0].filename != fs[k].filename);
        assert(fs.skip(1)[k - 1] == fs[k]);
        assert forall|i: int, j: int| 0 <= i < j < fs.skip(1).len() implies (#[trigger] fs.skip(
            1,
        )[i]).filename != (#[trigger] fs.skip(1)[j]).filename by {
            assert(fs.skip(1)[i] == fs[i + 1] && fs.skip(1)[j] == fs[j + 1]);
        }
        content_found(fs.skip(1), k - 1);
    }
}

/// The files are those of a directory, each once, with their contents.
pub open spec fn are_files_of(fs: Seq<memory::FileView>, dir: Map<Seq<char>, Seq<char>>) -> bool {
    &&& forall|i: int, j: int|
        0 <= i < j < fs.len() ==> (#[trigger] fs[i]).filename != (#[trigger] fs[j]).filename
    &&& forall|i: int|
        0 <= i < fs.len() ==> dir.contains_key((#[trigger] fs[i]).filename)
            && dir[fs[i].filename] == fs[i].content
    &&& forall|f: Seq<char>| #[trigger]
        dir.contains_key(f) ==> exists|i: int| 0 <= i < fs.len() && (#[trigger] fs[i]).filename == f
}

/// The listing of a directory names its record files.
pub proof fn law_listing_names_the_records(
    fs: Seq<memory::FileView>,
    dir: Map<Seq<char>, Seq<char>>,
)
    requires
        are_files_of(fs, dir),
    ensures
        lists(memory::record_file_names(fs), dir),
        memory::record_file_names(fs).no_duplicates(),
{
    let rs = memory::record_files(fs);
    let names = memory::record_file_names(fs);
    memory_laws::law_listing(fs);
    memory_laws::record_files_are_distinct(fs);
    assert forall|f: Seq<char>| #[trigger] names.contains(f) <==> dir.contains_key(f)
        && memory::is_record_file(f) by {
        if names.contains(f) {
            let k = choose|k: int| 0 <= k < names.len() && names[k] == f;
            assert(rs.contains(rs[k]));
            let i = choose|i: int| 0 <= i < fs.len() && fs[i] == rs[k];
            assert(fs[i].filename == f);
        }
        if dir.contains_key(f) && memory::is_record_file(f) {
            let k = choose|k: int| 0 <= k < fs.len() && (#[trigger] fs[k]).filename == f;
            assert(fs.contains(fs[k]));
            assert(rs.contains(fs[k]));
            let i = choose|i: int| 0 <= i < rs.len() && rs[i] == fs[k];
            assert(names[i] == f);
        }
    }
    assert forall|i: int, j: int| 0 <= i < names.len() && 0 <= j < names.len() && i
        != j implies names[i] != names[j] by {
        assert(names[i] == rs[i].filename && names[j] == rs[j].filename);
        if i < j {
            assert(rs[i].filename != rs[j].filename);
        } else {
            assert(rs[j].filename != rs[i].filename);
        }
    }
}

proof fn snapshot_holds(
    names: Seq<Seq<char>>,
    fs: Seq<memory::FileView>,
    dir: Map<Seq<char>, Seq<char>>,
)
    requires
        are_files_of(fs, dir),
        names.no_duplicates(),
        forall|i: int|
            0 <= i < names.len() ==> dir.contains_key(#[trigger] names[i])
                && memory::is_record_file(names[i]),
    ensures
        snapshot_names(snapshot_of(names, fs)) == names,
        forall|i: int|
            0 <= i < names.len() ==> (#[trigger] snapshot_of(names, fs)[i]).1 == dir[names[i]],
    decreases names.len(),
{
    let s = snapshot_of(names, fs);
    if names.len() == 0 {
        assert(snapshot_names(s) =~= names);
    } else {
        let head = names.drop_last();
        assert(head.no_duplicates());
        snapshot_holds(head, fs, dir);
        let n = names.last();
        assert(dir.contains_key(names[names.len() - 1]));
        let k = choose|k: int| 0 <= k < fs.len() && (#[trigger] fs[k]).filename == n;
        content_found(fs, k);
        let before = snapshot_of(head, fs);
        assert(snapshot_names(before).len() == before.len());
        assert(s == before.push((n, fs[k].content)));
        assert(snapshot_names(s) =~= snapshot_names(before).push(n));
        assert(head.push(n) =~= names);
        assert forall|i: int| 0 <= i < names.len() implies (#[trigger] s[i]).1 == dir[names[i]] by {
            if i < head.len() {
                assert(s[i] == before[i]);
            }
        }
    }
}

/// The snapshot that is taken when the model replied describes the directory, where no
/// record file came or went since the consolidation began.
pub proof fn law_snapshot_describes(
    v: ConsolidationView,
    reply: Option<String>,
    files: Vec<MemoryFile>,
    dir: Map<Seq<char>, Seq<char>>,
)
    requires
        are_files_of(memory::file_views(files@), dir),
        lists(v.names, dir),
        v.names.no_duplicates(),
    ensures
        describes(v.after(ConsolidationEvent::Replied(reply, files)).snapshot, dir),
{
    let fs = memory::file_views(files@);
    let s = snapshot_of(v.names, fs);
    assert forall|i: int| 0 <= i < v.names.len() implies dir.contains_key(#[trigger] v.names[i])
        && memory::is_record_file(v.names[i]) by {
        assert(v.names.contains(v.names[i]));
    }
    snapshot_holds(v.names, fs, dir);
    assert(snapshot_names(s).len() == s.len());
    assert forall|i: int| 0 <= i < s.len() implies (#[trigger] s[i]).0 == v.names[i] by {
        assert(snapshot_names(s)[i] == s[i].0);
    }
}

} // verus!
