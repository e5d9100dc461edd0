//! What holds of the words, names and documents of memory records.

use vstd::prelude::*;

use crate::memory;
use crate::memory_text;
use crate::paths;
use crate::text;

verus! {

// ---- words ----

proof fn words_apart(a: Seq<char>, b: Seq<char>)
    requires
        a.len() == 0 || b.len() == 0 || text::is_white(a.last()) || text::is_white(b[0]),
    ensures
        memory_text::words_of(a + b) == memory_text::words_of(a) + memory_text::words_of(b),
        b.len() > 0 && !text::is_white(b.last()) ==> memory_text::words_of(b).len() > 0,
    decreases b.len(),
{
    let wa = memory_text::words_of(a);
    if b.len() == 0 {
        assert(a + b =~= a);
        assert(wa + memory_text::words_of(b) =~= wa);
    } else {
        let head = b.drop_last();
        let c = b.last();
        let all = a + b;
        assert(all.drop_last() =~= a + head);
        if head.len() > 0 {
            assert(head[0] == b[0]);
        }
        words_apart(a, head);
        let w = memory_text::words_of(head);
        if text::is_white(c) {
            assert(memory_text::words_of(all) =~= wa + memory_text::words_of(b));
        } else if b.len() > 1 && !text::is_white(b[b.len() - 2]) {
            assert(head.last() == b[b.len() - 2]);
            assert(all[all.len() - 2] == b[b.len() - 2]);
            assert(w.len() > 0);
            assert((wa + w).drop_last() =~= wa + w.drop_last());
            assert((wa + w).last() == w.last());
            assert(memory_text::words_of(all) =~= wa + memory_text::words_of(b));
        } else {
            if b.len() > 1 {
                assert(all[all.len() - 2] == b[b.len() - 2]);
            } else if a.len() > 0 {
                assert(all[all.len() - 2] == a.last());
            }
            assert(memory_text::words_of(all) =~= wa + memory_text::words_of(b));
        }
    }
}

proof fn word_of_itself(w: Seq<char>)
    requires
        w.len() > 0,
        forall|i: int| 0 <= i < w.len() ==> !text::is_white(#[trigger] w[i]),
    ensures
        memory_text::words_of(w) == seq![w],
    decreases w.len(),
{
    let head = w.drop_last();
    if head.len() > 0 {
        assert forall|i: int| 0 <= i < head.len() implies !text::is_white(#[trigger] head[i]) by {
            assert(head[i] == w[i]);
        }
        word_of_itself(head);
        assert(!text::is_white(w[w.len() - 2]));
        assert(seq![head].drop_last().push(seq![head].last().push(w.last())) =~= seq![w]) by {
            assert(head.push(w.last()) =~= w);
        }
    } else {
        assert(memory_text::words_of(head) =~= Seq::empty());
        assert(seq![w.last()] =~= w);
        assert(memory_text::words_of(w) =~= seq![w]);
    }
}

/// The law of words: a text without white space is one word, white space is none, and texts
/// that white space keeps apart have the words of each, in their order.
pub proof fn law_words(w: Seq<char>, white: char, a: Seq<char>, b: Seq<char>)
    requires
        text::is_white(white),
        w.len() > 0,
        forall|i: int| 0 <= i < w.len() ==> !text::is_white(#[trigger] w[i]),
    ensures
        memory_text::words_of(w) == seq![w],
        memory_text::words_of(seq![white]).len() == 0,
        memory_text::words_of(a + seq![white] + b) == memory_text::words_of(a)
            + memory_text::words_of(b),
{
    word_of_itself(w);
    assert(memory_text::words_of(seq![white].drop_last()).len() == 0);
    words_apart(a, seq![white]);
    words_apart(a + seq![white], b);
    let none = memory_text::words_of(seq![white]);
    assert(none =~= Seq::empty());
    assert(memory_text::words_of(a) + none =~= memory_text::words_of(a));
}

/// A letter, a digit or an underscore of a plain word.
pub open spec fn is_plain(c: char) -> bool {
    'a' <= c <= 'z' || 'A' <= c <= 'Z' || '0' <= c <= '9' || c == '_'
}

/// An ideograph.
pub open spec fn is_ideograph(c: char) -> bool {
    '\u{4E00}' <= c <= '\u{9FFF}'
}

proof fn runs_apart(a: Seq<char>, b: Seq<char>)
    requires
        a.len() == 0 || b.len() == 0 || memory_text::term_kind(a.last())
            != memory_text::term_kind(b[0]) || memory_text::term_kind(b[0]) == 0,
    ensures
        memory_text::runs_of(a + b) == memory_text::runs_of(a) + memory_text::runs_of(b),
        b.len() > 0 && memory_text::term_kind(b.last()) != 0 ==> memory_text::runs_of(b).len() > 0,
    decreases b.len(),
{
    let wa = memory_text::runs_of(a);
    if b.len() == 0 {
        assert(a + b =~= a);
        assert(wa + memory_text::runs_of(b) =~= wa);
    } else {
        let head = b.drop_last();
        let c = b.last();
        let all = a + b;
        assert(all.drop_last() =~= a + head);
        if head.len() > 0 {
            assert(head[0] == b[0]);
        }
        runs_apart(a, head);
        let w = memory_text::runs_of(head);
        if memory_text::term_kind(c) == 0 {
            assert(memory_text::runs_of(all) =~= wa + memory_text::runs_of(b));
        } else if b.len() > 1 && memory_text::term_kind(b[b.len() - 2])
            == memory_text::term_kind(c) {
            assert(head.last() == b[b.len() - 2]);
            assert(all[all.len() - 2] == b[b.len() - 2]);
            assert(w.len() > 0);
            assert((wa + w).drop_last() =~= wa + w.drop_last());
            assert((wa + w).last() == w.last());
            assert(memory_text::runs_of(all) =~= wa + memory_text::runs_of(b));
        } else {
            if b.len() > 1 {
                assert(all[all.len() - 2] == b[b.len() - 2]);
            } else if a.len() > 0 {
                assert(all[all.len() - 2] == a.last());
            }
            assert(memory_text::runs_of(all) =~= wa + memory_text::runs_of(b));
        }
    }
}

proof fn run_of_itself(w: Seq<char>, kind: int)
    requires
        w.len() > 0,
        kind != 0,
        forall|i: int| 0 <= i < w.len() ==> memory_text::term_kind(#[trigger] w[i]) == kind,
    ensures
        memory_text::runs_of(w) == seq![w],
    decreases w.len(),
{
    let head = w.drop_last();
    if head.len() > 0 {
        assert forall|i: int| 0 <= i < head.len() implies memory_text::term_kind(
            #[trigger] head[i],
        ) == kind by {
            assert(head[i] == w[i]);
        }
        run_of_itself(head, kind);
        assert(memory_text::term_kind(w[w.len() - 2]) == kind);
        assert(seq![head].drop_last().push(seq![head].last().push(w.last())) =~= seq![w]) by {
            assert(head.push(w.last()) =~= w);
        }
    } else {
        assert(memory_text::runs_of(head) =~= Seq::empty());
        assert(seq![w.last()] =~= w);
        assert(memory_text::runs_of(w) =~= seq![w]);
    }
}

proof fn terms_filtered(runs: Seq<Seq<char>>)
    ensures
        memory_text::terms_among(runs) == runs.filter(|r: Seq<char>| memory_text::is_term(r)),
    decreases runs.len(),
{
    reveal(Seq::filter);
    if runs.len() > 0 {
        terms_filtered(runs.drop_last());
    }
}

proof fn terms_apart(a: Seq<char>, b: Seq<char>)
    requires
        memory_text::runs_of(a + b) == memory_text::runs_of(a) + memory_text::runs_of(b),
    ensures
        memory_text::search_terms(a + b) == memory_text::search_terms(a)
            + memory_text::search_terms(b),
{
    terms_filtered(memory_text::runs_of(a + b));
    terms_filtered(memory_text::runs_of(a));
    terms_filtered(memory_text::runs_of(b));
    Seq::filter_distributes_over_add(
        memory_text::runs_of(a),
        memory_text::runs_of(b),
        |r: Seq<char>| memory_text::is_term(r),
    );
}

/// The law of search terms: a plain word is a term from three characters on, a run of
/// ideographs from two on; what is neither separates terms, and so does the change from one
/// to the other; the terms come in their order.
pub proof fn law_search_terms(w: Seq<char>, ideographs: bool, a: Seq<char>, b: Seq<char>)
    ensures
        w.len() > 0 && !ideographs && (forall|i: int| 0 <= i < w.len() ==> is_plain(#[trigger] w[i]))
            ==> memory_text::search_terms(w) == (if w.len() >= 3 {
            seq![w]
        } else {
            Seq::empty()
        }),
        w.len() > 0 && ideographs && (forall|i: int|
            0 <= i < w.len() ==> is_ideograph(#[trigger] w[i])) ==> memory_text::search_terms(w)
            == (if w.len() >= 2 {
            seq![w]
        } else {
            Seq::empty()
        }),
        w.len() == 1 && !is_plain(w[0]) && !is_ideograph(w[0]) ==> memory_text::search_terms(
            w,
        ).len() == 0 && memory_text::search_terms(a + w + b) == memory_text::search_terms(a)
            + memory_text::search_terms(b),
        a.len() > 0 && b.len() > 0 && is_plain(a.last()) != is_plain(b[0])
            ==> memory_text::search_terms(a + b) == memory_text::search_terms(a)
            + memory_text::search_terms(b),
{
    if w.len() > 0 && !ideographs && (forall|i: int|
        0 <= i < w.len() ==> is_plain(#[trigger] w[i])) {
        assert forall|i: int| 0 <= i < w.len() implies memory_text::term_kind(#[trigger] w[i])
            == 1 by {
            assert(is_plain(w[i]));
        }
        run_of_itself(w, 1);
        terms_filtered(seq![w]);
        one_filtered(w);
    }
    if w.len() > 0 && ideographs && (forall|i: int|
        0 <= i < w.len() ==> is_ideograph(#[trigger] w[i])) {
        assert forall|i: int| 0 <= i < w.len() implies memory_text::term_kind(#[trigger] w[i])
            == 2 by {
            assert(is_ideograph(w[i]));
        }
        run_of_itself(w, 2);
        terms_filtered(seq![w]);
        one_filtered(w);
    }
    if w.len() == 1 && !is_plain(w[0]) && !is_ideograph(w[0]) {
        assert(memory_text::term_kind(w[0]) == 0);
        assert(memory_text::runs_of(w.drop_last()) =~= Seq::empty());
        assert(memory_text::runs_of(w) =~= Seq::empty());
        assert(memory_text::search_terms(w) =~= Seq::empty());
        runs_apart(a, w);
        terms_apart(a, w);
        runs_apart(a + w, b);
        terms_apart(a + w, b);
        assert(memory_text::search_terms(a) + Seq::<Seq<char>>::empty()
            =~= memory_text::search_terms(a));
    }
    if a.len() > 0 && b.len() > 0 && is_plain(a.last()) != is_plain(b[0]) {
        runs_apart(a, b);
        terms_apart(a, b);
    }
}

proof fn one_filtered(w: Seq<char>)
    ensures
        memory_text::terms_among(seq![w]) == (if memory_text::is_term(w) {
            seq![w]
        } else {
            Seq::empty()
        }),
{
    assert(seq![w].drop_last() =~= Seq::empty());
    assert(memory_text::terms_among(seq![w].drop_last()) =~= Seq::empty());
    assert(seq![w].last() == w);
    if memory_text::is_term(w) {
        assert(memory_text::terms_among(seq![w]) =~= seq![w]);
    }
}

// ---- names ----

proof fn dashing_keeps_letters(s: Seq<char>)
    ensures
        memory_text::dashed(s).filter(|c: char| text::is_alnum(c)) == s.filter(
            |c: char| text::is_alnum(c),
        ),
    decreases s.len(),
{
    reveal(Seq::filter);
    let f = |c: char| text::is_alnum(c);
    if s.len() > 0 {
        let head = s.drop_last();
        dashing_keeps_letters(head);
        let d = memory_text::dashed(head);
        let out = memory_text::dashed(s);
        assert(!text::is_alnum('-')) by {
            assert(text::is_ascii_char('-'));
        }
        if out.len() > d.len() {
            assert(out.drop_last() =~= d);
        }
    }
}

proof fn edges_hold_no_letters(s: Seq<char>)
    ensures
        memory_text::unmarked_end(memory_text::unmarked_start(s)).filter(
            |c: char| text::is_alnum(c),
        ) == s.filter(|c: char| text::is_alnum(c)),
{
    start_holds_no_letters(s);
    end_holds_no_letters(memory_text::unmarked_start(s));
}

proof fn start_holds_no_letters(s: Seq<char>)
    ensures
        memory_text::unmarked_start(s).filter(|c: char| text::is_alnum(c)) == s.filter(
            |c: char| text::is_alnum(c),
        ),
    decreases s.len(),
{
    let f = |c: char| text::is_alnum(c);
    if s.len() > 0 && memory_text::is_edge_mark(s[0]) {
        start_holds_no_letters(s.skip(1));
        let one = seq![s[0]];
        assert(s =~= one + s.skip(1));
        Seq::filter_distributes_over_add(one, s.skip(1), f);
        assert(!f(s[0])) by {
            assert(text::is_ascii_char('-') && text::is_ascii_char('_'));
        }
        reveal(Seq::filter);
        assert(one.drop_last() =~= Seq::empty());
        assert(one.last() == s[0]);
        assert(one.drop_last().filter(f) =~= Seq::empty());
        assert(one.filter(f) =~= Seq::empty());
        assert(Seq::<char>::empty() + s.skip(1).filter(f) =~= s.skip(1).filter(f));
    }
}

proof fn end_holds_no_letters(s: Seq<char>)
    ensures
        memory_text::unmarked_end(s).filter(|c: char| text::is_alnum(c)) == s.filter(
            |c: char| text::is_alnum(c),
        ),
    decreases s.len(),
{
    reveal(Seq::filter);
    if s.len() > 0 && memory_text::is_edge_mark(s.last()) {
        end_holds_no_letters(s.drop_last());
        assert(text::is_ascii_char('-') && text::is_ascii_char('_'));
    }
}

/// The law of file names: the name of a record's file has all the letters and digits of the
/// record's name, in lowercase, in their order, and no others; a name without any gives
/// `memory`.
pub proof fn law_file_names_keep_letters(lower: Seq<char>)
    ensures
        ({
            let letters = |c: char| text::is_alnum(c);
            &&& lower.filter(letters).len() > 0 ==> memory_text::slug_of(lower).filter(letters)
                == lower.filter(letters)
            &&& lower.filter(letters).len() == 0 ==> memory_text::slug_of(lower) == "memory"@
                || memory_text::slug_of(lower).filter(letters).len() == 0
        }),
{
    let d = memory_text::dashed(lower);
    dashing_keeps_letters(lower);
    edges_hold_no_letters(d);
    let s = memory_text::unmarked_end(memory_text::unmarked_start(d));
    if s.len() == 0 {
        reveal(Seq::filter);
        assert(s.filter(|c: char| text::is_alnum(c)).len() == 0);
    }
}

// ---- documents ----

/// The law of occurrences: the next place of a pattern is one, and none comes before it;
/// there is none only where the pattern does not stand in the rest of the text.
pub proof fn law_the_next_occurrence(s: Seq<char>, pat: Seq<char>, from: int)
    requires
        0 <= from,
    ensures
        match memory_text::next_occurrence(s, pat, from) {
            Some(j) => from <= j && text::occurs_at(s, pat, j) && forall|k: int|
                from <= k < j ==> !text::occurs_at(s, pat, k),
            None => forall|k: int| from <= k ==> !text::occurs_at(s, pat, k),
        },
    decreases s.len() + 1 - from,
{
    if from <= s.len() && !text::occurs_at(s, pat, from) {
        law_the_next_occurrence(s, pat, from + 1);
    }
}

proof fn newlines_dropped(s: Seq<char>) -> (n: int)
    ensures
        0 <= n <= s.len(),
        memory_text::without_newlines(s) == s.skip(n),
        forall|i: int| 0 <= i < n ==> s[i] == '\r' || s[i] == '\n',
        n < s.len() ==> s[n] != '\r' && s[n] != '\n',
    decreases s.len(),
{
    if s.len() > 0 && (s[0] == '\r' || s[0] == '\n') {
        let k = newlines_dropped(s.skip(1));
        assert(s.skip(1).skip(k) =~= s.skip(k + 1));
        assert forall|i: int| 0 <= i < k + 1 implies s[i] == '\r' || s[i] == '\n' by {
            if i > 0 {
                assert(s.skip(1)[i - 1] == s[i]);
            }
        }
        k + 1
    } else {
        assert(s.skip(0) =~= s);
        0
    }
}

/// The law of documents: a document that begins with a rule and has a second one is made of
/// the first rule, the header up to the next rule, that rule, line ends, and the body, which
/// begins with none; every other document has no header.
pub proof fn law_documents_are_taken_apart(s: Seq<char>)
    ensures
        ({
            let t = memory_text::without_bom(s);
            match memory_text::document_parts(s) {
                Some((header, body)) => {
                    &&& exists|gap: Seq<char>|
                        t == "---"@ + header + "---"@ + #[trigger] gap.take(gap.len() as int) + body
                            && forall|i: int|
                            0 <= i < gap.len() ==> gap[i] == '\r' || gap[i] == '\n'
                    &&& body.len() > 0 ==> body[0] != '\r' && body[0] != '\n'
                    &&& !text::has(header, "---"@)
                },
                None => !text::begins(t, "---"@) || forall|k: int|
                    3 <= k ==> !text::occurs_at(t, "---"@, k),
            }
        }),
        s.len() > 0 && s[0] == '\u{feff}' ==> memory_text::without_bom(s) == s.skip(1),
        s.len() == 0 || s[0] != '\u{feff}' ==> memory_text::without_bom(s) == s,
{
    reveal_strlit("---");
    let rule = "---"@;
    assert(rule.len() == 3);
    let t = memory_text::without_bom(s);
    law_the_next_occurrence(t, rule, 3);
    if let Some((header, body)) = memory_text::document_parts(s) {
        let j = memory_text::next_occurrence(t, rule, 3)->0;
        let tail = t.skip(j + 3);
        let n = newlines_dropped(tail);
        let gap = tail.take(n);
        assert(t.subrange(0, 3) == rule);
        assert(t.subrange(j, j + 3) == rule);
        assert(gap.take(gap.len() as int) =~= gap);
        assert(t =~= t.subrange(0, 3) + header + t.subrange(j, j + 3) + gap.take(gap.len() as int)
            + body);
        assert(!text::has(header, rule)) by {
            if text::has(header, rule) {
                let i = choose|i: int| text::occurs_at(header, rule, i);
                assert(t.subrange(3 + i, 3 + i + 3) =~= header.subrange(i, i + 3));
                assert(text::occurs_at(t, rule, 3 + i));
            }
        }
    }
}

// ---- records ----

/// The law of records: a record is made of its file. Its name, description and type are
/// those of the header, where it has them, else the name of the file without its ending,
/// nothing and `project`; its body is the document's, without white space round it.
pub proof fn law_records_are_read_from_their_files(f: memory::FileView)
    ensures
        ({
            let r = memory::record_of(f);
            let parts = memory_text::document_parts(f.content);
            let front = if parts is Some && f.front is Some {
                f.front->0
            } else {
                memory::FrontView { name: None, description: None, mem_type: None }
            };
            &&& r.filename == f.filename
            &&& front.name is Some ==> r.name == front.name->0
            &&& front.name is None && f.filename.len() > 3 ==> r.name == f.filename.take(
                f.filename.len() - 3,
            )
            &&& front.name is None && f.filename.len() <= 3 ==> r.name == f.filename
            &&& front.description is Some ==> r.description == front.description->0
            &&& front.description is None ==> r.description.len() == 0
            &&& front.mem_type is Some ==> r.mem_type == front.mem_type->0
            &&& front.mem_type is None ==> r.mem_type == "project"@
            &&& match (parts, f.front) {
                (Some((_, body)), Some(_)) => r.body == text::trimmed(body),
                _ => r.body == text::trimmed(memory_text::without_bom(f.content)),
            }
        }),
{
}

/// The law of writing: a record is written exactly where it has a name, a known type, a
/// description and a body that are not blank.
pub proof fn law_what_is_written(
    name: Seq<char>,
    mem_type: Seq<char>,
    description: Seq<char>,
    body: Seq<char>,
)
    ensures
        memory::write_error(name, mem_type, description, body) is None <==> text::trimmed(
            name,
        ).len() > 0 && (mem_type == "user"@ || mem_type == "feedback"@ || mem_type == "project"@
            || mem_type == "reference"@) && text::trimmed(description).len() > 0 && text::trimmed(
            body,
        ).len() > 0,
{
}

/// The law of places: a file name is accepted exactly where it has no separator, is not
/// empty and is neither of the two dot names, and is not the index unless that is asked for;
/// then it stands in the directory.
pub proof fn law_memory_files_stay_in_their_directory(
    dir: Seq<char>,
    filename: Seq<char>,
    allow_index: bool,
)
    ensures
        ({
            let r = memory::memory_path_of(dir, filename, allow_index);
            &&& r is Ok <==> filename.len() > 0 && !filename.contains('/') && filename != "."@
                && filename != ".."@ && (filename == "MEMORY.md"@ ==> allow_index)
            &&& r is Ok ==> r->Ok_0 == paths::joined_path(dir, filename)
        }),
{
}

/// The law of the index: it has a line for each record file of the directory with a plain
/// name, and no other, and each line names the file.
pub proof fn law_the_index_lists_every_record(fs: Seq<memory::FileView>)
    ensures
        memory::index_lines(fs) == fs.filter(
            |f: memory::FileView| memory::is_plain_name(f.filename),
        ).map_values(|f: memory::FileView| memory::index_line(f)),
        forall|i: int|
            0 <= i < fs.len() ==> text::has(
                memory::index_line(#[trigger] fs[i]),
                "]("@ + fs[i].filename + ")"@,
            ),
    decreases fs.len(),
{
    reveal(Seq::filter);
    let kept = |f: memory::FileView| memory::is_plain_name(f.filename);
    let line = |f: memory::FileView| memory::index_line(f);
    if fs.len() > 0 {
        let head = fs.drop_last();
        law_the_index_lists_every_record(head);
        if kept(fs.last()) {
            assert(fs.filter(kept).map_values(line) =~= head.filter(kept).map_values(line).push(
                line(fs.last()),
            ));
        }
    }
    reveal_strlit(")");
    reveal_strlit(") - ");
    assert forall|i: int| 0 <= i < fs.len() implies text::has(
        memory::index_line(#[trigger] fs[i]),
        "]("@ + fs[i].filename + ")"@,
    ) by {
        let f = fs[i];
        let (front, body) = memory::parsed(f.content, f.front);
        let a = "- ["@ + memory::member_line(front.name, memory::stem(f.filename));
        let pat = "]("@ + f.filename + ")"@;
        let out = memory::index_line(f);
        assert(out.subrange(a.len() as int, (a.len() + pat.len()) as int) =~= pat);
        assert(text::occurs_at(out, pat, a.len() as int));
    }
}

/// The law of first lines: the first line that is not blank is one of the lines, and all
/// before it are blank.
pub proof fn law_the_first_filled_line(lines: Seq<Seq<char>>)
    ensures
        memory::first_filled(lines).len() > 0 ==> exists|i: int|
            0 <= i < lines.len() && #[trigger] lines[i] == memory::first_filled(lines)
                && text::trimmed(lines[i]).len() > 0 && forall|j: int|
                0 <= j < i ==> text::trimmed(#[trigger] lines[j]).len() == 0,
        memory::first_filled(lines).len() == 0 ==> forall|j: int|
            0 <= j < lines.len() ==> text::trimmed(#[trigger] lines[j]).len() == 0,
    decreases lines.len(),
{
    if lines.len() > 0 {
        crate::text_laws::law_trimming_takes_off_white_space(lines[0]);
        if text::trimmed(lines[0]).len() > 0 {
            assert(lines[0].len() > 0);
            assert(memory::first_filled(lines) == lines[0]);
        } else {
            let rest = lines.skip(1);
            law_the_first_filled_line(rest);
            if memory::first_filled(rest).len() > 0 {
                let i = choose|i: int|
                    0 <= i < rest.len() && #[trigger] rest[i] == memory::first_filled(rest)
                        && text::trimmed(rest[i]).len() > 0 && forall|j: int|
                        0 <= j < i ==> text::trimmed(#[trigger] rest[j]).len() == 0;
                assert(lines[i + 1] == rest[i]);
                assert forall|j: int| 0 <= j < i + 1 implies text::trimmed(
                    #[trigger] lines[j],
                ).len() == 0 by {
                    if j > 0 {
                        assert(rest[j - 1] == lines[j]);
                    }
                }
            } else {
                assert forall|j: int| 0 <= j < lines.len() implies text::trimmed(
                    #[trigger] lines[j],
                ).len() == 0 by {
                    if j > 0 {
                        assert(rest[j - 1] == lines[j]);
                    }
                }
            }
        }
    }
}

/// The law of listings: a directory lists as many record files as it has, so that none is
/// lost and none is listed twice.
pub proof fn law_listings_are_complete(fs: Seq<memory::FileView>)
    ensures
        memory::record_files(fs).len() == fs.filter(
            |f: memory::FileView| memory::is_record_file(f.filename),
        ).len(),
        memory::record_files(fs).to_multiset() == fs.filter(
            |f: memory::FileView| memory::is_record_file(f.filename),
        ).to_multiset(),
    decreases fs.len(),
{
    reveal(Seq::filter);
    let kept = |f: memory::FileView| memory::is_record_file(f.filename);
    if fs.len() > 0 {
        let head = fs.drop_last();
        let f = fs.last();
        law_listings_are_complete(head);
        let rest = memory::record_files(head);
        let p = memory::name_place(rest, f.filename);
        memory::name_place_bounds(rest, f.filename);
        if kept(f) {
            assert(memory::record_files(fs) =~= rest.insert(p, f));
            assert(fs.filter(kept) =~= head.filter(kept).push(f));
            vstd::seq_lib::to_multiset_insert(rest, p, f);
            vstd::seq_lib::to_multiset_build(head.filter(kept), f);
        }
    } else {
        assert(memory::record_files(fs) =~= fs.filter(kept));
    }
}

/// The law of the index text: it has each line of the index, in their order, and ends its
/// last line; without lines it is empty.
pub proof fn law_the_index_ends_its_lines(fs: Seq<memory::FileView>)
    ensures
        ({
            let lines = memory::index_lines(memory::record_files(fs));
            &&& lines.len() == 0 ==> memory::index_text(fs).len() == 0
            &&& lines.len() > 0 ==> memory::index_text(fs) == text::joined(lines, "\n"@) + "\n"@
        }),
{
}

/// The law of members in one line: what a header says is kept, in single spaces, and what
/// stands for it is used only where it says nothing.
pub proof fn law_members_in_one_line(member: Option<Seq<char>>, other: Seq<char>)
    ensures
        member is Some && text::trimmed(member->0).len() > 0 ==> memory::member_line(member, other)
            == memory_text::spaced(text::trimmed(member->0)),
        member is None || text::trimmed(member->0).len() == 0 ==> memory::member_line(member, other)
            == memory_text::spaced(other),
{
}

/// The law of edges: the name of a record's file neither begins nor ends with a dash or an
/// underscore, and no two dashes stand together in it.
pub proof fn law_file_names_have_clean_edges(lower: Seq<char>)
    ensures
        ({
            let s = memory_text::slug_of(lower);
            &&& s.len() > 0
            &&& forall|i: int|
                0 <= i < s.len() ==> text::is_alnum(#[trigger] s[i]) || s[i] == '_' || s[i] == '-'
            &&& s[0] != '-' && s[0] != '_'
            &&& s.last() != '-' && s.last() != '_'
            &&& forall|i: int, j: int|
                0 <= i && j == i + 1 && j < s.len() ==> !(#[trigger] s[i] == '-' && #[trigger] s[j]
                    == '-')
        }),
{
    memory_text::law_slug_is_settled(lower);
    memory_text::law_slug_chars(lower);
}

/// The law of record files: they are the documents of the directory, by their ending, but for
/// the index.
pub proof fn law_which_files_are_records(stem: Seq<char>, filename: Seq<char>)
    ensures
        stem + ".md"@ != "MEMORY.md"@ ==> memory::is_record_file(stem + ".md"@),
        !memory::is_record_file("MEMORY.md"@),
        memory::is_record_file(filename) ==> exists|s: Seq<char>|
            #[trigger] s.take(s.len() as int) + ".md"@ == filename,
{
    reveal_strlit(".md");
    let f = stem + ".md"@;
    assert(f.skip(f.len() - 3) =~= ".md"@);
    if memory::is_record_file(filename) {
        let s = filename.take(filename.len() - 3);
        assert(s.take(s.len() as int) =~= s);
        assert(s + filename.skip(filename.len() - 3) =~= filename);
        assert(s.take(s.len() as int) + ".md"@ == filename);
    }
}

proof fn dashed_apart(a: Seq<char>, b: Seq<char>)
    requires
        a.len() == 0 || b.len() == 0 || memory_text::is_word_char(a.last())
            || memory_text::is_word_char(b[0]),
    ensures
        memory_text::dashed(a + b) == memory_text::dashed(a) + memory_text::dashed(b),
    decreases b.len(),
{
    let da = memory_text::dashed(a);
    if b.len() == 0 {
        assert(a + b =~= a);
        assert(da + memory_text::dashed(b) =~= da);
    } else {
        let head = b.drop_last();
        let all = a + b;
        assert(all.drop_last() =~= a + head);
        assert(all.last() == b.last());
        if head.len() > 0 {
            assert(head[0] == b[0]);
            assert(all[all.len() - 2] == b[b.len() - 2]);
        } else if a.len() > 0 {
            assert(all[all.len() - 2] == a.last());
        }
        dashed_apart(a, head);
        assert(memory_text::dashed(all) =~= da + memory_text::dashed(b));
    }
}

/// The law of dashes: letters, digits and underscores stay as they are, and what stands
/// between two of them and is none becomes a dash; so does a run of it.
pub proof fn law_gaps_become_dashes(w: Seq<char>, a: Seq<char>, gap: Seq<char>, b: Seq<char>)
    requires
        forall|i: int|
            0 <= i < w.len() ==> text::is_alnum(#[trigger] w[i]) || w[i] == '_',
        gap.len() > 0,
        forall|i: int|
            0 <= i < gap.len() ==> !text::is_alnum(#[trigger] gap[i]) && gap[i] != '_',
        a.len() > 0 && (text::is_alnum(a.last()) || a.last() == '_'),
        b.len() > 0 && (text::is_alnum(b[0]) || b[0] == '_'),
    ensures
        memory_text::dashed(w) == w,
        memory_text::dashed(a + gap + b) == memory_text::dashed(a) + seq!['-']
            + memory_text::dashed(b),
    decreases w.len() + gap.len(),
{
    if w.len() > 0 {
        let head = w.drop_last();
        assert forall|i: int| 0 <= i < head.len() implies text::is_alnum(#[trigger] head[i])
            || head[i] == '_' by {
            assert(head[i] == w[i]);
        }
        law_gaps_become_dashes(head, a, gap, b);
        assert(memory_text::is_word_char(w[w.len() - 1]));
        assert(memory_text::dashed(w) =~= w);
    } else {
        assert(memory_text::dashed(w) =~= w);
    }
    gap_is_a_dash(gap);
    dashed_apart(a, gap);
    dashed_apart(a + gap, b);
}

proof fn gap_is_a_dash(gap: Seq<char>)
    requires
        gap.len() > 0,
        forall|i: int|
            0 <= i < gap.len() ==> !text::is_alnum(#[trigger] gap[i]) && gap[i] != '_',
    ensures
        memory_text::dashed(gap) == seq!['-'],
    decreases gap.len(),
{
    let head = gap.drop_last();
    assert(!memory_text::is_word_char(gap[gap.len() - 1]));
    if head.len() > 0 {
        assert forall|i: int| 0 <= i < head.len() implies !text::is_alnum(#[trigger] head[i])
            && head[i] != '_' by {
            assert(head[i] == gap[i]);
        }
        gap_is_a_dash(head);
        assert(!memory_text::is_word_char(gap[gap.len() - 2]));
    } else {
        assert(memory_text::dashed(head) =~= Seq::empty());
        assert(memory_text::dashed(gap) =~= seq!['-']);
    }
}

} // verus!
