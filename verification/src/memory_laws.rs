//! What holds of the memory directory and its documents.

use vstd::prelude::*;

use crate::memory;
use crate::memory_text;
use crate::recall;
use crate::text;

verus! {

/// Dictionary order is a strict total order: of two different texts exactly one comes
/// first, and none comes before itself.
pub proof fn law_dictionary_order(a: Seq<char>, b: Seq<char>)
    ensures
        a != b ==> text::precedes(a, b) || text::precedes(b, a),
        !(text::precedes(a, b) && text::precedes(b, a)),
        a == b ==> !text::precedes(a, b),
    decreases a.len(),
{
    if a.len() > 0 && b.len() > 0 && a[0] == b[0] {
        law_dictionary_order(a.skip(1), b.skip(1));
        if a.skip(1) == b.skip(1) {
            assert(a =~= seq![a[0]] + a.skip(1));
            assert(b =~= seq![b[0]] + b.skip(1));
        }
    } else if a.len() == 0 && b.len() == 0 {
        assert(a =~= b);
    }
}

/// Dictionary order is transitive.
pub proof fn law_dictionary_order_chains(a: Seq<char>, b: Seq<char>, c: Seq<char>)
    requires
        text::precedes(a, b),
        text::precedes(b, c),
    ensures
        text::precedes(a, c),
    decreases a.len(),
{
    if a.len() > 0 && b.len() > 0 && c.len() > 0 && a[0] == b[0] && b[0] == c[0] {
        law_dictionary_order_chains(a.skip(1), b.skip(1), c.skip(1));
    }
}

proof fn not_before_chains(a: Seq<char>, b: Seq<char>, c: Seq<char>)
    requires
        !text::precedes(b, a),
        !text::precedes(c, b),
    ensures
        !text::precedes(c, a),
{
    if text::precedes(c, a) {
        law_dictionary_order(a, b);
        law_dictionary_order(b, c);
        if a == b || b == c {
        } else {
            law_dictionary_order_chains(a, b, c);
            law_dictionary_order(a, c);
        }
    }
}

/// The files are in dictionary order of their names.
pub open spec fn in_order(fs: Seq<memory::FileView>) -> bool {
    forall|a: int, b: int|
        0 <= a < b < fs.len() ==> !text::precedes(
            (#[trigger] fs[b]).filename,
            (#[trigger] fs[a]).filename,
        )
}

proof fn name_place_splits(fs: Seq<memory::FileView>, name: Seq<char>)
    ensures
        0 <= memory::name_place(fs, name) <= fs.len(),
        forall|k: int|
            0 <= k < memory::name_place(fs, name) ==> !text::precedes(
                name,
                (#[trigger] fs[k]).filename,
            ),
        memory::name_place(fs, name) < fs.len() ==> text::precedes(
            name,
            fs[memory::name_place(fs, name)].filename,
        ),
    decreases fs.len(),
{
    if fs.len() > 0 && !text::precedes(name, fs[0].filename) {
        name_place_splits(fs.skip(1), name);
        assert forall|k: int| 0 <= k < memory::name_place(fs, name) implies !text::precedes(
            name,
            (#[trigger] fs[k]).filename,
        ) by {
            if k > 0 {
                assert(fs.skip(1)[k - 1] == fs[k]);
            }
        }
        let q = memory::name_place(fs.skip(1), name);
        if q < fs.skip(1).len() {
            assert(fs.skip(1)[q] == fs[q + 1]);
        }
    }
}

/// The listing of a directory holds exactly its record files, in dictionary order of
/// their names.
pub proof fn law_listing(fs: Seq<memory::FileView>)
    ensures
        in_order(memory::record_files(fs)),
        forall|f: memory::FileView|
            #[trigger] memory::record_files(fs).contains(f) <==> fs.contains(f)
                && memory::is_record_file(f.filename),
    decreases fs.len(),
{
    if fs.len() > 0 {
        let head = fs.drop_last();
        let rest = memory::record_files(head);
        let x = fs.last();
        law_listing(head);
        let p = memory::name_place(rest, x.filename);
        name_place_splits(rest, x.filename);
        let out = memory::record_files(fs);
        assert forall|f: memory::FileView| fs.contains(f) <==> head.contains(f) || f == x by {
            if fs.contains(f) {
                let k = choose|k: int| 0 <= k < fs.len() && fs[k] == f;
                if k < head.len() {
                    assert(head[k] == f);
                }
            }
            if head.contains(f) {
                let k = choose|k: int| 0 <= k < head.len() && head[k] == f;
                assert(fs[k] == f);
            }
            assert(fs[fs.len() - 1] == x);
        }
        if memory::is_record_file(x.filename) {
            assert(out =~= rest.insert(p, x));
            assert forall|a: int, b: int| 0 <= a < b < out.len() implies !text::precedes(
                (#[trigger] out[b]).filename,
                (#[trigger] out[a]).filename,
            ) by {
                if a == p {
                    assert(out[b] == rest[b - 1]);
                    law_dictionary_order(x.filename, rest[p].filename);
                    if b - 1 > p {
                        assert(!text::precedes(rest[b - 1].filename, rest[p].filename));
                        not_before_chains(x.filename, rest[p].filename, rest[b - 1].filename);
                    }
                } else if b == p {
                    assert(out[a] == rest[a]);
                } else {
                    let i = if a < p {
                        a
                    } else {
                        a - 1
                    };
                    let j = if b < p {
                        b
                    } else {
                        b - 1
                    };
                    assert(out[a] == rest[i] && out[b] == rest[j]);
                }
            }
            assert forall|f: memory::FileView| #[trigger] out.contains(f) <==> rest.contains(f) || f
                == x by {
                if out.contains(f) {
                    let k = choose|k: int| 0 <= k < out.len() && out[k] == f;
                    if k < p {
                        assert(rest[k] == f);
                    } else if k > p {
                        assert(rest[k - 1] == f);
                    }
                }
                if rest.contains(f) {
                    let k = choose|k: int| 0 <= k < rest.len() && rest[k] == f;
                    if k < p {
                        assert(out[k] == f);
                    } else {
                        assert(out[k + 1] == f);
                    }
                }
                assert(out[p] == x);
            }
        }
    }
}

/// The files of a listing have different names where those of the directory do.
pub proof fn record_files_are_distinct(fs: Seq<memory::FileView>)
    requires
        forall|i: int, j: int|
            0 <= i < j < fs.len() ==> (#[trigger] fs[i]).filename != (#[trigger] fs[j]).filename,
    ensures
        forall|i: int, j: int|
            0 <= i < j < memory::record_files(fs).len() ==> (#[trigger] memory::record_files(
                fs,
            )[i]).filename != (#[trigger] memory::record_files(fs)[j]).filename,
    decreases fs.len(),
{
    if fs.len() > 0 {
        let head = fs.drop_last();
        let rest = memory::record_files(head);
        let x = fs.last();
        record_files_are_distinct(head);
        law_listing(head);
        memory::name_place_bounds(rest, x.filename);
        let p = memory::name_place(rest, x.filename);
        let out = memory::record_files(fs);
        assert forall|k: int| 0 <= k < rest.len() implies (#[trigger] rest[k]).filename
            != x.filename by {
            assert(rest.contains(rest[k]));
            let i = choose|i: int| 0 <= i < head.len() && head[i] == rest[k];
            assert(fs[i] == head[i]);
            assert(fs[fs.len() - 1] == x);
        }
        if memory::is_record_file(x.filename) {
            assert(out =~= rest.insert(p, x));
            assert forall|i: int, j: int| 0 <= i < j < out.len() implies (#[trigger] out[i]).filename
                != (#[trigger] out[j]).filename by {
                if i != p {
                    assert(out[i] == rest[if i < p { i } else { i - 1 }]);
                }
                if j != p {
                    assert(out[j] == rest[if j < p { j } else { j - 1 }]);
                }
            }
        }
    }
}

/// A ranking puts no record before one that outranks it, and holds an entry for each record
/// in which a term was found, and no other.
pub proof fn law_ranking(rs: Seq<memory::RecordView>, terms: Seq<Seq<char>>)
    ensures
        forall|a: int, b: int|
            0 <= a < b < recall::ranking(rs, terms).len() ==> !recall::outranks(
                #[trigger] recall::ranking(rs, terms)[b],
                #[trigger] recall::ranking(rs, terms)[a],
            ),
        forall|a: int|
            0 <= a < recall::ranking(rs, terms).len() ==> (#[trigger] recall::ranking(
                rs,
                terms,
            )[a]).0 > 0,
        forall|x: (nat, Seq<char>)| #[trigger]
            recall::ranking(rs, terms).contains(x) <==> exists|i: int|
                0 <= i < rs.len() && x == (
                    recall::hits(terms, recall::searched(#[trigger] rs[i])),
                    rs[i].filename,
                ) && x.0 > 0,
    decreases rs.len(),
{
    recall::ranked_records(rs, terms);
    if rs.len() > 0 {
        let rest = recall::ranking(rs.drop_last(), terms);
        let score = recall::hits(terms, recall::searched(rs.last()));
        let x = (score, rs.last().filename);
        law_ranking(rs.drop_last(), terms);
        rank_place_splits(rest, x);
        let p = recall::rank_place(rest, x);
        let out = recall::ranking(rs, terms);
        if score > 0 {
            assert(out =~= rest.insert(p, x));
            assert forall|a: int, b: int| 0 <= a < b < out.len() implies !recall::outranks(
                #[trigger] out[b],
                #[trigger] out[a],
            ) by {
                if a == p {
                    assert(out[b] == rest[b - 1]);
                    law_dictionary_order(x.1, rest[p].1);
                    if b - 1 > p {
                        assert(!recall::outranks(rest[b - 1], rest[p]));
                        if rest[b - 1].0 == x.0 && rest[p].0 == x.0 {
                            not_before_chains(x.1, rest[p].1, rest[b - 1].1);
                        }
                    }
                } else if b == p {
                    assert(out[a] == rest[a]);
                } else {
                    let i = if a < p {
                        a
                    } else {
                        a - 1
                    };
                    let j = if b < p {
                        b
                    } else {
                        b - 1
                    };
                    assert(out[a] == rest[i] && out[b] == rest[j]);
                }
            }
            assert forall|a: int| 0 <= a < out.len() implies (#[trigger] out[a]).0 > 0 by {
                if a < p {
                    assert(out[a] == rest[a]);
                } else if a > p {
                    assert(out[a] == rest[a - 1]);
                }
            }
        }
    }
}

proof fn rank_place_splits(order: Seq<(nat, Seq<char>)>, x: (nat, Seq<char>))
    ensures
        0 <= recall::rank_place(order, x) <= order.len(),
        forall|k: int|
            0 <= k < recall::rank_place(order, x) ==> !recall::outranks(x, #[trigger] order[k]),
        recall::rank_place(order, x) < order.len() ==> recall::outranks(
            x,
            order[recall::rank_place(order, x)],
        ),
    decreases order.len(),
{
    if order.len() > 0 && !recall::outranks(x, order[0]) {
        rank_place_splits(order.skip(1), x);
        assert forall|k: int| 0 <= k < recall::rank_place(order, x) implies !recall::outranks(
            x,
            #[trigger] order[k],
        ) by {
            if k > 0 {
                assert(order.skip(1)[k - 1] == order[k]);
            }
        }
        let q = recall::rank_place(order.skip(1), x);
        if q < order.skip(1).len() {
            assert(order.skip(1)[q] == order[q + 1]);
        }
    }
}

proof fn trimmed_edges(s: Seq<char>)
    ensures
        text::trimmed(s).len() > 0 ==> !text::is_white(text::trimmed(s)[0]),
        text::trimmed(s).len() > 0 ==> !text::is_white(text::trimmed(s).last()),
{
    trim_start_edge(s);
    trim_end_edge(text::trim_start(s));
}

/// Trimming a trimmed text changes nothing.
pub proof fn trimmed_twice(s: Seq<char>)
    ensures
        text::trimmed(text::trimmed(s)) == text::trimmed(s),
{
    trimmed_edges(s);
}

proof fn trim_start_edge(s: Seq<char>)
    ensures
        text::trim_start(s).len() > 0 ==> !text::is_white(text::trim_start(s)[0]),
    decreases s.len(),
{
    if s.len() > 0 && text::is_white(s[0]) {
        trim_start_edge(s.skip(1));
    }
}

proof fn trim_end_edge(s: Seq<char>)
    ensures
        text::trim_end(s).len() > 0 ==> !text::is_white(text::trim_end(s).last()),
        text::trim_end(s).len() > 0 ==> text::trim_end(s)[0] == s[0],
    decreases s.len(),
{
    if s.len() > 0 && text::is_white(s.last()) {
        trim_end_edge(s.drop_last());
    }
}

/// Reading a document gives back what was written: the header, between line ends, and the
/// trimmed body, for every header without a rule inside and every body that is not blank.
pub proof fn law_document_round_trip(header: Seq<char>, body: Seq<char>)
    requires
        !text::has(text::trimmed(header), "---"@),
        text::trimmed(body).len() > 0,
    ensures
        memory_text::document_parts(memory_text::document_text(header, body)) == Some(
            ("\n"@ + text::trimmed(header) + "\n"@, text::trimmed(body) + "\n"@),
        ),
{
    let y = text::trimmed(header);
    let b = text::trimmed(body);
    let d = memory_text::document_text(header, body);
    reveal_strlit("---");
    reveal_strlit("---\n");
    reveal_strlit("\n---\n\n");
    reveal_strlit("\n");
    assert(d[0] == '-');
    assert(memory_text::without_bom(d) == d);
    assert(d.subrange(0, 3) =~= "---"@);
    assert(text::begins(d, "---"@));
    let j: int = y.len() as int + 5;
    assert(d.subrange(j, j + 3) =~= "---"@);
    assert(text::occurs_at(d, "---"@, j));
    assert(forall|k: int| 0 <= k < y.len() ==> d[4 + k] == y[k]);
    assert(d[3] == '\n' && d[j - 1] == '\n');
    assert forall|k: int| 3 <= k < j implies !text::occurs_at(d, "---"@, k) by {
        if text::occurs_at(d, "---"@, k) {
            let w = d.subrange(k, k + 3);
            assert(w[0] == d[k] && w[1] == d[k + 1] && w[2] == d[k + 2]);
            assert(w == "---"@);
            assert(d[k] == '-' && d[k + 1] == '-' && d[k + 2] == '-');
            if k == 3 || k == 4 + y.len() {
                assert(false);
            }
            assert(k + 2 != 4 + y.len() && k + 1 != 4 + y.len());
            assert(k + 2 < 4 + y.len());
            assert(y.subrange(k - 4, k - 1) =~= "---"@);
            assert(text::occurs_at(y, "---"@, k - 4));
        }
    }
    memory_text::next_occurrence_found(d, "---"@, 3, j);
    assert(d.subrange(3, j) =~= "\n"@ + y + "\n"@);
    let tail = d.skip(j + 3);
    assert(tail =~= "\n"@ + "\n"@ + b + "\n"@);
    trimmed_edges(body);
    assert(b[0] != '\n' && b[0] != '\r');
    assert(tail.skip(1) =~= "\n"@ + b + "\n"@);
    assert(tail.skip(1).skip(1) =~= b + "\n"@);
    assert(memory_text::without_newlines(tail) == memory_text::without_newlines(tail.skip(1)));
    assert(memory_text::without_newlines(tail.skip(1)) == memory_text::without_newlines(
        tail.skip(1).skip(1),
    ));
    assert((b + "\n"@)[0] == b[0]);
}

} // verus!
