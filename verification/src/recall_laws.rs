//! What holds of the choice of memory records and of what is recalled of them.

use vstd::prelude::*;

use crate::client;
use crate::json;
use crate::memory;
use crate::memory_laws;
use crate::memory_text;
use crate::recall;
use crate::text;

verus! {

/// The number of terms that stand in the name or the description of a record.
pub open spec fn found_terms(terms: Seq<Seq<char>>, r: memory::RecordView) -> nat {
    terms.filter(
        |t: Seq<char>|
            exists|i: int|
                0 <= i <= i + t.len() <= text::lowered(r.name + " "@ + r.description).len()
                    && #[trigger] text::lowered(r.name + " "@ + r.description).subrange(
                    i,
                    i + t.len(),
                ) == t,
    ).len()
}

/// The score of a record is the number of terms that stand in its name or description.
pub proof fn law_scores_count_terms(terms: Seq<Seq<char>>, r: memory::RecordView)
    ensures
        recall::hits(terms, recall::searched(r)) == found_terms(terms, r),
    decreases terms.len(),
{
    let s = recall::searched(r);
    let pred = |t: Seq<char>|
        exists|i: int|
            0 <= i <= i + t.len() <= text::lowered(r.name + " "@ + r.description).len()
                && #[trigger] text::lowered(r.name + " "@ + r.description).subrange(i, i + t.len())
                == t;
    reveal(Seq::filter);
    if terms.len() > 0 {
        law_scores_count_terms(terms.drop_last(), r);
        let t = terms.last();
        if text::has(s, t) {
            let i = choose|i: int| text::occurs_at(s, t, i);
            assert(s.subrange(i, i + t.len()) == t);
            assert(pred(t));
        }
        if pred(t) {
            let i = choose|i: int|
                0 <= i <= i + t.len() <= s.len() && #[trigger] s.subrange(i, i + t.len()) == t;
            assert(text::occurs_at(s, t, i));
        }
    }
}

/// The law of ranking: of two entries the one with more terms comes first, and of two with
/// as many the one whose file comes first in dictionary order.
pub proof fn law_more_terms_come_first(rs: Seq<memory::RecordView>, terms: Seq<Seq<char>>)
    ensures
        forall|a: int, b: int|
            0 <= a < b < recall::ranking(rs, terms).len() ==> (#[trigger] recall::ranking(
                rs,
                terms,
            )[a]).0 >= (#[trigger] recall::ranking(rs, terms)[b]).0,
        forall|a: int, b: int|
            0 <= a < b < recall::ranking(rs, terms).len() && (#[trigger] recall::ranking(
                rs,
                terms,
            )[a]).0 == (#[trigger] recall::ranking(rs, terms)[b]).0 ==> !text::precedes(
                recall::ranking(rs, terms)[b].1,
                recall::ranking(rs, terms)[a].1,
            ),
{
    memory_laws::law_ranking(rs, terms);
    let out = recall::ranking(rs, terms);
    assert forall|a: int, b: int| 0 <= a < b < out.len() implies (#[trigger] out[a]).0 >= (
    #[trigger] out[b]).0 by {
        assert(!recall::outranks(out[b], out[a]));
    }
    assert forall|a: int, b: int|
        0 <= a < b < out.len() && (#[trigger] out[a]).0 == (#[trigger] out[b]).0 implies !text::precedes(
        out[b].1,
        out[a].1,
    ) by {
        assert(!recall::outranks(out[b], out[a]));
    }
}

/// A term is found in the record at place `j`, and none whose file is not in `out` has more.
pub open spec fn is_among_the_best(
    rs: Seq<memory::RecordView>,
    terms: Seq<Seq<char>>,
    out: Seq<Seq<char>>,
    j: int,
) -> bool {
    &&& found_terms(terms, rs[j]) > 0
    &&& forall|i: int|
        0 <= i < rs.len() && !out.contains((#[trigger] rs[i]).filename) ==> found_terms(
            terms,
            rs[i],
        ) <= found_terms(terms, rs[j])
}

/// The file is that of a record that is among the best.
pub open spec fn is_well_chosen(
    rs: Seq<memory::RecordView>,
    terms: Seq<Seq<char>>,
    out: Seq<Seq<char>>,
    file: Seq<char>,
) -> bool {
    exists|j: int|
        0 <= j < rs.len() && (#[trigger] rs[j]).filename == file && is_among_the_best(
            rs,
            terms,
            out,
            j,
        )
}

/// The law of matches: no record that is left out has more terms of the query than one that
/// is chosen; a record is left out only where no term is found in it or as many as may be
/// are chosen; and no record without a term is chosen.
pub proof fn law_no_better_record_is_left_out(
    rs: Seq<memory::RecordView>,
    lower_query: Seq<char>,
    max: int,
)
    requires
        max >= 0,
    ensures
        ({
            let terms = recall::distinct(memory_text::search_terms(lower_query));
            let out = recall::best_matches(rs, lower_query, max);
            &&& out.len() <= max
            &&& forall|k: int| 0 <= k < out.len() ==> is_well_chosen(rs, terms, out, #[trigger] out[k])
            &&& out.len() < max ==> forall|i: int|
                0 <= i < rs.len() && found_terms(terms, #[trigger] rs[i]) > 0 ==> out.contains(
                    rs[i].filename,
                )
        }),
{
    let terms = recall::distinct(memory_text::search_terms(lower_query));
    let order = recall::ranking(rs, terms);
    let out = recall::best_matches(rs, lower_query, max);
    recall::ranked_records(rs, terms);
    law_more_terms_come_first(rs, terms);
    assert forall|i: int|
        0 <= i < rs.len() && found_terms(terms, #[trigger] rs[i]) > 0 implies order.contains(
        (found_terms(terms, rs[i]), rs[i].filename),
    ) by {
        law_scores_count_terms(terms, rs[i]);
    }
    assert forall|k: int| 0 <= k < out.len() implies is_well_chosen(
        rs,
        terms,
        out,
        #[trigger] out[k],
    ) by {
        assert(out[k] == order[k].1);
        assert(order.contains(order[k]));
        let j = choose|j: int|
            0 <= j < rs.len() && order[k] == (
                recall::hits(terms, recall::searched(#[trigger] rs[j])),
                rs[j].filename,
            ) && order[k].0 > 0;
        law_scores_count_terms(terms, rs[j]);
        assert forall|i: int|
            0 <= i < rs.len() && !out.contains((#[trigger] rs[i]).filename) implies found_terms(
            terms,
            rs[i],
        ) <= found_terms(terms, rs[j]) by {
            if found_terms(terms, rs[i]) > 0 {
                let x = (found_terms(terms, rs[i]), rs[i].filename);
                assert(order.contains(x));
                let p = choose|p: int| 0 <= p < order.len() && order[p] == x;
                if p < out.len() {
                    assert(out[p] == rs[i].filename);
                }
                assert(k < p);
                assert(order[k].0 >= order[p].0);
            }
        }
        assert(is_among_the_best(rs, terms, out, j));
    }
    if out.len() < max {
        assert forall|i: int|
            0 <= i < rs.len() && found_terms(terms, #[trigger] rs[i]) > 0 implies out.contains(
            rs[i].filename,
        ) by {
            let x = (found_terms(terms, rs[i]), rs[i].filename);
            let p = choose|p: int| 0 <= p < order.len() && order[p] == x;
            assert(out[p] == rs[i].filename);
        }
    }
}

/// The terms without repetitions are the same terms, each of them once, in the order in
/// which they come first.
pub proof fn law_distinct_terms(terms: Seq<Seq<char>>)
    ensures
        recall::distinct(terms).no_duplicates(),
        forall|t: Seq<char>| #[trigger] recall::distinct(terms).contains(t) <==> terms.contains(t),
        terms.no_duplicates() ==> recall::distinct(terms) == terms,
    decreases terms.len(),
{
    if terms.len() > 0 {
        let head = terms.drop_last();
        law_distinct_terms(head);
        let d = recall::distinct(head);
        let out = recall::distinct(terms);
        assert forall|t: Seq<char>| #[trigger] out.contains(t) <==> terms.contains(t) by {
            if out.contains(t) {
                let k = choose|k: int| 0 <= k < out.len() && out[k] == t;
                if k < d.len() {
                    assert(d[k] == t);
                    assert(d.contains(t));
                    let i = choose|i: int| 0 <= i < head.len() && head[i] == t;
                    assert(terms[i] == t);
                } else {
                    assert(terms[terms.len() - 1] == t);
                }
            }
            if terms.contains(t) {
                let i = choose|i: int| 0 <= i < terms.len() && terms[i] == t;
                if i < head.len() {
                    assert(head[i] == t);
                    assert(d.contains(t));
                    let k = choose|k: int| 0 <= k < d.len() && d[k] == t;
                    assert(out[k] == t);
                } else if !d.contains(t) {
                    assert(out[out.len() - 1] == t);
                }
            }
        }
        assert forall|a: int, b: int| 0 <= a < b < out.len() implies out[a] != out[b] by {
            if b == d.len() {
                assert(d[a] == out[a]);
                assert(d.contains(out[a]));
            }
        }
        if terms.no_duplicates() {
            assert(head.no_duplicates());
            assert(!head.contains(terms.last()));
            assert(out =~= terms);
        }
    } else {
        assert(recall::distinct(terms) =~= terms);
    }
}

/// Dictionary order goes by the first character in which two texts differ, and a text comes
/// before those that go on from it.
pub proof fn law_first_difference_decides(
    common: Seq<char>,
    x: char,
    y: char,
    s: Seq<char>,
    t: Seq<char>,
)
    ensures
        x < y ==> text::precedes(common + seq![x] + s, common + seq![y] + t),
        t.len() > 0 ==> text::precedes(common, common + t),
    decreases common.len(),
{
    if common.len() > 0 {
        law_first_difference_decides(common.skip(1), x, y, s, t);
        assert((common + seq![x] + s).skip(1) =~= common.skip(1) + seq![x] + s);
        assert((common + seq![y] + t).skip(1) =~= common.skip(1) + seq![y] + t);
        assert((common + t).skip(1) =~= common.skip(1) + t);
    } else {
        assert(common + seq![x] + s =~= seq![x] + s);
        assert(common + seq![y] + t =~= seq![y] + t);
        assert(common + t =~= t);
    }
}

/// The name that the index at place `p` stands for, where it is one.
pub open spec fn named(
    indices: Seq<Option<i64>>,
    names: Seq<Seq<char>>,
    p: int,
) -> Option<Seq<char>> {
    match indices[p] {
        Some(i) if 0 <= i < names.len() => Some(names[i as int]),
        _ => None,
    }
}

proof fn picked_follows(
    indices: Seq<Option<i64>>,
    names: Seq<Seq<char>>,
    chosen: Seq<Seq<char>>,
    max: int,
)
    ensures
        ({
            let out = recall::picked(indices, names, chosen, max);
            &&& chosen.is_prefix_of(out)
            &&& forall|k: int|
                chosen.len() <= k < out.len() ==> exists|p: int|
                    0 <= p < indices.len() && #[trigger] named(indices, names, p) == Some(
                        #[trigger] out[k],
                    ) && forall|q: int|
                        0 <= q < p && #[trigger] named(indices, names, q) is Some ==> out.take(
                            k,
                        ).contains(named(indices, names, q)->0)
            &&& out.len() < max ==> forall|p: int|
                0 <= p < indices.len() && #[trigger] named(indices, names, p) is Some
                    ==> out.contains(named(indices, names, p)->0)
        }),
    decreases indices.len(),
{
    let out = recall::picked(indices, names, chosen, max);
    if indices.len() > 0 && chosen.len() < max {
        let rest = indices.skip(1);
        let first = named(indices, names, 0);
        let next = if first is Some && !chosen.contains(first->0) {
            chosen.push(first->0)
        } else {
            chosen
        };
        picked_follows(rest, names, next, max);
        assert(out == recall::picked(rest, names, next, max));
        assert(chosen.is_prefix_of(out)) by {
            assert(chosen =~= out.take(chosen.len() as int)) by {
                assert(next =~= out.take(next.len() as int));
            }
        }
        assert forall|q: int| 0 < q < indices.len() implies named(rest, names, q - 1)
            == #[trigger] named(indices, names, q) by {
            assert(rest[q - 1] == indices[q]);
        }
        assert(first is Some ==> next.contains(first->0)) by {
            if first is Some && !chosen.contains(first->0) {
                assert(next[chosen.len() as int] == first->0);
            }
        }
        assert forall|k: int| chosen.len() <= k < out.len() implies exists|p: int|
            0 <= p < indices.len() && #[trigger] named(indices, names, p) == Some(#[trigger] out[k])
                && forall|q: int|
                0 <= q < p && #[trigger] named(indices, names, q) is Some ==> out.take(k).contains(
                    named(indices, names, q)->0,
                ) by {
            if k < next.len() {
                assert(next[k] == out[k]);
                assert(named(indices, names, 0) == Some(out[k]));
            } else {
                let p = choose|p: int|
                    0 <= p < rest.len() && #[trigger] named(rest, names, p) == Some(out[k])
                        && forall|q: int|
                        0 <= q < p && #[trigger] named(rest, names, q) is Some ==> out.take(
                            k,
                        ).contains(named(rest, names, q)->0);
                assert(named(indices, names, p + 1) == Some(out[k]));
                assert forall|q: int|
                    0 <= q < p + 1 && #[trigger] named(indices, names, q) is Some implies out.take(
                    k,
                ).contains(named(indices, names, q)->0) by {
                    if q == 0 {
                        let a = choose|a: int| 0 <= a < next.len() && next[a] == first->0;
                        assert(out.take(k)[a] == next[a]);
                    } else {
                        assert(named(rest, names, q - 1) is Some);
                    }
                }
            }
        }
        if out.len() < max {
            assert forall|p: int|
                0 <= p < indices.len() && #[trigger] named(
                    indices,
                    names,
                    p,
                ) is Some implies out.contains(named(indices, names, p)->0) by {
                if p == 0 {
                    let a = choose|a: int| 0 <= a < next.len() && next[a] == first->0;
                    assert(out[a] == next[a]);
                } else {
                    assert(named(rest, names, p - 1) is Some);
                }
            }
        }
    }
}

/// The law of choices: the model's choice is followed. Every name stands for an index that
/// the model gave, in the order in which the indices come first, and each valid index is
/// followed until as many as may be are chosen.
pub proof fn law_choices_are_followed(
    indices: Seq<Option<i64>>,
    names: Seq<Seq<char>>,
    max: int,
)
    ensures
        ({
            let out = recall::picked(indices, names, Seq::empty(), max);
            &&& forall|k: int|
                0 <= k < out.len() ==> exists|p: int|
                    0 <= p < indices.len() && #[trigger] named(indices, names, p) == Some(
                        #[trigger] out[k],
                    ) && forall|q: int|
                        0 <= q < p && #[trigger] named(indices, names, q) is Some ==> out.take(
                            k,
                        ).contains(named(indices, names, q)->0)
            &&& out.len() < max ==> forall|p: int|
                0 <= p < indices.len() && #[trigger] named(indices, names, p) is Some
                    ==> out.contains(named(indices, names, p)->0)
        }),
{
    picked_follows(indices, names, Seq::empty(), max);
}

/// What a message says is what its text blocks say, without those that are blank, in their
/// order; and a dialogue has a line for each message that says something.
pub proof fn law_everything_said_is_read(bs: Seq<client::BlockView>, ms: Seq<client::MessageView>)
    ensures
        recall::filled_texts(bs) == bs.filter(
            |b: client::BlockView| b is Text && text::trimmed(b->text).len() > 0,
        ).map_values(|b: client::BlockView| b->text),
        recall::dialogue_lines(ms) == ms.filter(
            |m: client::MessageView| recall::said(m).len() > 0,
        ).map_values(|m: client::MessageView| m.role + ": "@ + recall::said(m)),
    decreases bs.len() + ms.len(),
{
    reveal(Seq::filter);
    let kept = |b: client::BlockView| b is Text && text::trimmed(b->text).len() > 0;
    let texts = |b: client::BlockView| b->text;
    let spoken = |m: client::MessageView| recall::said(m).len() > 0;
    let line = |m: client::MessageView| m.role + ": "@ + recall::said(m);
    if bs.len() > 0 {
        law_everything_said_is_read(bs.drop_last(), ms);
        if kept(bs.last()) {
            assert(bs.filter(kept).map_values(texts) =~= bs.drop_last().filter(kept).map_values(
                texts,
            ).push(bs.last()->text));
        }
    }
    if ms.len() > 0 {
        law_everything_said_is_read(bs, ms.drop_last());
        if spoken(ms.last()) {
            assert(ms.filter(spoken).map_values(line) =~= ms.drop_last().filter(spoken).map_values(
                line,
            ).push(line(ms.last())));
        }
    }
}

/// What the user said, message by message.
pub open spec fn user_texts(ms: Seq<client::MessageView>) -> Seq<Seq<char>> {
    ms.filter(
        |m: client::MessageView| m.role == "user"@ && recall::said(m).len() > 0,
    ).map_values(|m: client::MessageView| recall::said(m))
}

proof fn latest_of(ms: Seq<client::MessageView>, max: int, found: Seq<Seq<char>>)
    requires
        found.len() < max,
    ensures
        ({
            let all = user_texts(ms) + found.reverse();
            recall::latest_requests(ms, max, found).reverse() == if all.len() <= max {
                all
            } else {
                all.skip(all.len() - max)
            }
        }),
    decreases ms.len(),
{
    reveal(Seq::filter);
    let kept = |m: client::MessageView| m.role == "user"@ && recall::said(m).len() > 0;
    let f = |m: client::MessageView| recall::said(m);
    let all = user_texts(ms) + found.reverse();
    if ms.len() == 0 {
        assert(all =~= found.reverse());
    } else {
        let m = ms.last();
        let head = ms.drop_last();
        if kept(m) {
            let next = found.push(recall::said(m));
            assert(user_texts(ms) =~= user_texts(head).push(recall::said(m)));
            assert(next.reverse() =~= seq![recall::said(m)] + found.reverse());
            assert(all =~= user_texts(head) + next.reverse());
            if next.len() < max {
                latest_of(head, max, next);
            } else {
                assert(next.reverse() =~= if all.len() <= max {
                    all
                } else {
                    all.skip(all.len() - max)
                });
            }
        } else {
            assert(user_texts(ms) =~= user_texts(head));
            latest_of(head, max, found);
        }
    }
}

/// The law of requests: the recent request is made of what the user said last, in the order
/// in which it was said, and of no more messages than asked for.
pub proof fn law_the_latest_requests_count(ms: Seq<client::MessageView>, max: int)
    requires
        max > 0,
    ensures
        ({
            let all = user_texts(ms);
            let latest = if all.len() <= max {
                all
            } else {
                all.skip(all.len() - max)
            };
            let joined = text::joined(latest, "\n"@);
            &&& recall::recent_request(ms, max) == if joined.len() <= 4000 {
                joined
            } else {
                joined.take(4000)
            }
        }),
{
    latest_of(ms, max, Seq::empty());
    let none = Seq::<Seq<char>>::empty();
    assert(none.reverse() =~= none);
    assert(user_texts(ms) + none =~= user_texts(ms));
}

/// What a chosen file holds; nothing where it could not be read.
pub open spec fn held(e: (Seq<char>, Option<Seq<char>>)) -> Seq<char> {
    match e.1 {
        Some(c) => c,
        None => Seq::empty(),
    }
}

/// All that the chosen files hold, one behind the other.
pub open spec fn all_held(entries: Seq<(Seq<char>, Option<Seq<char>>)>) -> Seq<char> {
    entries.flat_map(|e: (Seq<char>, Option<Seq<char>>)| held(e))
}

/// All that is recalled, one part behind the other.
pub open spec fn all_recalled(parts: Seq<(Seq<char>, Seq<char>)>) -> Seq<char> {
    parts.flat_map(|p: (Seq<char>, Seq<char>)| p.1)
}

/// The part is the beginning of what a chosen file of that name holds, and not empty.
pub open spec fn comes_from(
    p: (Seq<char>, Seq<char>),
    entries: Seq<(Seq<char>, Option<Seq<char>>)>,
) -> bool {
    p.1.len() > 0 && exists|i: int|
        0 <= i < entries.len() && (#[trigger] entries[i]).0 == p.0 && p.1.is_prefix_of(
            held(entries[i]),
        )
}

/// The law of recall: what is recalled of the chosen files is all that they hold, in their
/// order, up to the room for it; and each part is named after the file that it comes from.
pub proof fn law_recall_is_whole_up_to_its_room(
    entries: Seq<(Seq<char>, Option<Seq<char>>)>,
    room: int,
)
    requires
        room >= 0,
    ensures
        all_recalled(recall::recalled(entries, room)) == if all_held(entries).len() <= room {
            all_held(entries)
        } else {
            all_held(entries).take(room)
        },
        forall|k: int|
            0 <= k < recall::recalled(entries, room).len() ==> comes_from(
                #[trigger] recall::recalled(entries, room)[k],
                entries,
            ),
    decreases entries.len(),
{
    let f = |e: (Seq<char>, Option<Seq<char>>)| held(e);
    let g = |p: (Seq<char>, Seq<char>)| p.1;
    let parts = recall::recalled(entries, room);
    if entries.len() > 0 {
        let rest = entries.skip(1);
        let c = held(entries[0]);
        assert(entries.map_values(f).drop_first() =~= rest.map_values(f));
        assert(all_held(entries) =~= c + all_held(rest));
        if room == 0 {
            assert(parts.map_values(g) =~= Seq::empty());
            assert(all_recalled(parts) =~= Seq::empty());
            assert(all_held(entries).take(0) =~= Seq::empty());
        } else if c.len() > 0 {
            let part = text::first_chars(c, room);
            let more = recall::recalled(rest, room - part.len());
            law_recall_is_whole_up_to_its_room(rest, room - part.len());
            assert(parts =~= seq![(entries[0].0, part)] + more);
            assert(parts.map_values(g).drop_first() =~= more.map_values(g));
            assert(all_recalled(parts) =~= part + all_recalled(more));
            assert(all_recalled(parts) =~= if all_held(entries).len() <= room {
                all_held(entries)
            } else {
                all_held(entries).take(room)
            });
            assert(part.is_prefix_of(held(entries[0])));
            assert forall|k: int| 0 <= k < parts.len() implies comes_from(
                #[trigger] parts[k],
                entries,
            ) by {
                if k > 0 {
                    assert(parts[k] == more[k - 1]);
                    assert(comes_from(more[k - 1], rest));
                    let i = choose|i: int|
                        0 <= i < rest.len() && (#[trigger] rest[i]).0 == parts[k].0
                            && parts[k].1.is_prefix_of(held(rest[i]));
                    assert(entries[i + 1] == rest[i]);
                }
            }
        } else {
            law_recall_is_whole_up_to_its_room(rest, room);
            assert(all_held(entries) =~= all_held(rest));
            assert forall|k: int| 0 <= k < parts.len() implies comes_from(
                #[trigger] parts[k],
                entries,
            ) by {
                assert(comes_from(parts[k], rest));
                let i = choose|i: int|
                    0 <= i < rest.len() && (#[trigger] rest[i]).0 == parts[k].0
                        && parts[k].1.is_prefix_of(held(rest[i]));
                assert(entries[i + 1] == rest[i]);
            }
        }
    } else {
        assert(parts.map_values(g) =~= Seq::empty());
        assert(entries.map_values(f) =~= Seq::empty());
        assert(all_recalled(parts) =~= all_held(entries));
    }
}

/// The law of the system prompt: it begins with the base, and is the base where memory
/// holds nothing; else it holds the note on memory, and whole what memory holds.
pub proof fn law_memory_joins_the_system_prompt(
    base: Seq<char>,
    index: Seq<char>,
    recalled: Seq<char>,
)
    ensures
        ({
            let out = recall::system_with_memory(base, index, recalled);
            &&& base.is_prefix_of(out)
            &&& index.len() == 0 && recalled.len() == 0 <==> out == base
            &&& index.len() > 0 || recalled.len() > 0 ==> text::has(out, memory::MEMORY_NOTE@)
            &&& index.len() > 0 ==> text::has(out, "\n\nMemory catalog:\n"@ + index)
            &&& recalled.len() > 0 ==> text::ends(
                out,
                "\n\nRelevant memory records:\n"@ + recalled,
            )
            &&& index.len() == 0 && recalled.len() > 0 ==> out == base + "\n\n"@
                + memory::MEMORY_NOTE@ + "\n\nRelevant memory records:\n"@ + recalled
            &&& index.len() > 0 && recalled.len() == 0 ==> out == base + "\n\n"@
                + memory::MEMORY_NOTE@ + "\n\nMemory catalog:\n"@ + index
        }),
{
    let out = recall::system_with_memory(base, index, recalled);
    let a = base + "\n\n"@;
    let note = memory::MEMORY_NOTE@;
    if index.len() > 0 || recalled.len() > 0 {
        reveal_strlit("\n\n");
        assert(out.subrange(a.len() as int, (a.len() + note.len()) as int) =~= note);
        assert(text::occurs_at(out, note, a.len() as int));
        assert(out.len() > base.len());
        assert(base =~= out.take(base.len() as int));
        if index.len() > 0 {
            let i = "\n\nMemory catalog:\n"@ + index;
            let at = (a + note).len() as int;
            assert(out.subrange(at, at + i.len()) =~= i);
            assert(text::occurs_at(out, i, at));
        }
        if recalled.len() > 0 {
            let r = "\n\nRelevant memory records:\n"@ + recalled;
            assert(out.skip(out.len() - r.len()) =~= r);
        }
        if index.len() == 0 {
            assert(out =~= base + "\n\n"@ + memory::MEMORY_NOTE@
                + "\n\nRelevant memory records:\n"@ + recalled);
        }
        if recalled.len() == 0 {
            assert(out =~= base + "\n\n"@ + memory::MEMORY_NOTE@ + "\n\nMemory catalog:\n"@
                + index);
        }
    }
}

/// The law of proposals: one is taken up exactly where its name, type, description and body
/// are texts that are not blank, its type is known, and, where that is asked for, it says
/// for how long it holds; it is taken up without the white space round each.
pub proof fn law_complete_proposals_are_taken_up(v: json::JsonView, require_scope: bool)
    ensures
        ({
            let name = v.str_member("name"@);
            let kind = v.str_member("type"@);
            let description = v.str_member("description"@);
            let body = v.str_member("body"@);
            let scope = text::trimmed(v.str_or_empty("scope"@));
            let complete = name is Some && kind is Some && description is Some && body is Some
                && text::trimmed(name->0).len() > 0 && text::trimmed(kind->0).len() > 0
                && text::trimmed(description->0).len() > 0 && text::trimmed(body->0).len() > 0;
            let known = text::trimmed(kind->0) == "user"@ || text::trimmed(kind->0) == "feedback"@
                || text::trimmed(kind->0) == "project"@ || text::trimmed(kind->0) == "reference"@;
            let out = recall::candidate_of(v, require_scope);
            &&& out is Some <==> complete && known && (require_scope ==> scope == "persistent"@
                || scope == "current_task"@)
            &&& out is Some ==> {
                &&& out->0.name == text::trimmed(name->0)
                &&& out->0.mem_type == text::trimmed(kind->0)
                &&& out->0.description == text::trimmed(description->0)
                &&& out->0.body == text::trimmed(body->0)
                &&& out->0.scope == scope
            }
        }),
{
}

/// The law of repetition: a proposal that was stored is not worth storing again, nor is one
/// with the name, the description or the body of a record; and what is worth storing beside
/// some records is worth storing beside fewer.
pub proof fn law_nothing_is_stored_twice(
    c: memory::CandidateView,
    existing: Seq<memory::RecordView>,
    i: int,
)
    requires
        0 <= i < existing.len(),
    ensures
        existing[i].name == c.name || existing[i].description == c.description || existing[i].body
            == c.body ==> !recall::worth_storing(c, existing),
        recall::worth_storing(c, existing) ==> recall::worth_storing(c, existing.remove(i)),
        recall::worth_storing(c, existing) ==> c.scope == "persistent"@,
{
    if recall::worth_storing(c, existing) {
        assert(!recall::repeats(c, existing[i]));
        let fewer = existing.remove(i);
        assert forall|k: int| 0 <= k < fewer.len() implies !recall::repeats(
            c,
            #[trigger] fewer[k],
        ) by {
            assert(fewer[k] == existing[if k < i {
                k
            } else {
                k + 1
            }]);
        }
    }
}

/// The items of the JSON array that begins at position `i`, where one does.
pub open spec fn array_at(s: Seq<char>, i: int) -> Option<Seq<Seq<char>>> {
    if s[i] != '[' {
        None
    } else {
        match json::json_first(s.skip(i)) {
            Some(t) => match json::json_value(t) {
                Ok(json::JsonView::Array(items)) => Some(items),
                _ => None,
            },
            None => None,
        }
    }
}

/// The law of arrays in a reply: the items are those of the array that begins first, and
/// there are none only where no array begins or the first is empty.
pub proof fn law_the_first_array_counts(s: Seq<char>, from: int)
    requires
        0 <= from,
    ensures
        ({
            let out = recall::array_from(s, from);
            ||| out.len() == 0 && forall|i: int| from <= i < s.len() ==> #[trigger] array_at(s, i)
                is None
            ||| exists|i: int|
                from <= i < s.len() && #[trigger] array_at(s, i) == Some(out) && forall|k: int|
                    from <= k < i ==> #[trigger] array_at(s, k) is None
        }),
    decreases s.len() - from,
{
    if from < s.len() {
        if array_at(s, from) is None {
            law_the_first_array_counts(s, from + 1);
            let out = recall::array_from(s, from);
            assert(out == recall::array_from(s, from + 1));
            if exists|i: int|
                from + 1 <= i < s.len() && #[trigger] array_at(s, i) == Some(out) && forall|k: int|
                    from + 1 <= k < i ==> #[trigger] array_at(s, k) is None {
                let i = choose|i: int|
                    from + 1 <= i < s.len() && #[trigger] array_at(s, i) == Some(out) && forall|
                        k: int,
                    |
                        from + 1 <= k < i ==> #[trigger] array_at(s, k) is None;
                assert(array_at(s, i) == Some(out));
            }
        } else {
            assert(array_at(s, from) == Some(recall::array_from(s, from)));
        }
    }
}

/// The law of dialogues: a dialogue is made of the last messages, as many as asked for, in
/// their order.
pub proof fn law_dialogues_hold_the_last_messages(
    a: Seq<client::MessageView>,
    b: Seq<client::MessageView>,
)
    ensures
        ({
            let all = text::joined(recall::dialogue_lines(b), "\n"@);
            recall::dialogue(a + b, b.len() as int) == if all.len() <= 8000 {
                all
            } else {
                all.take(8000)
            }
        }),
{
    assert((a + b).skip(a.len() as int) =~= b);
    if a.len() == 0 {
        assert(a + b =~= b);
        assert(b.skip(0) =~= b);
    }
}

/// The law of selection: nothing is chosen where there are no records or nothing was asked;
/// else the model's choice is followed where it made one, and the terms of the recent
/// request decide where it did not.
pub proof fn law_who_selects(
    rs: Seq<memory::RecordView>,
    ms: Seq<client::MessageView>,
    reply: Seq<char>,
    max: int,
)
    ensures
        ({
            let query = recall::recent_request(ms, 3);
            let files = rs.map_values(|r: memory::RecordView| r.filename);
            &&& rs.len() == 0 || query.len() == 0 ==> recall::selection(
                rs,
                ms,
                Some(reply),
                max,
            ).len() == 0 && recall::selection(rs, ms, None, max).len() == 0
            &&& rs.len() > 0 && query.len() > 0 ==> recall::selection(rs, ms, Some(reply), max)
                == recall::picked(
                recall::array_from(reply, 0).map_values(|x: Seq<char>| recall::int_of(x)),
                files,
                Seq::empty(),
                max,
            )
            &&& rs.len() > 0 && query.len() > 0 ==> recall::selection(rs, ms, None, max)
                == recall::best_matches(rs, text::lowered(query), max)
        }),
{
}

/// The law of the catalog: every record has a line with its place in the list, its name and
/// its description, on one line each.
pub proof fn law_the_catalog_numbers_every_record(rs: Seq<memory::RecordView>, i: int)
    requires
        0 <= i < rs.len(),
    ensures
        recall::catalog_line(i, rs[i]) == text::decimal(i as nat) + ": "@ + memory_text::spaced(
            rs[i].name,
        ) + " - "@ + memory_text::spaced(rs[i].description),
        text::has(recall::catalog(rs), recall::catalog_line(i, rs[i])),
{
    let parts = Seq::new(rs.len(), |i: int| recall::catalog_line(i, rs[i]));
    crate::consolidate_laws::part_is_in(parts, i, "\n"@);
}

/// The law of what is shown: the recalled parts are shown each with its source and its
/// content, and nothing is shown where nothing is recalled.
pub proof fn law_recalled_parts_are_shown(entries: Seq<(Seq<char>, Option<Seq<char>>)>)
    ensures
        ({
            let parts = recall::recalled(entries, memory::RECALL_CHAR_LIMIT as int);
            &&& parts.len() == 0 ==> recall::recall_text(entries).len() == 0
            &&& parts.len() > 0 ==> recall::recall_text(entries) == recall::json_pretty(
                parts.map_values(
                    |p: (Seq<char>, Seq<char>)| seq![("source"@, p.0), ("content"@, p.1)],
                ),
            )
        }),
{
    let parts = recall::recalled(entries, memory::RECALL_CHAR_LIMIT as int);
    assert(parts.map_values(|p: (Seq<char>, Seq<char>)| recall::recall_row(p)) =~= parts.map_values(
        |p: (Seq<char>, Seq<char>)| seq![("source"@, p.0), ("content"@, p.1)],
    ));
}

/// The law of passing remarks: a text holds for the moment only exactly where it holds one of
/// these phrases.
pub proof fn law_passing_remarks(s: Seq<char>)
    ensures
        memory::is_temporary(s) <==> {
            ||| text::has(s, "this session"@)
            ||| text::has(s, "current session"@)
            ||| text::has(s, "this turn"@)
            ||| text::has(s, "current turn"@)
            ||| text::has(s, "this "@ + "task"@)
            ||| text::has(s, "current task"@)
            ||| text::has(s, "for now"@)
            ||| text::has(s, "just this time"@)
            ||| text::has(s, "today only"@)
            ||| text::has(s, "本次会话"@)
            ||| text::has(s, "当前会话"@)
            ||| text::has(s, "这一轮"@)
            ||| text::has(s, "当前轮次"@)
            ||| text::has(s, "本次任务"@)
            ||| text::has(s, "当前任务"@)
            ||| text::has(s, "暂时"@)
            ||| text::has(s, "今回だけ"@)
            ||| text::has(s, "このセッション"@)
            ||| text::has(s, "現在のタスク"@)
        },
{
}

/// The law of worth: a proposal is worth storing exactly where it is meant to last, is of a
/// known type, has a name, a description and a body, holds for more than the moment, and no
/// record has its file, its description or its body, but for case and spacing.
pub proof fn law_what_is_worth_storing(
    c: memory::CandidateView,
    existing: Seq<memory::RecordView>,
)
    ensures
        recall::worth_storing(c, existing) <==> {
            let all = c.name + "\n"@ + c.description + "\n"@ + c.body;
            &&& c.scope == "persistent"@
            &&& c.mem_type == "user"@ || c.mem_type == "feedback"@ || c.mem_type == "project"@
                || c.mem_type == "reference"@
            &&& c.name.len() > 0 && c.description.len() > 0 && c.body.len() > 0
            &&& !memory::is_temporary(memory_text::spaced(text::lowered(all)))
            &&& forall|i: int|
                0 <= i < existing.len() ==> {
                    let r = #[trigger] existing[i];
                    &&& memory_text::slug(r.name) != memory_text::slug(c.name)
                    &&& memory_text::spaced(text::lowered(r.description)) != memory_text::spaced(
                        text::lowered(c.description),
                    )
                    &&& memory_text::spaced(text::lowered(r.body)) != memory_text::spaced(
                        text::lowered(c.body),
                    )
                }
        },
{
    if recall::worth_storing(c, existing) {
        assert forall|i: int| 0 <= i < existing.len() implies {
            let r = #[trigger] existing[i];
            &&& memory_text::slug(r.name) != memory_text::slug(c.name)
            &&& memory_text::spaced(text::lowered(r.description)) != memory_text::spaced(
                text::lowered(c.description),
            )
            &&& memory_text::spaced(text::lowered(r.body)) != memory_text::spaced(
                text::lowered(c.body),
            )
        } by {
            assert(!recall::repeats(c, existing[i]));
        }
    }
}

} // verus!
