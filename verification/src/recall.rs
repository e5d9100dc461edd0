//! Choosing, loading, extracting and consolidating memory records.

use serde_json::Value;
use vstd::prelude::*;

use crate::client;
use crate::client::{ContentBlock, Message, MessagesResponse};
use crate::compact;
use crate::json;
use crate::json::JsonNode;
use crate::memory;
use crate::memory::{MemoryRecord, MemoryStore, ValidatedRecord};
use crate::memory_text;
use crate::text;

verus! {

/// What `serde_json::to_string_pretty` prints for an array of objects whose members are
/// strings.
pub uninterp spec fn json_pretty(rows: Seq<Seq<(Seq<char>, Seq<char>)>>) -> Seq<char>;

/// The contents of a list of objects.
pub open spec fn row_views(rows: Seq<Vec<(String, String)>>) -> Seq<Seq<(Seq<char>, Seq<char>)>> {
    rows.map_values(|r: Vec<(String, String)>| json::pairs(r@))
}

/// Calls `serde_json::to_string_pretty` on an array of objects with these string members
/// in this order; the empty text where it fails. The result depends on them alone.
#[verifier::external_body]
fn print_pretty(rows: &[Vec<(String, String)>]) -> (r: String)
    ensures
        r@ == json_pretty(row_views(rows@)),
{
    let objects: Vec<Value> = rows.iter().map(
        |row| Value::Object(row.iter().map(|(k, v)| (k.clone(), Value::String(v.clone()))).collect()),
    ).collect();
    serde_json::to_string_pretty(&objects).unwrap_or_default()
}

// ---- what was said ----

/// The texts of the text blocks that are not blank.
pub open spec fn filled_texts(bs: Seq<client::BlockView>) -> Seq<Seq<char>>
    decreases bs.len(),
{
    if bs.len() == 0 {
        Seq::empty()
    } else {
        match bs.last() {
            client::BlockView::Text { text } => if text::trimmed(text).len() > 0 {
                filled_texts(bs.drop_last()).push(text)
            } else {
                filled_texts(bs.drop_last())
            },
            _ => filled_texts(bs.drop_last()),
        }
    }
}

/// The text of a message.
pub open spec fn said(m: client::MessageView) -> Seq<char> {
    text::joined(filled_texts(m.content), "\n"@)
}

/// The text of a message: its text blocks that are not blank, one below the other.
pub fn message_text(message: &Message) -> (r: String)
    ensures
        r@ == said(message@),
{
    let ghost bs = message@.content;
    let mut out: Vec<String> = Vec::new();
    let mut i: usize = 0;
    assert(text::views(out@) =~= Seq::<Seq<char>>::empty());
    while i < message.content.len()
        invariant
            i <= message.content@.len(),
            bs == client::blocks(message.content@),
            text::views(out@) == filled_texts(bs.take(i as int)),
        decreases message.content@.len() - i,
    {
        let ghost so_far = text::views(out@);
        assert(bs.take(i + 1).drop_last() =~= bs.take(i as int));
        assert(bs.take(i + 1).last() == message.content@[i as int]@);
        if let ContentBlock::Text { text } = &message.content[i] {
            let t = text::trim(text.as_str());
            if !t.as_str().is_empty() {
                out.push(text.clone());
                assert(text::views(out@) =~= so_far.push(text@));
            }
        }
        i += 1;
    }
    assert(bs.take(bs.len() as int) =~= bs);
    text::join(&out, "\n")
}

/// The text of a reply of the model: its text blocks, one below the other.
pub fn response_text(response: &MessagesResponse) -> (r: String)
    ensures
        r@ == text::joined(compact::block_texts(client::blocks(response.content@)), "\n"@),
{
    let texts = compact::texts_of(&response.content);
    text::join(&texts, "\n")
}

/// The texts of the last messages of the user, the newest first, added to `found` until
/// it holds `max`.
pub open spec fn latest_requests(
    ms: Seq<client::MessageView>,
    max: int,
    found: Seq<Seq<char>>,
) -> Seq<Seq<char>>
    decreases ms.len(),
{
    if ms.len() == 0 {
        found
    } else {
        let m = ms.last();
        if m.role != "user"@ {
            latest_requests(ms.drop_last(), max, found)
        } else {
            let next = if said(m).len() > 0 {
                found.push(said(m))
            } else {
                found
            };
            if next.len() == max {
                next
            } else {
                latest_requests(ms.drop_last(), max, next)
            }
        }
    }
}

/// What the user asked lately.
pub open spec fn recent_request(ms: Seq<client::MessageView>, max: int) -> Seq<char> {
    text::first_chars(
        text::joined(latest_requests(ms, max, Seq::empty()).reverse(), "\n"@),
        4000,
    )
}

fn reverse_texts(v: &[String]) -> (r: Vec<String>)
    ensures
        text::views(r@) == text::views(v@).reverse(),
{
    let mut out: Vec<String> = Vec::new();
    let n: usize = v.len();
    let mut i: usize = 0;
    while i < n
        invariant
            i <= n,
            n == v@.len(),
            text::views(out@) == text::views(v@).reverse().take(i as int),
        decreases n - i,
    {
        let ghost before = text::views(out@);
        out.push(v[n - 1 - i].clone());
        assert(text::views(out@) =~= before.push(v@[n - 1 - i]@));
        assert(text::views(out@) =~= text::views(v@).reverse().take(i + 1));
        i += 1;
    }
    assert(text::views(v@).reverse().take(n as int) =~= text::views(v@).reverse());
    out
}

/// What the user asked in the last `max_turns` messages with text, in order, cut to
/// 4000 characters.
pub fn recent_user_text(messages: &[Message], max_turns: usize) -> (r: String)
    ensures
        r@ == recent_request(client::messages(messages@), max_turns as int),
{
    let ghost ms = client::messages(messages@);
    let mut found: Vec<String> = Vec::new();
    let mut n: usize = messages.len();
    let mut full = false;
    assert(text::views(found@) =~= Seq::<Seq<char>>::empty());
    assert(ms.take(n as int) =~= ms);
    while n > 0 && !full
        invariant
            n <= messages@.len(),
            ms == client::messages(messages@),
            latest_requests(ms, max_turns as int, Seq::empty()) == (if full {
                text::views(found@)
            } else {
                latest_requests(ms.take(n as int), max_turns as int, text::views(found@))
            }),
        decreases n,
    {
        assert(ms.take(n as int).drop_last() =~= ms.take(n - 1));
        let m = &messages[n - 1];
        assert(ms.take(n as int).last() == m@);
        if text::same(m.role.as_str(), "user") {
            let t = message_text(m);
            let ghost before = text::views(found@);
            if !t.as_str().is_empty() {
                found.push(t);
                assert(text::views(found@) =~= before.push(t@));
            }
            assert(text::views(found@).len() == found@.len());
            if found.len() == max_turns {
                full = true;
            }
        }
        n -= 1;
    }
    let ordered = reverse_texts(&found);
    let all = text::join(&ordered, "\n");
    text::take_chars(all.as_str(), 4000)
}

/// The messages with text as `role: text`.
pub open spec fn dialogue_lines(ms: Seq<client::MessageView>) -> Seq<Seq<char>>
    decreases ms.len(),
{
    if ms.len() == 0 {
        Seq::empty()
    } else if said(ms.last()).len() > 0 {
        dialogue_lines(ms.drop_last()).push(ms.last().role + ": "@ + said(ms.last()))
    } else {
        dialogue_lines(ms.drop_last())
    }
}

/// The last messages of a conversation as a dialogue.
pub open spec fn dialogue(ms: Seq<client::MessageView>, max: int) -> Seq<char> {
    let start = if ms.len() <= max {
        0
    } else {
        ms.len() - max
    };
    text::first_chars(text::joined(dialogue_lines(ms.skip(start)), "\n"@), 8000)
}

/// The last `max_messages` messages as a dialogue, cut to 8000 characters.
pub fn dialogue_text(messages: &[Message], max_messages: usize) -> (r: String)
    ensures
        r@ == dialogue(client::messages(messages@), max_messages as int),
{
    let ghost ms = client::messages(messages@);
    let start: usize = if messages.len() <= max_messages {
        0
    } else {
        messages.len() - max_messages
    };
    let ghost tail = ms.skip(start as int);
    let mut lines: Vec<String> = Vec::new();
    let mut i: usize = start;
    assert(text::views(lines@) =~= Seq::<Seq<char>>::empty());
    while i < messages.len()
        invariant
            start <= i <= messages@.len(),
            ms == client::messages(messages@),
            tail == ms.skip(start as int),
            text::views(lines@) == dialogue_lines(tail.take(i - start)),
        decreases messages@.len() - i,
    {
        let ghost before = text::views(lines@);
        assert(tail.take(i + 1 - start).drop_last() =~= tail.take(i - start));
        assert(tail.take(i + 1 - start).last() == messages@[i as int]@);
        let t = message_text(&messages[i]);
        if !t.as_str().is_empty() {
            lines.push(messages[i].role.clone().concat(": ").concat(t.as_str()));
            assert(text::views(lines@) =~= before.push(
                messages@[i as int].role@ + ": "@ + said(messages@[i as int]@),
            ));
        }
        i += 1;
    }
    assert(tail.take(tail.len() as int) =~= tail);
    let all = text::join(&lines, "\n");
    text::take_chars(all.as_str(), 8000)
}

// ---- arrays in replies ----

/// The items of the first JSON array in a text, from position `i` on. What follows the
/// array does not matter.
pub open spec fn array_from(s: Seq<char>, i: int) -> Seq<Seq<char>>
    decreases s.len() - i,
{
    if i >= s.len() {
        Seq::empty()
    } else if s[i] == '[' {
        match json::json_first(s.skip(i)) {
            Some(t) => match json::json_value(t) {
                Ok(json::JsonView::Array(items)) => items,
                _ => array_from(s, i + 1),
            },
            None => array_from(s, i + 1),
        }
    } else {
        array_from(s, i + 1)
    }
}

/// The items, as JSON texts, of the first JSON array in a text.
pub fn extract_json_array(s: &str) -> (r: Vec<String>)
    ensures
        text::views(r@) == array_from(s@, 0),
{
    let v = text::to_chars(s);
    let mut i: usize = 0;
    while i < v.len()
        invariant
            v@ == s@,
            i <= v@.len(),
            array_from(s@, 0) == array_from(s@, i as int),
        decreases v@.len() - i,
    {
        if v[i] == '[' {
            let rest = text::from_chars(&v, i, v.len());
            assert(rest@ =~= s@.skip(i as int));
            if let Some(t) = json::parse_first(rest.as_str()) {
                if let Ok(JsonNode::Array(items)) = json::parse(t.as_str()) {
                    return items;
                }
            }
        }
        i += 1;
    }
    let out: Vec<String> = Vec::new();
    assert(text::views(out@) =~= Seq::<Seq<char>>::empty());
    out
}

/// The integer that a JSON text holds.
pub open spec fn int_of(t: Seq<char>) -> Option<i64> {
    match json::json_value(t) {
        Ok(v) => v.as_i64(),
        Err(_) => None,
    }
}

fn read_ints(items: &[String]) -> (r: Vec<Option<i64>>)
    ensures
        r@ == text::views(items@).map_values(|t: Seq<char>| int_of(t)),
{
    let ghost want = text::views(items@).map_values(|t: Seq<char>| int_of(t));
    let mut out: Vec<Option<i64>> = Vec::new();
    let mut i: usize = 0;
    while i < items.len()
        invariant
            i <= items@.len(),
            want == text::views(items@).map_values(|t: Seq<char>| int_of(t)),
            out@ == want.take(i as int),
        decreases items@.len() - i,
    {
        let n: Option<i64> = match json::parse(items[i].as_str()) {
            Ok(JsonNode::Number { signed, .. }) => signed,
            _ => None,
        };
        out.push(n);
        assert(out@ =~= want.take(i + 1));
        i += 1;
    }
    assert(want.take(want.len() as int) =~= want);
    out
}

// ---- choosing records ----

/// The file names of some records.
pub open spec fn filenames(rs: Seq<memory::RecordView>) -> Seq<Seq<char>> {
    rs.map_values(|r: memory::RecordView| r.filename)
}

/// The names that the indices stand for, each once, added to `chosen` as long as it holds
/// fewer than `max`. What is no index of the list is passed over.
pub open spec fn picked(
    indices: Seq<Option<i64>>,
    names: Seq<Seq<char>>,
    chosen: Seq<Seq<char>>,
    max: int,
) -> Seq<Seq<char>>
    decreases indices.len(),
{
    if indices.len() == 0 || chosen.len() >= max {
        chosen
    } else {
        match indices[0] {
            Some(i) if 0 <= i < names.len() => picked(
                indices.skip(1),
                names,
                if chosen.contains(names[i as int]) {
                    chosen
                } else {
                    chosen.push(names[i as int])
                },
                max,
            ),
            _ => picked(indices.skip(1), names, chosen, max),
        }
    }
}

pub(crate) fn list_has(v: &[String], s: &String) -> (r: bool)
    ensures
        r == text::views(v@).contains(s@),
{
    let mut i: usize = 0;
    while i < v.len()
        invariant
            i <= v@.len(),
            forall|j: int| 0 <= j < i ==> (#[trigger] v@[j])@ != s@,
        decreases v@.len() - i,
    {
        if v[i] == *s {
            assert(text::views(v@)[i as int] == s@);
            return true;
        }
        i += 1;
    }
    assert forall|j: int| 0 <= j < text::views(v@).len() implies text::views(v@)[j] != s@ by {
        assert(v@[j]@ != s@);
    }
    false
}

/// The files of the records that the model's indices stand for.
pub fn pick_records(indices: &[Option<i64>], records: &[MemoryRecord], max_items: usize) -> (r: Vec<
    String,
>)
    ensures
        text::views(r@) == picked(
            indices@,
            filenames(memory::records(records@)),
            Seq::empty(),
            max_items as int,
        ),
        r@.len() <= max_items,
{
    let ghost names = filenames(memory::records(records@));
    let mut out: Vec<String> = Vec::new();
    let mut k: usize = 0;
    assert(text::views(out@) =~= Seq::<Seq<char>>::empty());
    assert(indices@.skip(0) =~= indices@);
    while k < indices.len() && out.len() < max_items
        invariant
            k <= indices@.len(),
            out@.len() <= max_items,
            names == filenames(memory::records(records@)),
            picked(indices@, names, Seq::empty(), max_items as int) == picked(
                indices@.skip(k as int),
                names,
                text::views(out@),
                max_items as int,
            ),
        decreases indices@.len() - k,
    {
        let ghost left = indices@.skip(k as int);
        assert(left[0] == indices@[k as int]);
        assert(left.skip(1) =~= indices@.skip(k + 1));
        assert(text::views(out@).len() == out@.len());
        if let Some(i) = indices[k] {
            if 0 <= i && (i as u64) < records.len() as u64 {
                let name = &records[i as usize].filename;
                assert(names[i as int] == name@);
                let ghost before = text::views(out@);
                if !list_has(&out, name) {
                    out.push(name.clone());
                    assert(text::views(out@) =~= before.push(name@));
                }
            }
        }
        k += 1;
    }
    assert(text::views(out@).len() == out@.len());
    out
}

/// What is picked goes on from what was chosen before, within the limit, holds no name
/// twice, and takes every new name from the list.
proof fn picked_names(
    indices: Seq<Option<i64>>,
    names: Seq<Seq<char>>,
    chosen: Seq<Seq<char>>,
    max: int,
)
    requires
        chosen.len() <= max,
        chosen.no_duplicates(),
        forall|s: Seq<char>| #[trigger] chosen.contains(s) ==> names.contains(s),
    ensures
        picked(indices, names, chosen, max).len() <= max,
        picked(indices, names, chosen, max).no_duplicates(),
        forall|s: Seq<char>| #[trigger]
            picked(indices, names, chosen, max).contains(s) ==> names.contains(s),
    decreases indices.len(),
{
    if indices.len() > 0 && chosen.len() < max {
        match indices[0] {
            Some(i) if 0 <= i < names.len() => {
                let n = names[i as int];
                let next = if chosen.contains(n) {
                    chosen
                } else {
                    chosen.push(n)
                };
                assert forall|s: Seq<char>| #[trigger] next.contains(s) implies names.contains(s) by {
                    if !chosen.contains(s) {
                        let k = choose|k: int| 0 <= k < next.len() && next[k] == s;
                        if k < chosen.len() {
                            assert(chosen[k] == s);
                        }
                        assert(s == n);
                    }
                }
                assert forall|a: int, b: int| 0 <= a < b < next.len() implies next[a] != next[b] by {
                    if b == chosen.len() {
                        assert(chosen[a] == next[a]);
                        assert(chosen.contains(next[a]));
                    }
                }
                picked_names(indices.skip(1), names, next, max);
            },
            _ => {
                picked_names(indices.skip(1), names, chosen, max);
            },
        }
    }
}

/// The terms without repetitions.
pub open spec fn distinct(terms: Seq<Seq<char>>) -> Seq<Seq<char>>
    decreases terms.len(),
{
    if terms.len() == 0 {
        Seq::empty()
    } else {
        let d = distinct(terms.drop_last());
        if d.contains(terms.last()) {
            d
        } else {
            d.push(terms.last())
        }
    }
}

/// The number of terms that stand in a text.
pub open spec fn hits(terms: Seq<Seq<char>>, s: Seq<char>) -> nat
    decreases terms.len(),
{
    if terms.len() == 0 {
        0
    } else {
        hits(terms.drop_last(), s) + (if text::has(s, terms.last()) {
            1nat
        } else {
            0nat
        })
    }
}

/// The text of a record that a search looks into.
pub open spec fn searched(r: memory::RecordView) -> Seq<char> {
    text::lowered(r.name + " "@ + r.description)
}

/// A file with the number of terms that were found for it.
pub struct Ranked {
    pub score: usize,
    pub filename: String,
}

/// The content of a [`Ranked`].
pub open spec fn ranks(v: Seq<Ranked>) -> Seq<(nat, Seq<char>)> {
    v.map_values(|r: Ranked| (r.score as nat, r.filename@))
}

/// More terms come first, and the file names in dictionary order among equals.
pub open spec fn outranks(a: (nat, Seq<char>), b: (nat, Seq<char>)) -> bool {
    a.0 > b.0 || (a.0 == b.0 && text::precedes(a.1, b.1))
}

/// The place of an item in a ranking, behind its equals.
pub open spec fn rank_place(order: Seq<(nat, Seq<char>)>, x: (nat, Seq<char>)) -> int
    decreases order.len(),
{
    if order.len() == 0 || outranks(x, order[0]) {
        0
    } else {
        1 + rank_place(order.skip(1), x)
    }
}

/// The records in which a term is found, ranked.
pub open spec fn ranking(rs: Seq<memory::RecordView>, terms: Seq<Seq<char>>) -> Seq<(nat, Seq<char>)>
    decreases rs.len(),
{
    if rs.len() == 0 {
        Seq::empty()
    } else {
        let rest = ranking(rs.drop_last(), terms);
        let score = hits(terms, searched(rs.last()));
        let x = (score, rs.last().filename);
        if score > 0 {
            rest.insert(rank_place(rest, x), x)
        } else {
            rest
        }
    }
}

/// The files of the best records for a query.
pub open spec fn best_matches(rs: Seq<memory::RecordView>, lower_query: Seq<char>, max: int) -> Seq<
    Seq<char>,
> {
    let all = ranking(rs, distinct(memory_text::search_terms(lower_query))).map_values(
        |x: (nat, Seq<char>)| x.1,
    );
    if all.len() <= max {
        all
    } else {
        all.take(max)
    }
}

fn distinct_terms(terms: Vec<String>) -> (r: Vec<String>)
    ensures
        text::views(r@) == distinct(text::views(terms@)),
{
    let ghost ts = text::views(terms@);
    let mut out: Vec<String> = Vec::new();
    let mut i: usize = 0;
    assert(text::views(out@) =~= Seq::<Seq<char>>::empty());
    while i < terms.len()
        invariant
            i <= terms@.len(),
            ts == text::views(terms@),
            text::views(out@) == distinct(ts.take(i as int)),
        decreases terms@.len() - i,
    {
        let ghost before = text::views(out@);
        assert(ts.take(i + 1).drop_last() =~= ts.take(i as int));
        assert(ts.take(i + 1).last() == terms@[i as int]@);
        if !list_has(&out, &terms[i]) {
            out.push(terms[i].clone());
            assert(text::views(out@) =~= before.push(terms@[i as int]@));
        }
        i += 1;
    }
    assert(ts.take(ts.len() as int) =~= ts);
    out
}

fn count_hits(terms: &[String], s: &str) -> (r: usize)
    ensures
        r == hits(text::views(terms@), s@),
{
    let ghost ts = text::views(terms@);
    let mut n: usize = 0;
    let mut i: usize = 0;
    while i < terms.len()
        invariant
            n <= i <= terms@.len(),
            ts == text::views(terms@),
            n == hits(ts.take(i as int), s@),
        decreases terms@.len() - i,
    {
        assert(ts.take(i + 1).drop_last() =~= ts.take(i as int));
        assert(ts.take(i + 1).last() == terms@[i as int]@);
        if text::contains(s, terms[i].as_str()) {
            n += 1;
        }
        i += 1;
    }
    assert(ts.take(ts.len() as int) =~= ts);
    n
}

fn is_outranked(x: &Ranked, y: &Ranked) -> (r: bool)
    ensures
        r == outranks((x.score as nat, x.filename@), (y.score as nat, y.filename@)),
{
    x.score > y.score || (x.score == y.score && text::is_before(
        x.filename.as_str(),
        y.filename.as_str(),
    ))
}

/// Ranks records by the terms that are found in them.
fn rank_records(records: &[MemoryRecord], terms: &[String]) -> (r: Vec<Ranked>)
    ensures
        ranks(r@) == ranking(memory::records(records@), text::views(terms@)),
{
    let ghost rs = memory::records(records@);
    let ghost ts = text::views(terms@);
    let mut order: Vec<Ranked> = Vec::new();
    let mut i: usize = 0;
    assert(ranks(order@) =~= Seq::<(nat, Seq<char>)>::empty());
    while i < records.len()
        invariant
            i <= records@.len(),
            rs == memory::records(records@),
            ts == text::views(terms@),
            ranks(order@) == ranking(rs.take(i as int), ts),
        decreases records@.len() - i,
    {
        assert(rs.take(i + 1).drop_last() =~= rs.take(i as int));
        assert(rs.take(i + 1).last() == records@[i as int]@);
        let rec = &records[i];
        let catalog = text::lowercase(
            rec.name.clone().concat(" ").concat(rec.description.as_str()).as_str(),
        );
        let score: usize = count_hits(terms, catalog.as_str());
        if score > 0 {
            let ghost done = ranks(order@);
            let x = Ranked { score, filename: rec.filename.clone() };
            let ghost xv = (x.score as nat, x.filename@);
            let mut k: usize = 0;
            assert(done.skip(0) =~= done);
            while k < order.len() && !is_outranked(&x, &order[k])
                invariant
                    k <= order@.len(),
                    done == ranks(order@),
                    xv == (x.score as nat, x.filename@),
                    rank_place(done, xv) == k + rank_place(done.skip(k as int), xv),
                decreases order@.len() - k,
            {
                assert(done[k as int] == (order@[k as int].score as nat, order@[k as int].filename@));
                assert(done.skip(k as int).skip(1) =~= done.skip(k + 1));
                k += 1;
            }
            proof {
                if k < order@.len() {
                    assert(done.skip(k as int)[0] == (
                        order@[k as int].score as nat,
                        order@[k as int].filename@,
                    ));
                }
                assert(rank_place(done, xv) == k);
            }
            let ghost before = order@;
            order.insert(k, x);
            assert(order@ =~= before.insert(k as int, x));
            assert(ranks(order@) =~= done.insert(k as int, xv));
        }
        i += 1;
    }
    assert(rs.take(rs.len() as int) =~= rs);
    order
}

/// The files of the records in which most terms of a lowercase query are found.
pub fn keyword_selection_lower(records: &[MemoryRecord], lower_query: &str, max_items: usize) -> (r:
    Vec<String>)
    ensures
        text::views(r@) == best_matches(
            memory::records(records@),
            lower_query@,
            max_items as int,
        ),
        r@.len() <= max_items,
{
    let terms = distinct_terms(memory_text::terms_of_lower(lower_query));
    let order = rank_records(records, &terms);
    let ghost all = ranks(order@).map_values(|x: (nat, Seq<char>)| x.1);
    let mut out: Vec<String> = Vec::new();
    let mut i: usize = 0;
    while i < order.len() && i < max_items
        invariant
            i <= order@.len(),
            i <= max_items,
            all == ranks(order@).map_values(|x: (nat, Seq<char>)| x.1),
            text::views(out@) == all.take(i as int),
            out@.len() == i,
        decreases order@.len() - i,
    {
        let ghost before = text::views(out@);
        out.push(order[i].filename.clone());
        assert(text::views(out@) =~= before.push(order@[i as int].filename@));
        assert(text::views(out@) =~= all.take(i + 1));
        i += 1;
    }
    assert(all.take(all.len() as int) =~= all);
    out
}

/// The files of the records in which most terms of a query are found.
pub fn keyword_memory_selection(records: &[MemoryRecord], query: &str, max_items: usize) -> (r: Vec<
    String,
>)
    ensures
        text::views(r@) == best_matches(
            memory::records(records@),
            text::lowered(query@),
            max_items as int,
        ),
        r@.len() <= max_items,
{
    let lower = text::lowercase(query);
    keyword_selection_lower(records, lower.as_str(), max_items)
}


// ---- recalling ----

/// The line of a record in the catalog that the model chooses from.
pub open spec fn catalog_line(i: int, r: memory::RecordView) -> Seq<char> {
    text::decimal(i as nat) + ": "@ + memory_text::spaced(r.name) + " - "@ + memory_text::spaced(
        r.description,
    )
}

/// The catalog that the model chooses from.
pub open spec fn catalog(rs: Seq<memory::RecordView>) -> Seq<char> {
    text::joined(Seq::new(rs.len(), |i: int| catalog_line(i, rs[i])), "\n"@)
}

/// The question which records are relevant to a request.
pub open spec fn select_prompt(query: Seq<char>, rs: Seq<memory::RecordView>) -> Seq<char> {
    memory::SELECT_PROMPT@ + query + "\n\nMemory catalog:\n"@ + text::first_chars(
        catalog(rs),
        12000,
    )
}

/// The records chosen for a conversation: by the model's reply, or by the terms of the
/// request where the model could not be asked.
pub open spec fn selection(
    rs: Seq<memory::RecordView>,
    ms: Seq<client::MessageView>,
    reply: Option<Seq<char>>,
    max: int,
) -> Seq<Seq<char>> {
    let query = recent_request(ms, 3);
    if rs.len() == 0 || query.len() == 0 {
        Seq::empty()
    } else {
        match reply {
            Some(t) => picked(
                array_from(t, 0).map_values(|x: Seq<char>| int_of(x)),
                filenames(rs),
                Seq::empty(),
                max,
            ),
            None => best_matches(rs, text::lowered(query), max),
        }
    }
}

/// The ranking holds an entry for each record in which a term is found, and no other; the
/// files of records that differ in their file names are ranked once each.
pub proof fn ranked_records(rs: Seq<memory::RecordView>, terms: Seq<Seq<char>>)
    ensures
        forall|x: (nat, Seq<char>)| #[trigger]
            ranking(rs, terms).contains(x) <==> exists|i: int|
                0 <= i < rs.len() && x == (
                    hits(terms, searched(#[trigger] rs[i])),
                    rs[i].filename,
                ) && x.0 > 0,
        filenames(rs).no_duplicates() ==> ranking(rs, terms).map_values(
            |x: (nat, Seq<char>)| x.1,
        ).no_duplicates(),
    decreases rs.len(),
{
    if rs.len() > 0 {
        let head = rs.drop_last();
        let rest = ranking(head, terms);
        let score = hits(terms, searched(rs.last()));
        let x = (score, rs.last().filename);
        let out = ranking(rs, terms);
        let p = rank_place(rest, x);
        ranked_records(head, terms);
        rank_place_bounds(rest, x);
        assert forall|y: (nat, Seq<char>)| #[trigger] out.contains(y) <==> exists|i: int|
            0 <= i < rs.len() && y == (
                hits(terms, searched(#[trigger] rs[i])),
                rs[i].filename,
            ) && y.0 > 0 by {
            if out.contains(y) {
                if score > 0 && y == x {
                    assert(rs[rs.len() - 1] == rs.last());
                } else {
                    let k = choose|k: int| 0 <= k < out.len() && out[k] == y;
                    if score > 0 {
                        assert(rest[if k < p { k } else { k - 1 }] == y);
                    }
                    assert(rest.contains(y));
                    let i = choose|i: int|
                        0 <= i < head.len() && y == (
                            hits(terms, searched(#[trigger] head[i])),
                            head[i].filename,
                        ) && y.0 > 0;
                    assert(rs[i] == head[i]);
                }
            }
            if exists|i: int|
                0 <= i < rs.len() && y == (
                    hits(terms, searched(#[trigger] rs[i])),
                    rs[i].filename,
                ) && y.0 > 0 {
                let i = choose|i: int|
                    0 <= i < rs.len() && y == (
                        hits(terms, searched(#[trigger] rs[i])),
                        rs[i].filename,
                    ) && y.0 > 0;
                if i < head.len() {
                    assert(head[i] == rs[i]);
                    assert(rest.contains(y));
                    let k = choose|k: int| 0 <= k < rest.len() && rest[k] == y;
                    if score > 0 {
                        assert(out[if k < p { k } else { k + 1 }] == y);
                    }
                } else {
                    assert(out[p] == y);
                }
            }
        }
        if filenames(rs).no_duplicates() {
            assert(filenames(head) =~= filenames(rs).drop_last());
            assert(filenames(head).no_duplicates());
            let names = rest.map_values(|x: (nat, Seq<char>)| x.1);
            let all = out.map_values(|x: (nat, Seq<char>)| x.1);
            assert forall|k: int| 0 <= k < names.len() implies names[k] != x.1 by {
                assert(rest.contains(rest[k]));
                let i = choose|i: int|
                    0 <= i < head.len() && rest[k] == (
                        hits(terms, searched(#[trigger] head[i])),
                        head[i].filename,
                    ) && rest[k].0 > 0;
                assert(filenames(rs)[i] == head[i].filename);
                assert(filenames(rs)[rs.len() - 1] == x.1);
            }
            if score > 0 {
                assert(all =~= names.insert(p, x.1));
                assert forall|a: int, b: int| 0 <= a < b < all.len() implies all[a] != all[b] by {
                    if a != p {
                        assert(all[a] == names[if a < p { a } else { a - 1 }]);
                    }
                    if b != p {
                        assert(all[b] == names[if b < p { b } else { b - 1 }]);
                    }
                }
            }
        }
    }
}

proof fn rank_place_bounds(order: Seq<(nat, Seq<char>)>, x: (nat, Seq<char>))
    ensures
        0 <= rank_place(order, x) <= order.len(),
    decreases order.len(),
{
    if order.len() > 0 && !outranks(x, order[0]) {
        rank_place_bounds(order.skip(1), x);
    }
}

/// The law of selection: at most `max` files are chosen, each is the file of a record, and
/// none is chosen twice where the records have files of their own.
pub proof fn law_selection(
    rs: Seq<memory::RecordView>,
    ms: Seq<client::MessageView>,
    reply: Option<Seq<char>>,
    max: int,
)
    requires
        max >= 0,
        filenames(rs).no_duplicates(),
    ensures
        selection(rs, ms, reply, max).len() <= max,
        selection(rs, ms, reply, max).no_duplicates(),
        forall|s: Seq<char>| #[trigger]
            selection(rs, ms, reply, max).contains(s) ==> filenames(rs).contains(s),
{
    let query = recent_request(ms, 3);
    if rs.len() > 0 && query.len() > 0 {
        match reply {
            Some(t) => {
                picked_names(
                    array_from(t, 0).map_values(|x: Seq<char>| int_of(x)),
                    filenames(rs),
                    Seq::empty(),
                    max,
                );
            },
            None => {
                let terms = distinct(memory_text::search_terms(text::lowered(query)));
                ranked_records(rs, terms);
                let order = ranking(rs, terms);
                let all = order.map_values(|x: (nat, Seq<char>)| x.1);
                let out = selection(rs, ms, reply, max);
                assert forall|s: Seq<char>| #[trigger] out.contains(s) implies filenames(
                    rs,
                ).contains(s) by {
                    let k = choose|k: int| 0 <= k < out.len() && out[k] == s;
                    assert(order.contains(order[k]));
                    let i = choose|i: int|
                        0 <= i < rs.len() && order[k] == (
                            hits(terms, searched(#[trigger] rs[i])),
                            rs[i].filename,
                        ) && order[k].0 > 0;
                    assert(filenames(rs)[i] == s);
                }
                assert forall|a: int, b: int| 0 <= a < b < out.len() implies out[a] != out[b] by {
                    assert(out[a] == all[a] && out[b] == all[b]);
                }
            },
        }
    }
}

/// The parts of the chosen files that are recalled, within `room` characters.
pub open spec fn recalled(entries: Seq<(Seq<char>, Option<Seq<char>>)>, room: int) -> Seq<
    (Seq<char>, Seq<char>),
>
    decreases entries.len(),
{
    if entries.len() == 0 || room <= 0 {
        Seq::empty()
    } else {
        match entries[0].1 {
            Some(c) if c.len() > 0 => {
                let part = text::first_chars(c, room);
                seq![(entries[0].0, part)] + recalled(entries.skip(1), room - part.len())
            },
            _ => recalled(entries.skip(1), room),
        }
    }
}

/// A recalled part as an object.
pub open spec fn recall_row(p: (Seq<char>, Seq<char>)) -> Seq<(Seq<char>, Seq<char>)> {
    seq![("source"@, p.0), ("content"@, p.1)]
}

/// The recalled records as they are shown to the model.
pub open spec fn recall_text(entries: Seq<(Seq<char>, Option<Seq<char>>)>) -> Seq<char> {
    let parts = recalled(entries, memory::RECALL_CHAR_LIMIT as int);
    if parts.len() == 0 {
        Seq::empty()
    } else {
        json_pretty(parts.map_values(|p: (Seq<char>, Seq<char>)| recall_row(p)))
    }
}

/// The contents of chosen files.
pub open spec fn entries_of(v: Seq<(String, Option<String>)>) -> Seq<(Seq<char>, Option<Seq<char>>)> {
    v.map_values(|e: (String, Option<String>)| (e.0@, text::opt_view(e.1)))
}

/// The total length of recalled parts.
pub open spec fn recalled_size(parts: Seq<(Seq<char>, Seq<char>)>) -> nat
    decreases parts.len(),
{
    if parts.len() == 0 {
        0
    } else {
        parts[0].1.len() + recalled_size(parts.skip(1))
    }
}

/// What is recalled never exceeds the room for it.
pub proof fn law_recall_is_bounded(entries: Seq<(Seq<char>, Option<Seq<char>>)>, room: int)
    requires
        room >= 0,
    ensures
        recalled_size(recalled(entries, room)) <= room,
    decreases entries.len(),
{
    if entries.len() > 0 && room > 0 {
        match entries[0].1 {
            Some(c) if c.len() > 0 => {
                let part = text::first_chars(c, room);
                let rest = recalled(entries.skip(1), room - part.len());
                law_recall_is_bounded(entries.skip(1), room - part.len());
                let all = seq![(entries[0].0, part)] + rest;
                assert(all.skip(1) =~= rest);
            },
            _ => {
                law_recall_is_bounded(entries.skip(1), room);
            },
        }
    }
}

impl MemoryStore {
    /// The question to the model which records are relevant; none where there is nothing
    /// to choose from or nothing was asked.
    pub fn selection_request(records: &[MemoryRecord], messages: &[Message]) -> (r: Option<String>)
        ensures
            ({
                let rs = memory::records(records@);
                let query = recent_request(client::messages(messages@), 3);
                match r {
                    Some(p) => rs.len() > 0 && query.len() > 0 && p@ == select_prompt(query, rs),
                    None => rs.len() == 0 || query.len() == 0,
                }
            }),
    {
        let ghost rs = memory::records(records@);
        let query = recent_user_text(messages, 3);
        if records.len() == 0 || query.as_str().is_empty() {
            return None;
        }
        let ghost want = Seq::new(rs.len(), |i: int| catalog_line(i, rs[i]));
        let mut lines: Vec<String> = Vec::new();
        let mut i: usize = 0;
        while i < records.len()
            invariant
                i <= records@.len(),
                rs == memory::records(records@),
                want == Seq::new(rs.len(), |i: int| catalog_line(i, rs[i])),
                text::views(lines@) == want.take(i as int),
            decreases records@.len() - i,
        {
            let ghost before = text::views(lines@);
            let line = text::number_text(i as u64).concat(": ").concat(
                memory_text::normalize_ws(records[i].name.as_str()).as_str(),
            ).concat(" - ").concat(
                memory_text::normalize_ws(records[i].description.as_str()).as_str(),
            );
            lines.push(line);
            assert(text::views(lines@) =~= before.push(catalog_line(i as int, rs[i as int])));
            assert(text::views(lines@) =~= want.take(i + 1));
            i += 1;
        }
        assert(want.take(want.len() as int) =~= want);
        let all = text::join(&lines, "\n");
        Some(
            memory::SELECT_PROMPT.to_string().concat(query.as_str()).concat(
                "\n\nMemory catalog:\n",
            ).concat(text::take_chars(all.as_str(), 12000).as_str()),
        )
    }

    /// The files of the records that are relevant to a conversation. `reply` is the text
    /// of the model's answer; without one the terms of the request decide.
    pub fn select_relevant_memories(
        records: &[MemoryRecord],
        messages: &[Message],
        reply: Option<&str>,
        max_items: usize,
    ) -> (r: Vec<String>)
        ensures
            text::views(r@) == selection(
                memory::records(records@),
                client::messages(messages@),
                match reply {
                    Some(t) => Some(t@),
                    None => None,
                },
                max_items as int,
            ),
            r@.len() <= max_items,
    {
        let query = recent_user_text(messages, 3);
        if records.len() == 0 || query.as_str().is_empty() {
            let out: Vec<String> = Vec::new();
            assert(text::views(out@) =~= Seq::<Seq<char>>::empty());
            return out;
        }
        match reply {
            Some(t) => {
                let items = extract_json_array(t);
                let indices = read_ints(&items);
                pick_records(&indices, records, max_items)
            },
            None => keyword_memory_selection(records, query.as_str(), max_items),
        }
    }

    /// The recalled records as they are shown to the model: the chosen files in order,
    /// cut to the limit together. Files that could not be read are passed over.
    pub fn load_memories(chosen: Vec<(String, Option<String>)>) -> (r: String)
        ensures
            r@ == recall_text(entries_of(chosen@)),
    {
        let ghost es = entries_of(chosen@);
        let ghost all = recalled(es, memory::RECALL_CHAR_LIMIT as int);
        let ghost want = all.map_values(|p: (Seq<char>, Seq<char>)| recall_row(p));
        let mut rows: Vec<Vec<(String, String)>> = Vec::new();
        let mut room: usize = memory::RECALL_CHAR_LIMIT;
        let mut i: usize = 0;
        assert(es.skip(0) =~= es);
        assert(want =~= row_views(rows@) + want);
        while i < chosen.len() && room > 0
            invariant
                i <= chosen@.len(),
                es == entries_of(chosen@),
                want == row_views(rows@) + recalled(es.skip(i as int), room as int).map_values(
                    |p: (Seq<char>, Seq<char>)| recall_row(p),
                ),
            decreases chosen@.len() - i,
        {
            let ghost left = es.skip(i as int);
            assert(left[0] == (chosen@[i as int].0@, text::opt_view(chosen@[i as int].1)));
            assert(left.skip(1) =~= es.skip(i + 1));
            let ghost was = row_views(rows@);
            let ghost had = recalled(left, room as int);
            if let Some(c) = &chosen[i].1 {
                if !c.as_str().is_empty() {
                    let part = text::take_chars(c.as_str(), room);
                    let n: usize = text::to_chars(part.as_str()).len();
                    let ghost p = (chosen@[i as int].0@, part@);
                    let mut row: Vec<(String, String)> = Vec::new();
                    row.push(("source".to_string(), chosen[i].0.clone()));
                    row.push(("content".to_string(), part));
                    assert(json::pairs(row@) =~= recall_row(p));
                    rows.push(row);
                    assert(row_views(rows@) =~= was.push(recall_row(p)));
                    room = room - n;
                    proof {
                        let rest = recalled(es.skip(i + 1), room as int);
                        assert(had == seq![p] + rest);
                        assert(was + had.map_values(|p: (Seq<char>, Seq<char>)| recall_row(p))
                            =~= row_views(rows@) + rest.map_values(
                            |p: (Seq<char>, Seq<char>)| recall_row(p),
                        ));
                    }
                }
            }
            i += 1;
        }
        proof {
            let rest = recalled(es.skip(i as int), room as int);
            assert(rest =~= Seq::<(Seq<char>, Seq<char>)>::empty());
            assert(row_views(rows@) + rest.map_values(
                |p: (Seq<char>, Seq<char>)| recall_row(p),
            ) =~= row_views(rows@));
            assert(want.len() == all.len());
        }
        if rows.len() == 0 {
            let r = String::new();
            assert(r@ =~= Seq::<char>::empty());
            r
        } else {
            print_pretty(&rows)
        }
    }
}

/// The system prompt with the memory sections; the base alone where there are none.
pub open spec fn system_with_memory(base: Seq<char>, index: Seq<char>, recalled: Seq<char>) -> Seq<char> {
    if index.len() == 0 && recalled.len() == 0 {
        base
    } else {
        base + "\n\n"@ + memory::MEMORY_NOTE@ + (if index.len() > 0 {
            "\n\nMemory catalog:\n"@ + index
        } else {
            Seq::empty()
        }) + (if recalled.len() > 0 {
            "\n\nRelevant memory records:\n"@ + recalled
        } else {
            Seq::empty()
        })
    }
}

/// The system prompt of a request: the base, followed by what memory holds.
pub fn build_system(base_system: &str, index: &str, recalled: &str) -> (r: String)
    ensures
        r@ == system_with_memory(base_system@, index@, recalled@),
{
    if index.is_empty() && recalled.is_empty() {
        return base_system.to_string();
    }
    let mut out = base_system.to_string().concat("\n\n").concat(memory::MEMORY_NOTE);
    let ghost start = out@;
    if !index.is_empty() {
        out = out.concat("\n\nMemory catalog:\n").concat(index);
        assert(out@ =~= start + ("\n\nMemory catalog:\n"@ + index@));
    } else {
        assert(out@ =~= start + Seq::<char>::empty());
    }
    let ghost middle = out@;
    if !recalled.is_empty() {
        out = out.concat("\n\nRelevant memory records:\n").concat(recalled);
        assert(out@ =~= middle + ("\n\nRelevant memory records:\n"@ + recalled@));
    } else {
        assert(out@ =~= middle + Seq::<char>::empty());
    }
    out
}

// ---- extracting ----

/// A string member that is not blank, trimmed.
pub open spec fn filled_member(v: json::JsonView, key: Seq<char>) -> Option<Seq<char>> {
    match v.str_member(key) {
        Some(s) => if text::trimmed(s).len() > 0 {
            Some(text::trimmed(s))
        } else {
            None
        },
        None => None,
    }
}

fn read_member(v: &JsonNode, key: &str) -> (r: Option<String>)
    ensures
        filled_member(v@, key@) == text::opt_view(r),
{
    match v.str_member(key) {
        Some(s) => {
            let t = text::trim(s.as_str());
            if t.as_str().is_empty() {
                None
            } else {
                Some(t)
            }
        },
        None => None,
    }
}

/// The record that a proposal of the model holds, where it is complete and of a known
/// type. With `require_scope` it also has to say for how long it holds.
pub open spec fn candidate_of(v: json::JsonView, require_scope: bool) -> Option<
    memory::CandidateView,
> {
    let scope = text::trimmed(v.str_or_empty("scope"@));
    match (
        filled_member(v, "name"@),
        filled_member(v, "type"@),
        filled_member(v, "description"@),
        filled_member(v, "body"@),
    ) {
        (Some(name), Some(mem_type), Some(description), Some(body)) => if memory::is_memory_type(
            mem_type,
        ) && (!require_scope || scope == "persistent"@ || scope == "current_task"@) {
            Some(memory::CandidateView { name, mem_type, description, body, scope })
        } else {
            None
        },
        _ => None,
    }
}

/// The content of an optional proposal.
pub open spec fn opt_candidate(r: Option<ValidatedRecord>) -> Option<memory::CandidateView> {
    match r {
        Some(c) => Some(c@),
        None => None,
    }
}

/// Checks a proposal of the model.
pub fn validate_memory_record(record: &JsonNode, require_scope: bool) -> (r: Option<
    ValidatedRecord,
>)
    ensures
        opt_candidate(r) == candidate_of(record@, require_scope),
{
    let name = match read_member(record, "name") {
        Some(s) => s,
        None => return None,
    };
    let mem_type = match read_member(record, "type") {
        Some(s) => s,
        None => return None,
    };
    if !memory::known_type(mem_type.as_str()) {
        return None;
    }
    let description = match read_member(record, "description") {
        Some(s) => s,
        None => return None,
    };
    let body = match read_member(record, "body") {
        Some(s) => s,
        None => return None,
    };
    let scope = text::trim(record.str_or_empty("scope").as_str());
    if require_scope && !text::same(scope.as_str(), "persistent") && !text::same(
        scope.as_str(),
        "current_task",
    ) {
        return None;
    }
    Some(ValidatedRecord { name, mem_type, description, body, scope })
}

/// The proposal that a JSON text holds.
pub open spec fn candidate_in(item: Seq<char>, require_scope: bool) -> Option<
    memory::CandidateView,
> {
    match json::json_value(item) {
        Ok(v) => candidate_of(v, require_scope),
        Err(_) => None,
    }
}

pub(crate) fn read_candidate(item: &str, require_scope: bool) -> (r: Option<ValidatedRecord>)
    ensures
        opt_candidate(r) == candidate_in(item@, require_scope),
{
    match json::parse(item) {
        Ok(v) => validate_memory_record(&v, require_scope),
        Err(_) => None,
    }
}

/// A record that says the same as a proposal: the same file, description or body.
pub open spec fn repeats(c: memory::CandidateView, r: memory::RecordView) -> bool {
    ||| memory_text::slug(r.name) == memory_text::slug(c.name)
    ||| memory_text::comparable(r.description) == memory_text::comparable(c.description)
    ||| memory_text::comparable(r.body) == memory_text::comparable(c.body)
}

/// A proposal that is worth keeping: durable, complete, of a known type, not said for the
/// moment only, and not there yet.
pub open spec fn worth_storing(c: memory::CandidateView, existing: Seq<memory::RecordView>) -> bool {
    &&& c.scope == "persistent"@
    &&& memory::is_memory_type(c.mem_type)
    &&& c.name.len() > 0
    &&& c.description.len() > 0
    &&& c.body.len() > 0
    &&& !memory::is_temporary(
        memory_text::comparable(c.name + "\n"@ + c.description + "\n"@ + c.body),
    )
    &&& forall|i: int| 0 <= i < existing.len() ==> !repeats(c, #[trigger] existing[i])
}

/// Whether a proposal is worth keeping beside the existing records.
pub fn should_store_memory(candidate: &ValidatedRecord, existing: &[MemoryRecord]) -> (r: bool)
    ensures
        r == worth_storing(candidate@, memory::records(existing@)),
{
    if !text::same(candidate.scope.as_str(), "persistent") {
        return false;
    }
    if !memory::known_type(candidate.mem_type.as_str()) {
        return false;
    }
    if candidate.name.as_str().is_empty() || candidate.description.as_str().is_empty()
        || candidate.body.as_str().is_empty() {
        return false;
    }
    let all = memory_text::normalized_memory_text(
        candidate.name.clone().concat("\n").concat(candidate.description.as_str()).concat(
            "\n",
        ).concat(candidate.body.as_str()).as_str(),
    );
    if memory::mentions_temporary(all.as_str()) {
        return false;
    }
    let slug = memory_text::memory_slug(candidate.name.as_str());
    let description = memory_text::normalized_memory_text(candidate.description.as_str());
    let body = memory_text::normalized_memory_text(candidate.body.as_str());
    let ghost rs = memory::records(existing@);
    let mut i: usize = 0;
    while i < existing.len()
        invariant
            i <= existing@.len(),
            rs == memory::records(existing@),
            slug@ == memory_text::slug(candidate@.name),
            description@ == memory_text::comparable(candidate@.description),
            body@ == memory_text::comparable(candidate@.body),
            forall|j: int| 0 <= j < i ==> !repeats(candidate@, #[trigger] rs[j]),
        decreases existing@.len() - i,
    {
        let m = &existing[i];
        assert(rs[i as int] == m@);
        if memory_text::memory_slug(m.name.as_str()) == slug {
            return false;
        }
        if memory_text::normalized_memory_text(m.description.as_str()) == description {
            return false;
        }
        if memory_text::normalized_memory_text(m.body.as_str()) == body {
            return false;
        }
        i += 1;
    }
    true
}

} // verus!
