//! The text forms of memory records: file names, words, documents.

use vstd::prelude::*;

use crate::json;
use crate::text;

verus! {

/// What `serde_yaml::to_string` prints for a mapping of strings.
pub uninterp spec fn yaml_mapping(entries: Seq<(Seq<char>, Seq<char>)>) -> Seq<char>;

/// Calls `serde_yaml::to_string` on a `serde_yaml::Mapping` with these members in this
/// order; the empty text where it fails. The result depends on the members alone.
#[verifier::external_body]
fn print_yaml(entries: &[(String, String)]) -> (r: String)
    ensures
        r@ == yaml_mapping(json::pairs(entries@)),
{
    let mapping: serde_yaml::Mapping = entries.iter().map(
        |(k, v)| (serde_yaml::Value::from(k.as_str()), serde_yaml::Value::from(v.as_str())),
    ).collect();
    serde_yaml::to_string(&mapping).unwrap_or_default()
}

// ---- file names ----

/// A character that a file name keeps.
pub open spec fn is_word_char(c: char) -> bool {
    text::is_alnum(c) || c == '_'
}

/// The text with every run of other characters replaced by one dash.
pub open spec fn dashed(s: Seq<char>) -> Seq<char>
    decreases s.len(),
{
    if s.len() == 0 {
        Seq::empty()
    } else {
        let d = dashed(s.drop_last());
        if is_word_char(s.last()) {
            d.push(s.last())
        } else if s.len() > 1 && !is_word_char(s[s.len() - 2]) {
            d
        } else {
            d.push('-')
        }
    }
}

pub open spec fn is_edge_mark(c: char) -> bool {
    c == '-' || c == '_'
}

/// The text without dashes and underscores at its start.
pub open spec fn unmarked_start(s: Seq<char>) -> Seq<char>
    decreases s.len(),
{
    if s.len() > 0 && is_edge_mark(s[0]) {
        unmarked_start(s.skip(1))
    } else {
        s
    }
}

/// The text without dashes and underscores at its end.
pub open spec fn unmarked_end(s: Seq<char>) -> Seq<char>
    decreases s.len(),
{
    if s.len() > 0 && is_edge_mark(s.last()) {
        unmarked_end(s.drop_last())
    } else {
        s
    }
}

/// The file name, without its ending, that a lowercase name gives.
pub open spec fn slug_of(lower: Seq<char>) -> Seq<char> {
    let s = unmarked_end(unmarked_start(dashed(lower)));
    if s.len() == 0 {
        "memory"@
    } else {
        s
    }
}

/// The file name, without its ending, that a name gives.
pub open spec fn slug(name: Seq<char>) -> Seq<char> {
    slug_of(text::lowered(name))
}

/// The file name, without its ending, that a lowercase name gives.
pub fn slug_of_lower(lower: &str) -> (r: String)
    ensures
        r@ == slug_of(lower@),
{
    let v = text::to_chars(lower);
    let mut out: Vec<char> = Vec::new();
    let mut after_mark = false;
    let mut i: usize = 0;
    while i < v.len()
        invariant
            v@ == lower@,
            i <= v@.len(),
            out@ == dashed(v@.take(i as int)),
            after_mark == (i > 0 && !is_word_char(v@[i - 1])),
        decreases v@.len() - i,
    {
        let c: char = v[i];
        assert(v@.take(i + 1).drop_last() =~= v@.take(i as int));
        if text::char_is_alnum(c) || c == '_' {
            out.push(c);
            after_mark = false;
        } else {
            if !after_mark {
                out.push('-');
            }
            after_mark = true;
        }
        i += 1;
    }
    assert(v@.take(v@.len() as int) =~= lower@);
    let ghost d = dashed(lower@);
    let mut a: usize = 0;
    assert(d.skip(0) =~= d);
    while a < out.len() && (out[a] == '-' || out[a] == '_')
        invariant
            out@ == d,
            a <= out@.len(),
            unmarked_start(d) == unmarked_start(d.skip(a as int)),
        decreases out@.len() - a,
    {
        assert(d.skip(a as int).skip(1) =~= d.skip(a + 1));
        a += 1;
    }
    let ghost t = d.skip(a as int);
    assert(unmarked_start(d) == t);
    let mut b: usize = out.len();
    assert(out@.subrange(a as int, b as int) =~= t);
    while b > a && (out[b - 1] == '-' || out[b - 1] == '_')
        invariant
            out@ == d,
            a <= b <= out@.len(),
            unmarked_end(t) == unmarked_end(out@.subrange(a as int, b as int)),
        decreases b,
    {
        assert(out@.subrange(a as int, b as int).drop_last() =~= out@.subrange(a as int, b - 1));
        b -= 1;
    }
    if a == b {
        "memory".to_string()
    } else {
        text::from_chars(&out, a, b)
    }
}

/// The file name, without its ending, that a name gives. That a file name with characters
/// outside ASCII is its own lowercase, and so its own file name, is left unsaid: it rests on
/// the Unicode tables.
pub fn memory_slug(name: &str) -> (r: String)
    ensures
        r@ == slug(name@),
        r@.len() > 0,
        forall|i: int| 0 <= i < r@.len() ==> !text::is_ascii_upper(#[trigger] r@[i]),
        is_slug(r@),
        slug_of(r@) == r@,
        text::all_ascii(r@) ==> text::lowered(r@) == r@ && slug(r@) == r@,
        text::lowered(r@) == r@ ==> slug(r@) == r@,
{
    let lower = text::lowercase(name);
    proof {
        law_slug_is_settled(lower@);
        slug_keeps_lowercase(lower@);
        if text::all_ascii(slug(name@)) {
            law_slug_of_a_slug(name@);
        }
    }
    slug_of_lower(lower.as_str())
}

proof fn unmarked_is_part(s: Seq<char>)
    ensures
        forall|i: int|
            0 <= i < unmarked_start(s).len() ==> s.contains(
                #[trigger] unmarked_start(s)[i],
            ),
    decreases s.len(),
{
    if s.len() > 0 && is_edge_mark(s[0]) {
        unmarked_is_part(s.skip(1));
        let t = unmarked_start(s);
        assert forall|i: int| 0 <= i < t.len() implies s.contains(#[trigger] t[i]) by {
            assert(s.skip(1).contains(unmarked_start(s.skip(1))[i]));
            let k = choose|k: int| 0 <= k < s.skip(1).len() && s.skip(1)[k] == t[i];
            assert(s[k + 1] == t[i]);
        }
    } else {
        assert forall|i: int| 0 <= i < s.len() implies s.contains(#[trigger] s[i]) by {}
    }
}

proof fn unmarked_end_is_part(s: Seq<char>)
    ensures
        forall|i: int|
            0 <= i < unmarked_end(s).len() ==> s.contains(
                #[trigger] unmarked_end(s)[i],
            ),
    decreases s.len(),
{
    if s.len() > 0 && is_edge_mark(s.last()) {
        unmarked_end_is_part(s.drop_last());
        let t = unmarked_end(s);
        assert forall|i: int| 0 <= i < t.len() implies s.contains(#[trigger] t[i]) by {
            assert(s.drop_last().contains(unmarked_end(s.drop_last())[i]));
            let k = choose|k: int| 0 <= k < s.drop_last().len() && s.drop_last()[k] == t[i];
            assert(s[k] == t[i]);
        }
    } else {
        assert forall|i: int| 0 <= i < s.len() implies s.contains(#[trigger] s[i]) by {}
    }
}

proof fn dashed_chars(s: Seq<char>)
    ensures
        forall|i: int|
            0 <= i < dashed(s).len() ==> #[trigger] dashed(s)[i] == '-'
                || (is_word_char(dashed(s)[i]) && s.contains(
                dashed(s)[i],
            )),
    decreases s.len(),
{
    if s.len() > 0 {
        dashed_chars(s.drop_last());
        let d = dashed(s.drop_last());
        let e = dashed(s);
        assert forall|i: int| 0 <= i < e.len() implies #[trigger] e[i] == '-' || (
        is_word_char(e[i]) && s.contains(e[i])) by {
            if i < d.len() {
                assert(e[i] == d[i]);
                if d[i] != '-' {
                    let k = choose|k: int| 0 <= k < s.drop_last().len() && s.drop_last()[k] == d[i];
                    assert(s[k] == d[i]);
                }
            } else {
                assert(s.contains(s.last()));
            }
        }
    }
}

/// The file name of a lowercase name is made of letters, digits, underscores and dashes,
/// and is never empty.
pub proof fn law_slug_chars(lower: Seq<char>)
    ensures
        slug_of(lower).len() > 0,
        forall|i: int|
            0 <= i < slug_of(lower).len() ==> is_word_char(
                #[trigger] slug_of(lower)[i],
            ) || slug_of(lower)[i] == '-',
{
    let d = dashed(lower);
    let a = unmarked_start(d);
    let b = unmarked_end(a);
    dashed_chars(lower);
    unmarked_is_part(d);
    unmarked_end_is_part(a);
    reveal_strlit("memory");
    assert forall|i: int| 0 <= i < slug_of(lower).len() implies is_word_char(
        #[trigger] slug_of(lower)[i],
    ) || slug_of(lower)[i] == '-' by {
        if b.len() > 0 {
            assert(a.contains(b[i]));
            let k = choose|k: int| 0 <= k < a.len() && a[k] == b[i];
            assert(d.contains(a[k]));
        } else {
            assert(slug_of(lower) == "memory"@);
        }
    }
}

/// No two dashes stand together.
pub open spec fn single_dashes(s: Seq<char>) -> bool {
    forall|i: int, j: int|
        0 <= i && j == i + 1 && j < s.len() ==> !(#[trigger] s[i] == '-' && #[trigger] s[j] == '-')
}

/// A text that is a file name already: word characters with single dashes between them, and
/// no mark at an edge.
pub open spec fn is_slug(s: Seq<char>) -> bool {
    &&& s.len() > 0
    &&& forall|i: int| 0 <= i < s.len() ==> is_word_char(#[trigger] s[i]) || s[i] == '-'
    &&& single_dashes(s)
    &&& !is_edge_mark(s[0])
    &&& !is_edge_mark(s.last())
}

proof fn dash_is_no_word_char()
    ensures
        !is_word_char('-'),
{
    assert(text::is_ascii_char('-'));
}

proof fn dashed_is_single(s: Seq<char>)
    ensures
        single_dashes(dashed(s)),
        s.len() > 0 ==> dashed(s).len() > 0,
        s.len() > 0 ==> (dashed(s).last() == '-' <==> !is_word_char(s.last())),
    decreases s.len(),
{
    dash_is_no_word_char();
    if s.len() > 0 {
        let head = s.drop_last();
        dashed_is_single(head);
        let d = dashed(head);
        let e = dashed(s);
        if s.len() > 1 {
            assert(head.last() == s[s.len() - 2]);
        }
        assert forall|i: int, j: int| 0 <= i && j == i + 1 && j < e.len() implies !(#[trigger] e[i]
            == '-' && #[trigger] e[j] == '-') by {
            if j < d.len() {
                assert(e[i] == d[i] && e[j] == d[j]);
            } else {
                assert(e[i] == d.last());
            }
        }
    }
}

proof fn unmarked_start_is_end(s: Seq<char>)
    ensures
        unmarked_start(s).len() <= s.len(),
        unmarked_start(s) == s.skip(s.len() - unmarked_start(s).len()),
        unmarked_start(s).len() > 0 ==> !is_edge_mark(unmarked_start(s)[0]),
    decreases s.len(),
{
    if s.len() > 0 && is_edge_mark(s[0]) {
        unmarked_start_is_end(s.skip(1));
        let t = unmarked_start(s);
        assert(t =~= s.skip(s.len() - t.len()));
    } else {
        assert(s =~= s.skip(0));
    }
}

proof fn unmarked_end_is_start(s: Seq<char>)
    ensures
        unmarked_end(s).len() <= s.len(),
        unmarked_end(s) == s.take(unmarked_end(s).len() as int),
        unmarked_end(s).len() > 0 ==> !is_edge_mark(unmarked_end(s).last()),
    decreases s.len(),
{
    if s.len() > 0 && is_edge_mark(s.last()) {
        unmarked_end_is_start(s.drop_last());
        let t = unmarked_end(s);
        assert(t =~= s.take(t.len() as int));
    } else {
        assert(s =~= s.take(s.len() as int));
    }
}

proof fn dashed_keeps(s: Seq<char>)
    requires
        forall|i: int| 0 <= i < s.len() ==> is_word_char(#[trigger] s[i]) || s[i] == '-',
        single_dashes(s),
    ensures
        dashed(s) == s,
    decreases s.len(),
{
    dash_is_no_word_char();
    if s.len() > 0 {
        let head = s.drop_last();
        assert forall|i: int, j: int| 0 <= i && j == i + 1 && j < head.len() implies !(
        #[trigger] head[i] == '-' && #[trigger] head[j] == '-') by {
            assert(head[i] == s[i] && head[j] == s[j]);
        }
        dashed_keeps(head);
        if !is_word_char(s.last()) {
            assert(s[s.len() - 1] == '-');
            if s.len() > 1 {
                assert(is_word_char(s[s.len() - 2]) || s[s.len() - 2] == '-');
            }
            assert(head.push('-') =~= s);
        } else {
            assert(head.push(s.last()) =~= s);
        }
    } else {
        assert(dashed(s) =~= s);
    }
}

/// The law of file names: what a lowercase name gives is word characters with single dashes
/// between them and no mark at an edge, and what is such a name already stays as it is.
pub proof fn law_slug_is_settled(lower: Seq<char>)
    ensures
        is_slug(slug_of(lower)),
        slug_of(slug_of(lower)) == slug_of(lower),
        is_slug(lower) ==> slug_of(lower) == lower,
{
    let d = dashed(lower);
    let a = unmarked_start(d);
    let b = unmarked_end(a);
    let s = slug_of(lower);
    law_slug_chars(lower);
    dashed_is_single(lower);
    unmarked_start_is_end(d);
    unmarked_end_is_start(a);
    reveal_strlit("memory");
    if b.len() > 0 {
        let k = d.len() - a.len();
        assert(s[0] == a[0]);
        assert forall|i: int, j: int| 0 <= i && j == i + 1 && j < s.len() implies !(#[trigger] s[i]
            == '-' && #[trigger] s[j] == '-') by {
            assert(s[i] == d[i + k] && s[j] == d[j + k]);
        }
    } else {
        assert(s == "memory"@);
    }
    settled(s);
    if is_slug(lower) {
        settled(lower);
    }
}

proof fn settled(s: Seq<char>)
    requires
        is_slug(s),
    ensures
        slug_of(s) == s,
{
    dashed_keeps(s);
    assert(unmarked_start(s) == s);
    assert(unmarked_end(s) == s);
}

/// A file name of ASCII characters is its own file name.
pub proof fn law_slug_of_a_slug(name: Seq<char>)
    requires
        text::all_ascii(name) || (text::all_ascii(slug(name)) && forall|i: int|
            0 <= i < text::lowered(name).len() ==> !text::is_ascii_upper(
                #[trigger] text::lowered(name)[i],
            )),
    ensures
        text::lowered(slug(name)) == slug(name),
        slug(slug(name)) == slug(name),
{
    let lower = text::lowered(name);
    let s = slug(name);
    if text::all_ascii(name) {
        assert forall|i: int| 0 <= i < lower.len() implies text::is_ascii_char(#[trigger] lower[i])
            && !text::is_ascii_upper(lower[i]) by {
            text::ascii_lower_is_lower(name[i]);
        }
        dashed_chars(lower);
        let d = dashed(lower);
        let a = unmarked_start(d);
        let b = unmarked_end(a);
        unmarked_start_is_end(d);
        unmarked_end_is_start(a);
        reveal_strlit("memory");
        assert forall|i: int| 0 <= i < s.len() implies text::is_ascii_char(#[trigger] s[i]) by {
            if b.len() > 0 {
                let k = d.len() - a.len();
                assert(s[i] == d[i + k]);
                if d[i + k] != '-' {
                    assert(lower.contains(d[i + k]));
                }
            } else {
                assert(s == "memory"@);
            }
        }
    }
    slug_keeps_lowercase(lower);
    assert(text::lowered(s) =~= s);
    law_slug_is_settled(lower);
}

/// The file name of a text without capital letters has none.
pub proof fn slug_keeps_lowercase(lower: Seq<char>)
    requires
        forall|i: int| 0 <= i < lower.len() ==> !text::is_ascii_upper(#[trigger] lower[i]),
    ensures
        forall|i: int|
            0 <= i < slug_of(lower).len() ==> !text::is_ascii_upper(
                #[trigger] slug_of(lower)[i],
            ),
{
    let d = dashed(lower);
    let a = unmarked_start(d);
    let b = unmarked_end(a);
    dashed_chars(lower);
    unmarked_is_part(d);
    unmarked_end_is_part(a);
    reveal_strlit("memory");
    assert forall|i: int| 0 <= i < slug_of(lower).len() implies !text::is_ascii_upper(
        #[trigger] slug_of(lower)[i],
    ) by {
        if b.len() > 0 {
            assert(a.contains(b[i]));
            let k = choose|k: int| 0 <= k < a.len() && a[k] == b[i];
            assert(d.contains(a[k]));
            let m = choose|m: int| 0 <= m < d.len() && d[m] == a[k];
            if d[m] != '-' {
                assert(lower.contains(d[m]));
            }
        } else {
            assert(slug_of(lower) == "memory"@);
        }
    }
}

// ---- words ----

/// The words between white space.
pub open spec fn words_of(s: Seq<char>) -> Seq<Seq<char>>
    decreases s.len(),
{
    if s.len() == 0 {
        Seq::empty()
    } else {
        let w = words_of(s.drop_last());
        let c = s.last();
        if text::is_white(c) {
            w
        } else if s.len() > 1 && !text::is_white(s[s.len() - 2]) {
            w.drop_last().push(w.last().push(c))
        } else {
            w.push(seq![c])
        }
    }
}

/// The words with single spaces between them.
pub open spec fn spaced(s: Seq<char>) -> Seq<char> {
    text::joined(words_of(s), " "@)
}

/// The text in lowercase with single spaces, for comparing.
pub open spec fn comparable(s: Seq<char>) -> Seq<char> {
    spaced(text::lowered(s))
}

/// The words so far, with the one being read.
pub open spec fn with_open(done: Seq<Seq<char>>, open_word: Seq<char>) -> Seq<Seq<char>> {
    if open_word.len() > 0 {
        done.push(open_word)
    } else {
        done
    }
}

/// The words between white space.
pub fn split_words(s: &str) -> (r: Vec<String>)
    ensures
        text::views(r@) == words_of(s@),
{
    let v = text::to_chars(s);
    let mut out: Vec<String> = Vec::new();
    let mut word = String::new();
    let mut in_word = false;
    let mut i: usize = 0;
    assert(with_open(text::views(out@), word@) =~= Seq::<Seq<char>>::empty());
    while i < v.len()
        invariant
            v@ == s@,
            i <= v@.len(),
            with_open(text::views(out@), word@) == words_of(v@.take(i as int)),
            in_word == (word@.len() > 0),
            in_word == (i > 0 && !text::is_white(v@[i - 1])),
        decreases v@.len() - i,
    {
        let c: char = v[i];
        let ghost done = text::views(out@);
        let ghost before = words_of(v@.take(i as int));
        assert(v@.take(i + 1).drop_last() =~= v@.take(i as int));
        if text::char_is_white(c) {
            if in_word {
                out.push(word);
                assert(text::views(out@) =~= done.push(out@.last()@));
                word = String::new();
                in_word = false;
            }
            assert(word@.len() == 0);
        } else {
            let ghost w = word@;
            word.push(c);
            if in_word {
                assert(before.drop_last() =~= done);
                assert(before.last() == w);
            } else {
                assert(word@ =~= seq![c]);
                assert(before =~= done);
            }
            in_word = true;
            assert(with_open(done, word@) =~= words_of(v@.take(i + 1)));
        }
        i += 1;
    }
    assert(v@.take(v@.len() as int) =~= s@);
    if in_word {
        let ghost done = text::views(out@);
        out.push(word);
        assert(text::views(out@) =~= done.push(out@.last()@));
    }
    out
}

/// The words with single spaces between them.
pub fn normalize_ws(s: &str) -> (r: String)
    ensures
        r@ == spaced(s@),
{
    let words = split_words(s);
    text::join(&words, " ")
}

/// The text in lowercase with single spaces.
pub fn normalized_memory_text(value: &str) -> (r: String)
    ensures
        r@ == comparable(value@),
{
    let lower = text::lowercase(value);
    normalize_ws(lower.as_str())
}

// ---- search terms ----

/// The kind of a character in a search: 1 for the letters of plain words, 2 for
/// ideographs, 0 for what separates terms.
pub open spec fn term_kind(c: char) -> int {
    if text::is_ascii_alnum(c) || c == '_' {
        1
    } else if '\u{4E00}' <= c && c <= '\u{9FFF}' {
        2
    } else {
        0
    }
}

/// The runs of characters of one kind.
pub open spec fn runs_of(s: Seq<char>) -> Seq<Seq<char>>
    decreases s.len(),
{
    if s.len() == 0 {
        Seq::empty()
    } else {
        let w = runs_of(s.drop_last());
        let c = s.last();
        if term_kind(c) == 0 {
            w
        } else if s.len() > 1 && term_kind(s[s.len() - 2]) == term_kind(c) {
            w.drop_last().push(w.last().push(c))
        } else {
            w.push(seq![c])
        }
    }
}

/// A run that is long enough to search for.
pub open spec fn is_term(run: Seq<char>) -> bool {
    run.len() > 0 && (term_kind(run[0]) == 1 && run.len() >= 3 || term_kind(run[0]) == 2
        && run.len() >= 2)
}

/// The runs that are long enough to search for, in order.
pub open spec fn terms_among(runs: Seq<Seq<char>>) -> Seq<Seq<char>>
    decreases runs.len(),
{
    if runs.len() == 0 {
        Seq::empty()
    } else if is_term(runs.last()) {
        terms_among(runs.drop_last()).push(runs.last())
    } else {
        terms_among(runs.drop_last())
    }
}

/// The search terms of a lowercase query.
pub open spec fn search_terms(lower: Seq<char>) -> Seq<Seq<char>> {
    terms_among(runs_of(lower))
}

fn kind_of(c: char) -> (r: u8)
    ensures
        r == term_kind(c),
{
    if text::char_is_ascii_alnum(c) || c == '_' {
        1
    } else if '\u{4E00}' <= c && c <= '\u{9FFF}' {
        2
    } else {
        0
    }
}

/// The runs of characters of one kind in a text.
fn split_runs(s: &str) -> (r: Vec<String>)
    ensures
        text::views(r@) == runs_of(s@),
{
    let v = text::to_chars(s);
    let mut out: Vec<String> = Vec::new();
    let mut run = String::new();
    let mut kind: u8 = 0;
    let mut i: usize = 0;
    assert(with_open(text::views(out@), run@) =~= Seq::<Seq<char>>::empty());
    while i < v.len()
        invariant
            v@ == s@,
            i <= v@.len(),
            with_open(text::views(out@), run@) == runs_of(v@.take(i as int)),
            (kind != 0) == (run@.len() > 0),
            kind == (if i > 0 {
                term_kind(v@[i - 1])
            } else {
                0
            }),
        decreases v@.len() - i,
    {
        let c: char = v[i];
        let k: u8 = kind_of(c);
        let ghost before = runs_of(v@.take(i as int));
        assert(v@.take(i + 1).drop_last() =~= v@.take(i as int));
        let ghost done = text::views(out@);
        let ghost w = run@;
        if k != kind {
            if kind != 0 {
                out.push(run);
                assert(text::views(out@) =~= done.push(out@.last()@));
                run = String::new();
            }
            kind = k;
        }
        assert(before == with_open(done, w));
        if k != 0 {
            run.push(c);
            proof {
                if run@.len() == 1 {
                    assert(run@ =~= seq![c]);
                    assert(before =~= text::views(out@));
                } else {
                    assert(before.drop_last() =~= text::views(out@));
                    assert(before.last() == w);
                }
            }
            assert(with_open(text::views(out@), run@) =~= runs_of(v@.take(i + 1)));
        } else {
            assert(with_open(text::views(out@), run@) =~= before);
        }
        i += 1;
    }
    assert(v@.take(v@.len() as int) =~= s@);
    if kind != 0 {
        let ghost done = text::views(out@);
        out.push(run);
        assert(text::views(out@) =~= done.push(out@.last()@));
    }
    out
}

/// The search terms of a lowercase query.
pub fn terms_of_lower(lower: &str) -> (r: Vec<String>)
    ensures
        text::views(r@) == search_terms(lower@),
{
    let runs = split_runs(lower);
    let ghost rs = text::views(runs@);
    let mut out: Vec<String> = Vec::new();
    let mut i: usize = 0;
    assert(text::views(out@) =~= Seq::<Seq<char>>::empty());
    while i < runs.len()
        invariant
            i <= runs@.len(),
            rs == text::views(runs@),
            text::views(out@) == terms_among(rs.take(i as int)),
        decreases runs@.len() - i,
    {
        let ghost before = text::views(out@);
        assert(rs.take(i + 1).drop_last() =~= rs.take(i as int));
        assert(rs.take(i + 1).last() == runs@[i as int]@);
        let chars = text::to_chars(runs[i].as_str());
        let n: usize = chars.len();
        if n > 0 {
            let k: u8 = kind_of(chars[0]);
            if (k == 1 && n >= 3) || (k == 2 && n >= 2) {
                out.push(runs[i].clone());
                assert(text::views(out@) =~= before.push(runs@[i as int]@));
            }
        }
        i += 1;
    }
    assert(rs.take(rs.len() as int) =~= rs);
    out
}

/// The search terms of a query: plain words of three letters or more and ideographs in
/// groups of two or more.
pub fn tokenize_query(query: &str) -> (r: Vec<String>)
    ensures
        text::views(r@) == search_terms(text::lowered(query@)),
{
    let lower = text::lowercase(query);
    terms_of_lower(lower.as_str())
}

// ---- documents ----

/// The text without line ends at its start.
pub open spec fn without_newlines(s: Seq<char>) -> Seq<char>
    decreases s.len(),
{
    if s.len() > 0 && (s[0] == '\r' || s[0] == '\n') {
        without_newlines(s.skip(1))
    } else {
        s
    }
}

/// The text without a byte order mark.
pub open spec fn without_bom(s: Seq<char>) -> Seq<char> {
    if s.len() > 0 && s[0] == '\u{feff}' {
        s.skip(1)
    } else {
        s
    }
}

/// The first position from `i` on at which `pat` stands.
pub open spec fn next_occurrence(s: Seq<char>, pat: Seq<char>, i: int) -> Option<int>
    decreases s.len() + 1 - i,
{
    if i > s.len() {
        None
    } else if text::occurs_at(s, pat, i) {
        Some(i)
    } else {
        next_occurrence(s, pat, i + 1)
    }
}

/// The header and the body of a document that starts with a header between two rules.
pub open spec fn document_parts(s: Seq<char>) -> Option<(Seq<char>, Seq<char>)> {
    let t = without_bom(s);
    if text::begins(t, "---"@) {
        match next_occurrence(t, "---"@, 3) {
            Some(j) => Some((t.subrange(3, j), without_newlines(t.skip(j + 3)))),
            None => None,
        }
    } else {
        None
    }
}

pub proof fn next_occurrence_found(s: Seq<char>, pat: Seq<char>, from: int, j: int)
    requires
        0 <= from <= j,
        text::occurs_at(s, pat, j),
        forall|k: int| from <= k < j ==> !text::occurs_at(s, pat, k),
    ensures
        next_occurrence(s, pat, from) == Some(j),
    decreases j - from,
{
    if from < j {
        next_occurrence_found(s, pat, from + 1, j);
    }
}

proof fn next_occurrence_none(s: Seq<char>, pat: Seq<char>, from: int)
    requires
        0 <= from,
        forall|k: int| from <= k ==> !text::occurs_at(s, pat, k),
    ensures
        next_occurrence(s, pat, from) is None,
    decreases s.len() + 1 - from,
{
    if from <= s.len() {
        next_occurrence_none(s, pat, from + 1);
    }
}

/// The header and the body of a document.
pub fn split_document(s: &str) -> (r: Option<(String, String)>)
    ensures
        document_parts(s@) == (match r {
            Some((h, b)) => Some((h@, b@)),
            None => None,
        }),
{
    let all = text::to_chars(s);
    let start: usize = if all.len() > 0 && all[0] == '\u{feff}' {
        1
    } else {
        0
    };
    let body = text::from_chars(&all, start, all.len());
    let ghost t = without_bom(s@);
    assert(body@ =~= t);
    let v = text::to_chars(body.as_str());
    let rule = text::to_chars("---");
    proof {
        reveal_strlit("---");
    }
    if !text::matches_at(&v, &rule, 0) {
        return None;
    }
    match text::find_from(&v, &rule, 3) {
        Some(j) => {
            proof {
                next_occurrence_found(t, "---"@, 3, j as int);
            }
            let header = text::from_chars(&v, 3, j);
            let mut k: usize = j + 3;
            let ghost rest = t.skip(j + 3);
            assert(v@.skip(k as int) =~= rest);
            while k < v.len() && (v[k] == '\r' || v[k] == '\n')
                invariant
                    v@ == t,
                    k <= v@.len(),
                    without_newlines(rest) == without_newlines(v@.skip(k as int)),
                decreases v@.len() - k,
            {
                assert(v@.skip(k as int).skip(1) =~= v@.skip(k + 1));
                k += 1;
            }
            assert(v@.subrange(k as int, v@.len() as int) =~= v@.skip(k as int));
            Some((header, text::from_chars(&v, k, v.len())))
        },
        None => {
            proof {
                next_occurrence_none(t, "---"@, 3);
            }
            None
        },
    }
}

/// A document: a header between rules and a body.
pub open spec fn document_text(header: Seq<char>, body: Seq<char>) -> Seq<char> {
    "---\n"@ + text::trimmed(header) + "\n---\n\n"@ + text::trimmed(body) + "\n"@
}

/// The header members of a memory record.
pub open spec fn header_entries(name: Seq<char>, mem_type: Seq<char>, description: Seq<char>) -> Seq<
    (Seq<char>, Seq<char>),
> {
    seq![("name"@, name), ("description"@, description), ("type"@, mem_type)]
}

/// The document of a memory record.
pub open spec fn record_document(
    name: Seq<char>,
    mem_type: Seq<char>,
    description: Seq<char>,
    body: Seq<char>,
) -> Seq<char> {
    document_text(yaml_mapping(header_entries(name, mem_type, description)), body)
}

/// Puts a header and a body together.
pub fn compose_document(header: &str, body: &str) -> (r: String)
    ensures
        r@ == document_text(header@, body@),
{
    "---\n".to_string().concat(text::trim(header).as_str()).concat("\n---\n\n").concat(
        text::trim(body).as_str(),
    ).concat("\n")
}

/// The document of a memory record.
pub fn memory_document(name: &str, mem_type: &str, description: &str, body: &str) -> (r: String)
    ensures
        r@ == record_document(name@, mem_type@, description@, body@),
{
    let mut entries: Vec<(String, String)> = Vec::new();
    entries.push(("name".to_string(), name.to_string()));
    entries.push(("description".to_string(), description.to_string()));
    entries.push(("type".to_string(), mem_type.to_string()));
    assert(json::pairs(entries@) =~= header_entries(name@, mem_type@, description@));
    let header = print_yaml(&entries);
    compose_document(header.as_str(), body)
}

} // verus!
