//! What holds of the operations on texts.

use vstd::prelude::*;

use crate::text;

verus! {

/// The text is white space.
pub open spec fn is_blank(s: Seq<char>) -> bool {
    forall|i: int| 0 <= i < s.len() ==> text::is_white(#[trigger] s[i])
}

proof fn start_trimmed(s: Seq<char>) -> (n: int)
    ensures
        0 <= n <= s.len(),
        text::trim_start(s) == s.skip(n),
        is_blank(s.take(n)),
        n < s.len() ==> !text::is_white(s[n]),
    decreases s.len(),
{
    if s.len() > 0 && text::is_white(s[0]) {
        let k = start_trimmed(s.skip(1));
        assert(s.skip(1).skip(k) =~= s.skip(k + 1));
        assert forall|i: int| 0 <= i < s.take(k + 1).len() implies text::is_white(
            #[trigger] s.take(k + 1)[i],
        ) by {
            if i > 0 {
                assert(s.skip(1).take(k)[i - 1] == s.take(k + 1)[i]);
            }
        }
        k + 1
    } else {
        assert(s.skip(0) =~= s);
        0
    }
}

proof fn end_trimmed(s: Seq<char>) -> (n: int)
    ensures
        0 <= n <= s.len(),
        text::trim_end(s) == s.take(n),
        is_blank(s.skip(n)),
        n > 0 ==> !text::is_white(s[n - 1]),
    decreases s.len(),
{
    if s.len() > 0 && text::is_white(s.last()) {
        let k = end_trimmed(s.drop_last());
        assert(s.drop_last().take(k) =~= s.take(k));
        assert forall|i: int| 0 <= i < s.skip(k).len() implies text::is_white(
            #[trigger] s.skip(k)[i],
        ) by {
            if i < s.skip(k).len() - 1 {
                assert(s.drop_last().skip(k)[i] == s.skip(k)[i]);
            }
        }
        k
    } else {
        assert(s.take(s.len() as int) =~= s);
        s.len() as int
    }
}

/// The law of trimming: what is taken off at either end is white space, and none is left at
/// the ends; a text is trimmed to nothing exactly where it is blank.
pub proof fn law_trimming_takes_off_white_space(s: Seq<char>)
    ensures
        exists|a: int, b: int|
            0 <= a <= b <= s.len() && #[trigger] s.subrange(a, b) == text::trimmed(s) && is_blank(
                s.take(a),
            ) && is_blank(s.skip(b)),
        text::trimmed(s).len() > 0 ==> !text::is_white(text::trimmed(s)[0]) && !text::is_white(
            text::trimmed(s).last(),
        ),
        text::trimmed(s).len() == 0 <==> is_blank(s),
{
    let a = start_trimmed(s);
    let rest = s.skip(a);
    let n = end_trimmed(rest);
    assert(s.subrange(a, a + n) =~= text::trimmed(s));
    assert(s.skip(a + n) =~= rest.skip(n));
    assert(is_blank(s.skip(a + n)));
    if n == 0 {
        assert forall|i: int| 0 <= i < s.len() implies text::is_white(#[trigger] s[i]) by {
            if i < a {
                assert(s.take(a)[i] == s[i]);
            } else {
                assert(rest.skip(0)[i - a] == s[i]);
            }
        }
    } else {
        assert(text::trimmed(s)[0] == s[a]);
        assert(text::trimmed(s).last() == rest[n - 1]);
        assert(!is_blank(s));
    }
}

/// The law of joining: nothing joined is nothing, one part is itself, and two lists of parts
/// are joined with the separator between them.
pub proof fn law_joining(a: Seq<Seq<char>>, b: Seq<Seq<char>>, part: Seq<char>, sep: Seq<char>)
    ensures
        text::joined(Seq::empty(), sep).len() == 0,
        text::joined(seq![part], sep) == part,
        a.len() > 0 && b.len() > 0 ==> text::joined(a + b, sep) == text::joined(a, sep) + sep
            + text::joined(b, sep),
        a.len() == 0 ==> text::joined(a + b, sep) == text::joined(b, sep),
    decreases b.len(),
{
    if a.len() == 0 {
        assert(a + b =~= b);
    } else if b.len() > 0 {
        assert((a + b).drop_last() =~= a + b.drop_last());
        assert((a + b).last() == b.last());
        if b.len() == 1 {
            assert(a + b.drop_last() =~= a);
            assert(text::joined(a + b, sep) =~= text::joined(a, sep) + sep + text::joined(b, sep));
        } else {
            law_joining(a, b.drop_last(), part, sep);
            assert(text::joined(a + b, sep) =~= text::joined(a, sep) + sep + text::joined(b, sep));
        }
    }
}

/// The law of lines: a line ends at the first line feed and is followed by the lines of what
/// is left; a last line needs no line feed; and a carriage return before a line feed is no
/// part of the line.
pub proof fn law_lines(line: Seq<char>, rest: Seq<char>)
    requires
        !line.contains('\n'),
    ensures
        text::lines_of(Seq::empty()).len() == 0,
        line.len() > 0 ==> text::lines_of(line) == seq![line],
        line.len() == 0 || line.last() != '\r' ==> text::lines_of(line + seq!['\n'] + rest)
            == seq![line] + text::lines_of(rest),
        text::lines_of(line + seq!['\r', '\n'] + rest) == seq![line] + text::lines_of(rest),
{
    if line.len() > 0 {
        let i = line.index_of_first('\n');
        line.index_of_first_ensures('\n');
        assert(text::lines_of(line) == seq![line]);
    }
    let s = line + seq!['\n'] + rest;
    let n = line.len() as int;
    s.index_of_first_ensures('\n');
    assert(s[n] == '\n');
    assert(s.contains('\n'));
    assert(forall|i: int| 0 <= i < n ==> s[i] == line[i]);
    assert(forall|i: int| 0 <= i < n ==> line.contains(line[i]));
    assert(s.index_of_first('\n') == Some(n));
    assert(s.take(n) =~= line);
    assert(s.skip(n + 1) =~= rest);
    let t = line + seq!['\r', '\n'] + rest;
    t.index_of_first_ensures('\n');
    assert(t[n + 1] == '\n');
    assert(t[n] == '\r');
    assert(t.contains('\n'));
    assert(forall|i: int| 0 <= i < n ==> t[i] == line[i]);
    assert(t.index_of_first('\n') == Some(n + 1));
    assert(t.take(n + 1).last() == '\r');
    assert(text::without_cr(t.take(n + 1)) =~= line);
    assert(t.skip(n + 2) =~= rest);
}

/// The number that decimal digits stand for.
pub open spec fn value(s: Seq<char>) -> int
    decreases s.len(),
{
    if s.len() == 0 {
        0
    } else {
        10 * value(s.drop_last()) + (s.last() as int - '0' as int)
    }
}

/// The law of numbers: the decimal digits of a number are digits that stand for it, without
/// a needless zero in front.
pub proof fn law_decimals_stand_for_their_number(n: nat)
    ensures
        value(text::decimal(n)) == n,
        text::decimal(n).len() > 0,
        forall|i: int|
            0 <= i < text::decimal(n).len() ==> '0' <= #[trigger] text::decimal(n)[i] <= '9',
        n > 0 ==> text::decimal(n)[0] != '0',
    decreases n,
{
    if n < 10 {
        assert(text::decimal(n).drop_last() =~= Seq::empty());
        assert(value(Seq::empty()) == 0);
    } else {
        law_decimals_stand_for_their_number(n / 10);
        assert(text::decimal(n).drop_last() =~= text::decimal(n / 10));
        let d = text::decimal(n);
        assert(d.last() == text::digit(n % 10));
        assert forall|i: int| 0 <= i < d.len() implies '0' <= #[trigger] d[i] <= '9' by {
            if i < d.len() - 1 {
                assert(d[i] == text::decimal(n / 10)[i]);
            }
        }
        assert(d[0] == text::decimal(n / 10)[0]);
    }
}

/// The law of searching: a text stands in every text that is put together round it, begins
/// those that it is put in front of and ends those that it is put behind; and where a text
/// stands in another, the other is put together round it.
pub proof fn law_searching(a: Seq<char>, pat: Seq<char>, b: Seq<char>, s: Seq<char>)
    ensures
        text::has(a + pat + b, pat),
        text::begins(pat + b, pat),
        text::ends(a + pat, pat),
        text::has(s, pat) ==> exists|i: int|
            0 <= i <= s.len() && #[trigger] s.take(i) + pat + s.skip(i + pat.len()) == s,
        text::begins(s, pat) ==> s == pat + s.skip(pat.len() as int),
        text::ends(s, pat) ==> s == s.take(s.len() - pat.len()) + pat,
{
    let all = a + pat + b;
    assert(all.subrange(a.len() as int, (a.len() + pat.len()) as int) =~= pat);
    assert(text::occurs_at(all, pat, a.len() as int));
    assert((pat + b).subrange(0, pat.len() as int) =~= pat);
    assert((a + pat).subrange(a.len() as int, (a + pat).len() as int) =~= pat);
    if text::has(s, pat) {
        let i = choose|i: int| text::occurs_at(s, pat, i);
        let p = s.subrange(i, i + pat.len());
        assert(s.take(i) + p + s.skip(i + pat.len()) =~= s);
    }
    if text::begins(s, pat) {
        let p = s.subrange(0, pat.len() as int);
        assert(s =~= p + s.skip(pat.len() as int));
    }
    if text::ends(s, pat) {
        let p = s.subrange(s.len() - pat.len(), s.len() as int);
        assert(s =~= s.take(s.len() - pat.len()) + p);
    }
}

/// The law of parts: the first and the last characters of a text are as many as asked for,
/// or all, and the first and the rest make the text.
pub proof fn law_parts(s: Seq<char>, n: int)
    requires
        n >= 0,
    ensures
        ({
            let first = text::first_chars(s, n);
            let last = text::last_chars(s, n);
            &&& first.is_prefix_of(s)
            &&& last.is_suffix_of(s)
            &&& s.len() >= n ==> first.len() == n && last.len() == n
            &&& s.len() < n ==> first == s && last == s
        }),
{
    let first = text::first_chars(s, n);
    let last = text::last_chars(s, n);
    assert(first =~= s.take(first.len() as int));
    assert(last =~= s.skip(s.len() - last.len()));
}

/// The law of letters: in lowercase a capital ASCII letter is the small one, and all else
/// stays, so that lowercase texts differ only where the texts differ in more than case.
pub proof fn law_lowercase(s: Seq<char>, i: int)
    requires
        0 <= i < s.len(),
    ensures
        text::ascii_lowered(s).len() == s.len(),
        'A' <= s[i] <= 'Z' ==> text::ascii_lowered(s)[i] as int == s[i] as int + ('a' as int
            - 'A' as int),
        !('A' <= s[i] <= 'Z') ==> text::ascii_lowered(s)[i] == s[i],
        text::ascii_lowered(text::ascii_lowered(s)) == text::ascii_lowered(s),
        (forall|k: int| 0 <= k < s.len() ==> '\0' <= #[trigger] s[k] <= '\u{7f}') ==> text::lowered(
            s,
        ) == text::ascii_lowered(s),
{
    assert(text::ascii_lowered(text::ascii_lowered(s)) =~= text::ascii_lowered(s));
    if forall|k: int| 0 <= k < s.len() ==> '\0' <= #[trigger] s[k] <= '\u{7f}' {
        assert(text::all_ascii(s));
        assert(text::lowered(s) =~= text::ascii_lowered(s));
    }
}

} // verus!
