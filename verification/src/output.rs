//! The program's logo and headings.

use vstd::prelude::*;

use crate::text;

verus! {

/// The rows of the logo's letters, one letter beside the other.
pub const LOGO_FIRST: &'static str = "#### #   #  #   #####   # ### #   # ######## ";

pub const LOGO_SECOND: &'static str = "#   # # # ######   ### ###   ##  # #   ##  # ";

pub const LOGO_THIRD: &'static str = "####   #    #  ###### # #########  ######    ";

pub const LOGO_FOURTH: &'static str = "#   #  #    #  #    #   ##   ##  # #    #    ";

pub const LOGO_FIFTH: &'static str = "####    #   ##  ### #   ##   ##   # ### #    ";

/// How many columns a letter of the logo takes.
pub const LETTER_COLUMNS: usize = 5;

/// The letters of a row.
pub open spec fn letters(row: Seq<char>) -> Seq<Seq<char>> {
    Seq::new(
        row.len() / LETTER_COLUMNS as nat,
        |k: int| row.subrange(k * LETTER_COLUMNS, (k + 1) * LETTER_COLUMNS),
    )
}

/// A row as it is shown: two blanks between the letters, and none at the end.
pub open spec fn logo_row(row: Seq<char>) -> Seq<char> {
    text::trim_end(text::joined(letters(row), "  "@))
}

/// The rows of the logo as they are shown.
pub open spec fn logo_rows() -> Seq<Seq<char>> {
    seq![
        logo_row(LOGO_FIRST@),
        logo_row(LOGO_SECOND@),
        logo_row(LOGO_THIRD@),
        logo_row(LOGO_FOURTH@),
        logo_row(LOGO_FIFTH@),
    ]
}

fn space_row(row: &str) -> (r: String)
    ensures
        r@ == logo_row(row@),
{
    let v = text::to_chars(row);
    let ghost want = letters(row@);
    let mut parts: Vec<String> = Vec::new();
    let len: usize = v.len();
    let n: usize = len / LETTER_COLUMNS;
    let mut k: usize = 0;
    assert(text::views(parts@) =~= want.take(0));
    while k < n
        invariant
            k <= n,
            v@ == row@,
            len == v@.len(),
            n == len / LETTER_COLUMNS,
            want == letters(row@),
            text::views(parts@) == want.take(k as int),
        decreases n - k,
    {
        let ghost before = text::views(parts@);
        let from: usize = k * LETTER_COLUMNS;
        let part = text::from_chars(&v, from, from + LETTER_COLUMNS);
        parts.push(part);
        assert(text::views(parts@) =~= before.push(part@));
        assert(want[k as int] == part@);
        assert(text::views(parts@) =~= want.take(k + 1));
        k += 1;
    }
    assert(want.take(want.len() as int) =~= want);
    text::trim_right(text::join(&parts, "  ").as_str())
}

/// The logo, without color.
pub fn logo() -> (r: String)
    ensures
        r@ == text::joined(logo_rows(), "\n"@),
{
    let mut rows: Vec<String> = Vec::new();
    rows.push(space_row(LOGO_FIRST));
    rows.push(space_row(LOGO_SECOND));
    rows.push(space_row(LOGO_THIRD));
    rows.push(space_row(LOGO_FOURTH));
    rows.push(space_row(LOGO_FIFTH));
    assert(text::views(rows@) =~= logo_rows());
    text::join(&rows, "\n")
}

/// A heading and the text below it, without color.
pub fn heading(title: &str, body: &str) -> (r: String)
    ensures
        r@ == "\n## "@ + title@ + "\n"@ + body@,
{
    "\n## ".to_string().concat(title).concat("\n").concat(body)
}

/// The directory of the skills: the one that the environment names, unless it is blank, or
/// else `skills` in the working directory.
pub fn skills_dir(named: Option<&str>, cwd: &str) -> (r: String)
    ensures
        r@ == (match named {
            Some(d) => if text::trimmed(d@).len() > 0 {
                d@
            } else {
                cwd@ + "/skills"@
            },
            None => cwd@ + "/skills"@,
        }),
{
    match named {
        Some(d) => if !text::trim(d).as_str().is_empty() {
            d.to_string()
        } else {
            cwd.to_string().concat("/skills")
        },
        None => cwd.to_string().concat("/skills"),
    }
}

} // verus!
