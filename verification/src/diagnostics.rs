//! Fixed note and hint texts used when reporting parse problems in the
//! source language, and a small helper that recognises a keyword at the
//! start of a line.

use vstd::prelude::*;

verus! {

/// Whether a character counts as alphanumeric when deciding if a keyword
/// ends at a character boundary.
pub uninterp spec fn alphanumeric(c: char) -> bool;

/// Relies on char::is_alphanumeric: whether the character has the Unicode
/// Alphabetic property or is numeric. The result depends on the character
/// alone.
#[verifier::external_body]
fn char_is_alphanumeric(c: char) -> (r: bool)
    ensures
        r == alphanumeric(c),
{
    c.is_alphanumeric()
}

/// Note shown when a record type may be misparsed because of indentation.
pub fn note_for_record_type_indent() -> (r: &'static str)
    ensures
        r@ == "I may be confused by indentation"@,
{
    "I may be confused by indentation"
}

/// Note shown when a tag union type may be misparsed because of indentation.
pub fn note_for_tag_union_type_indent() -> (r: &'static str)
    ensures
        r@ == "I may be confused by indentation"@,
{
    "I may be confused by indentation"
}

/// Hint reminding the reader how tag names are written.
pub fn hint_for_tag_name() -> (r: &'static str)
    ensures
        r@ == "Tag names start with an uppercase letter, like Err or Green."@,
{
    "Tag names start with an uppercase letter, like Err or Green."
}

/// Hint reminding the reader how private tag names are written.
pub fn hint_for_private_tag_name() -> (r: &'static str)
    ensures
        r@ == "Private tag names start with a `@` symbol followed by an uppercase letter, like @UID or @SecretKey."@,
{
    "Private tag names start with a `@` symbol followed by an uppercase letter, like @UID or @SecretKey."
}

/// True when the rest of a line begins with the given keyword and the
/// keyword is not merely a prefix of a longer alphanumeric word.
pub fn starts_with_keyword(rest_of_line: &str, keyword: &str) -> (r: bool)
    ensures
        r == (keyword@.is_prefix_of(rest_of_line@) && (rest_of_line@.len() == keyword@.len()
            || !alphanumeric(rest_of_line@[keyword@.len() as int]))),
{
    let klen = keyword.unicode_len();
    let rlen = rest_of_line.unicode_len();
    if klen > rlen {
        return false;
    }
    let mut i: usize = 0;
    while i < klen
        invariant
            i <= klen,
            klen <= rlen,
            klen == keyword@.len(),
            rlen == rest_of_line@.len(),
            forall|j: int| 0 <= j < i ==> rest_of_line@[j] == keyword@[j],
        decreases klen - i,
    {
        if rest_of_line.get_char(i) != keyword.get_char(i) {
            proof {
                assert(!keyword@.is_prefix_of(rest_of_line@)) by {
                    if keyword@.is_prefix_of(rest_of_line@) {
                        assert(keyword@[i as int] == rest_of_line@.subrange(
                            0,
                            klen as int,
                        )[i as int]);
                    }
                }
            }
            return false;
        }
        i += 1;
    }
    proof {
        assert(keyword@ =~= rest_of_line@.subrange(0, klen as int));
    }
    if rlen == klen {
        true
    } else {
        !char_is_alphanumeric(rest_of_line.get_char(klen))
    }
}

/// A place in the source text: a line/column span on one line or across
/// lines.
#[derive(Clone, Copy, Debug, PartialEq, Eq, Structural)]
pub struct Region {
    pub start_line: u32,
    pub start_col: u16,
    pub end_line: u32,
    pub end_col: u16,
}

/// The span a keyword occupies, starting at the given line and column.
pub fn to_keyword_region(row: u32, col: u16, keyword: &str) -> (r: Region)
    requires
        col + keyword@.len() <= u16::MAX,
    ensures
        r.start_line == row,
        r.end_line == row,
        r.start_col == col,
        r.end_col == col + keyword@.len(),
{
    let len = keyword.unicode_len();
    Region { start_line: row, start_col: col, end_line: row, end_col: col + (len as u16) }
}

/// How many spaces the line starts with, counted from `from`.
pub open spec fn leading_spaces(s: Seq<char>, from: int) -> int
    decreases s.len() - from,
{
    if 0 <= from < s.len() && s[from] == ' ' {
        leading_spaces(s, from + 1)
    } else {
        from
    }
}

/// Whether the next line's first character past its indentation is `c`;
/// if so, where that character stands.
pub open spec fn next_line_starts_with(lines: Seq<Seq<char>>, row: int, c: char) -> Option<
    (int, int),
> {
    if 0 <= row + 1 < lines.len() {
        let line = lines[row + 1];
        let k = leading_spaces(line, 0);
        if k < line.len() && line[k] == c {
            Some((row + 1, k))
        } else {
            None
        }
    } else {
        None
    }
}

#[verifier::loop_isolation(false)]
fn next_line_starts_with_exec(source_lines: &Vec<String>, row: u32, c: char) -> (r: Option<
    (u32, u16),
>)
    requires
        forall|i: int|
            0 <= i < source_lines@.len() ==> (#[trigger] source_lines@[i])@.len() <= u16::MAX,
        row < u32::MAX,
    ensures
        (match r {
            Some((rr, cc)) => next_line_starts_with(
                source_lines@.map_values(|l: String| l@),
                row as int,
                c,
            ) == Some((rr as int, cc as int)),
            None => next_line_starts_with(
                source_lines@.map_values(|l: String| l@),
                row as int,
                c,
            ) is None,
        }),
{
    let ghost lm = source_lines@.map_values(|l: String| l@);
    if row as usize >= source_lines.len() {
        return None;
    }
    let idx = row as usize + 1;
    if idx >= source_lines.len() {
        return None;
    }
    let line = &source_lines[idx];
    proof {
        assert(lm[idx as int] == line@);
    }
    let n = line.as_str().unicode_len();
    let mut k: usize = 0;
    while k < n && line.as_str().get_char(k) == ' '
        invariant
            k <= n,
            forall|j: int| 0 <= j < k ==> line@[j] == ' ',
        decreases n - k,
    {
        k += 1;
    }
    proof {
        assert(leading_spaces(line@, k as int) == k as int);
        lemma_leading_spaces_from(line@, 0, k as int);
    }
    if k < n && line.as_str().get_char(k) == c {
        Some((row + 1, k as u16))
    } else {
        None
    }
}

/// Skipping over known spaces does not change where the indentation ends.
proof fn lemma_leading_spaces_from(s: Seq<char>, from: int, k: int)
    requires
        0 <= from <= k <= s.len(),
        forall|j: int| from <= j < k ==> s[j] == ' ',
    ensures
        leading_spaces(s, from) == leading_spaces(s, k),
    decreases k - from,
{
    if from < k {
        assert(s[from] == ' ');
        lemma_leading_spaces_from(s, from + 1, k);
    }
}

/// Where the line after `row` starts with a closing curly brace, past its
/// indentation.
pub fn next_line_starts_with_close_curly(source_lines: &Vec<String>, row: u32) -> (r: Option<
    (u32, u16),
>)
    requires
        forall|i: int|
            0 <= i < source_lines@.len() ==> (#[trigger] source_lines@[i])@.len() <= u16::MAX,
        row < u32::MAX,
    ensures
        (match r {
            Some((rr, cc)) => next_line_starts_with(
                source_lines@.map_values(|l: String| l@),
                row as int,
                '}',
            ) == Some((rr as int, cc as int)),
            None => next_line_starts_with(
                source_lines@.map_values(|l: String| l@),
                row as int,
                '}',
            ) is None,
        }),
{
    next_line_starts_with_exec(source_lines, row, '}')
}

/// Where the line after `row` starts with a closing square bracket, past
/// its indentation.
pub fn next_line_starts_with_close_square_bracket(source_lines: &Vec<String>, row: u32) -> (r:
    Option<(u32, u16)>)
    requires
        forall|i: int|
            0 <= i < source_lines@.len() ==> (#[trigger] source_lines@[i])@.len() <= u16::MAX,
        row < u32::MAX,
    ensures
        (match r {
            Some((rr, cc)) => next_line_starts_with(
                source_lines@.map_values(|l: String| l@),
                row as int,
                ']',
            ) == Some((rr as int, cc as int)),
            None => next_line_starts_with(
                source_lines@.map_values(|l: String| l@),
                row as int,
                ']',
            ) is None,
        }),
{
    next_line_starts_with_exec(source_lines, row, ']')
}

/// What stands at a position in a line: one of the given keywords, a
/// closing delimiter, or some other character (none at end of input).
#[derive(Clone, Copy, Debug, PartialEq, Eq, Structural)]
pub enum Next {
    /// The index of the first keyword in the list that matches here.
    Keyword(usize),
    /// A closing parenthesis, square bracket or curly brace.
    Close(char),
    /// Any other character, or nothing before the end of the line.
    Other(Option<char>),
}

/// Whether the keyword stands at the start of the text, ended by a
/// non-alphanumeric boundary.
pub open spec fn keyword_here(rest: Seq<char>, keyword: Seq<char>) -> bool {
    keyword.is_prefix_of(rest) && (rest.len() == keyword.len() || !alphanumeric(
        rest[keyword.len() as int],
    ))
}

/// The index of the first keyword matching at the start of the text, or
/// the number of keywords when none does.
pub open spec fn first_keyword(rest: Seq<char>, keywords: Seq<Seq<char>>, from: int) -> int
    decreases keywords.len() - from,
{
    if !(0 <= from < keywords.len()) {
        keywords.len() as int
    } else if keyword_here(rest, keywords[from]) {
        from
    } else {
        first_keyword(rest, keywords, from + 1)
    }
}

/// What the parser would meet next at line `row`, column `col`: the first
/// matching keyword from the given list, a closing delimiter, or whatever
/// other character stands there.
pub open spec fn what_is_next_spec(
    lines: Seq<Seq<char>>,
    keywords: Seq<Seq<char>>,
    row: int,
    col: int,
) -> Next {
    if !(0 <= row < lines.len()) {
        Next::Other(None)
    } else {
        let rest = if 0 <= col <= lines[row].len() {
            lines[row].skip(col)
        } else {
            Seq::empty()
        };
        let k = first_keyword(rest, keywords, 0);
        if k < keywords.len() {
            Next::Keyword(k as usize)
        } else if rest.len() == 0 {
            Next::Other(None)
        } else if rest[0] == ')' || rest[0] == ']' || rest[0] == '}' {
            Next::Close(rest[0])
        } else {
            Next::Other(Some(rest[0]))
        }
    }
}

/// Computes `what_is_next_spec` for real text: the columns past `col` of
/// line `row`, held against each keyword in order.
#[verifier::loop_isolation(false)]
pub fn what_is_next(source_lines: &Vec<String>, keywords: &Vec<String>, row: u32, col: u16) -> (r:
    Next)
    ensures
        r == what_is_next_spec(
            source_lines@.map_values(|l: String| l@),
            keywords@.map_values(|k: String| k@),
            row as int,
            col as int,
        ),
{
    let ghost lm = source_lines@.map_values(|l: String| l@);
    let ghost km = keywords@.map_values(|k: String| k@);
    if row as usize >= source_lines.len() {
        return Next::Other(None);
    }
    let line = &source_lines[row as usize];
    proof {
        assert(lm[row as int] == line@);
    }
    let n = line.as_str().unicode_len();
    let from = if (col as usize) < n {
        col as usize
    } else {
        n
    };
    let rest = line.as_str().substring_char(from, n);
    proof {
        if col as int <= line@.len() {
            assert(rest@ =~= line@.skip(col as int));
        } else {
            assert(rest@ =~= Seq::<char>::empty());
        }
    }
    let mut k: usize = 0;
    while k < keywords.len()
        invariant
            k <= keywords@.len(),
            first_keyword(rest@, km, 0) == first_keyword(rest@, km, k as int),
        decreases keywords@.len() - k,
    {
        if starts_with_keyword(rest, keywords[k].as_str()) {
            proof {
                assert(km[k as int] == keywords@[k as int]@);
                assert(keyword_here(rest@, km[k as int]));
                assert(first_keyword(rest@, km, k as int) == k as int);
            }
            return Next::Keyword(k);
        }
        proof {
            assert(km[k as int] == keywords@[k as int]@);
            assert(!keyword_here(rest@, km[k as int]));
        }
        k += 1;
    }
    proof {
        assert(first_keyword(rest@, km, 0) == km.len() as int);
    }
    if rest.unicode_len() == 0 {
        Next::Other(None)
    } else {
        let c = rest.get_char(0);
        if c == ')' || c == ']' || c == '}' {
            Next::Close(c)
        } else {
            Next::Other(Some(c))
        }
    }
}

} // verus!
