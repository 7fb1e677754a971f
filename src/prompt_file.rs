//! The layout of a prompt file: a YAML frontmatter block between `---` lines,
//! then the prompt's content.
use vstd::prelude::*;
use crate::text::{chars_of, slice_chars, string_of, trim_text, trimmed};

verus! {

/// Why a prompt file could not be split.
#[derive(Clone, Copy, PartialEq, Eq, Debug)]
pub enum FrontmatterError {
    /// The file does not start with `---`.
    Missing,
    /// No line starting with `---` closes the frontmatter.
    Unclosed,
}

/// `s` holds `\n---` at position `i`.
pub open spec fn closes_at(s: Seq<char>, i: int) -> bool {
    0 <= i && i + 4 <= s.len() && s[i] == '\n' && s[i + 1] == '-' && s[i + 2] == '-' && s[i + 3]
        == '-'
}

/// The first position from `i` on where `s` holds `\n---`.
pub open spec fn first_closing_from(s: Seq<char>, i: int) -> Option<int>
    decreases s.len() - i,
{
    if i < 0 || i + 4 > s.len() {
        None
    } else if closes_at(s, i) {
        Some(i)
    } else {
        first_closing_from(s, i + 1)
    }
}

/// `s` without its leading newlines.
pub open spec fn skip_newlines(s: Seq<char>) -> Seq<char>
    decreases s.len(),
{
    if s.len() > 0 && s[0] == '\n' {
        skip_newlines(s.drop_first())
    } else {
        s
    }
}

/// How a prompt file splits into its frontmatter text and its content: the
/// file is trimmed and must start with `---`; the frontmatter runs up to the
/// first `\n---` after that and is trimmed; the content follows, without
/// leading newlines.
pub open spec fn frontmatter_split(file: Seq<char>) -> Result<(Seq<char>, Seq<char>), FrontmatterError> {
    let t = trimmed(file);
    if !(t.len() >= 3 && t[0] == '-' && t[1] == '-' && t[2] == '-') {
        Err(FrontmatterError::Missing)
    } else {
        let rest = t.skip(3);
        match first_closing_from(rest, 0) {
            None => Err(FrontmatterError::Unclosed),
            Some(e) => Ok((trimmed(rest.subrange(0, e)), skip_newlines(rest.skip(e + 4)))),
        }
    }
}

/// Splits the text of a prompt file into its frontmatter (still YAML) and its content.
pub fn parse_frontmatter(content: &str) -> (r: Result<(String, String), FrontmatterError>)
    ensures
        match r {
            Ok((front, body)) => frontmatter_split(content@) == Ok::<
                (Seq<char>, Seq<char>),
                FrontmatterError,
            >((front@, body@)),
            Err(e) => frontmatter_split(content@) == Err::<(Seq<char>, Seq<char>), FrontmatterError>(
                e,
            ),
        },
{
    let whole = trim_text(content);
    let t = chars_of(whole.as_str());
    if !(t.len() >= 3 && t[0] == '-' && t[1] == '-' && t[2] == '-') {
        return Err(FrontmatterError::Missing);
    }
    let rest = slice_chars(&t, 3, t.len());
    assert(rest@ =~= t@.skip(3));
    let mut i: usize = 0;
    let mut found = false;
    while !found && rest.len() >= 4 && i <= rest.len() - 4
        invariant
            i <= rest.len(),
            !found ==> first_closing_from(rest@, 0) == first_closing_from(rest@, i as int),
            found ==> first_closing_from(rest@, 0) == Some(i as int) && i + 4 <= rest.len(),
        decreases rest.len() - i, if found { 0int } else { 1int },
    {
        if rest[i] == '\n' && rest[i + 1] == '-' && rest[i + 2] == '-' && rest[i + 3] == '-' {
            found = true;
        } else {
            i = i + 1;
        }
    }
    if !found {
        return Err(FrontmatterError::Unclosed);
    }
    let front_chars = slice_chars(&rest, 0, i);
    let front = trim_text(string_of(&front_chars).as_str());
    let mut j: usize = i + 4;
    assert(rest@.skip(i + 4) =~= rest@.subrange(j as int, rest.len() as int));
    while j < rest.len() && rest[j] == '\n'
        invariant
            i + 4 <= j <= rest.len(),
            skip_newlines(rest@.skip(i + 4)) == skip_newlines(
                rest@.subrange(j as int, rest.len() as int),
            ),
        decreases rest.len() - j,
    {
        assert(rest@.subrange(j as int, rest.len() as int).drop_first() =~= rest@.subrange(
            j + 1,
            rest.len() as int,
        ));
        j = j + 1;
    }
    let body_chars = slice_chars(&rest, j, rest.len());
    let body = string_of(&body_chars);
    Ok((front, body))
}

} // verus!
