//! Conversions between strings and character vectors, and the few std string
//! functions that the library relies on.
use vstd::prelude::*;

verus! {

/// Whether `c` has the Unicode property White_Space, the set that
/// `char::is_whitespace` tests: U+0009 to U+000D, U+0020, U+0085, U+00A0,
/// U+1680, U+2000 to U+200A, U+2028, U+2029, U+202F, U+205F and U+3000.
pub open spec fn is_white_space(c: char) -> bool {
    ('\u{9}' <= c && c <= '\u{d}') || c == ' ' || c == '\u{85}' || c == '\u{a0}' || c == '\u{1680}'
        || ('\u{2000}' <= c && c <= '\u{200a}') || c == '\u{2028}' || c == '\u{2029}' || c
        == '\u{202f}' || c == '\u{205f}' || c == '\u{3000}'
}

/// The text without leading white space.
pub open spec fn trimmed_start(s: Seq<char>) -> Seq<char>
    decreases s.len(),
{
    if s.len() > 0 && is_white_space(s[0]) {
        trimmed_start(s.drop_first())
    } else {
        s
    }
}

/// The text without trailing white space, as `str::trim_end` gives it.
pub open spec fn trimmed_end(s: Seq<char>) -> Seq<char>
    decreases s.len(),
{
    if s.len() > 0 && is_white_space(s.last()) {
        trimmed_end(s.drop_last())
    } else {
        s
    }
}

/// The text without leading and trailing white space, as `str::trim` gives it.
pub open spec fn trimmed(s: Seq<char>) -> Seq<char> {
    trimmed_end(trimmed_start(s))
}

/// Where the first `\n` of `s` at or after `i` stands, or the length of `s`.
pub open spec fn newline_from(s: Seq<char>, i: int) -> int
    decreases s.len() - i,
{
    if i < 0 || i >= s.len() {
        s.len() as int
    } else if s[i] == '\n' {
        i
    } else {
        newline_from(s, i + 1)
    }
}

/// The first item `str::lines` yields, or the empty text when it yields
/// none: the text before the first `\n`, without a `\r` just before that
/// `\n`; the whole text when there is no `\n`.
pub open spec fn first_line_of(s: Seq<char>) -> Seq<char> {
    let e = newline_from(s, 0);
    if e < s.len() {
        let line = s.subrange(0, e);
        if line.len() > 0 && line.last() == '\r' {
            line.drop_last()
        } else {
            line
        }
    } else {
        s
    }
}

/// Whether `c` is white space in the sense of `is_white_space`.
pub fn white_space(c: char) -> (r: bool)
    ensures
        r == is_white_space(c),
{
    ('\u{9}' <= c && c <= '\u{d}') || c == ' ' || c == '\u{85}' || c == '\u{a0}' || c == '\u{1680}'
        || ('\u{2000}' <= c && c <= '\u{200a}') || c == '\u{2028}' || c == '\u{2029}' || c
        == '\u{202f}' || c == '\u{205f}' || c == '\u{3000}'
}

/// The characters of `s`, in order.
pub fn chars_of(s: &str) -> (r: Vec<char>)
    ensures
        r@ == s@,
{
    let mut out: Vec<char> = Vec::new();
    for c in it: s.chars()
        invariant
            out@ == it.seq().take(it.index() as int),
    {
        out.push(c);
    }
    out
}

/// Relies on `FromIterator<char>` for `String`: the string holds exactly the given characters.
#[verifier::external_body]
pub(crate) fn string_of(v: &Vec<char>) -> (r: String)
    ensures
        r@ == v@,
{
    v.iter().collect()
}

/// The characters `v[a..b]`.
pub fn slice_chars(v: &Vec<char>, a: usize, b: usize) -> (r: Vec<char>)
    requires
        a <= b <= v.len(),
    ensures
        r@ == v@.subrange(a as int, b as int),
{
    let mut out: Vec<char> = Vec::new();
    let mut i: usize = a;
    while i < b
        invariant
            a <= i <= b <= v.len(),
            out@ == v@.subrange(a as int, i as int),
        decreases b - i,
    {
        out.push(v[i]);
        i = i + 1;
    }
    out
}

/// The string made of the characters `v[a..b]`.
pub fn substring(v: &Vec<char>, a: usize, b: usize) -> (r: String)
    requires
        a <= b <= v.len(),
    ensures
        r@ == v@.subrange(a as int, b as int),
{
    let part = slice_chars(v, a, b);
    string_of(&part)
}

/// Appends the characters of `src` to `dst`.
pub fn append_chars(dst: &mut Vec<char>, src: &Vec<char>)
    ensures
        final(dst)@ == old(dst)@ + src@,
{
    let mut i: usize = 0;
    while i < src.len()
        invariant
            i <= src.len(),
            dst@ == old(dst)@ + src@.subrange(0, i as int),
        decreases src.len() - i,
    {
        dst.push(src[i]);
        i = i + 1;
    }
}

/// Appends the characters `src[a..b]` to `dst`.
pub fn append_range(dst: &mut Vec<char>, src: &Vec<char>, a: usize, b: usize)
    requires
        a <= b <= src.len(),
    ensures
        final(dst)@ == old(dst)@ + src@.subrange(a as int, b as int),
{
    let mut i: usize = a;
    while i < b
        invariant
            a <= i <= b <= src.len(),
            dst@ == old(dst)@ + src@.subrange(a as int, i as int),
        decreases b - i,
    {
        dst.push(src[i]);
        i = i + 1;
    }
}

/// Where the characters of `v[a..]` stop being white space.
fn skip_white_space(v: &Vec<char>, a: usize) -> (r: usize)
    requires
        a <= v.len(),
    ensures
        a <= r <= v.len(),
        trimmed_start(v@.subrange(a as int, v.len() as int)) == v@.subrange(r as int, v.len() as int),
{
    let mut i: usize = a;
    while i < v.len() && white_space(v[i])
        invariant
            a <= i <= v.len(),
            trimmed_start(v@.subrange(a as int, v.len() as int)) == trimmed_start(
                v@.subrange(i as int, v.len() as int),
            ),
        decreases v.len() - i,
    {
        assert(v@.subrange(i as int, v.len() as int).drop_first() =~= v@.subrange(
            i + 1,
            v.len() as int,
        ));
        i = i + 1;
    }
    i
}

/// Where the white space at the end of `v[a..b]` starts.
fn trailing_white_space(v: &Vec<char>, a: usize, b: usize) -> (r: usize)
    requires
        a <= b <= v.len(),
    ensures
        a <= r <= b,
        trimmed_end(v@.subrange(a as int, b as int)) == v@.subrange(a as int, r as int),
{
    let mut j: usize = b;
    while j > a && white_space(v[j - 1])
        invariant
            a <= j <= b <= v.len(),
            trimmed_end(v@.subrange(a as int, b as int)) == trimmed_end(
                v@.subrange(a as int, j as int),
            ),
        decreases j,
    {
        assert(v@.subrange(a as int, j as int).drop_last() =~= v@.subrange(a as int, j - 1));
        j = j - 1;
    }
    j
}

/// `s` without leading and trailing white space, as `str::trim` gives it.
pub fn trim_text(s: &str) -> (r: String)
    ensures
        r@ == trimmed(s@),
{
    let v = chars_of(s);
    assert(v@.subrange(0, v.len() as int) =~= v@);
    let a = skip_white_space(&v, 0);
    let b = trailing_white_space(&v, a, v.len());
    substring(&v, a, b)
}

/// `s` without trailing white space, as `str::trim_end` gives it.
pub fn trim_end_text(s: &str) -> (r: String)
    ensures
        r@ == trimmed_end(s@),
{
    let v = chars_of(s);
    assert(v@.subrange(0, v.len() as int) =~= v@);
    let b = trailing_white_space(&v, 0, v.len());
    substring(&v, 0, b)
}

/// The first line of `s`, as the first item of `str::lines` gives it, or
/// the empty text for an empty `s`.
pub fn first_line(s: &str) -> (r: String)
    ensures
        r@ == first_line_of(s@),
{
    let v = chars_of(s);
    let mut e: usize = 0;
    while e < v.len() && v[e] != '\n'
        invariant
            e <= v.len(),
            newline_from(v@, 0) == newline_from(v@, e as int),
        decreases v.len() - e,
    {
        e = e + 1;
    }
    if e == v.len() {
        assert(v@.subrange(0, e as int) =~= v@);
        return substring(&v, 0, e);
    }
    if e > 0 && v[e - 1] == '\r' {
        assert(v@.subrange(0, e as int).drop_last() =~= v@.subrange(0, e - 1));
        substring(&v, 0, e - 1)
    } else {
        substring(&v, 0, e)
    }
}

/// Where character `i` of `s` starts in its UTF-8 encoding.
pub open spec fn byte_offset(s: Seq<char>, i: int) -> nat {
    vstd::utf8::encode_utf8(s.subrange(0, i)).len()
}

/// Where character `i` of `v` starts in its UTF-8 encoding.
pub fn byte_offset_of(v: &Vec<char>, i: usize) -> (r: usize)
    requires
        i <= v.len(),
    ensures
        r == byte_offset(v@, i as int),
{
    let prefix = substring(v, 0, i);
    prefix.as_str().as_bytes().len()
}

} // verus!
