//! Names of prompts: derived from their content and made unique.
use vstd::prelude::*;
use vstd::set_lib::{lemma_int_range, lemma_len_subset, lemma_map_size, set_int_range};
use crate::references::{is_known_name, names_contain};
use crate::text::{
    append_chars, chars_of, first_line, first_line_of, is_white_space, slice_chars, string_of,
    trim_text, trimmed, white_space,
};

verus! {

/// What `str::to_lowercase` returns.
pub uninterp spec fn lowercase(s: Seq<char>) -> Seq<char>;

/// Relies on `str::to_lowercase`: the lowercase form of `s`.
#[verifier::external_body]
pub(crate) fn to_lowercase(s: &str) -> (r: String)
    ensures
        r@ == lowercase(s@),
{
    s.to_lowercase()
}

/// `c` is an ASCII letter or digit.
pub open spec fn is_ascii_alnum(c: char) -> bool {
    ('a' <= c && c <= 'z') || ('A' <= c && c <= 'Z') || ('0' <= c && c <= '9')
}

/// White space and `-` become `_`; other characters stay.
pub open spec fn separator_to_underscore(c: char) -> char {
    if is_white_space(c) || c == '-' {
        '_'
    } else {
        c
    }
}

/// `s` with separators turned into `_`, characters other than ASCII letters,
/// digits and `_` dropped, runs of `_` collapsed into one, and a leading `_`
/// dropped (`after_sep` tells whether the text before `s` ended in `_` or is empty).
pub open spec fn squeeze(s: Seq<char>, after_sep: bool) -> Seq<char>
    decreases s.len(),
{
    if s.len() == 0 {
        Seq::empty()
    } else {
        let c = separator_to_underscore(s[0]);
        if !(is_ascii_alnum(c) || c == '_') {
            squeeze(s.drop_first(), after_sep)
        } else if c == '_' {
            if after_sep {
                squeeze(s.drop_first(), true)
            } else {
                seq!['_'] + squeeze(s.drop_first(), true)
            }
        } else {
            seq![c] + squeeze(s.drop_first(), false)
        }
    }
}

/// `s` without one trailing `_`.
pub open spec fn drop_trailing_underscore(s: Seq<char>) -> Seq<char> {
    if s.len() > 0 && s.last() == '_' {
        s.drop_last()
    } else {
        s
    }
}

/// The name derived from a prompt's content: empty when its first line is
/// blank; otherwise the first twenty characters of that line, lowercased,
/// squeezed into letters, digits and single underscores, with no underscore
/// at either end.
pub open spec fn name_from_content(content: Seq<char>) -> Seq<char> {
    let line = first_line_of(content);
    if trimmed(line).len() == 0 {
        Seq::empty()
    } else {
        let head = line.subrange(0, if line.len() < 20 { line.len() as int } else { 20 });
        drop_trailing_underscore(squeeze(lowercase(head), true))
    }
}

/// Derives a prompt name from the first line of `content`.
pub fn generate_name_from_content(content: &str) -> (r: String)
    ensures
        r@ == name_from_content(content@),
{
    let line_text = first_line(content);
    let blank = trim_text(line_text.as_str());
    if blank.as_str().is_empty() {
        return String::new();
    }
    let line = chars_of(line_text.as_str());
    let n: usize = if line.len() < 20 {
        line.len()
    } else {
        20
    };
    let head = string_of(&slice_chars(&line, 0, n));
    let lower = chars_of(to_lowercase(head.as_str()).as_str());
    let mut out: Vec<char> = Vec::new();
    let mut after_sep = true;
    let mut i: usize = 0;
    assert(lower@.skip(0) =~= lower@);
    assert(out@ + squeeze(lower@, true) =~= squeeze(lower@, true));
    while i < lower.len()
        invariant
            i <= lower.len(),
            out@ + squeeze(lower@.skip(i as int), after_sep) == squeeze(lower@, true),
        decreases lower.len() - i,
    {
        let ghost rest = lower@.skip(i as int);
        let ghost old_out = out@;
        let ghost old_sep = after_sep;
        assert(rest[0] == lower@[i as int]);
        assert(rest.drop_first() =~= lower@.skip(i + 1));
        let raw = lower[i];
        let c = if white_space(raw) || raw == '-' {
            '_'
        } else {
            raw
        };
        let alnum = ('a' <= c && c <= 'z') || ('A' <= c && c <= 'Z') || ('0' <= c && c <= '9');
        if alnum || c == '_' {
            if c == '_' {
                if !after_sep {
                    out.push('_');
                    after_sep = true;
                }
            } else {
                out.push(c);
                after_sep = false;
            }
        }
        proof {
            let tail = squeeze(lower@.skip(i + 1), after_sep);
            assert(squeeze(rest, old_sep) == out@.subrange(old_out.len() as int, out@.len() as int)
                + tail);
            assert(out@ =~= old_out + out@.subrange(old_out.len() as int, out@.len() as int));
            assert(out@ + tail =~= old_out + squeeze(rest, old_sep));
        }
        i = i + 1;
    }
    assert(lower@.skip(i as int) =~= Seq::<char>::empty());
    assert(out@ =~= out@ + squeeze(lower@.skip(i as int), after_sep));
    if out.len() > 0 && out[out.len() - 1] == '_' {
        out.pop();
    }
    string_of(&out)
}

/// The decimal digit for `d` below ten.
pub open spec fn digit(d: nat) -> char {
    if d == 0 {
        '0'
    } else if d == 1 {
        '1'
    } else if d == 2 {
        '2'
    } else if d == 3 {
        '3'
    } else if d == 4 {
        '4'
    } else if d == 5 {
        '5'
    } else if d == 6 {
        '6'
    } else if d == 7 {
        '7'
    } else if d == 8 {
        '8'
    } else {
        '9'
    }
}

/// The decimal representation of `n`, without leading zeros.
pub open spec fn decimal(n: nat) -> Seq<char>
    decreases n,
{
    if n < 10 {
        seq![digit(n)]
    } else {
        decimal(n / 10).push(digit(n % 10))
    }
}

/// The `n`-th candidate name for `base`: `{base}_{n}`, or
/// `empty_prompt_{n}` for an empty base.
pub open spec fn numbered(base: Seq<char>, n: nat) -> Seq<char> {
    if base.len() == 0 {
        "empty_prompt_"@ + decimal(n)
    } else {
        base + seq!['_'] + decimal(n)
    }
}

/// `r` is the first numbered candidate for `base`, counting from 1, that is
/// not among `names`.
pub open spec fn is_first_free(r: Seq<char>, base: Seq<char>, names: Seq<&str>) -> bool {
    exists|n: nat|
        n >= 1 && r == numbered(base, n) && !names_contain(names, r) && forall|j: nat|
            1 <= j < n ==> names_contain(names, #[trigger] numbered(base, j))
}

proof fn lemma_decimal_len(n: nat)
    ensures
        decimal(n).len() >= 1,
        n >= 10 ==> decimal(n).len() >= 2,
    decreases n,
{
    if n >= 10 {
        lemma_decimal_len(n / 10);
    }
}

proof fn lemma_decimal_injective(a: nat, b: nat)
    requires
        decimal(a) == decimal(b),
    ensures
        a == b,
    decreases a,
{
    lemma_decimal_len(a);
    lemma_decimal_len(b);
    if a < 10 && b < 10 {
        assert(decimal(a) == seq![digit(a)]);
        assert(decimal(b) == seq![digit(b)]);
        assert(seq![digit(a)][0] == digit(a));
        assert(seq![digit(b)][0] == digit(b));
        assert(decimal(a)[0] == decimal(b)[0]);
        assert(digit(a) == digit(b));
    } else if a >= 10 && b >= 10 {
        let da = decimal(a / 10);
        let db = decimal(b / 10);
        assert(decimal(a).last() == digit(a % 10));
        assert(decimal(b).last() == digit(b % 10));
        assert(decimal(a).drop_last() =~= da);
        assert(decimal(b).drop_last() =~= db);
        lemma_decimal_injective(a / 10, b / 10);
        assert(digit(a % 10) == digit(b % 10));
        assert(a % 10 == b % 10);
        assert(a == 10 * (a / 10) + a % 10);
        assert(b == 10 * (b / 10) + b % 10);
    }
}

proof fn lemma_numbered_injective(base: Seq<char>, a: nat, b: nat)
    requires
        numbered(base, a) == numbered(base, b),
    ensures
        a == b,
{
    let p = if base.len() == 0 { "empty_prompt_"@ } else { base + seq!['_'] };
    assert(numbered(base, a) == p + decimal(a));
    assert(numbered(base, b) == p + decimal(b));
    assert(decimal(a) =~= numbered(base, a).skip(p.len() as int));
    assert(decimal(b) =~= numbered(base, b).skip(p.len() as int));
    lemma_decimal_injective(a, b);
}

/// If the candidates 1 to `n` are all among `names`, there are at least `n` names.
proof fn lemma_all_taken_bound(base: Seq<char>, names: Seq<&str>, n: nat)
    requires
        forall|j: nat| 1 <= j <= n ==> names_contain(names, #[trigger] numbered(base, j)),
    ensures
        n <= names.len(),
{
    let xs = set_int_range(1, n as int + 1);
    let f = |j: int| numbered(base, j as nat);
    lemma_int_range(1, n as int + 1);
    assert(vstd::relations::injective_on(f, xs)) by {
        assert forall|a: int, b: int| xs.contains(a) && xs.contains(b) && #[trigger] f(a) == #[trigger] f(b)
            implies a == b by {
            lemma_numbered_injective(base, a as nat, b as nat);
        }
    }
    let ys = xs.map(f);
    lemma_map_size(xs, ys, f);
    let all = names.map_values(|s: &str| s@);
    assert(ys.subset_of(all.to_set())) by {
        assert forall|y: Seq<char>| ys.contains(y) implies all.to_set().contains(y) by {
            let j = choose|j: int| xs.contains(j) && f(j) == y;
            assert(names_contain(names, numbered(base, j as nat)));
            let k = choose|k: int| 0 <= k < names.len() && (#[trigger] names[k])@ == numbered(base, j as nat);
            assert(all[k] == y);
        }
    }
    all.lemma_cardinality_of_set();
    vstd::seq_lib::seq_to_set_is_finite(all);
    lemma_len_subset(ys, all.to_set());
}

/// `r` is the unique name made from `base`: `base` itself when it is non-empty
/// and free, else the first free numbered candidate.
pub open spec fn is_unique_name_for(r: Seq<char>, base: Seq<char>, names: Seq<&str>) -> bool {
    if base.len() > 0 && !names_contain(names, base) {
        r == base
    } else {
        is_first_free(r, base, names)
    }
}

/// The characters of the decimal representation of `n`.
fn decimal_chars(n: usize) -> (r: Vec<char>)
    ensures
        r@ == decimal(n as nat),
    decreases n,
{
    let d = n % 10;
    let c = if d == 0 {
        '0'
    } else if d == 1 {
        '1'
    } else if d == 2 {
        '2'
    } else if d == 3 {
        '3'
    } else if d == 4 {
        '4'
    } else if d == 5 {
        '5'
    } else if d == 6 {
        '6'
    } else if d == 7 {
        '7'
    } else if d == 8 {
        '8'
    } else {
        '9'
    };
    assert(c == digit(d as nat));
    if n < 10 {
        let mut v: Vec<char> = Vec::new();
        v.push(c);
        v
    } else {
        let mut v = decimal_chars(n / 10);
        v.push(c);
        v
    }
}

/// The `n`-th candidate name for `base`.
fn numbered_name(base: &Vec<char>, n: usize) -> (r: String)
    ensures
        r@ == numbered(base@, n as nat),
{
    let mut v: Vec<char>;
    if base.len() == 0 {
        v = chars_of("empty_prompt_");
    } else {
        v = slice_chars(base, 0, base.len());
        v.push('_');
    }
    let digits = decimal_chars(n);
    append_chars(&mut v, &digits);
    string_of(&v)
}

/// `base_name` when it is non-empty and not among `existing_names`; otherwise
/// the first of `{base_name}_1`, `{base_name}_2`, ... (or `empty_prompt_1`,
/// `empty_prompt_2`, ... for an empty base) that is not among them.
pub fn make_unique_name(base_name: &str, existing_names: &[&str]) -> (r: String)
    requires
        existing_names.len() < usize::MAX,
    ensures
        is_unique_name_for(r@, base_name@, existing_names@),
{
    let base = base_name.to_owned();
    let known = is_known_name(&base, existing_names);
    if !base_name.is_empty() && !known {
        return base;
    }
    assert(base_name@.len() == 0 || names_contain(existing_names@, base_name@));
    let chars = chars_of(base_name);
    let mut n: usize = 1;
    loop
        invariant
            1 <= n <= existing_names.len() + 1,
            chars@ == base_name@,
            existing_names.len() < usize::MAX,
            base_name@.len() == 0 || names_contain(existing_names@, base_name@),
            forall|j: nat| 1 <= j < n ==> names_contain(existing_names@, #[trigger] numbered(base_name@, j)),
        decreases existing_names.len() + 1 - n,
    {
        let candidate = numbered_name(&chars, n);
        if !is_known_name(&candidate, existing_names) {
            return candidate;
        }
        proof {
            lemma_all_taken_bound(base_name@, existing_names@, n as nat);
        }
        n = n + 1;
    }
}

} // verus!
