//! The flat token grammar of prompt text.
//!
//! Three token shapes are recognised: `[[name]]` with a name of lowercase
//! ASCII letters, digits and `_`; `[[file:path]]` with a non-empty path free
//! of `]`; and `{{command}}` with a non-empty command free of `}`.  Tokens are
//! found left to right without overlap: at each position the first token that
//! starts there is taken and the scan resumes after it.  Spans here count
//! characters; the records handed to callers give byte offsets.
use vstd::prelude::*;

verus! {

/// The three token shapes of the markup.
#[derive(Clone, Copy, PartialEq, Eq, Debug)]
pub enum Shape {
    /// `[[name]]`
    Prompt,
    /// `[[file:path]]`
    File,
    /// `{{command}}`
    Command,
}

/// Whether `c` may appear in a prompt name: a lowercase ASCII letter, a digit or `_`.
pub open spec fn is_name_char(c: char) -> bool {
    ('a' <= c && c <= 'z') || ('0' <= c && c <= '9') || c == '_'
}

/// The text that opens a token of the given shape.
pub open spec fn opener(shape: Shape) -> Seq<char> {
    match shape {
        Shape::Prompt => seq!['[', '['],
        Shape::File => seq!['[', '[', 'f', 'i', 'l', 'e', ':'],
        Shape::Command => seq!['{', '{'],
    }
}

/// The character that, doubled, closes a token of the given shape.
pub open spec fn closer(shape: Shape) -> char {
    match shape {
        Shape::Prompt => ']',
        Shape::File => ']',
        Shape::Command => '}',
    }
}

/// Whether `c` may stand between the opener and the closer.
pub open spec fn is_body_char(shape: Shape, c: char) -> bool {
    match shape {
        Shape::Prompt => is_name_char(c),
        Shape::File => c != ']',
        Shape::Command => c != '}',
    }
}

/// The end of the longest run of body characters of `s` that starts at `j`.
pub open spec fn run_end(s: Seq<char>, shape: Shape, j: int) -> int
    decreases s.len() - j,
{
    if 0 <= j < s.len() && is_body_char(shape, s[j]) {
        run_end(s, shape, j + 1)
    } else {
        j
    }
}

/// Where the token that starts at `i` ends, or `i` itself where no token starts there.
pub open spec fn token_end(s: Seq<char>, shape: Shape, i: int) -> int {
    let b = i + opener(shape).len();
    let e = run_end(s, shape, b);
    if 0 <= i && b <= s.len() && s.subrange(i, b) == opener(shape) && e > b && e + 2 <= s.len()
        && s[e] == closer(shape) && s[e + 1] == closer(shape) {
        e + 2
    } else {
        i
    }
}

/// The spans `(start, end)` of the tokens of `s` found by a scan that starts at `i`.
pub open spec fn tokens_from(s: Seq<char>, shape: Shape, i: int) -> Seq<(int, int)>
    decreases s.len() - i,
{
    if i < 0 || i >= s.len() {
        Seq::empty()
    } else if token_end(s, shape, i) > i {
        seq![(i, token_end(s, shape, i))] + tokens_from(s, shape, token_end(s, shape, i))
    } else {
        tokens_from(s, shape, i + 1)
    }
}

/// The spans of all tokens of the given shape in `s`, left to right.
pub open spec fn tokens(s: Seq<char>, shape: Shape) -> Seq<(int, int)> {
    tokens_from(s, shape, 0)
}

/// The text between the opener and the closer of the token at `span`.
pub open spec fn body(s: Seq<char>, shape: Shape, span: (int, int)) -> Seq<char> {
    s.subrange(span.0 + opener(shape).len(), span.1 - 2)
}

/// Spans held in machine integers, seen as mathematical ones.
pub open spec fn spans_view(v: Seq<(usize, usize)>) -> Seq<(int, int)> {
    v.map_values(|p: (usize, usize)| (p.0 as int, p.1 as int))
}

proof fn lemma_run_end_bounds(s: Seq<char>, shape: Shape, j: int)
    requires
        0 <= j,
    ensures
        j <= run_end(s, shape, j),
        j <= s.len() ==> run_end(s, shape, j) <= s.len(),
        forall|k: int| j <= k < run_end(s, shape, j) ==> is_body_char(shape, #[trigger] s[k]),
    decreases s.len() - j,
{
    if 0 <= j < s.len() && is_body_char(shape, s[j]) {
        lemma_run_end_bounds(s, shape, j + 1);
    }
}

/// Every token lies inside `s`, after `i`, and the tokens come in order without overlap.
pub proof fn lemma_tokens_well_formed(s: Seq<char>, shape: Shape, i: int)
    requires
        0 <= i,
    ensures
        forall|k: int| 0 <= k < tokens_from(s, shape, i).len() ==> {
            let t = #[trigger] tokens_from(s, shape, i)[k];
            &&& i <= t.0
            &&& t.0 + opener(shape).len() + 3 <= t.1 <= s.len()
            &&& token_end(s, shape, t.0) == t.1
        },
        forall|k: int| 0 < k < tokens_from(s, shape, i).len() ==>
            tokens_from(s, shape, i)[k - 1].1 <= #[trigger] tokens_from(s, shape, i)[k].0,
    decreases s.len() - i,
{
    if i >= s.len() {
    } else {
        let e = token_end(s, shape, i);
        let b = i + opener(shape).len();
        lemma_run_end_bounds(s, shape, b);
        if e > i {
            lemma_tokens_well_formed(s, shape, e);
            let rest = tokens_from(s, shape, e);
            let all = tokens_from(s, shape, i);
            assert(all == seq![(i, e)] + rest);
            assert forall|k: int| 0 <= k < all.len() implies {
                let t = #[trigger] all[k];
                &&& i <= t.0
                &&& t.0 + opener(shape).len() + 3 <= t.1 <= s.len()
                &&& token_end(s, shape, t.0) == t.1
            } by {
                if k > 0 {
                    assert(all[k] == rest[k - 1]);
                } else {
                    assert(all[k] == (i, e));
                    assert(run_end(s, shape, b) > b);
                }
            }
            assert forall|k: int| 0 < k < all.len() implies all[k - 1].1 <= #[trigger] all[k].0 by {
                assert(all[k] == rest[k - 1]);
                if k > 1 {
                    assert(all[k - 1] == rest[k - 2]);
                }
            }
        } else {
            lemma_tokens_well_formed(s, shape, i + 1);
            assert(tokens_from(s, shape, i) == tokens_from(s, shape, i + 1));
        }
    }
}

/// Exec form of `is_body_char`.
fn body_char(shape: Shape, c: char) -> (r: bool)
    ensures
        r == is_body_char(shape, c),
{
    match shape {
        Shape::Prompt => ('a' <= c && c <= 'z') || ('0' <= c && c <= '9') || c == '_',
        Shape::File => c != ']',
        Shape::Command => c != '}',
    }
}

/// Whether `s[i..]` starts with the opener of `shape`.
fn opens_at(s: &Vec<char>, shape: Shape, i: usize) -> (r: bool)
    requires
        i <= s.len(),
    ensures
        r == (i + opener(shape).len() <= s.len() && s@.subrange(i as int, i + opener(shape).len())
            == opener(shape)),
{
    let n: usize = match shape {
        Shape::File => 7,
        _ => 2,
    };
    if n > s.len() - i {
        return false;
    }
    let r = match shape {
        Shape::Prompt => s[i] == '[' && s[i + 1] == '[',
        Shape::File => s[i] == '[' && s[i + 1] == '[' && s[i + 2] == 'f' && s[i + 3] == 'i' && s[i
            + 4] == 'l' && s[i + 5] == 'e' && s[i + 6] == ':',
        Shape::Command => s[i] == '{' && s[i + 1] == '{',
    };
    let ghost sub = s@.subrange(i as int, i + opener(shape).len());
    if r {
        assert(sub =~= opener(shape));
    } else {
        assert(sub != opener(shape)) by {
            if sub == opener(shape) {
                assert(sub[0] == opener(shape)[0]);
                assert(sub[1] == opener(shape)[1]);
                if shape == Shape::File {
                    assert(sub[2] == opener(shape)[2]);
                    assert(sub[3] == opener(shape)[3]);
                    assert(sub[4] == opener(shape)[4]);
                    assert(sub[5] == opener(shape)[5]);
                    assert(sub[6] == opener(shape)[6]);
                }
            }
        }
    }
    r
}

/// The end of the token of the given shape that starts at `i`, or `i` where none does.
pub fn token_end_at(s: &Vec<char>, shape: Shape, i: usize) -> (r: usize)
    requires
        i < s.len(),
    ensures
        r == token_end(s@, shape, i as int),
{
    if !opens_at(s, shape, i) {
        return i;
    }
    let b: usize = match shape {
        Shape::File => i + 7,
        _ => i + 2,
    };
    let mut j: usize = b;
    while j < s.len() && body_char(shape, s[j])
        invariant
            b <= j <= s.len(),
            run_end(s@, shape, j as int) == run_end(s@, shape, b as int),
        decreases s.len() - j,
    {
        j = j + 1;
    }
    let cl: char = match shape {
        Shape::Command => '}',
        _ => ']',
    };
    if j > b && s.len() - j >= 2 && s[j] == cl && s[j + 1] == cl {
        j + 2
    } else {
        i
    }
}

/// The spans of all tokens of the given shape in `s`, left to right.
pub fn scan(s: &Vec<char>, shape: Shape) -> (r: Vec<(usize, usize)>)
    ensures
        spans_view(r@) == tokens(s@, shape),
{
    let mut out: Vec<(usize, usize)> = Vec::new();
    let mut i: usize = 0;
    while i < s.len()
        invariant
            i <= s.len(),
            spans_view(out@) + tokens_from(s@, shape, i as int) == tokens(s@, shape),
        decreases s.len() - i,
    {
        let e = token_end_at(s, shape, i);
        proof {
            lemma_run_end_bounds(s@, shape, i + opener(shape).len());
        }
        if e > i {
            let ghost before = spans_view(out@);
            out.push((i, e));
            assert(spans_view(out@) =~= before.push((i as int, e as int)));
            assert(tokens_from(s@, shape, i as int) == seq![(i as int, e as int)] + tokens_from(
                s@,
                shape,
                e as int,
            ));
            assert(spans_view(out@) + tokens_from(s@, shape, e as int) =~= before + tokens_from(
                s@,
                shape,
                i as int,
            ));
            i = e;
        } else {
            i = i + 1;
        }
    }
    assert(spans_view(out@) =~= spans_view(out@) + tokens_from(s@, shape, i as int));
    out
}

} // verus!
