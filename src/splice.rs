//! Rewriting a text by replacing a list of non-overlapping spans.
//!
//! The output is built front to back: the text before the first span, its
//! replacement, the text between the first and the second span, and so on.
//! No offset of a later span is disturbed by an earlier replacement.
use vstd::prelude::*;
use crate::scan::{lemma_tokens_well_formed, opener, tokens, Shape};
use crate::text::{append_chars, append_range};

verus! {

/// The views of a sequence of character vectors.
pub open spec fn texts(v: Seq<Vec<char>>) -> Seq<Seq<char>> {
    v.map_values(|x: Vec<char>| x@)
}

/// Where the text after span `k - 1` begins: 0 for the first span.
pub open spec fn prev_end(spans: Seq<(int, int)>, k: int) -> int {
    if k <= 0 {
        0
    } else {
        spans[k - 1].1
    }
}

/// The spans lie inside a text of length `len`, in order, without overlap.
pub open spec fn ordered_spans(spans: Seq<(int, int)>, len: int) -> bool {
    forall|k: int|
        0 <= k < spans.len() ==> 0 <= prev_end(spans, k) <= (#[trigger] spans[k]).0 <= spans[k].1
            <= len
}

/// The output for the first `k` spans: every gap before a span followed by its replacement.
pub open spec fn splice_upto(
    s: Seq<char>,
    spans: Seq<(int, int)>,
    reps: Seq<Seq<char>>,
    k: int,
) -> Seq<char>
    decreases k,
{
    if k <= 0 {
        Seq::empty()
    } else {
        splice_upto(s, spans, reps, k - 1) + s.subrange(prev_end(spans, k - 1), spans[k - 1].0)
            + reps[k - 1]
    }
}

/// `s` with each span `spans[k]` replaced by `reps[k]`.
pub open spec fn splice(s: Seq<char>, spans: Seq<(int, int)>, reps: Seq<Seq<char>>) -> Seq<char> {
    splice_upto(s, spans, reps, spans.len() as int) + s.subrange(
        prev_end(spans, spans.len() as int),
        s.len() as int,
    )
}

/// The spans that a scan finds are ordered and inside the text.
pub proof fn lemma_tokens_ordered(s: Seq<char>, shape: Shape)
    ensures
        ordered_spans(tokens(s, shape), s.len() as int),
        forall|k: int|
            0 <= k < tokens(s, shape).len() ==> {
                let t = #[trigger] tokens(s, shape)[k];
                0 <= t.0 && t.0 + opener(shape).len() + 3 <= t.1 <= s.len()
            },
{
    lemma_tokens_well_formed(s, shape, 0);
    let t = tokens(s, shape);
    assert forall|k: int| 0 <= k < t.len() implies 0 <= prev_end(t, k) <= (#[trigger] t[k]).0
        <= t[k].1 <= s.len() by {
        if k > 0 {
            assert(t[k - 1].1 <= t[k].0);
        }
    }
}

/// Replacing every span by the text it covers gives the text back.
pub proof fn lemma_splice_identity(s: Seq<char>, spans: Seq<(int, int)>, reps: Seq<Seq<char>>)
    requires
        ordered_spans(spans, s.len() as int),
        reps.len() == spans.len(),
        forall|k: int| 0 <= k < spans.len() ==> #[trigger] reps[k] == s.subrange(spans[k].0, spans[k].1),
    ensures
        splice(s, spans, reps) == s,
{
    lemma_splice_upto_identity(s, spans, reps, spans.len() as int);
    let p = prev_end(spans, spans.len() as int);
    if spans.len() > 0 {
        assert(spans[spans.len() - 1].1 <= s.len());
    }
    assert(0 <= p <= s.len());
    assert(s.subrange(0, p) + s.subrange(p, s.len() as int) =~= s);
}

proof fn lemma_splice_upto_identity(
    s: Seq<char>,
    spans: Seq<(int, int)>,
    reps: Seq<Seq<char>>,
    k: int,
)
    requires
        ordered_spans(spans, s.len() as int),
        reps.len() == spans.len(),
        forall|j: int| 0 <= j < spans.len() ==> #[trigger] reps[j] == s.subrange(spans[j].0, spans[j].1),
        0 <= k <= spans.len(),
    ensures
        splice_upto(s, spans, reps, k) == s.subrange(0, prev_end(spans, k)),
    decreases k,
{
    if k > 0 {
        lemma_splice_upto_identity(s, spans, reps, k - 1);
        let a = prev_end(spans, k - 1);
        let t = spans[k - 1];
        assert(prev_end(spans, k - 1) <= t.0 <= t.1 <= s.len());
        assert(s.subrange(0, a) + s.subrange(a, t.0) + s.subrange(t.0, t.1) =~= s.subrange(0, t.1));
    }
}

/// Text outside the replaced spans is kept exactly, in order: in the output
/// of `splice`, each gap between spans stands unchanged, followed by the
/// replacement of the span after it, and the text after the last span ends
/// the output.
pub proof fn lemma_splice_keeps_gaps(s: Seq<char>, spans: Seq<(int, int)>, reps: Seq<Seq<char>>)
    requires
        ordered_spans(spans, s.len() as int),
        reps.len() == spans.len(),
    ensures
        forall|k: int|
            0 <= k < spans.len() ==> {
                let out = splice(s, spans, reps);
                let at = (#[trigger] splice_upto(s, spans, reps, k)).len() as int;
                let gap = s.subrange(prev_end(spans, k), spans[k].0);
                &&& out.subrange(at, at + gap.len() as int) == gap
                &&& out.subrange(at + gap.len() as int, at + gap.len() as int + reps[k].len() as int) == reps[k]
            },
        ({
            let out = splice(s, spans, reps);
            let tail = s.subrange(prev_end(spans, spans.len() as int), s.len() as int);
            out.subrange(out.len() - tail.len(), out.len() as int) == tail
        }),
{
    let n = spans.len() as int;
    let out = splice(s, spans, reps);
    assert forall|k: int| 0 <= k < n implies {
        let at = (#[trigger] splice_upto(s, spans, reps, k)).len() as int;
        let gap = s.subrange(prev_end(spans, k), spans[k].0);
        &&& out.subrange(at, at + gap.len() as int) == gap
        &&& out.subrange(at + gap.len() as int, at + gap.len() as int + reps[k].len() as int) == reps[k]
    } by {
        lemma_splice_upto_prefix(s, spans, reps, k + 1, n);
        let pre = splice_upto(s, spans, reps, k + 1);
        let at = splice_upto(s, spans, reps, k).len() as int;
        let gap = s.subrange(prev_end(spans, k), spans[k].0);
        assert(out.subrange(0, pre.len() as int) == pre);
        assert(pre == splice_upto(s, spans, reps, k) + gap + reps[k]);
        assert forall|i: int| 0 <= i < pre.len() implies out[i] == #[trigger] pre[i] by {
            assert(out.subrange(0, pre.len() as int)[i] == pre[i]);
        }
        assert(out.subrange(at, at + gap.len() as int) =~= pre.subrange(at, at + gap.len() as int));
        assert(out.subrange(at + gap.len() as int, at + gap.len() as int + reps[k].len() as int) =~= pre.subrange(
            at + gap.len() as int,
            at + gap.len() as int + reps[k].len() as int,
        ));
    }
    let tail = s.subrange(prev_end(spans, n), s.len() as int);
    assert(out.subrange(out.len() - tail.len(), out.len() as int) =~= tail);
}

proof fn lemma_splice_upto_prefix(
    s: Seq<char>,
    spans: Seq<(int, int)>,
    reps: Seq<Seq<char>>,
    k: int,
    n: int,
)
    requires
        0 <= k <= n == spans.len(),
    ensures
        splice_upto(s, spans, reps, k).len() <= splice(s, spans, reps).len(),
        splice(s, spans, reps).subrange(0, splice_upto(s, spans, reps, k).len() as int)
            == splice_upto(s, spans, reps, k),
    decreases n - k,
{
    let out = splice(s, spans, reps);
    if k == n {
        assert(out.subrange(0, splice_upto(s, spans, reps, k).len() as int) =~= splice_upto(
            s,
            spans,
            reps,
            k,
        ));
    } else {
        lemma_splice_upto_prefix(s, spans, reps, k + 1, n);
        let next = splice_upto(s, spans, reps, k + 1);
        let cur = splice_upto(s, spans, reps, k);
        assert(next == cur + s.subrange(prev_end(spans, k), spans[k].0) + reps[k]);
        assert(out.subrange(0, next.len() as int) == next);
        assert forall|i: int| 0 <= i < cur.len() implies out[i] == #[trigger] cur[i] by {
            assert(out.subrange(0, next.len() as int)[i] == next[i]);
            assert(next[i] == cur[i]);
        }
        assert(out.subrange(0, cur.len() as int) =~= cur);
    }
}

/// `s` with each span `spans[k]` replaced by `reps[k]`.
pub fn splice_chars(s: &Vec<char>, spans: &Vec<(usize, usize)>, reps: &Vec<Vec<char>>) -> (r: Vec<
    char,
>)
    requires
        ordered_spans(crate::scan::spans_view(spans@), s.len() as int),
        reps.len() == spans.len(),
    ensures
        r@ == splice(s@, crate::scan::spans_view(spans@), texts(reps@)),
{
    let ghost sp = crate::scan::spans_view(spans@);
    let ghost rp = texts(reps@);
    let mut out: Vec<char> = Vec::new();
    let mut pos: usize = 0;
    let mut k: usize = 0;
    while k < spans.len()
        invariant
            k <= spans.len() == reps.len(),
            sp == crate::scan::spans_view(spans@),
            rp == texts(reps@),
            ordered_spans(sp, s.len() as int),
            pos == prev_end(sp, k as int),
            out@ == splice_upto(s@, sp, rp, k as int),
        decreases spans.len() - k,
    {
        let (a, b) = spans[k];
        assert(sp[k as int] == (a as int, b as int));
        append_range(&mut out, s, pos, a);
        append_chars(&mut out, &reps[k]);
        pos = b;
        k = k + 1;
    }
    if spans.len() > 0 {
        assert(sp[spans.len() - 1].1 <= s.len());
    }
    append_range(&mut out, s, pos, s.len());
    out
}

} // verus!
