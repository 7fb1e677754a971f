//! What a resolution guarantees, stated over the models of `resolver` and proved.
use vstd::prelude::*;
use crate::commands::{command_list, command_text, outcome_view};
use crate::resolver::{
    circular_marker, command_texts, expand_level, expand_reference, expand_references, file_text,
    file_texts, inline_files, lemma_expand_references_len, loaded_paths, lookup, resolved_text,
    resolved_trace, substitute_commands, FileOutcome, Trace,
};
use crate::scan::{
    body, closer, is_body_char, is_name_char, opener, run_end, token_end, tokens, tokens_from,
    Shape,
};
use crate::text::trimmed;
use crate::splice::{
    lemma_splice_identity, lemma_splice_keeps_gaps, lemma_tokens_ordered, prev_end, splice,
    splice_upto,
};

verus! {

/// The reference token `[[name]]`.
pub open spec fn ref_token(name: Seq<char>) -> Seq<char> {
    seq!['[', '['] + name + seq![']', ']']
}

/// `name` is a well-formed prompt name: non-empty, of name characters only.
pub open spec fn is_name(name: Seq<char>) -> bool {
    name.len() > 0 && forall|i: int| 0 <= i < name.len() ==> is_name_char(#[trigger] name[i])
}

/// `s` holds no token of any shape.
pub open spec fn is_plain(s: Seq<char>) -> bool {
    &&& tokens(s, Shape::Prompt).len() == 0
    &&& tokens(s, Shape::File).len() == 0
    &&& tokens(s, Shape::Command).len() == 0
}

proof fn lemma_run_end_is(s: Seq<char>, shape: Shape, j: int, e: int)
    requires
        0 <= j <= e <= s.len(),
        forall|k: int| j <= k < e ==> crate::scan::is_body_char(shape, #[trigger] s[k]),
        e == s.len() || !crate::scan::is_body_char(shape, s[e]),
    ensures
        run_end(s, shape, j) == e,
    decreases e - j,
{
    if j < e {
        lemma_run_end_is(s, shape, j + 1, e);
    }
}

proof fn lemma_no_tokens_from(s: Seq<char>, shape: Shape, i: int)
    requires
        0 <= i,
        forall|j: int| i <= j < s.len() ==> token_end(s, shape, j) == j,
    ensures
        tokens_from(s, shape, i) == Seq::<(int, int)>::empty(),
    decreases s.len() - i,
{
    if i < s.len() {
        lemma_no_tokens_from(s, shape, i + 1);
    }
}

/// The only token of `[[name]]` is the whole text, a prompt reference to `name`.
pub proof fn lemma_ref_token_tokens(name: Seq<char>)
    requires
        is_name(name),
    ensures
        tokens(ref_token(name), Shape::Prompt) == seq![(0int, name.len() + 4int)],
        body(ref_token(name), Shape::Prompt, (0int, name.len() + 4int)) == name,
        ref_token(name).subrange(0, name.len() + 4int) == ref_token(name),
        tokens(ref_token(name), Shape::File).len() == 0,
{
    let s = ref_token(name);
    let n = name.len() as int;
    assert(s.len() == n + 4);
    assert forall|k: int| 2 <= k < n + 2 implies crate::scan::is_body_char(Shape::Prompt, #[trigger] s[k]) by {
        assert(s[k] == name[k - 2]);
    }
    lemma_run_end_is(s, Shape::Prompt, 2, n + 2);
    assert(s.subrange(0, 2) =~= opener(Shape::Prompt));
    assert(token_end(s, Shape::Prompt, 0) == n + 4);
    lemma_no_tokens_from(s, Shape::Prompt, n + 4);
    assert(tokens(s, Shape::Prompt) =~= seq![(0int, n + 4)]);
    assert(s.subrange(2, n + 2) =~= name);
    assert(s.subrange(0, n + 4) =~= s);
    assert forall|j: int| 0 <= j < s.len() implies token_end(s, Shape::File, j) == j by {
        if j + 7 <= s.len() && s.subrange(j, j + 7) == opener(Shape::File) {
            assert(s.subrange(j, j + 7)[6] == ':');
            assert(s[j + 6] == ':');
            if j + 6 < 2 {
            } else if j + 6 < n + 2 {
                assert(s[j + 6] == name[j + 4]);
            }
        }
    }
    lemma_no_tokens_from(s, Shape::File, 0);
}

/// Replacing the single span that covers a whole text gives the replacement.
proof fn lemma_splice_whole(s: Seq<char>, r: Seq<char>)
    ensures
        splice(s, seq![(0int, s.len() as int)], seq![r]) == r,
{
    let spans = seq![(0int, s.len() as int)];
    let reps = seq![r];
    assert(splice_upto(s, spans, reps, 0) == Seq::<char>::empty());
    assert(splice_upto(s, spans, reps, 1) =~= r);
    assert(splice(s, spans, reps) =~= r);
}

/// Resolving `[[name]]` with some fuel is expanding that one reference.
proof fn lemma_level_of_ref(
    prompts: Seq<(String, String)>,
    name: Seq<char>,
    visited: Seq<Seq<char>>,
    fuel: nat,
    trace: Trace,
)
    requires
        is_name(name),
        fuel > 0,
    ensures
        expand_level(prompts, ref_token(name), visited, fuel, trace) == expand_reference(
            prompts,
            name,
            ref_token(name),
            visited,
            fuel,
            trace,
        ),
{
    let s = ref_token(name);
    lemma_ref_token_tokens(name);
    let toks = tokens(s, Shape::Prompt);
    let one = expand_reference(prompts, name, s, visited, fuel, trace);
    assert(toks[0] == (0int, name.len() + 4int));
    let rest = expand_references(prompts, s, 0, visited, fuel, one.1);
    assert(rest == (Seq::<Seq<char>>::empty(), one.1));
    assert(expand_references(prompts, s, 1, visited, fuel, trace) == (seq![one.0] + rest.0, rest.1));
    assert(seq![one.0] + rest.0 =~= seq![one.0]);
    assert(seq![one.0].reverse() =~= seq![one.0]);
    lemma_splice_whole(s, one.0);
    assert(s.len() == name.len() + 4);
}

/// The file pass leaves a text without file references as it is.
proof fn lemma_no_files(s: Seq<char>, files: Seq<FileOutcome>)
    requires
        tokens(s, Shape::File).len() == 0,
    ensures
        inline_files(s, files) == s,
{
    lemma_tokens_ordered(s, Shape::File);
    lemma_splice_identity(s, tokens(s, Shape::File), crate::resolver::file_texts(s, files));
}

/// Text without any reference, file reference or command placeholder is a
/// fixed point of resolution: it comes back unchanged, nothing is recorded as
/// expanded or cut, and running its (absent) commands changes nothing.
pub proof fn lemma_plain_text_is_fixed(
    content: Seq<char>,
    prompts: Seq<(String, String)>,
    files: Seq<FileOutcome>,
    max_depth: nat,
    outputs: Seq<Result<String, String>>,
)
    requires
        is_plain(content),
    ensures
        resolved_text(content, prompts, files, max_depth) == content,
        resolved_trace(content, prompts, files, max_depth).0.len() == 0,
        !resolved_trace(content, prompts, files, max_depth).1,
        substitute_commands(content, outputs) == content,
{
    lemma_no_files(content, files);
    let t0: Trace = (Seq::empty(), false, false);
    if max_depth > 0 {
        let toks = tokens(content, Shape::Prompt);
        assert(expand_references(prompts, content, 0, Seq::empty(), max_depth, t0) == (
            Seq::<Seq<char>>::empty(),
            t0,
        ));
        lemma_tokens_ordered(content, Shape::Prompt);
        lemma_splice_identity(content, toks, Seq::<Seq<char>>::empty().reverse());
    }
    lemma_tokens_ordered(content, Shape::Command);
    lemma_splice_identity(
        content,
        tokens(content, Shape::Command),
        crate::resolver::command_texts(content, outputs),
    );
}

proof fn lemma_unknown_references(
    prompts: Seq<(String, String)>,
    s: Seq<char>,
    k: nat,
    fuel: nat,
    trace: Trace,
)
    requires
        k <= tokens(s, Shape::Prompt).len(),
        forall|j: int|
            0 <= j < tokens(s, Shape::Prompt).len() ==> lookup(
                prompts,
                body(s, Shape::Prompt, #[trigger] tokens(s, Shape::Prompt)[j]),
            ) is None,
    ensures
        expand_references(prompts, s, k, Seq::empty(), fuel, trace).1 == trace,
        expand_references(prompts, s, k, Seq::empty(), fuel, trace).0.reverse() == Seq::new(
            k,
            |j: int|
                s.subrange(tokens(s, Shape::Prompt)[j].0, tokens(s, Shape::Prompt)[j].1),
        ),
    decreases k,
{
    let toks = tokens(s, Shape::Prompt);
    if k == 0 {
        assert(expand_references(prompts, s, k, Seq::empty(), fuel, trace).0.reverse() =~= Seq::new(
            k,
            |j: int| s.subrange(toks[j].0, toks[j].1),
        ));
    } else {
        lemma_unknown_references(prompts, s, (k - 1) as nat, fuel, trace);
        let t = toks[k - 1];
        let one = expand_reference(
            prompts,
            body(s, Shape::Prompt, t),
            s.subrange(t.0, t.1),
            Seq::empty(),
            fuel,
            trace,
        );
        assert(!Seq::<Seq<char>>::empty().contains(body(s, Shape::Prompt, t)));
        assert(one == (s.subrange(t.0, t.1), trace));
        let rest = expand_references(prompts, s, (k - 1) as nat, Seq::empty(), fuel, trace);
        let all = expand_references(prompts, s, k, Seq::empty(), fuel, trace);
        assert(all == (seq![one.0] + rest.0, rest.1));
        assert(all.0.reverse() =~= rest.0.reverse().push(one.0));
        assert(all.0.reverse() =~= Seq::new(k, |j: int| s.subrange(toks[j].0, toks[j].1)));
    }
}

/// A text whose prompt references all name unknown prompts, and which has no
/// file references, comes back from resolution exactly as it was, with no
/// name recorded as expanded and no cycle flagged.
pub proof fn lemma_unknown_references_pass_through(
    content: Seq<char>,
    prompts: Seq<(String, String)>,
    files: Seq<FileOutcome>,
    max_depth: nat,
)
    requires
        tokens(content, Shape::File).len() == 0,
        forall|j: int|
            0 <= j < tokens(content, Shape::Prompt).len() ==> lookup(
                prompts,
                body(content, Shape::Prompt, #[trigger] tokens(content, Shape::Prompt)[j]),
            ) is None,
    ensures
        resolved_text(content, prompts, files, max_depth) == content,
        resolved_trace(content, prompts, files, max_depth).0.len() == 0,
        !resolved_trace(content, prompts, files, max_depth).1,
{
    lemma_no_files(content, files);
    let t0: Trace = (Seq::empty(), false, false);
    if max_depth > 0 {
        let toks = tokens(content, Shape::Prompt);
        lemma_unknown_references(prompts, content, toks.len(), max_depth, t0);
        lemma_tokens_ordered(content, Shape::Prompt);
        let reps = expand_references(prompts, content, toks.len(), Seq::empty(), max_depth, t0).0.reverse();
        assert forall|j: int| 0 <= j < toks.len() implies #[trigger] reps[j] == content.subrange(
            toks[j].0,
            toks[j].1,
        ) by {}
        lemma_splice_identity(content, toks, reps);
    }
}

/// A cycle `a -> [[b]]`, `b -> [[a]]` (or `a -> [[a]]` when `b` is `a`) is cut:
/// resolving `[[a]]` gives the cycle marker for `a`, and the cycle is flagged.
pub proof fn lemma_cycle_is_cut(
    a: Seq<char>,
    b: Seq<char>,
    prompts: Seq<(String, String)>,
    max_depth: nat,
)
    requires
        is_name(a),
        is_name(b),
        lookup(prompts, a) == Some(ref_token(b)),
        lookup(prompts, b) == Some(ref_token(a)),
        max_depth >= 3,
    ensures
        resolved_text(ref_token(a), prompts, Seq::empty(), max_depth) == circular_marker(a),
        resolved_trace(ref_token(a), prompts, Seq::empty(), max_depth).1,
{
    lemma_ref_token_tokens(a);
    lemma_no_files(ref_token(a), Seq::empty());
    let t0: Trace = (Seq::empty(), false, false);
    let v0 = Seq::<Seq<char>>::empty();
    let va = v0.push(a);
    let vab = va.push(b);
    assert(!v0.contains(a));
    assert(va.contains(a)) by {
        assert(va[0] == a);
    }
    assert(vab.contains(a)) by {
        assert(vab[0] == a);
    }
    lemma_level_of_ref(prompts, a, v0, max_depth, t0);
    lemma_level_of_ref(prompts, b, va, (max_depth - 1) as nat, t0);
    if b == a {
        let inner = expand_level(prompts, ref_token(b), va, (max_depth - 1) as nat, t0);
        assert(inner == (circular_marker(a), (t0.0, true, t0.2)));
    } else {
        assert(!va.contains(b)) by {
            if va.contains(b) {
                let j = choose|j: int| 0 <= j < va.len() && va[j] == b;
                assert(va[j] == a);
            }
        }
        lemma_level_of_ref(prompts, a, vab, (max_depth - 2) as nat, t0);
        let deepest = expand_level(prompts, ref_token(a), vab, (max_depth - 2) as nat, t0);
        assert(deepest == (circular_marker(a), (t0.0, true, t0.2)));
    }
}

/// `chain` is a list of distinct prompt names, each stored as a reference to
/// the next.
pub open spec fn is_chain(prompts: Seq<(String, String)>, chain: Seq<Seq<char>>) -> bool {
    &&& forall|i: int| 0 <= i < chain.len() ==> is_name(#[trigger] chain[i])
    &&& forall|i: int, j: int| 0 <= i < j < chain.len() ==> chain[i] != chain[j]
    &&& forall|i: int|
        0 <= i < chain.len() - 1 ==> lookup(prompts, #[trigger] chain[i]) == Some(
            ref_token(chain[i + 1]),
        )
}

proof fn lemma_chain_from(
    prompts: Seq<(String, String)>,
    chain: Seq<Seq<char>>,
    i: int,
    fuel: nat,
    trace: Trace,
)
    requires
        is_chain(prompts, chain),
        0 <= i,
        i + fuel < chain.len(),
    ensures
        expand_level(prompts, ref_token(chain[i]), chain.subrange(0, i), fuel, trace) == (
            ref_token(chain[i + fuel]),
            (trace.0 + chain.subrange(i, i + fuel).reverse(), trace.1, true),
        ),
    decreases fuel,
{
    if fuel == 0 {
        assert(trace.0 + chain.subrange(i, i).reverse() =~= trace.0);
    } else {
        let name = chain[i];
        let vis = chain.subrange(0, i);
        lemma_level_of_ref(prompts, name, vis, fuel, trace);
        assert(!vis.contains(name)) by {
            if vis.contains(name) {
                let j = choose|j: int| 0 <= j < vis.len() && vis[j] == name;
                assert(chain[j] == chain[i]);
            }
        }
        assert(vis.push(name) =~= chain.subrange(0, i + 1));
        lemma_chain_from(prompts, chain, i + 1, (fuel - 1) as nat, trace);
        let inner = expand_level(
            prompts,
            ref_token(chain[i + 1]),
            chain.subrange(0, i + 1),
            (fuel - 1) as nat,
            trace,
        );
        assert(inner.1.0.push(name) =~= trace.0 + chain.subrange(i, i + fuel).reverse());
    }
}

/// A chain of distinct references longer than the depth bound is cut at the
/// bound: resolving `[[chain[0]]]` with bound `max_depth` expands exactly
/// `max_depth` prompts, whatever the chain's length, leaves the reference at
/// the bound unexpanded, and flags that the bound was reached.
pub proof fn lemma_depth_bound(
    prompts: Seq<(String, String)>,
    chain: Seq<Seq<char>>,
    max_depth: nat,
)
    requires
        is_chain(prompts, chain),
        max_depth < chain.len(),
    ensures
        resolved_text(ref_token(chain[0]), prompts, Seq::empty(), max_depth) == ref_token(
            chain[max_depth as int],
        ),
        resolved_trace(ref_token(chain[0]), prompts, Seq::empty(), max_depth).0 == chain.subrange(
            0,
            max_depth as int,
        ).reverse(),
        resolved_trace(ref_token(chain[0]), prompts, Seq::empty(), max_depth).0.len() == max_depth,
        resolved_trace(ref_token(chain[0]), prompts, Seq::empty(), max_depth).2,
{
    lemma_ref_token_tokens(chain[0]);
    lemma_no_files(ref_token(chain[0]), Seq::empty());
    let t0: Trace = (Seq::empty(), false, false);
    assert(chain.subrange(0, 0) =~= Seq::<Seq<char>>::empty());
    lemma_chain_from(prompts, chain, 0, max_depth, t0);
    assert(t0.0 + chain.subrange(0, max_depth as int).reverse() =~= chain.subrange(
        0,
        max_depth as int,
    ).reverse());
}

/// In the prompt pass, the text around the references survives exactly: the
/// output is the text with each reference replaced by its expansion, and
/// between the expansions every gap of the input text stands unchanged,
/// in order, whatever the lengths of the references and their expansions.
pub proof fn lemma_reference_pass_keeps_text(
    prompts: Seq<(String, String)>,
    s: Seq<char>,
    visited: Seq<Seq<char>>,
    fuel: nat,
    trace: Trace,
)
    requires
        fuel > 0,
    ensures
        ({
            let toks = tokens(s, Shape::Prompt);
            let reps = expand_references(prompts, s, toks.len(), visited, fuel, trace).0.reverse();
            let out = expand_level(prompts, s, visited, fuel, trace).0;
            &&& reps.len() == toks.len()
            &&& out == splice(s, toks, reps)
            &&& forall|k: int|
                0 <= k < toks.len() ==> {
                    let at = (#[trigger] splice_upto(s, toks, reps, k)).len() as int;
                    let gap = s.subrange(prev_end(toks, k), toks[k].0);
                    &&& out.subrange(at, at + gap.len() as int) == gap
                    &&& out.subrange(at + gap.len() as int, at + gap.len() as int + reps[k].len() as int)
                        == reps[k]
                }
            &&& out.subrange(
                out.len() - (s.len() - prev_end(toks, toks.len() as int)),
                out.len() as int,
            ) == s.subrange(prev_end(toks, toks.len() as int), s.len() as int)
        }),
{
    let toks = tokens(s, Shape::Prompt);
    lemma_expand_references_len(prompts, s, toks.len(), visited, fuel, trace);
    lemma_tokens_ordered(s, Shape::Prompt);
    let reps = expand_references(prompts, s, toks.len(), visited, fuel, trace).0.reverse();
    lemma_splice_keeps_gaps(s, toks, reps);
}

/// In the file pass, the text around the file references survives exactly:
/// the output is the text with each reference replaced by its file's text or
/// error comment, and every gap of the input text stands unchanged, in order,
/// between the replacements.
pub proof fn lemma_file_pass_keeps_text(s: Seq<char>, files: Seq<FileOutcome>)
    requires
        files.len() == tokens(s, Shape::File).len(),
    ensures
        ({
            let toks = tokens(s, Shape::File);
            let reps = file_texts(s, files);
            let out = inline_files(s, files);
            &&& reps.len() == toks.len()
            &&& out == splice(s, toks, reps)
            &&& forall|k: int|
                0 <= k < toks.len() ==> {
                    let at = (#[trigger] splice_upto(s, toks, reps, k)).len() as int;
                    let gap = s.subrange(prev_end(toks, k), toks[k].0);
                    &&& out.subrange(at, at + gap.len() as int) == gap
                    &&& out.subrange(at + gap.len() as int, at + gap.len() as int + reps[k].len() as int)
                        == reps[k]
                }
            &&& out.subrange(
                out.len() - (s.len() - prev_end(toks, toks.len() as int)),
                out.len() as int,
            ) == s.subrange(prev_end(toks, toks.len() as int), s.len() as int)
        }),
{
    lemma_tokens_ordered(s, Shape::File);
    lemma_splice_keeps_gaps(s, tokens(s, Shape::File), file_texts(s, files));
}

/// The text `pre` followed by one token of `shape` around `inner`.
pub open spec fn one_token(pre: Seq<char>, shape: Shape, inner: Seq<char>) -> Seq<char> {
    pre + opener(shape) + inner + seq![closer(shape), closer(shape)]
}

/// `inner` can stand between the opener and the closer of `shape`.
pub open spec fn is_body(shape: Shape, inner: Seq<char>) -> bool {
    inner.len() > 0 && forall|i: int| 0 <= i < inner.len() ==> is_body_char(shape, #[trigger] inner[i])
}

/// `pre` holds no character that could open a token of `shape`.
pub open spec fn opens_nothing(pre: Seq<char>, shape: Shape) -> bool {
    forall|i: int| 0 <= i < pre.len() ==> #[trigger] pre[i] != opener(shape)[0]
}

proof fn lemma_skip_to(s: Seq<char>, shape: Shape, i: int, n: int)
    requires
        0 <= i <= n <= s.len(),
        forall|j: int| i <= j < n ==> token_end(s, shape, j) == j,
    ensures
        tokens_from(s, shape, i) == tokens_from(s, shape, n),
    decreases n - i,
{
    if i < n {
        lemma_skip_to(s, shape, i + 1, n);
    }
}

/// The only token of shape `shape` in `pre` followed by one such token is that token.
pub proof fn lemma_one_token(pre: Seq<char>, shape: Shape, inner: Seq<char>)
    requires
        opens_nothing(pre, shape),
        is_body(shape, inner),
    ensures
        ({
            let s = one_token(pre, shape, inner);
            &&& tokens(s, shape) == seq![(pre.len() as int, s.len() as int)]
            &&& body(s, shape, (pre.len() as int, s.len() as int)) == inner
            &&& s.subrange(0, pre.len() as int) == pre
        }),
{
    let s = one_token(pre, shape, inner);
    let n = pre.len() as int;
    let o = opener(shape);
    let b = n + o.len();
    let e = b + inner.len();
    assert(o.len() >= 2);
    assert(s.len() == e + 2);
    assert forall|j: int| 0 <= j < n implies token_end(s, shape, j) == j by {
        assert(s[j] == pre[j]);
        if j + o.len() <= s.len() && s.subrange(j, j + o.len()) == o {
            assert(s.subrange(j, j + o.len())[0] == s[j]);
        }
    }
    lemma_skip_to(s, shape, 0, n);
    assert(s.subrange(n, b) =~= o);
    assert forall|k: int| b <= k < e implies is_body_char(shape, #[trigger] s[k]) by {
        assert(s[k] == inner[k - b]);
    }
    assert(s[e] == closer(shape));
    assert(s[e + 1] == closer(shape));
    lemma_run_end_is(s, shape, b, e);
    assert(token_end(s, shape, n) == e + 2);
    lemma_no_tokens_from(s, shape, e + 2);
    assert(tokens_from(s, shape, n) =~= seq![(n, e + 2)]);
    assert(s.subrange(b, e) =~= inner);
    assert(s.subrange(0, n) =~= pre);
}

/// Replacing the single span that ends a text by `r` gives the text before it followed by `r`.
proof fn lemma_splice_last(s: Seq<char>, n: int, r: Seq<char>)
    requires
        0 <= n <= s.len(),
    ensures
        splice(s, seq![(n, s.len() as int)], seq![r]) == s.subrange(0, n) + r,
{
    let spans = seq![(n, s.len() as int)];
    let reps = seq![r];
    assert(splice_upto(s, spans, reps, 0) == Seq::<char>::empty());
    assert(splice_upto(s, spans, reps, 1) =~= s.subrange(0, n) + r);
    assert(splice(s, spans, reps) =~= s.subrange(0, n) + r);
}

/// A text without `[[` holds no prompt reference.
proof fn lemma_no_double_bracket(s: Seq<char>)
    requires
        forall|i: int| 0 <= i < s.len() - 1 ==> !(#[trigger] s[i] == '[' && s[i + 1] == '['),
    ensures
        tokens(s, Shape::Prompt).len() == 0,
{
    assert forall|j: int| 0 <= j < s.len() implies token_end(s, Shape::Prompt, j) == j by {
        if j + 2 <= s.len() && s.subrange(j, j + 2) == opener(Shape::Prompt) {
            assert(s.subrange(j, j + 2)[0] == s[j]);
            assert(s.subrange(j, j + 2)[1] == s[j + 1]);
        }
    }
    lemma_no_tokens_from(s, Shape::Prompt, 0);
}

/// Including one file: for `pre` followed by `[[file:path]]`, the file pass
/// gives `pre` followed by the file's text (or the error comment), records the
/// path exactly when the file was read, and, where that result holds no `[[`,
/// it is the resolved text.
pub proof fn lemma_file_inclusion(
    pre: Seq<char>,
    path: Seq<char>,
    outcome: FileOutcome,
    prompts: Seq<(String, String)>,
    max_depth: nat,
)
    requires
        opens_nothing(pre, Shape::File),
        is_body(Shape::File, path),
    ensures
        ({
            let content = one_token(pre, Shape::File, path);
            let expected = pre + file_text(path, outcome);
            &&& inline_files(content, seq![outcome]) == expected
            &&& loaded_paths(content, seq![outcome], 1) == if outcome is Loaded {
                seq![path]
            } else {
                Seq::<Seq<char>>::empty()
            }
            &&& (forall|i: int| 0 <= i < expected.len() - 1 ==> !(#[trigger] expected[i] == '['
                && expected[i + 1] == '[')) ==> resolved_text(content, prompts, seq![outcome], max_depth)
                == expected
        }),
{
    let content = one_token(pre, Shape::File, path);
    let expected = pre + file_text(path, outcome);
    lemma_one_token(pre, Shape::File, path);
    let toks = tokens(content, Shape::File);
    assert(file_texts(content, seq![outcome]) =~= seq![file_text(path, outcome)]);
    lemma_splice_last(content, pre.len() as int, file_text(path, outcome));
    assert(loaded_paths(content, seq![outcome], 0) == Seq::<Seq<char>>::empty());
    if outcome is Loaded {
        assert(loaded_paths(content, seq![outcome], 1) =~= seq![path]);
    } else {
        assert(loaded_paths(content, seq![outcome], 1) =~= Seq::<Seq<char>>::empty());
    }
    if forall|i: int| 0 <= i < expected.len() - 1 ==> !(#[trigger] expected[i] == '[' && expected[i + 1]
        == '[') {
        lemma_no_double_bracket(expected);
        let t0: Trace = (Seq::empty(), false, false);
        if max_depth > 0 {
            assert(expand_references(prompts, expected, 0, Seq::empty(), max_depth, t0) == (
                Seq::<Seq<char>>::empty(),
                t0,
            ));
            lemma_tokens_ordered(expected, Shape::Prompt);
            lemma_splice_identity(expected, tokens(expected, Shape::Prompt), Seq::<Seq<char>>::empty().reverse());
        }
    }
}

/// Running one command: for `pre` followed by `{{command}}`, the command is
/// listed trimmed, and substituting how it went gives `pre` followed by its
/// output without trailing white space, or the `Command failed` comment.
pub proof fn lemma_one_command(pre: Seq<char>, command: Seq<char>, outcome: Result<String, String>)
    requires
        opens_nothing(pre, Shape::Command),
        is_body(Shape::Command, command),
    ensures
        command_list(one_token(pre, Shape::Command, command)) == seq![trimmed(command)],
        substitute_commands(one_token(pre, Shape::Command, command), seq![outcome]) == pre
            + command_text(outcome_view(outcome)),
{
    let content = one_token(pre, Shape::Command, command);
    lemma_one_token(pre, Shape::Command, command);
    assert(command_list(content) =~= seq![trimmed(command)]);
    assert(command_texts(content, seq![outcome]) =~= seq![command_text(outcome_view(outcome))]);
    lemma_splice_last(content, pre.len() as int, command_text(outcome_view(outcome)));
}

} // verus!
