//! Expansion of prompt text: file inclusion, recursive prompt references with
//! cycle and depth guards, and command placeholders.
use vstd::prelude::*;
use crate::commands::{
    command_list, command_text, execute_command_safe, find_commands, has_commands, outcome_view,
    scanned_commands,
};
use crate::references::{has_file_references, has_references};
use crate::scan::{body, opener, scan, spans_view, tokens, Shape};
use crate::splice::{lemma_tokens_ordered, splice, splice_chars, texts};
use crate::text::{append_chars, chars_of, slice_chars, string_of, substring};

verus! {

/// What the prompt pass records besides the text: the names expanded, in the
/// order their expansion completed, whether a cycle was cut, and whether the
/// depth bound was reached.
pub type Trace = (Seq<Seq<char>>, bool, bool);

/// The content stored under `name` in `prompts`, the first entry of that name winning.
pub open spec fn lookup(prompts: Seq<(String, String)>, name: Seq<char>) -> Option<Seq<char>> {
    lookup_from(prompts, name, 0)
}

/// `lookup` restricted to the entries from `i` on.
pub open spec fn lookup_from(prompts: Seq<(String, String)>, name: Seq<char>, i: int) -> Option<
    Seq<char>,
>
    decreases prompts.len() - i,
{
    if i < 0 || i >= prompts.len() {
        None
    } else if prompts[i].0@ == name {
        Some(prompts[i].1@)
    } else {
        lookup_from(prompts, name, i + 1)
    }
}

/// The marker that replaces a reference to a prompt already being expanded.
pub open spec fn circular_marker(name: Seq<char>) -> Seq<char> {
    "<!-- [CIRCULAR REFERENCE DETECTED: "@ + name + "] -->"@
}

/// The expansion of one reference `token` to `name`, with the prompts in
/// `visited` being expanded around it and `fuel` levels of nesting left.
pub open spec fn expand_reference(
    prompts: Seq<(String, String)>,
    name: Seq<char>,
    token: Seq<char>,
    visited: Seq<Seq<char>>,
    fuel: nat,
    trace: Trace,
) -> (Seq<char>, Trace)
    decreases fuel, 0nat, 0nat,
{
    if visited.contains(name) {
        (circular_marker(name), (trace.0, true, trace.2))
    } else {
        match lookup(prompts, name) {
            None => (token, trace),
            Some(content) => {
                if fuel == 0 {
                    // Not reached from `expand_level`, which expands only with fuel left.
                    (token, trace)
                } else {
                    let inner = expand_level(
                        prompts,
                        content,
                        visited.push(name),
                        (fuel - 1) as nat,
                        trace,
                    );
                    (inner.0, (inner.1.0.push(name), inner.1.1, inner.1.2))
                }
            },
        }
    }
}

/// The expansions of the first `k` prompt references of `s`, the last first:
/// the replacement texts in the order the references were processed.
pub open spec fn expand_references(
    prompts: Seq<(String, String)>,
    s: Seq<char>,
    k: nat,
    visited: Seq<Seq<char>>,
    fuel: nat,
    trace: Trace,
) -> (Seq<Seq<char>>, Trace)
    decreases fuel, 1nat, k,
{
    if k == 0 || k > tokens(s, Shape::Prompt).len() {
        (Seq::empty(), trace)
    } else {
        let t = tokens(s, Shape::Prompt)[k - 1];
        let one = expand_reference(
            prompts,
            body(s, Shape::Prompt, t),
            s.subrange(t.0, t.1),
            visited,
            fuel,
            trace,
        );
        let rest = expand_references(prompts, s, (k - 1) as nat, visited, fuel, one.1);
        (seq![one.0] + rest.0, rest.1)
    }
}

/// The prompt pass on `s` with `fuel` levels of nesting left: at no fuel the
/// text stays as it is and the depth flag is raised; otherwise every reference
/// is replaced by its expansion, the references processed from the last to the
/// first.
pub open spec fn expand_level(
    prompts: Seq<(String, String)>,
    s: Seq<char>,
    visited: Seq<Seq<char>>,
    fuel: nat,
    trace: Trace,
) -> (Seq<char>, Trace)
    decreases fuel, 2nat, 0nat,
{
    if fuel == 0 {
        (s, (trace.0, trace.1, true))
    } else {
        let toks = tokens(s, Shape::Prompt);
        let done = expand_references(prompts, s, toks.len(), visited, fuel, trace);
        (splice(s, toks, done.0.reverse()), done.1)
    }
}

/// One step of `expand_references`: the reference `k - 1` is expanded first.
pub proof fn lemma_expand_references_step(
    prompts: Seq<(String, String)>,
    s: Seq<char>,
    k: nat,
    visited: Seq<Seq<char>>,
    fuel: nat,
    trace: Trace,
)
    requires
        0 < k <= tokens(s, Shape::Prompt).len(),
    ensures
        ({
            let t = tokens(s, Shape::Prompt)[k - 1];
            let one = expand_reference(
                prompts,
                body(s, Shape::Prompt, t),
                s.subrange(t.0, t.1),
                visited,
                fuel,
                trace,
            );
            let rest = expand_references(prompts, s, (k - 1) as nat, visited, fuel, one.1);
            expand_references(prompts, s, k, visited, fuel, trace) == (seq![one.0] + rest.0, rest.1)
        }),
{
}

/// `expand_references` with no reference left to expand.
pub proof fn lemma_expand_references_none(
    prompts: Seq<(String, String)>,
    s: Seq<char>,
    visited: Seq<Seq<char>>,
    fuel: nat,
    trace: Trace,
)
    ensures
        expand_references(prompts, s, 0, visited, fuel, trace) == (Seq::<Seq<char>>::empty(), trace),
{
}

/// `expand_references` gives one text for each reference it expands.
pub proof fn lemma_expand_references_len(
    prompts: Seq<(String, String)>,
    s: Seq<char>,
    k: nat,
    visited: Seq<Seq<char>>,
    fuel: nat,
    trace: Trace,
)
    requires
        k <= tokens(s, Shape::Prompt).len(),
    ensures
        expand_references(prompts, s, k, visited, fuel, trace).0.len() == k,
    decreases k,
{
    if k > 0 {
        let t = tokens(s, Shape::Prompt)[k - 1];
        let one = expand_reference(
            prompts,
            body(s, Shape::Prompt, t),
            s.subrange(t.0, t.1),
            visited,
            fuel,
            trace,
        );
        lemma_expand_references_len(prompts, s, (k - 1) as nat, visited, fuel, one.1);
    }
}

/// One unfolding of `expand_level`.
pub proof fn lemma_expand_level_unfold(
    prompts: Seq<(String, String)>,
    s: Seq<char>,
    visited: Seq<Seq<char>>,
    fuel: nat,
    trace: Trace,
)
    ensures
        expand_level(prompts, s, visited, fuel, trace) == if fuel == 0 {
            (s, (trace.0, trace.1, true))
        } else {
            let toks = tokens(s, Shape::Prompt);
            let done = expand_references(prompts, s, toks.len(), visited, fuel, trace);
            (splice(s, toks, done.0.reverse()), done.1)
        },
{
}

/// How reading a referenced file went.
pub enum FileOutcome {
    /// The file was read; its text.
    Loaded(String),
    /// There is no regular file at the path.
    NotFound,
    /// The file exists but could not be read; the reason.
    ReadError(String),
}

/// The text that replaces a file reference to `path`, given how reading it went.
pub open spec fn file_text(path: Seq<char>, outcome: FileOutcome) -> Seq<char> {
    match outcome {
        FileOutcome::Loaded(text) => text@,
        FileOutcome::NotFound => "<!-- [FILE NOT FOUND: "@ + path + "] -->"@,
        FileOutcome::ReadError(reason) => "<!-- [FILE READ ERROR: "@ + path + " - "@ + reason@
            + "] -->"@,
    }
}

/// The replacement texts of the file references of `s`, in order.
pub open spec fn file_texts(s: Seq<char>, outcomes: Seq<FileOutcome>) -> Seq<Seq<char>> {
    Seq::new(
        tokens(s, Shape::File).len(),
        |k: int| file_text(body(s, Shape::File, tokens(s, Shape::File)[k]), outcomes[k]),
    )
}

/// The paths of the first `k` file references of `s` that were read, the last first.
pub open spec fn loaded_paths(s: Seq<char>, outcomes: Seq<FileOutcome>, k: int) -> Seq<Seq<char>>
    decreases k,
{
    if k <= 0 {
        Seq::empty()
    } else {
        let here = if outcomes[k - 1] is Loaded {
            seq![body(s, Shape::File, tokens(s, Shape::File)[k - 1])]
        } else {
            Seq::empty()
        };
        here + loaded_paths(s, outcomes, k - 1)
    }
}

/// The file pass: every file reference of `s` replaced by its file's text or an error comment.
pub open spec fn inline_files(s: Seq<char>, outcomes: Seq<FileOutcome>) -> Seq<char> {
    splice(s, tokens(s, Shape::File), file_texts(s, outcomes))
}

/// The names of the views of a sequence of strings.
pub open spec fn views(v: Seq<String>) -> Seq<Seq<char>> {
    v.map_values(|x: String| x@)
}

/// Options of a resolution.
pub struct ResolveOptions {
    /// How many levels of nested prompt references are expanded.
    pub max_depth: usize,
    /// Whether command placeholders are to be run.
    pub execute_commands: bool,
}

impl Default for ResolveOptions {
    fn default() -> (r: Self)
        ensures
            r.max_depth == 10,
            r.execute_commands,
    {
        ResolveOptions { max_depth: 10, execute_commands: true }
    }
}

/// The outcome of a resolution.
#[derive(Clone, Debug)]
pub struct ResolveResult {
    /// The resolved text.
    pub content: String,
    /// The commands found in the resolved text, in order, each trimmed.
    pub commands: Vec<String>,
    /// The prompt names expanded, in the order their expansion completed.
    pub references: Vec<String>,
    /// The paths of the files inlined, the last reference first.
    pub file_references: Vec<String>,
    /// Whether a reference cycle was cut.
    pub had_circular_refs: bool,
    /// Whether the depth bound stopped an expansion.
    pub max_depth_exceeded: bool,
}

/// The index of the first entry of `prompts` named `name`.
pub(crate) fn find_entry(prompts: &[(String, String)], name: &String) -> (r: Option<usize>)
    ensures
        match r {
            Some(i) => i < prompts.len() && lookup(prompts@, name@) == Some(prompts@[i as int].1@),
            None => lookup(prompts@, name@) is None,
        },
{
    let mut i: usize = 0;
    while i < prompts.len()
        invariant
            i <= prompts.len(),
            lookup(prompts@, name@) == lookup_from(prompts@, name@, i as int),
        decreases prompts.len() - i,
    {
        if prompts[i].0 == *name {
            return Some(i);
        }
        i = i + 1;
    }
    None
}

/// Whether `name` is on the stack `visited`.
fn on_stack(visited: &Vec<String>, name: &String) -> (r: bool)
    ensures
        r == views(visited@).contains(name@),
{
    let mut i: usize = 0;
    while i < visited.len()
        invariant
            i <= visited.len(),
            forall|j: int| 0 <= j < i ==> (#[trigger] visited@[j])@ != name@,
        decreases visited.len() - i,
    {
        if visited[i] == *name {
            assert(views(visited@)[i as int] == name@);
            return true;
        }
        i = i + 1;
    }
    proof {
        if views(visited@).contains(name@) {
            let j = choose|j: int| 0 <= j < views(visited@).len() && views(visited@)[j] == name@;
            assert(visited@[j]@ == name@);
        }
    }
    false
}

/// The characters of the marker for a cut cycle at `name`.
fn circular_marker_chars(name: &String) -> (r: Vec<char>)
    ensures
        r@ == circular_marker(name@),
{
    let mut v = chars_of("<!-- [CIRCULAR REFERENCE DETECTED: ");
    let n = chars_of(name.as_str());
    append_chars(&mut v, &n);
    let tail = chars_of("] -->");
    append_chars(&mut v, &tail);
    v
}

/// Reverses a list of texts.
fn reversed(done: Vec<Vec<char>>) -> (r: Vec<Vec<char>>)
    ensures
        texts(r@) == texts(done@).reverse(),
{
    let ghost all = texts(done@);
    let mut done = done;
    let mut forward: Vec<Vec<char>> = Vec::new();
    while done.len() > 0
        invariant
            texts(forward@) + texts(done@).reverse() == all.reverse(),
        decreases done.len(),
    {
        let ghost d = texts(done@);
        let ghost f = texts(forward@);
        match done.pop() {
            Some(last) => {
                forward.push(last);
                assert(texts(forward@) =~= f.push(d.last()));
                assert(texts(done@) =~= d.drop_last());
                assert(d.reverse() =~= seq![d.last()] + d.drop_last().reverse());
                assert(texts(forward@) + texts(done@).reverse() =~= f + d.reverse());
            },
            None => {},
        }
    }
    assert(texts(forward@) =~= texts(forward@) + texts(done@).reverse());
    forward
}

/// The expansion of one reference `token` to `name`; `visited` holds the names
/// being expanded around it.
fn expand_reference_exec(
    prompts: &[(String, String)],
    name: String,
    token: Vec<char>,
    visited: &mut Vec<String>,
    fuel: usize,
    names: &mut Vec<String>,
    circular: &mut bool,
    too_deep: &mut bool,
) -> (r: Vec<char>)
    requires
        fuel > 0,
    ensures
        final(visited)@ == old(visited)@,
        (r@, (views(final(names)@), *final(circular), *final(too_deep))) == expand_reference(
            prompts@,
            name@,
            token@,
            views(old(visited)@),
            fuel as nat,
            (views(old(names)@), *old(circular), *old(too_deep)),
        ),
    decreases fuel, 0nat,
{
    if on_stack(visited, &name) {
        *circular = true;
        return circular_marker_chars(&name);
    }
    match find_entry(prompts, &name) {
        None => token,
        Some(i) => {
            let content = chars_of(prompts[i].1.as_str());
            let ghost vis = views(visited@);
            visited.push(name.clone());
            assert(views(visited@) =~= vis.push(name@));
            let text = expand_level_exec(
                prompts,
                &content,
                visited,
                fuel - 1,
                names,
                circular,
                too_deep,
            );
            visited.pop();
            assert(visited@ =~= old(visited)@);
            let ghost names_before = views(names@);
            names.push(name);
            assert(views(names@) =~= names_before.push(name@));
            text
        },
    }
}

/// The prompt pass on `s` with `fuel` levels of nesting left; `visited` holds
/// the names being expanded around `s`, and the trace is kept in `names`,
/// `circular` and `too_deep`.
fn expand_level_exec(
    prompts: &[(String, String)],
    s: &Vec<char>,
    visited: &mut Vec<String>,
    fuel: usize,
    names: &mut Vec<String>,
    circular: &mut bool,
    too_deep: &mut bool,
) -> (r: Vec<char>)
    ensures
        final(visited)@ == old(visited)@,
        (r@, (views(final(names)@), *final(circular), *final(too_deep))) == expand_level(
            prompts@,
            s@,
            views(old(visited)@),
            fuel as nat,
            (views(old(names)@), *old(circular), *old(too_deep)),
        ),
    decreases fuel, 1nat,
{
    proof {
        lemma_expand_level_unfold(
            prompts@,
            s@,
            views(visited@),
            fuel as nat,
            (views(names@), *circular, *too_deep),
        );
    }
    if fuel == 0 {
        *too_deep = true;
        return slice_chars(s, 0, s.len());
    }
    let ghost vis = views(visited@);
    let ghost trace0: Trace = (views(names@), *circular, *too_deep);
    let spans = scan(s, Shape::Prompt);
    let ghost toks = tokens(s@, Shape::Prompt);
    let ghost all = expand_references(prompts@, s@, toks.len(), vis, fuel as nat, trace0);
    proof {
        lemma_tokens_ordered(s@, Shape::Prompt);
    }
    let mut done: Vec<Vec<char>> = Vec::new();
    let mut k: usize = spans.len();
    while k > 0
        invariant
            k <= spans.len(),
            spans_view(spans@) == toks,
            toks == tokens(s@, Shape::Prompt),
            forall|j: int| 0 <= j < toks.len() ==> {
                let t = #[trigger] toks[j];
                0 <= t.0 && t.0 + 5 <= t.1 <= s.len()
            },
            fuel > 0,
            views(visited@) == vis,
            visited@ == old(visited)@,
            all == expand_references(prompts@, s@, toks.len(), vis, fuel as nat, trace0),
            ({
                let rest = expand_references(
                    prompts@,
                    s@,
                    k as nat,
                    vis,
                    fuel as nat,
                    (views(names@), *circular, *too_deep),
                );
                texts(done@) + rest.0 == all.0 && rest.1 == all.1
            }),
        decreases k,
    {
        k = k - 1;
        let (a, b) = spans[k];
        assert(toks[k as int] == (a as int, b as int));
        let name = substring(s, a + 2, b - 2);
        let token = slice_chars(s, a, b);
        let ghost before: Trace = (views(names@), *circular, *too_deep);
        proof {
            lemma_expand_references_step(prompts@, s@, (k + 1) as nat, vis, fuel as nat, before);
        }
        let replacement = expand_reference_exec(
            prompts,
            name,
            token,
            visited,
            fuel,
            names,
            circular,
            too_deep,
        );
        let ghost rest_after = expand_references(
            prompts@,
            s@,
            k as nat,
            vis,
            fuel as nat,
            (views(names@), *circular, *too_deep),
        );
        let ghost done_before = texts(done@);
        done.push(replacement);
        assert(texts(done@) =~= done_before.push(replacement@));
        assert(texts(done@) + rest_after.0 =~= done_before + (seq![replacement@] + rest_after.0));
    }
    proof {
        lemma_expand_references_none(
            prompts@,
            s@,
            vis,
            fuel as nat,
            (views(names@), *circular, *too_deep),
        );
    }
    assert(texts(done@) =~= all.0);
    proof {
        lemma_expand_references_len(prompts@, s@, toks.len(), vis, fuel as nat, trace0);
    }
    let forward = reversed(done);
    proof {
        lemma_tokens_ordered(s@, Shape::Prompt);
        assert(texts(forward@).len() == forward@.len());
        assert(spans_view(spans@).len() == spans@.len());
    }
    splice_chars(s, &spans, &forward)
}

/// The characters of the text that replaces a file reference to `path`.
fn file_text_chars(path: &String, outcome: &FileOutcome) -> (r: Vec<char>)
    ensures
        r@ == file_text(path@, *outcome),
{
    match outcome {
        FileOutcome::Loaded(text) => chars_of(text.as_str()),
        FileOutcome::NotFound => {
            let mut v = chars_of("<!-- [FILE NOT FOUND: ");
            let p = chars_of(path.as_str());
            append_chars(&mut v, &p);
            let tail = chars_of("] -->");
            append_chars(&mut v, &tail);
            v
        },
        FileOutcome::ReadError(reason) => {
            let mut v = chars_of("<!-- [FILE READ ERROR: ");
            let p = chars_of(path.as_str());
            append_chars(&mut v, &p);
            let sep = chars_of(" - ");
            append_chars(&mut v, &sep);
            let why = chars_of(reason.as_str());
            append_chars(&mut v, &why);
            let tail = chars_of("] -->");
            append_chars(&mut v, &tail);
            v
        },
    }
}

/// The replacement text of the `k`-th file reference.
fn file_replacement_at(
    s: &Vec<char>,
    spans: &Vec<(usize, usize)>,
    outcomes: &Vec<FileOutcome>,
    k: usize,
) -> (r: Vec<char>)
    requires
        spans_view(spans@) == tokens(s@, Shape::File),
        outcomes.len() == tokens(s@, Shape::File).len(),
        k < outcomes.len(),
        ({
            let t = tokens(s@, Shape::File)[k as int];
            0 <= t.0 && t.0 + 10 <= t.1 <= s.len()
        }),
    ensures
        r@ == file_texts(s@, outcomes@)[k as int],
{
    assert(spans_view(spans@).len() == spans@.len());
    let (a, b) = spans[k];
    let ghost t = tokens(s@, Shape::File)[k as int];
    assert(t == (a as int, b as int));
    assert(opener(Shape::File).len() == 7);
    let path = substring(s, a + 7, b - 2);
    assert(path@ == body(s@, Shape::File, t));
    let r = file_text_chars(&path, &outcomes[k]);
    assert(file_texts(s@, outcomes@)[k as int] == file_text(body(s@, Shape::File, t), outcomes@[k as int]));
    r
}

/// The replacement texts of the file references at `spans`, in order.
fn file_replacements(
    s: &Vec<char>,
    spans: &Vec<(usize, usize)>,
    outcomes: &Vec<FileOutcome>,
) -> (r: Vec<Vec<char>>)
    requires
        spans_view(spans@) == tokens(s@, Shape::File),
        outcomes.len() == tokens(s@, Shape::File).len(),
    ensures
        texts(r@) == file_texts(s@, outcomes@),
{
    let ghost toks = tokens(s@, Shape::File);
    let ghost all = file_texts(s@, outcomes@);
    proof {
        lemma_tokens_ordered(s@, Shape::File);
        assert(spans_view(spans@).len() == spans@.len());
    }
    let mut reps: Vec<Vec<char>> = Vec::new();
    let mut k: usize = 0;
    while k < spans.len()
        invariant
            k <= spans.len() == outcomes.len(),
            toks == tokens(s@, Shape::File),
            all == file_texts(s@, outcomes@),
            spans_view(spans@) == toks,
            forall|j: int| 0 <= j < toks.len() ==> {
                let t = #[trigger] toks[j];
                0 <= t.0 && t.0 + 10 <= t.1 <= s.len()
            },
            texts(reps@) == all.take(k as int),
        decreases spans.len() - k,
    {
        let text = file_replacement_at(s, spans, outcomes, k);
        let ghost before = texts(reps@);
        reps.push(text);
        proof {
            assert(texts(reps@) =~= before.push(text@));
            assert(all.take(k + 1) =~= all.take(k as int).push(all[k as int]));
        }
        k = k + 1;
    }
    assert(all.len() == toks.len());
    assert(all.take(k as int) =~= all);
    reps
}

/// Adds to `resolved_files` the paths of the file references at `spans`
/// whose file was read, the last reference first.
fn record_loaded_paths(
    s: &Vec<char>,
    spans: &Vec<(usize, usize)>,
    outcomes: &Vec<FileOutcome>,
    resolved_files: &mut Vec<String>,
)
    requires
        spans_view(spans@) == tokens(s@, Shape::File),
        outcomes.len() == tokens(s@, Shape::File).len(),
    ensures
        views(final(resolved_files)@) == views(old(resolved_files)@) + loaded_paths(
            s@,
            outcomes@,
            outcomes.len() as int,
        ),
{
    let ghost toks = tokens(s@, Shape::File);
    proof {
        lemma_tokens_ordered(s@, Shape::File);
        assert(spans_view(spans@).len() == spans@.len());
    }
    let ghost paths0 = views(resolved_files@);
    let mut k: usize = spans.len();
    while k > 0
        invariant
            k <= spans.len() == outcomes.len(),
            spans_view(spans@) == toks,
            toks == tokens(s@, Shape::File),
            forall|j: int| 0 <= j < toks.len() ==> {
                let t = #[trigger] toks[j];
                0 <= t.0 && t.0 + 10 <= t.1 <= s.len()
            },
            paths0 == views(old(resolved_files)@),
            views(resolved_files@) + loaded_paths(s@, outcomes@, k as int) == paths0
                + loaded_paths(s@, outcomes@, outcomes.len() as int),
        decreases k,
    {
        k = k - 1;
        let ghost before = views(resolved_files@);
        match &outcomes[k] {
            FileOutcome::Loaded(_) => {
                let (a, b) = spans[k];
                assert(toks[k as int] == (a as int, b as int));
                let path = substring(s, a + 7, b - 2);
                resolved_files.push(path);
                assert(views(resolved_files@) =~= before.push(path@));
                assert(loaded_paths(s@, outcomes@, k + 1) == seq![path@] + loaded_paths(
                    s@,
                    outcomes@,
                    k as int,
                ));
                assert(views(resolved_files@) + loaded_paths(s@, outcomes@, k as int) =~= before
                    + loaded_paths(s@, outcomes@, k + 1));
            },
            _ => {
                assert(loaded_paths(s@, outcomes@, k + 1) =~= loaded_paths(s@, outcomes@, k as int));
            },
        }
    }
    assert(views(resolved_files@) =~= views(resolved_files@) + loaded_paths(s@, outcomes@, 0));
}

/// The file pass: every file reference of `s` is replaced by the text of its
/// file or, where reading failed, by an error comment; `outcomes[k]` tells how
/// reading the file of the `k`-th reference went.  The paths of the files read
/// are added to `resolved_files`, the last reference first.
pub fn resolve_file_references(
    s: &Vec<char>,
    outcomes: &Vec<FileOutcome>,
    resolved_files: &mut Vec<String>,
) -> (r: Vec<char>)
    requires
        outcomes.len() == tokens(s@, Shape::File).len(),
    ensures
        r@ == inline_files(s@, outcomes@),
        views(final(resolved_files)@) == views(old(resolved_files)@) + loaded_paths(
            s@,
            outcomes@,
            outcomes.len() as int,
        ),
{
    let spans = scan(s, Shape::File);
    let reps = file_replacements(s, &spans, outcomes);
    record_loaded_paths(s, &spans, outcomes, resolved_files);
    proof {
        lemma_tokens_ordered(s@, Shape::File);
        assert(texts(reps@).len() == reps@.len());
        assert(spans_view(spans@).len() == spans@.len());
        assert(file_texts(s@, outcomes@).len() == tokens(s@, Shape::File).len());
    }
    splice_chars(s, &spans, &reps)
}

/// The text of `content` once file references, prompt references and,
/// where `outputs` gives how each command went, command placeholders are resolved.
pub open spec fn resolved_text(
    content: Seq<char>,
    prompts: Seq<(String, String)>,
    files: Seq<FileOutcome>,
    max_depth: nat,
) -> Seq<char> {
    expand_level(prompts, inline_files(content, files), Seq::empty(), max_depth, (Seq::empty(), false, false)).0
}

/// The trace of the prompt pass of a resolution.
pub open spec fn resolved_trace(
    content: Seq<char>,
    prompts: Seq<(String, String)>,
    files: Seq<FileOutcome>,
    max_depth: nat,
) -> Trace {
    expand_level(prompts, inline_files(content, files), Seq::empty(), max_depth, (Seq::empty(), false, false)).1
}

/// The texts that stand in for the commands of `s`, given how each went.
pub open spec fn command_texts(s: Seq<char>, outputs: Seq<Result<String, String>>) -> Seq<Seq<char>> {
    Seq::new(
        tokens(s, Shape::Command).len(),
        |k: int| command_text(outcome_view(outputs[k])),
    )
}

/// The command pass: every command placeholder of `s` replaced by the text for how it went.
pub open spec fn substitute_commands(s: Seq<char>, outputs: Seq<Result<String, String>>) -> Seq<char> {
    splice(s, tokens(s, Shape::Command), command_texts(s, outputs))
}

/// Resolves `content`: first every file reference is replaced by its file's
/// text or an error comment (`files[k]` tells how reading the file of the
/// `k`-th file reference went, the path taken relative to the caller's base
/// directory); then every prompt reference is expanded recursively from
/// `prompts` up to `options.max_depth` levels, a reference to a prompt being
/// expanded around it replaced by a cycle marker and an unknown one left as it
/// is; last the commands of the result are listed.  The commands are not run
/// here: the caller runs them, where it chooses to, and hands their outcomes
/// to `resolve_commands_in_content`.
pub fn resolve_prompt_with_base(
    content: &str,
    prompts: &[(String, String)],
    files: &Vec<FileOutcome>,
    options: &ResolveOptions,
) -> (r: ResolveResult)
    requires
        files.len() == tokens(content@, Shape::File).len(),
    ensures
        r.content@ == resolved_text(content@, prompts@, files@, options.max_depth as nat),
        views(r.references@) == resolved_trace(content@, prompts@, files@, options.max_depth as nat).0,
        r.had_circular_refs == resolved_trace(content@, prompts@, files@, options.max_depth as nat).1,
        r.max_depth_exceeded == resolved_trace(content@, prompts@, files@, options.max_depth as nat).2,
        views(r.file_references@) == loaded_paths(content@, files@, files.len() as int),
        views(r.commands@) == command_list(r.content@),
{
    let s = chars_of(content);
    let mut file_references: Vec<String> = Vec::new();
    let inlined = resolve_file_references(&s, files, &mut file_references);
    assert(views(file_references@) =~= loaded_paths(content@, files@, files.len() as int));
    let mut visited: Vec<String> = Vec::new();
    let mut references: Vec<String> = Vec::new();
    let mut had_circular_refs = false;
    let mut max_depth_exceeded = false;
    assert(views(visited@) =~= Seq::<Seq<char>>::empty());
    assert(views(references@) =~= Seq::<Seq<char>>::empty());
    let expanded = expand_level_exec(
        prompts,
        &inlined,
        &mut visited,
        options.max_depth,
        &mut references,
        &mut had_circular_refs,
        &mut max_depth_exceeded,
    );
    let text = string_of(&expanded);
    let found = find_commands(text.as_str());
    let mut commands: Vec<String> = Vec::new();
    let mut k: usize = 0;
    while k < found.len()
        invariant
            k <= found.len(),
            scanned_commands(found@, text@),
            commands.len() == k,
            forall|j: int| 0 <= j < k ==> (#[trigger] views(commands@)[j]) == command_list(text@)[j],
        decreases found.len() - k,
    {
        let ghost before = views(commands@);
        commands.push(found[k].command.clone());
        assert(views(commands@) =~= before.push(found@[k as int].command@));
        k = k + 1;
    }
    assert(views(commands@) =~= command_list(text@));
    ResolveResult {
        content: text,
        commands,
        references,
        file_references,
        had_circular_refs,
        max_depth_exceeded,
    }
}

/// Replaces every command placeholder of `content` by the text for how
/// running it went (`outputs[k]` for the `k`-th placeholder): its output
/// without trailing white space, or a `Command failed` comment.
pub fn resolve_commands_in_content(content: &str, outputs: &Vec<Result<String, String>>) -> (r: String)
    requires
        outputs.len() == tokens(content@, Shape::Command).len(),
    ensures
        r@ == substitute_commands(content@, outputs@),
{
    let s = chars_of(content);
    let spans = scan(&s, Shape::Command);
    proof {
        lemma_tokens_ordered(s@, Shape::Command);
        assert(spans_view(spans@).len() == spans@.len());
    }
    let mut reps: Vec<Vec<char>> = Vec::new();
    let mut k: usize = 0;
    while k < spans.len()
        invariant
            k <= spans.len() == outputs.len(),
            spans@.len() == tokens(s@, Shape::Command).len(),
            s@ == content@,
            reps.len() == k,
            forall|j: int| 0 <= j < k ==> (#[trigger] texts(reps@)[j]) == command_texts(s@, outputs@)[j],
        decreases spans.len() - k,
    {
        let text = execute_command_safe(&outputs[k]);
        let chars = chars_of(text.as_str());
        let ghost before = texts(reps@);
        reps.push(chars);
        assert(texts(reps@) =~= before.push(chars@));
        k = k + 1;
    }
    assert(texts(reps@) =~= command_texts(s@, outputs@));
    let out = splice_chars(&s, &spans, &reps);
    string_of(&out)
}

/// Whether `content` holds any prompt reference, file reference or command placeholder.
pub fn needs_resolution(content: &str) -> (r: bool)
    ensures
        r == (tokens(content@, Shape::Prompt).len() > 0 || tokens(content@, Shape::File).len() > 0
            || tokens(content@, Shape::Command).len() > 0),
{
    has_references(content) || has_file_references(content) || has_commands(content)
}

} // verus!
