//! Shell-command placeholders `{{command}}`.
use vstd::prelude::*;
use crate::scan::{body, lemma_tokens_well_formed, scan, spans_view, tokens, Shape};
use crate::text::{
    append_chars, byte_offset, byte_offset_of, chars_of, string_of, substring, trim_end_text,
    trim_text, trimmed, trimmed_end,
};

verus! {

/// One occurrence of `{{command}}` in a text.
#[derive(Clone, Debug)]
pub struct ShellCommand {
    /// The whole token, braces included.
    pub full_match: String,
    /// The command between the braces, without surrounding white space.
    pub command: String,
    /// Byte offset of the token in the text.
    pub start: usize,
    /// Byte offset just after the token.
    pub end: usize,
}

/// `c` describes the command token of `s` at `span`.
pub open spec fn is_command_at(c: ShellCommand, s: Seq<char>, span: (int, int)) -> bool {
    &&& c.start == byte_offset(s, span.0)
    &&& c.end == byte_offset(s, span.1)
    &&& c.full_match@ == s.subrange(span.0, span.1)
    &&& c.command@ == trimmed(body(s, Shape::Command, span))
}

/// `cmds` lists, in order, every command token of `s`.
pub open spec fn scanned_commands(cmds: Seq<ShellCommand>, s: Seq<char>) -> bool {
    &&& cmds.len() == tokens(s, Shape::Command).len()
    &&& forall|k: int|
        0 <= k < cmds.len() ==> is_command_at(#[trigger] cmds[k], s, tokens(s, Shape::Command)[k])
}

/// The text that stands in for a command, given how running it went: its
/// output without trailing white space, or a comment that carries the error.
pub open spec fn command_text(outcome: Result<Seq<char>, Seq<char>>) -> Seq<char> {
    match outcome {
        Ok(out) => trimmed_end(out),
        Err(e) => "<!-- Command failed: "@ + e + " -->"@,
    }
}

/// How running a command went, seen as character sequences.
pub open spec fn outcome_view(outcome: Result<String, String>) -> Result<Seq<char>, Seq<char>> {
    match outcome {
        Ok(out) => Ok(out@),
        Err(e) => Err(e@),
    }
}

/// The commands of the command tokens of `s`, in order, each trimmed.
pub open spec fn command_list(s: Seq<char>) -> Seq<Seq<char>> {
    Seq::new(
        tokens(s, Shape::Command).len(),
        |k: int| trimmed(body(s, Shape::Command, tokens(s, Shape::Command)[k])),
    )
}

/// Finds every command token `{{command}}` of `content`, left to right.
pub fn find_commands(content: &str) -> (r: Vec<ShellCommand>)
    ensures
        scanned_commands(r@, content@),
{
    let s = chars_of(content);
    let spans = scan(&s, Shape::Command);
    proof {
        lemma_tokens_well_formed(s@, Shape::Command, 0);
    }
    let mut out: Vec<ShellCommand> = Vec::new();
    let mut k: usize = 0;
    while k < spans.len()
        invariant
            k <= spans.len(),
            s@ == content@,
            spans_view(spans@) == tokens(s@, Shape::Command),
            forall|j: int| 0 <= j < spans.len() ==> {
                let t = #[trigger] tokens(s@, Shape::Command)[j];
                0 <= t.0 && t.0 + 5 <= t.1 <= s.len()
            },
            out.len() == k,
            forall|j: int|
                0 <= j < k ==> is_command_at(#[trigger] out@[j], s@, tokens(s@, Shape::Command)[j]),
        decreases spans.len() - k,
    {
        let (a, b) = spans[k];
        assert(tokens(s@, Shape::Command)[k as int] == (a as int, b as int));
        let inner = substring(&s, a + 2, b - 2);
        let command = ShellCommand {
            full_match: substring(&s, a, b),
            command: trim_text(inner.as_str()),
            start: byte_offset_of(&s, a),
            end: byte_offset_of(&s, b),
        };
        out.push(command);
        k = k + 1;
    }
    out
}

/// Whether `content` holds at least one command token.
pub fn has_commands(content: &str) -> (r: bool)
    ensures
        r == (tokens(content@, Shape::Command).len() > 0),
{
    let s = chars_of(content);
    let spans = scan(&s, Shape::Command);
    spans.len() > 0
}

/// The text that stands in for a command once it has run: on success its
/// output without trailing white space, on failure the comment
/// `<!-- Command failed: {error} -->`.
pub fn execute_command_safe(outcome: &Result<String, String>) -> (r: String)
    ensures
        r@ == command_text(outcome_view(*outcome)),
{
    match outcome {
        Ok(out) => trim_end_text(out.as_str()),
        Err(e) => {
            let mut v = chars_of("<!-- Command failed: ");
            let msg = chars_of(e.as_str());
            append_chars(&mut v, &msg);
            let tail = chars_of(" -->");
            append_chars(&mut v, &tail);
            string_of(&v)
        },
    }
}

} // verus!
