//! Prompt references `[[name]]` and file references `[[file:path]]`.
use vstd::prelude::*;
use crate::scan::{body, lemma_tokens_well_formed, scan, spans_view, tokens, Shape};
use crate::text::{byte_offset, byte_offset_of, chars_of, substring};

verus! {

/// One occurrence of `[[name]]` in a text.
#[derive(Clone, Debug)]
pub struct Reference {
    /// The whole token, brackets included.
    pub full_match: String,
    /// The referenced prompt name.
    pub name: String,
    /// Byte offset of the token in the text.
    pub start: usize,
    /// Byte offset just after the token.
    pub end: usize,
    /// Whether the name belongs to a known prompt; set by validation.
    pub is_valid: bool,
    /// Whether this is a file reference; always false for a scanned `[[name]]`.
    pub is_file: bool,
}

/// One occurrence of `[[file:path]]` in a text.
#[derive(Clone, Debug)]
pub struct FileReference {
    /// The whole token, brackets included.
    pub full_match: String,
    /// The referenced path, as written.
    pub path: String,
    /// Byte offset of the token in the text.
    pub start: usize,
    /// Byte offset just after the token.
    pub end: usize,
    /// Whether the path names an existing regular file; set by validation.
    pub is_valid: bool,
}

/// `r` describes, unvalidated, the prompt reference of `s` at `span`.
pub open spec fn is_reference_at(r: Reference, s: Seq<char>, span: (int, int)) -> bool {
    &&& r.start == byte_offset(s, span.0)
    &&& r.end == byte_offset(s, span.1)
    &&& r.full_match@ == s.subrange(span.0, span.1)
    &&& r.name@ == body(s, Shape::Prompt, span)
    &&& !r.is_file
}

/// `r` describes, unvalidated, the file reference of `s` at `span`.
pub open spec fn is_file_reference_at(r: FileReference, s: Seq<char>, span: (int, int)) -> bool {
    &&& r.start == byte_offset(s, span.0)
    &&& r.end == byte_offset(s, span.1)
    &&& r.full_match@ == s.subrange(span.0, span.1)
    &&& r.path@ == body(s, Shape::File, span)
}

/// `refs` lists, in order, every prompt reference of `s`, each unvalidated.
pub open spec fn scanned_references(refs: Seq<Reference>, s: Seq<char>) -> bool {
    &&& refs.len() == tokens(s, Shape::Prompt).len()
    &&& forall|k: int|
        0 <= k < refs.len() ==> is_reference_at(#[trigger] refs[k], s, tokens(s, Shape::Prompt)[k])
}

/// `name` is one of `names`.
pub open spec fn names_contain(names: Seq<&str>, name: Seq<char>) -> bool {
    exists|k: int| 0 <= k < names.len() && (#[trigger] names[k])@ == name
}

/// Finds every prompt reference `[[name]]` of `content`, left to right; none is
/// marked valid.
pub fn find_references(content: &str) -> (r: Vec<Reference>)
    ensures
        scanned_references(r@, content@),
        forall|k: int| 0 <= k < r.len() ==> !(#[trigger] r@[k]).is_valid,
{
    let s = chars_of(content);
    let spans = scan(&s, Shape::Prompt);
    proof {
        lemma_tokens_well_formed(s@, Shape::Prompt, 0);
    }
    let mut out: Vec<Reference> = Vec::new();
    let mut k: usize = 0;
    while k < spans.len()
        invariant
            k <= spans.len(),
            s@ == content@,
            spans_view(spans@) == tokens(s@, Shape::Prompt),
            forall|j: int| 0 <= j < spans.len() ==> {
                let t = #[trigger] tokens(s@, Shape::Prompt)[j];
                0 <= t.0 && t.0 + 5 <= t.1 <= s.len()
            },
            out.len() == k,
            forall|j: int|
                0 <= j < k ==> is_reference_at(#[trigger] out@[j], s@, tokens(s@, Shape::Prompt)[j])
                    && !out@[j].is_valid,
        decreases spans.len() - k,
    {
        let (a, b) = spans[k];
        assert(tokens(s@, Shape::Prompt)[k as int] == (a as int, b as int));
        let reference = Reference {
            full_match: substring(&s, a, b),
            name: substring(&s, a + 2, b - 2),
            start: byte_offset_of(&s, a),
            end: byte_offset_of(&s, b),
            is_valid: false,
            is_file: false,
        };
        out.push(reference);
        k = k + 1;
    }
    out
}

/// Finds every file reference `[[file:path]]` of `content`, left to right; none
/// is marked valid.
pub fn find_file_references(content: &str) -> (r: Vec<FileReference>)
    ensures
        r.len() == tokens(content@, Shape::File).len(),
        forall|k: int|
            0 <= k < r.len() ==> is_file_reference_at(
                #[trigger] r@[k],
                content@,
                tokens(content@, Shape::File)[k],
            ) && !r@[k].is_valid,
{
    let s = chars_of(content);
    let spans = scan(&s, Shape::File);
    proof {
        lemma_tokens_well_formed(s@, Shape::File, 0);
    }
    let mut out: Vec<FileReference> = Vec::new();
    let mut k: usize = 0;
    while k < spans.len()
        invariant
            k <= spans.len(),
            s@ == content@,
            spans_view(spans@) == tokens(s@, Shape::File),
            forall|j: int| 0 <= j < spans.len() ==> {
                let t = #[trigger] tokens(s@, Shape::File)[j];
                0 <= t.0 && t.0 + 10 <= t.1 <= s.len()
            },
            out.len() == k,
            forall|j: int|
                0 <= j < k ==> is_file_reference_at(
                    #[trigger] out@[j],
                    s@,
                    tokens(s@, Shape::File)[j],
                ) && !out@[j].is_valid,
        decreases spans.len() - k,
    {
        let (a, b) = spans[k];
        assert(tokens(s@, Shape::File)[k as int] == (a as int, b as int));
        let reference = FileReference {
            full_match: substring(&s, a, b),
            path: substring(&s, a + 7, b - 2),
            start: byte_offset_of(&s, a),
            end: byte_offset_of(&s, b),
            is_valid: false,
        };
        out.push(reference);
        k = k + 1;
    }
    out
}

/// Whether `content` holds at least one prompt reference.
pub fn has_references(content: &str) -> (r: bool)
    ensures
        r == (tokens(content@, Shape::Prompt).len() > 0),
{
    let s = chars_of(content);
    let spans = scan(&s, Shape::Prompt);
    spans.len() > 0
}

/// Whether `content` holds at least one file reference.
pub fn has_file_references(content: &str) -> (r: bool)
    ensures
        r == (tokens(content@, Shape::File).len() > 0),
{
    let s = chars_of(content);
    let spans = scan(&s, Shape::File);
    spans.len() > 0
}

/// Whether `name` is one of `names`.
pub(crate) fn is_known_name(name: &String, names: &[&str]) -> (r: bool)
    ensures
        r == names_contain(names@, name@),
{
    let mut k: usize = 0;
    while k < names.len()
        invariant
            k <= names.len(),
            forall|j: int| 0 <= j < k ==> (#[trigger] names@[j])@ != name@,
        decreases names.len() - k,
    {
        let candidate: String = names[k].to_owned();
        if candidate == *name {
            return true;
        }
        k = k + 1;
    }
    false
}

/// Marks `reference` valid exactly when its name is one of `existing_names`.
pub fn validate_reference(reference: &mut Reference, existing_names: &[&str])
    ensures
        final(reference).is_valid == names_contain(existing_names@, old(reference).name@),
        final(reference).full_match == old(reference).full_match,
        final(reference).name == old(reference).name,
        final(reference).start == old(reference).start,
        final(reference).end == old(reference).end,
        final(reference).is_file == old(reference).is_file,
{
    reference.is_valid = is_known_name(&reference.name, existing_names);
}

/// Finds every prompt reference of `content`, each marked valid exactly when
/// its name is one of `existing_names`.
pub fn find_and_validate_references(content: &str, existing_names: &[&str]) -> (r: Vec<Reference>)
    ensures
        scanned_references(r@, content@),
        forall|k: int|
            0 <= k < r.len() ==> (#[trigger] r@[k]).is_valid == names_contain(
                existing_names@,
                r@[k].name@,
            ),
{
    let refs = find_references(content);
    let mut out: Vec<Reference> = Vec::new();
    let mut k: usize = 0;
    while k < refs.len()
        invariant
            k <= refs.len(),
            scanned_references(refs@, content@),
            out.len() == k,
            forall|j: int|
                0 <= j < k ==> is_reference_at(
                    #[trigger] out@[j],
                    content@,
                    tokens(content@, Shape::Prompt)[j],
                ) && out@[j].is_valid == names_contain(existing_names@, out@[j].name@),
        decreases refs.len() - k,
    {
        let found = &refs[k];
        let reference = Reference {
            full_match: found.full_match.clone(),
            name: found.name.clone(),
            start: found.start,
            end: found.end,
            is_valid: is_known_name(&found.name, existing_names),
            is_file: found.is_file,
        };
        out.push(reference);
        k = k + 1;
    }
    out
}

} // verus!
