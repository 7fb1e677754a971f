//! User-facing messages for failed file-system operations.
use vstd::prelude::*;
use crate::text::{append_chars, chars_of, string_of};

verus! {

/// The kinds of I/O failure that get a message of their own.
#[derive(Clone, Copy, PartialEq, Eq, Debug)]
pub enum IoErrorKind {
    PermissionDenied,
    NotFound,
    AlreadyExists,
    InvalidInput,
    /// The storage or the quota is full.
    StorageFull,
    Other,
}

/// What the failed operation was working on.
#[derive(Clone, Copy, PartialEq, Eq, Debug)]
pub enum Target {
    Directory,
    File,
}

/// The message for an operation `operation` on `path` that failed with
/// `kind`; `detail` is the system's own description of the error.
pub open spec fn io_message(
    kind: IoErrorKind,
    target: Target,
    path: Seq<char>,
    operation: Seq<char>,
    detail: Seq<char>,
) -> Seq<char> {
    let quoted = "'"@ + path + "'"@;
    let general = "Failed to "@ + operation + " "@ + quoted + ": "@ + detail;
    match (kind, target) {
        (IoErrorKind::PermissionDenied, Target::Directory) => "Permission denied: Cannot "@
            + operation + " "@ + quoted + ". Check directory permissions."@,
        (IoErrorKind::PermissionDenied, Target::File) => "Permission denied: Cannot "@ + operation
            + " "@ + quoted + ". Check file/directory permissions."@,
        (IoErrorKind::NotFound, Target::Directory) => "Directory not found: "@ + quoted,
        (IoErrorKind::NotFound, Target::File) => "File not found: "@ + quoted,
        (IoErrorKind::AlreadyExists, Target::Directory) => "Directory already exists: "@ + quoted,
        (IoErrorKind::AlreadyExists, Target::File) => "File already exists: "@ + quoted,
        (IoErrorKind::InvalidInput, Target::File) => "Invalid file name or path: "@ + quoted,
        (IoErrorKind::StorageFull, Target::File) => "Disk full: Cannot "@ + operation + " "@ + quoted,
        _ => general,
    }
}

/// Appends the characters of `s` to `v`.
fn push_str(v: &mut Vec<char>, s: &str)
    ensures
        final(v)@ == old(v)@ + s@,
{
    let chars = chars_of(s);
    append_chars(v, &chars);
}

/// A user-facing message for an operation `operation` on `path` that failed
/// with `kind`; `detail` is the system's description of the error.
pub fn format_io_error(
    kind: IoErrorKind,
    target: Target,
    path: &str,
    operation: &str,
    detail: &str,
) -> (r: String)
    ensures
        r@ == io_message(kind, target, path@, operation@, detail@),
{
    let mut v: Vec<char> = Vec::new();
    match (kind, target) {
        (IoErrorKind::PermissionDenied, _) => {
            push_str(&mut v, "Permission denied: Cannot ");
            push_str(&mut v, operation);
            push_str(&mut v, " '");
            push_str(&mut v, path);
            match target {
                Target::Directory => push_str(&mut v, "'. Check directory permissions."),
                Target::File => push_str(&mut v, "'. Check file/directory permissions."),
            }
        },
        (IoErrorKind::NotFound, Target::Directory) => {
            push_str(&mut v, "Directory not found: '");
            push_str(&mut v, path);
            push_str(&mut v, "'");
        },
        (IoErrorKind::NotFound, Target::File) => {
            push_str(&mut v, "File not found: '");
            push_str(&mut v, path);
            push_str(&mut v, "'");
        },
        (IoErrorKind::AlreadyExists, Target::Directory) => {
            push_str(&mut v, "Directory already exists: '");
            push_str(&mut v, path);
            push_str(&mut v, "'");
        },
        (IoErrorKind::AlreadyExists, Target::File) => {
            push_str(&mut v, "File already exists: '");
            push_str(&mut v, path);
            push_str(&mut v, "'");
        },
        (IoErrorKind::InvalidInput, Target::File) => {
            push_str(&mut v, "Invalid file name or path: '");
            push_str(&mut v, path);
            push_str(&mut v, "'");
        },
        (IoErrorKind::StorageFull, Target::File) => {
            push_str(&mut v, "Disk full: Cannot ");
            push_str(&mut v, operation);
            push_str(&mut v, " '");
            push_str(&mut v, path);
            push_str(&mut v, "'");
        },
        _ => {
            push_str(&mut v, "Failed to ");
            push_str(&mut v, operation);
            push_str(&mut v, " '");
            push_str(&mut v, path);
            push_str(&mut v, "': ");
            push_str(&mut v, detail);
        },
    }
    proof {
        reveal_strlit("'");
        reveal_strlit(" '");
        reveal_strlit(" ");
        reveal_strlit("': ");
        reveal_strlit(": ");
        reveal_strlit("'. Check directory permissions.");
        reveal_strlit(". Check directory permissions.");
        reveal_strlit("'. Check file/directory permissions.");
        reveal_strlit(". Check file/directory permissions.");
        reveal_strlit("Directory not found: '");
        reveal_strlit("Directory not found: ");
        reveal_strlit("File not found: '");
        reveal_strlit("File not found: ");
        reveal_strlit("Directory already exists: '");
        reveal_strlit("Directory already exists: ");
        reveal_strlit("File already exists: '");
        reveal_strlit("File already exists: ");
        reveal_strlit("Invalid file name or path: '");
        reveal_strlit("Invalid file name or path: ");
        assert(v@ =~= io_message(kind, target, path@, operation@, detail@));
    }
    string_of(&v)
}

} // verus!
