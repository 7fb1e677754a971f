//! Errors of the application.
use vstd::prelude::*;

verus! {

/// What can go wrong in the application; each variant carries its detail.
#[derive(Clone, PartialEq, Eq, Debug)]
pub enum PiemmeError {
    /// The configuration could not be used.
    Config(String),
    /// A file-system operation failed.
    FileSystem(String),
    /// No prompt has that name.
    PromptNotFound(String),
    /// The name cannot name a prompt.
    InvalidPromptName(String),
    /// Another prompt already has that name.
    DuplicateName(String),
    /// A reference cycle through that prompt.
    CircularReference(String),
    /// References nest deeper than allowed.
    MaxDepthExceeded,
    /// A command failed.
    CommandExecution(String),
    /// The clipboard could not be used.
    Clipboard(String),
    /// A YAML document could not be parsed.
    YamlParse(String),
    /// An I/O error, by its message.
    Io(String),
}

} // verus!
