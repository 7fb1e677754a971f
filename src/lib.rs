//! Prompt composition: scanning prompt text for references, file inclusions
//! and shell-command placeholders, and expanding them, together with the
//! small models of the application around it.

pub mod action;
pub mod commands;
pub mod config;
pub mod error;
pub mod index;
pub mod io_messages;
pub mod mode;
pub mod naming;
pub mod prompt;
pub mod prompt_file;
pub mod references;
pub mod resolver;
pub mod scan;
pub mod splice;
pub mod state;
pub mod text;
pub mod theorems;

pub use action::Action;
pub use commands::{execute_command_safe, find_commands, has_commands, ShellCommand};
pub use config::Config;
pub use error::PiemmeError;
pub use index::{Index, IndexEntry};
pub use io_messages::{format_io_error, IoErrorKind, Target};
pub use mode::{EditorMode, Mode};
pub use naming::{generate_name_from_content, make_unique_name};
pub use prompt::{create_new_prompt, Prompt};
pub use prompt_file::{parse_frontmatter, FrontmatterError};
pub use references::{
    find_and_validate_references, find_file_references, find_references, has_file_references,
    has_references, validate_reference, FileReference, Reference,
};
pub use resolver::{
    needs_resolution, resolve_commands_in_content, resolve_file_references,
    resolve_prompt_with_base, FileOutcome, ResolveOptions, ResolveResult,
};
pub use state::{AppState, ConfirmDialog, Notification, NotificationLevel, PendingAction, PopupType};
