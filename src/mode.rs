//! Application modes.
use vstd::prelude::*;

verus! {

/// The modes the application can be in.
#[derive(Clone, Copy, PartialEq, Eq, Debug, Default)]
pub enum Mode {
    /// Navigate prompts and run actions.
    #[default]
    Normal,
    /// Edit prompt content.
    Insert,
    /// View archived prompts.
    Archive,
    /// View the prompts of a folder.
    Folder,
    /// View the resolved output of a prompt.
    Preview,
}

/// The editor sub-mode while in insert mode, in the manner of Vim.
#[derive(Clone, Copy, PartialEq, Eq, Debug, Default)]
pub enum EditorMode {
    /// Move within the editor and use commands.
    #[default]
    VimNormal,
    /// Type text.
    VimInsert,
    /// Select characters.
    VimVisual,
    /// Select whole lines.
    VimVisualLine,
}

/// The label shown for an editor mode.
pub open spec fn editor_mode_label(m: EditorMode) -> Seq<char> {
    match m {
        EditorMode::VimNormal => "NORMAL"@,
        EditorMode::VimInsert => "INSERT"@,
        EditorMode::VimVisual => "VISUAL"@,
        EditorMode::VimVisualLine => "V-LINE"@,
    }
}

/// The label shown for a mode.
pub open spec fn mode_label(m: Mode) -> Seq<char> {
    match m {
        Mode::Normal => "NORMAL"@,
        Mode::Insert => "INSERT"@,
        Mode::Archive => "ARCHIVE"@,
        Mode::Folder => "FOLDER"@,
        Mode::Preview => "PREVIEW"@,
    }
}

impl EditorMode {
    /// The label shown for this editor mode.
    pub fn as_str(&self) -> (r: &'static str)
        ensures
            r@ == editor_mode_label(*self),
    {
        match self {
            EditorMode::VimNormal => "NORMAL",
            EditorMode::VimInsert => "INSERT",
            EditorMode::VimVisual => "VISUAL",
            EditorMode::VimVisualLine => "V-LINE",
        }
    }

    /// Whether typing inserts text.
    pub fn allows_text_input(&self) -> (r: bool)
        ensures
            r == (*self == EditorMode::VimInsert),
    {
        matches!(self, EditorMode::VimInsert)
    }

    /// Whether this is a selection mode.
    pub fn is_visual(&self) -> (r: bool)
        ensures
            r == (*self == EditorMode::VimVisual || *self == EditorMode::VimVisualLine),
    {
        matches!(self, EditorMode::VimVisual | EditorMode::VimVisualLine)
    }
}

impl Mode {
    /// The label shown for this mode.
    pub fn as_str(&self) -> (r: &'static str)
        ensures
            r@ == mode_label(*self),
    {
        match self {
            Mode::Normal => "NORMAL",
            Mode::Insert => "INSERT",
            Mode::Archive => "ARCHIVE",
            Mode::Folder => "FOLDER",
            Mode::Preview => "PREVIEW",
        }
    }

    /// Whether prompts can be edited in this mode.
    pub fn is_editable(&self) -> (r: bool)
        ensures
            r == (*self == Mode::Insert),
    {
        matches!(self, Mode::Insert)
    }

    /// Whether this mode only views prompts.
    pub fn is_read_only(&self) -> (r: bool)
        ensures
            r == (*self == Mode::Normal || *self == Mode::Archive || *self == Mode::Preview),
    {
        matches!(self, Mode::Normal | Mode::Archive | Mode::Preview)
    }
}

} // verus!
