//! Notifications, popups and confirmation dialogs of the application state.
use vstd::prelude::*;
use crate::mode::Mode;
use crate::prompt::Prompt;

verus! {

/// A message shown to the user.
#[derive(Clone, Debug)]
pub struct Notification {
    /// The text of the message.
    pub message: String,
    /// How serious it is.
    pub level: NotificationLevel,
}

/// How serious a notification is.
#[derive(Clone, Copy, PartialEq, Eq, Debug)]
pub enum NotificationLevel {
    Info,
    Success,
    Warning,
    Error,
}

/// The popups and overlays.
#[derive(Clone, PartialEq, Eq, Debug)]
pub enum PopupType {
    /// A confirmation dialog.
    Confirm { message: String },
    /// The tag selector.
    TagSelector,
    /// The folder selector.
    FolderSelector,
    /// The rename input.
    RenameInput,
    /// The search overlay.
    Search,
    /// The export options.
    Export,
    /// Confirmation before running commands.
    CommandConfirm { commands: Vec<String> },
}

/// Actions that wait for the user's confirmation.
#[derive(Clone, PartialEq, Eq, Debug)]
pub enum PendingAction {
    /// Delete the prompt of that name.
    DeletePrompt { name: String },
    /// Delete the archived prompt of that name for good.
    PermanentDelete { name: String },
    /// Run these commands.
    ExecuteCommands { commands: Vec<String> },
}

/// The state of a confirmation dialog.
#[derive(Clone, Debug)]
pub struct ConfirmDialog {
    /// The title of the dialog.
    pub title: String,
    /// The message shown.
    pub message: String,
    /// Whether "Yes" is selected rather than "No".
    pub yes_selected: bool,
    /// What runs once confirmed.
    pub pending_action: PendingAction,
}

impl ConfirmDialog {
    /// A dialog with "No" selected, so that a stray key press confirms nothing.
    pub fn new(title: String, message: String, action: PendingAction) -> (r: Self)
        ensures
            r.title == title,
            r.message == message,
            !r.yes_selected,
            r.pending_action == action,
    {
        ConfirmDialog { title, message, yes_selected: false, pending_action: action }
    }

    /// Moves the selection between "Yes" and "No".
    pub fn toggle_selection(&mut self)
        ensures
            final(self).yes_selected == !old(self).yes_selected,
            final(self).title == old(self).title,
            final(self).message == old(self).message,
            final(self).pending_action == old(self).pending_action,
    {
        self.yes_selected = !self.yes_selected;
    }
}

/// The complete state of the application.
#[derive(Debug)]
pub struct AppState {
    /// The current mode.
    pub mode: Mode,
    /// The prompts of the current view.
    pub prompts: Vec<Prompt>,
    /// The position of the selected prompt.
    pub selected_index: usize,
    /// The folder shown; `None` for the main list.
    pub current_folder: Option<String>,
    /// The tag the list is filtered by, if any.
    pub tag_filter: Option<String>,
    /// All known tags.
    pub all_tags: Vec<String>,
    /// Whether commands are confirmed before they run.
    pub safe_mode: bool,
    /// Whether the application is to quit.
    pub should_quit: bool,
    /// Whether there are unsaved changes.
    pub has_unsaved_changes: bool,
    /// The message shown, if any.
    pub notification: Option<Notification>,
    /// Whether the help overlay is shown.
    pub show_help: bool,
    /// The popup shown, if any.
    pub active_popup: Option<PopupType>,
    /// Whether the editor has the focus rather than the list.
    pub editor_focused: bool,
    /// Text typed into a rename popup.
    pub input_buffer: String,
    /// The first list position on screen.
    pub list_scroll_offset: usize,
    /// The confirmation dialog shown, if any.
    pub confirm_dialog: Option<ConfirmDialog>,
    /// The text being edited, in insert mode.
    pub editor_content: Option<String>,
    /// The first editor line on screen.
    pub editor_scroll_offset: usize,
}

/// The selection after moving down one place in a list of `len` prompts.
pub open spec fn next_index(selected: usize, len: nat) -> usize {
    if len == 0 {
        selected
    } else if selected + 1 < len {
        (selected + 1) as usize
    } else {
        (len - 1) as usize
    }
}

/// The list scroll offset that keeps `selected` on a screen of `height`
/// rows, moving the view as little as possible.
pub open spec fn visible_offset(selected: usize, offset: usize, height: usize) -> usize {
    if height == 0 {
        offset
    } else {
        let up = if selected < offset { selected } else { offset };
        if selected >= up + height {
            (selected - height + 1) as usize
        } else {
            up
        }
    }
}

impl AppState {
    /// The state at start: normal mode, no prompts, safe mode on, nothing shown.
    pub fn new() -> (r: Self)
        ensures
            r.mode == Mode::Normal,
            r.prompts@.len() == 0,
            r.selected_index == 0,
            r.current_folder is None,
            r.tag_filter is None,
            r.all_tags@.len() == 0,
            r.safe_mode,
            !r.should_quit,
            !r.has_unsaved_changes,
            r.notification is None,
            !r.show_help,
            r.active_popup is None,
            !r.editor_focused,
            r.input_buffer@.len() == 0,
            r.list_scroll_offset == 0,
            r.confirm_dialog is None,
            r.editor_content is None,
            r.editor_scroll_offset == 0,
    {
        AppState {
            mode: Mode::Normal,
            prompts: Vec::new(),
            selected_index: 0,
            current_folder: None,
            tag_filter: None,
            all_tags: Vec::new(),
            safe_mode: true,
            should_quit: false,
            has_unsaved_changes: false,
            notification: None,
            show_help: false,
            active_popup: None,
            editor_focused: false,
            input_buffer: String::new(),
            list_scroll_offset: 0,
            confirm_dialog: None,
            editor_content: None,
            editor_scroll_offset: 0,
        }
    }

    /// The selected prompt, if the selection is on one.
    pub fn selected_prompt(&self) -> (r: Option<&Prompt>)
        ensures
            self.selected_index < self.prompts.len() ==> r == Some(&self.prompts@[self.selected_index as int]),
            self.selected_index >= self.prompts.len() ==> r is None,
    {
        if self.selected_index < self.prompts.len() {
            Some(&self.prompts[self.selected_index])
        } else {
            None
        }
    }

    /// Moves the selection down one place, stopping at the last prompt.
    pub fn select_next(&mut self)
        ensures
            *final(self) == (AppState {
                selected_index: next_index(old(self).selected_index, old(self).prompts.len() as nat),
                ..*old(self)
            }),
    {
        let len = self.prompts.len();
        if len > 0 {
            if self.selected_index < len - 1 {
                self.selected_index = self.selected_index + 1;
            } else {
                self.selected_index = len - 1;
            }
        }
    }

    /// Moves the selection up one place, stopping at the first prompt.
    pub fn select_previous(&mut self)
        ensures
            *final(self) == (AppState {
                selected_index: if old(self).selected_index > 0 {
                    (old(self).selected_index - 1) as usize
                } else {
                    0
                },
                ..*old(self)
            }),
    {
        if self.selected_index > 0 {
            self.selected_index = self.selected_index - 1;
        }
    }

    /// Selects the first prompt and scrolls the list to the top.
    pub fn select_first(&mut self)
        ensures
            *final(self) == (AppState { selected_index: 0, list_scroll_offset: 0, ..*old(self) }),
    {
        self.selected_index = 0;
        self.list_scroll_offset = 0;
    }

    /// Selects the last prompt, if there is one.
    pub fn select_last(&mut self)
        ensures
            *final(self) == (AppState {
                selected_index: if old(self).prompts.len() > 0 {
                    (old(self).prompts.len() - 1) as usize
                } else {
                    old(self).selected_index
                },
                ..*old(self)
            }),
    {
        if self.prompts.len() > 0 {
            self.selected_index = self.prompts.len() - 1;
        }
    }

    /// Scrolls the list so that the selection is on a screen of `visible_height` rows.
    pub fn ensure_visible(&mut self, visible_height: usize)
        ensures
            *final(self) == (AppState {
                list_scroll_offset: visible_offset(
                    old(self).selected_index,
                    old(self).list_scroll_offset,
                    visible_height,
                ),
                ..*old(self)
            }),
    {
        if visible_height == 0 {
            return;
        }
        if self.selected_index < self.list_scroll_offset {
            self.list_scroll_offset = self.selected_index;
        }
        if self.selected_index >= self.list_scroll_offset && self.selected_index
            - self.list_scroll_offset >= visible_height {
            self.list_scroll_offset = self.selected_index - visible_height + 1;
        }
    }

    /// Shows `message` at the given level.
    pub fn notify(&mut self, message: String, level: NotificationLevel)
        ensures
            *final(self) == (AppState {
                notification: Some(Notification { message, level }),
                ..*old(self)
            }),
    {
        self.notification = Some(Notification { message, level });
    }

    /// Removes the message shown.
    pub fn clear_notification(&mut self)
        ensures
            *final(self) == (AppState { notification: None, ..*old(self) }),
    {
        self.notification = None;
    }

    /// The number of prompts in view.
    pub fn prompt_count(&self) -> (r: usize)
        ensures
            r == self.prompts.len(),
    {
        self.prompts.len()
    }

    /// Whether any prompt is in view.
    pub fn has_prompts(&self) -> (r: bool)
        ensures
            r == (self.prompts.len() > 0),
    {
        self.prompts.len() > 0
    }

    /// Starts editing the selected prompt: its content goes to the editor,
    /// scrolled to the top.  Nothing changes when no prompt is selected.
    pub fn start_editing(&mut self)
        ensures
            old(self).selected_index < old(self).prompts.len() ==> (final(self).editor_content
                matches Some(text) && text@ == old(self).prompts@[old(self).selected_index as int].content@
                && final(self).editor_scroll_offset == 0),
            old(self).selected_index >= old(self).prompts.len() ==> *final(self) == *old(self),
            final(self).prompts == old(self).prompts,
            final(self).selected_index == old(self).selected_index,
            final(self).mode == old(self).mode,
    {
        if self.selected_index < self.prompts.len() {
            let text = self.prompts[self.selected_index].content.clone();
            self.editor_content = Some(text);
            self.editor_scroll_offset = 0;
        }
    }

    /// Stops editing and hands back the edited text, if any.
    pub fn stop_editing(&mut self) -> (r: Option<String>)
        ensures
            r == old(self).editor_content,
            *final(self) == (AppState { editor_content: None, ..*old(self) }),
    {
        self.editor_content.take()
    }

    /// The text being edited, if any.
    pub fn get_editor_content(&self) -> (r: Option<&str>)
        ensures
            match self.editor_content {
                Some(text) => (r matches Some(s) && s@ == text@),
                None => r is None,
            },
    {
        match &self.editor_content {
            Some(text) => Some(text.as_str()),
            None => None,
        }
    }

    /// Scrolls the editor up `n` lines, stopping at the top.
    pub fn scroll_editor_up(&mut self, n: usize)
        ensures
            *final(self) == (AppState {
                editor_scroll_offset: if old(self).editor_scroll_offset >= n {
                    (old(self).editor_scroll_offset - n) as usize
                } else {
                    0
                },
                ..*old(self)
            }),
    {
        if self.editor_scroll_offset >= n {
            self.editor_scroll_offset = self.editor_scroll_offset - n;
        } else {
            self.editor_scroll_offset = 0;
        }
    }

    /// Scrolls the editor down `n` lines, so that the last of `max_lines`
    /// lines stays at the bottom of a screen of `visible_height` lines at most.
    pub fn scroll_editor_down(&mut self, n: usize, max_lines: usize, visible_height: usize)
        ensures
            ({
                let max_scroll: int = if max_lines >= visible_height {
                    max_lines - visible_height
                } else {
                    0
                };
                let wanted: int = old(self).editor_scroll_offset + n;
                *final(self) == (AppState {
                    editor_scroll_offset: (if wanted < max_scroll { wanted } else { max_scroll }) as usize,
                    ..*old(self)
                })
            }),
    {
        let max_scroll: usize = if max_lines >= visible_height {
            max_lines - visible_height
        } else {
            0
        };
        if self.editor_scroll_offset < max_scroll && n < max_scroll - self.editor_scroll_offset {
            self.editor_scroll_offset = self.editor_scroll_offset + n;
        } else {
            self.editor_scroll_offset = max_scroll;
        }
    }
}

impl Default for AppState {
    fn default() -> (r: Self)
        ensures
            r.mode == Mode::Normal,
            r.prompts@.len() == 0,
            r.selected_index == 0,
            r.safe_mode,
    {
        AppState::new()
    }
}

} // verus!
