use piemme::{format_io_error, Action, ConfirmDialog, EditorMode, IoErrorKind, Mode, PendingAction, Target};

#[test]
fn test_mode_as_str() {
    assert_eq!(Mode::Normal.as_str(), "NORMAL");
    assert_eq!(Mode::Insert.as_str(), "INSERT");
    assert_eq!(Mode::Archive.as_str(), "ARCHIVE");
    assert_eq!(Mode::Folder.as_str(), "FOLDER");
    assert_eq!(Mode::Preview.as_str(), "PREVIEW");
}

#[test]
fn test_mode_is_editable() {
    assert!(!Mode::Normal.is_editable());
    assert!(Mode::Insert.is_editable());
    assert!(!Mode::Archive.is_editable());
    assert!(!Mode::Preview.is_editable());
}

#[test]
fn test_mode_is_read_only() {
    assert!(Mode::Normal.is_read_only());
    assert!(!Mode::Insert.is_read_only());
    assert!(Mode::Archive.is_read_only());
    assert!(Mode::Preview.is_read_only());
}

#[test]
fn folder_mode_is_neither() {
    assert!(!Mode::Folder.is_read_only());
    assert!(!Mode::Folder.is_editable());
    assert_eq!(Mode::default(), Mode::Normal);
}

#[test]
fn editor_modes() {
    assert_eq!(EditorMode::VimNormal.as_str(), "NORMAL");
    assert_eq!(EditorMode::VimInsert.as_str(), "INSERT");
    assert_eq!(EditorMode::VimVisual.as_str(), "VISUAL");
    assert_eq!(EditorMode::VimVisualLine.as_str(), "V-LINE");
    assert!(EditorMode::VimInsert.allows_text_input());
    assert!(!EditorMode::VimVisual.allows_text_input());
    assert!(EditorMode::VimVisual.is_visual());
    assert!(EditorMode::VimVisualLine.is_visual());
    assert!(!EditorMode::VimNormal.is_visual());
}

#[test]
fn actions_needing_confirmation() {
    assert!(Action::DeletePrompt.requires_confirmation());
    assert!(Action::Quit.requires_confirmation());
    assert!(Action::ArchivePrompt.requires_confirmation());
    assert!(!Action::UnarchivePrompt.requires_confirmation());
    assert!(!Action::MoveDown.requires_confirmation());
}

#[test]
fn destructive_actions() {
    assert!(Action::DeletePrompt.is_destructive());
    assert!(Action::ArchivePrompt.is_destructive());
    assert!(Action::UnarchivePrompt.is_destructive());
    assert!(!Action::Quit.is_destructive());
    assert!(!Action::NoAction.is_destructive());
}

#[test]
fn confirm_dialog_defaults_to_no_and_toggles() {
    let mut dialog = ConfirmDialog::new(
        "Delete".to_string(),
        "Delete it?".to_string(),
        PendingAction::DeletePrompt { name: "x".to_string() },
    );
    assert!(!dialog.yes_selected);
    dialog.toggle_selection();
    assert!(dialog.yes_selected);
    dialog.toggle_selection();
    assert!(!dialog.yes_selected);
    assert_eq!(dialog.title, "Delete");
    assert_eq!(dialog.pending_action, PendingAction::DeletePrompt { name: "x".to_string() });
}

#[test]
fn io_messages_by_kind() {
    assert_eq!(
        format_io_error(IoErrorKind::PermissionDenied, Target::Directory, "/x", "create", "denied"),
        "Permission denied: Cannot create '/x'. Check directory permissions."
    );
    assert_eq!(
        format_io_error(IoErrorKind::PermissionDenied, Target::File, "a.md", "write", "denied"),
        "Permission denied: Cannot write 'a.md'. Check file/directory permissions."
    );
    assert_eq!(
        format_io_error(IoErrorKind::NotFound, Target::Directory, "/x", "read", "gone"),
        "Directory not found: '/x'"
    );
    assert_eq!(
        format_io_error(IoErrorKind::NotFound, Target::File, "a.md", "read", "gone"),
        "File not found: 'a.md'"
    );
    assert_eq!(
        format_io_error(IoErrorKind::AlreadyExists, Target::File, "a.md", "write", "x"),
        "File already exists: 'a.md'"
    );
    assert_eq!(
        format_io_error(IoErrorKind::StorageFull, Target::File, "a.md", "write", "x"),
        "Disk full: Cannot write 'a.md'"
    );
    assert_eq!(
        format_io_error(IoErrorKind::StorageFull, Target::Directory, "/x", "create", "no space"),
        "Failed to create '/x': no space"
    );
    assert_eq!(
        format_io_error(IoErrorKind::InvalidInput, Target::File, "a\0", "write", "x"),
        "Invalid file name or path: 'a\0'"
    );
    assert_eq!(
        format_io_error(IoErrorKind::Other, Target::File, "a.md", "move", "busy"),
        "Failed to move 'a.md': busy"
    );
}
