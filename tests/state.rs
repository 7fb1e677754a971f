use piemme::{AppState, NotificationLevel, Prompt};

fn now() -> i64 {
    chrono::Utc::now().timestamp_millis()
}

fn fresh_id() -> u128 {
    uuid::Uuid::new_v4().as_u128()
}

#[test]
fn test_navigation() {
    let mut state = AppState::new();
    state.prompts = vec![
        Prompt::with_content("First".to_string(), fresh_id(), now()),
        Prompt::with_content("Second".to_string(), fresh_id(), now()),
        Prompt::with_content("Third".to_string(), fresh_id(), now()),
    ];

    assert_eq!(state.selected_index, 0);

    state.select_next();
    assert_eq!(state.selected_index, 1);

    state.select_next();
    assert_eq!(state.selected_index, 2);

    state.select_next();
    assert_eq!(state.selected_index, 2);

    state.select_previous();
    assert_eq!(state.selected_index, 1);

    state.select_first();
    assert_eq!(state.selected_index, 0);

    state.select_last();
    assert_eq!(state.selected_index, 2);
}

#[test]
fn test_empty_navigation() {
    let mut state = AppState::new();

    state.select_next();
    assert_eq!(state.selected_index, 0);

    state.select_previous();
    assert_eq!(state.selected_index, 0);

    state.select_last();
    assert_eq!(state.selected_index, 0);
}

#[test]
fn test_prompt_tags() {
    let mut prompt = Prompt::new(fresh_id(), now());

    prompt.add_tag("coding".to_string(), now());
    assert!(prompt.has_tag("coding"));

    prompt.add_tag("coding".to_string(), now());
    assert_eq!(prompt.tags.len(), 1);

    assert!(prompt.remove_tag("coding", now()));
    assert!(!prompt.has_tag("coding"));

    assert!(!prompt.remove_tag("nonexistent", now()));
}

#[test]
fn prompt_named_after_content() {
    let prompt = Prompt::with_content("Summarise this text\nmore".to_string(), fresh_id(), now());
    assert_eq!(prompt.name, "summarise_this_text");
    assert_eq!(prompt.first_line(), "Summarise this text".to_string());
    assert_eq!(prompt.created, prompt.modified);
    let mut tagged = Prompt::new(7, 100);
    assert_eq!((tagged.id, tagged.created, tagged.modified), (7, 100, 100));
    tagged.add_tag("x".to_string(), 200);
    assert_eq!(tagged.modified, 200);
    tagged.add_tag("x".to_string(), 300);
    assert_eq!(tagged.modified, 200);
    tagged.set_content("new".to_string(), 400);
    assert_eq!((tagged.content.as_str(), tagged.modified, tagged.created), ("new", 400, 100));
    let other = Prompt::new(fresh_id(), now());
    assert_ne!(prompt.id, other.id);
}

#[test]
fn selection_kept_visible() {
    let mut state = AppState::new();
    for i in 0..20 {
        state.prompts.push(Prompt::with_content(format!("p{}", i), fresh_id(), now()));
    }
    state.select_last();
    state.ensure_visible(5);
    assert_eq!(state.list_scroll_offset, 15);
    state.selected_index = 3;
    state.ensure_visible(5);
    assert_eq!(state.list_scroll_offset, 3);
    state.ensure_visible(0);
    assert_eq!(state.list_scroll_offset, 3);
    state.select_first();
    assert_eq!(state.list_scroll_offset, 0);
}

#[test]
fn editing_round_trip() {
    let mut state = AppState::new();
    state.start_editing();
    assert!(state.editor_content.is_none());
    state.prompts.push(Prompt::with_content("Body".to_string(), fresh_id(), now()));
    state.start_editing();
    assert_eq!(state.get_editor_content(), Some("Body"));
    assert_eq!(state.stop_editing(), Some("Body".to_string()));
    assert!(state.get_editor_content().is_none());
}

#[test]
fn editor_scrolling_is_bounded() {
    let mut state = AppState::new();
    state.scroll_editor_down(10, 30, 25);
    assert_eq!(state.editor_scroll_offset, 5);
    state.scroll_editor_down(usize::MAX, 30, 25);
    assert_eq!(state.editor_scroll_offset, 5);
    state.scroll_editor_up(2);
    assert_eq!(state.editor_scroll_offset, 3);
    state.scroll_editor_up(7);
    assert_eq!(state.editor_scroll_offset, 0);
    state.scroll_editor_down(3, 10, 20);
    assert_eq!(state.editor_scroll_offset, 0);
}

#[test]
fn notifications() {
    let mut state = AppState::new();
    state.notify("Saved".to_string(), NotificationLevel::Success);
    let n = state.notification.as_ref().unwrap();
    assert_eq!(n.message, "Saved");
    assert_eq!(n.level, NotificationLevel::Success);
    state.clear_notification();
    assert!(state.notification.is_none());
    assert_eq!(state.prompt_count(), 0);
    assert!(!state.has_prompts());
}

#[test]
fn test_create_new_prompt() {
    let existing = vec!["test_content_here"];
    let prompt = piemme::create_new_prompt("Test content here", &existing, fresh_id(), now());
    assert_eq!(prompt.name, "test_content_here_1");
}
