use web_notes::domain::{
    AppState, NoteEntry, TopicAvailability, TopicConfig, TopicSnapshot,
};

fn topic_with_notes(topic_id: &str, note_ids: &[&str]) -> TopicSnapshot {
    TopicSnapshot {
        topic: TopicConfig {
            id: topic_id.to_string(),
            display_name: topic_id.to_string(),
            path: format!("/tmp/{topic_id}"),
        },
        notes: note_ids
            .iter()
            .map(|note_id| NoteEntry {
                id: (*note_id).to_string(),
                topic_id: topic_id.to_string(),
                title: (*note_id).to_string(),
                folder_path: format!("/tmp/{topic_id}/{note_id}"),
                index_html_path: format!("/tmp/{topic_id}/{note_id}/index.html"),
                modified_at: 0,
            })
            .collect(),
        scan_warnings: Vec::new(),
        availability: TopicAvailability::Available,
    }
}

#[test]
fn selects_first_topic_and_note_when_state_is_built() {
    let topic = TopicSnapshot {
        topic: TopicConfig {
            id: String::from("topic-a"),
            display_name: String::from("Topic A"),
            path: String::from("/tmp/topic-a"),
        },
        notes: vec![NoteEntry {
            id: String::from("note-a"),
            topic_id: String::from("topic-a"),
            title: String::from("Note A"),
            folder_path: String::from("/tmp/topic-a/note-a"),
            index_html_path: String::from("/tmp/topic-a/note-a/index.html"),
            modified_at: 0,
        }],
        scan_warnings: Vec::new(),
        availability: TopicAvailability::Available,
    };

    let state = AppState::from_topics(vec![topic]);

    assert_eq!(state.selected_topic_id.as_deref(), Some("topic-a"));
    assert_eq!(state.selected_note_id.as_deref(), Some("note-a"));
    assert!(state.expanded_topic_ids.contains("topic-a"));
}

#[test]
fn builds_placeholder_state_from_configured_topics() {
    let state = AppState::from_topic_configs(vec![TopicConfig {
        id: String::from("topic-a"),
        display_name: String::from("Topic A"),
        path: String::from("/tmp/topic-a"),
    }]);

    assert_eq!(state.topics.len(), 1);
    assert_eq!(state.selected_topic_id.as_deref(), Some("topic-a"));
    assert_eq!(state.selected_note_id, None);
    assert!(state.expanded_topic_ids.contains("topic-a"));
}

#[test]
fn toggles_existing_topics_only() {
    let mut state = AppState::from_topics(vec![topic_with_notes("topic-a", &[])]);

    assert!(state.expanded_topic_ids.contains("topic-a"));

    state.toggle_topic("topic-a");
    assert!(!state.expanded_topic_ids.contains("topic-a"));

    state.toggle_topic("missing");
    assert!(!state.expanded_topic_ids.contains("missing"));

    state.toggle_topic("topic-a");
    assert!(state.expanded_topic_ids.contains("topic-a"));
}

#[test]
fn selecting_note_sets_topic_and_expands_parent() {
    let mut state = AppState::from_topics(vec![
        topic_with_notes("topic-a", &["note-a"]),
        topic_with_notes("topic-b", &["note-b"]),
    ]);
    state.expanded_topic_ids.remove("topic-b");

    state.select_note("note-b");

    assert_eq!(state.selected_topic_id.as_deref(), Some("topic-b"));
    assert_eq!(state.selected_note_id.as_deref(), Some("note-b"));
    assert!(state.expanded_topic_ids.contains("topic-b"));
}

#[test]
fn selecting_topic_clears_active_note() {
    let mut state = AppState::from_topics(vec![topic_with_notes("topic-a", &["note-a"])]);

    state.select_topic("topic-a");

    assert_eq!(state.selected_topic_id.as_deref(), Some("topic-a"));
    assert_eq!(state.selected_note_id, None);
}

#[test]
fn refresh_preserves_surviving_note_selection_and_expansion() {
    let mut state = AppState::from_topics(vec![
        topic_with_notes("topic-a", &["note-a"]),
        topic_with_notes("topic-b", &["note-b"]),
    ]);
    state.select_note("note-b");
    state.expanded_topic_ids.remove("topic-a");

    state.apply_refresh(vec![topic_with_notes("topic-b", &["note-b"])]);

    assert_eq!(state.selected_topic_id.as_deref(), Some("topic-b"));
    assert_eq!(state.selected_note_id.as_deref(), Some("note-b"));
    assert!(state.expanded_topic_ids.contains("topic-b"));
    assert!(!state.expanded_topic_ids.contains("topic-a"));
}

#[test]
fn refresh_selects_first_available_note_when_selection_disappears() {
    let mut state = AppState::from_topics(vec![topic_with_notes("topic-a", &["note-a"])]);

    state.apply_refresh(vec![topic_with_notes("topic-b", &["note-b"])]);

    assert_eq!(state.selected_topic_id.as_deref(), Some("topic-b"));
    assert_eq!(state.selected_note_id.as_deref(), Some("note-b"));
    assert!(state.expanded_topic_ids.contains("topic-b"));
}

#[test]
fn note_selection_records_back_history_and_clears_forward_history() {
    let mut state = AppState::from_topics(vec![topic_with_notes(
        "topic-a",
        &["note-a", "note-b", "note-c"],
    )]);

    state.select_note("note-b");
    state.navigate_back();
    state.select_note("note-c");

    assert_eq!(state.selected_note_id.as_deref(), Some("note-c"));
    assert_eq!(state.history_back, vec![String::from("note-a")]);
    assert!(state.history_forward.is_empty());
}

#[test]
fn back_and_forward_reselect_notes_and_expand_parent_topic() {
    let mut state = AppState::from_topics(vec![
        topic_with_notes("topic-a", &["note-a"]),
        topic_with_notes("topic-b", &["note-b"]),
    ]);
    state.select_note("note-b");
    state.expanded_topic_ids.remove("topic-a");

    assert!(state.navigate_back());
    assert_eq!(state.selected_topic_id.as_deref(), Some("topic-a"));
    assert_eq!(state.selected_note_id.as_deref(), Some("note-a"));
    assert!(state.expanded_topic_ids.contains("topic-a"));

    assert!(state.navigate_forward());
    assert_eq!(state.selected_topic_id.as_deref(), Some("topic-b"));
    assert_eq!(state.selected_note_id.as_deref(), Some("note-b"));
    assert!(state.expanded_topic_ids.contains("topic-b"));
}

#[test]
fn refresh_prunes_history_entries_for_removed_notes() {
    let mut state = AppState::from_topics(vec![topic_with_notes(
        "topic-a",
        &["note-a", "note-b", "note-c"],
    )]);
    state.select_note("note-b");
    state.select_note("note-c");

    state.apply_refresh(vec![topic_with_notes("topic-a", &["note-c"])]);

    assert_eq!(state.selected_note_id.as_deref(), Some("note-c"));
    assert!(state.history_back.is_empty());
    assert!(state.history_forward.is_empty());
}

#[test]
fn refresh_replaces_removed_selected_note_with_first_note_in_same_topic() {
    let mut state =
        AppState::from_topics(vec![topic_with_notes("topic-a", &["note-a", "note-b"])]);
    state.select_note("note-b");

    state.apply_refresh(vec![topic_with_notes("topic-a", &["note-a"])]);

    assert_eq!(state.selected_topic_id.as_deref(), Some("topic-a"));
    assert_eq!(state.selected_note_id.as_deref(), Some("note-a"));
    assert!(state.expanded_topic_ids.contains("topic-a"));
}

// Properties checked on concrete values.

#[test]
fn back_skips_history_entries_whose_notes_are_gone() {
    let mut state = AppState::from_topics(vec![topic_with_notes(
        "topic-a",
        &["note-a", "note-b", "note-c"],
    )]);
    state.select_note("note-b");
    state.select_note("note-c");
    state.history_back.push(String::from("gone"));

    assert!(state.navigate_back());
    assert_eq!(state.selected_note_id.as_deref(), Some("note-b"));
    assert_eq!(state.history_back, vec![String::from("note-a")]);
    assert_eq!(state.history_forward, vec![String::from("note-c")]);
}

#[test]
fn back_with_only_dangling_history_empties_it_and_fails() {
    let mut state = AppState::from_topics(vec![topic_with_notes("topic-a", &["note-a"])]);
    state.history_back.push(String::from("gone-1"));
    state.history_back.push(String::from("gone-2"));

    assert!(!state.navigate_back());
    assert!(state.history_back.is_empty());
    assert_eq!(state.selected_note_id.as_deref(), Some("note-a"));
}

#[test]
fn forward_without_history_fails() {
    let mut state = AppState::from_topics(vec![topic_with_notes("topic-a", &["note-a"])]);
    assert!(!state.navigate_forward());
    assert_eq!(state.selected_note_id.as_deref(), Some("note-a"));
}

#[test]
fn selecting_same_note_twice_records_history_once() {
    let mut state =
        AppState::from_topics(vec![topic_with_notes("topic-a", &["note-a", "note-b"])]);
    state.select_note("note-b");
    state.select_note("note-b");
    assert_eq!(state.history_back, vec![String::from("note-a")]);
}

#[test]
fn selecting_unknown_note_or_topic_changes_nothing() {
    let mut state = AppState::from_topics(vec![topic_with_notes("topic-a", &["note-a"])]);
    state.select_note("nope");
    state.select_topic("nope");
    assert_eq!(state.selected_topic_id.as_deref(), Some("topic-a"));
    assert_eq!(state.selected_note_id.as_deref(), Some("note-a"));
    assert!(state.history_back.is_empty());
}

#[test]
fn toggling_twice_restores_expansion() {
    let mut state = AppState::from_topics(vec![
        topic_with_notes("topic-a", &[]),
        topic_with_notes("topic-b", &[]),
    ]);
    state.toggle_topic("topic-b");
    state.toggle_topic("topic-b");
    assert!(!state.expanded_topic_ids.contains("topic-b"));
    assert!(state.expanded_topic_ids.contains("topic-a"));
}

#[test]
fn select_then_back_then_forward_round_trip() {
    let mut state =
        AppState::from_topics(vec![topic_with_notes("topic-a", &["note-a", "note-b"])]);
    state.select_note("note-b");
    assert!(state.navigate_back());
    assert_eq!(state.selected_note_id.as_deref(), Some("note-a"));
    assert!(state.history_back.is_empty());
    assert_eq!(state.history_forward, vec![String::from("note-b")]);
    assert!(state.navigate_forward());
    assert_eq!(state.selected_note_id.as_deref(), Some("note-b"));
    assert!(state.history_forward.is_empty());
}

#[test]
fn refresh_keeps_selected_topic_without_notes() {
    let mut state = AppState::from_topics(vec![topic_with_notes("topic-a", &[])]);
    state.toggle_topic("topic-a");
    state.apply_refresh(vec![topic_with_notes("topic-a", &[])]);
    assert_eq!(state.selected_topic_id.as_deref(), Some("topic-a"));
    assert_eq!(state.selected_note_id, None);
    assert!(!state.expanded_topic_ids.contains("topic-a"));
}

#[test]
fn refresh_to_no_topics_clears_selection() {
    let mut state = AppState::from_topics(vec![topic_with_notes("topic-a", &["note-a"])]);
    state.apply_refresh(Vec::new());
    assert_eq!(state.selected_topic_id, None);
    assert_eq!(state.selected_note_id, None);
    assert!(!state.expanded_topic_ids.contains("topic-a"));
}
