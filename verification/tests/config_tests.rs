use web_notes::config::{AppConfig, ConfigError, MissingTopicChoice};
use web_notes::domain::{TopicAvailability, TopicConfig, TopicSnapshot};
use web_notes::notes::{NoteFile, TopicEntry, TopicListing, TopicScanner};
use web_notes::server::mark_replacement_canceled;

#[test]
fn adds_topics_with_stable_unique_ids() {
    let mut config = AppConfig::empty();

    let first = config.add_topic_folder(String::from("/tmp/Notes"));
    let second = config.add_topic_folder(String::from("/var/Notes"));
    let duplicate = config.add_topic_folder(String::from("/tmp/Notes"));

    assert_eq!(first.id, "notes");
    assert_eq!(second.id, "notes-2");
    assert_eq!(duplicate.id, "notes");
    assert_eq!(config.topics.len(), 2);
}

#[test]
fn replaces_topic_path_without_changing_topic_id() {
    let mut config = AppConfig::empty();
    let old_topic = config.add_topic_folder(String::from("/tmp/Old Topic"));

    config
        .replace_topic_path(&old_topic.id, String::from("/tmp/New Topic"))
        .unwrap();

    assert_eq!(config.topics[0].id, old_topic.id);
    assert_eq!(config.topics[0].display_name, "New Topic");
    assert_eq!(config.topics[0].path, String::from("/tmp/New Topic"));
}

#[test]
fn creates_topic_id_from_folder_name() {
    let topic = TopicConfig::new(String::from("/tmp/My Topic"));

    assert_eq!(topic.display_name, "My Topic");
    assert_eq!(topic.id, "my-topic");
}

#[test]
fn cancelled_first_run_returns_empty_config_without_creating_file() {
    assert!(AppConfig::needs_initial_topic(&None));
    let (config, save) = AppConfig::load_or_create(None, None);

    assert!(config.topics.is_empty());
    assert!(!save);
}

#[test]
fn marks_missing_topic_when_replacement_is_canceled() {
    let missing = String::from("/tmp/x/Missing Topic");
    let mut config = AppConfig::empty();
    let topic = config.add_topic_folder(missing.clone());

    let outcome = config
        .apply_missing_topic_choices(&vec![MissingTopicChoice {
            topic_id: topic.id.clone(),
            replacement: None,
        }])
        .unwrap();
    let mut snapshots = vec![TopicSnapshot {
        topic: config.topics[0].clone(),
        notes: Vec::new(),
        scan_warnings: Vec::new(),
        availability: TopicAvailability::Missing,
    }];
    mark_replacement_canceled(&mut snapshots, &outcome.canceled_topic_ids);

    assert_eq!(snapshots[0].availability, TopicAvailability::ReplacementCanceled);
    assert!(!outcome.changed);
    assert_eq!(config.topics[0].path, missing);
}

// Own cases.

#[test]
fn replacing_missing_topic_keeps_its_id() {
    let mut config = AppConfig::empty();
    let topic = config.add_topic_folder(String::from("/tmp/x/Missing Topic"));
    let outcome = config
        .apply_missing_topic_choices(&vec![MissingTopicChoice {
            topic_id: topic.id.clone(),
            replacement: Some(String::from("/tmp/x/Replacement Topic")),
        }])
        .unwrap();
    assert!(outcome.changed);
    assert!(outcome.canceled_topic_ids.is_empty());
    assert_eq!(config.topics[0].id, topic.id);
    assert_eq!(config.topics[0].id, "missing-topic");
    assert_eq!(config.topics[0].display_name, "Replacement Topic");
    assert_eq!(config.topics[0].path, "/tmp/x/Replacement Topic");
}

#[test]
fn replacing_unknown_topic_is_an_error() {
    let mut config = AppConfig::empty();
    config.add_topic_folder(String::from("/tmp/A"));
    let err = config
        .replace_topic_path("nope", String::from("/tmp/B"))
        .unwrap_err();
    assert_eq!(err, ConfigError::TopicNotFound(String::from("nope")));
    assert_eq!(err.message(), "topic nope was not found");
    assert_eq!(config.topics[0].path, "/tmp/A");
}

#[test]
fn suffixes_count_up_past_taken_ids() {
    let mut config = AppConfig::empty();
    let ids: Vec<String> = ["/a/Notes", "/b/Notes", "/c/Notes", "/d/notes/"]
        .iter()
        .map(|p| config.add_topic_folder(p.to_string()).id)
        .collect();
    assert_eq!(ids, vec!["notes", "notes-2", "notes-3", "notes-4"]);
}

#[test]
fn same_folder_written_differently_is_not_added_twice() {
    let mut config = AppConfig::empty();
    config.add_topic_folder(String::from("/tmp/Notes"));
    let again = config.add_topic_folder(String::from("/tmp//Notes/"));
    assert_eq!(again.path, "/tmp/Notes");
    assert_eq!(config.topics.len(), 1);
}

#[test]
fn topic_names_without_letters_fall_back() {
    assert_eq!(TopicConfig::new(String::from("/tmp/--- !")).id, "topic");
    assert_eq!(TopicConfig::new(String::from("/")).display_name, "Imported Topic");
    assert_eq!(TopicConfig::new(String::from("/")).id, "imported-topic");
    assert_eq!(TopicConfig::new(String::from("/x/Café Notes")).id, "caf--notes");
}

#[test]
fn existing_config_with_topics_is_kept_and_not_saved() {
    let mut loaded = AppConfig::empty();
    loaded.add_topic_folder(String::from("/tmp/A"));
    assert!(!AppConfig::needs_initial_topic(&Some(loaded.clone())));
    let (config, save) = AppConfig::load_or_create(Some(loaded.clone()), Some(String::from("/tmp/B")));
    assert_eq!(config, loaded);
    assert!(!save);
}

#[test]
fn empty_config_gets_picked_folder_and_is_saved() {
    assert!(AppConfig::needs_initial_topic(&Some(AppConfig::empty())));
    let (config, save) = AppConfig::load_or_create(Some(AppConfig::empty()), Some(String::from("/tmp/notes")));
    assert!(save);
    assert_eq!(config.topics.len(), 1);
    assert_eq!(config.topics[0].path, "/tmp/notes");
    let (config, save) = AppConfig::load_or_create(Some(AppConfig::empty()), None);
    assert!(!save);
    assert!(config.topics.is_empty());
}

#[test]
fn topic_ids_are_lowercase_slugs_of_the_name() {
    assert_eq!(web_notes::config::slugify_topic_id("My Topic!"), "my-topic");
    assert_eq!(web_notes::config::slugify_topic_id("--"), "topic");
    assert_eq!(web_notes::config::slugify_topic_id("A_b 2"), "a-b-2");
}

#[test]
fn persists_selected_folder_on_first_run() {
    let notes_dir = String::from("/tmp/x/notes");

    assert!(AppConfig::needs_initial_topic(&None));
    let (config, save) = AppConfig::load_or_create(None, Some(notes_dir.clone()));

    assert!(save);
    assert_eq!(config.topics.len(), 1);
    assert_eq!(config.topics[0].path, notes_dir);
}

#[test]
fn prompts_when_existing_config_has_no_topics() {
    let notes_dir = String::from("/tmp/x/notes");
    let loaded = Some(AppConfig::empty());

    assert!(AppConfig::needs_initial_topic(&loaded));
    let (config, save) = AppConfig::load_or_create(loaded, Some(notes_dir.clone()));

    assert!(save);
    assert_eq!(config.topics.len(), 1);
    assert_eq!(config.topics[0].path, notes_dir);
}

#[test]
fn cancelled_empty_config_setup_returns_empty_config_and_keeps_file_unchanged() {
    let loaded = Some(AppConfig::empty());

    assert!(AppConfig::needs_initial_topic(&loaded));
    let (config, save) = AppConfig::load_or_create(loaded, None);

    assert!(config.topics.is_empty());
    assert!(!save);
}

#[test]
fn replaces_missing_topic_folder_before_scanning() {
    let replacement = String::from("/tmp/x/Replacement Topic");
    let mut config = AppConfig::empty();
    let topic = config.add_topic_folder(String::from("/tmp/x/Missing Topic"));

    let outcome = config
        .apply_missing_topic_choices(&vec![MissingTopicChoice {
            topic_id: topic.id.clone(),
            replacement: Some(replacement.clone()),
        }])
        .unwrap();
    let listings = vec![TopicListing::Entries(vec![TopicEntry::Listed {
        path: String::from("/tmp/x/Replacement Topic/valid-note.html"),
        is_file: true,
        contents: Some(Ok(NoteFile { source: String::from("<html></html>"), modified_at: 0 })),
    }])];
    let snapshots = TopicScanner::new(None).scan_all(&config.topics, &listings);

    assert!(outcome.changed);
    assert_eq!(snapshots[0].topic.id, topic.id);
    assert_eq!(snapshots[0].topic.path, replacement);
    assert_eq!(snapshots[0].notes.len(), 1);
    assert_eq!(config.topics[0].id, topic.id);
}

#[test]
fn topic_slugs_keep_their_form() {
    for name in ["  My  Topic!! ", "--Ünïcode--Notes 2--", "A", "???", ""] {
        let slug = web_notes::config::slugify_topic_id(name);
        assert!(!slug.is_empty());
        assert!(slug.chars().all(|c| c.is_ascii_lowercase() || c.is_ascii_digit() || c == '-'));
        assert!(!slug.starts_with('-') && !slug.ends_with('-'));
        assert_eq!(web_notes::config::slugify_topic_id(&slug), slug);
        let letters: String = name.chars().filter(|c| c.is_ascii_alphanumeric()).map(|c| c.to_ascii_lowercase()).collect();
        if letters.is_empty() {
            assert_eq!(slug, "topic");
        } else {
            assert_eq!(slug.replace('-', ""), letters);
        }
    }
}
