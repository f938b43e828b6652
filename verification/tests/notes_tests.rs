use std::time::{Duration, SystemTime};

use web_notes::domain::{NoteEntry, TopicAvailability, TopicConfig};
use web_notes::notes::{
    build_note_entry, inject_base_href, is_html_file, note_id, note_title_from_html,
    sort_notes_newest_first, NoteFile, TopicEntry, TopicListing, TopicScanner,
};

fn nanos(time: SystemTime) -> u128 {
    time.duration_since(SystemTime::UNIX_EPOCH).unwrap().as_nanos()
}

fn note_with_time(id: &str, title: &str, modified_at: SystemTime) -> NoteEntry {
    NoteEntry {
        id: id.to_string(),
        topic_id: String::from("topic"),
        title: title.to_string(),
        folder_path: String::from("/tmp"),
        index_html_path: format!("/tmp/{id}.html"),
        modified_at: nanos(modified_at),
    }
}

fn html_entry(path: &str, source: &str, modified_at: u128) -> TopicEntry {
    TopicEntry::Listed {
        path: path.to_string(),
        is_file: true,
        contents: Some(Ok(NoteFile { source: source.to_string(), modified_at })),
    }
}

#[test]
fn derives_note_title_from_html_title() {
    let title = note_title_from_html(
        "/tmp/topic/fallback.html",
        "<html><head><title>Document Title</title></head><body><h1>Heading</h1></body></html>",
    );

    assert_eq!(title, "Document Title");
}

#[test]
fn derives_note_title_from_first_h1_when_title_is_missing() {
    let title = note_title_from_html(
        "/tmp/topic/fallback.html",
        "<html><body><h1>First Heading</h1><h1>Second Heading</h1></body></html>",
    );

    assert_eq!(title, "First Heading");
}

#[test]
fn derives_note_title_from_file_name_when_html_has_no_title_or_h1() {
    let title = note_title_from_html("/tmp/topic/fallback.html", "<html></html>");

    assert_eq!(title, "fallback");
}

#[test]
fn sorts_notes_by_folder_modified_time_descending() {
    let mut notes = vec![
        note_with_time("old", "Old", SystemTime::UNIX_EPOCH),
        note_with_time(
            "new",
            "New",
            SystemTime::UNIX_EPOCH + Duration::from_secs(10),
        ),
    ];

    sort_notes_newest_first(&mut notes);

    assert_eq!(notes[0].id, "new");
    assert_eq!(notes[1].id, "old");
}

#[test]
fn injects_base_href_for_relative_assets() {
    let note_path = "/tmp/example/note/index.html";
    let rendered = inject_base_href("<html><head></head><body></body></html>", note_path);

    assert!(rendered.contains("<base href=\"file:///tmp/example/note/\">"));
}

// Own cases.

#[test]
fn base_href_goes_in_a_new_head_when_there_is_none() {
    let rendered = inject_base_href("<p>hi</p>", "/tmp/a b/n.html");
    assert_eq!(rendered, "<head><base href=\"file:///tmp/a%20b/\"></head><p>hi</p>");
    let rendered = inject_base_href("<html><head><head>x", "/n.html");
    assert_eq!(rendered, "<html><head><base href=\"file:///\"><head>x");
}

#[test]
fn blank_titles_fall_through_and_are_trimmed() {
    let title = note_title_from_html(
        "/tmp/t/x.html",
        "<html><head><title>  \n </title></head><body><h1> </h1><h1>\u{3000} Real \t</h1></body></html>",
    );
    assert_eq!(title, "Real");
    assert_eq!(note_title_from_html("/tmp/t/ .html", "<html></html>"), "Untitled note");
}

#[test]
fn ties_sort_by_lowercase_title_then_file_path() {
    let t = SystemTime::UNIX_EPOCH + Duration::from_secs(5);
    let mut notes = vec![
        note_with_time("b", "beta", t),
        note_with_time("a2", "Alpha", t),
        note_with_time("a1", "alpha", t),
        note_with_time("z", "zulu", t + Duration::from_nanos(1)),
    ];
    sort_notes_newest_first(&mut notes);
    let ids: Vec<&str> = notes.iter().map(|n| n.id.as_str()).collect();
    assert_eq!(ids, vec!["z", "a1", "a2", "b"]);
}

#[test]
fn same_time_and_title_sort_by_file_name_in_one_folder() {
    let t = SystemTime::UNIX_EPOCH;
    let mut notes = vec![note_with_time("b", "Same", t), note_with_time("a", "Same", t)];
    sort_notes_newest_first(&mut notes);
    assert_eq!(notes[0].index_html_path, "/tmp/a.html");
    assert_eq!(notes[1].index_html_path, "/tmp/b.html");

    let mut equal = vec![note_with_time("n", "Same", t), note_with_time("n", "same", t)];
    sort_notes_newest_first(&mut equal);
    assert_eq!(equal[0].title, "Same");
    assert_eq!(equal[1].title, "same");
}

#[test]
fn note_ids_come_from_topic_and_file_stem() {
    assert_eq!(note_id("my-topic", "/tmp/My Topic/Project Plan.html"), "my-topic:project-plan");
    assert_eq!(note_id("t", "/tmp/T/.html"), "t:html");
    assert_eq!(note_id("t", "/tmp/T/---.htm"), "t:note");
}

#[test]
fn html_files_are_recognized_by_extension_in_any_case() {
    assert!(is_html_file("/tmp/a.HTML", true));
    assert!(is_html_file("/tmp/a.htm", true));
    assert!(!is_html_file("/tmp/a.htm", false));
    assert!(!is_html_file("/tmp/a.txt", true));
    assert!(!is_html_file("/tmp/html", true));
}

#[test]
fn validates_note_html_file() {
    let topic_path = String::from("/tmp/x/Topic");
    let topic = TopicConfig::new(topic_path.clone());
    let note = format!("{topic_path}/valid-note.html");
    let contents = Ok(NoteFile {
        source: String::from("<html><head><title>Valid Note</title></head><body></body></html>"),
        modified_at: 7,
    });

    let entry = build_note_entry(&topic, &note, true, &contents).unwrap();

    assert_eq!(entry.title, "Valid Note");
    assert_eq!(entry.folder_path, topic_path);
    assert_eq!(entry.index_html_path, note);
    assert_eq!(entry.id, "topic:valid-note");
    assert_eq!(entry.modified_at, 7);
}

#[test]
fn rejects_non_html_note_files() {
    let topic = TopicConfig::new(String::from("/tmp/x/Topic"));
    let note = "/tmp/x/Topic/invalid.txt";
    let contents = Ok(NoteFile { source: String::from("not html"), modified_at: 0 });

    let error = build_note_entry(&topic, note, true, &contents).unwrap_err();

    assert_eq!(error, "not an HTML file");
}

#[test]
fn scans_direct_html_files_and_ignores_directories() {
    let topic = TopicConfig::new(String::from("/tmp/x/Topic"));
    let listing = TopicListing::Entries(vec![
        html_entry("/tmp/x/Topic/valid-note.html", "<html><body><h1>Valid Note</h1></body></html>", 1),
        TopicEntry::Listed { path: String::from("/tmp/x/Topic/Ignored Folder"), is_file: false, contents: None },
        TopicEntry::Listed { path: String::from("/tmp/x/Topic/ignored.txt"), is_file: true, contents: None },
    ]);
    let scanner = TopicScanner::new(Some(String::from("/tmp/x/diagnostics.log")));
    let snapshot = scanner.scan_topic(&topic, &listing);

    assert_eq!(snapshot.notes.len(), 1);
    assert_eq!(snapshot.notes[0].title, "Valid Note");
    assert!(snapshot.scan_warnings.is_empty());
    assert_eq!(snapshot.availability, TopicAvailability::Available);
}

#[test]
fn scan_reports_missing_and_unreadable_folders_and_entries() {
    let scanner = TopicScanner::new(Some(String::from("/tmp/log")));
    assert_eq!(scanner.diagnostics_log_path().as_deref(), Some("/tmp/log"));
    let topics = vec![
        TopicConfig::new(String::from("/tmp/x/Topic")),
        TopicConfig::new(String::from("/tmp/x/Missing Topic")),
        TopicConfig::new(String::from("/tmp/x/Locked")),
    ];
    let listings = vec![
        TopicListing::Entries(vec![
            html_entry("/tmp/x/Topic/a.html", "<html></html>", 1),
            TopicEntry::Unreadable { error: String::from("boom") },
            TopicEntry::Listed {
                path: String::from("/tmp/x/Topic/b.html"),
                is_file: true,
                contents: Some(Err(String::from("denied"))),
            },
            html_entry("/tmp/x/Topic/c.html", "<title>C</title>", 2),
        ]),
        TopicListing::Missing,
        TopicListing::Unreadable { error: String::from("no access") },
    ];
    let snapshots = scanner.scan_all(&topics, &listings);

    assert_eq!(snapshots.len(), 3);
    let titles: Vec<&str> = snapshots[0].notes.iter().map(|n| n.title.as_str()).collect();
    assert_eq!(titles, vec!["C", "a"]);
    assert_eq!(snapshots[0].scan_warnings.len(), 2);
    assert_eq!(snapshots[0].scan_warnings[0].message, "failed to read topic entry: boom");
    assert_eq!(snapshots[0].scan_warnings[0].path, "/tmp/x/Topic");
    assert_eq!(snapshots[0].scan_warnings[1].message, "invalid note file: denied");
    assert_eq!(snapshots[0].scan_warnings[1].path, "/tmp/x/Topic/b.html");
    assert_eq!(snapshots[1].notes.len(), 0);
    assert_eq!(snapshots[1].scan_warnings.len(), 1);
    assert_eq!(snapshots[1].scan_warnings[0].message, "topic folder is missing");
    assert_eq!(snapshots[1].availability, TopicAvailability::Missing);
    assert_eq!(snapshots[2].scan_warnings[0].message, "failed to scan topic folder: no access");
    assert_eq!(snapshots[2].availability, TopicAvailability::Available);
}

#[test]
fn scanned_notes_belong_to_their_topic() {
    let topic = TopicConfig::new(String::from("/tmp/x/My Topic"));
    let listing = TopicListing::Entries(vec![
        html_entry("/tmp/x/My Topic/Plan B.HTM", "<h1>Plan</h1>", 5),
        html_entry("/tmp/x/My Topic/notes.html", "<title>Notes</title>", 9),
    ]);
    let snapshot = TopicScanner::new(None).scan_topic(&topic, &listing);

    assert_eq!(snapshot.notes.len(), 2);
    for note in &snapshot.notes {
        assert_eq!(note.topic_id, "my-topic");
        assert_eq!(note.id, note_id("my-topic", &note.index_html_path));
        assert!(is_html_file(&note.index_html_path, true));
        assert_eq!(note.folder_path, "/tmp/x/My Topic");
    }
    assert_eq!(snapshot.notes[0].id, "my-topic:notes");
    assert_eq!(snapshot.notes[1].id, "my-topic:plan-b");
}

#[test]
fn scans_multiple_topics_without_failing_on_missing_topic() {
    let topics = vec![
        TopicConfig::new(String::from("/tmp/x/Topic")),
        TopicConfig::new(String::from("/tmp/x/Missing Topic")),
    ];
    let listings = vec![
        TopicListing::Entries(vec![html_entry("/tmp/x/Topic/valid-note.html", "<html></html>", 0)]),
        TopicListing::Missing,
    ];

    let snapshots = TopicScanner::new(None).scan_all(&topics, &listings);

    assert_eq!(snapshots.len(), 2);
    assert_eq!(snapshots[0].notes.len(), 1);
    assert_eq!(snapshots[1].notes.len(), 0);
    assert_eq!(snapshots[1].scan_warnings.len(), 1);
    assert_eq!(snapshots[1].availability, TopicAvailability::Missing);
}

#[test]
fn repeated_scans_reflect_filesystem_mutations() {
    let topic = TopicConfig::new(String::from("/tmp/x/Topic"));
    let scanner = TopicScanner::new(None);
    let titles = |snapshot: &web_notes::domain::TopicSnapshot| -> Vec<String> {
        snapshot.notes.iter().map(|note| note.title.clone()).collect()
    };

    let before = vec![TopicListing::Entries(vec![html_entry(
        "/tmp/x/Topic/first-note.html",
        "<html><title>First Note</title></html>",
        1,
    )])];
    let first_scan = scanner.scan_all(&vec![topic.clone()], &before);
    assert_eq!(titles(&first_scan[0]), vec![String::from("First Note")]);

    let after = vec![TopicListing::Entries(vec![html_entry(
        "/tmp/x/Topic/second-note.html",
        "<html><title>Second Note</title></html>",
        2,
    )])];
    let second_scan = scanner.scan_all(&vec![topic], &after);
    assert_eq!(titles(&second_scan[0]), vec![String::from("Second Note")]);
    assert!(second_scan[0].scan_warnings.is_empty());
}

#[test]
fn note_files_listed_without_contents_are_skipped() {
    let topic = TopicConfig::new(String::from("/tmp/x/Topic"));
    let listing = TopicListing::Entries(vec![
        TopicEntry::Listed { path: String::from("/tmp/x/Topic/unread.html"), is_file: true, contents: None },
        html_entry("/tmp/x/Topic/read.html", "<title>Read</title>", 3),
    ]);
    let snapshot = TopicScanner::new(None).scan_topic(&topic, &listing);

    assert_eq!(snapshot.notes.len(), 1);
    assert_eq!(snapshot.notes[0].title, "Read");
    assert!(snapshot.scan_warnings.is_empty());
}
