use web_notes::domain::{NoteEntry, TopicAvailability, TopicConfig, TopicSnapshot};
use web_notes::server::{
    content_type_for_path, ensure_asset_is_inside_note_folder, error_page, escape_html,
    parse_note_route, resolve_note_asset, route_request, safe_relative_asset_path, AssetError,
    RequestRoute, RouteError,
};

fn snapshot_for_note(note_id: &str, note_path: &str, folder: &str) -> TopicSnapshot {
    TopicSnapshot {
        topic: TopicConfig {
            id: String::from("topic"),
            display_name: String::from("Topic"),
            path: folder.to_string(),
        },
        notes: vec![NoteEntry {
            id: note_id.to_string(),
            topic_id: String::from("topic"),
            title: String::from("Note"),
            folder_path: folder.to_string(),
            index_html_path: note_path.to_string(),
            modified_at: 0,
        }],
        scan_warnings: Vec::new(),
        availability: TopicAvailability::Available,
    }
}

#[test]
fn parses_note_route_with_default_index_asset() {
    let (note_id, asset_path) = parse_note_route("/notes/topic-a:note-a").unwrap();

    assert_eq!(note_id, "topic-a:note-a");
    assert_eq!(asset_path, "index.html");
}

// Own cases.

#[test]
fn parses_note_routes_with_assets_and_rejects_bad_ones() {
    assert_eq!(
        parse_note_route("/notes/t:n/assets/a.css").unwrap(),
        (String::from("t:n"), String::from("assets/a.css"))
    );
    assert_eq!(
        parse_note_route("/notes/t:n/").unwrap(),
        (String::from("t:n"), String::from("index.html"))
    );
    assert_eq!(parse_note_route("/notes//x"), Err(RouteError::MissingNoteId));
    assert_eq!(parse_note_route("/other"), Err(RouteError::InvalidRoute));
    assert_eq!(RouteError::MissingNoteId.message(), "missing note id");
}

#[test]
fn routes_requests() {
    assert_eq!(route_request("/"), RequestRoute::Index);
    assert_eq!(route_request("/index.html"), RequestRoute::Index);
    assert_eq!(route_request("/app.js"), RequestRoute::Script);
    assert_eq!(route_request("/styles.css"), RequestRoute::Stylesheet);
    assert_eq!(route_request("/api/topics"), RequestRoute::Topics);
    assert_eq!(route_request("/api/topics/snapshot"), RequestRoute::TopicSnapshots);
    assert_eq!(route_request("/api/topics/add"), RequestRoute::AddTopic);
    assert_eq!(route_request("/notes/x"), RequestRoute::Note);
    assert_eq!(route_request("/notes"), RequestRoute::NotFound);
}

#[test]
fn resolves_index_html_for_selected_note() {
    let topics = vec![snapshot_for_note("topic:note", "/tmp/x/Topic/note.html", "/tmp/x/Topic")];
    let resolved = resolve_note_asset(&topics, "topic:note", "index.html").unwrap();
    assert_eq!(resolved, "/tmp/x/Topic/note.html");
    let resolved = resolve_note_asset(&topics, "topic:note", "./").unwrap();
    assert_eq!(resolved, "/tmp/x/Topic/note.html");
}

#[test]
fn resolves_relative_note_assets_from_note_folder() {
    let topics = vec![snapshot_for_note("topic:note", "/tmp/x/Topic/note.html", "/tmp/x/Topic")];
    let resolved = resolve_note_asset(&topics, "topic:note", "assets/./style.css").unwrap();
    assert_eq!(resolved, "/tmp/x/Topic/assets/style.css");
}

#[test]
fn rejects_note_asset_paths_that_escape_or_are_absolute() {
    let topics = vec![snapshot_for_note("topic:note", "/tmp/x/Topic/note.html", "/tmp/x/Topic")];
    let error = resolve_note_asset(&topics, "topic:note", "../other.html").unwrap_err();
    assert!(error.message().contains("may not escape"));
    assert_eq!(
        resolve_note_asset(&topics, "topic:note", "/etc/passwd").unwrap_err(),
        AssetError::AbsolutePath
    );
    let missing = resolve_note_asset(&topics, "other", "index.html").unwrap_err();
    assert_eq!(missing.message(), "note other was not found");
    assert_eq!(safe_relative_asset_path("a//b/.").unwrap(), "a/b");
    assert_eq!(safe_relative_asset_path("").unwrap(), "index.html");
}

#[test]
fn accepts_assets_only_inside_the_note_folder() {
    assert!(ensure_asset_is_inside_note_folder("/tmp/x/Topic", "/tmp/x/Topic/a/b.css").is_ok());
    assert_eq!(
        ensure_asset_is_inside_note_folder("/tmp/x/Topic", "/tmp/x/Topic2/b.css"),
        Err(AssetError::EscapesNoteFolder)
    );
}

#[test]
fn content_types_follow_extensions() {
    assert_eq!(content_type_for_path("/a/b.HTM"), "text/html");
    assert_eq!(content_type_for_path("/a/b.css"), "text/css");
    assert_eq!(content_type_for_path("/a/b.js"), "text/javascript");
    assert_eq!(content_type_for_path("/a/b.json"), "application/json");
    assert_eq!(content_type_for_path("/a/b.Jpeg"), "image/jpeg");
    assert_eq!(content_type_for_path("/a/b.svg"), "image/svg+xml");
    assert_eq!(content_type_for_path("/a/b.woff2"), "font/woff2");
    assert_eq!(content_type_for_path("/a/b"), "application/octet-stream");
    assert_eq!(content_type_for_path("/a/.ico"), "application/octet-stream");
}

#[test]
fn escapes_error_messages() {
    assert_eq!(escape_html("a < b & c > d"), "a &lt; b &amp; c &gt; d");
    assert_eq!(
        error_page("<x>"),
        "<!doctype html><html><body><h1>Unable to render note</h1><p>&lt;x&gt;</p></body></html>"
    );
}

#[test]
fn accepted_asset_paths_are_relative_without_parent_steps() {
    for asset in ["./assets/./img/logo.png", "a//b", ".", "x/", "./.../y", "..a/b.."] {
        let rel = safe_relative_asset_path(asset).unwrap();
        assert!(!rel.is_empty());
        assert!(!rel.starts_with('/'));
        assert!(rel.split('/').all(|part| part != ".." && part != "." && !part.is_empty()));
    }
    assert_eq!(safe_relative_asset_path("./assets/./img/logo.png").unwrap(), "assets/img/logo.png");
    assert_eq!(safe_relative_asset_path("./.../y").unwrap(), ".../y");
    assert_eq!(
        safe_relative_asset_path("assets/../../x"),
        Err(AssetError::EscapesNoteFolder)
    );
    assert_eq!(AssetError::AssetNotFound(String::from("/n/a.css")).message(), "note asset /n/a.css was not found");
}

#[test]
fn escaped_messages_cannot_open_tags() {
    let escaped = escape_html("<script>alert('x')</script> & <b>");
    assert!(!escaped.contains('<') && !escaped.contains('>'));
    assert_eq!(escaped, "&lt;script&gt;alert('x')&lt;/script&gt; &amp; &lt;b&gt;");
}

#[test]
fn note_routes_read_back_their_parts() {
    let (id, asset) = parse_note_route("/notes/topic:note/assets/a b.css").unwrap();
    assert_eq!((id.as_str(), asset.as_str()), ("topic:note", "assets/a b.css"));
    let (id, asset) = parse_note_route("/notes/topic:note/").unwrap();
    assert_eq!((id.as_str(), asset.as_str()), ("topic:note", "index.html"));
    assert_eq!(route_request("/notes/topic:note/x"), RequestRoute::Note);
}

#[test]
fn rejects_note_asset_paths_that_escape_note_folder() {
    let topics = vec![snapshot_for_note("topic:note", "/tmp/x/Topic/note.html", "/tmp/x/Topic")];
    let error = resolve_note_asset(&topics, "topic:note", "../other.html").unwrap_err();

    assert!(error.message().contains("may not escape"));
}
