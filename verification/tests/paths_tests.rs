use web_notes::path::{join, parent};
use web_notes::paths::{default_config_path, AppPaths, PathsError};

#[test]
fn derives_config_and_diagnostics_paths() {
    let paths = AppPaths::from_dirs("/tmp/support/config", "/tmp/support/data");

    assert_eq!(paths.config_dir, String::from("/tmp/support/config"));
    assert_eq!(paths.config_file, String::from("/tmp/support/config/config.json"));
    assert_eq!(paths.diagnostics_dir, String::from("/tmp/support/data/diagnostics"));
    assert_eq!(
        paths.diagnostics_log,
        String::from("/tmp/support/data/diagnostics/web-notes.log")
    );
}

#[test]
fn joins_and_parents_follow_path_rules() {
    assert_eq!(join("/a/", "b"), "/a/b");
    assert_eq!(join("", "b"), "b");
    assert_eq!(join("/a", "/b"), "/b");
    assert_eq!(parent("/a//b/"), Some(String::from("/a")));
    assert_eq!(parent("/"), None);
    assert_eq!(parent("a.html"), Some(String::new()));
}

#[test]
fn detected_directories_are_the_web_notes_project() {
    match AppPaths::detect() {
        Ok(paths) => {
            assert!(paths.config_dir.ends_with("web-notes"));
            assert!(paths.config_file.ends_with("web-notes/config.json"));
            assert!(paths.diagnostics_log.ends_with("web-notes/diagnostics/web-notes.log"));
            assert_eq!(default_config_path(), Ok(paths.config_file));
        }
        Err(error) => assert_eq!(error, PathsError::NoProjectDirectories),
    }
}

#[test]
fn parents_keep_the_raw_text_before_the_last_component() {
    assert_eq!(parent("/a//b/x.html"), Some(String::from("/a//b")));
    assert_eq!(parent("/a/./b/."), Some(String::from("/a")));
    assert_eq!(parent("./x"), Some(String::from(".")));
    assert_eq!(parent("."), Some(String::new()));
    assert_eq!(parent("x/"), Some(String::new()));
    assert_eq!(parent("../x"), Some(String::from("..")));
    assert_eq!(parent("//"), None);
    assert_eq!(parent(""), None);
    for path in ["/a//b/x.html", "/a/./b/.", "./x", ".", "x/", "../x", "//", "", "a/b//", "/x"] {
        let expected = std::path::Path::new(path).parent().map(|p| p.to_str().unwrap().to_string());
        assert_eq!(parent(path), expected, "{path}");
    }
}
