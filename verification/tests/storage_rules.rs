use serial_bridge::storage::ReleaseNote;
use serial_bridge::storage::make_release_note;
use serial_bridge::storage::resolve_save_path;
use serial_bridge::storage::sort_release_notes;

fn note(version: &str, content: &str) -> ReleaseNote {
    ReleaseNote {
        version: version.to_string(),
        date: "".to_string(),
        channel: "stable".to_string(),
        content: content.to_string(),
    }
}

#[test]
fn release_notes_sort_newest_first() {
    let notes = vec![note("v1.0.0", "a"), note("v1.2.0", "b"), note("v1.1.0", "c")];
    let sorted = sort_release_notes(notes);
    let versions: Vec<&str> = sorted.iter().map(|n| n.version.as_str()).collect();
    assert_eq!(versions, vec!["v1.2.0", "v1.1.0", "v1.0.0"]);
    assert_eq!(sorted[0].content, "b");
}

#[test]
fn release_notes_sort_keeps_duplicates() {
    let notes = vec![note("v2", "x"), note("v1", "y"), note("v2", "z")];
    let sorted = sort_release_notes(notes);
    let versions: Vec<&str> = sorted.iter().map(|n| n.version.as_str()).collect();
    assert_eq!(versions, vec!["v2", "v2", "v1"]);
}

#[test]
fn release_notes_sort_of_empty_list() {
    let sorted = sort_release_notes(Vec::new());
    assert!(sorted.is_empty());
}

#[test]
fn release_note_fields_default() {
    let n = make_release_note("v3.1".to_string(), None, None, "body".to_string());
    assert_eq!(n.version, "v3.1");
    assert_eq!(n.date, "");
    assert_eq!(n.channel, "stable");
    assert_eq!(n.content, "body");

    let n = make_release_note(
        "v3.2".to_string(),
        Some("2024-05-01".to_string()),
        Some("beta".to_string()),
        "body".to_string(),
    );
    assert_eq!(n.date, "2024-05-01");
    assert_eq!(n.channel, "beta");
}

#[test]
fn save_path_prefers_stored_setting() {
    let r = resolve_save_path(Some("/tmp/captures".to_string()), "/data/logs".to_string());
    assert_eq!(r, "/tmp/captures");
}

#[test]
fn save_path_falls_back_to_default() {
    let r = resolve_save_path(None, "/data/logs".to_string());
    assert_eq!(r, "/data/logs");
}
