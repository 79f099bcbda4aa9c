use souchy_tauri_specta::ExportFiles;

fn names(files: &ExportFiles) -> Vec<String> {
    files.files().iter().map(|(name, _)| name.clone()).collect()
}

#[test]
fn new_has_no_files() {
    let files = ExportFiles::new();
    assert!(files.files().is_empty());
    assert_eq!(files.get("types.ts"), None);
}

#[test]
fn default_has_no_files() {
    let files = ExportFiles::default();
    assert!(files.files().is_empty());
}

#[test]
fn setters_write_their_own_files() {
    let mut files = ExportFiles::new();
    files.set_constants("const".to_string());
    files.set_types("type".to_string());
    files.set_commands("command".to_string());
    files.set_events("event".to_string());
    files.set_globals("global".to_string());
    assert_eq!(files.files().len(), 5);
    assert_eq!(files.get("constants.ts").map(|s| s.as_str()), Some("const"));
    assert_eq!(files.get("types.ts").map(|s| s.as_str()), Some("type"));
    assert_eq!(files.get("commands.ts").map(|s| s.as_str()), Some("command"));
    assert_eq!(files.get("events.ts").map(|s| s.as_str()), Some("event"));
    assert_eq!(files.get("globals.ts").map(|s| s.as_str()), Some("global"));
}

#[test]
fn files_are_listed_in_name_order() {
    let mut files = ExportFiles::new();
    files.set_types("t".to_string());
    files.set_globals("g".to_string());
    files.set_commands("c".to_string());
    files.set_events("e".to_string());
    files.set_constants("k".to_string());
    assert_eq!(
        names(&files),
        vec!["commands.ts", "constants.ts", "events.ts", "globals.ts", "types.ts"]
    );
}

#[test]
fn order_matches_string_order() {
    let mut files = ExportFiles::new();
    let inputs = ["z", "é", "a", "ab", "", "Z", "aa", "日本", "a"];
    for name in inputs {
        files.insert(name.to_string(), String::new());
    }
    let mut expected: Vec<String> = inputs.iter().map(|s| s.to_string()).collect();
    expected.sort();
    expected.dedup();
    assert_eq!(names(&files), expected);
}

#[test]
fn last_write_wins() {
    let mut files = ExportFiles::new();
    files.set_types("first".to_string());
    files.set_types("second".to_string());
    assert_eq!(files.files().len(), 1);
    assert_eq!(files.get("types.ts").map(|s| s.as_str()), Some("second"));
}

#[test]
fn insert_returns_previous_content() {
    let mut files = ExportFiles::new();
    assert_eq!(files.insert("a.ts".to_string(), "one".to_string()), None);
    assert_eq!(
        files.insert("a.ts".to_string(), "two".to_string()),
        Some("one".to_string())
    );
    assert_eq!(files.get("a.ts").map(|s| s.as_str()), Some("two"));
}

#[test]
fn read_back_leaves_other_files() {
    let mut files = ExportFiles::new();
    files.insert("b.ts".to_string(), "b".to_string());
    files.insert("a.ts".to_string(), "a".to_string());
    files.insert("c.ts".to_string(), "c".to_string());
    assert_eq!(files.get("a.ts").map(|s| s.as_str()), Some("a"));
    assert_eq!(files.get("b.ts").map(|s| s.as_str()), Some("b"));
    assert_eq!(files.get("c.ts").map(|s| s.as_str()), Some("c"));
    assert_eq!(files.get("d.ts"), None);
    assert_eq!(files.get("a"), None);
    assert_eq!(files.get(""), None);
}

#[test]
fn clone_keeps_every_file() {
    let mut files = ExportFiles::new();
    files.set_globals("g".to_string());
    files.set_events("e".to_string());
    let copy = files.clone();
    assert_eq!(copy.files(), files.files());
}
