use souchy_tauri_specta::EventNames;

#[test]
fn new_registry_is_empty() {
    let names = EventNames::new();
    assert!(!names.contains("demo"));
    let names = EventNames::default();
    assert!(!names.contains(""));
}

#[test]
fn register_takes_a_free_name() {
    let mut names = EventNames::new();
    assert!(names.register("demoEvent"));
    assert!(names.contains("demoEvent"));
    assert!(!names.contains("demo"));
}

#[test]
fn register_refuses_a_taken_name() {
    let mut names = EventNames::new();
    assert!(names.register("a"));
    assert!(names.register("b"));
    assert!(!names.register("a"));
    assert!(!names.register("b"));
    assert!(names.contains("a"));
    assert!(names.contains("b"));
}

#[test]
fn names_differing_only_in_case_are_distinct() {
    let mut names = EventNames::new();
    assert!(names.register("Event"));
    assert!(names.register("event"));
    assert!(names.register("événement"));
    assert!(!names.register("événement"));
}

#[test]
fn len_counts_registered_names() {
    let mut names = EventNames::new();
    assert_eq!(names.len(), 0);
    names.register("a");
    names.register("b");
    assert_eq!(names.len(), 2);
    names.register("a");
    assert_eq!(names.len(), 2);
    names.register("c");
    assert_eq!(names.len(), 3);
}
