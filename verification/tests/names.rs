use souchy_tauri_specta::name_order::name_less;
use souchy_tauri_specta::{apply_as_prefix, ItemType};

#[test]
fn event_names_use_a_colon() {
    assert_eq!(
        apply_as_prefix("myplugin", "greet", ItemType::Event),
        "plugin:myplugin:greet"
    );
}

#[test]
fn command_names_use_a_bar() {
    assert_eq!(
        apply_as_prefix("myplugin", "greet", ItemType::Command),
        "plugin:myplugin|greet"
    );
}

#[test]
fn empty_parts_are_kept() {
    assert_eq!(apply_as_prefix("", "", ItemType::Event), "plugin::");
    assert_eq!(apply_as_prefix("", "", ItemType::Command), "plugin:|");
}

#[test]
fn non_ascii_names_are_kept() {
    assert_eq!(
        apply_as_prefix("plüg", "événement", ItemType::Event),
        "plugin:plüg:événement"
    );
}

#[test]
fn event_and_command_of_one_plugin_differ() {
    assert_ne!(
        apply_as_prefix("p", "x", ItemType::Event),
        apply_as_prefix("p", "x", ItemType::Command)
    );
}

#[test]
fn name_order_agrees_with_string_order() {
    let samples = ["", "a", "b", "ab", "aa", "A", "é", "z", "日本", "日", "a\u{10FFFF}"];
    for a in samples {
        for b in samples {
            assert_eq!(name_less(a, b), a < b, "{:?} < {:?}", a, b);
        }
    }
}
