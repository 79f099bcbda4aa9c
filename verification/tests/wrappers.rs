use souchy_tauri_specta::{ErrorHandlingMode, SJson, SqlxJson};

#[test]
fn errors_are_results_by_default() {
    assert!(matches!(ErrorHandlingMode::default(), ErrorHandlingMode::Result));
}

#[test]
fn sjson_derefs_to_inner_value() {
    let wrapped = SJson(vec![1, 2, 3]);
    assert_eq!(wrapped.len(), 3);
    assert_eq!(*wrapped, vec![1, 2, 3]);
}

#[test]
fn sjson_deref_mut_changes_inner_value() {
    let mut wrapped = SJson(vec![1]);
    wrapped.push(2);
    assert_eq!(wrapped.0, vec![1, 2]);
}

#[test]
fn sqlx_json_new_wraps_value() {
    let wrapped = SqlxJson::new("text".to_string());
    assert_eq!(wrapped.0, "text");
}
