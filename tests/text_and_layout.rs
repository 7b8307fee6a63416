use text_predict::{check_keys, fold, get_regex, normalize, validate_layout, LayoutError, LayoutModel};

fn qwerty() -> Vec<String> {
    vec!["qwertyuiop".to_string(), "asdfghjkl;".to_string(), "zxcvbnm,./".to_string()]
}

#[test]
fn edge_columns_use_their_own_column_only() {
    assert_eq!(get_regex("q", qwerty()), "[qaz]");
    assert_eq!(get_regex("p", qwerty()), "[p;/]");
    assert_eq!(get_regex("c", qwerty()), "[edc]");
}

#[test]
fn home_reach_columns_are_grouped() {
    assert_eq!(get_regex("t", qwerty()), "[rtfgvb]");
    assert_eq!(get_regex("f", qwerty()), "[rtfgvb]");
    assert_eq!(get_regex("u", qwerty()), "[yuhjnm]");
}

#[test]
fn characters_off_the_layout_stay_literal() {
    assert_eq!(get_regex("ñ", qwerty()), "ñ");
    assert_eq!(get_regex("", qwerty()), "");
}

#[test]
fn word_pattern_is_the_concatenation() {
    assert_eq!(get_regex("qñc", qwerty()), "[qaz]ñ[edc]");
}

#[test]
fn folding_keeps_enye() {
    assert_eq!(fold("ñandú"), "ñandu");
    assert_eq!(fold("café"), "cafe");
    assert_eq!(fold("plain"), "plain");
}

#[test]
fn normalize_strips_lowercases_and_folds() {
    assert_eq!(normalize("Ñandú, café! 42 Über"), vec!["ñandu", "cafe", "uber"]);
    assert_eq!(normalize("  Hello   world "), vec!["hello", "world"]);
    assert!(normalize("123 !!").is_empty());
}

#[test]
fn layout_with_two_rows_is_rejected() {
    let keys = vec!["qwertyuiop".to_string(), "asdfghjkl;".to_string()];
    assert_eq!(check_keys(&keys), Err(LayoutError::WrongRowCount));
}

#[test]
fn layout_with_short_row_is_rejected() {
    let keys = vec!["qwertyuiop".to_string(), "asdfghjkl".to_string(), "zxcvbnm,./".to_string()];
    assert_eq!(check_keys(&keys), Err(LayoutError::WrongRowLength));
}

#[test]
fn well_formed_layout_is_accepted() {
    assert_eq!(check_keys(&qwerty()), Ok(()));
    let spanish = vec!["qwertyuiop".to_string(), "asdfghjklñ".to_string(), "zxcvbnm,.-".to_string()];
    assert_eq!(check_keys(&spanish), Ok(()));
}

#[test]
fn new_layout_needs_a_name() {
    assert_eq!(validate_layout(&None, &qwerty()), Err(LayoutError::MissingName));
    assert_eq!(validate_layout(&Some("qwerty".to_string()), &qwerty()), Ok(()));
    let unnamed = LayoutModel { name: None, keys: qwerty() };
    assert_eq!(unnamed.validate_new(), Err(LayoutError::MissingName));
    assert_eq!(unnamed.validate_update(), Ok(()));
    let bad = LayoutModel { name: Some("bad".to_string()), keys: vec![] };
    assert_eq!(bad.validate_new(), Err(LayoutError::WrongRowCount));
}
