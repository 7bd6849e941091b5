use broozelix_bridge::protocol::typable::{escape_path_for_typable, open_command};

#[test]
fn escapes_backslash_and_quote() {
    assert_eq!(escape_path_for_typable(r#"/tmp/a"b\c"#), r#"/tmp/a\"b\\c"#);
}

#[test]
fn open_command_wraps_escaped_path() {
    assert_eq!(open_command("/tmp/foo.rs"), r#"open "/tmp/foo.rs""#);
}

#[test]
fn escaping_leaves_other_characters() {
    assert_eq!(escape_path_for_typable("/tmp/ünï code.rs"), "/tmp/ünï code.rs");
    assert_eq!(escape_path_for_typable(""), "");
    assert_eq!(escape_path_for_typable("\\\\"), "\\\\\\\\");
}
