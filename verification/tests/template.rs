use broozelix_bridge::protocol::socket_json::SocketLine;
use broozelix_bridge::template::{matches_when, substitute};

/// Reads a socket line the way the bridge does: `v` and `op` required, the rest optional.
fn line_from_json(raw: &str) -> SocketLine {
    let value: serde_json::Value = serde_json::from_str(raw).unwrap();
    let text = |k: &str| value.get(k).and_then(|v| v.as_str()).map(String::from);
    let number = |k: &str| value.get(k).and_then(|v| v.as_u64());
    SocketLine {
        v: value.get("v").and_then(|v| v.as_u64()).unwrap() as u32,
        op: text("op").unwrap(),
        event: text("event"),
        path: text("path"),
        line: number("line"),
        column: number("column"),
        mode: text("mode"),
        error: text("error"),
    }
}

fn sample_event() -> SocketLine {
    line_from_json(
        r#"{"v":1,"op":"event","event":"document-focus","path":"/tmp/a.rs","line":3,"column":1,"mode":"normal"}"#,
    )
}

fn pair(k: &str, v: &str) -> (String, String) {
    (String::from(k), String::from(v))
}

#[test]
fn parses_document_focus() {
    let line = line_from_json(
        r#"{"v":1,"op":"event","event":"document-focus","path":"/tmp/a.rs","line":12,"column":4}"#,
    );
    assert!(line.is_event());
    assert_eq!(line.event.as_deref(), Some("document-focus"));
    assert_eq!(line.path.as_deref(), Some("/tmp/a.rs"));
    assert_eq!(line.line, Some(12));
    assert_eq!(line.column, Some(4));
}

#[test]
fn substitutes_placeholders() {
    let event = sample_event();
    let out = substitute("show {path}:{line}:{column} mode={mode}", &event);
    assert_eq!(out, "show /tmp/a.rs:3:1 mode=normal");
}

#[test]
fn missing_fields_become_empty() {
    let event = line_from_json(r#"{"v":1,"op":"event","event":"mode-changed","mode":"insert"}"#);
    let out = substitute("{path}|{line}|{column}|{mode}", &event);
    assert_eq!(out, "|||insert");
}

#[test]
fn when_filter_matches_mode() {
    let event = sample_event();
    let mut when = vec![pair("mode", "normal")];
    assert!(matches_when(&when, &event));
    when[0].1 = String::from("insert");
    assert!(!matches_when(&when, &event));
}

#[test]
fn substitution_passes_run_in_order() {
    // A path that itself holds a placeholder is filled in by the later pass.
    let mut event = sample_event();
    event.path = Some(String::from("{mode}"));
    assert_eq!(substitute("{path}", &event), "normal");
    assert_eq!(substitute("no placeholders here", &event), "no placeholders here");
    assert_eq!(substitute("{line}{line}{pathx}", &event), "33{pathx}");
    event.line = Some(1234567890123);
    assert_eq!(substitute("{line}", &event), "1234567890123");
    event.line = Some(0);
    assert_eq!(substitute("{line}", &event), "0");
}

#[test]
fn when_filter_checks_every_entry() {
    let event = sample_event();
    assert!(matches_when(&Vec::new(), &event));
    assert!(matches_when(&vec![pair("line", "3"), pair("column", "1")], &event));
    assert!(matches_when(&vec![pair("path", "/tmp/a.rs"), pair("event", "document-focus")], &event));
    // A matching line filter does not excuse a failing mode filter, in either order.
    assert!(!matches_when(&vec![pair("line", "3"), pair("mode", "insert")], &event));
    assert!(!matches_when(&vec![pair("mode", "insert"), pair("line", "3")], &event));
    // Unknown keys never match.
    assert!(!matches_when(&vec![pair("colour", "red")], &event));
    // A missing line never matches, not even the empty text; a missing path reads as empty.
    let bare = line_from_json(r#"{"v":1,"op":"event","event":"mode-changed"}"#);
    assert!(!matches_when(&vec![pair("line", "")], &bare));
    assert!(matches_when(&vec![pair("path", "")], &bare));
    assert!(!matches_when(&vec![pair("line", "03")], &event));
}

#[test]
fn substitution_is_one_pass_when_braces_are_placeholders() {
    let event = sample_event();
    // Every brace belongs to a placeholder: each is replaced once, in place.
    assert_eq!(
        substitute("a{mode}b{path}c{column}d{line}", &event),
        "anormalb/tmp/a.rsc1d3"
    );
    // A stray brace can join with a later placeholder name after an earlier pass.
    let mut empty_path = sample_event();
    empty_path.path = Some(String::new());
    assert_eq!(substitute("{{path}mode}", &empty_path), "normal");
}
