use broozelix_bridge::protocol::helix_cli::{FLAG_REMOTE, FLAG_SUBSCRIBE, HX_BIN};
use broozelix_bridge::protocol::socket_json::{SocketLine, OP_ERROR, OP_EVENT, PROTOCOL_V, V1_EVENTS};

fn bare_line(op: &str) -> SocketLine {
    SocketLine {
        v: PROTOCOL_V,
        op: String::from(op),
        event: None,
        path: None,
        line: None,
        column: None,
        mode: None,
        error: None,
    }
}

#[test]
fn v1_events_match_helix() {
    assert_eq!(V1_EVENTS.len(), 6);
    assert!(V1_EVENTS.contains(&"document-focus"));
    assert!(V1_EVENTS.contains(&"cwd-changed"));
}

#[test]
fn op_kinds_are_told_apart() {
    assert!(bare_line("event").is_event());
    assert!(!bare_line("event").is_error());
    assert!(bare_line("error").is_error());
    assert!(!bare_line("error").is_event());
    assert!(!bare_line("Event").is_event());
    assert_eq!(OP_EVENT, "event");
    assert_eq!(OP_ERROR, "error");
}

#[test]
fn helix_cli_names() {
    assert_eq!(HX_BIN, "hx");
    assert_eq!(FLAG_SUBSCRIBE, "--subscribe");
    assert_eq!(FLAG_REMOTE, "--remote");
}
