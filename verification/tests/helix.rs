use broozelix_bridge::bridge::{is_blank_line, route_line, subscribe_outcome, LineRoute};
use broozelix_bridge::cli::{Cli, Command};
use broozelix_bridge::error::BridgeError;
use broozelix_bridge::helix::{
    exit_failure_message, remote_invocation, step_after_attempt, subscribe_invocation, RetryStep,
    SOCKET_RETRY_ATTEMPTS, SOCKET_RETRY_DELAY_MS,
};
use broozelix_bridge::protocol::socket_json::SocketLine;
use broozelix_bridge::remote;

fn cli(hx: Option<&str>, socket: Option<&str>) -> Cli {
    Cli {
        config: None,
        hx: hx.map(String::from),
        helix_socket: socket.map(String::from),
        verbose: false,
        command: Command::Remote { cmd: String::from("write") },
    }
}

fn line(op: &str, error: Option<&str>) -> SocketLine {
    SocketLine {
        v: 1,
        op: String::from(op),
        event: None,
        path: None,
        line: None,
        column: None,
        mode: None,
        error: error.map(String::from),
    }
}

#[test]
fn retries_until_the_last_attempt() {
    assert_eq!(step_after_attempt(1, true), RetryStep::Done);
    assert_eq!(
        step_after_attempt(1, false),
        RetryStep::RetryAfter { next_attempt: 2, delay_ms: 200 }
    );
    assert_eq!(step_after_attempt(75, false), RetryStep::GiveUp);
    assert_eq!(step_after_attempt(75, true), RetryStep::Done);
    // Count the tries of a run where every one fails.
    let mut attempt = 1;
    let mut tries = 1;
    while let RetryStep::RetryAfter { next_attempt, delay_ms } = step_after_attempt(attempt, false) {
        assert_eq!(delay_ms, SOCKET_RETRY_DELAY_MS);
        attempt = next_attempt;
        tries += 1;
    }
    assert_eq!(tries, SOCKET_RETRY_ATTEMPTS);
}

#[test]
fn invocations() {
    let inv = remote_invocation(&cli(None, None), "open \"/tmp/a.rs\"");
    assert_eq!(inv.program, "hx");
    assert_eq!(inv.args, vec![String::from("--remote"), String::from("open \"/tmp/a.rs\"")]);
    let inv = subscribe_invocation(&cli(Some("/bin/helix"), None), "document-focus,mode-changed");
    assert_eq!(inv.program, "/bin/helix");
    assert_eq!(inv.args, vec![String::from("--subscribe"), String::from("document-focus,mode-changed")]);
}

#[test]
fn remote_run_resolves_socket_first() {
    match remote::run(&cli(None, None), "write", None) {
        Err(e) => assert_eq!(e, BridgeError::HelixSocketUnset),
        Ok(_) => panic!("expected an error"),
    }
    let req = remote::run(&cli(None, None), "write", Some(String::from("/s"))).unwrap();
    assert_eq!(req.socket, "/s");
    assert_eq!(req.invocation.args, vec![String::from("--remote"), String::from("write")]);
}

#[test]
fn exit_messages() {
    assert_eq!(exit_failure_message("hx", "--remote", Some(2)), "hx --remote exited with 2");
    assert_eq!(exit_failure_message("hx", "--remote", None), "hx --remote exited with -1");
    assert_eq!(
        exit_failure_message("hx", "--subscribe", Some(i32::MIN)),
        "hx --subscribe exited with -2147483648"
    );
    assert_eq!(subscribe_outcome("hx", true, Some(3)), Ok(()));
    assert_eq!(
        subscribe_outcome("/bin/hx", false, Some(101)),
        Err(String::from("/bin/hx --subscribe exited with 101"))
    );
}

#[test]
fn routes_lines() {
    match route_line(&line("error", Some("boom"))) {
        LineRoute::ReportError { message } => assert_eq!(message, "boom"),
        other => panic!("unexpected {other:?}"),
    }
    match route_line(&line("error", None)) {
        LineRoute::ReportError { message } => assert_eq!(message, "unknown"),
        other => panic!("unexpected {other:?}"),
    }
    assert!(matches!(route_line(&line("event", None)), LineRoute::Dispatch));
    assert!(matches!(route_line(&line("hello", None)), LineRoute::Ignore));
    assert!(is_blank_line("  \t "));
    assert!(is_blank_line(""));
    assert!(!is_blank_line(" {} "));
}

/// Runs the retry decisions over given outcomes: (tries, succeeded, waited ms).
fn simulate(outcomes: &[bool]) -> (usize, bool, u64) {
    let mut attempt = 1;
    let mut tries = 0;
    let mut waited = 0;
    loop {
        let ok = outcomes[tries];
        tries += 1;
        match step_after_attempt(attempt, ok) {
            RetryStep::Done => return (tries, true, waited),
            RetryStep::GiveUp => return (tries, false, waited),
            RetryStep::RetryAfter { next_attempt, delay_ms } => {
                waited += delay_ms;
                attempt = next_attempt;
            }
        }
    }
}

#[test]
fn retry_runs_with_mixed_outcomes() {
    let mut outcomes = vec![false; 100];
    outcomes[4] = true;
    outcomes[9] = true;
    assert_eq!(simulate(&outcomes), (5, true, 800));
    outcomes[0] = true;
    assert_eq!(simulate(&outcomes), (1, true, 0));
    let mut late = vec![false; 100];
    late[75] = true;
    assert_eq!(simulate(&late), (75, false, 74 * 200));
    late[74] = true;
    assert_eq!(simulate(&late), (75, true, 74 * 200));
}
