use vstd::prelude::*;

use crate::helix::{exit_failure_message, exit_failure_text};
use crate::protocol::helix_cli::FLAG_SUBSCRIBE;
use crate::protocol::socket_json::SocketLine;
use crate::text::{is_blank, is_blank_text};
use vstd::string::StringExecFns;

verus! {

/// What the bridge does with one parsed line from `hx --subscribe`.
#[derive(Debug)]
pub enum LineRoute {
    /// Report Helix's error and go on with the next line.
    ReportError { message: String },
    /// Hand the event to the dispatcher.
    Dispatch,
    /// Neither an error nor an event: skip it.
    Ignore,
}

/// Whether a raw line carries nothing (only whitespace) and is skipped before parsing.
pub fn is_blank_line(line: &str) -> (r: bool)
    ensures
        r == is_blank_text(line@),
{
    is_blank(line)
}

/// Routes one parsed line: errors are reported (with `unknown` when Helix gave no
/// message), events are dispatched, anything else is ignored.
pub fn route_line(line: &SocketLine) -> (r: LineRoute)
    ensures
        line.op@ == "error"@ ==> (r matches LineRoute::ReportError { message } && message@ == (
        match line.error {
            Some(e) => e@,
            None => "unknown"@,
        })),
        line.op@ == "event"@ ==> r is Dispatch,
        line.op@ != "error"@ && line.op@ != "event"@ ==> r is Ignore,
{
    proof {
        reveal_strlit("error");
        reveal_strlit("event");
        assert("error"@[1] != "event"@[1]);
    }
    if line.is_error() {
        let message = match &line.error {
            Some(e) => e.clone(),
            None => String::from_str("unknown"),
        };
        return LineRoute::ReportError { message };
    }
    if line.is_event() {
        return LineRoute::Dispatch;
    }
    LineRoute::Ignore
}

/// The outcome of `hx --subscribe` once its output has ended: success, or the message for
/// its exit code.
pub fn subscribe_outcome(program: &str, success: bool, code: Option<i32>) -> (r: Result<(), String>)
    ensures
        success ==> r is Ok,
        !success ==> (r matches Err(m) && m@ == exit_failure_text(program@, "--subscribe"@, code)),
{
    if success {
        Ok(())
    } else {
        Err(exit_failure_message(program, FLAG_SUBSCRIBE, code))
    }
}

} // verus!
