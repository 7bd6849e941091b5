use vstd::prelude::*;

use crate::text::str_eq;

verus! {

/// The protocol version of the socket lines.
pub const PROTOCOL_V: u32 = 1;

/// The `op` of an event line.
pub const OP_EVENT: &'static str = "event";

/// The `op` of an error line.
pub const OP_ERROR: &'static str = "error";

/// The events that protocol version 1 defines.
pub const V1_EVENTS: [&'static str; 6] = [
    "document-focus",
    "document-open",
    "document-close",
    "document-write",
    "mode-changed",
    "cwd-changed",
];

/// One JSON line read from `hx --subscribe`.
#[derive(Debug, Clone, PartialEq, Eq)]
pub struct SocketLine {
    pub v: u32,
    pub op: String,
    pub event: Option<String>,
    pub path: Option<String>,
    pub line: Option<u64>,
    pub column: Option<u64>,
    pub mode: Option<String>,
    pub error: Option<String>,
}

impl SocketLine {
    /// Whether the line reports an event.
    pub fn is_event(&self) -> (r: bool)
        ensures
            r == (self.op@ == "event"@),
    {
        str_eq(self.op.as_str(), OP_EVENT)
    }

    /// Whether the line reports an error.
    pub fn is_error(&self) -> (r: bool)
        ensures
            r == (self.op@ == "error"@),
    {
        str_eq(self.op.as_str(), OP_ERROR)
    }
}

} // verus!
