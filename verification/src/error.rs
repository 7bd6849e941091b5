use vstd::prelude::*;

use vstd::string::StringExecFns;

verus! {

/// The ways in which the bridge refuses its inputs.
#[derive(Debug, Clone, PartialEq, Eq)]
pub enum BridgeError {
    /// No `--helix-socket` and no `HELIX_SOCKET_PATH`.
    HelixSocketUnset,
    /// No `--config`, no `BROOZELIX_BRIDGE_CONFIG` and no `./broozelix-bridge.toml`.
    ConfigNotSpecified,
    /// `subscribe.events` lists nothing.
    EmptySubscribeEvents,
    /// The config has no `[[handlers]]` entry.
    NoHandlers,
    /// A handler's command is empty once trimmed.
    EmptyHandlerCommand { event: String },
}

/// The text that describes an error.
pub open spec fn error_text(e: BridgeError) -> Seq<char> {
    match e {
        BridgeError::HelixSocketUnset => "HELIX_SOCKET_PATH is not set (use --helix-socket)"@,
        BridgeError::ConfigNotSpecified =>
            "config not specified (use --config, BROOZELIX_BRIDGE_CONFIG, or ./broozelix-bridge.toml)"@,
        BridgeError::EmptySubscribeEvents => "subscribe.events must not be empty"@,
        BridgeError::NoHandlers => "at least one [[handlers]] entry is required"@,
        BridgeError::EmptyHandlerCommand { event } => "handler for event '"@ + event@
            + "' has empty command"@,
    }
}

impl BridgeError {
    /// The text that describes this error.
    pub fn message(&self) -> (m: String)
        ensures
            m@ == error_text(*self),
    {
        match self {
            BridgeError::HelixSocketUnset => String::from_str(
                "HELIX_SOCKET_PATH is not set (use --helix-socket)",
            ),
            BridgeError::ConfigNotSpecified => String::from_str(
                "config not specified (use --config, BROOZELIX_BRIDGE_CONFIG, or ./broozelix-bridge.toml)",
            ),
            BridgeError::EmptySubscribeEvents => String::from_str(
                "subscribe.events must not be empty",
            ),
            BridgeError::NoHandlers => String::from_str(
                "at least one [[handlers]] entry is required",
            ),
            BridgeError::EmptyHandlerCommand { event } => {
                let mut m = String::from_str("handler for event '");
                m.append(event.as_str());
                m.append("' has empty command");
                m
            },
        }
    }
}

} // verus!
