use vstd::prelude::*;

verus! {

/// The Helix binary run when no `--hx` is given.
pub const HX_BIN: &'static str = "hx";

/// The flag that makes Helix stream events as JSON lines.
pub const FLAG_SUBSCRIBE: &'static str = "--subscribe";

/// The flag that hands a command to a running Helix over its socket.
pub const FLAG_REMOTE: &'static str = "--remote";

} // verus!
