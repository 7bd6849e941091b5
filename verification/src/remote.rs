use vstd::prelude::*;

use crate::cli::{helix_bin_of, Cli};
use crate::error::BridgeError;
use crate::helix::{remote_invocation, Invocation};
use crate::text::texts_of;

verus! {

/// What passing a command to Helix needs from outside: the socket, and the process to run.
#[derive(Debug)]
pub struct RemoteRequest {
    pub socket: String,
    pub invocation: Invocation,
}

/// The first step of `remote`: resolve the socket (`env_socket` is the value of
/// `HELIX_SOCKET_PATH`), then build `hx --remote <cmd>`.
pub fn run(cli: &Cli, cmd: &str, env_socket: Option<String>) -> (r: Result<RemoteRequest, BridgeError>)
    ensures
        match (cli.helix_socket, env_socket) {
            (Some(p), _) => r matches Ok(q) && q.socket@ == p@,
            (None, Some(e)) => r matches Ok(q) && q.socket@ == e@,
            (None, None) => r == Err::<RemoteRequest, BridgeError>(BridgeError::HelixSocketUnset),
        },
        r matches Ok(q) ==> q.invocation.program@ == helix_bin_of(*cli) && texts_of(
            q.invocation.args@,
        ) == seq!["--remote"@, cmd@],
{
    let socket = cli.helix_socket(env_socket)?;
    let invocation = remote_invocation(cli, cmd);
    Ok(RemoteRequest { socket, invocation })
}

} // verus!
