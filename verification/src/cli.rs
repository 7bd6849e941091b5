use vstd::prelude::*;

use crate::error::BridgeError;
use crate::protocol::helix_cli::HX_BIN;
use vstd::string::StringExecFns;

verus! {

/// The config file looked for in the working directory when none is named.
pub const DEFAULT_CONFIG_FILE: &'static str = "broozelix-bridge.toml";

/// The command line: global options and the subcommand. Paths are held as text.
#[derive(Debug)]
pub struct Cli {
    /// Path to handler config (overrides BROOZELIX_BRIDGE_CONFIG).
    pub config: Option<String>,
    /// Helix binary (default: hx on PATH).
    pub hx: Option<String>,
    /// Helix Unix socket (overrides HELIX_SOCKET_PATH).
    pub helix_socket: Option<String>,
    /// Log at info level rather than warn.
    pub verbose: bool,
    pub command: Command,
}

/// The subcommands.
#[derive(Debug)]
pub enum Command {
    /// Open a file in Helix (optional :line[:column] suffix).
    Open { path: String },
    /// Pass a typable or JSON command to Helix via hx --remote.
    Remote { cmd: String },
    /// Subscribe to Helix events and run configured handlers.
    Bridge,
}

/// The Helix binary that a command line names.
pub open spec fn helix_bin_of(cli: Cli) -> Seq<char> {
    match cli.hx {
        Some(p) => p@,
        None => "hx"@,
    }
}

impl Cli {
    /// The Helix binary: `--hx` when given, else `hx`.
    pub fn helix_bin(&self) -> (r: &str)
        ensures
            r@ == helix_bin_of(*self),
    {
        match &self.hx {
            Some(p) => p.as_str(),
            None => HX_BIN,
        }
    }

    /// The Helix socket: `--helix-socket` when given, else the value of
    /// `HELIX_SOCKET_PATH` (`env_socket`, `None` when unset).
    pub fn helix_socket(&self, env_socket: Option<String>) -> (r: Result<String, BridgeError>)
        ensures
            match (self.helix_socket, env_socket) {
                (Some(p), _) => r matches Ok(s) && s@ == p@,
                (None, Some(e)) => r matches Ok(s) && s@ == e@,
                (None, None) => r == Err::<String, BridgeError>(BridgeError::HelixSocketUnset),
            },
    {
        if let Some(path) = &self.helix_socket {
            return Ok(path.clone());
        }
        match env_socket {
            Some(path) => Ok(path),
            None => Err(BridgeError::HelixSocketUnset),
        }
    }

    /// The config file: `--config` when given, else the value of `BROOZELIX_BRIDGE_CONFIG`
    /// (`env_config`, `None` when unset), else `broozelix-bridge.toml` when that is a file
    /// (`default_is_file`).
    pub fn config_path(&self, env_config: Option<String>, default_is_file: bool) -> (r: Result<
        String,
        BridgeError,
    >)
        ensures
            match (self.config, env_config) {
                (Some(p), _) => r matches Ok(s) && s@ == p@,
                (None, Some(e)) => r matches Ok(s) && s@ == e@,
                (None, None) => if default_is_file {
                    r matches Ok(s) && s@ == "broozelix-bridge.toml"@
                } else {
                    r == Err::<String, BridgeError>(BridgeError::ConfigNotSpecified)
                },
            },
    {
        if let Some(path) = &self.config {
            return Ok(path.clone());
        }
        if let Some(path) = env_config {
            return Ok(path);
        }
        if default_is_file {
            return Ok(String::from_str(DEFAULT_CONFIG_FILE));
        }
        Err(BridgeError::ConfigNotSpecified)
    }
}

/// A given `--hx` is always the program run, whatever it looks like; without one, `hx`.
pub proof fn lemma_given_binary_is_run(cli: Cli)
    ensures
        cli.hx matches Some(p) ==> helix_bin_of(cli) == p@,
        cli.hx is None ==> helix_bin_of(cli) == "hx"@,
{
}

} // verus!
