use broozelix_bridge::cli::{Cli, Command};
use broozelix_bridge::error::BridgeError;

fn cli(config: Option<&str>, hx: Option<&str>, socket: Option<&str>) -> Cli {
    Cli {
        config: config.map(String::from),
        hx: hx.map(String::from),
        helix_socket: socket.map(String::from),
        verbose: false,
        command: Command::Bridge,
    }
}

#[test]
fn helix_bin_defaults_to_hx() {
    assert_eq!(cli(None, None, None).helix_bin(), "hx");
    assert_eq!(cli(None, Some("/opt/helix/hx"), None).helix_bin(), "/opt/helix/hx");
}

#[test]
fn helix_socket_prefers_the_flag() {
    let with_flag = cli(None, None, Some("/flag.sock"));
    assert_eq!(with_flag.helix_socket(Some(String::from("/env.sock"))).unwrap(), "/flag.sock");
    let without = cli(None, None, None);
    assert_eq!(without.helix_socket(Some(String::from("/env.sock"))).unwrap(), "/env.sock");
    let e = without.helix_socket(None).unwrap_err();
    assert_eq!(e, BridgeError::HelixSocketUnset);
    assert_eq!(e.message(), "HELIX_SOCKET_PATH is not set (use --helix-socket)");
}

#[test]
fn config_path_order() {
    let with_flag = cli(Some("/etc/bb.toml"), None, None);
    assert_eq!(with_flag.config_path(Some(String::from("/env.toml")), true).unwrap(), "/etc/bb.toml");
    let without = cli(None, None, None);
    assert_eq!(without.config_path(Some(String::from("/env.toml")), true).unwrap(), "/env.toml");
    assert_eq!(without.config_path(None, true).unwrap(), "broozelix-bridge.toml");
    let e = without.config_path(None, false).unwrap_err();
    assert_eq!(e, BridgeError::ConfigNotSpecified);
    assert_eq!(
        e.message(),
        "config not specified (use --config, BROOZELIX_BRIDGE_CONFIG, or ./broozelix-bridge.toml)"
    );
}
