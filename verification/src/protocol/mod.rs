pub mod helix_cli;
pub mod socket_json;
pub mod typable;
