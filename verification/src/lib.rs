pub mod bridge;
pub mod cli;
pub mod config;
pub mod dispatch;
pub mod error;
pub mod helix;
pub mod open;
pub mod protocol;
pub mod remote;
pub mod template;
pub mod text;
