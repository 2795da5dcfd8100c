//! Verified core of the IntelliJ-engine integration for Zed: LSP framing,
//! the proxy's interception table, rewriting of decompiled-archive locations,
//! the control channel and debug adapter decisions, settings, the EULA gate,
//! backend acquisition and the server command line.

pub mod text;
pub mod buildfiles;
pub mod frame;
pub mod uri;
pub mod rewrite;
pub mod json;
pub mod eula;
pub mod config;
pub mod paths;
pub mod server;
pub mod install;
pub mod fetch;
pub mod proxy;
pub mod dap;
pub mod router;
pub mod control;
pub mod extension;
