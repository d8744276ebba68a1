//! Trust in the MCP servers that a project defines.
//!
//! A project can define MCP servers that are local commands. None of them runs before the user has
//! approved it: the configuration is reviewed and shown, and the approval is filed under the
//! project with a fingerprint of everything that was approved. A configuration with another
//! fingerprint has to be approved again.
pub mod command;
pub mod config;
pub mod display;
pub mod fingerprint;
pub mod json;
pub mod laws;
pub mod maps;
pub mod meaning;
pub mod paths;
pub mod review;
pub mod store;
pub mod text;
