//! Core of a container build-and-isolation engine: cache keys for build
//! recipes, sandboxed command preparation, and per-node firewall rules.
pub mod command;
pub mod digest;
pub mod network;
pub mod text;
pub mod version;
