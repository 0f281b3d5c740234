//! The decisions behind `domcp`, which runs MCP server commands inside a container.
//!
//! Everything here is a function from plain values to plain values, with a contract that
//! is proved. Processes, files, sockets and the environment belong to the program around it.

pub mod platform;
pub mod text;
pub mod os_text;
pub mod transport;
pub mod packages;
pub mod mounts;
pub mod container;
pub mod dockerfile;
pub mod cli;
pub mod proxy;
pub mod runner;
