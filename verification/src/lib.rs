//! Sharing files between the devices of a local network.
//!
//! The library decides and computes; files, sockets and connections are the business of the
//! programs around it.

mod calls;
pub mod text;
pub mod wire;
pub mod digest;
pub mod error;
pub mod paths;
pub mod index;
pub mod sort;
pub mod explore;
pub mod tally;
pub mod transfer;
pub mod peers;
pub mod trust;
pub mod identity;
pub mod config;
pub mod discovery;
pub mod server;
pub mod gui;
pub mod vault;
pub mod android;
pub mod gather;
pub mod console;
pub mod probe;
