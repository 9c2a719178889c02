//! eddi: a hidden-service bridge with a message broker and a time-bucketed
//! rendezvous handshake.

pub mod bridge;
pub mod broker;
pub mod client;
pub mod config;
pub mod handshake;
pub mod http;
pub mod message;
pub mod platform;
pub mod process;
pub mod storage;
pub mod text;
pub mod wire;

pub use process::ProcessConfig;
