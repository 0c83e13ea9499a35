//! Request ingestion and dispatch for an on-screen bar daemon: the wire
//! encoding of requests, the per-connection frame decoder, request
//! validation and the auto-hide state machine that drives the renderer.

pub mod client;
pub mod config;
pub mod dispatch;
pub mod error;
pub mod frame;
pub mod request;
pub mod screen;

pub use error::{Error, ErrorKind, Result};
