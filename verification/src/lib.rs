//! Minimal HTTP/1.0-1.1 response reconstruction layer.
//!
//! The crate parses raw status and header lines delivered by a byte-oriented
//! transfer engine, accumulates them into a structured response across
//! redirect hops, and computes the per-request configuration that the engine
//! needs. All parsing and state-machine logic is verified; the engine itself
//! (network I/O) stays outside.

pub mod ascii_to_int;
pub mod assembler;
pub mod dispatch;
pub mod error;
pub mod headers;
pub mod native_ui;
pub mod parser;
