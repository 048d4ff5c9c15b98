//! Core of a collaborative whiteboard server: the live room/broadcast engine,
//! the wire-message protocol, and the deterministic board-to-SVG renderer.
//!
//! Everything here is verified; the surrounding HTTP/socket plumbing lives in
//! an ordinary Rust binary that calls into this crate.

pub mod data;
pub mod drawing;
pub mod json;
pub mod protocol;
pub mod rooms;
pub mod session;
pub mod store;
pub mod text;
