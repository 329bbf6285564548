//! A synchronous inter-process bridge for a line-oriented JSON protocol.
//!
//! The library covers the protocol logic of a desktop shell that talks to a
//! long-lived worker process over newline-delimited JSON frames: the request
//! and response data model, the frame codec, the bridge's call contract and
//! error taxonomy, and the thin command surface that shapes worker replies.
//! Process spawning and pipe I/O live outside the library; the bridge's
//! decisions are pure functions over the values those pipes carry.

pub mod request;
pub mod text;
pub mod codec;
pub mod envelope;
pub mod bridge;
pub mod surface;
