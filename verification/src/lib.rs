//! Session protocol engine of a network-attached camera and pan-tilt controller.
//!
//! Remote clients speak a small framed binary protocol over one connection
//! each. This crate holds the parts that decide:
//!
//! - [`networking`]: the message types and the wire format of a frame;
//! - [`reader`]: the per-connection reader, which turns bytes into events;
//! - [`registry`]: the write handles of the live connections;
//! - [`server`]: the session coordinator, which counts connections, arbitrates
//!   the camera and answers requests;
//! - [`servo`]: the servo command pipeline;
//! - [`messages`]: the bodies of the messages;
//! - [`camera`]: what the camera's configuration says;
//! - [`address`]: which address the server announces.
//!
//! Sockets, timers, processes and hardware stay with the caller, which
//! performs what the functions here return.

pub mod address;
pub mod camera;
pub mod messages;
pub mod networking;
pub mod reader;
pub mod registry;
pub mod server;
pub mod servo;
