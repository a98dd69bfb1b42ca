//! The bodies of the messages, as the handlers see them. How a body is laid
//! out in the payload of a frame is the caller's business.

use crate::address::Ipv4Addr;
use vstd::prelude::*;

verus! {

/// A client introduces itself.
#[derive(Clone, Copy, Debug, PartialEq, Eq, Structural)]
pub struct HelloRequest {
    /// The code that the client was given to connect with.
    pub code: i32,
}

/// The server tells a client where the camera stream is to be had and what
/// the server can do.
#[derive(Clone, Copy, Debug, PartialEq, Eq, Structural)]
pub struct HelloResponse {
    pub stream_host: Ipv4Addr,
    pub stream_port: i32,
    /// Bit 0 says that a camera is present, bit 1 that a servo is.
    pub feature_set: u32,
}

/// A client asks for the servos to turn: `dx` degrees for the lower one and
/// `dy` for the upper one at every interval, until it asks for zero and zero.
#[derive(Clone, Copy, Debug, PartialEq, Eq, Structural)]
pub struct ServoRotateRequest {
    pub dx: i32,
    pub dy: i32,
}

} // verus!
