//! Core pieces of a user-space SCTP stack for WebRTC data channels: the error
//! kinds, the tag-length-value framing and packet codec, and the values that
//! travel between the stack and its lower-layer datagram transport.

pub mod error;
pub mod packet;
pub mod stack;
