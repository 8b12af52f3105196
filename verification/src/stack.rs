//! The protocol stack and its lower-layer transports.

use crate::packet::codec::SctpPacket;
use crate::stack::lowerlayer::LowerLayerAddress;
use vstd::prelude::*;

pub mod association;
pub mod reception;
pub mod stream;
pub mod transmission;
pub mod lowerlayer;

verus! {

/// An SCTP packet together with the lower-layer address of the peer that it
/// came from or goes to.
#[derive(Clone, Debug)]
pub struct Packet {
    pub sctp_packet: SctpPacket,
    pub llp_address: LowerLayerAddress,
}

} // verus!
