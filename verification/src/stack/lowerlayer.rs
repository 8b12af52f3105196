//! SCTP packets are encapsulated into a lower-layer protocol (LLP) for transmission.  Using UDP as
//! an LLP is convenient for testing interoperability with other stacks, although for WebRTC data
//! channels the lower layer protocol will be DTLS.
//!
//! The transport itself lives outside this library.  Here are the values that cross the
//! boundary, and the decisions taken on what a non-blocking socket reports.

use crate::error::SctpError;
use crate::packet::codec::{spec_decode, SctpPacket};
use crate::stack::Packet;
use vstd::prelude::*;

verus! {

/// `bytes::Bytes`, an immutable shared byte buffer.
#[verifier::external_type_specification]
#[verifier::external_body]
pub struct ExBytes(bytes::Bytes);

/// `bytes::BytesMut`, a byte buffer under construction.
#[verifier::external_type_specification]
#[verifier::external_body]
pub struct ExBytesMut(bytes::BytesMut);

/// The bytes that a `Bytes` holds, in order.
pub uninterp spec fn bytes_contents(b: bytes::Bytes) -> Seq<u8>;

/// The bytes that a `BytesMut` holds, in order.
pub uninterp spec fn bytes_mut_contents(b: bytes::BytesMut) -> Seq<u8>;

/// The capacity that a `BytesMut` was created with: it takes at least that
/// many bytes.
pub uninterp spec fn bytes_mut_limit(b: bytes::BytesMut) -> nat;

/// `Bytes::from(Vec<u8>)`: the buffer holds exactly the vector's bytes.
#[verifier::external_body]
fn bytes_from_vec(v: Vec<u8>) -> (b: bytes::Bytes)
    ensures
        bytes_contents(b) == v@,
{
    bytes::Bytes::from(v)
}

/// `BytesMut::with_capacity`: an empty buffer with room for at least
/// `capacity` bytes.
#[verifier::external_body]
fn bytes_mut_with_capacity(capacity: usize) -> (b: bytes::BytesMut)
    ensures
        bytes_mut_contents(b) == Seq::<u8>::empty(),
        bytes_mut_limit(b) == capacity,
{
    bytes::BytesMut::with_capacity(capacity)
}

/// `BufMut::put_slice` on a `BytesMut`: appends `src`.  It panics where the
/// remaining capacity is too small, so the bytes must fit the capacity that
/// the buffer was created with.
#[verifier::external_body]
fn bytes_mut_put_slice(b: &mut bytes::BytesMut, src: &[u8])
    requires
        bytes_mut_contents(*old(b)).len() + src@.len() <= bytes_mut_limit(*old(b)),
    ensures
        bytes_mut_contents(*final(b)) == bytes_mut_contents(*old(b)) + src@,
        bytes_mut_limit(*final(b)) == bytes_mut_limit(*old(b)),
{
    bytes::BufMut::put_slice(b, src)
}

/// `BytesMut::freeze`: the same bytes, now immutable.
#[verifier::external_body]
fn bytes_mut_freeze(b: bytes::BytesMut) -> (r: bytes::Bytes)
    ensures
        bytes_contents(r) == bytes_mut_contents(b),
{
    b.freeze()
}

/// `Deref` of a `Bytes`: the slice of the bytes that it holds.
#[verifier::external_body]
fn bytes_as_slice<'a>(b: &'a bytes::Bytes) -> (s: &'a [u8])
    ensures
        s@ == bytes_contents(*b),
{
    &b[..]
}

/// `std::io::Error::kind`, asked whether it is `WouldBlock`.  Nothing is
/// claimed of the answer.
#[verifier::external_body]
fn is_would_block(e: &std::io::Error) -> bool {
    matches!(e.kind(), std::io::ErrorKind::WouldBlock)
}

/// The IANA-assigned UDP port number for encapsulating SCTP, as defined in RFC 6951.
pub const SCTP_UDP_TUNNELING_PORT: u16 = 9899;

/// For testing purposes, the destination UDP port for outgoing connections.
pub const SCTP_UDP_TUNNELING_PORT_OUTGOING: u16 = 9900;

/// The size of the buffer that one datagram is received into.
pub const RECEIVE_BUFFER_SIZE: usize = 1500;

/// The address of a lower-layer peer: an IP address as one integer, most
/// significant byte first, and a port; for IPv6 also the flow information and
/// the scope.
#[derive(Clone, Copy, Debug, PartialEq, Eq, Structural)]
#[allow(inconsistent_fields)]
pub enum LowerLayerAddress {
    V4 { ip: u32, port: u16 },
    V6 { ip: u128, port: u16, flowinfo: u32, scope_id: u32 },
}

/// One datagram of the lower layer: its bytes, and the peer that it came from
/// or goes to.
#[derive(Debug)]
pub struct LowerLayerPacket {
    pub buffer: bytes::Bytes,
    pub address: LowerLayerAddress,
}

/// Whether a non-blocking operation completed.
#[derive(Debug)]
pub enum Readiness<T> {
    Ready(T),
    NotReady,
}

/// Whether a non-blocking send took the item; if not, the item comes back.
#[derive(Debug)]
pub enum SinkReadiness<T> {
    Ready,
    NotReady(T),
}

/// What a non-blocking socket operation reported.
#[derive(Debug)]
pub enum SocketEvent<T> {
    Ready(T),
    NotReady,
    Failed(std::io::Error),
}

/// The address that the UDP lower layer binds to: IPv4 localhost, on the
/// port assigned to SCTP over UDP.
pub fn udp_tunneling_address() -> (a: LowerLayerAddress)
    ensures
        a == (LowerLayerAddress::V4 { ip: 0x7F00_0001u32, port: 9899u16 }),
{
    LowerLayerAddress::V4 { ip: 0x7F00_0001, port: SCTP_UDP_TUNNELING_PORT }
}

/// Render an SCTP packet into a lower layer packet.
pub fn packet_to_lower_layer(packet: &Packet) -> (r: LowerLayerPacket)
    requires
        packet.sctp_packet@.well_formed(),
    ensures
        bytes_contents(r.buffer) == packet.sctp_packet@.bytes(),
        r.address == packet.llp_address,
{
    let destination = packet.llp_address;
    let rendered = packet.sctp_packet.encode().unwrap();
    LowerLayerPacket { buffer: bytes_from_vec(rendered), address: destination }
}

/// Decode a lower layer packet into an SCTP packet, which keeps the address
/// of the peer; a datagram that does not decode is refused with the codec's
/// error.
pub fn packet_from_lower_layer(datagram: &LowerLayerPacket) -> (r: Result<Packet, SctpError>)
    ensures
        match spec_decode(bytes_contents(datagram.buffer)) {
            Ok(p) => r is Ok && r.unwrap().sctp_packet@ == p && r.unwrap().llp_address
                == datagram.address,
            Err(e) => r == Err::<Packet, SctpError>(e),
        },
{
    match SctpPacket::decode(bytes_as_slice(&datagram.buffer)) {
        Ok(sctp_packet) => Ok(Packet { sctp_packet, llp_address: datagram.address }),
        Err(e) => Err(e),
    }
}

/// Frame the first `nbytes` bytes of a receive buffer as a datagram from
/// `address`.
pub fn frame_datagram(buffer: &[u8], nbytes: usize, address: LowerLayerAddress) -> (r:
    LowerLayerPacket)
    requires
        nbytes <= buffer@.len(),
    ensures
        bytes_contents(r.buffer) == buffer@.take(nbytes as int),
        r.address == address,
{
    let mut bytes = bytes_mut_with_capacity(nbytes);
    let received = vstd::slice::slice_subrange(buffer, 0, nbytes);
    bytes_mut_put_slice(&mut bytes, received);
    assert(Seq::<u8>::empty() + received@ =~= buffer@.take(nbytes as int));
    LowerLayerPacket { buffer: bytes_mut_freeze(bytes), address }
}

/// What a failed receive means, given whether the failure was that the
/// operation would block: that is no failure, only "not ready"; any other
/// error is passed on.
pub fn receive_failure(e: std::io::Error, would_block: bool) -> (r: Result<
    Readiness<Option<LowerLayerPacket>>,
    std::io::Error,
>)
    ensures
        would_block ==> r == Ok::<Readiness<Option<LowerLayerPacket>>, std::io::Error>(
            Readiness::NotReady,
        ),
        !would_block ==> r == Err::<Readiness<Option<LowerLayerPacket>>, std::io::Error>(e),
{
    if would_block {
        Ok(Readiness::NotReady)
    } else {
        Err(e)
    }
}

/// What the receive side yields for what the socket reported on a receive
/// into `buffer`: a received datagram is framed with its peer's address;
/// "not ready" stays so; a failure is "not ready" where the operation would
/// only have blocked, and is passed on otherwise.
pub fn receive_outcome(buffer: &[u8], event: SocketEvent<(usize, LowerLayerAddress)>) -> (r:
    Result<Readiness<Option<LowerLayerPacket>>, std::io::Error>)
    requires
        event matches SocketEvent::Ready((nbytes, _)) ==> nbytes <= buffer@.len(),
    ensures
        match event {
            SocketEvent::Ready((nbytes, address)) => r matches Ok(Readiness::Ready(Some(datagram)))
                && bytes_contents(datagram.buffer) == buffer@.take(nbytes as int)
                && datagram.address == address,
            SocketEvent::NotReady => r == Ok::<
                Readiness<Option<LowerLayerPacket>>,
                std::io::Error,
            >(Readiness::NotReady),
            SocketEvent::Failed(e) => r == Ok::<Readiness<Option<LowerLayerPacket>>, std::io::Error>(
                Readiness::NotReady,
            ) || r == Err::<Readiness<Option<LowerLayerPacket>>, std::io::Error>(e),
        },
{
    match event {
        SocketEvent::Ready((nbytes, address)) => Ok(
            Readiness::Ready(Some(frame_datagram(buffer, nbytes, address))),
        ),
        SocketEvent::NotReady => Ok(Readiness::NotReady),
        SocketEvent::Failed(e) => {
            let would_block = is_would_block(&e);
            receive_failure(e, would_block)
        },
    }
}

/// What a failed send means, given whether the failure was that the
/// operation would block: then the datagram comes back to be sent again;
/// any other error is passed on.
pub fn send_failure(datagram: LowerLayerPacket, e: std::io::Error, would_block: bool) -> (r:
    Result<SinkReadiness<LowerLayerPacket>, std::io::Error>)
    ensures
        would_block ==> r == Ok::<SinkReadiness<LowerLayerPacket>, std::io::Error>(
            SinkReadiness::NotReady(datagram),
        ),
        !would_block ==> r == Err::<SinkReadiness<LowerLayerPacket>, std::io::Error>(e),
{
    if would_block {
        Ok(SinkReadiness::NotReady(datagram))
    } else {
        Err(e)
    }
}

/// What the send side answers for what the socket reported on sending
/// `datagram`: taken; or not ready, with the datagram handed back so that
/// nothing is dropped under back-pressure; or the error.
pub fn send_outcome(datagram: LowerLayerPacket, event: SocketEvent<usize>) -> (r: Result<
    SinkReadiness<LowerLayerPacket>,
    std::io::Error,
>)
    ensures
        match event {
            SocketEvent::Ready(_) => r == Ok::<SinkReadiness<LowerLayerPacket>, std::io::Error>(
                SinkReadiness::Ready,
            ),
            SocketEvent::NotReady => r == Ok::<SinkReadiness<LowerLayerPacket>, std::io::Error>(
                SinkReadiness::NotReady(datagram),
            ),
            SocketEvent::Failed(e) => r == Ok::<SinkReadiness<LowerLayerPacket>, std::io::Error>(
                SinkReadiness::NotReady(datagram),
            ) || r == Err::<SinkReadiness<LowerLayerPacket>, std::io::Error>(e),
        },
{
    match event {
        SocketEvent::Ready(_) => Ok(SinkReadiness::Ready),
        SocketEvent::NotReady => Ok(SinkReadiness::NotReady(datagram)),
        SocketEvent::Failed(e) => {
            let would_block = is_would_block(&e);
            send_failure(datagram, e, would_block)
        },
    }
}

} // verus!
