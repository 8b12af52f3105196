//! Encoding and decoding of whole packets: the common header with its
//! checksum, followed by chunks under the tag-length-value discipline.

use crate::error::SctpError;
use crate::packet::checksum::{crc32c, spec_crc32c};
use crate::packet::parse_utils::{
    parse_tlv, spec_be_u16, spec_padding, tlv_accepts, tlv_frame,
};
use vstd::prelude::*;
use vstd::slice::{slice_subrange, slice_to_vec};

verus! {

/// Size of the common header: two ports, the verification tag, the checksum.
pub const COMMON_HEADER_SIZE: usize = 12;

/// Offset of the checksum field within the common header.
pub const CHECKSUM_OFFSET: usize = 8;

/// The longest value that a chunk can carry: its 16-bit length field counts
/// the four header bytes too.
pub const MAX_CHUNK_VALUE_SIZE: usize = 0xFFFF - 4;

/// A chunk: a kind, eight flag bits, and a value.
#[derive(Clone, Debug)]
pub struct Chunk {
    pub chunk_type: u8,
    pub flags: u8,
    pub value: Vec<u8>,
}

/// The mathematical content of a [`Chunk`].
pub ghost struct ChunkView {
    pub chunk_type: u8,
    pub flags: u8,
    pub value: Seq<u8>,
}

impl View for Chunk {
    type V = ChunkView;

    open spec fn view(&self) -> ChunkView {
        ChunkView { chunk_type: self.chunk_type, flags: self.flags, value: self.value@ }
    }
}

/// An SCTP packet: the common header's fields and the chunks in order.  The
/// checksum is not held: encoding computes it and decoding checks it.
#[derive(Clone, Debug)]
pub struct SctpPacket {
    pub source_port: u16,
    pub destination_port: u16,
    pub verification_tag: u32,
    pub chunks: Vec<Chunk>,
}

/// The mathematical content of an [`SctpPacket`].
pub ghost struct SctpPacketView {
    pub source_port: u16,
    pub destination_port: u16,
    pub verification_tag: u32,
    pub chunks: Seq<ChunkView>,
}

impl View for SctpPacket {
    type V = SctpPacketView;

    open spec fn view(&self) -> SctpPacketView {
        SctpPacketView {
            source_port: self.source_port,
            destination_port: self.destination_port,
            verification_tag: self.verification_tag,
            chunks: Seq::new(self.chunks@.len(), |i: int| self.chunks@[i]@),
        }
    }
}

/// The two bytes of `v`, most significant first.
pub open spec fn be16_bytes(v: u16) -> Seq<u8> {
    seq![(v / 256) as u8, (v % 256) as u8]
}

/// The four bytes of `v`, most significant first.
pub open spec fn be32_bytes(v: u32) -> Seq<u8> {
    seq![
        (v / 0x100_0000) as u8,
        (v / 0x1_0000 % 256) as u8,
        (v / 0x100 % 256) as u8,
        (v % 256) as u8,
    ]
}

/// The four bytes of `v`, least significant first.
pub open spec fn le32_bytes(v: u32) -> Seq<u8> {
    seq![
        (v % 256) as u8,
        (v / 0x100 % 256) as u8,
        (v / 0x1_0000 % 256) as u8,
        (v / 0x100_0000) as u8,
    ]
}

/// The 32-bit big-endian integer at offset `at` of `s`.
pub open spec fn spec_be_u32(s: Seq<u8>, at: int) -> u32
    recommends
        0 <= at,
        at + 4 <= s.len(),
{
    (s[at] as int * 0x100_0000 + s[at + 1] as int * 0x1_0000 + s[at + 2] as int * 0x100 + s[at
        + 3] as int) as u32
}

/// The 32-bit little-endian integer at offset `at` of `s`.
pub open spec fn spec_le_u32(s: Seq<u8>, at: int) -> u32
    recommends
        0 <= at,
        at + 4 <= s.len(),
{
    (s[at] as int + s[at + 1] as int * 0x100 + s[at + 2] as int * 0x1_0000 + s[at + 3] as int
        * 0x100_0000) as u32
}

/// `n` zero bytes.
pub open spec fn zeros(n: int) -> Seq<u8> {
    Seq::new(n as nat, |i: int| 0u8)
}

impl ChunkView {
    /// A chunk can be encoded when its length fits the 16-bit length field.
    pub open spec fn well_formed(self) -> bool {
        self.value.len() + 4 <= 0xFFFF
    }

    /// The chunk on the wire: kind, flags, length including the four header
    /// bytes, the value, and zero padding up to a 4-byte boundary.
    pub open spec fn bytes(self) -> Seq<u8> {
        seq![self.chunk_type, self.flags] + be16_bytes((self.value.len() + 4) as u16) + self.value
            + zeros(spec_padding(self.value.len() as int))
    }
}

/// The chunks on the wire, one after the other.
pub open spec fn chunks_bytes(chunks: Seq<ChunkView>) -> Seq<u8>
    decreases chunks.len(),
{
    if chunks.len() == 0 {
        Seq::empty()
    } else {
        chunks[0].bytes() + chunks_bytes(chunks.drop_first())
    }
}

impl SctpPacketView {
    /// A packet can be encoded when each of its chunks can.
    pub open spec fn well_formed(self) -> bool {
        forall|i: int| 0 <= i < self.chunks.len() ==> (#[trigger] self.chunks[i]).well_formed()
    }

    /// The common header with a given checksum: ports and verification tag in
    /// network order, the checksum least significant byte first.
    pub open spec fn header(self, checksum: u32) -> Seq<u8> {
        be16_bytes(self.source_port) + be16_bytes(self.destination_port) + be32_bytes(
            self.verification_tag,
        ) + le32_bytes(checksum)
    }

    /// The packet on the wire with a zero checksum field: what the checksum
    /// is computed over.
    pub open spec fn unsigned_bytes(self) -> Seq<u8> {
        self.header(0) + chunks_bytes(self.chunks)
    }

    /// The packet on the wire.
    pub open spec fn bytes(self) -> Seq<u8> {
        self.header(spec_crc32c(self.unsigned_bytes())) + chunks_bytes(self.chunks)
    }
}

/// `bytes` with the four bytes of the checksum field set to zero.
pub open spec fn clear_checksum(bytes: Seq<u8>) -> Seq<u8>
    recommends
        bytes.len() >= 12,
{
    bytes.update(8, 0u8).update(9, 0u8).update(10, 0u8).update(11, 0u8)
}

/// Whether the checksum field of `bytes` holds the CRC-32c of the whole
/// buffer taken with that field zeroed.
pub open spec fn checksum_valid(bytes: Seq<u8>) -> bool {
    bytes.len() >= 12 && spec_le_u32(bytes, 8) == spec_crc32c(clear_checksum(bytes))
}

/// The chunk that a tag-length-value record stands for: the tag's high byte
/// is the kind, its low byte the flags.
pub open spec fn chunk_of(tag: u16, value: Seq<u8>) -> ChunkView {
    ChunkView { chunk_type: (tag / 256) as u8, flags: (tag % 256) as u8, value }
}

/// The chunks that `body` holds, if it is a run of complete records; the last
/// may come without its padding.
pub open spec fn parse_chunks(body: Seq<u8>) -> Option<Seq<ChunkView>>
    decreases body.len(),
{
    if body.len() == 0 {
        Some(Seq::empty())
    } else if !tlv_accepts(body) {
        None
    } else {
        let frame = tlv_frame(body);
        match parse_chunks(frame.rest) {
            None => None,
            Some(chunks) => Some(seq![chunk_of(frame.tag, frame.value)] + chunks),
        }
    }
}

/// What decoding `bytes` gives: a buffer shorter than the common header is
/// invalid; then the checksum must match; then the body must be a run of
/// complete chunks.
pub open spec fn spec_decode(bytes: Seq<u8>) -> Result<SctpPacketView, SctpError> {
    if bytes.len() < 12 {
        Err(SctpError::InvalidPacket)
    } else if !checksum_valid(bytes) {
        Err(SctpError::BadChecksum)
    } else {
        match parse_chunks(bytes.subrange(12, bytes.len() as int)) {
            None => Err(SctpError::InvalidPacket),
            Some(chunks) => Ok(
                SctpPacketView {
                    source_port: spec_be_u16(bytes, 0),
                    destination_port: spec_be_u16(bytes, 2),
                    verification_tag: spec_be_u32(bytes, 4),
                    chunks,
                },
            ),
        }
    }
}

/// Appending a chunk appends its bytes.
pub proof fn lemma_chunks_bytes_push(chunks: Seq<ChunkView>, chunk: ChunkView)
    ensures
        chunks_bytes(chunks.push(chunk)) == chunks_bytes(chunks) + chunk.bytes(),
    decreases chunks.len(),
{
    if chunks.len() == 0 {
        let one = chunks.push(chunk);
        assert(one.drop_first() =~= Seq::<ChunkView>::empty());
        assert(one[0] == chunk);
        assert(chunks_bytes(one.drop_first()) =~= Seq::<u8>::empty());
        assert(chunks_bytes(one) =~= chunk.bytes());
        assert(chunks_bytes(chunks) + chunk.bytes() =~= chunk.bytes());
    } else {
        lemma_chunks_bytes_push(chunks.drop_first(), chunk);
        assert(chunks.push(chunk).drop_first() =~= chunks.drop_first().push(chunk));
        assert(chunks_bytes(chunks.push(chunk)) =~= chunks_bytes(chunks) + chunk.bytes());
    }
}

/// Encoded chunks fill a whole number of 4-byte words.
pub proof fn lemma_chunks_bytes_aligned(chunks: Seq<ChunkView>)
    ensures
        chunks_bytes(chunks).len() % 4 == 0,
    decreases chunks.len(),
{
    if chunks.len() > 0 {
        lemma_chunks_bytes_aligned(chunks.drop_first());
    }
}

/// Parsing encoded chunks gives the chunks back.
pub proof fn lemma_parse_chunks_bytes(chunks: Seq<ChunkView>)
    requires
        forall|i: int| 0 <= i < chunks.len() ==> (#[trigger] chunks[i]).well_formed(),
    ensures
        parse_chunks(chunks_bytes(chunks)) == Some(chunks),
    decreases chunks.len(),
{
    if chunks.len() > 0 {
        let first = chunks[0];
        let tail = chunks.drop_first();
        let body = chunks_bytes(chunks);
        let length = first.value.len() as int;
        assert(first.well_formed());
        assert forall|i: int| 0 <= i < tail.len() implies (#[trigger] tail[i]).well_formed() by {
            assert(tail[i] == chunks[i + 1]);
        }
        lemma_parse_chunks_bytes(tail);
        assert(first.bytes().len() == 4 + length + spec_padding(length));
        assert(body == first.bytes() + chunks_bytes(tail));
        assert(body[0] == first.chunk_type);
        assert(body[1] == first.flags);
        assert(body[2] == ((length + 4) as u16 / 256) as u8);
        assert(body[3] == ((length + 4) as u16 % 256) as u8);
        assert(spec_be_u16(body, 2) == length + 4);
        assert(tlv_accepts(body));
        let frame = tlv_frame(body);
        assert(frame.value =~= first.value);
        assert(frame.rest =~= chunks_bytes(tail));
        assert(chunk_of(frame.tag, frame.value) == first);
        assert(seq![first] + tail =~= chunks);
    }
}

/// Reading back the bytes of a 16-bit or 32-bit integer gives the integer.
proof fn lemma_integer_bytes(a: u16, b: u32)
    ensures
        spec_be_u16(be16_bytes(a), 0) == a,
        spec_be_u32(be32_bytes(b), 0) == b,
        spec_le_u32(le32_bytes(b), 0) == b,
{
}

/// Where each field of the common header lies in a header followed by `body`.
proof fn lemma_header_layout(p: SctpPacketView, checksum: u32, body: Seq<u8>)
    ensures
        (p.header(checksum) + body).len() == 12 + body.len(),
        spec_be_u16(p.header(checksum) + body, 0) == p.source_port,
        spec_be_u16(p.header(checksum) + body, 2) == p.destination_port,
        spec_be_u32(p.header(checksum) + body, 4) == p.verification_tag,
        spec_le_u32(p.header(checksum) + body, 8) == checksum,
        clear_checksum(p.header(checksum) + body) == p.header(0) + body,
        (p.header(checksum) + body).subrange(12, 12 + body.len() as int) == body,
{
    let header = p.header(checksum);
    let bytes = header + body;
    let source = be16_bytes(p.source_port);
    let destination = be16_bytes(p.destination_port);
    let tag = be32_bytes(p.verification_tag);
    let sum = le32_bytes(checksum);
    assert(header.len() == 12);
    assert(header =~= seq![
        source[0],
        source[1],
        destination[0],
        destination[1],
        tag[0],
        tag[1],
        tag[2],
        tag[3],
        sum[0],
        sum[1],
        sum[2],
        sum[3],
    ]);
    assert(forall|i: int| 0 <= i < 12 ==> bytes[i] == header[i]);
    lemma_integer_bytes(p.source_port, p.verification_tag);
    lemma_integer_bytes(p.destination_port, checksum);
    assert(spec_be_u16(bytes, 0) == spec_be_u16(source, 0));
    assert(spec_be_u16(bytes, 2) == spec_be_u16(destination, 0));
    assert(spec_be_u32(bytes, 4) == spec_be_u32(tag, 0));
    assert(spec_le_u32(bytes, 8) == spec_le_u32(sum, 0));
    assert(p.header(0).len() == 12);
    assert(le32_bytes(0) =~= seq![0u8, 0u8, 0u8, 0u8]);
    assert(clear_checksum(bytes) =~= p.header(0) + body);
    assert(bytes.subrange(12, 12 + body.len() as int) =~= body);
}

/// Decoding inverts encoding: for every well-formed packet, decoding its
/// encoded form gives the packet back.
pub proof fn lemma_decode_encode(p: SctpPacketView)
    requires
        p.well_formed(),
    ensures
        spec_decode(p.bytes()) == Ok::<SctpPacketView, SctpError>(p),
{
    lemma_header_layout(p, spec_crc32c(p.unsigned_bytes()), chunks_bytes(p.chunks));
    lemma_parse_chunks_bytes(p.chunks);
}

/// The encoded form of every well-formed packet fills a whole number of
/// 4-byte words, and carries a checksum that validates.
pub proof fn lemma_encode_aligned_and_checksummed(p: SctpPacketView)
    requires
        p.well_formed(),
    ensures
        p.bytes().len() % 4 == 0,
        checksum_valid(p.bytes()),
{
    lemma_header_layout(p, spec_crc32c(p.unsigned_bytes()), chunks_bytes(p.chunks));
    lemma_chunks_bytes_aligned(p.chunks);
}

fn put_be_u16(out: &mut Vec<u8>, v: u16)
    ensures
        final(out)@ == old(out)@ + be16_bytes(v),
{
    out.push((v / 256) as u8);
    out.push((v % 256) as u8);
    assert(out@ =~= old(out)@ + be16_bytes(v));
}

fn put_be_u32(out: &mut Vec<u8>, v: u32)
    ensures
        final(out)@ == old(out)@ + be32_bytes(v),
{
    out.push((v / 0x100_0000) as u8);
    out.push((v / 0x1_0000 % 256) as u8);
    out.push((v / 0x100 % 256) as u8);
    out.push((v % 256) as u8);
    assert(out@ =~= old(out)@ + be32_bytes(v));
}

fn put_zeros(out: &mut Vec<u8>, n: usize)
    ensures
        final(out)@ == old(out)@ + zeros(n as int),
{
    let mut k: usize = 0;
    while k < n
        invariant
            k <= n,
            out@ == old(out)@ + zeros(k as int),
        decreases n - k,
    {
        out.push(0u8);
        k = k + 1;
        assert(out@ =~= old(out)@ + zeros(k as int));
    }
}

fn get_be_u16(bytes: &[u8], at: usize) -> (v: u16)
    requires
        at + 2 <= bytes@.len(),
    ensures
        v == spec_be_u16(bytes@, at as int),
{
    (bytes[at] as u16) * 256 + (bytes[at + 1] as u16)
}

fn get_be_u32(bytes: &[u8], at: usize) -> (v: u32)
    requires
        at + 4 <= bytes@.len(),
    ensures
        v == spec_be_u32(bytes@, at as int),
{
    (bytes[at] as u32) * 0x100_0000 + (bytes[at + 1] as u32) * 0x1_0000 + (bytes[at + 2] as u32)
        * 0x100 + (bytes[at + 3] as u32)
}

fn get_le_u32(bytes: &[u8], at: usize) -> (v: u32)
    requires
        at + 4 <= bytes@.len(),
    ensures
        v == spec_le_u32(bytes@, at as int),
{
    (bytes[at] as u32) + (bytes[at + 1] as u32) * 0x100 + (bytes[at + 2] as u32) * 0x1_0000 + (
    bytes[at + 3] as u32) * 0x100_0000
}

impl Chunk {
    /// Appends the chunk's wire form to `out`.
    pub fn encode_into(&self, out: &mut Vec<u8>)
        requires
            self@.well_formed(),
        ensures
            final(out)@ == old(out)@ + self@.bytes(),
    {
        let length: usize = self.value.len();
        out.push(self.chunk_type);
        out.push(self.flags);
        put_be_u16(out, (length + 4) as u16);
        out.extend_from_slice(self.value.as_slice());
        put_zeros(out, (4 - length % 4) % 4);
        assert(out@ =~= old(out)@ + self@.bytes());
    }
}

impl SctpPacket {
    /// Whether every chunk fits the 16-bit length field.
    pub fn is_well_formed(&self) -> (r: bool)
        ensures
            r == self@.well_formed(),
    {
        let mut i: usize = 0;
        while i < self.chunks.len()
            invariant
                i <= self.chunks.len(),
                forall|j: int| 0 <= j < i ==> (#[trigger] self@.chunks[j]).well_formed(),
            decreases self.chunks.len() - i,
        {
            if self.chunks[i].value.len() > MAX_CHUNK_VALUE_SIZE {
                assert(!self@.chunks[i as int].well_formed());
                return false;
            }
            i = i + 1;
        }
        true
    }

    /// Encodes the packet: the common header, then every chunk padded to a
    /// 4-byte boundary, with the CRC-32c of the whole in the checksum field.
    /// A packet with a chunk too long for its length field is refused as
    /// `InvalidPacket`.
    pub fn encode(&self) -> (r: Result<Vec<u8>, SctpError>)
        ensures
            self@.well_formed() ==> r is Ok && r.unwrap()@ == self@.bytes(),
            !self@.well_formed() ==> r == Err::<Vec<u8>, SctpError>(SctpError::InvalidPacket),
    {
        if !self.is_well_formed() {
            return Err(SctpError::InvalidPacket);
        }
        let mut out: Vec<u8> = Vec::new();
        put_be_u16(&mut out, self.source_port);
        put_be_u16(&mut out, self.destination_port);
        put_be_u32(&mut out, self.verification_tag);
        put_zeros(&mut out, 4);
        proof {
            assert(le32_bytes(0) =~= zeros(4));
            assert(out@ =~= self@.header(0));
            assert(chunks_bytes(self@.chunks.take(0)) =~= Seq::<u8>::empty());
            assert(out@ =~= self@.header(0) + chunks_bytes(self@.chunks.take(0)));
        }
        let mut i: usize = 0;
        while i < self.chunks.len()
            invariant
                i <= self.chunks.len(),
                self@.well_formed(),
                out@ == self@.header(0) + chunks_bytes(self@.chunks.take(i as int)),
            decreases self.chunks.len() - i,
        {
            proof {
                assert(self@.chunks[i as int].well_formed());
                lemma_chunks_bytes_push(self@.chunks.take(i as int), self@.chunks[i as int]);
                assert(self@.chunks.take(i as int).push(self@.chunks[i as int])
                    =~= self@.chunks.take(i + 1));
            }
            self.chunks[i].encode_into(&mut out);
            i = i + 1;
            assert(out@ =~= self@.header(0) + chunks_bytes(self@.chunks.take(i as int)));
        }
        proof {
            assert(self@.chunks.take(i as int) =~= self@.chunks);
            assert(self@.header(0).len() == 12);
        }
        let checksum: u32 = crc32c(out.as_slice());
        let ghost unsigned = out@;
        out.set(8, (checksum % 256) as u8);
        out.set(9, (checksum / 0x100 % 256) as u8);
        out.set(10, (checksum / 0x1_0000 % 256) as u8);
        out.set(11, (checksum / 0x100_0000) as u8);
        proof {
            assert(self@.header(checksum).len() == 12);
            assert(out@ =~= self@.header(checksum) + chunks_bytes(self@.chunks));
        }
        Ok(out)
    }

    /// Decodes a packet.  Fails with `InvalidPacket` on fewer than twelve
    /// bytes, with `BadChecksum` where the checksum field does not hold the
    /// CRC-32c of the buffer taken with that field zeroed, and with
    /// `InvalidPacket` where a chunk's declared length is less than its
    /// header or reaches past the buffer.  Nothing is returned of a buffer
    /// that fails part of the way.
    pub fn decode(bytes: &[u8]) -> (r: Result<SctpPacket, SctpError>)
        ensures
            match spec_decode(bytes@) {
                Ok(p) => r is Ok && r.unwrap()@ == p,
                Err(e) => r == Err::<SctpPacket, SctpError>(e),
            },
    {
        if bytes.len() < COMMON_HEADER_SIZE {
            return Err(SctpError::InvalidPacket);
        }
        let mut unsigned: Vec<u8> = slice_to_vec(bytes);
        unsigned.set(8, 0u8);
        unsigned.set(9, 0u8);
        unsigned.set(10, 0u8);
        unsigned.set(11, 0u8);
        assert(unsigned@ =~= clear_checksum(bytes@));
        if get_le_u32(bytes, CHECKSUM_OFFSET) != crc32c(unsigned.as_slice()) {
            return Err(SctpError::BadChecksum);
        }
        let body = slice_subrange(bytes, COMMON_HEADER_SIZE, bytes.len());
        let mut chunks: Vec<Chunk> = Vec::new();
        let mut rest: &[u8] = body;
        while rest.len() > 0
            invariant
                bytes@.len() >= 12,
                checksum_valid(bytes@),
                body@ == bytes@.subrange(12, bytes@.len() as int),
                parse_chunks(body@) == match parse_chunks(rest@) {
                    None => None::<Seq<ChunkView>>,
                    Some(more) => Some(Seq::new(chunks@.len(), |i: int| chunks@[i]@) + more),
                },
            decreases rest@.len(),
        {
            let ghost before = Seq::new(chunks@.len(), |i: int| chunks@[i]@);
            let tlv = match parse_tlv(rest) {
                Ok(tlv) => tlv,
                Err(_) => { return Err(SctpError::InvalidPacket); },
            };
            let chunk = Chunk {
                chunk_type: (tlv.tag / 256) as u8,
                flags: (tlv.tag % 256) as u8,
                value: slice_to_vec(tlv.value),
            };
            proof {
                assert(chunk@ == chunk_of(tlv@.tag, tlv@.value));
                assert(tlv@.rest.len() < rest@.len());
            }
            chunks.push(chunk);
            proof {
                let after = Seq::new(chunks@.len(), |i: int| chunks@[i]@);
                assert(after =~= before.push(chunk@));
                match parse_chunks(tlv@.rest) {
                    None => {},
                    Some(more) => {
                        assert(before + (seq![chunk@] + more) =~= after + more);
                    },
                }
            }
            rest = tlv.rest;
        }
        let packet = SctpPacket {
            source_port: get_be_u16(bytes, 0),
            destination_port: get_be_u16(bytes, 2),
            verification_tag: get_be_u32(bytes, 4),
            chunks,
        };
        proof {
            assert(parse_chunks(rest@) == Some(Seq::<ChunkView>::empty()));
            assert(packet@.chunks + Seq::<ChunkView>::empty() =~= packet@.chunks);
        }
        Ok(packet)
    }
}

} // verus!
