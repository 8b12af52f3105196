//! What the chunks of a packet mean: their kinds, what to do with a kind
//! that is not recognised, and the layout of DATA.

use crate::error::SctpError;
use crate::packet::codec::{be16_bytes, be32_bytes, spec_be_u32, Chunk, ChunkView};
use crate::packet::parse_utils::spec_be_u16;
use crate::stack::stream::{DataChunk, DataChunkView};
use vstd::prelude::*;
use vstd::slice::{slice_subrange, slice_to_vec};

verus! {

/// The kinds of chunk that this stack recognises.
#[derive(Clone, Copy, Debug, PartialEq, Eq, Structural)]
pub enum ChunkKind {
    Data,
    Init,
    InitAck,
    Sack,
    Heartbeat,
    HeartbeatAck,
    Abort,
    Shutdown,
    ShutdownAck,
    Error,
    CookieEcho,
    CookieAck,
    ShutdownComplete,
}

/// What to do with a chunk or parameter whose tag is not recognised.
#[derive(Clone, Copy, Debug, PartialEq, Eq, Structural)]
pub enum UnrecognizedAction {
    /// Stop processing the packet and discard the rest.
    Stop,
    /// Stop processing the packet, and report the tag to the sender.
    StopAndReport,
    /// Skip this one and go on.
    Skip,
    /// Skip this one and go on, and report the tag to the sender.
    SkipAndReport,
}

impl ChunkKind {
    /// The type byte that stands for this kind on the wire.
    pub open spec fn spec_wire_type(self) -> u8 {
        match self {
            ChunkKind::Data => 0,
            ChunkKind::Init => 1,
            ChunkKind::InitAck => 2,
            ChunkKind::Sack => 3,
            ChunkKind::Heartbeat => 4,
            ChunkKind::HeartbeatAck => 5,
            ChunkKind::Abort => 6,
            ChunkKind::Shutdown => 7,
            ChunkKind::ShutdownAck => 8,
            ChunkKind::Error => 9,
            ChunkKind::CookieEcho => 10,
            ChunkKind::CookieAck => 11,
            ChunkKind::ShutdownComplete => 14,
        }
    }

    /// The kind that a type byte stands for, if it is recognised.
    pub open spec fn spec_from_wire_type(chunk_type: u8) -> Option<ChunkKind> {
        if chunk_type == 0 {
            Some(ChunkKind::Data)
        } else if chunk_type == 1 {
            Some(ChunkKind::Init)
        } else if chunk_type == 2 {
            Some(ChunkKind::InitAck)
        } else if chunk_type == 3 {
            Some(ChunkKind::Sack)
        } else if chunk_type == 4 {
            Some(ChunkKind::Heartbeat)
        } else if chunk_type == 5 {
            Some(ChunkKind::HeartbeatAck)
        } else if chunk_type == 6 {
            Some(ChunkKind::Abort)
        } else if chunk_type == 7 {
            Some(ChunkKind::Shutdown)
        } else if chunk_type == 8 {
            Some(ChunkKind::ShutdownAck)
        } else if chunk_type == 9 {
            Some(ChunkKind::Error)
        } else if chunk_type == 10 {
            Some(ChunkKind::CookieEcho)
        } else if chunk_type == 11 {
            Some(ChunkKind::CookieAck)
        } else if chunk_type == 14 {
            Some(ChunkKind::ShutdownComplete)
        } else {
            None
        }
    }

    /// Every kind is recognised again from its type byte.
    pub proof fn lemma_wire_type_round_trip(self)
        ensures
            ChunkKind::spec_from_wire_type(self.spec_wire_type()) == Some(self),
    {
    }

    /// The type byte that stands for this kind on the wire.
    pub fn wire_type(self) -> (t: u8)
        ensures
            t == self.spec_wire_type(),
    {
        match self {
            ChunkKind::Data => 0,
            ChunkKind::Init => 1,
            ChunkKind::InitAck => 2,
            ChunkKind::Sack => 3,
            ChunkKind::Heartbeat => 4,
            ChunkKind::HeartbeatAck => 5,
            ChunkKind::Abort => 6,
            ChunkKind::Shutdown => 7,
            ChunkKind::ShutdownAck => 8,
            ChunkKind::Error => 9,
            ChunkKind::CookieEcho => 10,
            ChunkKind::CookieAck => 11,
            ChunkKind::ShutdownComplete => 14,
        }
    }

    /// The kind that a type byte stands for, if it is recognised.
    pub fn from_wire_type(chunk_type: u8) -> (k: Option<ChunkKind>)
        ensures
            k == ChunkKind::spec_from_wire_type(chunk_type),
    {
        match chunk_type {
            0 => Some(ChunkKind::Data),
            1 => Some(ChunkKind::Init),
            2 => Some(ChunkKind::InitAck),
            3 => Some(ChunkKind::Sack),
            4 => Some(ChunkKind::Heartbeat),
            5 => Some(ChunkKind::HeartbeatAck),
            6 => Some(ChunkKind::Abort),
            7 => Some(ChunkKind::Shutdown),
            8 => Some(ChunkKind::ShutdownAck),
            9 => Some(ChunkKind::Error),
            10 => Some(ChunkKind::CookieEcho),
            11 => Some(ChunkKind::CookieAck),
            14 => Some(ChunkKind::ShutdownComplete),
            _ => None,
        }
    }
}

/// What the two high-order bits of the first byte of an unrecognised tag ask
/// for: 00 stop, 01 stop and report, 10 skip, 11 skip and report.
pub open spec fn spec_unrecognized_action(first_byte: u8) -> UnrecognizedAction {
    if first_byte < 64 {
        UnrecognizedAction::Stop
    } else if first_byte < 128 {
        UnrecognizedAction::StopAndReport
    } else if first_byte < 192 {
        UnrecognizedAction::Skip
    } else {
        UnrecognizedAction::SkipAndReport
    }
}

/// What to do with a chunk whose type byte, or a parameter the first byte of
/// whose tag, is `first_byte` and is not recognised.
pub fn unrecognized_action(first_byte: u8) -> (a: UnrecognizedAction)
    ensures
        a == spec_unrecognized_action(first_byte),
{
    if first_byte < 64 {
        UnrecognizedAction::Stop
    } else if first_byte < 128 {
        UnrecognizedAction::StopAndReport
    } else if first_byte < 192 {
        UnrecognizedAction::Skip
    } else {
        UnrecognizedAction::SkipAndReport
    }
}

/// The size of what stands before the payload in the value of a DATA chunk:
/// TSN, stream id, SSN and payload protocol identifier.
pub const DATA_HEADER_SIZE: usize = 12;

/// The flag bits of a DATA chunk: E is 1, B is 2, U is 4.
pub open spec fn data_flags(unordered: bool, beginning: bool, ending: bool) -> u8 {
    ((if unordered {
        4int
    } else {
        0int
    }) + (if beginning {
        2int
    } else {
        0int
    }) + (if ending {
        1int
    } else {
        0int
    })) as u8
}

/// The chunk that carries a DATA: type 0, the flags, and as value the TSN,
/// the stream id, the SSN and the payload protocol identifier in network
/// order, then the payload.
pub open spec fn spec_data_to_chunk(data: DataChunkView) -> ChunkView {
    ChunkView {
        chunk_type: 0,
        flags: data_flags(data.unordered, data.beginning, data.ending),
        value: be32_bytes(data.tsn) + be16_bytes(data.stream_id) + be16_bytes(data.ssn)
            + be32_bytes(data.ppid) + data.payload,
    }
}

/// The DATA that a chunk carries: the chunk must be of type 0 and hold the
/// twelve bytes before the payload.  Flag bits above U are not looked at.
pub open spec fn spec_chunk_to_data(chunk: ChunkView) -> Result<DataChunkView, SctpError> {
    if chunk.chunk_type != 0 || chunk.value.len() < 12 {
        Err(SctpError::InvalidPacket)
    } else {
        Ok(
            DataChunkView {
                tsn: spec_be_u32(chunk.value, 0),
                stream_id: spec_be_u16(chunk.value, 4),
                ssn: spec_be_u16(chunk.value, 6),
                ppid: spec_be_u32(chunk.value, 8),
                unordered: chunk.flags / 4 % 2 == 1,
                beginning: chunk.flags / 2 % 2 == 1,
                ending: chunk.flags % 2 == 1,
                payload: chunk.value.subrange(12, chunk.value.len() as int),
            },
        )
    }
}

/// Reading a DATA back from the chunk that carries it gives the DATA.
pub proof fn lemma_data_chunk_round_trip(data: DataChunkView)
    ensures
        spec_chunk_to_data(spec_data_to_chunk(data)) == Ok::<DataChunkView, SctpError>(data),
{
    let value = spec_data_to_chunk(data).value;
    let tsn = be32_bytes(data.tsn);
    let stream = be16_bytes(data.stream_id);
    let ssn = be16_bytes(data.ssn);
    let ppid = be32_bytes(data.ppid);
    assert(value.len() == 12 + data.payload.len());
    assert(value[0] == tsn[0] && value[1] == tsn[1] && value[2] == tsn[2] && value[3] == tsn[3]);
    assert(value[4] == stream[0] && value[5] == stream[1]);
    assert(value[6] == ssn[0] && value[7] == ssn[1]);
    assert(value[8] == ppid[0] && value[9] == ppid[1] && value[10] == ppid[2] && value[11]
        == ppid[3]);
    assert(spec_be_u32(value, 0) == data.tsn);
    assert(spec_be_u16(value, 4) == data.stream_id);
    assert(spec_be_u16(value, 6) == data.ssn);
    assert(spec_be_u32(value, 8) == data.ppid);
    assert(value.subrange(12, value.len() as int) =~= data.payload);
}

/// Lays a DATA out as a chunk.
pub fn data_to_chunk(data: &DataChunk) -> (c: Chunk)
    ensures
        c@ == spec_data_to_chunk(data@),
{
    let mut flags: u8 = 0;
    if data.unordered {
        flags = flags + 4;
    }
    if data.beginning {
        flags = flags + 2;
    }
    if data.ending {
        flags = flags + 1;
    }
    let mut value: Vec<u8> = Vec::new();
    value.push((data.tsn / 0x100_0000) as u8);
    value.push((data.tsn / 0x1_0000 % 256) as u8);
    value.push((data.tsn / 0x100 % 256) as u8);
    value.push((data.tsn % 256) as u8);
    value.push((data.stream_id / 256) as u8);
    value.push((data.stream_id % 256) as u8);
    value.push((data.ssn / 256) as u8);
    value.push((data.ssn % 256) as u8);
    value.push((data.ppid / 0x100_0000) as u8);
    value.push((data.ppid / 0x1_0000 % 256) as u8);
    value.push((data.ppid / 0x100 % 256) as u8);
    value.push((data.ppid % 256) as u8);
    value.extend_from_slice(data.payload.as_slice());
    assert(value@ =~= spec_data_to_chunk(data@).value);
    Chunk { chunk_type: 0, flags, value }
}

/// Reads the DATA that a chunk carries; a chunk of another type, or one too
/// short for the fields before the payload, is an invalid packet.
pub fn chunk_to_data(chunk: &Chunk) -> (r: Result<DataChunk, SctpError>)
    ensures
        match spec_chunk_to_data(chunk@) {
            Ok(data) => r is Ok && r.unwrap()@ == data,
            Err(e) => r == Err::<DataChunk, SctpError>(e),
        },
{
    if chunk.chunk_type != 0 || chunk.value.len() < DATA_HEADER_SIZE {
        return Err(SctpError::InvalidPacket);
    }
    let v = chunk.value.as_slice();
    Ok(
        DataChunk {
            tsn: (v[0] as u32) * 0x100_0000 + (v[1] as u32) * 0x1_0000 + (v[2] as u32) * 0x100 + (
            v[3] as u32),
            stream_id: (v[4] as u16) * 256 + (v[5] as u16),
            ssn: (v[6] as u16) * 256 + (v[7] as u16),
            ppid: (v[8] as u32) * 0x100_0000 + (v[9] as u32) * 0x1_0000 + (v[10] as u32) * 0x100
                + (v[11] as u32),
            unordered: chunk.flags / 4 % 2 == 1,
            beginning: chunk.flags / 2 % 2 == 1,
            ending: chunk.flags % 2 == 1,
            payload: slice_to_vec(slice_subrange(v, DATA_HEADER_SIZE, v.len())),
        },
    )
}

} // verus!
