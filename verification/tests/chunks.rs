use webrtc_sctp::error::SctpError;
use webrtc_sctp::packet::chunks::{
    chunk_to_data, data_to_chunk, unrecognized_action, ChunkKind, UnrecognizedAction,
    DATA_HEADER_SIZE,
};
use webrtc_sctp::packet::codec::{Chunk, SctpPacket};
use webrtc_sctp::stack::stream::{fragment_message, DataChunk, InboundStream, Message};

#[test]
fn kinds_and_their_type_bytes() {
    let table = [
        (ChunkKind::Data, 0u8),
        (ChunkKind::Init, 1),
        (ChunkKind::InitAck, 2),
        (ChunkKind::Sack, 3),
        (ChunkKind::Heartbeat, 4),
        (ChunkKind::HeartbeatAck, 5),
        (ChunkKind::Abort, 6),
        (ChunkKind::Shutdown, 7),
        (ChunkKind::ShutdownAck, 8),
        (ChunkKind::Error, 9),
        (ChunkKind::CookieEcho, 10),
        (ChunkKind::CookieAck, 11),
        (ChunkKind::ShutdownComplete, 14),
    ];
    for (kind, byte) in table {
        assert_eq!(kind.wire_type(), byte);
        assert_eq!(ChunkKind::from_wire_type(byte), Some(kind));
    }
    for byte in 0..=255u8 {
        let known = table.iter().any(|(_, b)| *b == byte);
        assert_eq!(ChunkKind::from_wire_type(byte).is_some(), known);
    }
}

#[test]
fn the_two_high_bits_decide_about_the_unrecognised() {
    assert_eq!(unrecognized_action(0x0F), UnrecognizedAction::Stop);
    assert_eq!(unrecognized_action(0x3F), UnrecognizedAction::Stop);
    assert_eq!(unrecognized_action(0x40), UnrecognizedAction::StopAndReport);
    assert_eq!(unrecognized_action(0x7F), UnrecognizedAction::StopAndReport);
    assert_eq!(unrecognized_action(0x80), UnrecognizedAction::Skip);
    assert_eq!(unrecognized_action(0xBF), UnrecognizedAction::Skip);
    assert_eq!(unrecognized_action(0xC0), UnrecognizedAction::SkipAndReport);
    assert_eq!(unrecognized_action(0xFF), UnrecognizedAction::SkipAndReport);
}

fn data() -> DataChunk {
    DataChunk {
        tsn: 0x0102_0304,
        stream_id: 0x0506,
        ssn: 0x0708,
        ppid: 0x090A_0B0C,
        unordered: false,
        beginning: true,
        ending: true,
        payload: vec![b'p', b'i', b'n', b'g'],
    }
}

#[test]
fn layout_of_data() {
    assert_eq!(DATA_HEADER_SIZE, 12);
    let c = data_to_chunk(&data());
    assert_eq!(c.chunk_type, 0);
    assert_eq!(c.flags, 3);
    assert_eq!(c.value, vec![1, 2, 3, 4, 5, 6, 7, 8, 9, 10, 11, 12, b'p', b'i', b'n', b'g']);
    let mut d = data();
    d.unordered = true;
    d.beginning = false;
    assert_eq!(data_to_chunk(&d).flags, 5);
    d.ending = false;
    d.beginning = true;
    assert_eq!(data_to_chunk(&d).flags, 6);
}

#[test]
fn data_is_read_back_from_its_chunk() {
    for flags in 0..8u8 {
        let mut d = data();
        d.unordered = flags & 4 != 0;
        d.beginning = flags & 2 != 0;
        d.ending = flags & 1 != 0;
        let back = chunk_to_data(&data_to_chunk(&d)).unwrap();
        assert_eq!(
            (back.tsn, back.stream_id, back.ssn, back.ppid),
            (d.tsn, d.stream_id, d.ssn, d.ppid)
        );
        assert_eq!((back.unordered, back.beginning, back.ending), (d.unordered, d.beginning, d.ending));
        assert_eq!(back.payload, d.payload);
    }
}

#[test]
fn a_chunk_that_is_no_data_is_refused() {
    let c = Chunk { chunk_type: 3, flags: 0, value: vec![0; 16] };
    assert!(matches!(chunk_to_data(&c), Err(SctpError::InvalidPacket)));
    let c = Chunk { chunk_type: 0, flags: 3, value: vec![0; 11] };
    assert!(matches!(chunk_to_data(&c), Err(SctpError::InvalidPacket)));
    let c = Chunk { chunk_type: 0, flags: 0xFB, value: vec![0; 12] };
    let d = chunk_to_data(&c).unwrap();
    assert!(!d.unordered && d.beginning && d.ending);
    assert!(d.payload.is_empty());
}

#[test]
fn a_message_crosses_the_wire_in_fragments() {
    let message = Message {
        stream_id: 0,
        ppid: 7,
        ordered: true,
        buffer: (0..4000u32).map(|i| (i * 7 % 256) as u8).collect(),
    };
    let mut stream = InboundStream::new(0, 0);
    for d in fragment_message(&message, 0, 1, 1400) {
        let packet = SctpPacket {
            source_port: 5000,
            destination_port: 2000,
            verification_tag: 99,
            chunks: vec![data_to_chunk(&d)],
        };
        let received = SctpPacket::decode(&packet.encode().unwrap()).unwrap();
        assert_eq!(received.chunks.len(), 1);
        let d = chunk_to_data(&received.chunks[0]).unwrap();
        assert!(stream.receive(d).unwrap().is_none());
    }
    let delivered = stream.deliver_next().unwrap();
    assert_eq!(delivered.buffer, message.buffer);
    assert_eq!(delivered.ppid, 7);
    assert!(stream.deliver_next().is_none());
}
