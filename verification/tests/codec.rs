use webrtc_sctp::error::SctpError;
use webrtc_sctp::packet::checksum::crc32c;
use webrtc_sctp::packet::codec::{Chunk, SctpPacket};

fn sample() -> SctpPacket {
    SctpPacket {
        source_port: 5000,
        destination_port: 2000,
        verification_tag: 0x0102_0304,
        chunks: vec![
            Chunk { chunk_type: 0, flags: 3, value: vec![0xDE, 0xAD, 0xBE, 0xEF, 0x42] },
            Chunk { chunk_type: 11, flags: 0, value: vec![] },
            Chunk { chunk_type: 3, flags: 0, value: vec![1, 2, 3, 4, 5, 6] },
        ],
    }
}

fn sample_unsigned() -> Vec<u8> {
    vec![
        0x13, 0x88, 0x07, 0xD0, 0x01, 0x02, 0x03, 0x04, 0, 0, 0, 0, // header
        0, 3, 0, 9, 0xDE, 0xAD, 0xBE, 0xEF, 0x42, 0, 0, 0, // first chunk, 3 bytes of padding
        11, 0, 0, 4, // second chunk, no value
        3, 0, 0, 10, 1, 2, 3, 4, 5, 6, 0, 0, // third chunk, 2 bytes of padding
    ]
}

fn sign(mut bytes: Vec<u8>) -> Vec<u8> {
    for i in 8..12 {
        bytes[i] = 0;
    }
    let crc = crc32c(&bytes);
    bytes[8..12].copy_from_slice(&crc.to_le_bytes());
    bytes
}

fn assert_same(a: &SctpPacket, b: &SctpPacket) {
    assert_eq!(a.source_port, b.source_port);
    assert_eq!(a.destination_port, b.destination_port);
    assert_eq!(a.verification_tag, b.verification_tag);
    assert_eq!(a.chunks.len(), b.chunks.len());
    for (x, y) in a.chunks.iter().zip(b.chunks.iter()) {
        assert_eq!(x.chunk_type, y.chunk_type);
        assert_eq!(x.flags, y.flags);
        assert_eq!(x.value, y.value);
    }
}

#[test]
fn crc32c_check_value() {
    assert_eq!(crc32c("123456789".as_bytes()), 0xE306_9283);
}

#[test]
fn crc32c_of_nothing_is_zero() {
    assert_eq!(crc32c(&[]), 0);
}

#[test]
fn crc32c_of_known_blocks() {
    assert_eq!(crc32c(&[0u8; 32]), 0x8A91_36AA);
    assert_eq!(crc32c(&[0xFFu8; 32]), 0x62A8_AB43);
    let rising: Vec<u8> = (0u8..32).collect();
    assert_eq!(crc32c(&rising), 0x46DD_794E);
    let falling: Vec<u8> = (0u8..32).rev().collect();
    assert_eq!(crc32c(&falling), 0x113F_DB5C);
}

#[test]
fn encode_lays_out_header_chunks_and_padding() {
    let unsigned = sample_unsigned();
    let crc = crc32c(&unsigned);
    let mut expected = unsigned;
    expected[8] = (crc & 0xFF) as u8;
    expected[9] = ((crc >> 8) & 0xFF) as u8;
    expected[10] = ((crc >> 16) & 0xFF) as u8;
    expected[11] = (crc >> 24) as u8;
    assert_eq!(sample().encode().unwrap(), expected);
}

#[test]
fn encode_of_a_packet_without_chunks() {
    let p = SctpPacket { source_port: 1, destination_port: 2, verification_tag: 0, chunks: vec![] };
    let bytes = p.encode().unwrap();
    assert_eq!(bytes.len(), 12);
    assert_eq!(&bytes[..8], &[0, 1, 0, 2, 0, 0, 0, 0]);
    assert_eq!(&bytes[8..], &crc32c(&[0, 1, 0, 2, 0, 0, 0, 0, 0, 0, 0, 0]).to_le_bytes());
    assert_same(&SctpPacket::decode(&bytes).unwrap(), &p);
}

#[test]
fn decode_inverts_encode() {
    let p = sample();
    let decoded = SctpPacket::decode(&p.encode().unwrap()).unwrap();
    assert_same(&decoded, &p);
}

#[test]
fn decode_inverts_encode_on_the_largest_chunk() {
    let p = SctpPacket {
        source_port: 65535,
        destination_port: 0,
        verification_tag: 0xFFFF_FFFF,
        chunks: vec![Chunk { chunk_type: 255, flags: 255, value: vec![0xA5; 65531] }],
    };
    let bytes = p.encode().unwrap();
    assert_eq!(bytes.len(), 12 + 4 + 65531 + 1);
    assert_same(&SctpPacket::decode(&bytes).unwrap(), &p);
}

#[test]
fn encoded_length_is_a_multiple_of_four_and_the_checksum_validates() {
    for n in 0..9usize {
        let p = SctpPacket {
            source_port: 9,
            destination_port: 10,
            verification_tag: 77,
            chunks: vec![
                Chunk { chunk_type: 0, flags: 0, value: vec![1; n] },
                Chunk { chunk_type: 1, flags: 2, value: vec![2; 2 * n + 1] },
            ],
        };
        let bytes = p.encode().unwrap();
        assert_eq!(bytes.len() % 4, 0);
        let stored = u32::from_le_bytes([bytes[8], bytes[9], bytes[10], bytes[11]]);
        let mut zeroed = bytes.clone();
        for i in 8..12 {
            zeroed[i] = 0;
        }
        assert_eq!(stored, crc32c(&zeroed));
    }
}

#[test]
fn encode_refuses_a_chunk_too_long_for_its_length_field() {
    let p = SctpPacket {
        source_port: 1,
        destination_port: 2,
        verification_tag: 3,
        chunks: vec![
            Chunk { chunk_type: 0, flags: 0, value: vec![] },
            Chunk { chunk_type: 0, flags: 0, value: vec![0; 65532] },
        ],
    };
    assert!(!p.is_well_formed());
    assert!(matches!(p.encode(), Err(SctpError::InvalidPacket)));
    assert!(sample().is_well_formed());
}

#[test]
fn decode_refuses_short_buffers() {
    assert!(matches!(SctpPacket::decode(&[]), Err(SctpError::InvalidPacket)));
    assert!(matches!(SctpPacket::decode(&[0; 11]), Err(SctpError::InvalidPacket)));
}

#[test]
fn decode_refuses_a_bad_checksum() {
    let mut bytes = sample().encode().unwrap();
    bytes[8] ^= 0x01;
    assert!(matches!(SctpPacket::decode(&bytes), Err(SctpError::BadChecksum)));
    let mut bytes = sample().encode().unwrap();
    bytes[20] ^= 0x80;
    assert!(matches!(SctpPacket::decode(&bytes), Err(SctpError::BadChecksum)));
    assert!(matches!(SctpPacket::decode(&[0; 12]), Err(SctpError::BadChecksum)));
}

#[test]
fn decode_refuses_a_chunk_length_below_the_header_size() {
    let bytes = sign(vec![0, 1, 0, 2, 0, 0, 0, 9, 0, 0, 0, 0, 6, 0, 0, 3]);
    assert!(matches!(SctpPacket::decode(&bytes), Err(SctpError::InvalidPacket)));
}

#[test]
fn decode_refuses_a_chunk_that_reaches_past_the_packet() {
    let bytes = sign(vec![0, 1, 0, 2, 0, 0, 0, 9, 0, 0, 0, 0, 6, 0, 0, 9, 1, 2, 3, 4]);
    assert!(matches!(SctpPacket::decode(&bytes), Err(SctpError::InvalidPacket)));
}

#[test]
fn decode_refuses_a_truncated_chunk_header() {
    let bytes = sign(vec![0, 1, 0, 2, 0, 0, 0, 9, 0, 0, 0, 0, 6, 0, 0, 4, 6, 0]);
    assert!(matches!(SctpPacket::decode(&bytes), Err(SctpError::InvalidPacket)));
}

#[test]
fn decode_accepts_a_final_chunk_without_padding() {
    let bytes = sign(vec![0, 1, 0, 2, 0, 0, 0, 9, 0, 0, 0, 0, 6, 1, 0, 4, 0, 3, 0, 5, 0x55]);
    let p = SctpPacket::decode(&bytes).unwrap();
    assert_eq!(p.source_port, 1);
    assert_eq!(p.destination_port, 2);
    assert_eq!(p.verification_tag, 9);
    assert_eq!(p.chunks.len(), 2);
    assert_eq!((p.chunks[0].chunk_type, p.chunks[0].flags), (6, 1));
    assert!(p.chunks[0].value.is_empty());
    assert_eq!((p.chunks[1].chunk_type, p.chunks[1].flags), (0, 3));
    assert_eq!(p.chunks[1].value, vec![0x55]);
}

#[test]
fn decode_refuses_an_interior_chunk_without_padding() {
    // The first chunk lacks its padding, so the second header is read from
    // the wrong place and its length reaches past the packet.
    let bytes = sign(vec![0, 1, 0, 2, 0, 0, 0, 9, 0, 0, 0, 0, 0, 3, 0, 5, 0x55, 6, 0, 0, 4, 0, 0, 0]);
    assert!(matches!(SctpPacket::decode(&bytes), Err(SctpError::InvalidPacket)));
}

#[test]
fn chunk_encodes_itself_after_what_is_there() {
    let mut out = vec![0xFF];
    Chunk { chunk_type: 7, flags: 1, value: vec![9] }.encode_into(&mut out);
    assert_eq!(out, vec![0xFF, 7, 1, 0, 5, 9, 0, 0, 0]);
}
