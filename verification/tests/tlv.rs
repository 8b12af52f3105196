use webrtc_sctp::error::SctpError;
use webrtc_sctp::packet::parse_utils::{
    finish_tlv, parse_tlv, parse_tlv_with, Dispatched, TAG_LENGTH_HEADER_SIZE,
};

#[test]
fn header_size_is_four() {
    assert_eq!(TAG_LENGTH_HEADER_SIZE, 4);
}

#[test]
fn record_with_padding_and_following_input() {
    let input = [0x01, 0x02, 0x00, 0x06, 0xAA, 0xBB, 0x00, 0x00, 0x09, 0x08];
    let tlv = parse_tlv(&input).unwrap();
    assert_eq!(tlv.tag, 0x0102);
    assert_eq!(tlv.value, &[0xAA, 0xBB]);
    assert_eq!(tlv.rest, &[0x09, 0x08]);
}

#[test]
fn tag_and_length_are_big_endian() {
    let mut input = vec![0xC0, 0x01, 0x01, 0x04];
    input.extend(vec![7u8; 256]);
    let tlv = parse_tlv(&input).unwrap();
    assert_eq!(tlv.tag, 0xC001);
    assert_eq!(tlv.value.len(), 256);
    assert!(tlv.rest.is_empty());
}

#[test]
fn record_with_empty_value() {
    let input = [0x00, 0x0B, 0x00, 0x04, 0x00, 0x0E, 0x00, 0x04];
    let tlv = parse_tlv(&input).unwrap();
    assert_eq!(tlv.tag, 11);
    assert!(tlv.value.is_empty());
    assert_eq!(tlv.rest, &[0x00, 0x0E, 0x00, 0x04]);
}

#[test]
fn aligned_value_has_no_padding() {
    let input = [0x00, 0x01, 0x00, 0x08, 1, 2, 3, 4, 5];
    let tlv = parse_tlv(&input).unwrap();
    assert_eq!(tlv.value, &[1, 2, 3, 4]);
    assert_eq!(tlv.rest, &[5]);
}

#[test]
fn last_record_may_omit_its_padding() {
    let input = [0x00, 0x01, 0x00, 0x05, 0x7F];
    let tlv = parse_tlv(&input).unwrap();
    assert_eq!(tlv.value, &[0x7F]);
    assert!(tlv.rest.is_empty());
}

#[test]
fn last_record_may_have_part_of_its_padding() {
    let input = [0x00, 0x01, 0x00, 0x05, 0x7F, 0x00, 0x00];
    let tlv = parse_tlv(&input).unwrap();
    assert_eq!(tlv.value, &[0x7F]);
    assert!(tlv.rest.is_empty());
}

#[test]
fn short_header_is_invalid() {
    assert!(matches!(parse_tlv(&[]), Err(SctpError::InvalidPacket)));
    assert!(matches!(parse_tlv(&[0, 1, 0]), Err(SctpError::InvalidPacket)));
}

#[test]
fn length_below_the_header_size_is_invalid() {
    assert!(matches!(
        parse_tlv(&[0, 1, 0, 3, 0, 0, 0, 0]),
        Err(SctpError::InvalidPacket)
    ));
    assert!(matches!(
        parse_tlv(&[0, 1, 0, 0, 0, 0, 0, 0]),
        Err(SctpError::InvalidPacket)
    ));
}

#[test]
fn length_past_the_buffer_is_invalid() {
    assert!(matches!(
        parse_tlv(&[0, 1, 0, 9, 1, 2, 3, 4]),
        Err(SctpError::InvalidPacket)
    ));
}

#[test]
fn dispatch_sees_tag_and_value() {
    let input = [0x00, 0x07, 0x00, 0x07, 10, 20, 30, 0, 0xEE];
    let r = parse_tlv_with(&input, |tag, value: &[u8]| Dispatched::Parsed {
        leftover: 0,
        value: (tag, value.to_vec()),
    });
    let (rest, (tag, value)) = r.unwrap();
    assert_eq!(tag, 7);
    assert_eq!(value, vec![10, 20, 30]);
    assert_eq!(rest, &[0xEE]);
}

#[test]
fn dispatch_must_consume_the_whole_value() {
    let input = [0x00, 0x07, 0x00, 0x06, 10, 20, 0, 0];
    let r = parse_tlv_with(&input, |_tag, value: &[u8]| Dispatched::Parsed {
        leftover: value.len() - 1,
        value: value[0],
    });
    assert!(matches!(r, Err(SctpError::InvalidPacket)));
}

#[test]
fn dispatch_that_wants_more_data_is_invalid() {
    let input = [0x00, 0x07, 0x00, 0x06, 10, 20, 0, 0];
    let r: Result<(&[u8], u8), SctpError> =
        parse_tlv_with(&input, |_tag, _value: &[u8]| Dispatched::Incomplete);
    assert!(matches!(r, Err(SctpError::InvalidPacket)));
}

#[test]
fn dispatch_errors_are_passed_on() {
    let input = [0x00, 0x07, 0x00, 0x06, 10, 20, 0, 0];
    let r: Result<(&[u8], u8), SctpError> =
        parse_tlv_with(&input, |_tag, _value: &[u8]| Dispatched::Failed(SctpError::BadState));
    assert!(matches!(r, Err(SctpError::BadState)));
}

#[test]
fn dispatch_is_not_called_on_a_broken_record() {
    let input = [0x00, 0x07, 0x00, 0x02];
    let r: Result<(&[u8], u8), SctpError> =
        parse_tlv_with(&input, |_tag, _value: &[u8]| panic!("must not be called"));
    assert!(matches!(r, Err(SctpError::InvalidPacket)));
}

#[test]
fn finishing_a_record() {
    let rest = [1u8, 2];
    let done = finish_tlv(&rest, Dispatched::Parsed { leftover: 0, value: 5u32 });
    assert_eq!(done.unwrap(), (&rest[..], 5u32));
    let left = finish_tlv(&rest, Dispatched::Parsed { leftover: 1, value: 5u32 });
    assert!(matches!(left, Err(SctpError::InvalidPacket)));
    let more = finish_tlv(&rest, Dispatched::<u32>::Incomplete);
    assert!(matches!(more, Err(SctpError::InvalidPacket)));
    let failed = finish_tlv(&rest, Dispatched::<u32>::Failed(SctpError::Closed));
    assert!(matches!(failed, Err(SctpError::Closed)));
}
