use bytes::{Bytes, BytesMut};
use netcalyx::udp_notif::codec::{
    UdpPacketCodec, UdpPacketCodecError, DEFAULT_MAX_SEGMENTS, DEFAULT_REASSEMBLY_TIMEOUT,
};
use netcalyx::udp_notif::reassembly::{ReassemblyBuffer, ReassemblyBufferError};
use netcalyx::udp_notif::wire::{
    MediaType, UdpNotifOption, UdpNotifPacket, UdpNotifPacketParsingError,
    UdpNotifPacketWritingError, PRIVATE_ENCODING_OPTION, SEGMENT_OPTION,
};
use std::collections::HashMap;
use std::time::{Duration, Instant};

#[test]
fn test_decode() {
    let mut codec = UdpPacketCodec::default();
    let value: Vec<u8> = vec![
        0x21, // version 1, no private space, Media type: 1 = YANG data JSON
        0x0c, // Header length
        0x00, 0x0e, // Message length
        0x01, 0x00, 0x00, 0x01, // Publisher ID
        0x02, 0x00, 0x00, 0x02, // Message ID
        0xff, 0xff, // dummy payload
    ];
    let pkt = UdpNotifPacket::new(
        MediaType::YangDataJson,
        0x01000001,
        0x02000002,
        HashMap::new(),
        Bytes::from(&[0xff, 0xff][..]),
    );
    let mut buf = BytesMut::from(&value[..]);

    let value = codec.decode(&mut buf);
    assert_eq!(value, Ok(Some(pkt)))
}

#[test]
fn test_encode() {
    let mut codec = UdpPacketCodec::default();
    let expected: Vec<u8> = vec![
        0x21, // version 1, no private space, Media type: 1 = YANG data JSON
        0x0c, // Header length
        0x00, 0x0e, // Message length
        0x01, 0x00, 0x00, 0x01, // Publisher ID
        0x02, 0x00, 0x00, 0x02, // Message ID
        0xff, 0xff, // dummy payload
    ];
    let pkt = UdpNotifPacket::new(
        MediaType::YangDataJson,
        0x01000001,
        0x02000002,
        HashMap::new(),
        Bytes::from(&[0xff, 0xff][..]),
    );
    let mut buf = BytesMut::new();
    codec.encode(pkt, &mut buf).expect("encode failed");
    assert_eq!(buf, expected);
}

#[test]
fn test_decode_segmented() {
    let mut codec = UdpPacketCodec::default();
    let value_wire1: Vec<u8> = vec![
        0x21, // version 1, no private space, Media type: 1 = YANG data JSON
        0x10, // Header length
        0x00, 0x14, // Message length
        0x01, 0x00, 0x00, 0x01, // Publisher ID
        0x02, 0x00, 0x00, 0x02, // Message ID
        0x01, 0x04, 0x00, 0x00, // segment 0, not the last segment
        0xff, 0xff, 0xff, 0xff, // dummy payload
    ];
    let value_wire2: Vec<u8> = vec![
        0x21, // version 1, no private space, Media type: 1 = YANG data JSON
        0x10, // Header length
        0x00, 0x18, // Message length
        0x01, 0x00, 0x00, 0x01, // Publisher ID
        0x02, 0x00, 0x00, 0x02, // Message ID
        0x01, 0x04, 0x00, 0x03, // segment 1, last segment
        0xee, 0xee, 0xee, 0xee, // dummy payload
        0xdd, 0xdd, 0xdd, 0xdd, // dummy payload
    ];

    let mut buf = BytesMut::from(&value_wire1[..]);
    let value1 = codec.decode(&mut buf);
    buf.extend_from_slice(&value_wire2[..]);
    let value2 = codec.decode(&mut buf);

    assert!(matches!(value1, Ok(None)));
    assert_eq!(
        value2,
        Ok(Some(UdpNotifPacket::new(
            MediaType::YangDataJson,
            0x01000001,
            0x02000002,
            HashMap::new(),
            Bytes::from(
                &[
                    0xff, 0xff, 0xff, 0xff, // payload from the first segment
                    0xee, 0xee, 0xee, 0xee, // payload from the second segment
                    0xdd, 0xdd, 0xdd, 0xdd,
                ][..]
            ),
        )))
    )
}

#[test]
fn test_decode_unordered_segmented() {
    let mut codec = UdpPacketCodec::default();
    let value_wire1: Vec<u8> = vec![
        0x21, // version 1, no private space, Media type: 1 = YANG data JSON
        0x10, // Header length
        0x00, 0x18, // Message length
        0x01, 0x00, 0x00, 0x01, // Publisher ID
        0x02, 0x00, 0x00, 0x02, // Message ID
        0x01, 0x04, 0x00, 0x03, // segment 1, last segment
        0xee, 0xee, 0xee, 0xee, // dummy payload
        0xdd, 0xdd, 0xdd, 0xdd, // dummy payload
    ];
    let value_wire2: Vec<u8> = vec![
        0x21, // version 1, no private space, Media type: 1 = YANG data JSON
        0x10, // Header length
        0x00, 0x14, // Message length
        0x01, 0x00, 0x00, 0x01, // Publisher ID
        0x02, 0x00, 0x00, 0x02, // Message ID
        0x01, 0x04, 0x00, 0x00, // segment 0, not the last segment
        0xff, 0xff, 0xff, 0xff, // dummy payload
    ];

    let mut buf = BytesMut::from(&value_wire1[..]);

    let value1 = codec.decode(&mut buf);

    buf.extend_from_slice(&value_wire2[..]);
    let value2 = codec.decode(&mut buf);

    assert!(matches!(value1, Ok(None)));
    assert_eq!(
        value2,
        Ok(Some(UdpNotifPacket::new(
            MediaType::YangDataJson,
            0x01000001,
            0x02000002,
            HashMap::new(),
            Bytes::from(
                &[
                    0xff, 0xff, 0xff, 0xff, // payload from the first segment
                    0xee, 0xee, 0xee, 0xee, // payload from the second segment
                    0xdd, 0xdd, 0xdd, 0xdd,
                ][..]
            ),
        )))
    )
}

#[test]
fn test_decode_empty_buffer() {
    let mut codec = UdpPacketCodec::default();
    let mut buf = BytesMut::new();
    assert_eq!(codec.decode(&mut buf), Ok(None));
}

#[test]
fn test_decode_truncated_header() {
    let mut codec = UdpPacketCodec::default();
    // Buffer shorter than the 12-byte fixed header.
    let mut buf = BytesMut::from(&[0x21u8, 0x0c, 0x00][..]);
    assert!(matches!(
        codec.decode(&mut buf),
        Err(UdpPacketCodecError::InvalidHeaderLength(3))
    ));
}

#[test]
fn test_decode_header_len_too_small() {
    let mut codec = UdpPacketCodec::default();
    // header_len byte = 4, below the length of the fixed header (12).
    let value: Vec<u8> = vec![
        0x21, 0x04, 0x00, 0x0e, // header_len=4
        0x01, 0x00, 0x00, 0x01, // Publisher ID
        0x02, 0x00, 0x00, 0x02, // Message ID
        0xff, 0xff, // payload
    ];
    let mut buf = BytesMut::from(&value[..]);
    assert!(matches!(
        codec.decode(&mut buf),
        Err(UdpPacketCodecError::InvalidHeaderLength(4))
    ));
}

#[test]
fn test_decode_message_len_too_small() {
    let mut codec = UdpPacketCodec::default();
    // message_length = 4, below header_len (12).
    let value: Vec<u8> = vec![
        0x21, 0x0c, 0x00, 0x04, // message_length=4
        0x01, 0x00, 0x00, 0x01, // Publisher ID
        0x02, 0x00, 0x00, 0x02, // Message ID
        0xff, 0xff, // payload
    ];
    let mut buf = BytesMut::from(&value[..]);
    assert!(matches!(
        codec.decode(&mut buf),
        Err(UdpPacketCodecError::InvalidMessageLength(4))
    ));
}

#[test]
fn test_decode_duplicate_segment() {
    let mut codec = UdpPacketCodec::default();
    let seg0: Vec<u8> = vec![
        0x21, 0x10, 0x00, 0x14, // header_len=16, message_length=20
        0x01, 0x00, 0x00, 0x01, // Publisher ID
        0x02, 0x00, 0x00, 0x02, // Message ID
        0x01, 0x04, 0x00, 0x00, // segment 0, not last
        0xff, 0xff, 0xff, 0xff, // payload
    ];
    let mut buf = BytesMut::from(&seg0[..]);
    assert_eq!(codec.decode(&mut buf), Ok(None));

    // Resend the same segment (duplicate).
    buf.extend_from_slice(&seg0[..]);
    assert_eq!(codec.decode(&mut buf), Ok(None));

    let events = codec.take_reassembly_events();
    assert_eq!(events.duplicate_drops, 1);
    // Second drain must be zeroed.
    assert_eq!(codec.take_reassembly_events().duplicate_drops, 0);
}

#[test]
fn test_decode_max_segments_exceeded() {
    let mut codec = UdpPacketCodec::new(1, DEFAULT_REASSEMBLY_TIMEOUT);
    let seg0: Vec<u8> = vec![
        0x21, 0x10, 0x00, 0x14, 0x01, 0x00, 0x00, 0x01, // Publisher ID
        0x02, 0x00, 0x00, 0x02, // Message ID
        0x01, 0x04, 0x00, 0x00, // segment 0, not last
        0xff, 0xff, 0xff, 0xff,
    ];
    let seg1: Vec<u8> = vec![
        0x21, 0x10, 0x00, 0x14, 0x01, 0x00, 0x00, 0x01, // Publisher ID
        0x02, 0x00, 0x00, 0x02, // Message ID
        0x01, 0x04, 0x00, 0x02, // segment 1, not last
        0xff, 0xff, 0xff, 0xff,
    ];

    let mut buf = BytesMut::from(&seg0[..]);
    assert_eq!(codec.decode(&mut buf), Ok(None));
    assert_eq!(codec.incomplete_messages_count(), 1);

    buf.extend_from_slice(&seg1[..]);
    assert!(matches!(
        codec.decode(&mut buf),
        Err(UdpPacketCodecError::ReassemblyError(
            ReassemblyBufferError::MaxSegmentsExceeded { .. }
        ))
    ));
    // Buffer must be removed after the cap is exceeded.
    assert_eq!(codec.incomplete_messages_count(), 0);

    let events = codec.take_reassembly_events();
    assert_eq!(events.max_segments_exceeded, 1);
}

#[test]
fn test_decode_timeout_eviction() {
    let mut codec =
        UdpPacketCodec::new(DEFAULT_MAX_SEGMENTS, Duration::from_millis(1).as_nanos());
    let seg0: Vec<u8> = vec![
        0x21, 0x10, 0x00, 0x14, 0x01, 0x00, 0x00, 0x01, // Publisher ID
        0x02, 0x00, 0x00, 0x02, // Message ID
        0x01, 0x04, 0x00, 0x00, // segment 0, not last
        0xff, 0xff, 0xff, 0xff,
    ];

    let mut buf = BytesMut::from(&seg0[..]);
    assert_eq!(codec.decode(&mut buf), Ok(None));
    assert_eq!(codec.incomplete_messages_count(), 1);

    let start = Instant::now();
    while start.elapsed() < Duration::from_millis(5) {}

    // An empty-buffer decode drives the eviction pass without consuming data.
    let mut empty = BytesMut::new();
    assert_eq!(codec.decode(&mut empty), Ok(None));
    assert_eq!(codec.incomplete_messages_count(), 0);

    let events = codec.take_reassembly_events();
    assert_eq!(events.timeout_evictions, 1);
}

fn segment(message_id: u32, number: u16, last: bool, payload: &'static [u8]) -> UdpNotifPacket {
    let mut options = HashMap::new();
    options.insert(SEGMENT_OPTION, UdpNotifOption::Segment { number, last });
    UdpNotifPacket::new(
        MediaType::YangDataCbor,
        7,
        message_id,
        options,
        Bytes::from_static(payload),
    )
}

fn datagram(packet: UdpNotifPacket) -> BytesMut {
    let mut codec = UdpPacketCodec::default();
    let mut buf = BytesMut::new();
    codec.encode(packet, &mut buf).unwrap();
    buf
}

#[test]
fn eviction_happens_after_the_timeout_only() {
    let mut codec = UdpPacketCodec::new(4, 100);
    let mut buf = datagram(segment(1, 0, false, b"ab"));
    assert_eq!(codec.decode_at(1000, &mut buf), Ok(None));
    let mut buf = datagram(segment(2, 0, false, b"ab"));
    assert_eq!(codec.decode_at(1050, &mut buf), Ok(None));
    assert_eq!(codec.decode_at(1100, &mut BytesMut::new()), Ok(None));
    assert_eq!(codec.incomplete_messages_count(), 2);
    assert_eq!(codec.decode_at(1101, &mut BytesMut::new()), Ok(None));
    assert_eq!(codec.incomplete_messages_count(), 1);
    // a clock that goes back evicts nothing
    assert_eq!(codec.decode_at(0, &mut BytesMut::new()), Ok(None));
    assert_eq!(codec.incomplete_messages_count(), 1);
    assert_eq!(codec.take_reassembly_events().timeout_evictions, 1);
}

#[test]
fn points_in_time_are_told_apart() {
    let second = Duration::from_secs(1);
    let mut codec = UdpPacketCodec::new(4, second.as_nanos());
    let start = Instant::now();
    let mut buf = datagram(segment(1, 0, false, b"ab"));
    assert_eq!(codec.decode_seen(start, &mut buf), Ok(None));
    assert_eq!(codec.decode_seen(start + second, &mut BytesMut::new()), Ok(None));
    assert_eq!(codec.incomplete_messages_count(), 1);
    let later = start + second + Duration::from_nanos(1);
    assert_eq!(codec.decode_seen(later, &mut BytesMut::new()), Ok(None));
    assert_eq!(codec.incomplete_messages_count(), 0);
    assert_eq!(codec.take_reassembly_events().timeout_evictions, 1);
}

#[test]
fn segments_in_any_order_make_the_same_message() {
    let orders = [[0u16, 1, 2], [0, 2, 1], [1, 0, 2], [1, 2, 0], [2, 0, 1], [2, 1, 0]];
    for order in orders {
        let mut codec = UdpPacketCodec::new(3, 100);
        let mut results = Vec::new();
        for number in order {
            let payload: &'static [u8] = match number {
                0 => b"first",
                1 => b"second",
                _ => b"third",
            };
            let mut buf = datagram(segment(9, number, number == 2, payload));
            results.push(codec.decode_at(5, &mut buf).unwrap());
            assert!(buf.is_empty());
        }
        assert!(results[0].is_none());
        assert!(results[1].is_none());
        let message = results[2].as_ref().unwrap();
        assert_eq!(&message.payload()[..], b"firstsecondthird");
        assert!(message.options().is_empty());
        assert_eq!(message.media_type(), MediaType::YangDataCbor);
        assert_eq!(message.publisher_id(), 7);
        assert_eq!(message.message_id(), 9);
        assert_eq!(codec.incomplete_messages_count(), 0);
    }
}

#[test]
fn messages_do_not_mix() {
    let mut codec = UdpPacketCodec::new(3, 100);
    for (message_id, payload) in [(1u32, b"a"), (2u32, b"b")] {
        let mut buf = datagram(segment(message_id, 0, false, payload));
        assert_eq!(codec.decode_at(5, &mut buf), Ok(None));
    }
    let mut buf = datagram(segment(1, 1, true, b"c"));
    let message = codec.decode_at(5, &mut buf).unwrap().unwrap();
    assert_eq!(&message.payload()[..], b"ac");
    assert_eq!(codec.incomplete_messages_count(), 1);
}

#[test]
fn repeats_and_other_datagrams_do_not_disturb_a_message() {
    let mut codec = UdpPacketCodec::new(3, 100);
    let first = || datagram(segment(9, 0, false, b"first"));
    let second = || datagram(segment(9, 1, false, b"second"));
    let third = || datagram(segment(9, 2, true, b"third"));
    assert_eq!(codec.decode_at(10, &mut third()), Ok(None));
    assert_eq!(codec.decode_at(20, &mut third()), Ok(None));
    // a segment of another message, and a message in one piece
    assert_eq!(codec.decode_at(30, &mut datagram(segment(8, 1, true, b"other"))), Ok(None));
    let single = UdpNotifPacket::new(
        MediaType::YangDataJson,
        7,
        10,
        HashMap::new(),
        Bytes::from_static(b"whole"),
    );
    assert!(codec.decode_at(40, &mut datagram(single)).unwrap().is_some());
    assert_eq!(codec.decode_at(50, &mut first()), Ok(None));
    // a datagram that is cut short, and an empty one
    assert!(codec.decode_at(60, &mut BytesMut::from(&[0x21, 0x0c][..])).is_err());
    assert_eq!(codec.decode_at(70, &mut BytesMut::new()), Ok(None));
    assert_eq!(codec.decode_at(80, &mut first()), Ok(None));
    assert_eq!(codec.decode_at(90, &mut third()), Ok(None));
    let message = codec.decode_at(110, &mut second()).unwrap().unwrap();
    assert_eq!(&message.payload()[..], b"firstsecondthird");
    assert_eq!(message.message_id(), 9);
    assert_eq!(codec.incomplete_messages_count(), 1);
    assert_eq!(codec.take_reassembly_events().duplicate_drops, 3);
}

#[test]
fn codec_tells_whether_it_has_room() {
    let mut codec = UdpPacketCodec::new(3, 100);
    assert!(codec.can_decode(&BytesMut::new()));
    let buf = datagram(segment(9, 0, false, b"first"));
    assert!(codec.can_decode(&buf));
    assert_eq!(codec.decode_at(10, &mut buf.clone()), Ok(None));
    assert!(codec.can_decode(&buf));

    let mut buffer = ReassemblyBuffer::new(0);
    assert!(buffer.has_room_for(isize::MAX as usize));
    assert!(!buffer.has_room_for(isize::MAX as usize + 1));
    buffer.add_segment(0, segment(9, 0, false, b"first"), false);
    buffer.add_segment(3, segment(9, 3, false, b"second"), false);
    assert!(buffer.has_room_for(isize::MAX as usize - 11));
    assert!(!buffer.has_room_for(isize::MAX as usize - 10));
}

#[test]
fn segment_option_under_another_code_is_no_segment() {
    let mut options = HashMap::new();
    options.insert(SEGMENT_OPTION, UdpNotifOption::PrivateEncoding(vec![1]));
    assert_eq!(UdpPacketCodec::extract_segment_info(&options), (0, true));
    let mut options = HashMap::new();
    options.insert(9, UdpNotifOption::Segment { number: 4, last: false });
    assert_eq!(UdpPacketCodec::extract_segment_info(&options), (0, true));
    options.insert(SEGMENT_OPTION, UdpNotifOption::Segment { number: 4, last: false });
    assert_eq!(UdpPacketCodec::extract_segment_info(&options), (4, false));
}

#[test]
fn options_of_the_first_segment_stay() {
    let mut codec = UdpPacketCodec::new(3, 100);
    let mut options = HashMap::new();
    options.insert(SEGMENT_OPTION, UdpNotifOption::Segment { number: 0, last: false });
    options.insert(PRIVATE_ENCODING_OPTION, UdpNotifOption::PrivateEncoding(vec![1, 2, 3]));
    options.insert(9, UdpNotifOption::Unknown { typ: 9, value: vec![4] });
    let first =
        UdpNotifPacket::new(MediaType::YangDataXml, 7, 9, options, Bytes::from_static(b"x"));
    assert_eq!(codec.decode_at(5, &mut datagram(first)), Ok(None));
    let message =
        codec.decode_at(5, &mut datagram(segment(9, 1, true, b"y"))).unwrap().unwrap();
    assert_eq!(message.options().len(), 2);
    assert_eq!(
        message.options().get(&PRIVATE_ENCODING_OPTION),
        Some(&UdpNotifOption::PrivateEncoding(vec![1, 2, 3]))
    );
    assert_eq!(
        message.options().get(&9),
        Some(&UdpNotifOption::Unknown { typ: 9, value: vec![4] })
    );
    assert_eq!(message.media_type(), MediaType::YangDataXml);
}

#[test]
fn missing_segment_is_reported() {
    let mut codec = UdpPacketCodec::new(4, 100);
    assert_eq!(codec.decode_at(5, &mut datagram(segment(9, 0, false, b"a"))), Ok(None));
    assert_eq!(codec.decode_at(5, &mut datagram(segment(9, 5, false, b"b"))), Ok(None));
    assert_eq!(
        codec.decode_at(5, &mut datagram(segment(9, 2, true, b"c"))),
        Err(UdpPacketCodecError::ReassemblyError(ReassemblyBufferError::MissingSegment {
            media_type: MediaType::YangDataCbor,
            publisher_id: 7,
            message_id: 9,
            received: 3,
            missing_segment_number: 1,
        }))
    );
    assert_eq!(codec.incomplete_messages_count(), 0);
}

#[test]
fn incomplete_buffer_is_not_reassembled() {
    let buffer = ReassemblyBuffer::new(0);
    assert!(!buffer.ready_to_reassemble());
    assert_eq!(
        buffer.reassemble(MediaType::YangDataJson, 1, 2),
        Err(ReassemblyBufferError::LastSegmentIsNotReceived {
            media_type: MediaType::YangDataJson,
            publisher_id: 1,
            message_id: 2,
            received: 0,
        })
    );
    let mut buffer = ReassemblyBuffer::new(0);
    buffer.add_segment(2, segment(9, 2, true, b"c"), true);
    assert!(buffer.contains_segment(2));
    assert!(!buffer.contains_segment(0));
    assert_eq!(buffer.segment_count(), 1);
    assert!(buffer.is_timed_out(11, 10));
    assert!(!buffer.is_timed_out(10, 10));
    assert_eq!(
        buffer.reassemble(MediaType::YangDataJson, 1, 2),
        Err(ReassemblyBufferError::IncompleteSegments {
            media_type: MediaType::YangDataJson,
            publisher_id: 1,
            message_id: 2,
            needed: 3,
            received: 1,
        })
    );
}

fn parse_error(octets: &[u8]) -> UdpNotifPacketParsingError {
    UdpNotifPacket::from_wire(octets).unwrap_err()
}

#[test]
fn parse_errors_are_told_apart() {
    assert_eq!(parse_error(&[]), UdpNotifPacketParsingError::Eof);
    assert_eq!(parse_error(&[0x41]), UdpNotifPacketParsingError::InvalidVersion(2));
    assert_eq!(parse_error(&[0x21]), UdpNotifPacketParsingError::Eof);
    assert_eq!(parse_error(&[0x21, 11]), UdpNotifPacketParsingError::InvalidHeaderLength(11));
    assert_eq!(
        parse_error(&[0x21, 12, 0, 11]),
        UdpNotifPacketParsingError::InvalidMessageLength(11)
    );
    assert_eq!(parse_error(&[0x21, 12, 0, 14, 0, 0, 0, 1]), UdpNotifPacketParsingError::Eof);
    assert_eq!(
        parse_error(&[0x21, 12, 0, 14, 0, 0, 0, 1, 0, 0, 0, 2, 9]),
        UdpNotifPacketParsingError::Eof
    );
    assert_eq!(
        parse_error(&[0x21, 14, 0, 14, 0, 0, 0, 1, 0, 0, 0, 2, 9, 1]),
        UdpNotifPacketParsingError::InvalidOptionLength(1)
    );
    assert_eq!(
        parse_error(&[0x21, 15, 0, 15, 0, 0, 0, 1, 0, 0, 0, 2, 1, 3, 0]),
        UdpNotifPacketParsingError::InvalidOptionLength(3)
    );
    assert_eq!(
        parse_error(&[0x21, 14, 0, 14, 0, 0, 0, 1, 0, 0, 0, 2, 9, 3]),
        UdpNotifPacketParsingError::Eof
    );
    assert_eq!(
        parse_error(&[0x21, 13, 0, 13, 0, 0, 0, 1, 0, 0, 0, 2, 9]),
        UdpNotifPacketParsingError::Eof
    );
}

#[test]
fn parse_error_reaches_the_caller_of_decode() {
    let mut codec = UdpPacketCodec::default();
    let mut buf = BytesMut::from(&[0x61, 12, 0, 12, 0, 0, 0, 1, 0, 0, 0, 2][..]);
    assert_eq!(
        codec.decode(&mut buf),
        Err(UdpPacketCodecError::UdpNotifError(UdpNotifPacketParsingError::InvalidVersion(3)))
    );
    assert!(buf.is_empty());
}

#[test]
fn datagram_with_wrong_length_is_left_alone() {
    let mut codec = UdpPacketCodec::default();
    let mut buf = BytesMut::from(&[0x21, 12, 0, 13, 0, 0, 0, 1, 0, 0, 0, 2][..]);
    assert_eq!(codec.decode(&mut buf), Err(UdpPacketCodecError::InvalidMessageLength(13)));
    assert_eq!(buf.len(), 12);
}

#[test]
fn parser_that_disagrees_with_the_header_is_reported() {
    let mut codec = UdpPacketCodec::default();
    assert_eq!(
        codec.accept_parsed(0, 12, 12, Ok((segment(1, 0, true, b""), 11))),
        Err(UdpPacketCodecError::InvalidMessageLength(12))
    );
    assert_eq!(
        codec.accept_parsed(0, 12, 13, Ok((segment(1, 0, true, b""), 12))),
        Err(UdpPacketCodecError::InvalidMessageLength(12))
    );
    assert_eq!(
        codec.accept_parsed(0, 12, 12, Ok((segment(1, 0, true, b""), 12))),
        Ok(Some(segment(1, 0, true, b"")))
    );
}

fn writing_error(packet: UdpNotifPacket) -> UdpNotifPacketWritingError {
    let mut codec = UdpPacketCodec::default();
    let mut buf = BytesMut::new();
    match codec.encode(packet, &mut buf) {
        Err(UdpPacketCodecError::WritingError(error)) => {
            assert!(buf.is_empty());
            error
        }
        other => panic!("no writing error: {other:?}"),
    }
}

fn packet_with(
    media_type: MediaType,
    options: HashMap<u8, UdpNotifOption>,
    payload: Vec<u8>,
) -> UdpNotifPacket {
    UdpNotifPacket::new(media_type, 1, 2, options, Bytes::from(payload))
}

#[test]
fn packets_that_cannot_be_written_are_refused() {
    assert_eq!(
        writing_error(packet_with(MediaType::Unknown(32), HashMap::new(), Vec::new())),
        UdpNotifPacketWritingError::InvalidMediaType(32)
    );
    assert_eq!(
        writing_error(segment(1, 32768, false, b"")),
        UdpNotifPacketWritingError::InvalidSegmentNumber(32768)
    );
    let mut options = HashMap::new();
    options.insert(9, UdpNotifOption::Unknown { typ: 9, value: vec![0; 254] });
    assert_eq!(
        writing_error(packet_with(MediaType::YangDataXml, options, Vec::new())),
        UdpNotifPacketWritingError::OptionTooLong(9)
    );
    let mut options = HashMap::new();
    options.insert(9, UdpNotifOption::Unknown { typ: 9, value: vec![0; 200] });
    options.insert(10, UdpNotifOption::Unknown { typ: 10, value: vec![0; 200] });
    assert_eq!(
        writing_error(packet_with(MediaType::YangDataXml, options, Vec::new())),
        UdpNotifPacketWritingError::HeaderTooLong(416)
    );
    assert_eq!(
        writing_error(packet_with(MediaType::YangDataXml, HashMap::new(), vec![0; 65524])),
        UdpNotifPacketWritingError::MessageTooLong(65536)
    );
}

#[test]
fn packet_is_read_back() {
    let mut options = HashMap::new();
    options.insert(PRIVATE_ENCODING_OPTION, UdpNotifOption::PrivateEncoding(vec![5, 6]));
    options.insert(200, UdpNotifOption::Unknown { typ: 200, value: Vec::new() });
    let packet = packet_with(MediaType::Unknown(17), options, vec![1, 2, 3]);
    let octets = packet.write().unwrap();
    assert_eq!(
        octets,
        vec![
            0x31, 18, 0, 21, 0, 0, 0, 1, 0, 0, 0, 2, // fixed header
            2, 4, 5, 6, // private encoding
            200, 2, // unknown option
            1, 2, 3,
        ]
    );
    assert_eq!(UdpNotifPacket::from_wire(&octets), Ok((packet, 21)));
}
