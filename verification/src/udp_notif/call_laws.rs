//! What the calls of the UDP-Notif codec give and change.
use crate::octets::{frozen_octets, octets};
use crate::udp_notif::codec::{
    decoded, delivered, has_room, holds, nanos_from, read_from_clock, segment_info,
    ReassemblyEventCounts, UdpPacketCodec, UdpPacketCodecError,
};
use crate::udp_notif::laws::{lemma_eviction, lemma_whole_packet_passes};
use crate::udp_notif::reassembly::{
    held_in_all, reassembled, BufferModel, ReassemblyBuffer, ReassemblyBufferError,
};
use crate::udp_notif::wire::{
    media_type_code, options_model, parsed_packet, written_packet, MediaType, PacketModel,
    UdpNotifOption, UdpNotifPacket, UdpNotifPacketParsingError, UdpNotifPacketWritingError,
};
use crate::udp_notif::wire_laws::{
    lemma_writable_packets, lemma_written_fields, options_fit, options_len,
};
use bytes::{Bytes, BytesMut};
use std::collections::HashMap;
use std::time::Instant;
use vstd::prelude::*;

verus! {

/// A datagram is decoded at the time of the call: the time at which it is decoded is
/// read from the clock by this call, and counted from the origin of the codec, which
/// stays. Every incomplete message that is older than the timeout at that time is
/// gone, and no other message goes for its age.
pub proof fn lemma_decode_reads_the_clock(
    codec: &mut UdpPacketCodec,
    buf: &mut BytesMut,
    r: Result<Option<UdpNotifPacket>, UdpPacketCodecError>,
)
    requires
        call_ensures(UdpPacketCodec::decode, (codec, buf), r),
        old(codec)@.incomplete.dom().finite(),
        has_room(old(codec)@, octets(*old(buf)).len() as int),
    ensures
        final(codec).clock_origin() == old(codec).clock_origin(),
        exists|seen: Instant|
            ({
                let now = #[trigger] nanos_from(old(codec).clock_origin(), seen);
                let decoding = decoded(old(codec)@, octets(*old(buf)), now);
                &&& read_from_clock(seen)
                &&& holds(r, decoding.result)
                &&& final(codec)@ == decoding.state
                &&& octets(*final(buf)) == decoding.rest
                &&& octets(*old(buf)).len() == 0 ==> forall|key: u64| #[trigger]
                    final(codec)@.incomplete.contains_key(key) <==> {
                        &&& old(codec)@.incomplete.contains_key(key)
                        &&& now <= old(codec)@.incomplete[key].timestamp + old(codec)@.timeout
                    }
            }),
{
    let state = old(codec)@;
    let datagram = octets(*old(buf));
    let seen = choose|seen: Instant|
        ({
            let now = #[trigger] nanos_from(old(codec).clock_origin(), seen);
            let decoding = decoded(state, datagram, now);
            &&& read_from_clock(seen)
            &&& holds(r, decoding.result)
            &&& final(codec)@ == decoding.state
            &&& octets(*final(buf)) == decoding.rest
        });
    lemma_eviction(state, nanos_from(old(codec).clock_origin(), seen));
}

/// What decoding at a given time, or at a given point in time, gives and changes.
pub proof fn lemma_decode_at(
    codec: &mut UdpPacketCodec,
    now: u128,
    buf: &mut BytesMut,
    r: Result<Option<UdpNotifPacket>, UdpPacketCodecError>,
)
    requires
        call_ensures(UdpPacketCodec::decode_at, (codec, now, buf), r),
    ensures
        ({
            let decoding = decoded(old(codec)@, octets(*old(buf)), now);
            &&& final(codec)@ == decoding.state
            &&& octets(*final(buf)) == decoding.rest
            &&& match decoding.result {
                Ok(Some(packet)) => r matches Ok(Some(result)) && result@ == packet,
                Ok(None) => r matches Ok(None),
                Err(error) => r == Err::<Option<UdpNotifPacket>, _>(error),
            }
        }),
        final(codec).clock_origin() == old(codec).clock_origin(),
{
}

/// What decoding at a given point in time gives and changes.
pub proof fn lemma_decode_seen(
    codec: &mut UdpPacketCodec,
    seen: Instant,
    buf: &mut BytesMut,
    r: Result<Option<UdpNotifPacket>, UdpPacketCodecError>,
)
    requires
        call_ensures(UdpPacketCodec::decode_seen, (codec, seen, buf), r),
    ensures
        ({
            let now = nanos_from(old(codec).clock_origin(), seen);
            let decoding = decoded(old(codec)@, octets(*old(buf)), now);
            &&& final(codec)@ == decoding.state
            &&& octets(*final(buf)) == decoding.rest
            &&& match decoding.result {
                Ok(Some(packet)) => r matches Ok(Some(result)) && result@ == packet,
                Ok(None) => r matches Ok(None),
                Err(error) => r == Err::<Option<UdpNotifPacket>, _>(error),
            }
        }),
{
}

/// A packet that is handed in is delivered.
pub proof fn lemma_try_reassemble(
    codec: &mut UdpPacketCodec,
    packet: UdpNotifPacket,
    now: u128,
    r: Result<Option<UdpNotifPacket>, UdpPacketCodecError>,
)
    requires
        call_ensures(UdpPacketCodec::try_reassemble_segments, (codec, packet, now), r),
    ensures
        ({
            let delivery = delivered(old(codec)@, packet@, now);
            &&& final(codec)@ == delivery.state
            &&& match delivery.result {
                Ok(Some(message)) => r matches Ok(Some(result)) && result@ == message,
                Ok(None) => r matches Ok(None),
                Err(error) => r == Err::<Option<UdpNotifPacket>, _>(
                    UdpPacketCodecError::ReassemblyError(error),
                ),
            }
        }),
        !packet@.options.contains_key(1) ==> (r matches Ok(Some(result)) && result@ == packet@),
{
    if !packet@.options.contains_key(1) {
        lemma_whole_packet_passes(old(codec)@, packet@, now);
    }
}

/// The events are handed out and start again from zero; nothing else changes.
pub proof fn lemma_events_taken(codec: &mut UdpPacketCodec, events: ReassemblyEventCounts)
    requires
        call_ensures(UdpPacketCodec::take_reassembly_events, (codec,), events),
    ensures
        events == old(codec)@.events,
        final(codec)@.events.timeout_evictions == 0,
        final(codec)@.events.duplicate_drops == 0,
        final(codec)@.events.max_segments_exceeded == 0,
        final(codec)@.incomplete == old(codec)@.incomplete,
        final(codec)@.max_segments == old(codec)@.max_segments,
        final(codec)@.timeout == old(codec)@.timeout,
{
}

/// The incomplete messages are counted, and whether there is room is told.
pub proof fn lemma_codec_asked(codec: &UdpPacketCodec, buf: &BytesMut, count: usize, room: bool)
    requires
        call_ensures(UdpPacketCodec::incomplete_messages_count, (codec,), count),
        call_ensures(UdpPacketCodec::can_decode, (codec, buf), room),
    ensures
        count == codec@.incomplete.len(),
        room <==> {
            &&& codec@.events.timeout_evictions + codec@.incomplete.len() <= u64::MAX
            &&& codec@.events.duplicate_drops < u64::MAX
            &&& codec@.events.max_segments_exceeded < u64::MAX
            &&& octets(*buf).len() <= isize::MAX
            &&& forall|key: u64| #[trigger]
                codec@.incomplete.contains_key(key) ==> held_in_all(
                    codec@.incomplete[key].segments,
                ) + octets(*buf).len() <= isize::MAX
        },
{
}

/// Where the number of a segment is found, and whether it is the last.
pub proof fn lemma_segment_info(options: &HashMap<u8, UdpNotifOption>, info: (u16, bool))
    requires
        call_ensures(UdpPacketCodec::extract_segment_info, (options,), info),
    ensures
        !options@.contains_key(1) ==> info == (0u16, true),
        options@.contains_key(1) ==> match options@[1] {
            UdpNotifOption::Segment { number, last } => info == (number, last),
            _ => info == (0u16, true),
        },
        info == segment_info(options_model(options@)),
{
}

/// Which packets `encode` writes: exactly those with a media type of five bits,
/// options that fit, at most 255 octets of header and at most 65535 octets in all.
/// Their octets come behind what was there; any other packet changes nothing.
pub proof fn lemma_encode(
    codec: &mut UdpPacketCodec,
    packet: UdpNotifPacket,
    dst: &mut BytesMut,
    r: Result<(), UdpPacketCodecError>,
)
    requires
        call_ensures(UdpPacketCodec::encode, (codec, packet, dst), r),
    ensures
        final(codec)@ == old(codec)@,
        r is Ok <==> {
            &&& media_type_code(packet@.media_type) < 32
            &&& options_fit(packet@.options)
            &&& 12 + options_len(packet@.options, 0) <= 255
            &&& 12 + options_len(packet@.options, 0) + packet@.payload.len() <= 65535
        },
        r is Err ==> octets(*final(dst)) == octets(*old(dst)),
        r is Ok ==> ({
            let written = octets(*final(dst)).skip(octets(*old(dst)).len() as int);
            &&& octets(*final(dst)).take(octets(*old(dst)).len() as int) == octets(*old(dst))
            &&& written_packet(packet@) == Ok::<_, UdpNotifPacketWritingError>(written)
            &&& written.len() == 12 + options_len(packet@.options, 0) + packet@.payload.len()
            &&& written[0] == 32 + media_type_code(packet@.media_type)
            &&& written[2] * 256 + written[3] == written.len()
            &&& written.skip(12 + options_len(packet@.options, 0) as int) == packet@.payload
        }),
{
    lemma_writable_packets(packet@);
    if r is Ok {
        lemma_written_fields(packet@);
        let before = octets(*old(dst));
        let own = written_packet(packet@)->Ok_0;
        assert((before + own).skip(before.len() as int) =~= own);
        assert((before + own).take(before.len() as int) =~= before);
        let header = 12 + options_len(packet@.options, 0) as int;
        assert(own.skip(header) =~= own.subrange(header, own.len() as int));
    }
}

/// Which packets `write` writes.
pub proof fn lemma_write(
    packet: &UdpNotifPacket,
    r: Result<Vec<u8>, UdpNotifPacketWritingError>,
)
    requires
        call_ensures(UdpNotifPacket::write, (packet,), r),
    ensures
        r is Ok <==> {
            &&& media_type_code(packet@.media_type) < 32
            &&& options_fit(packet@.options)
            &&& 12 + options_len(packet@.options, 0) <= 255
            &&& 12 + options_len(packet@.options, 0) + packet@.payload.len() <= 65535
        },
        match r {
            Ok(octets) => written_packet(packet@) == Ok::<_, UdpNotifPacketWritingError>(octets@),
            Err(error) => written_packet(packet@) == Err::<Seq<u8>, _>(error),
        },
{
    lemma_writable_packets(packet@);
}

/// What `from_wire` reads.
pub proof fn lemma_from_wire(
    octets: &[u8],
    r: Result<(UdpNotifPacket, usize), UdpNotifPacketParsingError>,
)
    requires
        call_ensures(UdpNotifPacket::from_wire, (octets,), r),
    ensures
        match r {
            Ok((packet, taken)) => parsed_packet(octets@) == Ok::<_, UdpNotifPacketParsingError>(
                (packet@, taken as int),
            ),
            Err(error) => parsed_packet(octets@) == Err::<(PacketModel, int), _>(error),
        },
{
}

/// A packet gives back what it was made of.
pub proof fn lemma_packet_parts(
    media_type: MediaType,
    publisher_id: u32,
    message_id: u32,
    options: HashMap<u8, UdpNotifOption>,
    payload: Bytes,
    packet: UdpNotifPacket,
    payload_read: &Bytes,
    options_read: &HashMap<u8, UdpNotifOption>,
)
    requires
        call_ensures(
            UdpNotifPacket::new,
            (media_type, publisher_id, message_id, options, payload),
            packet,
        ),
        call_ensures(UdpNotifPacket::payload, (&packet,), payload_read),
        call_ensures(UdpNotifPacket::options, (&packet,), options_read),
    ensures
        packet@.media_type == media_type,
        packet@.publisher_id == publisher_id,
        packet@.message_id == message_id,
        frozen_octets(*payload_read) == frozen_octets(payload),
        options_read@.dom() == options@.dom(),
        forall|code: u8| #[trigger]
            options@.contains_key(code) ==> options_read@[code]@ == options@[code]@,
        forall|n: u32| call_ensures(UdpNotifPacket::publisher_id, (&packet,), n) ==> n
            == publisher_id,
        forall|n: u32| call_ensures(UdpNotifPacket::message_id, (&packet,), n) ==> n == message_id,
        forall|m: MediaType| call_ensures(UdpNotifPacket::media_type, (&packet,), m) ==> m
            == media_type,
{
    assert(options_model(options_read@) == options_model(options@));
    assert(options_model(options_read@).dom() =~= options_read@.dom());
    assert(options_model(options@).dom() =~= options@.dom());
    assert forall|code: u8| #[trigger] options@.contains_key(code) implies options_read@[code]@
        == options@[code]@ by {
        assert(options_model(options_read@)[code] == options_model(options@)[code]);
    }
}

/// The code of a media type is told, and the media type of a code.
pub proof fn lemma_media_type_calls(code: u8, media_type: MediaType, told: u8)
    requires
        call_ensures(MediaType::from_code, (code,), media_type),
        call_ensures(MediaType::code, (media_type,), told),
    ensures
        told == code,
        media_type == MediaType::YangDataJson <==> code == 1,
        media_type == MediaType::YangDataXml <==> code == 2,
        media_type == MediaType::YangDataCbor <==> code == 3,
        code == 0 || code > 3 ==> media_type == MediaType::Unknown(code),
{
}

/// A segment is added to a buffer under its number; the last one tells how many
/// there are.
pub proof fn lemma_segment_added(
    buffer: &mut ReassemblyBuffer,
    number: u16,
    packet: UdpNotifPacket,
    last: bool,
)
    requires
        call_ensures(ReassemblyBuffer::add_segment, (buffer, number, packet, last), ()),
        last ==> number < u16::MAX,
    ensures
        final(buffer)@.segments == old(buffer)@.segments.insert(number, packet@),
        final(buffer)@.timestamp == old(buffer)@.timestamp,
        final(buffer)@.has_last <==> old(buffer)@.has_last || last,
        last ==> final(buffer)@.expected_count == number + 1,
        !last ==> final(buffer)@.expected_count == old(buffer)@.expected_count,
{
}

/// What a buffer tells of its segments and its age.
pub proof fn lemma_buffer_asked(
    buffer: &ReassemblyBuffer,
    number: u16,
    now: u128,
    timeout: u128,
    there: bool,
    count: usize,
    complete: bool,
    old_enough: bool,
)
    requires
        call_ensures(ReassemblyBuffer::contains_segment, (buffer, number), there),
        call_ensures(ReassemblyBuffer::segment_count, (buffer,), count),
        call_ensures(ReassemblyBuffer::ready_to_reassemble, (buffer,), complete),
        call_ensures(ReassemblyBuffer::is_timed_out, (buffer, now, timeout), old_enough),
    ensures
        there <==> buffer@.segments.contains_key(number),
        count == buffer@.segments.len(),
        complete <==> buffer@.has_last && buffer@.segments.len() == buffer@.expected_count,
        old_enough <==> now > buffer@.timestamp + timeout,
{
}

/// A new buffer has no segments; what is put together is what its segments make up.
pub proof fn lemma_buffer_made_and_used(
    now: u128,
    fresh: ReassemblyBuffer,
    buffer: ReassemblyBuffer,
    media_type: MediaType,
    publisher_id: u32,
    message_id: u32,
    r: Result<UdpNotifPacket, ReassemblyBufferError>,
)
    requires
        call_ensures(ReassemblyBuffer::new, (now,), fresh),
        call_ensures(ReassemblyBuffer::reassemble, (buffer, media_type, publisher_id, message_id), r),
    ensures
        fresh@ == (BufferModel {
            timestamp: now,
            has_last: false,
            expected_count: 1,
            segments: Map::empty(),
        }),
        match r {
            Ok(packet) => reassembled(buffer@, media_type, publisher_id, message_id) == Ok::<
                _,
                ReassemblyBufferError,
            >(packet@),
            Err(error) => reassembled(buffer@, media_type, publisher_id, message_id) == Err::<
                PacketModel,
                _,
            >(error),
        },
{
}

/// A codec that is made without limits has the default ones, and nothing to
/// reassemble.
pub proof fn lemma_default_codec(codec: UdpPacketCodec)
    requires
        call_ensures(<UdpPacketCodec as Default>::default, (), codec),
    ensures
        codec@.incomplete.dom().is_empty(),
        codec@.max_segments == 64,
        codec@.timeout == 10_000_000_000,
        codec@.events.timeout_evictions == 0,
        codec@.events.duplicate_drops == 0,
        codec@.events.max_segments_exceeded == 0,
{
}

/// A packet that was parsed is delivered where it takes exactly the octets that there
/// are and that the header says; otherwise the length is at fault.
pub proof fn lemma_accept_parsed(
    codec: &mut UdpPacketCodec,
    now: u128,
    message_len: u16,
    available: usize,
    packet: UdpNotifPacket,
    taken: usize,
    r: Result<Option<UdpNotifPacket>, UdpPacketCodecError>,
)
    requires
        call_ensures(
            UdpPacketCodec::accept_parsed,
            (codec, now, message_len, available, Ok((packet, taken))),
            r,
        ),
    ensures
        taken != message_len || taken != available ==> {
            &&& r == Err::<Option<UdpNotifPacket>, _>(
                UdpPacketCodecError::InvalidMessageLength(message_len),
            )
            &&& final(codec)@ == old(codec)@
        },
        taken == message_len && taken == available ==> {
            let delivery = delivered(old(codec)@, packet@, now);
            &&& final(codec)@ == delivery.state
            &&& match delivery.result {
                Ok(Some(message)) => r matches Ok(Some(result)) && result@ == message,
                Ok(None) => r matches Ok(None),
                Err(error) => r == Err::<Option<UdpNotifPacket>, _>(
                    UdpPacketCodecError::ReassemblyError(error),
                ),
            }
        },
{
}

} // verus!
