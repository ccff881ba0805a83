//! What holds of reassembly as a whole.
use crate::octets::be16;
use crate::udp_notif::codec::{
    buffer_for, checked_len, decoded, delivered, evicted, has_room, message_key, segment_info,
    ReassemblyEventCounts, ReassemblyState, UdpPacketCodec, UdpPacketCodecError,
    DEFAULT_MAX_SEGMENTS, DEFAULT_REASSEMBLY_TIMEOUT,
};
use crate::udp_notif::reassembly::{
    first_gap, held_in_all, held_octets, joined_payload, lemma_first_gap, ready, reassembled,
    timed_out, whole_message, with_segment, BufferModel, ReassemblyBufferError,
};
use crate::udp_notif::wire::{
    be16_octets, keyed, lemma_packet_read_back, lemma_parsed_packet_keyed, media_type_code,
    media_type_of, options_octets, packet_octets, parsed_packet, written_packet, MediaType,
    OptionModel, PacketModel, MIN_HEADER_LENGTH, SEGMENT_OPTION,
};
use vstd::prelude::*;

verus! {

/// Different messages have different keys.
pub proof fn lemma_message_keys_are_distinct(
    publisher1: u32,
    message1: u32,
    publisher2: u32,
    message2: u32,
)
    requires
        message_key(publisher1, message1) == message_key(publisher2, message2),
    ensures
        publisher1 == publisher2,
        message1 == message2,
{
}

/// A buffer holds what an incomplete message with this key may have left there:
/// at least one segment and no more than allowed, each under its own number, from
/// this message and no longer than a datagram can be, and not all of them.
pub open spec fn consistent_buffer(buffer: BufferModel, key: u64, max_segments: u16) -> bool {
    &&& buffer.segments.dom().finite()
    &&& 1 <= buffer.segments.len() <= max_segments
    &&& !ready(buffer)
    &&& forall|number: u16| #[trigger]
        buffer.segments.contains_key(number) ==> {
            let segment = buffer.segments[number];
            &&& message_key(segment.publisher_id, segment.message_id) == key
            &&& segment_info(segment.options).0 == number
            &&& segment_info(segment.options).1 ==> buffer.has_last
            &&& segment.payload.len() <= u16::MAX
        }
    &&& buffer.has_last ==> 1 <= buffer.expected_count && buffer.segments.contains_key(
        (buffer.expected_count - 1) as u16,
    )
}

/// Every incomplete message is kept consistently.
pub open spec fn consistent(state: ReassemblyState) -> bool {
    &&& state.incomplete.dom().finite()
    &&& forall|key: u64| #[trigger]
        state.incomplete.contains_key(key) ==> consistent_buffer(
            state.incomplete[key],
            key,
            state.max_segments,
        )
}

/// A packet leaves every incomplete message consistent; in particular none ever
/// has more segments than allowed.
pub proof fn lemma_delivered_consistent(state: ReassemblyState, packet: PacketModel, now: u128)
    requires
        consistent(state),
        segment_info(packet.options).1 ==> segment_info(packet.options).0 < u16::MAX,
        packet.payload.len() <= u16::MAX,
    ensures
        consistent(delivered(state, packet, now).state),
{
    let (number, last) = segment_info(packet.options);
    let key = message_key(packet.publisher_id, packet.message_id);
    let buffer = buffer_for(state, key, now);
    let next = with_segment(buffer, number, packet, last);
    let after = delivered(state, packet, now).state;
    assert forall|k: u64| #[trigger] after.incomplete.contains_key(k) implies consistent_buffer(
        after.incomplete[k],
        k,
        after.max_segments,
    ) by {
        if k != key {
            assert(state.incomplete.contains_key(k));
        } else if after.incomplete[k] == next {
            if state.incomplete.contains_key(key) {
                assert(consistent_buffer(buffer, key, state.max_segments));
            }
            assert forall|n: u16| #[trigger] next.segments.contains_key(n) implies {
                let segment = next.segments[n];
                &&& message_key(segment.publisher_id, segment.message_id) == key
                &&& segment_info(segment.options).0 == n
                &&& segment_info(segment.options).1 ==> next.has_last
                &&& segment.payload.len() <= u16::MAX
            } by {
                if n != number {
                    assert(buffer.segments.contains_key(n));
                }
            }
        } else {
            assert(state.incomplete.contains_key(k));
        }
    }
}

/// Evicting old messages leaves the others consistent.
pub proof fn lemma_evicted_consistent(state: ReassemblyState, now: u128)
    requires
        consistent(state),
    ensures
        consistent(evicted(state, now)),
{
    let after = evicted(state, now);
    assert(after.incomplete.dom() =~= state.incomplete.dom().intersect(
        Set::new(|key: u64| !timed_out(state.incomplete[key], now, state.timeout)),
    ));
    assert forall|k: u64| #[trigger] after.incomplete.contains_key(k) implies consistent_buffer(
        after.incomplete[k],
        k,
        after.max_segments,
    ) by {
        assert(state.incomplete.contains_key(k));
    }
}

/// Every datagram leaves every incomplete message consistent.
pub proof fn lemma_decoded_consistent(state: ReassemblyState, datagram: Seq<u8>, now: u128)
    requires
        consistent(state),
    ensures
        consistent(decoded(state, datagram, now).state),
{
    lemma_evicted_consistent(state, now);
    lemma_parsed_packet_keyed(datagram);
    if let Ok((packet, _)) = parsed_packet(datagram) {
        lemma_delivered_consistent(evicted(state, now), packet, now);
    }
}

proof fn lemma_held_per_segment(segments: Map<u16, PacketModel>, to: int)
    requires
        0 <= to <= 65536,
        segments.dom().finite(),
        forall|number: u16| #[trigger]
            segments.contains_key(number) ==> segments[number].payload.len() <= u16::MAX,
    ensures
        held_octets(segments, to) <= segments.dom().filter(|n: u16| n < to).len() * u16::MAX,
    decreases to,
{
    let below = segments.dom().filter(|n: u16| n < to);
    if to > 0 {
        lemma_held_per_segment(segments, to - 1);
        let fewer = segments.dom().filter(|n: u16| n < to - 1);
        let number = (to - 1) as u16;
        assert(segments.dom().filter(|n: u16| n < to).finite());
        if segments.contains_key(number) {
            assert(below =~= fewer.insert(number));
            assert(!fewer.contains(number));
            assert(below.len() == fewer.len() + 1);
            assert(below.len() * u16::MAX == fewer.len() * u16::MAX + u16::MAX) by (nonlinear_arith)
                requires
                    below.len() == fewer.len() + 1,
            ;
        } else {
            assert(below =~= fewer);
        }
    }
}

/// A codec whose messages fit into memory at their longest always has room for
/// the next datagram, as long as its counters can count. That holds of the
/// default limit.
pub proof fn lemma_room_for_datagram(state: ReassemblyState, len: int)
    requires
        consistent(state),
        0 <= len <= u16::MAX,
        (state.max_segments + 1) * u16::MAX <= isize::MAX,
        state.events.timeout_evictions + state.incomplete.len() <= u64::MAX,
        state.events.duplicate_drops < u64::MAX,
        state.events.max_segments_exceeded < u64::MAX,
    ensures
        has_room(state, len),
        (DEFAULT_MAX_SEGMENTS + 1) * u16::MAX <= isize::MAX,
{
    let max = state.max_segments as int;
    assert((max + 1) * u16::MAX == max * u16::MAX + u16::MAX) by (nonlinear_arith);
    assert(max * u16::MAX >= 0) by (nonlinear_arith)
        requires
            max >= 0,
    ;
    assert forall|key: u64| #[trigger] state.incomplete.contains_key(key) implies held_in_all(
        state.incomplete[key].segments,
    ) + len <= isize::MAX by {
        let buffer = state.incomplete[key];
        let segments = buffer.segments;
        assert(consistent_buffer(buffer, key, state.max_segments));
        lemma_held_per_segment(segments, 65536);
        let below = segments.dom().filter(|n: u16| n < 65536);
        assert(below =~= segments.dom());
        let count = segments.len() as int;
        assert(count * u16::MAX <= max * u16::MAX) by (nonlinear_arith)
            requires
                count <= max,
        ;
    }
}

/// After a datagram no incomplete message is older than the timeout.
pub proof fn lemma_no_stale_messages(state: ReassemblyState, datagram: Seq<u8>, now: u128)
    ensures
        forall|key: u64| #[trigger]
            decoded(state, datagram, now).state.incomplete.contains_key(key) ==> !timed_out(
                decoded(state, datagram, now).state.incomplete[key],
                now,
                state.timeout,
            ),
{
    let young = evicted(state, now);
    assert forall|key: u64| #[trigger] young.incomplete.contains_key(key) implies !timed_out(
        young.incomplete[key],
        now,
        state.timeout,
    ) by {
        assert(state.incomplete.contains_key(key));
    }
}

/// A packet touches no incomplete message but its own.
pub proof fn lemma_other_messages_untouched(
    state: ReassemblyState,
    packet: PacketModel,
    now: u128,
    publisher_id: u32,
    message_id: u32,
)
    requires
        publisher_id != packet.publisher_id || message_id != packet.message_id,
    ensures
        ({
            let key = message_key(publisher_id, message_id);
            let after = delivered(state, packet, now).state.incomplete;
            &&& after.contains_key(key) == state.incomplete.contains_key(key)
            &&& state.incomplete.contains_key(key) ==> after[key] == state.incomplete[key]
        }),
{
    if message_key(publisher_id, message_id) == message_key(
        packet.publisher_id,
        packet.message_id,
    ) {
        lemma_message_keys_are_distinct(
            publisher_id,
            message_id,
            packet.publisher_id,
            packet.message_id,
        );
    }
}

/// A segment that is there already is dropped: only the count of such drops
/// changes.
pub proof fn lemma_duplicate_only_counted(state: ReassemblyState, packet: PacketModel, now: u128)
    requires
        ({
            let key = message_key(packet.publisher_id, packet.message_id);
            let (number, last) = segment_info(packet.options);
            &&& !(number == 0 && last)
            &&& state.incomplete.contains_key(key)
            &&& state.incomplete[key].segments.contains_key(number)
        }),
        state.events.duplicate_drops < u64::MAX,
    ensures
        delivered(state, packet, now).result matches Ok(None),
        delivered(state, packet, now).state == (ReassemblyState {
            events: ReassemblyEventCounts {
                duplicate_drops: (state.events.duplicate_drops + 1) as u64,
                ..state.events
            },
            ..state
        }),
{
}

/// The segments of one message in the order of their numbers: the same
/// identifiers, and each option says the number and which one is last.
pub open spec fn segments_of_one_message(parts: Seq<PacketModel>) -> bool {
    &&& 2 <= parts.len() <= u16::MAX
    &&& forall|i: int|
        0 <= i < parts.len() ==> {
            &&& (#[trigger] parts[i]).publisher_id == parts[0].publisher_id
            &&& parts[i].message_id == parts[0].message_id
            &&& segment_info(parts[i].options) == (i as u16, i == parts.len() - 1)
        }
}

/// The payloads of `parts`, one after the other.
pub open spec fn payloads(parts: Seq<PacketModel>) -> Seq<u8>
    decreases parts.len(),
{
    if parts.len() == 0 {
        Seq::empty()
    } else {
        payloads(parts.drop_last()) + parts.last().payload
    }
}

/// The message that was cut into `parts`.
pub open spec fn message_of(parts: Seq<PacketModel>) -> PacketModel {
    PacketModel {
        options: parts[0].options.remove(SEGMENT_OPTION),
        payload: payloads(parts),
        ..parts[0]
    }
}

/// A datagram, and when it arrives.
pub struct Arrival {
    pub datagram: Seq<u8>,
    pub time: u128,
}

/// The state after these datagrams were decoded, the first of them first.
pub open spec fn after_datagrams(state: ReassemblyState, arrivals: Seq<Arrival>) -> ReassemblyState
    decreases arrivals.len(),
{
    if arrivals.len() == 0 {
        state
    } else {
        decoded(
            after_datagrams(state, arrivals.drop_last()),
            arrivals.last().datagram,
            arrivals.last().time,
        ).state
    }
}

/// What decoding the datagram with this index results in.
pub open spec fn result_of(state: ReassemblyState, arrivals: Seq<Arrival>, index: int) -> Result<
    Option<PacketModel>,
    UdpPacketCodecError,
> {
    decoded(
        after_datagrams(state, arrivals.take(index)),
        arrivals[index].datagram,
        arrivals[index].time,
    ).result
}

/// The packet that a datagram carries, if it is well-formed.
pub open spec fn packet_in(datagram: Seq<u8>) -> Option<PacketModel> {
    match parsed_packet(datagram) {
        Ok((packet, taken)) => if checked_len(datagram) is Ok && taken == datagram.len() {
            Some(packet)
        } else {
            None
        },
        Err(_) => None,
    }
}

/// The datagram carries a packet of the message that was cut into `parts`.
pub open spec fn is_of_message(datagram: Seq<u8>, parts: Seq<PacketModel>) -> bool {
    packet_in(datagram) matches Some(packet) && packet.publisher_id == parts[0].publisher_id
        && packet.message_id == parts[0].message_id
}

/// One of the datagrams carries this part.
pub open spec fn brought(arrivals: Seq<Arrival>, part: PacketModel) -> bool {
    exists|i: int|
        0 <= i < arrivals.len() && packet_in(#[trigger] arrivals[i].datagram) == Some(part)
}

/// The datagrams carry every part.
pub open spec fn brought_all(arrivals: Seq<Arrival>, parts: Seq<PacketModel>) -> bool {
    forall|j: int| 0 <= j < parts.len() ==> brought(arrivals, #[trigger] parts[j])
}

/// Whatever the datagrams carry of the message that was cut into `parts` is one
/// of the parts. A part may arrive any number of times, and there may be any
/// datagrams of other messages, or of none, among them.
pub open spec fn only_parts(arrivals: Seq<Arrival>, parts: Seq<PacketModel>) -> bool {
    forall|i: int|
        0 <= i < arrivals.len() && #[trigger] is_of_message(arrivals[i].datagram, parts)
            ==> parts.contains(packet_in(arrivals[i].datagram)->0)
}

/// The indices of the parts that the datagrams carry.
spec fn seen_parts(arrivals: Seq<Arrival>, parts: Seq<PacketModel>) -> Set<int> {
    Set::new(|j: int| 0 <= j < parts.len() && brought(arrivals, parts[j]))
}

/// The segments with these indices, by number.
spec fn collected(parts: Seq<PacketModel>, seen: Set<int>) -> Map<u16, PacketModel> {
    Map::new(|number: u16| seen.contains(number as int), |number: u16| parts[number as int])
}

spec fn partial_buffer(parts: Seq<PacketModel>, seen: Set<int>, timestamp: u128) -> BufferModel {
    BufferModel {
        timestamp,
        has_last: seen.contains(parts.len() - 1),
        expected_count: if seen.contains(parts.len() - 1) {
            parts.len() as u16
        } else {
            1
        },
        segments: collected(parts, seen),
    }
}

proof fn lemma_collected_len(parts: Seq<PacketModel>, seen: Set<int>)
    requires
        parts.len() <= u16::MAX,
        seen.finite(),
        forall|j: int| #[trigger] seen.contains(j) ==> 0 <= j < parts.len(),
    ensures
        collected(parts, seen).dom().finite(),
        collected(parts, seen).len() == seen.len(),
    decreases seen.len(),
{
    if seen.len() == 0 {
        assert(seen =~= Set::empty());
        assert(collected(parts, seen).dom() =~= Set::empty());
    } else {
        let j = seen.choose();
        let fewer = seen.remove(j);
        assert(seen.contains(j));
        lemma_collected_len(parts, fewer);
        assert((j as u16) as int == j);
        assert(collected(parts, seen) =~= collected(parts, fewer).insert(j as u16, parts[j]));
    }
}

proof fn lemma_seen_len(arrivals: Seq<Arrival>, parts: Seq<PacketModel>)
    ensures
        seen_parts(arrivals, parts).finite(),
        seen_parts(arrivals, parts).len() <= parts.len(),
        seen_parts(arrivals, parts).len() == parts.len() <==> brought_all(arrivals, parts),
{
    let all = vstd::set_lib::set_int_range(0, parts.len() as int);
    let seen = seen_parts(arrivals, parts);
    vstd::set_lib::lemma_int_range(0, parts.len() as int);
    assert(seen.subset_of(all));
    vstd::set_lib::lemma_len_subset(seen, all);
    if seen.len() == parts.len() {
        vstd::set_lib::lemma_subset_equality(seen, all);
        assert forall|j: int| 0 <= j < parts.len() implies brought(arrivals, #[trigger] parts[j]) by {
            assert(all.contains(j));
        }
    }
    if brought_all(arrivals, parts) {
        assert(seen =~= all) by {
            assert forall|j: int| all.contains(j) implies seen.contains(j) by {
                assert(brought(arrivals, parts[j]));
            }
        }
    }
}

/// One more datagram brings the part that it carries, if any.
proof fn lemma_seen_step(arrivals: Seq<Arrival>, parts: Seq<PacketModel>, count: int)
    requires
        segments_of_one_message(parts),
        only_parts(arrivals, parts),
        0 <= count < arrivals.len(),
    ensures
        ({
            let before = seen_parts(arrivals.take(count), parts);
            let after = seen_parts(arrivals.take(count + 1), parts);
            let datagram = arrivals[count].datagram;
            if is_of_message(datagram, parts) {
                let part = packet_in(datagram)->0;
                let index = segment_info(part.options).0 as int;
                &&& 0 <= index < parts.len()
                &&& part == parts[index]
                &&& segment_info(part.options).1 == (index == parts.len() - 1)
                &&& after == before.insert(index)
            } else {
                after == before
            }
        }),
{
    let earlier = arrivals.take(count);
    let later = arrivals.take(count + 1);
    let before = seen_parts(earlier, parts);
    let after = seen_parts(later, parts);
    let datagram = arrivals[count].datagram;
    assert forall|part: PacketModel| #[trigger] brought(later, part) <==> brought(earlier, part)
        || packet_in(datagram) == Some(part) by {
        if brought(earlier, part) {
            let i = choose|i: int|
                0 <= i < earlier.len() && packet_in(#[trigger] earlier[i].datagram) == Some(part);
            assert(later[i] == earlier[i]);
        }
        if packet_in(datagram) == Some(part) {
            assert(later[count].datagram == datagram);
        }
        if brought(later, part) {
            let i = choose|i: int|
                0 <= i < later.len() && packet_in(#[trigger] later[i].datagram) == Some(part);
            if i < count {
                assert(earlier[i] == later[i]);
            }
        }
    }
    assert forall|j: int| 0 <= j < parts.len() implies segment_info(
        (#[trigger] parts[j]).options,
    ).0 == j by {}
    if is_of_message(datagram, parts) {
        let part = packet_in(datagram)->0;
        let index = choose|j: int| 0 <= j < parts.len() && parts[j] == part;
        assert(parts.contains(part));
        assert(parts[index] == part);
        assert(after =~= before.insert(index));
    } else {
        assert forall|j: int| 0 <= j < parts.len() implies packet_in(datagram) != Some(
            #[trigger] parts[j],
        ) by {}
        assert(after =~= before);
    }
}

proof fn lemma_joined_is_payloads(parts: Seq<PacketModel>, seen: Set<int>, count: int)
    requires
        parts.len() <= u16::MAX,
        0 <= count <= parts.len(),
        forall|j: int| 0 <= j < parts.len() ==> #[trigger] seen.contains(j),
    ensures
        joined_payload(collected(parts, seen), count) == payloads(parts.take(count)),
    decreases count,
{
    if count > 0 {
        lemma_joined_is_payloads(parts, seen, count - 1);
        assert(parts.take(count).drop_last() =~= parts.take(count - 1));
        assert(seen.contains(((count - 1) as u16) as int));
        assert(collected(parts, seen)[(count - 1) as u16] == parts[count - 1]);
    }
}

/// The parts, once all of them are there, make up the message.
proof fn lemma_all_parts_reassembled(
    parts: Seq<PacketModel>,
    seen: Set<int>,
    timestamp: u128,
    last: PacketModel,
)
    requires
        segments_of_one_message(parts),
        forall|j: int| #[trigger] seen.contains(j) <==> 0 <= j < parts.len(),
        seen.finite(),
        seen.len() == parts.len(),
    ensures
        ({
            let buffer = partial_buffer(parts, seen, timestamp);
            &&& ready(buffer)
            &&& reassembled(buffer, last.media_type, last.publisher_id, last.message_id) == Ok::<
                _,
                ReassemblyBufferError,
            >(message_of(parts))
        }),
{
    let n = parts.len() as int;
    let buffer = partial_buffer(parts, seen, timestamp);
    lemma_collected_len(parts, seen);
    assert(seen.contains(n - 1));
    assert(seen.contains(0));
    assert forall|i: int| 0 <= i < n implies buffer.segments.contains_key(#[trigger] (i as u16)) by {
        assert(seen.contains((i as u16) as int));
    }
    lemma_first_gap(buffer.segments, 0, n);
    lemma_joined_is_payloads(parts, seen, n);
    assert(parts.take(n) =~= parts);
    assert(buffer.segments[0] == parts[0]);
    assert(whole_message(buffer.segments, n) == message_of(parts));
}

/// A datagram that carries a packet delivers it, once the messages that are too
/// old are gone; one that carries none changes nothing else.
pub proof fn lemma_decoded_by_packet(state: ReassemblyState, datagram: Seq<u8>, now: u128)
    ensures
        ({
            let decoding = decoded(state, datagram, now);
            match packet_in(datagram) {
                Some(packet) => {
                    let delivery = delivered(evicted(state, now), packet, now);
                    &&& decoding.result == (match delivery.result {
                        Ok(message) => Ok(message),
                        Err(error) => Err(UdpPacketCodecError::ReassemblyError(error)),
                    })
                    &&& decoding.state == delivery.state
                },
                None => {
                    &&& decoding.result matches Ok(message) ==> message is None
                    &&& decoding.state == evicted(state, now)
                },
            }
        }),
{
}

/// What is there of the message while some of its parts are missing.
proof fn lemma_partial_message(
    state: ReassemblyState,
    parts: Seq<PacketModel>,
    arrivals: Seq<Arrival>,
    count: int,
)
    requires
        segments_of_one_message(parts),
        only_parts(arrivals, parts),
        parts.len() <= state.max_segments,
        !state.incomplete.contains_key(message_key(parts[0].publisher_id, parts[0].message_id)),
        0 < count <= arrivals.len(),
        is_of_message(arrivals[0].datagram, parts),
        forall|i: int|
            0 <= i < arrivals.len() ==> #[trigger] arrivals[i].time <= arrivals[0].time
                + state.timeout,
        !brought_all(arrivals.take(count - 1), parts),
    ensures
        ({
            let key = message_key(parts[0].publisher_id, parts[0].message_id);
            let after = after_datagrams(state, arrivals.take(count));
            let result = result_of(state, arrivals, count - 1);
            let seen = seen_parts(arrivals.take(count), parts);
            &&& after.max_segments == state.max_segments
            &&& after.timeout == state.timeout
            &&& if brought_all(arrivals.take(count), parts) {
                &&& !after.incomplete.contains_key(key)
                &&& result == Ok::<_, UdpPacketCodecError>(Some(message_of(parts)))
            } else {
                &&& after.incomplete.contains_key(key)
                &&& after.incomplete[key] == partial_buffer(parts, seen, arrivals[0].time)
                &&& is_of_message(arrivals[count - 1].datagram, parts) ==> result == Ok::<
                    _,
                    UdpPacketCodecError,
                >(None::<PacketModel>)
            }
        }),
    decreases count,
{
    let key = message_key(parts[0].publisher_id, parts[0].message_id);
    let start = arrivals[0].time;
    let earlier = arrivals.take(count - 1);
    let later = arrivals.take(count);
    let before = after_datagrams(state, earlier);
    let datagram = arrivals[count - 1].datagram;
    let now = arrivals[count - 1].time;
    let young = evicted(before, now);
    let seen = seen_parts(earlier, parts);
    let next_seen = seen_parts(later, parts);
    assert(later.drop_last() =~= earlier);
    assert(later.last() == arrivals[count - 1]);
    lemma_seen_step(arrivals, parts, count - 1);
    lemma_seen_len(earlier, parts);
    lemma_seen_len(later, parts);
    lemma_collected_len(parts, seen);
    lemma_collected_len(parts, next_seen);
    lemma_decoded_by_packet(before, datagram, now);
    if count == 1 {
        assert(before == state);
        assert(seen =~= Set::empty());
        assert(partial_buffer(parts, seen, start).segments =~= Map::empty());
    } else {
        lemma_not_brought_before(arrivals, parts, count - 2, count - 1);
        lemma_partial_message(state, parts, arrivals, count - 1);
        assert(!timed_out(before.incomplete[key], now, before.timeout));
        assert(young.incomplete.contains_key(key));
    }
    assert(buffer_for(young, key, now) == partial_buffer(parts, seen, start));
    match packet_in(datagram) {
        None => {
            assert(next_seen == seen);
        },
        Some(packet) => if is_of_message(datagram, parts) {
            let index = segment_info(packet.options).0 as int;
            let buffer = partial_buffer(parts, seen, start);
            let next = with_segment(buffer, index as u16, packet, index == parts.len() - 1);
            if seen.contains(index) {
                assert(next_seen =~= seen);
            } else {
                assert(next.segments =~= partial_buffer(parts, next_seen, start).segments);
                assert(next == partial_buffer(parts, next_seen, start));
                if brought_all(later, parts) {
                    assert forall|j: int| #[trigger] next_seen.contains(j) <==> 0 <= j
                        < parts.len() by {}
                    lemma_all_parts_reassembled(parts, next_seen, start, packet);
                }
            }
        } else {
            lemma_other_messages_untouched(
                young,
                packet,
                now,
                parts[0].publisher_id,
                parts[0].message_id,
            );
        },
    }
}

/// What was brought stays brought.
proof fn lemma_brought_grows(arrivals: Seq<Arrival>, parts: Seq<PacketModel>, count: int)
    requires
        0 <= count < arrivals.len(),
        brought_all(arrivals.take(count), parts),
    ensures
        brought_all(arrivals.take(count + 1), parts),
{
    let earlier = arrivals.take(count);
    let later = arrivals.take(count + 1);
    assert forall|j: int| 0 <= j < parts.len() implies brought(later, #[trigger] parts[j]) by {
        assert(brought(earlier, parts[j]));
        let i = choose|i: int|
            0 <= i < earlier.len() && packet_in(#[trigger] earlier[i].datagram) == Some(parts[j]);
        assert(later[i] == earlier[i]);
    }
}

proof fn lemma_not_brought_before(
    arrivals: Seq<Arrival>,
    parts: Seq<PacketModel>,
    count: int,
    more: int,
)
    requires
        0 <= count <= more <= arrivals.len(),
        !brought_all(arrivals.take(more), parts),
    ensures
        !brought_all(arrivals.take(count), parts),
    decreases more - count,
{
    if count < more {
        lemma_not_brought_before(arrivals, parts, count + 1, more);
        if brought_all(arrivals.take(count), parts) {
            lemma_brought_grows(arrivals, parts, count);
        }
    }
}

/// In whatever order the segments of a message arrive, however often each of them
/// does, and whatever datagrams of other messages, or of none, arrive in between:
/// as long as all this happens within the timeout of the first segment, a segment
/// gives nothing until the one that was still missing arrives. That one gives the
/// whole message, with the options of the first segment and the payloads of all
/// segments by number, and nothing of it is left behind.
pub proof fn lemma_message_reassembled(
    state: ReassemblyState,
    parts: Seq<PacketModel>,
    arrivals: Seq<Arrival>,
)
    requires
        segments_of_one_message(parts),
        parts.len() <= state.max_segments,
        !state.incomplete.contains_key(message_key(parts[0].publisher_id, parts[0].message_id)),
        arrivals.len() > 0,
        is_of_message(arrivals[0].datagram, parts),
        only_parts(arrivals, parts),
        forall|i: int|
            0 <= i < arrivals.len() ==> #[trigger] arrivals[i].time <= arrivals[0].time
                + state.timeout,
        brought_all(arrivals, parts),
        !brought_all(arrivals.drop_last(), parts),
    ensures
        forall|i: int|
            0 <= i < arrivals.len() - 1 && is_of_message(arrivals[i].datagram, parts)
                ==> #[trigger] result_of(state, arrivals, i) == Ok::<_, UdpPacketCodecError>(
                None::<PacketModel>,
            ),
        result_of(state, arrivals, arrivals.len() - 1) == Ok::<_, UdpPacketCodecError>(
            Some(message_of(parts)),
        ),
        !after_datagrams(state, arrivals).incomplete.contains_key(
            message_key(parts[0].publisher_id, parts[0].message_id),
        ),
{
    let n = arrivals.len() as int;
    assert(arrivals.drop_last() =~= arrivals.take(n - 1));
    assert(arrivals.take(n) =~= arrivals);
    assert forall|i: int|
        0 <= i < n - 1 && is_of_message(arrivals[i].datagram, parts) implies #[trigger] result_of(
        state,
        arrivals,
        i,
    ) == Ok::<_, UdpPacketCodecError>(None::<PacketModel>) by {
        lemma_not_brought_before(arrivals, parts, i, n - 1);
        lemma_not_brought_before(arrivals, parts, i + 1, n - 1);
        lemma_partial_message(state, parts, arrivals, i + 1);
    }
    lemma_partial_message(state, parts, arrivals, n);
}

/// The octets of a packet carry that packet.
pub proof fn lemma_packet_in_its_octets(packet: PacketModel)
    requires
        keyed(packet.options),
        media_type_of(media_type_code(packet.media_type)) == packet.media_type,
        written_packet(packet) is Ok,
    ensures
        packet_in(packet_octets(packet)) == Some(packet),
        packet_octets(packet).len() > 0,
{
    let datagram = packet_octets(packet);
    let options = options_octets(packet.options, 0);
    let total = MIN_HEADER_LENGTH + options.len() + packet.payload.len();
    assert(datagram + Seq::<u8>::empty() =~= datagram);
    lemma_packet_read_back(packet, Seq::empty());
    assert(datagram.len() == total);
    assert(datagram[1] == MIN_HEADER_LENGTH + options.len());
    assert(datagram[2] == be16_octets(total as int)[0]);
    assert(datagram[3] == be16_octets(total as int)[1]);
    assert(be16(datagram, 2) == total);
    assert(checked_len(datagram) is Ok);
}

/// Decoding the octets of a packet delivers that packet, once the messages that
/// are too old are gone, and leaves no octets.
pub proof fn lemma_decoded_is_delivered(state: ReassemblyState, packet: PacketModel, now: u128)
    requires
        keyed(packet.options),
        media_type_of(media_type_code(packet.media_type)) == packet.media_type,
        written_packet(packet) is Ok,
    ensures
        ({
            let decoding = decoded(state, packet_octets(packet), now);
            let delivery = delivered(evicted(state, now), packet, now);
            &&& decoding.result == (match delivery.result {
                Ok(message) => Ok(message),
                Err(error) => Err(UdpPacketCodecError::ReassemblyError(error)),
            })
            &&& decoding.state == delivery.state
            &&& decoding.rest == Seq::<u8>::empty()
        }),
{
    lemma_packet_in_its_octets(packet);
    lemma_decoded_by_packet(state, packet_octets(packet), now);
}

/// A packet that is not segmented is decoded from its octets to itself.
pub proof fn lemma_decoded_from_encoded(state: ReassemblyState, packet: PacketModel, now: u128)
    requires
        keyed(packet.options),
        media_type_of(media_type_code(packet.media_type)) == packet.media_type,
        written_packet(packet) is Ok,
        segment_info(packet.options) == (0u16, true),
    ensures
        decoded(state, packet_octets(packet), now).result == Ok::<_, UdpPacketCodecError>(
            Some(packet),
        ),
        decoded(state, packet_octets(packet), now).state == evicted(state, now),
{
    lemma_decoded_is_delivered(state, packet, now);
}

/// A new codec has nothing to reassemble, has counted nothing, and has the limits
/// that it was made with; by default 64 segments and ten seconds.
pub proof fn lemma_new_codec(max_segments: u16, timeout: u128, codec: UdpPacketCodec)
    ensures
        call_ensures(UdpPacketCodec::new, (max_segments, timeout), codec) ==> {
            &&& codec@.incomplete == Map::<u64, BufferModel>::empty()
            &&& codec@.max_segments == max_segments
            &&& codec@.timeout == timeout
            &&& codec@.events.timeout_evictions == 0
            &&& codec@.events.duplicate_drops == 0
            &&& codec@.events.max_segments_exceeded == 0
            &&& forall|len: int| len <= isize::MAX ==> #[trigger] has_room(codec@, len)
        },
        DEFAULT_MAX_SEGMENTS == 64,
        DEFAULT_REASSEMBLY_TIMEOUT == 10_000_000_000,
{
}

/// An incomplete message is evicted where its first segment arrived longer ago
/// than the timeout, and only there. Those that go are counted, the others stay as
/// they are, and nothing else changes.
pub proof fn lemma_eviction(state: ReassemblyState, now: u128)
    requires
        state.incomplete.dom().finite(),
        state.events.timeout_evictions + state.incomplete.len() <= u64::MAX,
    ensures
        ({
            let after = evicted(state, now);
            &&& forall|key: u64| #[trigger]
                after.incomplete.contains_key(key) <==> state.incomplete.contains_key(key) && now
                    <= state.incomplete[key].timestamp + state.timeout
            &&& forall|key: u64| #[trigger]
                after.incomplete.contains_key(key) ==> after.incomplete[key]
                    == state.incomplete[key]
            &&& after.events.timeout_evictions - state.events.timeout_evictions
                == state.incomplete.len() - after.incomplete.len()
            &&& after.events.duplicate_drops == state.events.duplicate_drops
            &&& after.events.max_segments_exceeded == state.events.max_segments_exceeded
            &&& after.max_segments == state.max_segments
            &&& after.timeout == state.timeout
        }),
{
    let after = evicted(state, now);
    assert(after.incomplete.dom().subset_of(state.incomplete.dom()));
    vstd::set_lib::lemma_len_subset(after.incomplete.dom(), state.incomplete.dom());
}

/// A datagram is checked against the lengths that its header gives. One that fails
/// is left where it is, and only old messages are evicted. One that passes is
/// taken, and parsed: what is no packet is reported, and a packet is delivered.
pub proof fn lemma_datagram_checked(state: ReassemblyState, datagram: Seq<u8>, now: u128)
    ensures
        ({
            let decoding = decoded(state, datagram, now);
            let young = evicted(state, now);
            let len = datagram.len();
            let said = datagram[2] * 256 + datagram[3];
            let header_fits = len >= 12 && 12 <= datagram[1] <= len;
            let refused = |error: UdpPacketCodecError|
                {
                    &&& decoding.result == Err::<Option<PacketModel>, _>(error)
                    &&& decoding.state == young
                    &&& decoding.rest == datagram
                };
            &&& len == 0 ==> decoding.result == Ok::<_, UdpPacketCodecError>(None::<PacketModel>)
                && decoding.state == young && decoding.rest == datagram
            &&& 0 < len < 12 ==> refused(UdpPacketCodecError::InvalidHeaderLength(len as u8))
            &&& len >= 12 && !header_fits ==> refused(
                UdpPacketCodecError::InvalidHeaderLength(datagram[1]),
            )
            &&& header_fits && (said < datagram[1] || said != len) ==> refused(
                UdpPacketCodecError::InvalidMessageLength(said as u16),
            )
            &&& header_fits && datagram[1] <= said == len ==> {
                &&& decoding.rest == Seq::<u8>::empty()
                &&& match parsed_packet(datagram) {
                    Err(error) => decoding.state == young && decoding.result == Err::<
                        Option<PacketModel>,
                        _,
                    >(UdpPacketCodecError::UdpNotifError(error)),
                    Ok((packet, _)) => {
                        let delivery = delivered(young, packet, now);
                        &&& decoding.state == delivery.state
                        &&& match delivery.result {
                            Ok(message) => decoding.result == Ok::<_, UdpPacketCodecError>(message),
                            Err(error) => decoding.result == Err::<Option<PacketModel>, _>(
                                UdpPacketCodecError::ReassemblyError(error),
                            ),
                        }
                    },
                }
            }
        }),
{
    let len = datagram.len();
    if len >= 12 && 12 <= datagram[1] <= len && datagram[1] <= datagram[2] * 256 + datagram[3] && len
        == datagram[2] * 256 + datagram[3] {
        assert(be16(datagram, 2) == len);
    }
}

/// A packet that is no segment, or the first and last one, comes out as it is and
/// changes nothing.
pub proof fn lemma_whole_packet_passes(state: ReassemblyState, packet: PacketModel, now: u128)
    requires
        packet.options.contains_key(1) ==> (packet.options[1] matches OptionModel::Segment {
            number,
            last,
        } ==> number == 0 && last),
    ensures
        delivered(state, packet, now).result == Ok::<_, ReassemblyBufferError>(Some(packet)),
        delivered(state, packet, now).state == state,
{
}

/// What becomes of a segment that is not there yet. Where its message would have
/// more segments than allowed, the message is given up. Otherwise it is added to
/// those that are there, under the time of the first. The message is complete
/// where the last segment arrived and there are as many as its number says: then
/// nothing of it is kept.
pub proof fn lemma_new_segment(
    state: ReassemblyState,
    packet: PacketModel,
    now: u128,
    number: u16,
    last: bool,
)
    requires
        packet.options.contains_key(1),
        packet.options[1] == (OptionModel::Segment { number, last }),
        !(number == 0 && last),
        last ==> number < u16::MAX,
        state.events.max_segments_exceeded < u64::MAX,
        ({
            let key = (packet.publisher_id * 4294967296 + packet.message_id) as u64;
            state.incomplete.contains_key(key)
                ==> !state.incomplete[key].segments.contains_key(number)
        }),
    ensures
        ({
            let key = (packet.publisher_id * 4294967296 + packet.message_id) as u64;
            let known = state.incomplete.contains_key(key);
            let old = state.incomplete[key];
            let segments = if known {
                old.segments.insert(number, packet)
            } else {
                map![number => packet]
            };
            let has_last = last || known && old.has_last;
            let count = if last {
                number + 1
            } else if known {
                old.expected_count as int
            } else {
                1
            };
            let buffer = BufferModel {
                timestamp: if known {
                    old.timestamp
                } else {
                    now
                },
                has_last,
                expected_count: count as u16,
                segments,
            };
            let delivery = delivered(state, packet, now);
            let after = delivery.state;
            &&& after.max_segments == state.max_segments
            &&& after.timeout == state.timeout
            &&& after.events.timeout_evictions == state.events.timeout_evictions
            &&& after.events.duplicate_drops == state.events.duplicate_drops
            &&& if segments.len() > state.max_segments {
                &&& delivery.result == Err::<Option<PacketModel>, _>(
                    ReassemblyBufferError::MaxSegmentsExceeded {
                        publisher_id: packet.publisher_id,
                        message_id: packet.message_id,
                        max_segments: state.max_segments,
                    },
                )
                &&& after.incomplete == state.incomplete.remove(key)
                &&& after.events.max_segments_exceeded == state.events.max_segments_exceeded + 1
            } else {
                &&& after.events.max_segments_exceeded == state.events.max_segments_exceeded
                &&& if has_last && segments.len() == count {
                    &&& after.incomplete == state.incomplete.remove(key)
                    &&& match reassembled(
                        buffer,
                        packet.media_type,
                        packet.publisher_id,
                        packet.message_id,
                    ) {
                        Ok(message) => delivery.result == Ok::<_, ReassemblyBufferError>(
                            Some(message),
                        ),
                        Err(error) => delivery.result == Err::<Option<PacketModel>, _>(error),
                    }
                } else {
                    &&& after.incomplete == state.incomplete.insert(key, buffer)
                    &&& delivery.result == Ok::<_, ReassemblyBufferError>(None::<PacketModel>)
                }
            }
        }),
{
    let key = (packet.publisher_id * 4294967296 + packet.message_id) as u64;
    assert(key == message_key(packet.publisher_id, packet.message_id));
    if !state.incomplete.contains_key(key) {
        assert(Map::<u16, PacketModel>::empty().insert(number, packet) =~= map![number => packet]);
    }
}

/// What the segments of a buffer make up. Without the last segment, or with another
/// number of segments than it says, nothing; with a gap, the lowest number that is
/// missing is reported; otherwise the first segment, without the segmentation
/// option and with all payloads.
pub proof fn lemma_segments_put_together(
    buffer: BufferModel,
    media_type: MediaType,
    publisher_id: u32,
    message_id: u32,
    parts: Seq<PacketModel>,
    gap: int,
)
    requires
        buffer.segments.len() <= 65536,
        parts.len() == buffer.segments.len(),
        forall|i: int|
            0 <= i < parts.len() && buffer.segments.contains_key(#[trigger] (i as u16)) ==> parts[i]
                == buffer.segments[i as u16],
    ensures
        ({
            let r = reassembled(buffer, media_type, publisher_id, message_id);
            let count = buffer.segments.len();
            let counted = buffer.has_last && count == buffer.expected_count && count > 0;
            &&& !buffer.has_last ==> r == Err::<PacketModel, _>(
                ReassemblyBufferError::LastSegmentIsNotReceived {
                    media_type,
                    publisher_id,
                    message_id,
                    received: count as usize,
                },
            )
            &&& buffer.has_last && !counted ==> r == Err::<PacketModel, _>(
                ReassemblyBufferError::IncompleteSegments {
                    media_type,
                    publisher_id,
                    message_id,
                    needed: buffer.expected_count,
                    received: (count % 65536) as u16,
                },
            )
            &&& {
                &&& counted
                &&& 0 <= gap < count
                &&& !buffer.segments.contains_key(gap as u16)
                &&& forall|i: int|
                    0 <= i < gap ==> buffer.segments.contains_key(#[trigger] (i as u16))
            } ==> r == Err::<PacketModel, _>(
                ReassemblyBufferError::MissingSegment {
                    media_type,
                    publisher_id,
                    message_id,
                    received: count as usize,
                    missing_segment_number: gap as u16,
                },
            )
            &&& counted && (forall|i: int|
                0 <= i < count ==> buffer.segments.contains_key(#[trigger] (i as u16))) ==> r
                == Ok::<_, ReassemblyBufferError>(
                PacketModel {
                    media_type: parts[0].media_type,
                    publisher_id: parts[0].publisher_id,
                    message_id: parts[0].message_id,
                    options: parts[0].options.remove(1),
                    payload: payloads(parts),
                },
            )
        }),
{
    let count = buffer.segments.len() as int;
    lemma_first_gap(buffer.segments, 0, count);
    if buffer.has_last && count == buffer.expected_count && count > 0 {
        if let Some(found) = first_gap(buffer.segments, 0, count) {
            if 0 <= gap < count && !buffer.segments.contains_key(gap as u16) && (forall|i: int|
                0 <= i < gap ==> buffer.segments.contains_key(#[trigger] (i as u16))) {
                if found < gap {
                    assert(buffer.segments.contains_key(found as u16));
                }
                if gap < found {
                    assert(buffer.segments.contains_key(gap as u16));
                }
            }
        } else {
            if 0 <= gap < count {
                assert(buffer.segments.contains_key(gap as u16));
            }
            assert(buffer.segments.contains_key(0int as u16));
            lemma_joined_parts(buffer.segments, parts, count);
            assert(parts.take(count) =~= parts);
            assert(parts[0] == buffer.segments[0int as u16]);
        }
    }
}

proof fn lemma_joined_parts(
    segments: Map<u16, PacketModel>,
    parts: Seq<PacketModel>,
    count: int,
)
    requires
        0 <= count <= parts.len() <= 65536,
        forall|i: int| 0 <= i < count ==> segments.contains_key(#[trigger] (i as u16)),
        forall|i: int|
            0 <= i < parts.len() && segments.contains_key(#[trigger] (i as u16)) ==> parts[i]
                == segments[i as u16],
    ensures
        joined_payload(segments, count) == payloads(parts.take(count)),
    decreases count,
{
    if count > 0 {
        lemma_joined_parts(segments, parts, count - 1);
        assert(parts.take(count).drop_last() =~= parts.take(count - 1));
        assert(segments.contains_key((count - 1) as u16));
    }
}

/// The payloads of packets come one after the other, in the order of the packets,
/// with nothing added or lost.
pub proof fn lemma_payloads_join(first: Seq<PacketModel>, second: Seq<PacketModel>)
    ensures
        payloads(first + second) == payloads(first) + payloads(second),
        first.len() == 1 ==> payloads(first) == first[0].payload,
        first.len() == 0 ==> payloads(first) == Seq::<u8>::empty(),
    decreases second.len(),
{
    if second.len() == 0 {
        assert(first + second =~= first);
        assert(payloads(first) + payloads(second) =~= payloads(first));
    } else {
        lemma_payloads_join(first, second.drop_last());
        assert((first + second).drop_last() =~= first + second.drop_last());
        assert(payloads(first) + (payloads(second.drop_last()) + second.last().payload)
            =~= payloads(first) + payloads(second.drop_last()) + second.last().payload);
    }
    if first.len() == 1 {
        assert(first.drop_last() =~= Seq::empty());
        assert(payloads(first.drop_last()) =~= Seq::<u8>::empty());
        assert(payloads(first) =~= first[0].payload);
    }
}

} // verus!
