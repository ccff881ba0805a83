//! The segments of one message, and how they become a whole message again.
use crate::octets::{append_slice, empty_buffer, freeze, frozen_slice, octets};
use crate::udp_notif::wire::{
    options_model, MediaType, PacketModel, UdpNotifPacket, SEGMENT_OPTION,
};
use std::collections::BTreeMap;
use vstd::prelude::*;
use vstd::std_specs::iter::IteratorSpec;

verus! {

#[allow(inconsistent_fields)]
#[derive(Debug, Clone, Copy, PartialEq, Eq, Structural)]
pub enum ReassemblyBufferError {
    LastSegmentIsNotReceived {
        media_type: MediaType,
        publisher_id: u32,
        message_id: u32,
        received: usize,
    },
    IncompleteSegments {
        media_type: MediaType,
        publisher_id: u32,
        message_id: u32,
        needed: u16,
        received: u16,
    },
    MissingSegment {
        media_type: MediaType,
        publisher_id: u32,
        message_id: u32,
        received: usize,
        missing_segment_number: u16,
    },
    MaxSegmentsExceeded { publisher_id: u32, message_id: u32, max_segments: u16 },
}

/// The segments of a message so far.
pub struct BufferModel {
    /// When the first of them arrived, in nanoseconds.
    pub timestamp: u128,
    /// Whether the one that is marked as the last arrived.
    pub has_last: bool,
    /// How many there are in all, once `has_last` is set.
    pub expected_count: u16,
    /// The segments by number.
    pub segments: Map<u16, PacketModel>,
}

/// A buffer without segments.
pub open spec fn fresh_buffer(now: u128) -> BufferModel {
    BufferModel { timestamp: now, has_last: false, expected_count: 1, segments: Map::empty() }
}

/// Whether the first segment is older than `timeout`. A time before it counts as
/// no time at all.
pub open spec fn timed_out(buffer: BufferModel, now: u128, timeout: u128) -> bool {
    now > buffer.timestamp && now - buffer.timestamp > timeout
}

/// The buffer with one more segment.
pub open spec fn with_segment(
    buffer: BufferModel,
    number: u16,
    packet: PacketModel,
    last: bool,
) -> BufferModel {
    BufferModel {
        timestamp: buffer.timestamp,
        has_last: buffer.has_last || last,
        expected_count: if last {
            (number + 1) as u16
        } else {
            buffer.expected_count
        },
        segments: buffer.segments.insert(number, packet),
    }
}

/// Whether there are as many segments as the last one announced.
pub open spec fn ready(buffer: BufferModel) -> bool {
    buffer.has_last && buffer.segments.len() == buffer.expected_count
}

/// The smallest number from `from` up to `to` that no segment has.
pub open spec fn first_gap(segments: Map<u16, PacketModel>, from: int, to: int) -> Option<int>
    decreases to - from,
{
    if from >= to {
        None
    } else if !segments.contains_key(from as u16) {
        Some(from)
    } else {
        first_gap(segments, from + 1, to)
    }
}

/// The payloads of the segments with numbers below `to`, by ascending number.
pub open spec fn joined_payload(segments: Map<u16, PacketModel>, to: int) -> Seq<u8>
    decreases to,
{
    if to <= 0 {
        Seq::empty()
    } else {
        joined_payload(segments, to - 1) + segments[(to - 1) as u16].payload
    }
}

/// The number of octets in the payloads of the segments with numbers below `to`.
pub open spec fn held_octets(segments: Map<u16, PacketModel>, to: int) -> nat
    decreases to,
{
    if to <= 0 {
        0
    } else if segments.contains_key((to - 1) as u16) {
        held_octets(segments, to - 1) + segments[(to - 1) as u16].payload.len()
    } else {
        held_octets(segments, to - 1)
    }
}

/// The number of octets in the payloads of all segments.
pub open spec fn held_in_all(segments: Map<u16, PacketModel>) -> nat {
    held_octets(segments, 65536)
}

/// The whole message that the first `count` segments make up: the first segment
/// with the payloads of all of them, and without the segmentation option. The
/// options of later segments are ignored.
pub open spec fn whole_message(segments: Map<u16, PacketModel>, count: int) -> PacketModel {
    PacketModel {
        options: segments[0].options.remove(SEGMENT_OPTION),
        payload: joined_payload(segments, count),
        ..segments[0]
    }
}

/// The whole message in a buffer, or why there is none.
pub open spec fn reassembled(
    buffer: BufferModel,
    media_type: MediaType,
    publisher_id: u32,
    message_id: u32,
) -> Result<PacketModel, ReassemblyBufferError> {
    let count = buffer.segments.len();
    if !buffer.has_last {
        Err(
            ReassemblyBufferError::LastSegmentIsNotReceived {
                media_type,
                publisher_id,
                message_id,
                received: count as usize,
            },
        )
    } else if buffer.expected_count != count || count == 0 {
        Err(
            ReassemblyBufferError::IncompleteSegments {
                media_type,
                publisher_id,
                message_id,
                needed: buffer.expected_count,
                received: (count % 65536) as u16,
            },
        )
    } else {
        match first_gap(buffer.segments, 0, count as int) {
            Some(missing) => Err(
                ReassemblyBufferError::MissingSegment {
                    media_type,
                    publisher_id,
                    message_id,
                    received: count as usize,
                    missing_segment_number: missing as u16,
                },
            ),
            None => Ok(whole_message(buffer.segments, count as int)),
        }
    }
}

pub proof fn lemma_first_gap(segments: Map<u16, PacketModel>, from: int, to: int)
    ensures
        first_gap(segments, from, to) matches Some(gap) ==> {
            &&& from <= gap < to
            &&& !segments.contains_key(gap as u16)
            &&& forall|i: int| from <= i < gap ==> segments.contains_key(#[trigger] (i as u16))
        },
        first_gap(segments, from, to) is None ==> forall|i: int|
            from <= i < to ==> segments.contains_key(#[trigger] (i as u16)),
    decreases to - from,
{
    if from < to && segments.contains_key(from as u16) {
        lemma_first_gap(segments, from + 1, to);
    }
}

proof fn lemma_joined_payload_len(segments: Map<u16, PacketModel>, to: int)
    requires
        0 <= to <= 65536,
        forall|i: int| 0 <= i < to ==> segments.contains_key(#[trigger] (i as u16)),
    ensures
        joined_payload(segments, to).len() == held_octets(segments, to),
    decreases to,
{
    if to > 0 {
        assert(segments.contains_key((to - 1) as u16));
        lemma_joined_payload_len(segments, to - 1);
    }
}

proof fn lemma_held_octets_grow(segments: Map<u16, PacketModel>, from: int, to: int)
    requires
        from <= to,
    ensures
        held_octets(segments, from) <= held_octets(segments, to),
    decreases to - from,
{
    if from < to && to > 0 {
        lemma_held_octets_grow(segments, from, to - 1);
    }
}

pub proof fn lemma_nothing_held(to: int)
    ensures
        held_octets(Map::<u16, PacketModel>::empty(), to) == 0,
    decreases to,
{
    if to > 0 {
        lemma_nothing_held(to - 1);
    }
}

/// Some of the segments have no more octets than all of them.
proof fn lemma_held_octets_of_some(
    some: Map<u16, PacketModel>,
    all: Map<u16, PacketModel>,
    to: int,
)
    requires
        some.submap_of(all),
    ensures
        held_octets(some, to) <= held_octets(all, to),
    decreases to,
{
    if to > 0 {
        lemma_held_octets_of_some(some, all, to - 1);
        let number = (to - 1) as u16;
        if some.dom().contains(number) {
            assert(all.dom().contains(number));
        }
    }
}

/// One more segment adds at most its own payload, and exactly that where its
/// number is new.
pub proof fn lemma_held_octets_insert(
    segments: Map<u16, PacketModel>,
    number: u16,
    packet: PacketModel,
    to: int,
)
    requires
        to <= 65536,
    ensures
        held_octets(segments.insert(number, packet), to) <= held_octets(segments, to)
            + packet.payload.len(),
        to <= number ==> held_octets(segments.insert(number, packet), to) == held_octets(
            segments,
            to,
        ),
        number < to && !segments.contains_key(number) ==> held_octets(
            segments.insert(number, packet),
            to,
        ) == held_octets(segments, to) + packet.payload.len(),
    decreases to,
{
    if to > 0 {
        lemma_held_octets_insert(segments, number, packet, to - 1);
    }
}

/// The number of octets in the payloads of the first `count` of the segments with
/// these numbers.
spec fn held_by(segments: Map<u16, PacketModel>, numbers: Seq<u16>, count: int) -> nat
    decreases count,
{
    if count <= 0 {
        0
    } else {
        held_by(segments, numbers, count - 1) + segments[numbers[count - 1]].payload.len()
    }
}

/// Summed up in whatever order, the payloads have the same number of octets.
proof fn lemma_held_by(segments: Map<u16, PacketModel>, numbers: Seq<u16>, count: int)
    requires
        numbers.no_duplicates(),
        numbers.to_set() == segments.dom(),
        0 <= count <= numbers.len(),
    ensures
        held_by(segments, numbers, count) <= held_in_all(segments),
        count == numbers.len() ==> held_by(segments, numbers, count) == held_in_all(segments),
{
    let some = segments.restrict(numbers.take(count).to_set());
    lemma_held_by_some(segments, numbers, count);
    lemma_held_octets_of_some(some, segments, 65536);
    if count == numbers.len() {
        assert(numbers.take(count) =~= numbers);
        assert(some =~= segments);
    }
}

proof fn lemma_held_by_some(segments: Map<u16, PacketModel>, numbers: Seq<u16>, count: int)
    requires
        numbers.no_duplicates(),
        numbers.to_set() == segments.dom(),
        0 <= count <= numbers.len(),
    ensures
        held_by(segments, numbers, count) == held_in_all(
            segments.restrict(numbers.take(count).to_set()),
        ),
    decreases count,
{
    let some = segments.restrict(numbers.take(count).to_set());
    if count == 0 {
        assert(some =~= Map::empty());
        lemma_nothing_held(65536);
    } else {
        lemma_held_by_some(segments, numbers, count - 1);
        let number = numbers[count - 1];
        let seen = numbers.take(count - 1);
        let next = numbers.take(count);
        let fewer = segments.restrict(seen.to_set());
        assert(numbers.to_set().contains(number));
        assert forall|n: u16| next.contains(n) <==> n == number || seen.contains(n) by {
            if seen.contains(n) {
                let j = choose|j: int| 0 <= j < seen.len() && seen[j] == n;
                assert(next[j] == n);
            }
            assert(next[count - 1] == number);
        }
        assert(!seen.contains(number));
        assert(some =~= fewer.insert(number, segments[number]));
        lemma_held_octets_insert(fewer, number, segments[number], 65536);
    }
}

/// The segments of a message that is not complete.
#[derive(Debug)]
pub struct ReassemblyBuffer {
    timestamp: u128,
    has_last: bool,
    expected_count: u16,
    segments: BTreeMap<u16, UdpNotifPacket>,
}

impl View for ReassemblyBuffer {
    type V = BufferModel;

    closed spec fn view(&self) -> BufferModel {
        BufferModel {
            timestamp: self.timestamp,
            has_last: self.has_last,
            expected_count: self.expected_count,
            segments: self.segments@.map_values(|packet: UdpNotifPacket| packet@),
        }
    }
}

impl ReassemblyBuffer {
    /// A buffer whose first segment arrives now.
    pub fn new(now: u128) -> (buffer: Self)
        ensures
            buffer@ == fresh_buffer(now),
    {
        let buffer = ReassemblyBuffer {
            timestamp: now,
            has_last: false,
            expected_count: 1,
            segments: BTreeMap::new(),
        };
        assert(buffer@.segments =~= Map::empty());
        buffer
    }

    #[inline]
    pub fn is_timed_out(&self, now: u128, timeout: u128) -> (r: bool)
        ensures
            r == timed_out(self@, now, timeout),
    {
        now > self.timestamp && now - self.timestamp > timeout
    }

    /// Whether there is a segment with this number.
    #[inline]
    pub fn contains_segment(&self, segment_number: u16) -> (r: bool)
        ensures
            r == self@.segments.contains_key(segment_number),
    {
        self.segments.contains_key(&segment_number)
    }

    /// How many segments there are.
    #[inline]
    pub fn segment_count(&self) -> (count: usize)
        ensures
            count == self@.segments.len(),
    {
        assert(self@.segments.dom() =~= self.segments@.dom());
        self.segments.len()
    }

    pub fn add_segment(&mut self, segment_number: u16, packet: UdpNotifPacket, is_last: bool)
        requires
            is_last ==> segment_number < u16::MAX,
        ensures
            final(self)@ == with_segment(old(self)@, segment_number, packet@, is_last),
    {
        if is_last {
            self.expected_count = segment_number + 1;
            self.has_last = true;
        }
        self.segments.insert(segment_number, packet);
        assert(self@.segments =~= old(self)@.segments.insert(segment_number, packet@));
    }

    /// Whether the payloads of the segments and `more` octets together fit into
    /// memory.
    pub fn has_room_for(&self, more: usize) -> (r: bool)
        ensures
            r == (held_in_all(self@.segments) + more <= isize::MAX),
    {
        let limit: usize = isize::MAX as usize;
        if more > limit {
            return false;
        }
        let ghost segments = self@.segments;
        let mut total: usize = more;
        let keys = self.segments.keys();
        let ghost numbers = keys.remaining().unref();
        for number in iter: keys
            invariant
                segments == self@.segments,
                limit == isize::MAX,
                iter.seq().unref() == numbers,
                numbers.to_set() == segments.dom(),
                numbers.no_duplicates(),
                total == more + held_by(segments, numbers, iter.index()),
                total <= limit,
        {
            let ghost index = iter.index();
            assert(numbers[index] == *number);
            assert(numbers.to_set().contains(*number));
            proof {
                lemma_held_by(segments, numbers, index + 1);
            }
            if let Some(segment) = self.segments.get(number) {
                assert(segments[*number] == segment@);
                let len: usize = frozen_slice(segment.payload()).len();
                if len > limit - total {
                    return false;
                }
                total = total + len;
            }
        }
        proof {
            lemma_held_by(segments, numbers, numbers.len() as int);
        }
        true
    }

    #[inline]
    pub fn ready_to_reassemble(&self) -> (r: bool)
        ensures
            r == ready(self@),
    {
        self.has_last && self.segment_count() == self.expected_count as usize
    }

    /// Makes a whole message of the segments. What can go wrong is reported
    /// under the given media type and identifiers.
    pub fn reassemble(self, media_type: MediaType, publisher_id: u32, message_id: u32) -> (r:
        Result<UdpNotifPacket, ReassemblyBufferError>)
        requires
            held_in_all(self@.segments) <= isize::MAX,
        ensures
            match reassembled(self@, media_type, publisher_id, message_id) {
                Ok(packet) => r matches Ok(result) && result@ == packet,
                Err(error) => r matches Err(result) && result == error,
            },
    {
        let count: usize = self.segment_count();
        if !self.has_last {
            return Err(
                ReassemblyBufferError::LastSegmentIsNotReceived {
                    media_type,
                    publisher_id,
                    message_id,
                    received: count,
                },
            );
        }
        if self.expected_count as usize != count || count == 0 {
            return Err(
                ReassemblyBufferError::IncompleteSegments {
                    media_type,
                    publisher_id,
                    message_id,
                    needed: self.expected_count,
                    received: (count % 65536) as u16,
                },
            );
        }
        let ghost segments = self@.segments;
        let mut payload = empty_buffer();
        let mut number: u16 = 0;
        while (number as usize) < count
            invariant
                number <= count,
                0 < count,
                count == segments.len(),
                count == self@.expected_count,
                self@.has_last,
                segments == self@.segments,
                held_in_all(segments) <= isize::MAX,
                first_gap(segments, 0, count as int) == first_gap(
                    segments,
                    number as int,
                    count as int,
                ),
                forall|i: int| 0 <= i < number ==> segments.contains_key(#[trigger] (i as u16)),
                octets(payload) == joined_payload(segments, number as int),
            decreases count - number,
        {
            let segment = match self.segments.get(&number) {
                Some(segment) => segment,
                None => {
                    return Err(
                        ReassemblyBufferError::MissingSegment {
                            media_type,
                            publisher_id,
                            message_id,
                            received: count,
                            missing_segment_number: number,
                        },
                    );
                },
            };
            assert(segments[number] == segment@);
            proof {
                lemma_joined_payload_len(segments, number as int);
                lemma_held_octets_grow(segments, number + 1, 65536);
            }
            append_slice(&mut payload, frozen_slice(segment.payload()));
            number += 1;
        }
        let mut segments_left = self.segments;
        assert(segments.contains_key(0int as u16));
        match segments_left.remove(&0) {
            Some(first_segment) => {
                assert(first_segment@ == segments[0]);
                let media_type = first_segment.media_type();
                let publisher_id: u32 = first_segment.publisher_id();
                let message_id: u32 = first_segment.message_id();
                // Per draft-ietf-netconf-udp-notif Section 4.1, all options (other than
                // the segmentation option) are carried on the first segment and are
                // appended to the reassembled header. Options on subsequent segments are
                // ignored.
                let (mut options, _) = first_segment.into_parts();
                let ghost all_options = options@;
                options.remove(&SEGMENT_OPTION);
                assert(options_model(options@) =~= options_model(all_options).remove(
                    SEGMENT_OPTION,
                ));
                Ok(
                    UdpNotifPacket::new(
                        media_type,
                        publisher_id,
                        message_id,
                        options,
                        freeze(payload),
                    ),
                )
            },
            None => {
                // There is a segment for every number below the count.
                assert(false);
                Err(
                    ReassemblyBufferError::IncompleteSegments {
                        media_type,
                        publisher_id,
                        message_id,
                        needed: self.expected_count,
                        received: 0,
                    },
                )
            },
        }
    }
}

} // verus!
