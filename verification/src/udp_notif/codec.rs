//! Codec for UDP-Notif datagrams, with reassembly of segmented messages.
//!
//! Every `decode` call receives exactly one datagram. Times are in nanoseconds
//! from an arbitrary origin.
use crate::octets::{append_slice, be16, buffer_len, buffer_slice, octets, read_u16, split_front};
use crate::udp_notif::reassembly::{
    fresh_buffer, held_in_all, lemma_held_octets_insert, lemma_nothing_held, ready, reassembled,
    timed_out, with_segment, BufferModel, ReassemblyBuffer, ReassemblyBufferError,
};
use crate::udp_notif::wire::{
    lemma_parsed_packet_keyed, options_model, parsed_packet, written_packet, OptionModel,
    PacketModel, UdpNotifOption, UdpNotifPacket, UdpNotifPacketParsingError,
    UdpNotifPacketWritingError, MIN_HEADER_LENGTH, SEGMENT_OPTION,
};
use bytes::BytesMut;
use std::collections::HashMap;
use std::time::Instant;
use vstd::prelude::*;

verus! {

/// Default maximum number of segments per reassembly buffer.
/// Adjust according to draft-ietf-netconf-udp-notif recommendations.
pub const DEFAULT_MAX_SEGMENTS: u16 = 64;

/// Default reassembly timeout: ten seconds, in nanoseconds.
/// Adjust according to draft-ietf-netconf-udp-notif recommendations.
pub const DEFAULT_REASSEMBLY_TIMEOUT: u128 = 10_000_000_000;

/// Counts of reassembly events accumulated since the last call to
/// [`UdpPacketCodec::take_reassembly_events`].  The caller should
/// drain this after each `decode()` call or periodically and forward
/// the counts to its telemetry layer.
#[derive(Debug, Clone, Copy, PartialEq, Eq, Structural)]
pub struct ReassemblyEventCounts {
    /// Number of incomplete reassembly buffers evicted because they exceeded
    /// the configured timeout.
    pub timeout_evictions: u64,
    /// Number of segments dropped because their segment number was already
    /// present in the reassembly buffer (network retransmission or
    /// message-id reuse).
    pub duplicate_drops: u64,
    /// Number of reassembly buffers aborted because they exceeded the
    /// configured maximum segment count.
    pub max_segments_exceeded: u64,
}

/// No events.
pub open spec fn no_events() -> ReassemblyEventCounts {
    ReassemblyEventCounts { timeout_evictions: 0, duplicate_drops: 0, max_segments_exceeded: 0 }
}

impl Default for ReassemblyEventCounts {
    fn default() -> (counts: Self)
        ensures
            counts == no_events(),
    {
        ReassemblyEventCounts { timeout_evictions: 0, duplicate_drops: 0, max_segments_exceeded: 0 }
    }
}

#[derive(Debug, Clone, PartialEq, Eq)]
pub enum UdpPacketCodecError {
    IoError(String),
    InvalidHeaderLength(u8),
    InvalidMessageLength(u16),
    UdpNotifError(UdpNotifPacketParsingError),
    ReassemblyError(ReassemblyBufferError),
    WritingError(UdpNotifPacketWritingError),
}

impl From<UdpNotifPacketParsingError> for UdpPacketCodecError {
    fn from(error: UdpNotifPacketParsingError) -> (r: Self) {
        UdpPacketCodecError::UdpNotifError(error)
    }
}

impl vstd::std_specs::convert::FromSpecImpl<UdpNotifPacketParsingError> for UdpPacketCodecError {
    open spec fn obeys_from_spec() -> bool {
        true
    }

    open spec fn from_spec(error: UdpNotifPacketParsingError) -> Self {
        UdpPacketCodecError::UdpNotifError(error)
    }
}

impl From<ReassemblyBufferError> for UdpPacketCodecError {
    fn from(error: ReassemblyBufferError) -> (r: Self) {
        UdpPacketCodecError::ReassemblyError(error)
    }
}

impl vstd::std_specs::convert::FromSpecImpl<ReassemblyBufferError> for UdpPacketCodecError {
    open spec fn obeys_from_spec() -> bool {
        true
    }

    open spec fn from_spec(error: ReassemblyBufferError) -> Self {
        UdpPacketCodecError::ReassemblyError(error)
    }
}

impl From<UdpNotifPacketWritingError> for UdpPacketCodecError {
    fn from(error: UdpNotifPacketWritingError) -> (r: Self) {
        UdpPacketCodecError::WritingError(error)
    }
}

impl vstd::std_specs::convert::FromSpecImpl<UdpNotifPacketWritingError> for UdpPacketCodecError {
    open spec fn obeys_from_spec() -> bool {
        true
    }

    open spec fn from_spec(error: UdpNotifPacketWritingError) -> Self {
        UdpPacketCodecError::WritingError(error)
    }
}

/// The state of a codec.
pub struct ReassemblyState {
    /// The incomplete messages, by [`message_key`].
    pub incomplete: Map<u64, BufferModel>,
    /// The most segments that a message may have.
    pub max_segments: u16,
    /// How long an incomplete message is kept, in nanoseconds.
    pub timeout: u128,
    /// What happened since the events were last taken.
    pub events: ReassemblyEventCounts,
}

/// A codec that has seen nothing.
pub open spec fn fresh_reassembly(max_segments: u16, timeout: u128) -> ReassemblyState {
    ReassemblyState { incomplete: Map::empty(), max_segments, timeout, events: no_events() }
}

/// The key of a message: its publisher and its message identifier.
pub open spec fn message_key(publisher_id: u32, message_id: u32) -> u64 {
    (publisher_id * 0x1_0000_0000 + message_id) as u64
}

/// The number of a segment and whether it is the last. A packet without the
/// segmentation option is the first and last segment of its message.
pub open spec fn segment_info(options: Map<u8, OptionModel>) -> (u16, bool) {
    if options.contains_key(SEGMENT_OPTION) {
        match options[SEGMENT_OPTION] {
            OptionModel::Segment { number, last } => (number, last),
            _ => (0, true),
        }
    } else {
        (0, true)
    }
}

/// The incomplete messages that are not too old.
pub open spec fn kept(incomplete: Map<u64, BufferModel>, now: u128, timeout: u128) -> Map<
    u64,
    BufferModel,
> {
    incomplete.restrict(Set::new(|key: u64| !timed_out(incomplete[key], now, timeout)))
}

/// The state without the messages that are too old.
pub open spec fn evicted(state: ReassemblyState, now: u128) -> ReassemblyState {
    let incomplete = kept(state.incomplete, now, state.timeout);
    ReassemblyState {
        incomplete,
        events: ReassemblyEventCounts {
            timeout_evictions: (state.events.timeout_evictions + state.incomplete.len()
                - incomplete.len()) as u64,
            ..state.events
        },
        ..state
    }
}

/// The buffer that a segment of this message goes into.
pub open spec fn buffer_for(state: ReassemblyState, key: u64, now: u128) -> BufferModel {
    if state.incomplete.contains_key(key) {
        state.incomplete[key]
    } else {
        fresh_buffer(now)
    }
}

/// What a packet leads to.
pub struct Delivery {
    pub result: Result<Option<PacketModel>, ReassemblyBufferError>,
    pub state: ReassemblyState,
}

/// What the packet of a message leads to: a message that is not segmented comes
/// out as it is; a segment is kept until its message is complete, and dropped
/// where it is there already; a message with too many segments is given up.
pub open spec fn delivered(state: ReassemblyState, packet: PacketModel, now: u128) -> Delivery {
    let (number, last) = segment_info(packet.options);
    let key = message_key(packet.publisher_id, packet.message_id);
    let buffer = buffer_for(state, key, now);
    let next = with_segment(buffer, number, packet, last);
    if number == 0 && last {
        Delivery { result: Ok(Some(packet)), state }
    } else if buffer.segments.contains_key(number) {
        Delivery {
            result: Ok(None),
            state: ReassemblyState {
                events: ReassemblyEventCounts {
                    duplicate_drops: (state.events.duplicate_drops + 1) as u64,
                    ..state.events
                },
                ..state
            },
        }
    } else if next.segments.len() > state.max_segments {
        Delivery {
            result: Err(
                ReassemblyBufferError::MaxSegmentsExceeded {
                    publisher_id: packet.publisher_id,
                    message_id: packet.message_id,
                    max_segments: state.max_segments,
                },
            ),
            state: ReassemblyState {
                incomplete: state.incomplete.remove(key),
                events: ReassemblyEventCounts {
                    max_segments_exceeded: (state.events.max_segments_exceeded + 1) as u64,
                    ..state.events
                },
                ..state
            },
        }
    } else if !ready(next) {
        Delivery {
            result: Ok(None),
            state: ReassemblyState { incomplete: state.incomplete.insert(key, next), ..state },
        }
    } else {
        Delivery {
            result: match reassembled(
                next,
                packet.media_type,
                packet.publisher_id,
                packet.message_id,
            ) {
                Ok(message) => Ok(Some(message)),
                Err(error) => Err(error),
            },
            state: ReassemblyState { incomplete: state.incomplete.remove(key), ..state },
        }
    }
}

/// The header length and message length of a datagram that is as long as its
/// header says, or what is wrong with it.
pub open spec fn checked_len(datagram: Seq<u8>) -> Result<(u8, u16), UdpPacketCodecError> {
    if datagram.len() < MIN_HEADER_LENGTH {
        Err(UdpPacketCodecError::InvalidHeaderLength(datagram.len() as u8))
    } else if datagram[1] < MIN_HEADER_LENGTH || datagram.len() < datagram[1] {
        Err(UdpPacketCodecError::InvalidHeaderLength(datagram[1]))
    } else if be16(datagram, 2) < datagram[1] || datagram.len() != be16(datagram, 2) {
        Err(UdpPacketCodecError::InvalidMessageLength(be16(datagram, 2) as u16))
    } else {
        Ok((datagram[1], be16(datagram, 2) as u16))
    }
}

/// What decoding a datagram leads to.
pub struct Decoding {
    pub result: Result<Option<PacketModel>, UdpPacketCodecError>,
    pub state: ReassemblyState,
    pub rest: Seq<u8>,
}

/// What a packet that was parsed from a datagram leads to. `taken` is how many of
/// the `available` octets the parser took.
pub open spec fn accepted(
    state: ReassemblyState,
    now: u128,
    message_len: u16,
    available: int,
    parsed: Result<(PacketModel, int), UdpNotifPacketParsingError>,
) -> (Result<Option<PacketModel>, UdpPacketCodecError>, ReassemblyState) {
    match parsed {
        Err(error) => (Err(UdpPacketCodecError::UdpNotifError(error)), state),
        Ok((packet, taken)) => if taken != message_len || taken != available {
            (Err(UdpPacketCodecError::InvalidMessageLength(message_len)), state)
        } else {
            let delivery = delivered(state, packet, now);
            (
                match delivery.result {
                    Ok(message) => Ok(message),
                    Err(error) => Err(UdpPacketCodecError::ReassemblyError(error)),
                },
                delivery.state,
            )
        },
    }
}

/// What decoding `datagram` at `now` leads to. Old incomplete messages go first.
/// A datagram whose length is wrong is left where it is.
pub open spec fn decoded(state: ReassemblyState, datagram: Seq<u8>, now: u128) -> Decoding {
    let state = evicted(state, now);
    if datagram.len() == 0 {
        Decoding { result: Ok(None), state, rest: datagram }
    } else {
        match checked_len(datagram) {
            Err(error) => Decoding { result: Err(error), state, rest: datagram },
            Ok((_, message_len)) => {
                let (result, state) = accepted(
                    state,
                    now,
                    message_len,
                    datagram.len() as int,
                    parsed_packet(datagram),
                );
                Decoding { result, state, rest: Seq::empty() }
            },
        }
    }
}

/// The result of decoding holds these contents.
pub open spec fn holds(
    r: Result<Option<UdpNotifPacket>, UdpPacketCodecError>,
    model: Result<Option<PacketModel>, UdpPacketCodecError>,
) -> bool {
    match model {
        Ok(Some(packet)) => r matches Ok(Some(result)) && result@ == packet,
        Ok(None) => r matches Ok(None),
        Err(error) => r matches Err(result) && result == error,
    }
}

/// The event counters can count what one more datagram leads to, and what is
/// kept of any message leaves room for `more` octets in memory.
pub open spec fn has_room(state: ReassemblyState, more: int) -> bool {
    &&& state.events.timeout_evictions + state.incomplete.len() <= u64::MAX
    &&& state.events.duplicate_drops < u64::MAX
    &&& state.events.max_segments_exceeded < u64::MAX
    &&& more <= isize::MAX
    &&& forall|key: u64| #[trigger]
        state.incomplete.contains_key(key) ==> held_in_all(state.incomplete[key].segments) + more
            <= isize::MAX
}

/// A packet that reassembly can handle: the number of a last segment can be
/// counted from one.
pub open spec fn segment_countable(packet: PacketModel) -> bool {
    segment_info(packet.options).1 ==> segment_info(packet.options).0 < u16::MAX
}

/// A point in time of the machine's clock.
#[verifier::external_type_specification]
#[verifier::external_body]
pub struct ExInstant(std::time::Instant);

/// The time from one point in time to another, in nanoseconds.
pub uninterp spec fn nanos_from(start: Instant, end: Instant) -> u128;

/// `Instant::now` reads the machine's clock. Which point in time that is, is left
/// unsaid.
#[verifier::external_body]
fn read_clock() -> Instant {
    Instant::now()
}

/// The point in time was read from the machine's clock. A call that promises this
/// of a point in time has to read the clock: no other value is known to be a
/// reading.
pub closed spec fn read_from_clock(seen: Instant) -> bool {
    call_ensures(read_clock, (), seen)
}

/// Nothing but what a call of `read_clock` gives counts as a reading.
proof fn lemma_reading_comes_from_the_clock(seen: Instant)
    ensures
        read_from_clock(seen) ==> call_ensures(read_clock, (), seen),
{
}

/// `Instant::saturating_duration_since` tells how much time passed from one point
/// in time to another, or that none did where the other is not later. The result
/// is a function of the two.
#[verifier::external_body]
fn nanos_between(start: Instant, end: Instant) -> (nanos: u128)
    ensures
        nanos == nanos_from(start, end),
{
    end.saturating_duration_since(start).as_nanos()
}

#[derive(Debug)]
pub struct UdpPacketCodec {
    /// Stores incomplete messages that are being reassembled from multiple
    /// segments.
    incomplete_messages: HashMap<u64, ReassemblyBuffer>,
    /// Maximum number of segments tolerated per in-progress reassembly buffer.
    max_segments: u16,
    /// How long to keep an incomplete reassembly buffer before discarding it.
    reassembly_timeout: u128,
    /// Accumulated reassembly event counts since the last call to
    /// [`Self::take_reassembly_events`].
    reassembly_events: ReassemblyEventCounts,
    /// The origin of the times of this codec.
    clock: Instant,
}

impl View for UdpPacketCodec {
    type V = ReassemblyState;

    closed spec fn view(&self) -> ReassemblyState {
        ReassemblyState {
            incomplete: self.incomplete_messages@.map_values(
                |buffer: ReassemblyBuffer| buffer@,
            ),
            max_segments: self.max_segments,
            timeout: self.reassembly_timeout,
            events: self.reassembly_events,
        }
    }
}

impl Default for UdpPacketCodec {
    fn default() -> (codec: Self)
        ensures
            codec@ == fresh_reassembly(DEFAULT_MAX_SEGMENTS, DEFAULT_REASSEMBLY_TIMEOUT),
    {
        Self::new(DEFAULT_MAX_SEGMENTS, DEFAULT_REASSEMBLY_TIMEOUT)
    }
}

impl UdpPacketCodec {
    /// The point in time from which this codec counts.
    pub closed spec fn clock_origin(self) -> Instant {
        self.clock
    }

    /// A codec that keeps an incomplete message for `reassembly_timeout`
    /// nanoseconds.
    pub fn new(max_segments: u16, reassembly_timeout: u128) -> (codec: Self)
        ensures
            codec@ == fresh_reassembly(max_segments, reassembly_timeout),
    {
        let codec = Self {
            incomplete_messages: HashMap::new(),
            max_segments,
            reassembly_timeout,
            reassembly_events: ReassemblyEventCounts::default(),
            clock: read_clock(),
        };
        assert(codec@.incomplete =~= Map::empty());
        codec
    }

    /// Drain the accumulated reassembly event counts and reset them to zero.
    /// The service actor should call this after each `decode()` or periodically
    /// and forward the values to OTel counters.
    #[inline]
    pub fn take_reassembly_events(&mut self) -> (events: ReassemblyEventCounts)
        ensures
            events == old(self)@.events,
            final(self)@ == (ReassemblyState { events: no_events(), ..old(self)@ }),
            final(self).clock_origin() == old(self).clock_origin(),
    {
        let events = self.reassembly_events;
        self.reassembly_events = ReassemblyEventCounts::default();
        events
    }

    /// Current number of incomplete reassembly buffers (segments received but
    /// reassembly not yet complete).  Useful to e.g. update an OTel gauge.
    #[inline]
    pub fn incomplete_messages_count(&self) -> (count: usize)
        ensures
            count == self@.incomplete.len(),
    {
        assert(self@.incomplete.dom() =~= self.incomplete_messages@.dom());
        self.incomplete_messages.len()
    }

    /// Validate the fixed header against a single, self-contained UDP datagram.
    ///
    /// Unlike a TCP stream codec, every `decode()` call receives exactly one
    /// complete datagram, so a buffer that is shorter than the declared header
    /// or message length is malformed (truncated) rather than "incomplete".
    /// Such datagrams are rejected with an error instead of being held for a
    /// future read.
    #[inline]
    fn check_len(&self, buf: &BytesMut) -> (r: Result<(u8, u16), UdpPacketCodecError>)
        ensures
            r == checked_len(octets(*buf)),
    {
        let datagram = buffer_slice(buf);
        let len: usize = datagram.len();
        if len < MIN_HEADER_LENGTH as usize {
            // Datagram is shorter than the fixed header: malformed/truncated.
            return Err(UdpPacketCodecError::InvalidHeaderLength(len as u8));
        }
        let header_len: u8 = datagram[1];
        if header_len < MIN_HEADER_LENGTH || len < header_len as usize {
            return Err(UdpPacketCodecError::InvalidHeaderLength(header_len));
        }
        let message_length: u16 = read_u16(vstd::slice::slice_subrange(datagram, 2, 4));
        if message_length < header_len as u16 || len != message_length as usize {
            return Err(UdpPacketCodecError::InvalidMessageLength(message_length));
        }
        Ok((header_len, message_length))
    }

    /// The number of a segment and whether it is the last.
    #[inline]
    pub fn extract_segment_info(options: &HashMap<u8, UdpNotifOption>) -> (info: (u16, bool))
        ensures
            info == segment_info(options_model(options@)),
    {
        match options.get(&SEGMENT_OPTION) {
            Some(option) => {
                assert(options_model(options@)[SEGMENT_OPTION] == option@);
                assert(options_model(options@).contains_key(SEGMENT_OPTION));
                match option {
                    UdpNotifOption::Segment { number, last } => (*number, *last),
                    _ => (0, true),
                }
            },
            None => (0, true),
        }
    }

    /// The keys of the incomplete messages that are too old.
    fn stale_keys(&self, now: u128) -> (stale: Vec<u64>)
        ensures
            forall|key: u64| #[trigger]
                stale@.contains(key) <==> self@.incomplete.contains_key(key) && timed_out(
                    self@.incomplete[key],
                    now,
                    self@.timeout,
                ),
    {
        let mut stale: Vec<u64> = Vec::new();
        for key in iter: self.incomplete_messages.keys()
            invariant
                iter.seq().unref().to_set() == self.incomplete_messages@.dom(),
                forall|i: int|
                    0 <= i < iter.index() && timed_out(
                        self@.incomplete[*#[trigger] iter.seq()[i]],
                        now,
                        self@.timeout,
                    ) ==> stale@.contains(*iter.seq()[i]),
                forall|k: u64| #[trigger]
                    stale@.contains(k) ==> self@.incomplete.contains_key(k) && timed_out(
                        self@.incomplete[k],
                        now,
                        self@.timeout,
                    ),
        {
            assert(iter.seq().unref().to_set().contains(*key)) by {
                assert(iter.seq().unref()[iter.index()] == *key);
            }
            if let Some(buffer) = self.incomplete_messages.get(key) {
                assert(self@.incomplete[*key] == buffer@);
                if buffer.is_timed_out(now, self.reassembly_timeout) {
                    let ghost before = stale@;
                    stale.push(*key);
                    assert forall|k: u64| #[trigger] stale@.contains(k) implies before.contains(k)
                        || k == *key by {}
                    assert(stale@[stale@.len() - 1] == *key);
                    assert forall|k: u64| before.contains(k) implies #[trigger] stale@.contains(
                        k,
                    ) by {
                        let i = choose|i: int| 0 <= i < before.len() && before[i] == k;
                        assert(stale@[i] == k);
                    }
                }
            }
        }
        stale
    }

    /// Whether the codec has room for the datagram in `buf`: its events can be
    /// counted, and its octets fit into memory beside what is kept of any
    /// incomplete message.
    pub fn can_decode(&self, buf: &BytesMut) -> (r: bool)
        ensures
            r == has_room(self@, octets(*buf).len() as int),
    {
        let events = self.reassembly_events;
        let count: usize = self.incomplete_messages_count();
        let more: usize = buffer_len(buf);
        if count as u64 > u64::MAX - events.timeout_evictions || events.duplicate_drops == u64::MAX
            || events.max_segments_exceeded == u64::MAX || more > isize::MAX as usize {
            return false;
        }
        for key in iter: self.incomplete_messages.keys()
            invariant
                iter.seq().unref().to_set() == self.incomplete_messages@.dom(),
                more == octets(*buf).len(),
                forall|i: int|
                    0 <= i < iter.index() ==> held_in_all(
                        self@.incomplete[*#[trigger] iter.seq()[i]].segments,
                    ) + more <= isize::MAX,
        {
            assert(iter.seq().unref().to_set().contains(*key)) by {
                assert(iter.seq().unref()[iter.index()] == *key);
            }
            if let Some(buffer) = self.incomplete_messages.get(key) {
                assert(self@.incomplete[*key] == buffer@);
                assert(self@.incomplete.contains_key(*key));
                if !buffer.has_room_for(more) {
                    return false;
                }
            }
        }
        true
    }

    /// Evicts the incomplete messages that have exceeded the timeout and counts
    /// them.
    fn evict(&mut self, now: u128)
        requires
            old(self)@.events.timeout_evictions + old(self)@.incomplete.len() <= u64::MAX,
        ensures
            final(self)@ == evicted(old(self)@, now),
            final(self).clock_origin() == old(self).clock_origin(),
    {
        let ghost state = old(self)@;
        let before: usize = self.incomplete_messages_count();
        let stale = self.stale_keys(now);
        let mut i: usize = 0;
        while i < stale.len()
            invariant
                i <= stale@.len(),
                state == old(self)@,
                self@.incomplete =~= state.incomplete.restrict(
                    Set::new(|key: u64| !stale@.take(i as int).contains(key)),
                ),
                self@ == (ReassemblyState { incomplete: self@.incomplete, ..state }),
                self.clock_origin() == old(self).clock_origin(),
            decreases stale@.len() - i,
        {
            let key: u64 = stale[i];
            let ghost there = self.incomplete_messages@;
            let ghost left = self@.incomplete;
            self.incomplete_messages.remove(&key);
            proof {
                let seen = stale@.take(i as int);
                let next = stale@.take(i + 1);
                assert(next =~= seen.push(key));
                assert forall|k: u64| next.contains(k) <==> seen.contains(k) || k == key by {
                    if seen.contains(k) {
                        let j = choose|j: int| 0 <= j < seen.len() && seen[j] == k;
                        assert(next[j] == k);
                    }
                    if k == key {
                        assert(next[i as int] == k);
                    }
                }
                assert(self.incomplete_messages@ =~= there.remove(key));
                assert(self@.incomplete =~= left.remove(key));
                assert(self@.incomplete =~= state.incomplete.restrict(
                    Set::new(|k: u64| !next.contains(k)),
                ));
            }
            i += 1;
        }
        proof {
            assert(stale@.take(i as int) =~= stale@);
            assert(self@.incomplete =~= kept(state.incomplete, now, state.timeout));
        }
        let after: usize = self.incomplete_messages_count();
        proof {
            assert(state.incomplete.dom().finite()) by {
                assert(state.incomplete.dom() =~= old(self).incomplete_messages@.dom());
            }
            vstd::set_lib::lemma_len_subset(self@.incomplete.dom(), state.incomplete.dom());
        }
        let evictions: usize = before - after;
        if evictions > 0 {
            self.reassembly_events.timeout_evictions = self.reassembly_events.timeout_evictions
                + evictions as u64;
        }
    }

    /// Adds a packet to the message that it is a segment of. Returns the message
    /// where it is complete.
    pub fn try_reassemble_segments(&mut self, pkt: UdpNotifPacket, now: u128) -> (r: Result<
        Option<UdpNotifPacket>,
        UdpPacketCodecError,
    >)
        requires
            has_room(old(self)@, pkt@.payload.len() as int),
            segment_countable(pkt@),
        ensures
            final(self).clock_origin() == old(self).clock_origin(),
            ({
                let delivery = delivered(old(self)@, pkt@, now);
                &&& final(self)@ == delivery.state
                &&& match delivery.result {
                    Ok(Some(message)) => r matches Ok(Some(result)) && result@ == message,
                    Ok(None) => r matches Ok(None),
                    Err(error) => r matches Err(UdpPacketCodecError::ReassemblyError(result))
                        && result == error,
                }
            }),
    {
        let (seg_no, is_last) = Self::extract_segment_info(pkt.options());
        let media_type = pkt.media_type();
        let publisher_id: u32 = pkt.publisher_id();
        let message_id: u32 = pkt.message_id();
        // Short-circuit for unsegmented or single-segment messages
        if seg_no == 0 && is_last {
            return Ok(Some(pkt));
        }
        let message_key: u64 = publisher_id as u64 * 0x1_0000_0000 + message_id as u64;
        let ghost state = self@;
        let ghost packet = pkt@;
        // Detect duplicate segment numbers: a segment whose number is already
        // present in the buffer is either a network retransmission or a sign that
        // the sender has reused the message-id for a new message.
        // Duplicate segments are dropped according to draft-ietf-netconf-udp-notif.
        let is_duplicate = match self.incomplete_messages.get(&message_key) {
            Some(buffer) => {
                assert(state.incomplete[message_key] == buffer@);
                buffer.contains_segment(seg_no)
            },
            None => false,
        };
        if is_duplicate {
            self.reassembly_events.duplicate_drops = self.reassembly_events.duplicate_drops + 1;
            return Ok(None);
        }
        let mut reassembly_buf = match self.incomplete_messages.remove(&message_key) {
            Some(buffer) => buffer,
            None => ReassemblyBuffer::new(now),
        };
        assert(self@.incomplete =~= state.incomplete.remove(message_key));
        assert(reassembly_buf@ == buffer_for(state, message_key, now));
        proof {
            let segments = reassembly_buf@.segments;
            lemma_held_octets_insert(segments, seg_no, packet, 65536);
            if !state.incomplete.contains_key(message_key) {
                lemma_nothing_held(65536);
            }
        }
        reassembly_buf.add_segment(seg_no, pkt, is_last);
        // Enforce the per-message segment cap
        if reassembly_buf.segment_count() > self.max_segments as usize {
            self.reassembly_events.max_segments_exceeded =
            self.reassembly_events.max_segments_exceeded + 1;
            return Err(
                UdpPacketCodecError::ReassemblyError(
                    ReassemblyBufferError::MaxSegmentsExceeded {
                        publisher_id,
                        message_id,
                        max_segments: self.max_segments,
                    },
                ),
            );
        }
        if !reassembly_buf.ready_to_reassemble() {
            let ghost next = reassembly_buf@;
            self.incomplete_messages.insert(message_key, reassembly_buf);
            assert(self@.incomplete =~= state.incomplete.insert(message_key, next));
            return Ok(None);
        }
        // The buffer was just confirmed ready, so we can reassemble
        // and leave it out of the incomplete_messages map.
        match reassembly_buf.reassemble(media_type, publisher_id, message_id) {
            Ok(message) => Ok(Some(message)),
            Err(error) => Err(UdpPacketCodecError::from(error)),
        }
    }

    /// Takes up what was parsed from a datagram of `available` octets whose
    /// header says that there are `message_len`: a packet together with the
    /// number of octets that it takes.
    pub fn accept_parsed(
        &mut self,
        now: u128,
        message_len: u16,
        available: usize,
        parsed: Result<(UdpNotifPacket, usize), UdpNotifPacketParsingError>,
    ) -> (r: Result<Option<UdpNotifPacket>, UdpPacketCodecError>)
        requires
            parsed matches Ok((packet, _)) ==> {
                &&& has_room(old(self)@, packet@.payload.len() as int)
                &&& segment_countable(packet@)
            },
        ensures
            final(self).clock_origin() == old(self).clock_origin(),
            ({
                let model = match parsed {
                    Ok((packet, taken)) => Ok((packet@, taken as int)),
                    Err(error) => Err(error),
                };
                let (result, state) = accepted(
                    old(self)@,
                    now,
                    message_len,
                    available as int,
                    model,
                );
                holds(r, result) && final(self)@ == state
            }),
    {
        match parsed {
            Ok((packet, taken)) => {
                // Check that the message length matches the actual length of the message
                if taken != message_len as usize || taken != available {
                    return Err(UdpPacketCodecError::InvalidMessageLength(message_len));
                }
                self.try_reassemble_segments(packet, now)
            },
            Err(error) => Err(UdpPacketCodecError::from(error)),
        }
    }

    /// Decodes the datagram in `buf`, which arrives at `now`: `None` where it is
    /// empty, or where it does not complete a message.
    pub fn decode_at(&mut self, now: u128, buf: &mut BytesMut) -> (r: Result<
        Option<UdpNotifPacket>,
        UdpPacketCodecError,
    >)
        requires
            has_room(old(self)@, octets(*old(buf)).len() as int),
        ensures
            final(self).clock_origin() == old(self).clock_origin(),
            ({
                let decoding = decoded(old(self)@, octets(*old(buf)), now);
                &&& holds(r, decoding.result)
                &&& final(self)@ == decoding.state
                &&& octets(*final(buf)) == decoding.rest
            }),
    {
        let ghost datagram = octets(*buf);
        assert(self@.incomplete.dom() =~= self.incomplete_messages@.dom());
        // Evict reassembly buffers that have exceeded the configured timeout,
        // accumulating the count into reassembly_events for the caller to report.
        self.evict(now);
        let len: usize = buffer_len(buf);
        // Early return for empty buffer (nothing to decode)
        if len == 0 {
            return Ok(None);
        }
        // Validate the fixed header fields and confirm the datagram contains a
        // complete message before attempting to parse
        let message_len: u16 = match self.check_len(buf) {
            Ok((_, message_len)) => message_len,
            Err(error) => {
                return Err(error);
            },
        };
        let pkt_buf = split_front(buf, len);
        assert(octets(pkt_buf) =~= datagram);
        assert(octets(*buf) =~= Seq::empty());
        proof {
            lemma_parsed_packet_keyed(datagram);
            lemma_room_after_eviction(old(self)@, now, datagram.len() as int);
        }
        let parsed = UdpNotifPacket::from_wire(buffer_slice(&pkt_buf));
        self.accept_parsed(now, message_len, len, parsed)
    }

    /// Decodes the datagram in `buf`, which arrives at the point in time `seen`.
    pub fn decode_seen(&mut self, seen: Instant, buf: &mut BytesMut) -> (r: Result<
        Option<UdpNotifPacket>,
        UdpPacketCodecError,
    >)
        requires
            has_room(old(self)@, octets(*old(buf)).len() as int),
        ensures
            final(self).clock_origin() == old(self).clock_origin(),
            ({
                let now = nanos_from(old(self).clock_origin(), seen);
                let decoding = decoded(old(self)@, octets(*old(buf)), now);
                &&& holds(r, decoding.result)
                &&& final(self)@ == decoding.state
                &&& octets(*final(buf)) == decoding.rest
            }),
    {
        let now: u128 = nanos_between(self.clock, seen);
        self.decode_at(now, buf)
    }

    /// Decodes the datagram in `buf`, at the time that the machine's clock shows:
    /// the time from [`UdpPacketCodec::clock_origin`] to the point in time that
    /// this call reads from the clock.
    pub fn decode(&mut self, buf: &mut BytesMut) -> (r: Result<
        Option<UdpNotifPacket>,
        UdpPacketCodecError,
    >)
        requires
            has_room(old(self)@, octets(*old(buf)).len() as int),
        ensures
            final(self).clock_origin() == old(self).clock_origin(),
            exists|seen: Instant|
                ({
                    let now = #[trigger] nanos_from(old(self).clock_origin(), seen);
                    let decoding = decoded(old(self)@, octets(*old(buf)), now);
                    &&& read_from_clock(seen)
                    &&& holds(r, decoding.result)
                    &&& final(self)@ == decoding.state
                    &&& octets(*final(buf)) == decoding.rest
                }),
    {
        let seen = read_clock();
        self.decode_seen(seen, buf)
    }

    /// Appends the octets of a packet to `dst`. An error leaves `dst` as it is.
    pub fn encode(&mut self, pkt: UdpNotifPacket, dst: &mut BytesMut) -> (r: Result<
        (),
        UdpPacketCodecError,
    >)
        requires
            octets(*old(dst)).len() + 65535 <= isize::MAX,
        ensures
            final(self).clock_origin() == old(self).clock_origin(),
            final(self)@ == old(self)@,
            match written_packet(pkt@) {
                Ok(packet) => {
                    &&& r is Ok
                    &&& octets(*final(dst)) == octets(*old(dst)) + packet
                },
                Err(error) => {
                    &&& r matches Err(UdpPacketCodecError::WritingError(result)) && result == error
                    &&& octets(*final(dst)) == octets(*old(dst))
                },
            },
    {
        match pkt.write() {
            Ok(packet) => {
                append_slice(dst, packet.as_slice());
                Ok(())
            },
            Err(error) => Err(UdpPacketCodecError::from(error)),
        }
    }
}

/// Evicting old messages leaves room for a datagram where there was room.
proof fn lemma_room_after_eviction(state: ReassemblyState, now: u128, more: int)
    requires
        has_room(state, more),
        state.incomplete.dom().finite(),
    ensures
        forall|n: int| 0 <= n <= more ==> #[trigger] has_room(evicted(state, now), n),
{
    let after = evicted(state, now);
    vstd::set_lib::lemma_len_subset(after.incomplete.dom(), state.incomplete.dom());
}

} // verus!
