//! UDP-Notif packets and their wire format, per draft-ietf-netconf-udp-notif.
//!
//! ```text
//!  0                   1                   2                   3
//!  0 1 2 3 4 5 6 7 8 9 0 1 2 3 4 5 6 7 8 9 0 1 2 3 4 5 6 7 8 9 0 1
//! +-----+-+-------+---------------+-------------------------------+
//! | Ver |S|  MT   |  Header Len   |      Message Length           |
//! +-----+-+-------+---------------+-------------------------------+
//! |                    Message Publisher ID                       |
//! +---------------------------------------------------------------+
//! |                         Message ID                            |
//! +---------------------------------------------------------------+
//! |                          Options                              |
//! +---------------------------------------------------------------+
//! |                          Payload                              |
//! +---------------------------------------------------------------+
//! ```
use crate::octets::{be16, be32, frozen_copy, frozen_octets, frozen_slice, read_u16, read_u32};
use bytes::Bytes;
use std::collections::HashMap;
use vstd::prelude::*;

verus! {

/// Minimum length in bytes of the UDP-Notif fixed header (version/flags,
/// header length, message length, publisher-id, and message-id) without any
/// optional fields, per draft-ietf-netconf-udp-notif.
pub const MIN_HEADER_LENGTH: u8 = 12;

/// The version that every packet carries.
pub const VERSION: u8 = 1;

/// The code of the segmentation option.
pub const SEGMENT_OPTION: u8 = 1;

/// The code of the private encoding option.
pub const PRIVATE_ENCODING_OPTION: u8 = 2;

/// The largest number that the segmentation option can carry, in 15 bits.
pub const MAX_SEGMENT_NUMBER: u16 = 32767;

/// The most octets that the value of an option can have.
pub const MAX_OPTION_VALUE: usize = 253;

/// The encoding of the payload. Its code is the S flag followed by the four
/// bits of the media type.
#[derive(Debug, Clone, Copy, PartialEq, Eq, Structural)]
pub enum MediaType {
    YangDataJson,
    YangDataXml,
    YangDataCbor,
    Unknown(u8),
}

/// The media type with the given code.
pub open spec fn media_type_of(code: u8) -> MediaType {
    if code == 1 {
        MediaType::YangDataJson
    } else if code == 2 {
        MediaType::YangDataXml
    } else if code == 3 {
        MediaType::YangDataCbor
    } else {
        MediaType::Unknown(code)
    }
}

/// The code of a media type.
pub open spec fn media_type_code(media_type: MediaType) -> u8 {
    match media_type {
        MediaType::YangDataJson => 1,
        MediaType::YangDataXml => 2,
        MediaType::YangDataCbor => 3,
        MediaType::Unknown(code) => code,
    }
}

impl MediaType {
    pub fn from_code(code: u8) -> (media_type: MediaType)
        ensures
            media_type == media_type_of(code),
    {
        match code {
            1 => MediaType::YangDataJson,
            2 => MediaType::YangDataXml,
            3 => MediaType::YangDataCbor,
            _ => MediaType::Unknown(code),
        }
    }

    pub fn code(self) -> (code: u8)
        ensures
            code == media_type_code(self),
    {
        match self {
            MediaType::YangDataJson => 1,
            MediaType::YangDataXml => 2,
            MediaType::YangDataCbor => 3,
            MediaType::Unknown(code) => code,
        }
    }
}

/// An option in the header of a packet.
#[derive(Debug, Clone, PartialEq, Eq)]
pub enum UdpNotifOption {
    /// The packet is one segment of a message.
    Segment { number: u16, last: bool },
    PrivateEncoding(Vec<u8>),
    Unknown { typ: u8, value: Vec<u8> },
}

/// The contents of an option.
pub enum OptionModel {
    Segment { number: u16, last: bool },
    PrivateEncoding(Seq<u8>),
    Unknown { typ: u8, value: Seq<u8> },
}

impl View for UdpNotifOption {
    type V = OptionModel;

    open spec fn view(&self) -> OptionModel {
        match self {
            UdpNotifOption::Segment { number, last } => OptionModel::Segment {
                number: *number,
                last: *last,
            },
            UdpNotifOption::PrivateEncoding(value) => OptionModel::PrivateEncoding(value@),
            UdpNotifOption::Unknown { typ, value } => OptionModel::Unknown {
                typ: *typ,
                value: value@,
            },
        }
    }
}

/// The contents of a packet.
pub struct PacketModel {
    pub media_type: MediaType,
    pub publisher_id: u32,
    pub message_id: u32,
    pub options: Map<u8, OptionModel>,
    pub payload: Seq<u8>,
}

/// The contents of a table of options.
pub open spec fn options_model(options: Map<u8, UdpNotifOption>) -> Map<u8, OptionModel> {
    options.map_values(|option: UdpNotifOption| option@)
}

/// Each option stands under its own code.
pub open spec fn keyed(options: Map<u8, OptionModel>) -> bool {
    forall|code: u8| #[trigger]
        options.contains_key(code) ==> match options[code] {
            OptionModel::Segment { .. } => code == SEGMENT_OPTION,
            OptionModel::PrivateEncoding(_) => code == PRIVATE_ENCODING_OPTION,
            OptionModel::Unknown { typ, .. } => code == typ && code != SEGMENT_OPTION && code
                != PRIVATE_ENCODING_OPTION,
        }
}

/// A packet, or a whole message.
#[derive(Debug, PartialEq, Eq)]
pub struct UdpNotifPacket {
    media_type: MediaType,
    publisher_id: u32,
    message_id: u32,
    options: HashMap<u8, UdpNotifOption>,
    payload: Bytes,
}

impl View for UdpNotifPacket {
    type V = PacketModel;

    closed spec fn view(&self) -> PacketModel {
        PacketModel {
            media_type: self.media_type,
            publisher_id: self.publisher_id,
            message_id: self.message_id,
            options: options_model(self.options@),
            payload: frozen_octets(self.payload),
        }
    }
}

/// Why octets are no packet.
#[derive(Debug, Clone, Copy, PartialEq, Eq, Structural)]
pub enum UdpNotifPacketParsingError {
    /// The octets end within the packet.
    Eof,
    InvalidVersion(u8),
    InvalidHeaderLength(u8),
    InvalidMessageLength(u16),
    InvalidOptionLength(u8),
}

/// Why a packet has no octets.
#[derive(Debug, Clone, Copy, PartialEq, Eq, Structural)]
pub enum UdpNotifPacketWritingError {
    /// The media type has no code of five bits.
    InvalidMediaType(u8),
    /// The segment number needs more than 15 bits.
    InvalidSegmentNumber(u16),
    /// The value of the option with this code is too long.
    OptionTooLong(u8),
    /// The header, with this many octets, is too long.
    HeaderTooLong(usize),
    /// The message, with this many octets, is too long.
    MessageTooLong(usize),
}

/// The option with the given code and value.
pub open spec fn option_of(code: u8, value: Seq<u8>) -> OptionModel {
    if code == SEGMENT_OPTION {
        OptionModel::Segment {
            number: (be16(value, 0) / 2) as u16,
            last: be16(value, 0) % 2 == 1,
        }
    } else if code == PRIVATE_ENCODING_OPTION {
        OptionModel::PrivateEncoding(value)
    } else {
        OptionModel::Unknown { typ: code, value }
    }
}

/// The options that `octets` encode, added to `options`. An option that occurs
/// again takes the place of the earlier one.
pub open spec fn parsed_options(octets: Seq<u8>, options: Map<u8, OptionModel>) -> Result<
    Map<u8, OptionModel>,
    UdpNotifPacketParsingError,
>
    decreases octets.len(),
{
    if octets.len() == 0 {
        Ok(options)
    } else if octets.len() < 2 {
        Err(UdpNotifPacketParsingError::Eof)
    } else if octets[1] < 2 || (octets[0] == SEGMENT_OPTION && octets[1] != 4) {
        Err(UdpNotifPacketParsingError::InvalidOptionLength(octets[1]))
    } else if octets.len() < octets[1] {
        Err(UdpNotifPacketParsingError::Eof)
    } else {
        parsed_options(
            octets.skip(octets[1] as int),
            options.insert(octets[0], option_of(octets[0], octets.subrange(2, octets[1] as int))),
        )
    }
}

/// The packet at the front of `octets` and the number of octets it takes.
pub open spec fn parsed_packet(octets: Seq<u8>) -> Result<
    (PacketModel, int),
    UdpNotifPacketParsingError,
> {
    if octets.len() < 1 {
        Err(UdpNotifPacketParsingError::Eof)
    } else if octets[0] / 32 != VERSION {
        Err(UdpNotifPacketParsingError::InvalidVersion((octets[0] / 32) as u8))
    } else if octets.len() < 2 {
        Err(UdpNotifPacketParsingError::Eof)
    } else if octets[1] < MIN_HEADER_LENGTH {
        Err(UdpNotifPacketParsingError::InvalidHeaderLength(octets[1]))
    } else if octets.len() < 4 {
        Err(UdpNotifPacketParsingError::Eof)
    } else if be16(octets, 2) < octets[1] {
        Err(UdpNotifPacketParsingError::InvalidMessageLength(be16(octets, 2) as u16))
    } else if octets.len() < octets[1] {
        Err(UdpNotifPacketParsingError::Eof)
    } else {
        match parsed_options(octets.subrange(12, octets[1] as int), Map::empty()) {
            Err(error) => Err(error),
            Ok(options) => if octets.len() < be16(octets, 2) {
                Err(UdpNotifPacketParsingError::Eof)
            } else {
                Ok(
                    (
                        PacketModel {
                            media_type: media_type_of((octets[0] % 32) as u8),
                            publisher_id: be32(octets, 4) as u32,
                            message_id: be32(octets, 8) as u32,
                            options,
                            payload: octets.subrange(octets[1] as int, be16(octets, 2)),
                        },
                        be16(octets, 2),
                    ),
                )
            },
        }
    }
}

/// `n` in two octets, most significant first.
pub open spec fn be16_octets(n: int) -> Seq<u8> {
    seq![(n / 256) as u8, (n % 256) as u8]
}

/// `n` in four octets, most significant first.
pub open spec fn be32_octets(n: int) -> Seq<u8> {
    be16_octets(n / 65536) + be16_octets(n % 65536)
}

/// The value of an option.
pub open spec fn option_value(option: OptionModel) -> Seq<u8> {
    match option {
        OptionModel::Segment { number, last } => be16_octets(
            number * 2 + if last {
                1int
            } else {
                0
            },
        ),
        OptionModel::PrivateEncoding(value) => value,
        OptionModel::Unknown { value, .. } => value,
    }
}

/// The octets of an option: its code, its length and its value.
pub open spec fn option_octets(code: u8, option: OptionModel) -> Seq<u8> {
    seq![code, (2 + option_value(option).len()) as u8] + option_value(option)
}

/// The octets of the options with codes from `from` on, by ascending code.
pub open spec fn options_octets(options: Map<u8, OptionModel>, from: int) -> Seq<u8>
    decreases 256 - from,
{
    if from < 0 || from >= 256 {
        Seq::empty()
    } else if options.contains_key(from as u8) {
        option_octets(from as u8, options[from as u8]) + options_octets(options, from + 1)
    } else {
        options_octets(options, from + 1)
    }
}

/// Why an option has no octets.
pub open spec fn option_fault(code: u8, option: OptionModel) -> Option<
    UdpNotifPacketWritingError,
> {
    match option {
        OptionModel::Segment { number, .. } => if number > MAX_SEGMENT_NUMBER {
            Some(UdpNotifPacketWritingError::InvalidSegmentNumber(number))
        } else {
            None
        },
        _ => if option_value(option).len() > MAX_OPTION_VALUE {
            Some(UdpNotifPacketWritingError::OptionTooLong(code))
        } else {
            None
        },
    }
}

/// Why the options with codes from `from` on have no octets: the fault of the
/// first of them that has one.
pub open spec fn options_fault(options: Map<u8, OptionModel>, from: int) -> Option<
    UdpNotifPacketWritingError,
>
    decreases 256 - from,
{
    if from < 0 || from >= 256 {
        None
    } else if options.contains_key(from as u8) && option_fault(
        from as u8,
        options[from as u8],
    ) is Some {
        option_fault(from as u8, options[from as u8])
    } else {
        options_fault(options, from + 1)
    }
}

/// The octets of a packet.
pub open spec fn packet_octets(packet: PacketModel) -> Seq<u8> {
    let options = options_octets(packet.options, 0);
    seq![
        (VERSION * 32 + media_type_code(packet.media_type)) as u8,
        (MIN_HEADER_LENGTH + options.len()) as u8,
    ] + be16_octets(MIN_HEADER_LENGTH + options.len() + packet.payload.len()) + be32_octets(
        packet.publisher_id as int,
    ) + be32_octets(packet.message_id as int) + options + packet.payload
}

/// The octets of a packet, or why it has none.
pub open spec fn written_packet(packet: PacketModel) -> Result<
    Seq<u8>,
    UdpNotifPacketWritingError,
> {
    let header = MIN_HEADER_LENGTH + options_octets(packet.options, 0).len();
    if media_type_code(packet.media_type) >= 32 {
        Err(UdpNotifPacketWritingError::InvalidMediaType(media_type_code(packet.media_type)))
    } else if options_fault(packet.options, 0) is Some {
        Err(options_fault(packet.options, 0)->0)
    } else if header > 255 {
        Err(UdpNotifPacketWritingError::HeaderTooLong(header as usize))
    } else if header + packet.payload.len() > 65535 {
        Err(UdpNotifPacketWritingError::MessageTooLong((header + packet.payload.len()) as usize))
    } else {
        Ok(packet_octets(packet))
    }
}

proof fn lemma_be16_octets(n: int)
    requires
        0 <= n < 65536,
    ensures
        be16_octets(n).len() == 2,
        be16(be16_octets(n), 0) == n,
{
}

proof fn lemma_be32_octets(n: int)
    requires
        0 <= n < 0x1_0000_0000,
    ensures
        be32_octets(n).len() == 4,
        be32(be32_octets(n), 0) == n,
{
}

/// An option that has octets is read back from them.
proof fn lemma_option_read_back(code: u8, options: Map<u8, OptionModel>)
    requires
        keyed(options),
        options.contains_key(code),
        option_fault(code, options[code]) is None,
    ensures
        ({
            let octets = option_octets(code, options[code]);
            &&& 2 <= octets.len() <= 255
            &&& octets[0] == code
            &&& octets[1] == octets.len()
            &&& code == SEGMENT_OPTION ==> octets.len() == 4
            &&& option_of(code, octets.subrange(2, octets.len() as int)) == options[code]
        }),
{
    let octets = option_octets(code, options[code]);
    let value = option_value(options[code]);
    assert(octets.subrange(2, octets.len() as int) =~= value);
}

/// The options from `from` on, as a table of their own.
pub open spec fn options_from(options: Map<u8, OptionModel>, from: int) -> Map<u8, OptionModel> {
    options.restrict(Set::new(|code: u8| code >= from))
}

/// Options are read back from their octets.
proof fn lemma_options_read_back(
    options: Map<u8, OptionModel>,
    from: int,
    before: Map<u8, OptionModel>,
)
    requires
        0 <= from <= 256,
        keyed(options),
        options_fault(options, from) is None,
    ensures
        parsed_options(options_octets(options, from), before) == Ok::<
            Map<u8, OptionModel>,
            UdpNotifPacketParsingError,
        >(before.union_prefer_right(options_from(options, from))),
    decreases 256 - from,
{
    let octets = options_octets(options, from);
    if from >= 256 {
        assert(before.union_prefer_right(options_from(options, from)) =~= before);
    } else if options.contains_key(from as u8) {
        let code = from as u8;
        let own = option_octets(code, options[code]);
        let rest = options_octets(options, from + 1);
        lemma_option_read_back(code, options);
        assert(octets =~= own + rest);
        assert(octets[0] == own[0] && octets[1] == own[1]);
        assert(octets.subrange(2, octets[1] as int) =~= own.subrange(2, own.len() as int));
        assert(octets.skip(octets[1] as int) =~= rest);
        lemma_options_read_back(options, from + 1, before.insert(code, options[code]));
        assert(before.insert(code, options[code]).union_prefer_right(
            options_from(options, from + 1),
        ) =~= before.union_prefer_right(options_from(options, from)));
    } else {
        lemma_options_read_back(options, from + 1, before);
        assert(options_from(options, from + 1) =~= options_from(options, from));
    }
}

/// Each option that is read stands under its own code, and the number of a
/// segment has at most 15 bits.
pub proof fn lemma_parsed_options_keyed(octets: Seq<u8>, before: Map<u8, OptionModel>)
    requires
        keyed(before),
        before.contains_key(SEGMENT_OPTION) ==> before[SEGMENT_OPTION]->number
            <= MAX_SEGMENT_NUMBER,
    ensures
        parsed_options(octets, before) matches Ok(options) ==> {
            &&& keyed(options)
            &&& options.contains_key(SEGMENT_OPTION) ==> options[SEGMENT_OPTION]->number
                <= MAX_SEGMENT_NUMBER
        },
    decreases octets.len(),
{
    if octets.len() >= 2 && octets[1] >= 2 && octets.len() >= octets[1] {
        let option = option_of(octets[0], octets.subrange(2, octets[1] as int));
        if octets[0] != SEGMENT_OPTION || octets[1] == 4 {
            lemma_parsed_options_keyed(
                octets.skip(octets[1] as int),
                before.insert(octets[0], option),
            );
        }
    }
}

/// Each option of a packet that is read stands under its own code, and the
/// number of a segment has at most 15 bits.
pub proof fn lemma_parsed_packet_keyed(octets: Seq<u8>)
    ensures
        parsed_packet(octets) matches Ok((packet, taken)) ==> {
            &&& keyed(packet.options)
            &&& packet.options.contains_key(SEGMENT_OPTION)
                ==> packet.options[SEGMENT_OPTION]->number <= MAX_SEGMENT_NUMBER
            &&& packet.payload.len() <= octets.len()
            &&& packet.payload.len() <= u16::MAX
        },
{
    if octets.len() >= 12 && octets[1] >= 12 && octets.len() >= octets[1] {
        lemma_parsed_options_keyed(octets.subrange(12, octets[1] as int), Map::empty());
    }
}

/// A packet is read back from its octets, whatever follows them. A media type
/// that only differs from a known one in its spelling (`Unknown(1)`) is
/// excluded, because it is read back as the known one.
pub proof fn lemma_packet_read_back(packet: PacketModel, rest: Seq<u8>)
    requires
        keyed(packet.options),
        media_type_of(media_type_code(packet.media_type)) == packet.media_type,
        written_packet(packet) is Ok,
    ensures
        parsed_packet(packet_octets(packet) + rest) == Ok::<
            (PacketModel, int),
            UdpNotifPacketParsingError,
        >((packet, packet_octets(packet).len() as int)),
{
    let options = options_octets(packet.options, 0);
    let total = MIN_HEADER_LENGTH + options.len() + packet.payload.len();
    let octets = packet_octets(packet) + rest;
    let header = MIN_HEADER_LENGTH + options.len();
    lemma_be16_octets(total as int);
    lemma_be32_octets(packet.publisher_id as int);
    lemma_be32_octets(packet.message_id as int);
    assert(packet_octets(packet).len() == total);
    assert(octets[0] == (VERSION * 32 + media_type_code(packet.media_type)) as u8);
    assert(octets[1] == header);
    assert(octets[2] == be16_octets(total as int)[0]);
    assert(octets[3] == be16_octets(total as int)[1]);
    assert(be16(octets, 2) == total);
    assert(octets[4] == be32_octets(packet.publisher_id as int)[0]);
    assert(octets[5] == be32_octets(packet.publisher_id as int)[1]);
    assert(octets[6] == be32_octets(packet.publisher_id as int)[2]);
    assert(octets[7] == be32_octets(packet.publisher_id as int)[3]);
    assert(octets[8] == be32_octets(packet.message_id as int)[0]);
    assert(octets[9] == be32_octets(packet.message_id as int)[1]);
    assert(octets[10] == be32_octets(packet.message_id as int)[2]);
    assert(octets[11] == be32_octets(packet.message_id as int)[3]);
    assert(be32(octets, 4) == packet.publisher_id);
    assert(be32(octets, 8) == packet.message_id);
    assert(octets.subrange(12, header as int) =~= options);
    assert(octets.subrange(header as int, total as int) =~= packet.payload);
    lemma_options_read_back(packet.options, 0, Map::empty());
    assert(Map::<u8, OptionModel>::empty().union_prefer_right(options_from(packet.options, 0))
        =~= packet.options);
}

impl UdpNotifPacket {
    pub fn new(
        media_type: MediaType,
        publisher_id: u32,
        message_id: u32,
        options: HashMap<u8, UdpNotifOption>,
        payload: Bytes,
    ) -> (packet: Self)
        ensures
            packet@ == (PacketModel {
                media_type,
                publisher_id,
                message_id,
                options: options_model(options@),
                payload: frozen_octets(payload),
            }),
    {
        UdpNotifPacket { media_type, publisher_id, message_id, options, payload }
    }

    pub fn media_type(&self) -> (media_type: MediaType)
        ensures
            media_type == self@.media_type,
    {
        self.media_type
    }

    pub fn publisher_id(&self) -> (publisher_id: u32)
        ensures
            publisher_id == self@.publisher_id,
    {
        self.publisher_id
    }

    pub fn message_id(&self) -> (message_id: u32)
        ensures
            message_id == self@.message_id,
    {
        self.message_id
    }

    pub fn options(&self) -> (options: &HashMap<u8, UdpNotifOption>)
        ensures
            options_model(options@) == self@.options,
    {
        &self.options
    }

    pub fn payload(&self) -> (payload: &Bytes)
        ensures
            frozen_octets(*payload) == self@.payload,
    {
        &self.payload
    }

    /// Takes the packet apart into its options and its payload.
    pub(crate) fn into_parts(self) -> (parts: (HashMap<u8, UdpNotifOption>, Bytes))
        ensures
            options_model(parts.0@) == self@.options,
            frozen_octets(parts.1) == self@.payload,
    {
        (self.options, self.payload)
    }

    /// Reads the packet at the front of `octets`, and how many of them it takes.
    pub fn from_wire(octets: &[u8]) -> (r: Result<
        (UdpNotifPacket, usize),
        UdpNotifPacketParsingError,
    >)
        ensures
            match parsed_packet(octets@) {
                Ok((packet, len)) => r matches Ok((result, taken)) && result@ == packet && taken
                    == len,
                Err(error) => r matches Err(result) && result == error,
            },
    {
        let len: usize = octets.len();
        if len < 1 {
            return Err(UdpNotifPacketParsingError::Eof);
        }
        let version: u8 = octets[0] / 32;
        if version != VERSION {
            return Err(UdpNotifPacketParsingError::InvalidVersion(version));
        }
        if len < 2 {
            return Err(UdpNotifPacketParsingError::Eof);
        }
        let header_len: u8 = octets[1];
        if header_len < MIN_HEADER_LENGTH {
            return Err(UdpNotifPacketParsingError::InvalidHeaderLength(header_len));
        }
        if len < 4 {
            return Err(UdpNotifPacketParsingError::Eof);
        }
        let message_len: u16 = read_u16(vstd::slice::slice_subrange(octets, 2, 4));
        if message_len < header_len as u16 {
            return Err(UdpNotifPacketParsingError::InvalidMessageLength(message_len));
        }
        if len < header_len as usize {
            return Err(UdpNotifPacketParsingError::Eof);
        }
        let options = match read_options(
            vstd::slice::slice_subrange(octets, 12, header_len as usize),
        ) {
            Ok(options) => options,
            Err(error) => {
                return Err(error);
            },
        };
        if len < message_len as usize {
            return Err(UdpNotifPacketParsingError::Eof);
        }
        let publisher_id: u32 = read_u32(vstd::slice::slice_subrange(octets, 4, 8));
        let message_id: u32 = read_u32(vstd::slice::slice_subrange(octets, 8, 12));
        let payload = frozen_copy(
            vstd::slice::slice_subrange(octets, header_len as usize, message_len as usize),
        );
        let media_type = MediaType::from_code(octets[0] % 32);
        Ok(
            (
                UdpNotifPacket { media_type, publisher_id, message_id, options, payload },
                message_len as usize,
            ),
        )
    }

    /// Writes the octets of the packet. Options come by ascending code.
    pub fn write(&self) -> (r: Result<Vec<u8>, UdpNotifPacketWritingError>)
        ensures
            match written_packet(self@) {
                Ok(octets) => r matches Ok(result) && result@ == octets,
                Err(error) => r matches Err(result) && result == error,
            },
    {
        let media_type: u8 = self.media_type.code();
        if media_type >= 32 {
            return Err(UdpNotifPacketWritingError::InvalidMediaType(media_type));
        }
        let options = match write_options(&self.options) {
            Ok(options) => options,
            Err(error) => {
                return Err(error);
            },
        };
        let header_len: usize = 12 + options.len();
        if header_len > 255 {
            return Err(UdpNotifPacketWritingError::HeaderTooLong(header_len));
        }
        let payload = frozen_slice(&self.payload);
        let message_len: usize = header_len + payload.len();
        if message_len > 65535 {
            return Err(UdpNotifPacketWritingError::MessageTooLong(message_len));
        }
        let mut octets: Vec<u8> = Vec::new();
        octets.push(VERSION * 32 + media_type);
        octets.push(header_len as u8);
        push_u16(&mut octets, message_len as u16);
        push_u32(&mut octets, self.publisher_id);
        push_u32(&mut octets, self.message_id);
        octets.extend_from_slice(options.as_slice());
        octets.extend_from_slice(payload);
        assert(octets@ =~= packet_octets(self@));
        Ok(octets)
    }
}

fn push_u16(octets: &mut Vec<u8>, n: u16)
    ensures
        final(octets)@ == old(octets)@ + be16_octets(n as int),
{
    octets.push((n / 256) as u8);
    octets.push((n % 256) as u8);
    assert(octets@ =~= old(octets)@ + be16_octets(n as int));
}

fn push_u32(octets: &mut Vec<u8>, n: u32)
    ensures
        final(octets)@ == old(octets)@ + be32_octets(n as int),
{
    push_u16(octets, (n / 65536) as u16);
    push_u16(octets, (n % 65536) as u16);
    assert(octets@ =~= old(octets)@ + be32_octets(n as int));
}

/// Reads the options of a header.
fn read_options(octets: &[u8]) -> (r: Result<
    HashMap<u8, UdpNotifOption>,
    UdpNotifPacketParsingError,
>)
    requires
        octets@.len() <= 255,
    ensures
        match parsed_options(octets@, Map::empty()) {
            Ok(options) => r matches Ok(result) && options_model(result@) == options,
            Err(error) => r matches Err(result) && result == error,
        },
{
    let len: usize = octets.len();
    let mut options: HashMap<u8, UdpNotifOption> = HashMap::new();
    let mut at: usize = 0;
    assert(options_model(options@) =~= Map::empty());
    assert(octets@.skip(0) =~= octets@);
    while at < len
        invariant
            at <= len,
            len == octets@.len(),
            len <= 255,
            parsed_options(octets@, Map::empty()) == parsed_options(
                octets@.skip(at as int),
                options_model(options@),
            ),
        decreases len - at,
    {
        let ghost rest = octets@.skip(at as int);
        if len - at < 2 {
            return Err(UdpNotifPacketParsingError::Eof);
        }
        let code: u8 = octets[at];
        let option_len: u8 = octets[at + 1];
        assert(rest[0] == code && rest[1] == option_len);
        if option_len < 2 || (code == SEGMENT_OPTION && option_len != 4) {
            return Err(UdpNotifPacketParsingError::InvalidOptionLength(option_len));
        }
        if len - at < option_len as usize {
            return Err(UdpNotifPacketParsingError::Eof);
        }
        let value = vstd::slice::slice_subrange(octets, at + 2, at + option_len as usize);
        assert(value@ =~= rest.subrange(2, option_len as int));
        let option = read_option(code, value);
        let ghost before = options@;
        options.insert(code, option);
        assert(options_model(options@) =~= options_model(before).insert(code, option@));
        assert(octets@.skip(at + option_len) =~= rest.skip(option_len as int));
        at += option_len as usize;
    }
    assert(octets@.skip(at as int).len() == 0);
    Ok(options)
}

/// Reads the value of an option.
fn read_option(code: u8, value: &[u8]) -> (option: UdpNotifOption)
    requires
        code == SEGMENT_OPTION ==> value@.len() == 2,
    ensures
        option@ == option_of(code, value@),
{
    if code == SEGMENT_OPTION {
        let n: u16 = read_u16(value);
        UdpNotifOption::Segment { number: n / 2, last: n % 2 == 1 }
    } else if code == PRIVATE_ENCODING_OPTION {
        UdpNotifOption::PrivateEncoding(vstd::slice::slice_to_vec(value))
    } else {
        UdpNotifOption::Unknown { typ: code, value: vstd::slice::slice_to_vec(value) }
    }
}

/// Writes the options of a header, by ascending code.
fn write_options(options: &HashMap<u8, UdpNotifOption>) -> (r: Result<
    Vec<u8>,
    UdpNotifPacketWritingError,
>)
    ensures
        match options_fault(options_model(options@), 0) {
            None => r matches Ok(octets) && octets@ == options_octets(options_model(options@), 0)
                && octets@.len() <= 65280,
            Some(error) => r matches Err(result) && result == error,
        },
{
    let mut octets: Vec<u8> = Vec::new();
    let ghost model = options_model(options@);
    let mut code: u16 = 0;
    assert(octets@ + options_octets(model, 0) =~= options_octets(model, 0));
    while code < 256
        invariant
            code <= 256,
            model == options_model(options@),
            options_octets(model, 0) == octets@ + options_octets(model, code as int),
            options_fault(model, 0) == options_fault(model, code as int),
            octets@.len() <= code * 255,
        decreases 256 - code,
    {
        let key: u8 = code as u8;
        if let Some(option) = options.get(&key) {
            assert(model[key] == option@);
            if let Err(error) = write_option(key, option, &mut octets) {
                return Err(error);
            }
            assert(options_octets(model, 0) =~= octets@ + options_octets(model, code + 1));
        }
        code += 1;
    }
    assert(options_octets(model, 0) =~= octets@);
    Ok(octets)
}

/// Appends the octets of an option.
fn write_option(code: u8, option: &UdpNotifOption, octets: &mut Vec<u8>) -> (r: Result<
    (),
    UdpNotifPacketWritingError,
>)
    ensures
        match option_fault(code, option@) {
            None => {
                &&& r is Ok
                &&& final(octets)@ == old(octets)@ + option_octets(code, option@)
                &&& option_octets(code, option@).len() <= 255
            },
            Some(error) => r matches Err(result) && result == error,
        },
{
    match option {
        UdpNotifOption::Segment { number, last } => {
            if *number > MAX_SEGMENT_NUMBER {
                return Err(UdpNotifPacketWritingError::InvalidSegmentNumber(*number));
            }
            octets.push(code);
            octets.push(4);
            push_u16(
                octets,
                *number * 2 + if *last {
                    1
                } else {
                    0
                },
            );
        },
        UdpNotifOption::PrivateEncoding(value) => {
            if value.len() > MAX_OPTION_VALUE {
                return Err(UdpNotifPacketWritingError::OptionTooLong(code));
            }
            octets.push(code);
            octets.push(2 + value.len() as u8);
            octets.extend_from_slice(value.as_slice());
        },
        UdpNotifOption::Unknown { typ: _, value } => {
            if value.len() > MAX_OPTION_VALUE {
                return Err(UdpNotifPacketWritingError::OptionTooLong(code));
            }
            octets.push(code);
            octets.push(2 + value.len() as u8);
            octets.extend_from_slice(value.as_slice());
        },
    }
    assert(octets@ =~= old(octets)@ + option_octets(code, option@));
    Ok(())
}

} // verus!
