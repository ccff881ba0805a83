//! What holds of the wire format of packets, octet by octet.
use crate::udp_notif::wire::{
    be16_octets, be32_octets, lemma_packet_read_back, media_type_code, media_type_of, option_fault,
    option_octets, option_value, options_fault, options_octets, parsed_options, parsed_packet,
    written_packet, MediaType, OptionModel, PacketModel, UdpNotifPacketParsingError,
    UdpNotifPacketWritingError,
};
use vstd::prelude::*;

verus! {

/// The media types with a name have the codes one to three, every other code is
/// kept as it is, and the code of a media type that was read is the code that was
/// there.
pub proof fn lemma_media_type_codes(code: u8)
    ensures
        media_type_code(media_type_of(code)) == code,
        media_type_of(code) == MediaType::YangDataJson <==> code == 1,
        media_type_of(code) == MediaType::YangDataXml <==> code == 2,
        media_type_of(code) == MediaType::YangDataCbor <==> code == 3,
        media_type_of(code) == MediaType::Unknown(code) <==> code == 0 || code > 3,
        media_type_code(MediaType::Unknown(code)) == code,
{
}

/// How many octets the value of an option takes.
pub open spec fn value_len(option: OptionModel) -> nat {
    match option {
        OptionModel::Segment { .. } => 2,
        OptionModel::PrivateEncoding(value) => value.len(),
        OptionModel::Unknown { value, .. } => value.len(),
    }
}

/// How many octets the options with codes from `from` on take: two more than its
/// value for each.
pub open spec fn options_len(options: Map<u8, OptionModel>, from: int) -> nat
    decreases 256 - from,
{
    if from < 0 || from >= 256 {
        0
    } else {
        options_len(options, from + 1) + if options.contains_key(from as u8) {
            2 + value_len(options[from as u8])
        } else {
            0
        }
    }
}

/// An option can be written: the number of a segment has 15 bits, and a value has
/// at most 253 octets.
pub open spec fn option_fits(option: OptionModel) -> bool {
    match option {
        OptionModel::Segment { number, .. } => number <= 32767,
        OptionModel::PrivateEncoding(value) => value.len() <= 253,
        OptionModel::Unknown { value, .. } => value.len() <= 253,
    }
}

/// Every option can be written.
pub open spec fn options_fit(options: Map<u8, OptionModel>) -> bool {
    forall|code: u8| #[trigger] options.contains_key(code) ==> option_fits(options[code])
}

proof fn lemma_options_len(options: Map<u8, OptionModel>, from: int)
    requires
        0 <= from,
    ensures
        options_octets(options, from).len() == options_len(options, from),
    decreases 256 - from,
{
    if from < 256 {
        lemma_options_len(options, from + 1);
    }
}

proof fn lemma_first_fault(options: Map<u8, OptionModel>, from: int)
    requires
        0 <= from,
    ensures
        options_fault(options, from) is None <==> forall|code: u8|
            from <= code && #[trigger] options.contains_key(code) ==> option_fits(options[code]),
        forall|code: u8|
            {
                &&& from <= code
                &&& #[trigger] options.contains_key(code)
                &&& !option_fits(options[code])
                &&& forall|lower: u8|
                    from <= lower < code && #[trigger] options.contains_key(lower) ==> option_fits(
                        options[lower],
                    )
            } ==> options_fault(options, from) == option_fault(code, options[code]),
    decreases 256 - from,
{
    if from < 256 {
        lemma_first_fault(options, from + 1);
        let code = from as u8;
        if options.contains_key(code) {
            assert(option_fault(code, options[code]) is None <==> option_fits(options[code]));
        }
    }
}

/// Which packets can be written: exactly those with a media type of five bits,
/// options that fit, at most 255 octets of header and at most 65535 octets in all.
pub proof fn lemma_writable_packets(packet: PacketModel)
    ensures
        written_packet(packet) is Ok <==> {
            &&& media_type_code(packet.media_type) < 32
            &&& options_fit(packet.options)
            &&& 12 + options_len(packet.options, 0) <= 255
            &&& 12 + options_len(packet.options, 0) + packet.payload.len() <= 65535
        },
{
    lemma_options_len(packet.options, 0);
    lemma_first_fault(packet.options, 0);
}

/// A packet without options is written whenever its media type has a name and its
/// payload has at most 65523 octets.
pub proof fn lemma_plain_packets_are_written(packet: PacketModel)
    requires
        packet.options == Map::<u8, OptionModel>::empty(),
        !(packet.media_type is Unknown),
        packet.payload.len() <= 65523,
    ensures
        written_packet(packet) is Ok,
        written_packet(packet)->Ok_0.len() == 12 + packet.payload.len(),
{
    lemma_writable_packets(packet);
    lemma_no_options_len(packet.options, 0);
    lemma_options_len(packet.options, 0);
}

proof fn lemma_no_options_len(options: Map<u8, OptionModel>, from: int)
    requires
        options == Map::<u8, OptionModel>::empty(),
    ensures
        options_len(options, from) == 0,
    decreases 256 - from,
{
    if 0 <= from < 256 {
        lemma_no_options_len(options, from + 1);
    }
}

/// Why a packet is not written: first the media type, then the option with the
/// lowest code that does not fit, then the header, then the whole.
pub proof fn lemma_writing_errors(packet: PacketModel, code: u8)
    ensures
        ({
            let media_type = media_type_code(packet.media_type);
            let header = 12 + options_len(packet.options, 0);
            let total = header + packet.payload.len();
            let r = written_packet(packet);
            &&& media_type >= 32 ==> r == Err::<Seq<u8>, _>(
                UdpNotifPacketWritingError::InvalidMediaType(media_type),
            )
            &&& {
                &&& media_type < 32
                &&& packet.options.contains_key(code)
                &&& !option_fits(packet.options[code])
                &&& forall|lower: u8|
                    lower < code && #[trigger] packet.options.contains_key(lower) ==> option_fits(
                        packet.options[lower],
                    )
            } ==> r == Err::<Seq<u8>, _>(
                match packet.options[code] {
                    OptionModel::Segment { number, .. } =>
                        UdpNotifPacketWritingError::InvalidSegmentNumber(number),
                    _ => UdpNotifPacketWritingError::OptionTooLong(code),
                },
            )
            &&& media_type < 32 && options_fit(packet.options) && header > 255 ==> r == Err::<
                Seq<u8>,
                _,
            >(UdpNotifPacketWritingError::HeaderTooLong(header as usize))
            &&& media_type < 32 && options_fit(packet.options) && header <= 255 && total > 65535
                ==> r == Err::<Seq<u8>, _>(
                UdpNotifPacketWritingError::MessageTooLong(total as usize),
            )
        }),
{
    lemma_options_len(packet.options, 0);
    lemma_first_fault(packet.options, 0);
}

/// What the octets of a packet are: the version and the media type, the length of
/// the header, the length of the whole, the publisher, the message, the options
/// and the payload.
pub proof fn lemma_written_fields(packet: PacketModel)
    requires
        written_packet(packet) is Ok,
    ensures
        ({
            let octets = written_packet(packet)->Ok_0;
            let header = 12 + options_len(packet.options, 0);
            &&& octets.len() == header + packet.payload.len()
            &&& octets[0] == 32 + media_type_code(packet.media_type)
            &&& octets[1] == header
            &&& octets[2] * 256 + octets[3] == octets.len()
            &&& octets[4] * 16777216 + octets[5] * 65536 + octets[6] * 256 + octets[7]
                == packet.publisher_id
            &&& octets[8] * 16777216 + octets[9] * 65536 + octets[10] * 256 + octets[11]
                == packet.message_id
            &&& octets.subrange(12, header as int) == options_octets(packet.options, 0)
            &&& octets.subrange(header as int, octets.len() as int) == packet.payload
        }),
{
    lemma_options_len(packet.options, 0);
    let octets = written_packet(packet)->Ok_0;
    let options = options_octets(packet.options, 0);
    let header = 12 + options.len() as int;
    let total = header + packet.payload.len();
    assert(octets[2] == be16_octets(total)[0] && octets[3] == be16_octets(total)[1]);
    let publisher = be32_octets(packet.publisher_id as int);
    let message = be32_octets(packet.message_id as int);
    assert forall|i: int| 0 <= i < 4 implies octets[4 + i] == publisher[i] && octets[8 + i]
        == message[i] by {}
    assert(octets[4] == publisher[0] && octets[5] == publisher[1] && octets[6] == publisher[2]
        && octets[7] == publisher[3]);
    assert(octets[8] == message[0] && octets[9] == message[1] && octets[10] == message[2]
        && octets[11] == message[3]);
    assert(octets.subrange(12, header) =~= options);
    assert(octets.subrange(header, octets.len() as int) =~= packet.payload);
}

/// A packet that is written is read back from its octets, whatever follows them.
/// A media type that only differs from a known one in its spelling (`Unknown(1)`)
/// is excluded, because it is read back as the known one.
pub proof fn lemma_written_is_read_back(packet: PacketModel, rest: Seq<u8>)
    requires
        written_packet(packet) is Ok,
        packet.media_type matches MediaType::Unknown(code) ==> code == 0 || code > 3,
        forall|code: u8| #[trigger]
            packet.options.contains_key(code) ==> match packet.options[code] {
                OptionModel::Segment { .. } => code == 1,
                OptionModel::PrivateEncoding(_) => code == 2,
                OptionModel::Unknown { typ, .. } => code == typ && code != 1 && code != 2,
            },
    ensures
        parsed_packet(written_packet(packet)->Ok_0 + rest) == Ok::<_, UdpNotifPacketParsingError>(
            (packet, written_packet(packet)->Ok_0.len() as int),
        ),
{
    lemma_packet_read_back(packet, rest);
}

proof fn lemma_options_from(options: Map<u8, OptionModel>, from: int, code: u8)
    requires
        0 <= from <= code,
        forall|lower: u8| #[trigger] options.contains_key(lower) ==> code <= lower,
    ensures
        options_octets(options, from) == options_octets(options, code as int),
    decreases code - from,
{
    if from < code {
        lemma_options_from(options, from + 1, code);
    }
}

proof fn lemma_options_without(
    options: Map<u8, OptionModel>,
    fewer: Map<u8, OptionModel>,
    from: int,
)
    requires
        0 <= from,
        forall|code: u8|
            from <= code ==> (#[trigger] fewer.contains_key(code) <==> options.contains_key(code)),
        forall|code: u8|
            from <= code && #[trigger] fewer.contains_key(code) ==> fewer[code] == options[code],
    ensures
        options_octets(options, from) == options_octets(fewer, from),
    decreases 256 - from,
{
    if from < 256 {
        assert(fewer.contains_key(from as u8) <==> options.contains_key(from as u8));
        lemma_options_without(options, fewer, from + 1);
    }
}

/// Options are written by ascending code, each as its code, its length and its
/// value: the option with the lowest code stands in front of the others. The
/// value of the segmentation option is twice the number, and one more for the last
/// segment.
pub proof fn lemma_lowest_option_first(options: Map<u8, OptionModel>, code: u8)
    requires
        options.contains_key(code),
        option_fits(options[code]),
        forall|lower: u8| #[trigger] options.contains_key(lower) ==> code <= lower,
    ensures
        ({
            let value = match options[code] {
                OptionModel::Segment { number, last } => {
                    let n = 2 * number + if last {
                        1int
                    } else {
                        0
                    };
                    seq![(n / 256) as u8, (n % 256) as u8]
                },
                OptionModel::PrivateEncoding(value) => value,
                OptionModel::Unknown { value, .. } => value,
            };
            options_octets(options, 0) == seq![code, (2 + value.len()) as u8] + value
                + options_octets(options.remove(code), 0)
        }),
        options_octets(Map::<u8, OptionModel>::empty(), 0) == Seq::<u8>::empty(),
{
    let fewer = options.remove(code);
    let own = option_octets(code, options[code]);
    lemma_options_from(options, 0, code);
    lemma_options_from(fewer, 0, code);
    assert(options_octets(options, code as int) == own + options_octets(options, code + 1));
    lemma_options_without(options, fewer, code + 1);
    assert(options_octets(fewer, code as int) == options_octets(fewer, code + 1));
    assert(own =~= seq![code, (2 + option_value(options[code]).len()) as u8] + option_value(
        options[code],
    ));
    lemma_no_options_len(Map::empty(), 0);
    lemma_options_len(Map::empty(), 0);
    assert(options_octets(Map::<u8, OptionModel>::empty(), 0) =~= Seq::<u8>::empty());
}

/// Which octets are read as a packet, and what is read: the version is one, the
/// lengths fit together and the octets reach, and the options can be read.
pub proof fn lemma_read_fields(octets: Seq<u8>)
    ensures
        parsed_packet(octets) is Ok <==> {
            &&& octets.len() >= 12
            &&& octets[0] / 32 == 1
            &&& 12 <= octets[1] <= octets[2] * 256 + octets[3] <= octets.len()
            &&& parsed_options(octets.subrange(12, octets[1] as int), Map::empty()) is Ok
        },
        parsed_packet(octets) matches Ok((packet, taken)) ==> {
            &&& taken == octets[2] * 256 + octets[3]
            &&& media_type_code(packet.media_type) == octets[0] % 32
            &&& packet.media_type == media_type_of((octets[0] % 32) as u8)
            &&& packet.publisher_id == octets[4] * 16777216 + octets[5] * 65536 + octets[6] * 256
                + octets[7]
            &&& packet.message_id == octets[8] * 16777216 + octets[9] * 65536 + octets[10] * 256
                + octets[11]
            &&& parsed_options(octets.subrange(12, octets[1] as int), Map::empty()) == Ok::<
                _,
                UdpNotifPacketParsingError,
            >(packet.options)
            &&& packet.payload == octets.subrange(octets[1] as int, taken)
        },
{
}

/// Why octets are not read as a packet, in the order in which they are looked at.
pub proof fn lemma_reading_errors(octets: Seq<u8>)
    ensures
        ({
            let r = parsed_packet(octets);
            let eof = Err::<(PacketModel, int), _>(UdpNotifPacketParsingError::Eof);
            let version_fits = octets.len() >= 1 && octets[0] / 32 == 1;
            let header_fits = version_fits && octets.len() >= 2 && octets[1] >= 12;
            let lengths_fit = header_fits && octets.len() >= 4 && octets[1] <= octets[2] * 256
                + octets[3];
            &&& octets.len() == 0 ==> r == eof
            &&& octets.len() >= 1 && octets[0] / 32 != 1 ==> r == Err::<(PacketModel, int), _>(
                UdpNotifPacketParsingError::InvalidVersion((octets[0] / 32) as u8),
            )
            &&& version_fits && octets.len() < 2 ==> r == eof
            &&& version_fits && octets.len() >= 2 && octets[1] < 12 ==> r == Err::<
                (PacketModel, int),
                _,
            >(UdpNotifPacketParsingError::InvalidHeaderLength(octets[1]))
            &&& header_fits && octets.len() < 4 ==> r == eof
            &&& header_fits && octets.len() >= 4 && octets[2] * 256 + octets[3] < octets[1] ==> r
                == Err::<(PacketModel, int), _>(
                UdpNotifPacketParsingError::InvalidMessageLength(
                    (octets[2] * 256 + octets[3]) as u16,
                ),
            )
            &&& lengths_fit && octets.len() < octets[1] ==> r == eof
            &&& lengths_fit && octets.len() >= octets[1] ==> match parsed_options(
                octets.subrange(12, octets[1] as int),
                Map::empty(),
            ) {
                Err(error) => r == Err::<(PacketModel, int), _>(error),
                Ok(_) => octets.len() < octets[2] * 256 + octets[3] ==> r == eof,
            }
        }),
{
}

/// Options are read one after the other: an option adds its value under its code
/// to those in front of it, or takes the place of the one with the same code, and
/// reading goes on behind it.
pub proof fn lemma_options_read_in_turn(
    before: Map<u8, OptionModel>,
    code: u8,
    value: Seq<u8>,
    rest: Seq<u8>,
)
    requires
        value.len() <= 253,
        code == 1 ==> value.len() == 2,
    ensures
        parsed_options(Seq::empty(), before) == Ok::<_, UdpNotifPacketParsingError>(before),
        parsed_options(seq![code, (2 + value.len()) as u8] + value + rest, before)
            == parsed_options(
            rest,
            before.insert(
                code,
                if code == 1 {
                    OptionModel::Segment {
                        number: ((value[0] * 256 + value[1]) / 2) as u16,
                        last: value[1] % 2 == 1,
                    }
                } else if code == 2 {
                    OptionModel::PrivateEncoding(value)
                } else {
                    OptionModel::Unknown { typ: code, value }
                },
            ),
        ),
{
    let octets = seq![code, (2 + value.len()) as u8] + value + rest;
    assert(octets[0] == code && octets[1] == 2 + value.len());
    assert(octets.subrange(2, octets[1] as int) =~= value);
    assert(octets.skip(octets[1] as int) =~= rest);
}

/// An option is not read where its length is missing or leaves no room for code
/// and length, where a segmentation option has another length than four, or where
/// the octets do not reach.
pub proof fn lemma_option_errors(before: Map<u8, OptionModel>, octets: Seq<u8>)
    requires
        octets.len() > 0,
    ensures
        ({
            let r = parsed_options(octets, before);
            let too_short = octets.len() >= 2 && (octets[1] < 2 || octets[0] == 1 && octets[1]
                != 4);
            &&& octets.len() == 1 ==> r == Err::<Map<u8, OptionModel>, _>(
                UdpNotifPacketParsingError::Eof,
            )
            &&& too_short ==> r == Err::<Map<u8, OptionModel>, _>(
                UdpNotifPacketParsingError::InvalidOptionLength(octets[1]),
            )
            &&& octets.len() >= 2 && !too_short && octets.len() < octets[1] ==> r == Err::<
                Map<u8, OptionModel>,
                _,
            >(UdpNotifPacketParsingError::Eof)
        }),
{
}

} // verus!
