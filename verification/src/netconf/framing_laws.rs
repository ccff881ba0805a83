//! What each sequence of octets is read as, and what is written, octet by octet.
use crate::decimal::{
    all_digits, is_digit, lemma_numeral_reads_back, lemma_u32_numeral_len, numeral, numeral_chars,
    parsed_usize, IntErrorKind,
};
use crate::netconf::codec::{
    decodes, encodes, readable, Capability, FramingError, Hello, NetConfMessage, NetconfVersion,
    ParsingError, SerializationError, SshCodec, SshCodecError,
};
use crate::netconf::framing::{
    ahead, chunk, chunk_header, drain, frame_step, hello_terminator, lemma_chunk_ahead,
    lemma_digits_are_utf8, lemma_first_occurrence, lemma_first_occurrence_at, lemma_newline_at,
    lemma_newline_between, lemma_resumed_search, message_terminator, occurs_at, scan_start,
    scanned_in_vain, sized_chunk_ahead, CodecState, Drained, Fault, Outcome, Step,
    MAX_CHUNK_SIZE_LEN,
};
use crate::octets::octets;
use bytes::BytesMut;
use vstd::prelude::*;
use vstd::utf8::{decode_utf8, encode_utf8, valid_utf8};

verus! {

/// A new codec awaits the hello, holds nothing, and allows messages of the given
/// size; by default of sixteen mebibytes. It can read anything.
pub proof fn lemma_new_codec(max: usize, codec: SshCodec, default: SshCodec, src: Seq<u8>)
    requires
        call_ensures(SshCodec::with_max_message_size, (max,), codec),
        call_ensures(SshCodec::new, (), default),
    ensures
        codec@.in_hello && default@.in_hello,
        codec@.buffered.len() == 0 && default@.buffered.len() == 0,
        codec@.hello_scanned == 0 && default@.hello_scanned == 0,
        codec@.max == max,
        default@.max == 16777216,
        src.len() <= isize::MAX ==> readable(codec@, src) && readable(default@, src),
        scanned_in_vain(codec@, src) && scanned_in_vain(default@, src),
{
}

/// What an attempt left can be read again, with whatever arrives behind it, as
/// long as it fits into memory.
pub proof fn lemma_stays_readable(state: CodecState, src: Seq<u8>, more: Seq<u8>)
    requires
        frame_step(state, src).outcome is Wait,
        state.hello_scanned == 0 || readable(state, src),
        frame_step(state, src).state.buffered.len() + frame_step(state, src).rest.len()
            + more.len() <= isize::MAX,
    ensures
        readable(frame_step(state, src).state, frame_step(state, src).rest + more),
{
}

/// Where the end of the hello stands first: it is told from what precedes it by its
/// six octets.
pub open spec fn hello_ends_at(src: Seq<u8>, at: int) -> bool {
    &&& 0 <= at
    &&& at + 6 <= src.len()
    &&& src.subrange(at, at + 6) == seq![93u8, 93, 62, 93, 93, 62]
    &&& forall|i: int|
        0 <= i < at ==> #[trigger] src.subrange(i, i + 6) != seq![93u8, 93, 62, 93, 93, 62]
}

/// The end of the hello is not there.
pub open spec fn hello_does_not_end(src: Seq<u8>) -> bool {
    forall|i: int|
        0 <= i <= src.len() - 6 ==> #[trigger] src.subrange(i, i + 6) != seq![
            93u8,
            93,
            62,
            93,
            93,
            62,
        ]
}

proof fn lemma_occurs(src: Seq<u8>, at: int)
    requires
        0 <= at,
        at + 6 <= src.len(),
    ensures
        occurs_at(src, hello_terminator(), at) <==> src.subrange(at, at + 6) == seq![
            93u8,
            93,
            62,
            93,
            93,
            62,
        ],
{
    let end = seq![93u8, 93, 62, 93, 93, 62];
    let here = src.subrange(at, at + 6);
    assert(hello_terminator() =~= end);
    if occurs_at(src, hello_terminator(), at) {
        assert forall|k: int| 0 <= k < 6 implies here[k] == end[k] by {
            assert(hello_terminator()[k] == src[at + k]);
        }
        assert(here =~= end);
    }
    if here == end {
        assert forall|k: int| 0 <= k < hello_terminator().len() implies #[trigger] hello_terminator()[k]
            == src[at + k] by {
            assert(here[k] == end[k]);
        }
    }
}

/// A hello is complete with its first `]]>]]>`: what stands in front of it is the
/// hello, and what follows it is left. One that is longer than allowed is refused,
/// and stays.
pub proof fn lemma_hello_ends(state: CodecState, src: Seq<u8>, at: int)
    requires
        state.in_hello,
        scanned_in_vain(state, src),
        hello_ends_at(src, at),
    ensures
        at <= state.max ==> frame_step(state, src) == (Step {
            outcome: Outcome::Hello(src.take(at)),
            state: (CodecState { hello_scanned: 0, ..state }),
            rest: src.skip(at + 6),
        }),
        at > state.max ==> frame_step(state, src) == (Step {
            outcome: Outcome::Fail(Fault::HelloTooLarge(state.max)),
            state,
            rest: src,
        }),
{
    let pattern = hello_terminator();
    lemma_occurs(src, at);
    assert forall|i: int| 0 <= i < at implies !#[trigger] occurs_at(src, pattern, i) by {
        lemma_occurs(src, i);
        assert(src.subrange(i, i + 6) != seq![93u8, 93, 62, 93, 93, 62]);
    }
    lemma_first_occurrence_at(src, pattern, 0, at);
    lemma_resumed_search(state, src);
}

/// While the end of the hello is not there, the codec waits and keeps everything;
/// once there are more octets than allowed, it refuses them.
pub proof fn lemma_hello_goes_on(state: CodecState, src: Seq<u8>)
    requires
        state.in_hello,
        scanned_in_vain(state, src),
        hello_does_not_end(src),
    ensures
        ({
            let step = frame_step(state, src);
            &&& step.rest == src
            &&& src.len() <= state.max ==> {
                &&& step.outcome is Wait
                &&& step.state.in_hello
                &&& step.state.buffered == state.buffered
                &&& step.state.max == state.max
                &&& scanned_in_vain(step.state, src)
            }
            &&& src.len() > state.max ==> {
                &&& step.outcome == Outcome::Fail(Fault::HelloTooLarge(state.max))
                &&& step.state == state
            }
        }),
{
    let pattern = hello_terminator();
    assert forall|i: int| 0 <= i implies !#[trigger] occurs_at(src, pattern, i) by {
        if i + 6 <= src.len() {
            lemma_occurs(src, i);
            assert(src.subrange(i, i + 6) != seq![93u8, 93, 62, 93, 93, 62]);
        }
    }
    lemma_first_occurrence(src, pattern, scan_start(state.hello_scanned));
}

/// What stands at the front past the hello is left alone by an error, and by an
/// attempt that has to wait.
pub open spec fn refused(buffered: Seq<u8>, src: Seq<u8>, max: nat, fault: Fault) -> bool {
    drain(buffered, src, max) == (Drained { outcome: Outcome::Fail(fault), buffered, rest: src })
}

/// The codec waits for more octets and leaves those that are there.
pub open spec fn awaited(buffered: Seq<u8>, src: Seq<u8>, max: nat) -> bool {
    drain(buffered, src, max) == (Drained { outcome: Outcome::Wait, buffered, rest: src })
}

/// Past the hello, reading only changes what is buffered.
pub proof fn lemma_reading_messages(state: CodecState, src: Seq<u8>)
    requires
        !state.in_hello,
    ensures
        ({
            let step = frame_step(state, src);
            let drained = drain(state.buffered, src, state.max);
            &&& step.outcome == drained.outcome
            &&& step.rest == drained.rest
            &&& step.state.buffered == drained.buffered
            &&& !step.state.in_hello
            &&& step.state.max == state.max
            &&& step.state.hello_scanned == state.hello_scanned
        }),
{
}

/// A message ends with `\n##\n`: what is buffered is the message, and the
/// terminator stays in front.
pub proof fn lemma_message_ends(buffered: Seq<u8>, rest: Seq<u8>, max: nat)
    ensures
        ({
            let src = seq![10u8, 35, 35, 10] + rest;
            drain(buffered, src, max) == (Drained {
                outcome: Outcome::Message(buffered),
                buffered: Seq::empty(),
                rest: src,
            })
        }),
{
    let src = seq![10u8, 35, 35, 10] + rest;
    assert(src[0] == 10 && src[1] == 35 && src[2] == 35 && src[3] == 10);
}

/// A complete chunk, `\n#<size>\n<data>`, adds its data to what is buffered, and
/// reading goes on behind it.
pub proof fn lemma_chunk_taken(buffered: Seq<u8>, data: Seq<u8>, rest: Seq<u8>, max: nat)
    requires
        1 <= data.len() <= 4294967295,
        buffered.len() + data.len() <= max <= usize::MAX,
    ensures
        drain(
            buffered,
            seq![10u8, 35] + numeral(data.len()) + seq![10u8] + data + rest,
            max,
        ) == drain(buffered + data, rest, max),
{
    let src = seq![10u8, 35] + numeral(data.len()) + seq![10u8] + data + rest;
    let start = chunk_header(data.len()).len() as int;
    let end = chunk(data).len() as int;
    assert(src =~= chunk(data) + rest);
    lemma_chunk_ahead(buffered.len(), data, rest, max);
    assert(src.subrange(start, end) =~= data);
    assert(src.skip(end) =~= rest);
}

proof fn lemma_size_field(buffered: nat, field: Seq<u8>, rest: Seq<u8>, max: nat)
    requires
        field.len() <= 10,
        !field.contains(10u8),
        field.len() > 0 ==> field[0] != 35,
    ensures
        ({
            let src = seq![10u8, 35] + field + seq![10u8] + rest;
            let lf = 2 + field.len() as int;
            &&& ahead(buffered, src, max) == sized_chunk_ahead(buffered, src, lf, max)
            &&& src.subrange(2, lf) == field
            &&& src.len() == lf + 1 + rest.len()
        }),
{
    let src = seq![10u8, 35] + field + seq![10u8] + rest;
    let lf = 2 + field.len() as int;
    assert(src[0] == 10 && src[1] == 35);
    assert forall|i: int| 2 <= i < lf implies src[i] == field[i - 2] && src[i] != 10 by {
        if field[i - 2] == 10 {
            assert(field.contains(10u8));
        }
    }
    assert(src[lf] == 10);
    let window = if src.len() - 2 < MAX_CHUNK_SIZE_LEN + 1 {
        src.len() - 2
    } else {
        MAX_CHUNK_SIZE_LEN + 1
    };
    lemma_newline_at(src, 2, 2 + window, lf);
    assert(src.subrange(2, lf) =~= field);
}

proof fn lemma_numeral_field(n: nat)
    requires
        n > 0,
        numeral(n).len() <= 10,
    ensures
        !numeral(n).contains(10u8),
        numeral(n)[0] != 35,
        numeral(n)[0] != 48,
        numeral(n).len() > 0,
        valid_utf8(numeral(n)),
        n <= usize::MAX ==> parsed_usize(numeral(n)) == Ok::<usize, IntErrorKind>(n as usize),
{
    lemma_numeral_reads_back(n);
    lemma_digits_are_utf8(numeral(n));
    assert(is_digit(numeral(n)[0]));
    if numeral(n).contains(10u8) {
        let i = choose|i: int| 0 <= i < numeral(n).len() && numeral(n)[i] == 10;
        assert(is_digit(numeral(n)[i]));
    }
}

/// A chunk of which some octets are missing is waited for.
pub proof fn lemma_partial_chunk_awaited(
    buffered: Seq<u8>,
    data: Seq<u8>,
    there: int,
    max: nat,
)
    requires
        1 <= data.len() <= 4294967295,
        buffered.len() + data.len() <= max <= usize::MAX,
        0 <= there < (seq![10u8, 35] + numeral(data.len()) + seq![10u8] + data).len(),
    ensures
        awaited(
            buffered,
            (seq![10u8, 35] + numeral(data.len()) + seq![10u8] + data).take(there),
            max,
        ),
{
    let size = data.len();
    let digits = numeral(size);
    let whole = seq![10u8, 35] + digits + seq![10u8] + data;
    let src = whole.take(there);
    lemma_u32_numeral_len(size);
    lemma_numeral_field(size);
    if there >= 2 {
        assert(src[0] == whole[0] && src[1] == whole[1]);
        assert(src[0] == 10 && src[1] == 35);
    }
    if there >= 3 {
        assert(src[2] == whole[2]);
        assert(whole[2] == digits[0]);
        if there <= 2 + digits.len() {
            assert forall|i: int| 2 <= i < there implies src[i] != 10 by {
                assert(src[i] == digits[i - 2]);
                if digits[i - 2] == 10 {
                    assert(digits.contains(10u8));
                }
            }
            lemma_newline_between(src, 2, there);
        } else {
            let rest = data.take(there - 3 - digits.len());
            assert(src =~= seq![10u8, 35] + digits + seq![10u8] + rest);
            lemma_size_field(buffered.len(), digits, rest, max);
        }
    }
}

/// A terminator of which some octets are missing is waited for.
pub proof fn lemma_partial_terminator_awaited(buffered: Seq<u8>, there: int, max: nat)
    requires
        0 <= there < 4,
    ensures
        awaited(buffered, seq![10u8, 35, 35, 10].take(there), max),
{
    let src = seq![10u8, 35, 35, 10].take(there);
    if there >= 2 {
        assert(src[0] == 10 && src[1] == 35);
    }
    if there >= 3 {
        assert(src[2] == 35);
    }
}

/// What starts with neither a chunk nor a terminator is refused.
pub proof fn lemma_other_start_refused(buffered: Seq<u8>, src: Seq<u8>, max: nat)
    requires
        src.len() >= 2,
        src[0] != 10 || src[1] != 35,
    ensures
        refused(buffered, src, max, Fault::NoChunkStart),
{
}

/// `\n##` is refused where no newline follows.
pub proof fn lemma_other_terminator_refused(buffered: Seq<u8>, src: Seq<u8>, max: nat)
    requires
        src.len() >= 4,
        src[0] == 10 && src[1] == 35 && src[2] == 35,
        src[3] != 10,
    ensures
        refused(buffered, src, max, Fault::BadTerminator),
{
}

/// A chunk size without a newline among its first eleven octets is refused.
pub proof fn lemma_endless_size_refused(buffered: Seq<u8>, src: Seq<u8>, max: nat)
    requires
        src.len() >= 13,
        src[0] == 10 && src[1] == 35 && src[2] != 35,
        forall|i: int| 2 <= i < 13 ==> src[i] != 10,
    ensures
        refused(buffered, src, max, Fault::UnterminatedSize),
{
    lemma_newline_between(src, 2, 13);
}

/// A chunk size that may still end is waited for.
pub proof fn lemma_open_size_awaited(buffered: Seq<u8>, src: Seq<u8>, max: nat)
    requires
        3 <= src.len() < 13,
        src[0] == 10 && src[1] == 35 && src[2] != 35,
        forall|i: int| 2 <= i < src.len() ==> src[i] != 10,
    ensures
        awaited(buffered, src, max),
{
    lemma_newline_between(src, 2, src.len() as int);
}

/// What is wrong with a chunk size that is no number without leading zeros.
pub proof fn lemma_bad_size_reported(
    buffered: Seq<u8>,
    field: Seq<u8>,
    rest: Seq<u8>,
    max: nat,
)
    requires
        field.len() <= 10,
        !field.contains(10u8),
        field.len() > 0 ==> field[0] != 35,
    ensures
        ({
            let src = seq![10u8, 35] + field + seq![10u8] + rest;
            let zero = field.len() == 0 || field[0] == 48;
            &&& !valid_utf8(field) ==> refused(buffered, src, max, Fault::SizeNotUtf8(field))
            &&& valid_utf8(field) && zero ==> refused(
                buffered,
                src,
                max,
                Fault::BadSizeText(decode_utf8(field)),
            )
            &&& valid_utf8(field) && !zero && (exists|i: int|
                0 <= i < field.len() && !(48 <= #[trigger] field[i] <= 57)) ==> refused(
                buffered,
                src,
                max,
                Fault::SizeNotNumber(IntErrorKind::InvalidDigit),
            )
        }),
{
    lemma_size_field(buffered.len(), field, rest, max);
    if exists|i: int| 0 <= i < field.len() && !(48 <= #[trigger] field[i] <= 57) {
        let i = choose|i: int| 0 <= i < field.len() && !(48 <= #[trigger] field[i] <= 57);
        assert(!is_digit(field[i]));
        assert(!all_digits(field));
    }
}

/// A chunk size above what the RFC allows is refused, and so is one that makes the
/// message longer than allowed, whatever of its data is there.
pub proof fn lemma_large_size_refused(buffered: Seq<u8>, size: nat, rest: Seq<u8>, max: nat)
    requires
        1 <= size <= usize::MAX,
        numeral(size).len() <= 10,
        max < usize::MAX,
    ensures
        ({
            let src = seq![10u8, 35] + numeral(size) + seq![10u8] + rest;
            &&& size > 4294967295 ==> refused(buffered, src, max, Fault::SizeOutOfRange(size))
            &&& size <= 4294967295 && buffered.len() + size > max ==> refused(
                buffered,
                src,
                max,
                Fault::MessageTooLarge(max),
            )
        }),
{
    lemma_numeral_field(size);
    lemma_size_field(buffered.len(), numeral(size), rest, max);
}

/// A peer that announces base:1.1, anywhere among its capabilities, is accepted, and
/// the hello phase is over. Any other is refused, and the hello is still awaited.
/// Either way the hello is taken off.
pub proof fn lemma_hello_by_capabilities<
    M,
    H: Fn(BytesMut) -> Result<Hello, ParsingError>,
    P: Fn(BytesMut) -> Result<NetConfMessage<M>, ParsingError>,
>(
    state: CodecState,
    src: Seq<u8>,
    at: int,
    hello: Hello,
    parse_hello: H,
    parse_message: P,
    r: Result<Option<NetConfMessage<M>>, SshCodecError>,
    after: CodecState,
    rest: Seq<u8>,
)
    requires
        state.in_hello,
        scanned_in_vain(state, src),
        hello_ends_at(src, at),
        at <= state.max,
        forall|data: BytesMut, parsed: Result<Hello, ParsingError>|
            octets(data) == src.take(at) && #[trigger] call_ensures(
                parse_hello,
                (data,),
                parsed,
            ) ==> parsed == Ok::<Hello, ParsingError>(hello),
        decodes(state, src, parse_hello, parse_message, r, after, rest),
    ensures
        rest == src.skip(at + 6),
        forall|i: int|
            0 <= i < hello.capabilities@.len() && #[trigger] hello.capabilities@[i]
                == Capability::NetconfBase(NetconfVersion::V1_1) ==> {
                &&& r == Ok::<Option<NetConfMessage<M>>, SshCodecError>(
                    Some(NetConfMessage::Hello(hello)),
                )
                &&& !after.in_hello
                &&& after.buffered == state.buffered
                &&& after.max == state.max
                &&& after.hello_scanned == 0
            },
        (forall|i: int|
            0 <= i < hello.capabilities@.len() ==> #[trigger] hello.capabilities@[i]
                != Capability::NetconfBase(NetconfVersion::V1_1)) ==> {
            &&& r == Err::<Option<NetConfMessage<M>>, SshCodecError>(
                SshCodecError::IO(FramingError::MissingBaseCapability),
            )
            &&& after.in_hello
            &&& after.buffered == state.buffered
            &&& after.max == state.max
            &&& after.hello_scanned == 0
        },
{
    lemma_hello_ends(state, src, at);
}

/// Whether a peer is accepted does not depend on the order of its capabilities, nor
/// on what else it announces.
pub proof fn lemma_base_capability(hello: Hello, r: bool)
    requires
        call_ensures(Hello::supports_base_1_1, (&hello,), r),
    ensures
        r <==> exists|i: int|
            0 <= i < hello.capabilities@.len() && #[trigger] hello.capabilities@[i]
                == Capability::NetconfBase(NetconfVersion::V1_1),
        r <==> hello.capabilities@.contains(Capability::NetconfBase(NetconfVersion::V1_1)),
{
}

/// A hello that is no NETCONF message is reported as the parser has it. It is taken
/// off, and another one is awaited.
pub proof fn lemma_unreadable_hello<
    M,
    H: Fn(BytesMut) -> Result<Hello, ParsingError>,
    P: Fn(BytesMut) -> Result<NetConfMessage<M>, ParsingError>,
>(
    state: CodecState,
    src: Seq<u8>,
    at: int,
    error: ParsingError,
    parse_hello: H,
    parse_message: P,
    r: Result<Option<NetConfMessage<M>>, SshCodecError>,
    after: CodecState,
    rest: Seq<u8>,
)
    requires
        state.in_hello,
        scanned_in_vain(state, src),
        hello_ends_at(src, at),
        at <= state.max,
        forall|data: BytesMut, parsed: Result<Hello, ParsingError>|
            octets(data) == src.take(at) && #[trigger] call_ensures(
                parse_hello,
                (data,),
                parsed,
            ) ==> parsed == Err::<Hello, ParsingError>(error),
        decodes(state, src, parse_hello, parse_message, r, after, rest),
    ensures
        r == Err::<Option<NetConfMessage<M>>, SshCodecError>(SshCodecError::Parsing(error)),
        rest == src.skip(at + 6),
        after == (CodecState { hello_scanned: 0, ..state }),
{
    lemma_hello_ends(state, src, at);
}

/// A message that is complete is what its parser makes of the data of its chunks. A
/// message that was read is taken off with its terminator; one that could not be
/// read leaves the terminator in front. Nothing stays buffered.
pub proof fn lemma_message_by_parser<
    M,
    H: Fn(BytesMut) -> Result<Hello, ParsingError>,
    P: Fn(BytesMut) -> Result<NetConfMessage<M>, ParsingError>,
>(
    state: CodecState,
    src: Seq<u8>,
    more: Seq<u8>,
    made: Result<NetConfMessage<M>, ParsingError>,
    parse_hello: H,
    parse_message: P,
    r: Result<Option<NetConfMessage<M>>, SshCodecError>,
    after: CodecState,
    rest: Seq<u8>,
)
    requires
        !state.in_hello,
        src == seq![10u8, 35, 35, 10] + more,
        forall|data: BytesMut, parsed: Result<NetConfMessage<M>, ParsingError>|
            octets(data) == state.buffered && #[trigger] call_ensures(
                parse_message,
                (data,),
                parsed,
            ) ==> parsed == made,
        decodes(state, src, parse_hello, parse_message, r, after, rest),
    ensures
        after == (CodecState { buffered: Seq::empty(), ..state }),
        match made {
            Ok(message) => {
                &&& r == Ok::<Option<NetConfMessage<M>>, SshCodecError>(Some(message))
                &&& rest == more
            },
            Err(error) => {
                &&& r == Err::<Option<NetConfMessage<M>>, SshCodecError>(
                    SshCodecError::Parsing(error),
                )
                &&& rest == src
            },
        },
{
    lemma_message_ends(state.buffered, more, state.max);
    assert(src.skip(4) =~= more);
}

/// A call that has to wait gives nothing, and one whose octets are at fault reports
/// that fault; both keep what the attempt left.
pub proof fn lemma_call_without_message<
    M,
    H: Fn(BytesMut) -> Result<Hello, ParsingError>,
    P: Fn(BytesMut) -> Result<NetConfMessage<M>, ParsingError>,
>(
    state: CodecState,
    src: Seq<u8>,
    parse_hello: H,
    parse_message: P,
    r: Result<Option<NetConfMessage<M>>, SshCodecError>,
    after: CodecState,
    rest: Seq<u8>,
)
    requires
        decodes(state, src, parse_hello, parse_message, r, after, rest),
        frame_step(state, src).outcome is Wait || frame_step(state, src).outcome is Fail,
    ensures
        after == frame_step(state, src).state,
        rest == frame_step(state, src).rest,
        frame_step(state, src).outcome is Wait ==> r matches Ok(None),
        frame_step(state, src).outcome matches Outcome::Fail(fault) ==> (r matches Err(error)
            && error.reports(fault)),
{
}

/// Which error reports a fault.
pub proof fn lemma_faults_reported(error: SshCodecError, fault: Fault)
    requires
        error.reports(fault),
    ensures
        match fault {
            Fault::HelloTooLarge(max) => error matches SshCodecError::IO(
                FramingError::HelloTooLarge { max_message_size },
            ) && max_message_size == max,
            Fault::MissingBase11 => error == SshCodecError::IO(FramingError::MissingBaseCapability),
            Fault::NoChunkStart => error == SshCodecError::IO(FramingError::MissingChunkStart),
            Fault::BadTerminator => error == SshCodecError::IO(FramingError::MalformedTerminator),
            Fault::UnterminatedSize => error == SshCodecError::IO(
                FramingError::UnterminatedChunkSize,
            ),
            Fault::SizeNotUtf8(bytes) => error matches SshCodecError::Utf(utf) && utf.valid_up_to
                < bytes.len() && valid_utf8(bytes.take(utf.valid_up_to as int)) && !valid_utf8(
                bytes.take(bytes.len() as int),
            ),
            Fault::BadSizeText(text) => error matches SshCodecError::IO(
                FramingError::InvalidChunkSizeText { text: said },
            ) && said@ == text,
            Fault::SizeNotNumber(kind) => error == SshCodecError::Int(kind),
            Fault::SizeOutOfRange(size) => error matches SshCodecError::IO(
                FramingError::InvalidChunkSize { chunk_size },
            ) && chunk_size == size,
            Fault::MessageTooLarge(max) => error matches SshCodecError::IO(
                FramingError::MessageTooLarge { max_message_size },
            ) && max_message_size == max,
        },
{
}

/// What is written for a message: a hello behind the XML declaration and in front of
/// `]]>]]>`, any other message as one chunk in front of `\n##\n`. What was there
/// stays in front, and a message that has no XML form changes nothing.
pub proof fn lemma_written_frames<M>(
    before: Seq<u8>,
    item: NetConfMessage<M>,
    serialized: Result<Vec<u8>, SerializationError>,
    r: Result<(), SshCodecError>,
    after: Seq<u8>,
)
    requires
        encodes(before, item, serialized, r, after),
    ensures
        match serialized {
            Ok(xml) => {
                &&& r is Ok
                &&& item is Hello ==> after == before + encode_utf8(
                    "<?xml version=\"1.0\" encoding=\"utf-8\"?>"@,
                ) + xml@ + seq![93u8, 93, 62, 93, 93, 62]
                &&& item is Other ==> after == before + seq![10u8, 35] + numeral(xml@.len())
                    + seq![10u8] + xml@ + seq![10u8, 35, 35, 10]
            },
            Err(error) => {
                &&& r == Err::<(), SshCodecError>(SshCodecError::Serialization(error))
                &&& after == before
            },
        },
{
    if let Ok(xml) = serialized {
        assert(hello_terminator() =~= seq![93u8, 93, 62, 93, 93, 62]);
        assert(message_terminator() =~= seq![10u8, 35, 35, 10]);
        if item is Hello {
            assert(after =~= before + encode_utf8("<?xml version=\"1.0\" encoding=\"utf-8\"?>"@)
                + xml@ + seq![93u8, 93, 62, 93, 93, 62]);
        } else {
            assert(after =~= before + seq![10u8, 35] + numeral(xml@.len()) + seq![10u8] + xml@
                + seq![10u8, 35, 35, 10]);
        }
    }
}

/// The sentences that report broken framing rules.
pub proof fn lemma_framing_sentences(error: FramingError, text: String)
    requires
        call_ensures(FramingError::message, (&error,), text),
    ensures
        match error {
            FramingError::HelloTooLarge { max_message_size } => text@
                == "Hello message exceeds maximum allowed size of "@ + numeral_chars(
                max_message_size as nat,
            ) + " bytes"@,
            FramingError::MissingBaseCapability => text@
                == "Hello message does not contain required base:1.1 capability, only NETCONF 1.1 as per RFC 6242 is supported"@,
            FramingError::MissingChunkStart => text@
                == "Expected chunk start sequence or message terminator"@,
            FramingError::MalformedTerminator => text@ == "Malformed message terminator"@,
            FramingError::UnterminatedChunkSize => text@
                == "Chunk size is not properly terminated with a newline"@,
            FramingError::InvalidChunkSizeText { text: field } => text@ == "Invalid chunk size: `"@
                + field@ + "`"@,
            FramingError::InvalidChunkSize { chunk_size } => text@ == "Invalid chunk size: "@
                + numeral_chars(chunk_size as nat),
            FramingError::MessageTooLarge { max_message_size } => text@
                == "Reassembled message exceeds maximum allowed size of "@ + numeral_chars(
                max_message_size as nat,
            ) + " bytes"@,
        },
{
}

} // verus!
