//! NETCONF framing over SSH in accordance with
//! [RFC 6242](https://datatracker.ietf.org/doc/html/rfc6242), as functions on
//! octets.
//!
//! Both peers first send a hello that ends in `]]>]]>`. Each later message is a
//! run of chunks, `\n#<size>\n<data>`, and ends in `\n##\n`.
use crate::decimal::{
    all_digits, is_digit, lemma_numeral_reads_back, lemma_u32_numeral_len, numeral, parsed_usize,
    IntErrorKind,
};
use vstd::prelude::*;
use vstd::utf8::{decode_utf8, encode_utf8, valid_utf8};

verus! {

/// Maximum chunk size as per RFC 6242
pub const MAX_CHUNK_SIZE: usize = 4294967295;

/// Maximum length of chunk size in characters
pub const MAX_CHUNK_SIZE_LEN: usize = 10;

/// Number of octets in the terminator of a hello.
pub const HELLO_TERMINATOR_LEN: usize = 6;

/// Number of octets in the terminator of a chunked message.
pub const MESSAGE_TERMINATOR_LEN: usize = 4;

/// `]]>]]>`
pub open spec fn hello_terminator() -> Seq<u8> {
    seq![93u8, 93, 62, 93, 93, 62]
}

/// `\n##\n`
pub open spec fn message_terminator() -> Seq<u8> {
    seq![10u8, 35, 35, 10]
}

/// The header of a chunk of `size` octets: `\n#<size>\n`
pub open spec fn chunk_header(size: nat) -> Seq<u8> {
    seq![10u8, 35] + numeral(size) + seq![10u8]
}

/// One chunk that carries `data`.
pub open spec fn chunk(data: Seq<u8>) -> Seq<u8> {
    chunk_header(data.len()) + data
}

/// The chunks that carry `parts`, one after the other.
pub open spec fn chunks(parts: Seq<Seq<u8>>) -> Seq<u8>
    decreases parts.len(),
{
    if parts.len() == 0 {
        Seq::empty()
    } else {
        chunk(parts[0]) + chunks(parts.skip(1))
    }
}

/// The data that `parts` carry together.
pub open spec fn joined(parts: Seq<Seq<u8>>) -> Seq<u8>
    decreases parts.len(),
{
    if parts.len() == 0 {
        Seq::empty()
    } else {
        parts[0] + joined(parts.skip(1))
    }
}

/// What is wrong with the octets that a peer sent.
pub enum Fault {
    /// A hello is longer than the given maximum.
    HelloTooLarge(nat),
    /// A hello lacks the base:1.1 capability.
    MissingBase11,
    /// Neither a chunk nor the message terminator starts here.
    NoChunkStart,
    /// `\n##` goes on with something else than a newline.
    BadTerminator,
    /// The chunk size goes on for too long.
    UnterminatedSize,
    /// The chunk size, the given octets, is not UTF-8.
    SizeNotUtf8(Seq<u8>),
    /// The chunk size, the given text, is empty or starts with a zero.
    BadSizeText(Seq<char>),
    /// The chunk size is not a number.
    SizeNotNumber(IntErrorKind),
    /// The chunk size is zero or above what RFC 6242 allows.
    SizeOutOfRange(nat),
    /// A message is longer than the given maximum.
    MessageTooLarge(nat),
}

/// Whether `pattern` stands at `at` in `text`.
pub open spec fn occurs_at(text: Seq<u8>, pattern: Seq<u8>, at: int) -> bool {
    &&& 0 <= at
    &&& at + pattern.len() <= text.len()
    &&& forall|k: int| 0 <= k < pattern.len() ==> #[trigger] pattern[k] == text[at + k]
}

/// Where `pattern` stands first in `text`, at or after `from`.
pub open spec fn first_occurrence(text: Seq<u8>, pattern: Seq<u8>, from: int) -> Option<int>
    decreases text.len() - from,
{
    if from + pattern.len() > text.len() {
        None
    } else if occurs_at(text, pattern, from) {
        Some(from)
    } else if from >= text.len() {
        None
    } else {
        first_occurrence(text, pattern, from + 1)
    }
}

/// Where the first newline stands in `text`, at or after `from` and before `to`.
pub open spec fn newline_between(text: Seq<u8>, from: int, to: int) -> Option<int>
    decreases to - from,
{
    if from >= to {
        None
    } else if text[from] == 10 {
        Some(from)
    } else {
        newline_between(text, from + 1, to)
    }
}

/// What the octets of a chunked message start with.
pub enum Ahead {
    /// Too few octets to tell, or a chunk that is not complete.
    NeedMore,
    /// The message terminator.
    Terminator,
    /// A complete chunk with its data from `start` to `end`.
    Chunk { start: int, end: int },
    /// Something that no peer may send.
    Faulty(Fault),
}

/// A sum as `usize::saturating_add` forms it.
pub open spec fn saturated(sum: int) -> int {
    if sum > usize::MAX {
        usize::MAX as int
    } else {
        sum
    }
}

/// What `src` starts with, where its chunk size ends at the newline at `lf`.
pub open spec fn sized_chunk_ahead(buffered: nat, src: Seq<u8>, lf: int, max: nat) -> Ahead {
    let field = src.subrange(2, lf);
    if !valid_utf8(field) {
        Ahead::Faulty(Fault::SizeNotUtf8(field))
    } else if field.len() == 0 || field[0] == 48 {
        Ahead::Faulty(Fault::BadSizeText(decode_utf8(field)))
    } else {
        match parsed_usize(field) {
            Err(kind) => Ahead::Faulty(Fault::SizeNotNumber(kind)),
            Ok(size) => if size == 0 || size > MAX_CHUNK_SIZE {
                Ahead::Faulty(Fault::SizeOutOfRange(size as nat))
            } else if saturated(buffered + size) > max {
                Ahead::Faulty(Fault::MessageTooLarge(max))
            } else if src.len() < lf + 1 + size {
                Ahead::NeedMore
            } else {
                Ahead::Chunk { start: lf + 1, end: lf + 1 + size }
            },
        }
    }
}

/// What `src` starts with, where a message of at most `max` octets is read and
/// `buffered` of them are there.
pub open spec fn ahead(buffered: nat, src: Seq<u8>, max: nat) -> Ahead {
    if src.len() < 2 {
        Ahead::NeedMore
    } else if src[0] != 10 || src[1] != 35 {
        Ahead::Faulty(Fault::NoChunkStart)
    } else if src.len() < 3 {
        Ahead::NeedMore
    } else if src[2] == 35 {
        if src.len() < 4 {
            Ahead::NeedMore
        } else if src[3] != 10 {
            Ahead::Faulty(Fault::BadTerminator)
        } else {
            Ahead::Terminator
        }
    } else {
        let window = if src.len() - 2 < MAX_CHUNK_SIZE_LEN + 1 {
            src.len() - 2
        } else {
            MAX_CHUNK_SIZE_LEN + 1
        };
        match newline_between(src, 2, 2 + window) {
            Some(lf) => sized_chunk_ahead(buffered, src, lf, max),
            None => if window > MAX_CHUNK_SIZE_LEN {
                Ahead::Faulty(Fault::UnterminatedSize)
            } else {
                Ahead::NeedMore
            },
        }
    }
}

/// How reading a frame ends.
pub enum Outcome {
    /// More octets are needed.
    Wait,
    /// A hello with this text is complete.
    Hello(Seq<u8>),
    /// A chunked message with this data is complete.
    Message(Seq<u8>),
    /// The octets are at fault.
    Fail(Fault),
}

/// The end of reading chunks: the outcome, the data that is buffered and the
/// octets that are left.
pub struct Drained {
    pub outcome: Outcome,
    pub buffered: Seq<u8>,
    pub rest: Seq<u8>,
}

/// Moves every complete chunk from the front of `src` to the end of `buffered`,
/// up to the message terminator, a fault or a chunk that is not complete. The
/// terminator stays in front.
pub open spec fn drain(buffered: Seq<u8>, src: Seq<u8>, max: nat) -> Drained
    decreases src.len(),
{
    match ahead(buffered.len(), src, max) {
        Ahead::NeedMore => Drained { outcome: Outcome::Wait, buffered, rest: src },
        Ahead::Faulty(fault) => Drained { outcome: Outcome::Fail(fault), buffered, rest: src },
        Ahead::Terminator => Drained {
            outcome: Outcome::Message(buffered),
            buffered: Seq::empty(),
            rest: src,
        },
        Ahead::Chunk { start, end } => if 0 <= start <= end <= src.len() && 0 < end {
            drain(buffered + src.subrange(start, end), src.skip(end), max)
        } else {
            Drained { outcome: Outcome::Wait, buffered, rest: src }
        },
    }
}

pub proof fn lemma_newline_between(text: Seq<u8>, from: int, to: int)
    requires
        0 <= from,
        to <= text.len(),
    ensures
        newline_between(text, from, to) matches Some(at) ==> {
            &&& from <= at < to
            &&& text[at] == 10
            &&& forall|i: int| from <= i < at ==> text[i] != 10
        },
        newline_between(text, from, to) is None ==> forall|i: int|
            from <= i < to ==> text[i] != 10,
    decreases to - from,
{
    if from < to && text[from] != 10 {
        lemma_newline_between(text, from + 1, to);
    }
}

pub proof fn lemma_newline_at(text: Seq<u8>, from: int, to: int, at: int)
    requires
        0 <= from <= at < to <= text.len(),
        text[at] == 10,
        forall|i: int| from <= i < at ==> text[i] != 10,
    ensures
        newline_between(text, from, to) == Some(at),
    decreases at - from,
{
    if from < at {
        lemma_newline_at(text, from + 1, to, at);
    }
}

/// A complete chunk lies within the octets and carries at least one of them.
pub proof fn lemma_ahead_chunk_bounds(buffered: nat, src: Seq<u8>, max: nat)
    ensures
        ahead(buffered, src, max) matches Ahead::Chunk { start, end } ==> {
            &&& 0 < start < end <= src.len()
            &&& max < usize::MAX ==> buffered + (end - start) <= max
        },
{
    if src.len() >= 3 {
        let window = if src.len() - 2 < MAX_CHUNK_SIZE_LEN + 1 {
            src.len() - 2
        } else {
            MAX_CHUNK_SIZE_LEN + 1
        };
        lemma_newline_between(src, 2, 2 + window);
    }
}

/// Once the octets at the front tell what they are, octets that arrive later do
/// not change it.
pub proof fn lemma_ahead_stable(buffered: nat, src: Seq<u8>, more: Seq<u8>, max: nat)
    requires
        !(ahead(buffered, src, max) is NeedMore),
    ensures
        ahead(buffered, src + more, max) == ahead(buffered, src, max),
{
    let whole = src + more;
    assert(whole[0] == src[0] && whole[1] == src[1]);
    if src[0] == 10 && src[1] == 35 {
        assert(whole[2] == src[2]);
        if src[2] != 35 {
            let window = if src.len() - 2 < MAX_CHUNK_SIZE_LEN + 1 {
                src.len() - 2
            } else {
                MAX_CHUNK_SIZE_LEN + 1
            };
            let whole_window = if whole.len() - 2 < MAX_CHUNK_SIZE_LEN + 1 {
                whole.len() - 2
            } else {
                MAX_CHUNK_SIZE_LEN + 1
            };
            lemma_newline_between(src, 2, 2 + window);
            lemma_newline_between(whole, 2, 2 + whole_window);
            assert forall|i: int| 0 <= i < src.len() implies whole[i] == src[i] by {}
            match newline_between(src, 2, 2 + window) {
                Some(lf) => {
                    lemma_newline_at(whole, 2, 2 + whole_window, lf);
                    assert(whole.subrange(2, lf) =~= src.subrange(2, lf));
                },
                None => {},
            }
        } else {
            assert(whole[3] == src[3]);
        }
    }
}

/// The chunks that are complete are read the same way whether or not the octets
/// behind them are there: reading `src`, and then what it left together with
/// `more`, comes to the same as reading both at once.
pub proof fn lemma_drain_in_pieces(buffered: Seq<u8>, src: Seq<u8>, more: Seq<u8>, max: nat)
    ensures
        ({
            let first = drain(buffered, src, max);
            let whole = drain(buffered, src + more, max);
            if first.outcome is Wait {
                whole == drain(first.buffered, first.rest + more, max)
            } else {
                whole == (Drained { rest: first.rest + more, ..first })
            }
        }),
    decreases src.len(),
{
    match ahead(buffered.len(), src, max) {
        Ahead::NeedMore => {},
        Ahead::Chunk { start, end } => {
            lemma_ahead_stable(buffered.len(), src, more, max);
            lemma_ahead_chunk_bounds(buffered.len(), src, max);
            lemma_drain_in_pieces(
                buffered + src.subrange(start, end),
                src.skip(end),
                more,
                max,
            );
            assert((src + more).subrange(start, end) =~= src.subrange(start, end));
            assert((src + more).skip(end) =~= src.skip(end) + more);
        },
        _ => {
            lemma_ahead_stable(buffered.len(), src, more, max);
        },
    }
}

/// Reading chunks never buffers more than the maximum message size.
pub proof fn lemma_drain_bounded(buffered: Seq<u8>, src: Seq<u8>, max: nat)
    requires
        max < usize::MAX,
        buffered.len() <= max,
    ensures
        drain(buffered, src, max).buffered.len() <= max,
        drain(buffered, src, max).outcome matches Outcome::Message(data) ==> data.len() <= max,
    decreases src.len(),
{
    lemma_ahead_chunk_bounds(buffered.len(), src, max);
    if let Ahead::Chunk { start, end } = ahead(buffered.len(), src, max) {
        lemma_drain_bounded(buffered + src.subrange(start, end), src.skip(end), max);
    }
}

/// Reading chunks only takes octets from the front and never loses the
/// terminator of a message that is complete.
pub proof fn lemma_drain_rest(buffered: Seq<u8>, src: Seq<u8>, max: nat)
    ensures
        drain(buffered, src, max).rest.len() <= src.len(),
        drain(buffered, src, max).buffered.len() + drain(buffered, src, max).rest.len()
            <= buffered.len() + src.len(),
        drain(buffered, src, max).outcome is Message ==> {
            &&& drain(buffered, src, max).rest.len() >= MESSAGE_TERMINATOR_LEN
            &&& drain(buffered, src, max).rest.take(MESSAGE_TERMINATOR_LEN as int)
                == message_terminator()
        },
    decreases src.len(),
{
    lemma_ahead_chunk_bounds(buffered.len(), src, max);
    match ahead(buffered.len(), src, max) {
        Ahead::Chunk { start, end } => {
            lemma_drain_rest(buffered + src.subrange(start, end), src.skip(end), max);
        },
        Ahead::Terminator => {
            assert(src.take(4) =~= message_terminator());
        },
        _ => {},
    }
}

/// Digits are ASCII, and ASCII is UTF-8.
pub proof fn lemma_digits_are_utf8(text: Seq<u8>)
    requires
        all_digits(text),
    ensures
        valid_utf8(text),
    decreases text.len(),
{
    if text.len() > 0 {
        assert(is_digit(text[0]));
        assert(text[0] & 0x80 == 0) by {
            let b = text[0];
            assert(b <= 57 ==> b & 0x80 == 0) by (bit_vector);
        }
        let rest = vstd::utf8::pop_first_scalar(text);
        let b = text[0];
        assert(b <= 57 ==> (b & 0x7f) == b) by (bit_vector);
        assert(rest =~= text.skip(1));
        assert forall|i: int| 0 <= i < rest.len() implies is_digit(#[trigger] rest[i]) by {
            assert(is_digit(text[i + 1]));
        }
        lemma_digits_are_utf8(rest);
    }
}

/// A chunk is recognised for what it is, whatever follows it.
pub proof fn lemma_chunk_ahead(buffered: nat, data: Seq<u8>, rest: Seq<u8>, max: nat)
    requires
        1 <= data.len() <= MAX_CHUNK_SIZE,
        buffered + data.len() <= max <= usize::MAX,
    ensures
        ahead(buffered, chunk(data) + rest, max) == (Ahead::Chunk {
            start: chunk_header(data.len()).len() as int,
            end: chunk(data).len() as int,
        }),
{
    let size = data.len();
    let digits = numeral(size);
    let src = chunk(data) + rest;
    let lf = 2 + digits.len() as int;
    lemma_numeral_reads_back(size);
    lemma_u32_numeral_len(size);
    lemma_digits_are_utf8(digits);
    assert(src[0] == 10 && src[1] == 35);
    assert forall|i: int| 2 <= i < lf implies src[i] == digits[i - 2] by {}
    assert(src[2] == digits[0]);
    assert(is_digit(digits[0]));
    assert(src[lf] == 10);
    assert forall|i: int| 2 <= i < lf implies src[i] != 10 by {
        assert(is_digit(digits[i - 2]));
    }
    let window = if src.len() - 2 < MAX_CHUNK_SIZE_LEN + 1 {
        src.len() - 2
    } else {
        MAX_CHUNK_SIZE_LEN + 1
    };
    lemma_newline_at(src, 2, 2 + window, lf);
    assert(src.subrange(2, lf) =~= digits);
    assert(parsed_usize(digits) == Ok::<usize, IntErrorKind>(size as usize));
}

/// A chunk size as RFC 6242 has it: digits, the first of which is no zero.
pub open spec fn is_chunk_size(field: Seq<u8>) -> bool {
    field.len() > 0 && all_digits(field) && field[0] != 48
}

/// Whatever stands between `\n#` and the next newline is refused unless it is a
/// chunk size, or the `#` of the message terminator. All octets stay.
pub proof fn lemma_other_size_refused(buffered: Seq<u8>, field: Seq<u8>, rest: Seq<u8>, max: nat)
    requires
        !field.contains(10u8),
        field != seq![35u8],
        !is_chunk_size(field),
    ensures
        ({
            let src = seq![10u8, 35] + field + seq![10u8] + rest;
            &&& drain(buffered, src, max).outcome is Fail
            &&& drain(buffered, src, max).rest == src
            &&& drain(buffered, src, max).buffered == buffered
        }),
{
    let src = seq![10u8, 35] + field + seq![10u8] + rest;
    let lf = 2 + field.len() as int;
    assert(src[0] == 10 && src[1] == 35);
    assert forall|i: int| 2 <= i < lf implies src[i] == field[i - 2] && src[i] != 10 by {
        if field[i - 2] == 10 {
            assert(field.contains(10u8));
        }
    }
    assert(src[lf] == 10);
    if src[2] == 35 {
        assert(field.len() > 0);
        if field.len() == 1 {
            assert(field =~= seq![35u8]);
        }
        assert(src[3] != 10);
    } else {
        let window = if src.len() - 2 < MAX_CHUNK_SIZE_LEN + 1 {
            src.len() - 2
        } else {
            MAX_CHUNK_SIZE_LEN + 1
        };
        lemma_newline_between(src, 2, 2 + window);
        if lf < 2 + window {
            lemma_newline_at(src, 2, 2 + window, lf);
            assert(src.subrange(2, lf) =~= field);
        }
    }
}

/// However a message is cut into chunks, reading them gives back their data in
/// order, with nothing added, lost or left over.
pub proof fn lemma_drain_chunks(buffered: Seq<u8>, parts: Seq<Seq<u8>>, rest: Seq<u8>, max: nat)
    requires
        forall|i: int| 0 <= i < parts.len() ==> 1 <= (#[trigger] parts[i]).len() <= MAX_CHUNK_SIZE,
        buffered.len() + joined(parts).len() <= max <= usize::MAX,
    ensures
        drain(buffered, chunks(parts) + message_terminator() + rest, max) == (Drained {
            outcome: Outcome::Message(buffered + joined(parts)),
            buffered: Seq::empty(),
            rest: message_terminator() + rest,
        }),
    decreases parts.len(),
{
    let src = chunks(parts) + message_terminator() + rest;
    if parts.len() == 0 {
        assert(src =~= message_terminator() + rest);
        assert(buffered + joined(parts) =~= buffered);
    } else {
        let data = parts[0];
        let tail = chunks(parts.skip(1)) + message_terminator() + rest;
        let start = chunk_header(data.len()).len() as int;
        let end = chunk(data).len() as int;
        assert(1 <= parts[0].len() <= MAX_CHUNK_SIZE);
        assert(src =~= chunk(data) + tail);
        lemma_chunk_ahead(buffered.len(), data, tail, max);
        assert(src.subrange(start, end) =~= data);
        assert(src.skip(end) =~= tail);
        assert forall|i: int| 0 <= i < parts.skip(1).len() implies 1 <= (
        #[trigger] parts.skip(1)[i]).len() <= MAX_CHUNK_SIZE by {
            assert(1 <= parts[i + 1].len() <= MAX_CHUNK_SIZE);
        }
        lemma_drain_chunks(buffered + data, parts.skip(1), rest, max);
        assert((buffered + data) + joined(parts.skip(1)) =~= buffered + joined(parts));
    }
}

/// The state of a codec.
pub struct CodecState {
    /// Whether the hello is still awaited.
    pub in_hello: bool,
    /// The data of the chunks of an unfinished message.
    pub buffered: Seq<u8>,
    /// How many octets at the front were searched for the end of the hello.
    pub hello_scanned: nat,
    /// The most octets that a message may have.
    pub max: nat,
}

/// One attempt to read a frame: how it ends, the state of the codec after it
/// and the octets that are left.
pub struct Step {
    pub outcome: Outcome,
    pub state: CodecState,
    pub rest: Seq<u8>,
}

/// Where the search for the end of the hello goes on: far enough back to see a
/// terminator of which a part was there before.
pub open spec fn scan_start(hello_scanned: nat) -> int {
    if hello_scanned >= HELLO_TERMINATOR_LEN - 1 {
        hello_scanned - (HELLO_TERMINATOR_LEN - 1)
    } else {
        0
    }
}

/// One attempt to read the hello from `src`.
pub open spec fn hello_step(state: CodecState, src: Seq<u8>) -> Step {
    let too_large = Step {
        outcome: Outcome::Fail(Fault::HelloTooLarge(state.max)),
        state,
        rest: src,
    };
    if src.len() < HELLO_TERMINATOR_LEN {
        if src.len() > state.max {
            too_large
        } else {
            Step { outcome: Outcome::Wait, state, rest: src }
        }
    } else {
        match first_occurrence(src, hello_terminator(), scan_start(state.hello_scanned)) {
            Some(at) => if at > state.max {
                too_large
            } else {
                Step {
                    outcome: Outcome::Hello(src.take(at)),
                    state: CodecState { hello_scanned: 0, ..state },
                    rest: src.skip(at + HELLO_TERMINATOR_LEN),
                }
            },
            None => if src.len() > state.max {
                too_large
            } else {
                Step {
                    outcome: Outcome::Wait,
                    state: CodecState {
                        hello_scanned: (src.len() - (HELLO_TERMINATOR_LEN - 1)) as nat,
                        ..state
                    },
                    rest: src,
                }
            },
        }
    }
}

/// One attempt to read the next frame from `src`.
pub open spec fn frame_step(state: CodecState, src: Seq<u8>) -> Step {
    if state.in_hello {
        hello_step(state, src)
    } else {
        let drained = drain(state.buffered, src, state.max);
        Step {
            outcome: drained.outcome,
            state: CodecState { buffered: drained.buffered, ..state },
            rest: drained.rest,
        }
    }
}

/// A codec that has read nothing yet.
pub open spec fn fresh_state(max: nat) -> CodecState {
    CodecState { in_hello: true, buffered: Seq::empty(), hello_scanned: 0, max }
}

/// The codec has not searched further than the octets reach, and the end of the
/// hello is not in what it has searched.
pub open spec fn scanned_in_vain(state: CodecState, src: Seq<u8>) -> bool {
    &&& state.hello_scanned > 0 ==> state.hello_scanned + HELLO_TERMINATOR_LEN - 1 <= src.len()
    &&& forall|i: int|
        0 <= i < scan_start(state.hello_scanned) ==> !#[trigger] occurs_at(
            src,
            hello_terminator(),
            i,
        )
}

pub proof fn lemma_first_occurrence(text: Seq<u8>, pattern: Seq<u8>, from: int)
    requires
        0 <= from,
    ensures
        first_occurrence(text, pattern, from) matches Some(at) ==> {
            &&& from <= at
            &&& occurs_at(text, pattern, at)
            &&& forall|i: int| from <= i < at ==> !#[trigger] occurs_at(text, pattern, i)
        },
        first_occurrence(text, pattern, from) is None ==> forall|i: int|
            from <= i ==> !#[trigger] occurs_at(text, pattern, i),
    decreases text.len() - from,
{
    if from + pattern.len() <= text.len() && !occurs_at(text, pattern, from) && from < text.len() {
        lemma_first_occurrence(text, pattern, from + 1);
    }
}

pub proof fn lemma_first_occurrence_at(text: Seq<u8>, pattern: Seq<u8>, from: int, at: int)
    requires
        0 <= from <= at,
        occurs_at(text, pattern, at),
        forall|i: int| from <= i < at ==> !#[trigger] occurs_at(text, pattern, i),
    ensures
        first_occurrence(text, pattern, from) == Some(at),
{
    lemma_first_occurrence(text, pattern, from);
}

/// Searching only what was not searched before finds the same end of the hello
/// as searching everything.
pub proof fn lemma_resumed_search(state: CodecState, src: Seq<u8>)
    requires
        scanned_in_vain(state, src),
    ensures
        first_occurrence(src, hello_terminator(), scan_start(state.hello_scanned))
            == first_occurrence(src, hello_terminator(), 0),
{
    let from = scan_start(state.hello_scanned);
    lemma_first_occurrence(src, hello_terminator(), from);
    lemma_first_occurrence(src, hello_terminator(), 0);
    if let Some(at) = first_occurrence(src, hello_terminator(), from) {
        lemma_first_occurrence_at(src, hello_terminator(), 0, at);
    }
}

/// A hello that arrives in pieces is read as if it had arrived at once: after an
/// attempt that had to wait, the attempt on the longer input ends as the first
/// attempt of a fresh codec on that input would.
pub proof fn lemma_hello_in_pieces(state: CodecState, src: Seq<u8>, more: Seq<u8>)
    requires
        state.in_hello,
        scanned_in_vain(state, src),
        hello_step(state, src).outcome is Wait,
    ensures
        hello_step(state, src).rest == src,
        scanned_in_vain(hello_step(state, src).state, src + more),
        hello_step(hello_step(state, src).state, src + more).outcome == hello_step(
            CodecState { hello_scanned: 0, ..state },
            src + more,
        ).outcome,
        hello_step(hello_step(state, src).state, src + more).rest == hello_step(
            CodecState { hello_scanned: 0, ..state },
            src + more,
        ).rest,
{
    let next = hello_step(state, src).state;
    let whole = src + more;
    let pattern = hello_terminator();
    lemma_resumed_search(state, src);
    lemma_first_occurrence(src, pattern, 0);
    assert forall|i: int| 0 <= i < scan_start(next.hello_scanned) implies !#[trigger] occurs_at(
        whole,
        pattern,
        i,
    ) by {
        if occurs_at(whole, pattern, i) {
            assert forall|k: int| 0 <= k < pattern.len() implies #[trigger] pattern[k] == src[i
                + k] by {
                assert(whole[i + k] == src[i + k]);
            }
            assert(occurs_at(src, pattern, i));
        }
    }
    lemma_resumed_search(next, whole);
}

/// A hello is read back: what was written in front of the first terminator comes
/// out, and what follows the terminator is left.
pub proof fn lemma_hello_read_back(text: Seq<u8>, rest: Seq<u8>, max: nat)
    requires
        text.len() <= max,
        forall|i: int|
            0 <= i < text.len() ==> !#[trigger] occurs_at(
                text + hello_terminator() + rest,
                hello_terminator(),
                i,
            ),
    ensures
        frame_step(fresh_state(max), text + hello_terminator() + rest) == (Step {
            outcome: Outcome::Hello(text),
            state: fresh_state(max),
            rest,
        }),
{
    let src = text + hello_terminator() + rest;
    let at = text.len() as int;
    assert forall|k: int| 0 <= k < hello_terminator().len() implies #[trigger] hello_terminator()[k]
        == src[at + k] by {}
    assert(occurs_at(src, hello_terminator(), at));
    lemma_first_occurrence_at(src, hello_terminator(), 0, at);
    assert(src.take(at) =~= text);
    assert(src.skip(at + HELLO_TERMINATOR_LEN) =~= rest);
}

/// An attempt that has to wait, followed by an attempt on what it left and what arrived since, ends as
/// one attempt on all of it would, with the same data buffered and the same
/// octets left.
pub proof fn lemma_frame_in_pieces(state: CodecState, src: Seq<u8>, more: Seq<u8>)
    requires
        state.in_hello ==> scanned_in_vain(state, src),
        frame_step(state, src).outcome is Wait,
    ensures
        ({
            let first = frame_step(state, src);
            let second = frame_step(first.state, first.rest + more);
            let whole = frame_step(state, src + more);
            &&& second.outcome == whole.outcome
            &&& second.rest == whole.rest
            &&& !(whole.outcome is Fail) ==> second.state == whole.state
            &&& state.in_hello ==> scanned_in_vain(first.state, first.rest + more)
        }),
{
    if state.in_hello {
        lemma_hello_in_pieces(state, src, more);
        let whole = src + more;
        assert forall|i: int| 0 <= i < scan_start(state.hello_scanned) implies !#[trigger] occurs_at(
            whole,
            hello_terminator(),
            i,
        ) by {
            let pattern = hello_terminator();
            if occurs_at(whole, pattern, i) {
                assert forall|k: int| 0 <= k < pattern.len() implies #[trigger] pattern[k] == src[i
                    + k] by {
                    assert(whole[i + k] == src[i + k]);
                }
                assert(occurs_at(src, pattern, i));
            }
        }
        lemma_resumed_search(state, whole);
    } else {
        lemma_drain_in_pieces(state.buffered, src, more, state.max);
    }
}

/// No frame is longer than the maximum, and no more than that is ever buffered.
/// A maximum of `usize::MAX` is excluded: sums that saturate do not exceed it.
pub proof fn lemma_frames_bounded(state: CodecState, src: Seq<u8>)
    requires
        state.max < usize::MAX,
        state.buffered.len() <= state.max,
    ensures
        frame_step(state, src).state.buffered.len() <= state.max,
        match frame_step(state, src).outcome {
            Outcome::Hello(text) => text.len() <= state.max,
            Outcome::Message(text) => text.len() <= state.max,
            _ => true,
        },
{
    if state.in_hello {
        lemma_first_occurrence(src, hello_terminator(), scan_start(state.hello_scanned));
    } else {
        lemma_drain_never_hello(state.buffered, src, state.max);
        lemma_drain_bounded(state.buffered, src, state.max);
    }
}

/// Reading chunks never ends in a hello.
pub proof fn lemma_drain_never_hello(buffered: Seq<u8>, src: Seq<u8>, max: nat)
    ensures
        !(drain(buffered, src, max).outcome is Hello),
    decreases src.len(),
{
    if let Ahead::Chunk { start, end } = ahead(buffered.len(), src, max) {
        if 0 <= start <= end <= src.len() && 0 < end {
            lemma_drain_never_hello(buffered + src.subrange(start, end), src.skip(end), max);
        }
    }
}

/// The XML declaration in front of a hello.
pub open spec fn xml_header() -> Seq<u8> {
    encode_utf8("<?xml version=\"1.0\" encoding=\"utf-8\"?>"@)
}

/// The frame that carries a message with the text `xml`.
pub open spec fn encoded_frame(hello: bool, xml: Seq<u8>) -> Seq<u8> {
    if hello {
        xml_header() + xml + hello_terminator()
    } else {
        chunk(xml) + message_terminator()
    }
}

/// A message is read back from its frame, whatever follows: the codec hands out
/// its text and leaves the terminator, and behind it what follows. An empty
/// text is excluded, because a chunk cannot be empty.
pub proof fn lemma_message_read_back(state: CodecState, xml: Seq<u8>, rest: Seq<u8>)
    requires
        !state.in_hello,
        state.buffered.len() == 0,
        1 <= xml.len() <= MAX_CHUNK_SIZE,
        xml.len() <= state.max <= usize::MAX,
    ensures
        frame_step(state, encoded_frame(false, xml) + rest) == (Step {
            outcome: Outcome::Message(xml),
            state,
            rest: message_terminator() + rest,
        }),
        (message_terminator() + rest).skip(MESSAGE_TERMINATOR_LEN as int) == rest,
{
    let parts = seq![xml];
    assert(parts.skip(1) =~= Seq::<Seq<u8>>::empty());
    assert(chunks(parts.skip(1)) =~= Seq::<u8>::empty());
    assert(joined(parts.skip(1)) =~= Seq::<u8>::empty());
    assert(chunks(parts) =~= chunk(xml));
    assert(joined(parts) =~= xml);
    assert(state.buffered =~= Seq::<u8>::empty());
    lemma_drain_chunks(state.buffered, parts, rest, state.max);
    assert(state.buffered + joined(parts) =~= xml);
    assert(encoded_frame(false, xml) + rest =~= chunks(parts) + message_terminator() + rest);
    assert((message_terminator() + rest).skip(4) =~= rest);
}

} // verus!
