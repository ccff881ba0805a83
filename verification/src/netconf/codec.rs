//! Codec to read NETCONF in accordance with [RFC 6242](https://datatracker.ietf.org/doc/html/rfc6242).
//!
//! This codec IS NOT backward compatible with the obsoleted [RFC 4742](https://datatracker.ietf.org/doc/html/rfc4742).
//!
//! The codec frames octets. Turning the text of a frame into a message, and a
//! message into text, is left to the functions that the caller hands in.
use crate::decimal::{numeral_chars, parse_short_usize, to_decimal, to_decimal_string, IntErrorKind};
use crate::netconf::framing::{
    ahead, drain, encoded_frame, first_occurrence, frame_step, fresh_state, hello_terminator,
    lemma_ahead_chunk_bounds, lemma_drain_never_hello, lemma_drain_rest, lemma_first_occurrence,
    message_terminator, newline_between, occurs_at, scan_start, Ahead, CodecState, Fault, Outcome,
    HELLO_TERMINATOR_LEN, MAX_CHUNK_SIZE, MAX_CHUNK_SIZE_LEN, MESSAGE_TERMINATOR_LEN,
};
use crate::octets::{
    append_slice, buffer_len, buffer_slice, empty_buffer, octets, skip_front, split_all,
    split_front,
};
use bytes::BytesMut;
use vstd::prelude::*;
use vstd::utf8::{decode_utf8, valid_utf8};

verus! {

/// Default maximum size (in bytes) of a single buffered NETCONF message,
/// used when no explicit value is configured. Bounds memory usage against
/// a peer that never terminates a message.
pub const DEFAULT_MAX_MESSAGE_SIZE: usize = 16 * 1024 * 1024;

/// A framing rule that the peer broke.
#[derive(Debug, Clone)]
pub enum FramingError {
    HelloTooLarge { max_message_size: usize },
    MissingBaseCapability,
    MissingChunkStart,
    MalformedTerminator,
    UnterminatedChunkSize,
    InvalidChunkSizeText { text: String },
    InvalidChunkSize { chunk_size: usize },
    MessageTooLarge { max_message_size: usize },
}

impl View for FramingError {
    type V = Fault;

    open spec fn view(&self) -> Fault {
        match self {
            FramingError::HelloTooLarge { max_message_size } => Fault::HelloTooLarge(
                *max_message_size as nat,
            ),
            FramingError::MissingBaseCapability => Fault::MissingBase11,
            FramingError::MissingChunkStart => Fault::NoChunkStart,
            FramingError::MalformedTerminator => Fault::BadTerminator,
            FramingError::UnterminatedChunkSize => Fault::UnterminatedSize,
            FramingError::InvalidChunkSizeText { text } => Fault::BadSizeText(text@),
            FramingError::InvalidChunkSize { chunk_size } => Fault::SizeOutOfRange(
                *chunk_size as nat,
            ),
            FramingError::MessageTooLarge { max_message_size } => Fault::MessageTooLarge(
                *max_message_size as nat,
            ),
        }
    }
}

/// The sentence that reports a broken framing rule.
pub open spec fn framing_text(error: FramingError) -> Seq<char> {
    match error {
        FramingError::HelloTooLarge { max_message_size } =>
            "Hello message exceeds maximum allowed size of "@ + numeral_chars(
                max_message_size as nat,
            ) + " bytes"@,
        FramingError::MissingBaseCapability =>
            "Hello message does not contain required base:1.1 capability, only NETCONF 1.1 as per RFC 6242 is supported"@,
        FramingError::MissingChunkStart => "Expected chunk start sequence or message terminator"@,
        FramingError::MalformedTerminator => "Malformed message terminator"@,
        FramingError::UnterminatedChunkSize =>
            "Chunk size is not properly terminated with a newline"@,
        FramingError::InvalidChunkSizeText { text } => "Invalid chunk size: `"@ + text@ + "`"@,
        FramingError::InvalidChunkSize { chunk_size } => "Invalid chunk size: "@ + numeral_chars(
            chunk_size as nat,
        ),
        FramingError::MessageTooLarge { max_message_size } =>
            "Reassembled message exceeds maximum allowed size of "@ + numeral_chars(
                max_message_size as nat,
            ) + " bytes"@,
    }
}

impl FramingError {
    /// The sentence that reports this error.
    pub fn message(&self) -> (text: String)
        ensures
            text@ == framing_text(*self),
    {
        match self {
            FramingError::HelloTooLarge { max_message_size } => {
                "Hello message exceeds maximum allowed size of ".to_owned().concat(
                    to_decimal_string(*max_message_size).as_str(),
                ).concat(" bytes")
            },
            FramingError::MissingBaseCapability => {
                "Hello message does not contain required base:1.1 capability, only NETCONF 1.1 as per RFC 6242 is supported".to_owned()
            },
            FramingError::MissingChunkStart => {
                "Expected chunk start sequence or message terminator".to_owned()
            },
            FramingError::MalformedTerminator => "Malformed message terminator".to_owned(),
            FramingError::UnterminatedChunkSize => {
                "Chunk size is not properly terminated with a newline".to_owned()
            },
            FramingError::InvalidChunkSizeText { text } => {
                "Invalid chunk size: `".to_owned().concat(text.as_str()).concat("`")
            },
            FramingError::InvalidChunkSize { chunk_size } => {
                "Invalid chunk size: ".to_owned().concat(to_decimal_string(*chunk_size).as_str())
            },
            FramingError::MessageTooLarge { max_message_size } => {
                "Reassembled message exceeds maximum allowed size of ".to_owned().concat(
                    to_decimal_string(*max_message_size).as_str(),
                ).concat(" bytes")
            },
        }
    }
}

/// Where octets stop being UTF-8.
#[derive(Debug, Clone, Copy, PartialEq, Eq, Structural)]
pub struct Utf8Error {
    /// How many octets at the front are UTF-8.
    pub valid_up_to: usize,
    /// How many octets behind those are not; `None` where the input ends within
    /// a character.
    pub error_len: Option<usize>,
}

impl Utf8Error {
    /// Whether this is the report on `bytes`.
    pub open spec fn explains(self, bytes: Seq<u8>) -> bool {
        &&& self.valid_up_to < bytes.len()
        &&& valid_utf8(bytes.take(self.valid_up_to as int))
        &&& forall|n: int|
            self.valid_up_to < n <= bytes.len() ==> !valid_utf8(#[trigger] bytes.take(n))
        &&& match self.error_len {
            Some(len) => 1 <= len && self.valid_up_to + len <= bytes.len(),
            None => self.valid_up_to + 3 >= bytes.len(),
        }
    }
}

/// `core::str::from_utf8` succeeds exactly on UTF-8 and hands back the text it
/// encodes. Its error gives the longest prefix that is UTF-8 and, unless the
/// input ends within a character, the length of the sequence that is not.
#[verifier::external_body]
fn utf8_text(bytes: &[u8]) -> (r: Result<&str, Utf8Error>)
    ensures
        r is Ok <==> valid_utf8(bytes@),
        r matches Ok(text) ==> text@ == decode_utf8(bytes@),
        r matches Err(error) ==> error.explains(bytes@),
{
    match std::str::from_utf8(bytes) {
        Ok(text) => Ok(text),
        Err(error) => Err(
            Utf8Error { valid_up_to: error.valid_up_to(), error_len: error.error_len() },
        ),
    }
}

/// The text of a frame is no NETCONF message.
#[derive(Debug, Clone)]
pub struct ParsingError {
    pub reason: String,
}

/// A message could not be written as XML.
#[derive(Debug, Clone)]
pub struct SerializationError {
    pub reason: String,
}

#[derive(Debug, Clone)]
pub enum SshCodecError {
    IO(FramingError),
    Utf(Utf8Error),
    Int(IntErrorKind),
    Parsing(ParsingError),
    Serialization(SerializationError),
}

impl SshCodecError {
    /// Whether this error reports `fault`.
    pub open spec fn reports(self, fault: Fault) -> bool {
        match self {
            SshCodecError::IO(error) => error@ == fault,
            SshCodecError::Utf(error) => fault matches Fault::SizeNotUtf8(bytes) && error.explains(
                bytes,
            ),
            SshCodecError::Int(kind) => fault == Fault::SizeNotNumber(kind),
            _ => false,
        }
    }
}

impl From<FramingError> for SshCodecError {
    fn from(error: FramingError) -> (r: Self) {
        SshCodecError::IO(error)
    }
}

impl vstd::std_specs::convert::FromSpecImpl<FramingError> for SshCodecError {
    open spec fn obeys_from_spec() -> bool {
        true
    }

    open spec fn from_spec(error: FramingError) -> Self {
        SshCodecError::IO(error)
    }
}

impl From<Utf8Error> for SshCodecError {
    fn from(error: Utf8Error) -> (r: Self) {
        SshCodecError::Utf(error)
    }
}

impl vstd::std_specs::convert::FromSpecImpl<Utf8Error> for SshCodecError {
    open spec fn obeys_from_spec() -> bool {
        true
    }

    open spec fn from_spec(error: Utf8Error) -> Self {
        SshCodecError::Utf(error)
    }
}

impl From<IntErrorKind> for SshCodecError {
    fn from(error: IntErrorKind) -> (r: Self) {
        SshCodecError::Int(error)
    }
}

impl vstd::std_specs::convert::FromSpecImpl<IntErrorKind> for SshCodecError {
    open spec fn obeys_from_spec() -> bool {
        true
    }

    open spec fn from_spec(error: IntErrorKind) -> Self {
        SshCodecError::Int(error)
    }
}

impl From<ParsingError> for SshCodecError {
    fn from(error: ParsingError) -> (r: Self) {
        SshCodecError::Parsing(error)
    }
}

impl vstd::std_specs::convert::FromSpecImpl<ParsingError> for SshCodecError {
    open spec fn obeys_from_spec() -> bool {
        true
    }

    open spec fn from_spec(error: ParsingError) -> Self {
        SshCodecError::Parsing(error)
    }
}

impl From<SerializationError> for SshCodecError {
    fn from(error: SerializationError) -> (r: Self) {
        SshCodecError::Serialization(error)
    }
}

impl vstd::std_specs::convert::FromSpecImpl<SerializationError> for SshCodecError {
    open spec fn obeys_from_spec() -> bool {
        true
    }

    open spec fn from_spec(error: SerializationError) -> Self {
        SshCodecError::Serialization(error)
    }
}

/// Two I/O errors always count as equal; other errors do where they say the same.
impl PartialEq for SshCodecError {
    fn eq(&self, other: &Self) -> (r: bool) {
        match (self, other) {
            (SshCodecError::IO(_), SshCodecError::IO(_)) => true,
            (SshCodecError::Utf(v1), SshCodecError::Utf(v2)) => *v1 == *v2,
            (SshCodecError::Int(v1), SshCodecError::Int(v2)) => *v1 == *v2,
            (SshCodecError::Parsing(v1), SshCodecError::Parsing(v2)) => v1.reason == v2.reason,
            (SshCodecError::Serialization(v1), SshCodecError::Serialization(v2)) => v1.reason
                == v2.reason,
            _ => false,
        }
    }
}

impl vstd::std_specs::cmp::PartialEqSpecImpl for SshCodecError {
    open spec fn obeys_eq_spec() -> bool {
        true
    }

    open spec fn eq_spec(&self, other: &Self) -> bool {
        match (self, other) {
            (SshCodecError::IO(_), SshCodecError::IO(_)) => true,
            (SshCodecError::Utf(v1), SshCodecError::Utf(v2)) => v1 == v2,
            (SshCodecError::Int(v1), SshCodecError::Int(v2)) => v1 == v2,
            (SshCodecError::Parsing(v1), SshCodecError::Parsing(v2)) => v1.reason@ == v2.reason@,
            (SshCodecError::Serialization(v1), SshCodecError::Serialization(v2)) => v1.reason@
                == v2.reason@,
            _ => false,
        }
    }
}

/// A version of the NETCONF base protocol.
#[derive(Debug, Clone, Copy, PartialEq, Eq, Structural)]
pub enum NetconfVersion {
    V1_0,
    V1_1,
}

/// The capabilities that RFC 6241 defines.
#[derive(Debug, Clone, Copy, PartialEq, Eq, Structural)]
pub enum StandardCapability {
    WritableRunning,
    Candidate,
    ConfirmedCommit,
    RollbackOnError,
    Validate,
    Startup,
    Url,
    XPath,
}

/// Something that a NETCONF peer announces to support.
#[derive(Debug, Clone, PartialEq, Eq)]
pub enum Capability {
    NetconfBase(NetconfVersion),
    Standard(StandardCapability),
    Custom(String),
}

/// The first message of either peer.
#[derive(Debug, Clone, PartialEq, Eq)]
pub struct Hello {
    pub session_id: Option<u32>,
    pub capabilities: Vec<Capability>,
}

impl Hello {
    pub fn new(session_id: Option<u32>, capabilities: Vec<Capability>) -> (hello: Hello)
        ensures
            hello.session_id == session_id,
            hello.capabilities == capabilities,
    {
        Hello { session_id, capabilities }
    }

    /// Whether the peer announces base:1.1.
    pub open spec fn announces_base_1_1(self) -> bool {
        exists|i: int|
            0 <= i < self.capabilities@.len() && #[trigger] self.capabilities@[i]
                == Capability::NetconfBase(NetconfVersion::V1_1)
    }

    /// Whether the peer announces base:1.1.
    pub fn supports_base_1_1(&self) -> (r: bool)
        ensures
            r == self.announces_base_1_1(),
    {
        let mut i: usize = 0;
        while i < self.capabilities.len()
            invariant
                i <= self.capabilities@.len(),
                forall|j: int|
                    0 <= j < i ==> #[trigger] self.capabilities@[j] != Capability::NetconfBase(
                        NetconfVersion::V1_1,
                    ),
            decreases self.capabilities@.len() - i,
        {
            if let Capability::NetconfBase(NetconfVersion::V1_1) = &self.capabilities[i] {
                assert(self.capabilities@[i as int] == Capability::NetconfBase(
                    NetconfVersion::V1_1,
                ));
                return true;
            }
            i += 1;
        }
        false
    }
}

/// A NETCONF message: a hello, or one of the other messages, which the codec
/// does not look into.
#[derive(Debug, Clone, PartialEq, Eq)]
pub enum NetConfMessage<M> {
    Hello(Hello),
    Other(M),
}

/// A complete frame.
pub enum Frame {
    /// The text of a hello.
    Hello(BytesMut),
    /// The text of a chunked message.
    Message(BytesMut),
}

/// What the front of a chunked message is.
enum NextChunk {
    NeedMore,
    Terminator,
    Chunk { start: usize, end: usize },
}

/// SshCodec is a codec for encoding and decoding NETCONF messages over SSH as
/// per [RFC 6242](https://datatracker.ietf.org/doc/html/rfc6242).
#[derive(Debug)]
pub struct SshCodec {
    /// Whether the hello of the peer is still awaited.
    pub in_hello: bool,
    buf: BytesMut,
    /// Number of bytes at the start of `src` that have already been
    /// scanned for the terminator of the hello, so repeated `decode` calls
    /// don't rescan the whole buffer from the beginning.
    hello_scanned: usize,
    /// Maximum total size (in bytes) of a single buffered message this codec
    /// will accept, configurable via [`SshCodec::with_max_message_size`].
    max_message_size: usize,
}

impl View for SshCodec {
    type V = CodecState;

    closed spec fn view(&self) -> CodecState {
        CodecState {
            in_hello: self.in_hello,
            buffered: octets(self.buf),
            hello_scanned: self.hello_scanned as nat,
            max: self.max_message_size as nat,
        }
    }
}

/// Whether `src` may be handed to a codec in this state: it still holds what the
/// codec has searched of the hello, and it can be buffered.
pub open spec fn readable(state: CodecState, src: Seq<u8>) -> bool {
    &&& state.in_hello ==> scan_start(state.hello_scanned) <= src.len()
    &&& state.buffered.len() + src.len() <= isize::MAX
}

/// The state of a codec that has accepted the hello.
pub open spec fn after_hello(state: CodecState) -> CodecState {
    CodecState { in_hello: false, hello_scanned: 0, ..state }
}

/// What the codec makes of the result of parsing a hello.
pub open spec fn hello_accepted(
    parsed: Result<Hello, ParsingError>,
    r: Result<Hello, SshCodecError>,
) -> bool {
    match parsed {
        Err(error) => r == Err::<Hello, SshCodecError>(SshCodecError::Parsing(error)),
        Ok(hello) => if hello.announces_base_1_1() {
            r == Ok::<Hello, SshCodecError>(hello)
        } else {
            r == Err::<Hello, SshCodecError>(
                SshCodecError::IO(FramingError::MissingBaseCapability),
            )
        },
    }
}

/// What decoding a hello returns for the result of parsing it.
pub open spec fn hello_decoded<M>(
    parsed: Result<Hello, ParsingError>,
    r: Result<Option<NetConfMessage<M>>, SshCodecError>,
) -> bool {
    match r {
        Ok(message) => message matches Some(NetConfMessage::Hello(hello)) && hello_accepted(
            parsed,
            Ok(hello),
        ),
        Err(error) => hello_accepted(parsed, Err(error)),
    }
}

/// What decoding a chunked message returns for the result of parsing it.
pub open spec fn message_decoded<M>(
    parsed: Result<NetConfMessage<M>, ParsingError>,
    r: Result<Option<NetConfMessage<M>>, SshCodecError>,
) -> bool {
    match parsed {
        Ok(message) => r == Ok::<Option<NetConfMessage<M>>, SshCodecError>(Some(message)),
        Err(error) => r == Err::<Option<NetConfMessage<M>>, SshCodecError>(
            SshCodecError::Parsing(error),
        ),
    }
}

/// What `decode` does: from the state and the octets before it to the result, the
/// state and the octets after it.
pub open spec fn decodes<M, H: Fn(BytesMut) -> Result<Hello, ParsingError>, P: Fn(
    BytesMut,
) -> Result<NetConfMessage<M>, ParsingError>>(
    state: CodecState,
    src: Seq<u8>,
    parse_hello: H,
    parse_message: P,
    r: Result<Option<NetConfMessage<M>>, SshCodecError>,
    after: CodecState,
    rest: Seq<u8>,
) -> bool {
    let step = frame_step(state, src);
    match step.outcome {
        Outcome::Wait => {
            &&& r matches Ok(None)
            &&& after == step.state
            &&& rest == step.rest
        },
        Outcome::Fail(fault) => {
            &&& r matches Err(error) && error.reports(fault)
            &&& after == step.state
            &&& rest == step.rest
        },
        Outcome::Hello(text) => exists|data: BytesMut, parsed: Result<Hello, ParsingError>|
            {
                &&& octets(data) == text
                &&& #[trigger] call_ensures(parse_hello, (data,), parsed)
                &&& hello_decoded(parsed, r)
                &&& after == (if r is Ok {
                    after_hello(step.state)
                } else {
                    step.state
                })
                &&& rest == step.rest
            },
        Outcome::Message(text) => exists|
            data: BytesMut,
            parsed: Result<NetConfMessage<M>, ParsingError>,
        |
            {
                &&& octets(data) == text
                &&& #[trigger] call_ensures(parse_message, (data,), parsed)
                &&& message_decoded(parsed, r)
                &&& after == step.state
                &&& rest == (if r is Ok {
                    step.rest.skip(MESSAGE_TERMINATOR_LEN as int)
                } else {
                    step.rest
                })
            },
    }
}

/// What `encode` does: from the octets before it to the result and the octets
/// after it.
pub open spec fn encodes<M>(
    before: Seq<u8>,
    item: NetConfMessage<M>,
    serialized: Result<Vec<u8>, SerializationError>,
    r: Result<(), SshCodecError>,
    after: Seq<u8>,
) -> bool {
    match serialized {
        Ok(xml) => {
            &&& r is Ok
            &&& after == before + encoded_frame(item is Hello, xml@)
        },
        Err(error) => {
            &&& r matches Err(result) && result == SshCodecError::Serialization(error)
            &&& after == before
        },
    }
}

impl SshCodec {
    pub fn new() -> (codec: Self)
        ensures
            codec@ == fresh_state(DEFAULT_MAX_MESSAGE_SIZE as nat),
    {
        Self::with_max_message_size(DEFAULT_MAX_MESSAGE_SIZE)
    }

    /// Create a new [`SshCodec`] with a configurable maximum
    /// message size (in bytes).
    pub fn with_max_message_size(max_message_size: usize) -> (codec: Self)
        ensures
            codec@ == fresh_state(max_message_size as nat),
    {
        Self { in_hello: true, buf: empty_buffer(), hello_scanned: 0, max_message_size }
    }

    /// The configured maximum buffered NETCONF message size (in bytes).
    pub fn max_message_size(&self) -> (max: usize)
        ensures
            max == self@.max,
    {
        self.max_message_size
    }

    /// Returns an error if `len` exceeds the configured maximum message
    /// size while still waiting for the hello terminator.
    fn check_hello_size(&self, len: usize) -> (r: Result<(), SshCodecError>)
        ensures
            r is Ok <==> len <= self@.max,
            r matches Err(error) ==> error.reports(Fault::HelloTooLarge(self@.max)),
    {
        if len > self.max_message_size {
            let max_message_size: usize = self.max_message_size;
            return Err(SshCodecError::IO(FramingError::HelloTooLarge { max_message_size }));
        }
        Ok(())
    }

    /// Whether `src` may be read from: it still holds what was searched of the
    /// hello, and it can be buffered.
    pub fn can_read(&self, src: &BytesMut) -> (r: bool)
        ensures
            r == readable(self@, octets(*src)),
    {
        let len: usize = buffer_len(src);
        let buffered: usize = buffer_len(&self.buf);
        let scan_from: usize = self.hello_scanned.saturating_sub(HELLO_TERMINATOR_LEN - 1);
        (!self.in_hello || scan_from <= len) && len <= isize::MAX as usize - buffered
    }

    /// Reads the next frame from the front of `src`: `None` where more octets
    /// are needed. The terminator of a chunked message stays in `src` until
    /// [`SshCodec::finish_message`].
    pub fn next_frame(&mut self, src: &mut BytesMut) -> (r: Result<Option<Frame>, SshCodecError>)
        requires
            readable(old(self)@, octets(*old(src))),
        ensures
            ({
                let step = frame_step(old(self)@, octets(*old(src)));
                &&& final(self)@ == step.state
                &&& octets(*final(src)) == step.rest
                &&& match step.outcome {
                    Outcome::Wait => r matches Ok(None),
                    Outcome::Hello(text) => r matches Ok(Some(Frame::Hello(data))) && octets(data)
                        == text,
                    Outcome::Message(text) => r matches Ok(Some(Frame::Message(data))) && octets(
                        data,
                    ) == text,
                    Outcome::Fail(fault) => r matches Err(error) && error.reports(fault),
                }
            }),
    {
        if self.in_hello {
            self.next_hello(src)
        } else {
            self.next_message(src)
        }
    }

    /// Reads the hello from the front of `src`.
    fn next_hello(&mut self, src: &mut BytesMut) -> (r: Result<Option<Frame>, SshCodecError>)
        requires
            readable(old(self)@, octets(*old(src))),
            old(self)@.in_hello,
        ensures
            ({
                let step = frame_step(old(self)@, octets(*old(src)));
                &&& final(self)@ == step.state
                &&& octets(*final(src)) == step.rest
                &&& match step.outcome {
                    Outcome::Wait => r matches Ok(None),
                    Outcome::Hello(text) => r matches Ok(Some(Frame::Hello(data))) && octets(data)
                        == text,
                    Outcome::Message(_) => false,
                    Outcome::Fail(fault) => r matches Err(error) && error.reports(fault),
                }
            }),
    {
        let len: usize = buffer_len(src);
        if len < HELLO_TERMINATOR_LEN {
            // Not enough data to check for the terminator yet; must not
            // fall through to chunk-parsing while still in hello phase.
            if let Err(error) = self.check_hello_size(len) {
                return Err(error);
            }
            return Ok(None);
        }
        // Scan only the unscanned portion of `src`
        // (plus a small overlap so a split terminator isn't missed).
        let scan_from: usize = self.hello_scanned.saturating_sub(HELLO_TERMINATOR_LEN - 1);
        let found = find_hello_terminator(buffer_slice(src), scan_from);
        if let Some(pos) = found {
            proof {
                lemma_first_occurrence(octets(*src), hello_terminator(), scan_from as int);
            }
            if let Err(error) = self.check_hello_size(pos) {
                return Err(error);
            }
            let data = split_front(src, pos);
            skip_front(src, HELLO_TERMINATOR_LEN);
            // What follows the hello has not been scanned.
            self.hello_scanned = 0;
            assert(octets(*src) =~= octets(*old(src)).skip(pos + HELLO_TERMINATOR_LEN));
            return Ok(Some(Frame::Hello(data)));
        }
        if let Err(error) = self.check_hello_size(len) {
            return Err(error);
        }
        // Remember how much has been scanned; keep the overlap
        // window unscanned for the next call.
        self.hello_scanned = len - (HELLO_TERMINATOR_LEN - 1);
        Ok(None)
    }

    /// Moves complete chunks from `src` to the buffer and hands out the buffer
    /// where the message terminator follows.
    fn next_message(&mut self, src: &mut BytesMut) -> (r: Result<Option<Frame>, SshCodecError>)
        requires
            readable(old(self)@, octets(*old(src))),
            !old(self)@.in_hello,
        ensures
            ({
                let step = frame_step(old(self)@, octets(*old(src)));
                &&& final(self)@ == step.state
                &&& octets(*final(src)) == step.rest
                &&& match step.outcome {
                    Outcome::Wait => r matches Ok(None),
                    Outcome::Hello(text) => false,
                    Outcome::Message(text) => r matches Ok(Some(Frame::Message(data))) && octets(
                        data,
                    ) == text,
                    Outcome::Fail(fault) => r matches Err(error) && error.reports(fault),
                }
            }),
    {
        let ghost max = self@.max;
        let ghost drained = drain(self@.buffered, octets(*src), max);
        loop
            invariant
                self@ == (CodecState { buffered: self@.buffered, ..old(self)@ }),
                readable(self@, octets(*src)),
                !self@.in_hello,
                max == self@.max,
                drained == drain(self@.buffered, octets(*src), max),
                drained == drain(old(self)@.buffered, octets(*old(src)), max),
            decreases octets(*src).len(),
        {
            proof {
                lemma_ahead_chunk_bounds(self@.buffered.len(), octets(*src), max);
                lemma_drain_never_hello(self@.buffered, octets(*src), max);
            }
            let buffered: usize = buffer_len(&self.buf);
            match next_chunk(buffered, buffer_slice(src), self.max_message_size) {
                Err(error) => {
                    return Err(error);
                },
                Ok(NextChunk::NeedMore) => {
                    return Ok(None);
                },
                Ok(NextChunk::Terminator) => {
                    let data = split_all(&mut self.buf);
                    return Ok(Some(Frame::Message(data)));
                },
                Ok(NextChunk::Chunk { start, end }) => {
                    append_slice(
                        &mut self.buf,
                        vstd::slice::slice_subrange(buffer_slice(src), start, end),
                    );
                    // Advance past this chunk and loop back to the top, where the
                    // next iteration will check whether what follows is another
                    // chunk header or the message terminator.
                    skip_front(src, end);
                },
            }
        }
    }

    /// Ends the hello phase where `parsed` is a hello with the base:1.1
    /// capability.
    pub fn finish_hello(&mut self, parsed: Result<Hello, ParsingError>) -> (r: Result<
        Hello,
        SshCodecError,
    >)
        ensures
            hello_accepted(parsed, r),
            final(self)@ == (if r is Ok {
                after_hello(old(self)@)
            } else {
                old(self)@
            }),
    {
        match parsed {
            Err(error) => Err(SshCodecError::Parsing(error)),
            Ok(hello) => {
                if !hello.supports_base_1_1() {
                    return Err(SshCodecError::IO(FramingError::MissingBaseCapability));
                }
                self.in_hello = false;
                self.hello_scanned = 0;
                Ok(hello)
            },
        }
    }

    /// Takes the message terminator off `src` where the text of the message
    /// could be parsed.
    pub fn finish_message<M>(
        &mut self,
        src: &mut BytesMut,
        parsed: Result<NetConfMessage<M>, ParsingError>,
    ) -> (r: Result<NetConfMessage<M>, SshCodecError>)
        requires
            octets(*old(src)).len() >= MESSAGE_TERMINATOR_LEN,
        ensures
            final(self)@ == old(self)@,
            match parsed {
                Ok(message) => {
                    &&& r matches Ok(result) && result == message
                    &&& octets(*final(src)) == octets(*old(src)).skip(MESSAGE_TERMINATOR_LEN as int)
                },
                Err(error) => {
                    &&& r matches Err(result) && result == SshCodecError::Parsing(error)
                    &&& octets(*final(src)) == octets(*old(src))
                },
            },
    {
        match parsed {
            Err(error) => Err(SshCodecError::Parsing(error)),
            Ok(message) => {
                skip_front(src, MESSAGE_TERMINATOR_LEN);
                Ok(message)
            },
        }
    }

    /// Decodes the next message from the front of `src`: `None` where more
    /// octets are needed. `parse_hello` and `parse_message` turn the text of a
    /// frame into a message.
    pub fn decode<M, H: Fn(BytesMut) -> Result<Hello, ParsingError>, P: Fn(BytesMut) -> Result<
        NetConfMessage<M>,
        ParsingError,
    >>(&mut self, src: &mut BytesMut, parse_hello: H, parse_message: P) -> (r: Result<
        Option<NetConfMessage<M>>,
        SshCodecError,
    >)
        requires
            readable(old(self)@, octets(*old(src))),
            forall|data: BytesMut| #[trigger] call_requires(parse_hello, (data,)),
            forall|data: BytesMut| #[trigger] call_requires(parse_message, (data,)),
        ensures
            decodes(
                old(self)@,
                octets(*old(src)),
                parse_hello,
                parse_message,
                r,
                final(self)@,
                octets(*final(src)),
            ),
    {
        proof {
            lemma_drain_rest(self@.buffered, octets(*src), self@.max);
        }
        match self.next_frame(src) {
            Err(error) => Err(error),
            Ok(None) => Ok(None),
            Ok(Some(Frame::Hello(data))) => {
                let ghost text = data;
                let parsed = parse_hello(data);
                assert(call_ensures(parse_hello, (text,), parsed));
                match self.finish_hello(parsed) {
                    Ok(hello) => Ok(Some(NetConfMessage::Hello(hello))),
                    Err(error) => Err(error),
                }
            },
            Ok(Some(Frame::Message(data))) => {
                let ghost text = data;
                let parsed = parse_message(data);
                assert(call_ensures(parse_message, (text,), parsed));
                match self.finish_message(src, parsed) {
                    Ok(message) => Ok(Some(message)),
                    Err(error) => Err(error),
                }
            },
        }
    }

    /// Appends the frame of `item` to `dst`, where `serialized` is the result of
    /// writing `item` as XML. An error leaves `dst` as it is.
    pub fn encode<M>(
        &mut self,
        item: &NetConfMessage<M>,
        serialized: Result<Vec<u8>, SerializationError>,
        dst: &mut BytesMut,
    ) -> (r: Result<(), SshCodecError>)
        requires
            serialized matches Ok(xml) ==> octets(*old(dst)).len() + encoded_frame(
                item is Hello,
                xml@,
            ).len() <= isize::MAX,
        ensures
            final(self)@ == old(self)@,
            encodes(octets(*old(dst)), *item, serialized, r, octets(*final(dst))),
    {
        let xml = match serialized {
            Ok(xml) => xml,
            Err(error) => {
                return Err(SshCodecError::Serialization(error));
            },
        };
        let hello = match item {
            NetConfMessage::Hello(_) => true,
            NetConfMessage::Other(_) => false,
        };
        if hello {
            append_slice(dst, "<?xml version=\"1.0\" encoding=\"utf-8\"?>".as_bytes());
            append_slice(dst, xml.as_slice());
            append_slice(dst, [93u8, 93, 62, 93, 93, 62].as_slice());
            assert([93u8, 93, 62, 93, 93, 62]@ =~= hello_terminator());
        } else {
            let size = to_decimal(xml.len());
            append_slice(dst, [10u8, 35].as_slice());
            append_slice(dst, size.as_slice());
            append_slice(dst, [10u8].as_slice());
            append_slice(dst, xml.as_slice());
            append_slice(dst, [10u8, 35, 35, 10].as_slice());
            assert([10u8, 35, 35, 10]@ =~= message_terminator());
            assert([10u8, 35]@ =~= seq![10u8, 35]);
            assert([10u8]@ =~= seq![10u8]);
        }
        assert(octets(*dst) =~= octets(*old(dst)) + encoded_frame(item is Hello, xml@));
        Ok(())
    }
}

impl Default for SshCodec {
    fn default() -> (codec: Self)
        ensures
            codec@ == fresh_state(DEFAULT_MAX_MESSAGE_SIZE as nat),
    {
        Self::new()
    }
}

/// Finds the first `]]>]]>` at or after `from`.
fn find_hello_terminator(src: &[u8], from: usize) -> (r: Option<usize>)
    requires
        from <= src@.len(),
        src@.len() <= isize::MAX,
    ensures
        match first_occurrence(src@, hello_terminator(), from as int) {
            Some(at) => r == Some(at as usize) && at + HELLO_TERMINATOR_LEN <= src@.len(),
            None => r is None,
        },
{
    let len: usize = src.len();
    let mut at: usize = from;
    while at + HELLO_TERMINATOR_LEN <= len
        invariant
            from <= at <= len,
            len == src@.len(),
            len <= isize::MAX,
            first_occurrence(src@, hello_terminator(), from as int) == first_occurrence(
                src@,
                hello_terminator(),
                at as int,
            ),
        decreases len - at,
    {
        let here = src[at] == 93 && src[at + 1] == 93 && src[at + 2] == 62 && src[at + 3] == 93
            && src[at + 4] == 93 && src[at + 5] == 62;
        proof {
            let pattern = hello_terminator();
            if here {
                assert forall|k: int| 0 <= k < pattern.len() implies #[trigger] pattern[k]
                    == src@[at + k] by {}
            } else if occurs_at(src@, pattern, at as int) {
                assert(pattern[0] == src@[at + 0]);
                assert(pattern[1] == src@[at + 1]);
                assert(pattern[2] == src@[at + 2]);
                assert(pattern[3] == src@[at + 3]);
                assert(pattern[4] == src@[at + 4]);
                assert(pattern[5] == src@[at + 5]);
            }
        }
        if here {
            return Some(at);
        }
        at += 1;
    }
    None
}

/// Finds the first newline from `from` up to `to`.
fn find_newline(src: &[u8], from: usize, to: usize) -> (r: Option<usize>)
    requires
        from <= to <= src@.len(),
    ensures
        match newline_between(src@, from as int, to as int) {
            Some(at) => r == Some(at as usize) && from <= at < to,
            None => r is None,
        },
{
    let mut at: usize = from;
    while at < to
        invariant
            from <= at <= to <= src@.len(),
            newline_between(src@, from as int, to as int) == newline_between(
                src@,
                at as int,
                to as int,
            ),
        decreases to - at,
    {
        if src[at] == 10 {
            return Some(at);
        }
        at += 1;
    }
    None
}

/// Looks at the front of a chunked message.
fn next_chunk(buffered: usize, src: &[u8], max_message_size: usize) -> (r: Result<
    NextChunk,
    SshCodecError,
>)
    requires
        src@.len() <= isize::MAX,
    ensures
        match ahead(buffered as nat, src@, max_message_size as nat) {
            Ahead::NeedMore => r matches Ok(NextChunk::NeedMore),
            Ahead::Terminator => r matches Ok(NextChunk::Terminator),
            Ahead::Chunk { start, end } => r matches Ok(NextChunk::Chunk { start: s, end: e }) && s
                == start && e == end,
            Ahead::Faulty(fault) => r matches Err(error) && error.reports(fault),
        },
{
    let len: usize = src.len();
    // Check if we have enough data to verify the chunk start sequence.
    if len < 2 {
        return Ok(NextChunk::NeedMore);
    }
    // Verify the chunk start sequence
    if src[0] != 10 || src[1] != 35 {
        return Err(SshCodecError::IO(FramingError::MissingChunkStart));
    }
    // A chunk header ("\n#<digits>\n") and the terminator ("\n##\n")
    // share the "\n#" prefix, diverging only at the next byte.
    if len < 3 {
        return Ok(NextChunk::NeedMore);
    }
    if src[2] == 35 {
        if len < MESSAGE_TERMINATOR_LEN {
            // Have "\n##" but not the trailing '\n' yet.
            return Ok(NextChunk::NeedMore);
        }
        if src[3] != 10 {
            return Err(SshCodecError::IO(FramingError::MalformedTerminator));
        }
        return Ok(NextChunk::Terminator);
    }
    // Look for the newline after the chunk size, bounded by the
    // maximum possible size-field length. RFC 6242 maximum size
    // is 4294967295, so the size field will not exceed 11 characters
    // (including the newline).
    let search_len: usize = if len - 2 < MAX_CHUNK_SIZE_LEN + 1 {
        len - 2
    } else {
        MAX_CHUNK_SIZE_LEN + 1
    };
    let size_end: usize = match find_newline(src, 2, 2 + search_len) {
        Some(pos) => pos,
        None => {
            if search_len > MAX_CHUNK_SIZE_LEN {
                return Err(SshCodecError::IO(FramingError::UnterminatedChunkSize));
            }
            // Not enough data yet to find the size terminator.
            return Ok(NextChunk::NeedMore);
        },
    };
    let field = vstd::slice::slice_subrange(src, 2, size_end);
    let field_text = match utf8_text(field) {
        Ok(text) => text,
        Err(error) => {
            return Err(SshCodecError::Utf(error));
        },
    };
    // RFC 6242 chunk-size: at least one digit,
    // leading zeros are prohibited
    if field.len() == 0 || field[0] == 48 {
        return Err(
            SshCodecError::IO(FramingError::InvalidChunkSizeText { text: field_text.to_owned() }),
        );
    }
    let chunk_size: usize = match parse_short_usize(field) {
        Ok(chunk_size) => chunk_size,
        Err(kind) => {
            return Err(SshCodecError::Int(kind));
        },
    };
    // Validate chunk size per RFC 6242
    if chunk_size == 0 || chunk_size > MAX_CHUNK_SIZE {
        return Err(SshCodecError::IO(FramingError::InvalidChunkSize { chunk_size }));
    }
    // Bound the reassembled message size to avoid unbounded memory
    // growth from a peer that never sends the terminator. Use
    // `saturating_add` to avoid usize overflows on 32-bit targets.
    if buffered.saturating_add(chunk_size) > max_message_size {
        return Err(SshCodecError::IO(FramingError::MessageTooLarge { max_message_size }));
    }
    // Check if we have the complete chunk
    let start: usize = size_end + 1;
    let end: usize = start.saturating_add(chunk_size);
    if len < end {
        return Ok(NextChunk::NeedMore);
    }
    Ok(NextChunk::Chunk { start, end })
}

} // verus!
