//! What holds of the NETCONF codec as a whole.
use crate::netconf::codec::{
    after_hello, decodes, encodes, Hello, NetConfMessage, ParsingError, SshCodecError,
};
use crate::netconf::framing::{
    encoded_frame, first_occurrence, frame_step, hello_terminator, joined, lemma_drain_in_pieces,
    lemma_drain_never_hello, lemma_drain_rest, lemma_first_occurrence, lemma_first_occurrence_at,
    lemma_frame_in_pieces, lemma_hello_in_pieces, lemma_hello_read_back, lemma_message_read_back,
    lemma_resumed_search, occurs_at, scan_start, scanned_in_vain, xml_header, CodecState, Outcome,
    HELLO_TERMINATOR_LEN, MAX_CHUNK_SIZE, MESSAGE_TERMINATOR_LEN,
};
use crate::octets::octets;
use bytes::BytesMut;
use vstd::prelude::*;

verus! {

/// What comes of decoding until more octets are needed, or until an error.
pub struct Session {
    /// The frames that were handed out.
    pub frames: Seq<Outcome>,
    /// Whether it ended in an error.
    pub failed: bool,
    pub state: CodecState,
    pub rest: Seq<u8>,
}

/// Decodes until more octets are needed, or until an error. `accepts` tells of
/// which frames the parsers make a message.
pub open spec fn session(
    state: CodecState,
    src: Seq<u8>,
    accepts: spec_fn(Outcome) -> bool,
) -> Session
    decreases src.len(),
{
    let step = frame_step(state, src);
    let failed = Session { frames: Seq::empty(), failed: true, state: step.state, rest: step.rest };
    let (next, rest) = if step.outcome is Hello {
        (after_hello(step.state), step.rest)
    } else {
        (step.state, step.rest.skip(MESSAGE_TERMINATOR_LEN as int))
    };
    match step.outcome {
        Outcome::Wait => Session { failed: false, ..failed },
        Outcome::Fail(_) => failed,
        _ => if !accepts(step.outcome) || rest.len() >= src.len() {
            failed
        } else {
            let later = session(next, rest, accepts);
            Session { frames: seq![step.outcome] + later.frames, ..later }
        },
    }
}

/// Decodes `pieces` as they arrive one by one behind `src`, each until more
/// octets are needed.
pub open spec fn session_in_pieces(
    state: CodecState,
    src: Seq<u8>,
    pieces: Seq<Seq<u8>>,
    accepts: spec_fn(Outcome) -> bool,
) -> Session
    decreases pieces.len(),
{
    if pieces.len() == 0 {
        Session { frames: Seq::empty(), failed: false, state, rest: src }
    } else {
        let first = session(state, src + pieces[0], accepts);
        if first.failed {
            first
        } else {
            let later = session_in_pieces(first.state, first.rest, pieces.skip(1), accepts);
            Session { frames: first.frames + later.frames, ..later }
        }
    }
}

/// The hello that is awaited, if it is complete, fits together with its
/// terminator.
pub open spec fn hello_fits(state: CodecState, src: Seq<u8>) -> bool {
    state.in_hello ==> match first_occurrence(
        src,
        hello_terminator(),
        scan_start(state.hello_scanned),
    ) {
        Some(at) => at + HELLO_TERMINATOR_LEN <= state.max,
        None => true,
    }
}

proof fn lemma_occurrence_stays(text: Seq<u8>, more: Seq<u8>, from: int, at: int)
    requires
        0 <= from,
    ensures
        at + HELLO_TERMINATOR_LEN <= text.len() ==> occurs_at(text, hello_terminator(), at)
            == occurs_at(text + more, hello_terminator(), at),
        first_occurrence(text, hello_terminator(), from) is Some ==> first_occurrence(
            text + more,
            hello_terminator(),
            from,
        ) == first_occurrence(text, hello_terminator(), from),
{
    let pattern = hello_terminator();
    let whole = text + more;
    assert forall|i: int| i + HELLO_TERMINATOR_LEN <= text.len() implies #[trigger] occurs_at(
        text,
        pattern,
        i,
    ) == occurs_at(whole, pattern, i) by {
        if 0 <= i && occurs_at(whole, pattern, i) {
            assert forall|k: int| 0 <= k < pattern.len() implies #[trigger] pattern[k] == text[i
                + k] by {
                assert(pattern[k] == whole[i + k]);
            }
        }
    }
    lemma_first_occurrence(text, pattern, from);
    if let Some(found) = first_occurrence(text, pattern, from) {
        assert(occurs_at(whole, pattern, found));
        assert forall|i: int| from <= i < found implies !#[trigger] occurs_at(
            whole,
            pattern,
            i,
        ) by {
            assert(!occurs_at(text, pattern, i));
        }
        lemma_first_occurrence_at(whole, pattern, from, found);
    }
}

/// A frame that is complete, or an error of a chunk, is the same whatever arrives
/// behind it.
proof fn lemma_frame_stays(state: CodecState, src: Seq<u8>, more: Seq<u8>)
    requires
        hello_fits(state, src + more),
        !(frame_step(state, src + more).outcome is Fail),
    ensures
        ({
            let step = frame_step(state, src);
            let whole = frame_step(state, src + more);
            &&& !(step.outcome is Fail)
            &&& !(step.outcome is Wait) ==> {
                &&& whole.outcome == step.outcome
                &&& whole.state == step.state
                &&& whole.rest == step.rest + more
                &&& step.rest.len() <= src.len()
                &&& step.outcome is Hello ==> state.in_hello && step.rest.len() < src.len()
                &&& step.outcome is Message ==> !state.in_hello && MESSAGE_TERMINATOR_LEN
                    <= step.rest.len()
            }
        }),
{
    let whole = src + more;
    if state.in_hello {
        let from = scan_start(state.hello_scanned);
        let pattern = hello_terminator();
        lemma_first_occurrence(src, pattern, from);
        lemma_first_occurrence(whole, pattern, from);
        lemma_occurrence_stays(src, more, from, 0);
        if let Some(at) = first_occurrence(src, pattern, from) {
            assert(whole.take(at) =~= src.take(at));
            assert(whole.skip(at + HELLO_TERMINATOR_LEN) =~= src.skip(at + HELLO_TERMINATOR_LEN)
                + more);
        } else if let Some(at) = first_occurrence(whole, pattern, from) {
            lemma_occurrence_stays(src, more, from, at);
        }
    } else {
        lemma_drain_in_pieces(state.buffered, src, more, state.max);
        lemma_drain_never_hello(state.buffered, src, state.max);
        lemma_drain_rest(state.buffered, src, state.max);
    }
}

/// A frame takes octets from the front, and leaves the terminator of a message.
proof fn lemma_frame_progress(state: CodecState, src: Seq<u8>)
    ensures
        ({
            let step = frame_step(state, src);
            &&& step.outcome is Hello ==> step.rest.len() < src.len()
            &&& step.outcome is Message ==> MESSAGE_TERMINATOR_LEN <= step.rest.len() <= src.len()
        }),
{
    if state.in_hello {
        lemma_first_occurrence(src, hello_terminator(), scan_start(state.hello_scanned));
    } else {
        lemma_drain_never_hello(state.buffered, src, state.max);
        lemma_drain_rest(state.buffered, src, state.max);
    }
}

/// A session rests on its first step alone.
proof fn lemma_same_step(
    state1: CodecState,
    src1: Seq<u8>,
    state2: CodecState,
    src2: Seq<u8>,
    accepts: spec_fn(Outcome) -> bool,
)
    requires
        frame_step(state1, src1) == frame_step(state2, src2),
    ensures
        session(state1, src1, accepts) == session(state2, src2, accepts),
{
    lemma_frame_progress(state1, src1);
    lemma_frame_progress(state2, src2);
}

/// A session on all of the octets is a session on the first of them that has to
/// wait, continued when the others arrive.
proof fn lemma_session_waits(
    state: CodecState,
    src: Seq<u8>,
    more: Seq<u8>,
    accepts: spec_fn(Outcome) -> bool,
)
    requires
        state.in_hello ==> scanned_in_vain(state, src),
        frame_step(state, src).outcome is Wait,
        !(frame_step(state, src + more).outcome is Fail),
        hello_fits(state, src + more),
    ensures
        ({
            let step = frame_step(state, src);
            &&& session(state, src, accepts) == (Session {
                frames: Seq::empty(),
                failed: false,
                state: step.state,
                rest: step.rest,
            })
            &&& session(step.state, step.rest + more, accepts) == session(
                state,
                src + more,
                accepts,
            )
            &&& step.state.in_hello ==> scanned_in_vain(step.state, step.rest)
            &&& hello_fits(step.state, step.rest + more)
        }),
{
    let step = frame_step(state, src);
    lemma_frame_in_pieces(state, src, more);
    lemma_frame_in_pieces(state, src, Seq::empty());
    assert(step.rest + Seq::<u8>::empty() =~= step.rest);
    lemma_same_step(step.state, step.rest + more, state, src + more, accepts);
    if state.in_hello {
        lemma_hello_in_pieces(state, src, more);
        lemma_resumed_search(step.state, src + more);
        lemma_scanned_extends(state, src, more);
        lemma_resumed_search(state, src + more);
    }
}

/// A session on all of the octets is a session on the first of them, continued
/// when the others arrive.
proof fn lemma_session_cut(
    state: CodecState,
    src: Seq<u8>,
    more: Seq<u8>,
    accepts: spec_fn(Outcome) -> bool,
)
    requires
        state.in_hello ==> scanned_in_vain(state, src),
        hello_fits(state, src + more),
        !session(state, src + more, accepts).failed,
    ensures
        ({
            let first = session(state, src, accepts);
            let second = session(first.state, first.rest + more, accepts);
            let whole = session(state, src + more, accepts);
            &&& !first.failed
            &&& whole == (Session { frames: first.frames + second.frames, ..second })
            &&& first.state.in_hello ==> scanned_in_vain(first.state, first.rest)
            &&& hello_fits(first.state, first.rest + more)
        }),
    decreases src.len(),
{
    let step = frame_step(state, src);
    let first = session(state, src, accepts);
    lemma_frame_stays(state, src, more);
    if step.outcome is Wait {
        lemma_session_waits(state, src, more, accepts);
        let second = session(first.state, first.rest + more, accepts);
        assert(first.frames + second.frames =~= second.frames);
    } else {
        let (next, rest) = if step.outcome is Hello {
            (after_hello(step.state), step.rest)
        } else {
            (step.state, step.rest.skip(MESSAGE_TERMINATOR_LEN as int))
        };
        let whole_step = frame_step(state, src + more);
        if step.outcome is Message {
            assert(whole_step.rest.skip(MESSAGE_TERMINATOR_LEN as int) =~= rest + more);
        }
        lemma_session_cut(next, rest, more, accepts);
        let later = session(next, rest, accepts);
        let second = session(later.state, later.rest + more, accepts);
        assert((seq![step.outcome] + later.frames) + second.frames =~= seq![step.outcome] + (
        later.frames + second.frames));
    }
}

/// What was searched in vain stays so when more octets arrive.
proof fn lemma_scanned_extends(state: CodecState, src: Seq<u8>, more: Seq<u8>)
    requires
        scanned_in_vain(state, src),
    ensures
        scanned_in_vain(state, src + more),
{
    assert forall|i: int| 0 <= i < scan_start(state.hello_scanned) implies !#[trigger] occurs_at(
        src + more,
        hello_terminator(),
        i,
    ) by {
        lemma_occurrence_stays(src, more, 0, i);
        assert(!occurs_at(src, hello_terminator(), i));
    }
}

/// Where the stream of octets is cut makes no difference: a codec that is given
/// the octets piece by piece hands out the same messages as one that is given
/// them at once, and is left with the same octets. That holds of every stream
/// that is decoded without an error, if the hello in it fits together with its
/// terminator.
pub proof fn lemma_cuts_make_no_difference(
    state: CodecState,
    src: Seq<u8>,
    pieces: Seq<Seq<u8>>,
    accepts: spec_fn(Outcome) -> bool,
)
    requires
        pieces.len() > 0,
        state.in_hello ==> scanned_in_vain(state, src),
        hello_fits(state, src + joined(pieces)),
        !session(state, src + joined(pieces), accepts).failed,
    ensures
        session_in_pieces(state, src, pieces, accepts) == session(
            state,
            src + joined(pieces),
            accepts,
        ),
    decreases pieces.len(),
{
    let head = src + pieces[0];
    let tail = pieces.skip(1);
    let more = joined(tail);
    let first = session(state, head, accepts);
    assert(src + joined(pieces) =~= head + more);
    if state.in_hello {
        lemma_scanned_extends(state, src, pieces[0]);
    }
    lemma_session_cut(state, head, more, accepts);
    if tail.len() == 0 {
        reveal_with_fuel(session_in_pieces, 2);
        assert(head + more =~= head);
        assert(first.frames + Seq::<Outcome>::empty() =~= first.frames);
    } else {
        lemma_cuts_make_no_difference(first.state, first.rest, tail, accepts);
    }
}

/// A session is what repeated calls of `decode` do: a call that gives a message
/// takes the first frame and leaves the session of what follows, a call that gives
/// nothing ends the session, and a call that fails ends it in an error. What
/// `accepts` tells of the frame is whether its parser made a message of it.
pub proof fn lemma_session_is_repeated_decoding<
    M,
    H: Fn(BytesMut) -> Result<Hello, ParsingError>,
    P: Fn(BytesMut) -> Result<NetConfMessage<M>, ParsingError>,
>(
    state: CodecState,
    src: Seq<u8>,
    parse_hello: H,
    parse_message: P,
    accepts: spec_fn(Outcome) -> bool,
    r: Result<Option<NetConfMessage<M>>, SshCodecError>,
    after: CodecState,
    rest: Seq<u8>,
)
    requires
        decodes(state, src, parse_hello, parse_message, r, after, rest),
        accepts(frame_step(state, src).outcome) == (r is Ok),
    ensures
        match r {
            Ok(Some(_)) => {
                let later = session(after, rest, accepts);
                session(state, src, accepts) == (Session {
                    frames: seq![frame_step(state, src).outcome] + later.frames,
                    ..later
                })
            },
            Ok(None) => session(state, src, accepts) == (Session {
                frames: Seq::empty(),
                failed: false,
                state: after,
                rest,
            }),
            Err(_) => session(state, src, accepts) == (Session {
                frames: Seq::empty(),
                failed: true,
                state: after,
                rest,
            }),
        },
{
    lemma_frame_progress(state, src);
}

/// A message other than a hello is decoded from what `encode` wrote, and only
/// what follows it is left. The parser makes of its XML form the message again.
/// An XML form that is empty, or longer than a chunk can be, is excluded: it is
/// written as a chunk that is not well-formed.
pub proof fn lemma_encoded_message_is_decoded<
    M,
    H: Fn(BytesMut) -> Result<Hello, ParsingError>,
    P: Fn(BytesMut) -> Result<NetConfMessage<M>, ParsingError>,
>(
    item: NetConfMessage<M>,
    xml: Vec<u8>,
    written: Result<(), SshCodecError>,
    dst: Seq<u8>,
    more: Seq<u8>,
    state: CodecState,
    parse_hello: H,
    parse_message: P,
    r: Result<Option<NetConfMessage<M>>, SshCodecError>,
    after: CodecState,
    rest: Seq<u8>,
)
    requires
        item is Other,
        encodes(Seq::empty(), item, Ok(xml), written, dst),
        1 <= xml@.len() <= MAX_CHUNK_SIZE,
        !state.in_hello,
        state.buffered.len() == 0,
        dst.len() <= state.max <= usize::MAX,
        forall|data: BytesMut, parsed: Result<NetConfMessage<M>, ParsingError>|
            octets(data) == xml@ && #[trigger] call_ensures(
                parse_message,
                (data,),
                parsed,
            ) ==> parsed == Ok::<NetConfMessage<M>, ParsingError>(item),
        decodes(state, dst + more, parse_hello, parse_message, r, after, rest),
    ensures
        r == Ok::<Option<NetConfMessage<M>>, SshCodecError>(Some(item)),
        rest == more,
        after == state,
{
    let frame = encoded_frame(false, xml@);
    assert(Seq::<u8>::empty() + frame =~= frame);
    assert(dst == frame);
    lemma_message_read_back(state, xml@, more);
}

/// A hello that announces base:1.1 is decoded from what `encode` wrote, and only
/// what follows it is left. The parser makes of its text the hello again, and the
/// text does not hold the terminator.
pub proof fn lemma_encoded_hello_is_decoded<
    M,
    H: Fn(BytesMut) -> Result<Hello, ParsingError>,
    P: Fn(BytesMut) -> Result<NetConfMessage<M>, ParsingError>,
>(
    hello: Hello,
    xml: Vec<u8>,
    written: Result<(), SshCodecError>,
    dst: Seq<u8>,
    more: Seq<u8>,
    state: CodecState,
    parse_hello: H,
    parse_message: P,
    r: Result<Option<NetConfMessage<M>>, SshCodecError>,
    after: CodecState,
    rest: Seq<u8>,
)
    requires
        hello.announces_base_1_1(),
        encodes(Seq::empty(), NetConfMessage::<M>::Hello(hello), Ok(xml), written, dst),
        forall|i: int|
            0 <= i < xml_header().len() + xml@.len() ==> !#[trigger] occurs_at(
                dst,
                hello_terminator(),
                i,
            ),
        state.in_hello,
        state.hello_scanned == 0,
        state.buffered.len() == 0,
        dst.len() <= state.max,
        forall|data: BytesMut, parsed: Result<Hello, ParsingError>|
            octets(data) == xml_header() + xml@ && #[trigger] call_ensures(
                parse_hello,
                (data,),
                parsed,
            ) ==> parsed == Ok::<Hello, ParsingError>(hello),
        decodes(state, dst + more, parse_hello, parse_message, r, after, rest),
    ensures
        r == Ok::<Option<NetConfMessage<M>>, SshCodecError>(Some(NetConfMessage::Hello(hello))),
        rest == more,
        after == after_hello(state),
{
    let text = xml_header() + xml@;
    let frame = encoded_frame(true, xml@);
    assert(Seq::<u8>::empty() + frame =~= frame);
    assert(dst =~= text + hello_terminator());
    assert(dst + more =~= text + hello_terminator() + more);
    assert forall|i: int| 0 <= i < text.len() implies !#[trigger] occurs_at(
        text + hello_terminator() + more,
        hello_terminator(),
        i,
    ) by {
        lemma_occurrence_stays(dst, more, 0, i);
        assert(!occurs_at(dst, hello_terminator(), i));
    }
    assert(state.buffered =~= Seq::<u8>::empty());
    lemma_hello_read_back(text, more, state.max);
}

} // verus!
