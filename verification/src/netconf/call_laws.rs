//! What the calls of the NETCONF codec and of the module cache give and change.
use crate::decimal::numeral;
use crate::netconf::codec::{
    decodes, readable, Capability, Frame, FramingError, Hello, NetConfMessage, NetconfVersion,
    ParsingError, SerializationError, SshCodec, SshCodecError,
};
use crate::netconf::framing::{frame_step, scanned_in_vain, Outcome};
use crate::netconf::framing_laws::{
    hello_ends_at, lemma_hello_by_capabilities, lemma_written_frames,
};
use crate::netconf::yang_module_cache::{
    after_get, after_insert, empty_store, lemma_keys_are_distinct, ModulePromise, ModuleStore,
    StoreState, YangModuleCache, YangModuleCacheStats,
};
use crate::octets::octets;
use bytes::BytesMut;
use std::sync::Arc;
use vstd::prelude::*;
use vstd::utf8::encode_utf8;

verus! {

/// A call of `decode` on a hello: it is given out exactly where base:1.1 is among its
/// capabilities, in whatever place, and then chunked messages follow. Otherwise it
/// is refused, and a hello is still awaited. Either way it is taken off.
pub proof fn lemma_decode_hello<
    M,
    H: Fn(BytesMut) -> Result<Hello, ParsingError>,
    P: Fn(BytesMut) -> Result<NetConfMessage<M>, ParsingError>,
>(
    codec: &mut SshCodec,
    src: &mut BytesMut,
    parse_hello: H,
    parse_message: P,
    r: Result<Option<NetConfMessage<M>>, SshCodecError>,
    at: int,
    hello: Hello,
)
    requires
        call_ensures(SshCodec::decode::<M, H, P>, (codec, src, parse_hello, parse_message), r),
        old(codec)@.in_hello,
        scanned_in_vain(old(codec)@, octets(*old(src))),
        hello_ends_at(octets(*old(src)), at),
        at <= old(codec)@.max,
        forall|data: BytesMut, parsed: Result<Hello, ParsingError>|
            octets(data) == octets(*old(src)).take(at) && #[trigger] call_ensures(
                parse_hello,
                (data,),
                parsed,
            ) ==> parsed == Ok::<Hello, ParsingError>(hello),
    ensures
        octets(*final(src)) == octets(*old(src)).skip(at + 6),
        ({
            let base = Capability::NetconfBase(NetconfVersion::V1_1);
            if hello.capabilities@.contains(base) {
                &&& r == Ok::<Option<NetConfMessage<M>>, SshCodecError>(
                    Some(NetConfMessage::Hello(hello)),
                )
                &&& !final(codec)@.in_hello
            } else {
                &&& r == Err::<Option<NetConfMessage<M>>, SshCodecError>(
                    SshCodecError::IO(FramingError::MissingBaseCapability),
                )
                &&& final(codec)@.in_hello
            }
        }),
        final(codec)@.hello_scanned == 0,
        final(codec)@.buffered == old(codec)@.buffered,
        final(codec)@.max == old(codec)@.max,
{
    let base = Capability::NetconfBase(NetconfVersion::V1_1);
    lemma_hello_by_capabilities(
        old(codec)@,
        octets(*old(src)),
        at,
        hello,
        parse_hello,
        parse_message,
        r,
        final(codec)@,
        octets(*final(src)),
    );
    if hello.capabilities@.contains(base) {
        let i = choose|i: int| 0 <= i < hello.capabilities@.len() && hello.capabilities@[i] == base;
        assert(hello.capabilities@[i] == base);
    } else {
        assert forall|i: int| 0 <= i < hello.capabilities@.len() implies
            #[trigger] hello.capabilities@[i] != base by {}
    }
}

/// What `decode` gives and changes in every case.
pub proof fn lemma_decode<
    M,
    H: Fn(BytesMut) -> Result<Hello, ParsingError>,
    P: Fn(BytesMut) -> Result<NetConfMessage<M>, ParsingError>,
>(
    codec: &mut SshCodec,
    src: &mut BytesMut,
    parse_hello: H,
    parse_message: P,
    r: Result<Option<NetConfMessage<M>>, SshCodecError>,
)
    requires
        call_ensures(SshCodec::decode::<M, H, P>, (codec, src, parse_hello, parse_message), r),
    ensures
        decodes(
            old(codec)@,
            octets(*old(src)),
            parse_hello,
            parse_message,
            r,
            final(codec)@,
            octets(*final(src)),
        ),
        r matches Ok(None) <==> frame_step(old(codec)@, octets(*old(src))).outcome is Wait,
{
}

/// What `next_frame` gives and changes.
pub proof fn lemma_next_frame(
    codec: &mut SshCodec,
    src: &mut BytesMut,
    r: Result<Option<Frame>, SshCodecError>,
)
    requires
        call_ensures(SshCodec::next_frame, (codec, src), r),
    ensures
        ({
            let step = frame_step(old(codec)@, octets(*old(src)));
            &&& final(codec)@ == step.state
            &&& octets(*final(src)) == step.rest
            &&& match step.outcome {
                Outcome::Wait => r matches Ok(None),
                Outcome::Hello(text) => r matches Ok(Some(Frame::Hello(data))) && octets(data)
                    == text,
                Outcome::Message(text) => r matches Ok(Some(Frame::Message(data))) && octets(data)
                    == text,
                Outcome::Fail(fault) => r matches Err(error) && error.reports(fault),
            }
        }),
{
}

/// A hello that was parsed is accepted exactly where base:1.1 is among its
/// capabilities.
pub proof fn lemma_finish_hello(
    codec: &mut SshCodec,
    parsed: Result<Hello, ParsingError>,
    r: Result<Hello, SshCodecError>,
)
    requires
        call_ensures(SshCodec::finish_hello, (codec, parsed), r),
    ensures
        parsed matches Err(error) ==> r == Err::<Hello, _>(SshCodecError::Parsing(error)),
        parsed matches Ok(hello) ==> {
            let base = Capability::NetconfBase(NetconfVersion::V1_1);
            &&& hello.capabilities@.contains(base) ==> r == Ok::<Hello, SshCodecError>(hello)
            &&& !hello.capabilities@.contains(base) ==> r == Err::<Hello, _>(
                SshCodecError::IO(FramingError::MissingBaseCapability),
            )
        },
        final(codec)@.in_hello <==> old(codec)@.in_hello && r is Err,
        r is Err ==> final(codec)@ == old(codec)@,
        final(codec)@.buffered == old(codec)@.buffered,
        final(codec)@.max == old(codec)@.max,
{
    if let Ok(hello) = parsed {
        let base = Capability::NetconfBase(NetconfVersion::V1_1);
        if hello.capabilities@.contains(base) {
            let i = choose|i: int|
                0 <= i < hello.capabilities@.len() && hello.capabilities@[i] == base;
            assert(hello.capabilities@[i] == base);
        }
    }
}

/// A message that was parsed takes its terminator along; any other leaves it.
pub proof fn lemma_finish_message<M>(
    codec: &mut SshCodec,
    src: &mut BytesMut,
    parsed: Result<NetConfMessage<M>, ParsingError>,
    r: Result<NetConfMessage<M>, SshCodecError>,
)
    requires
        call_ensures(SshCodec::finish_message::<M>, (codec, src, parsed), r),
    ensures
        final(codec)@ == old(codec)@,
        parsed matches Ok(message) ==> r == Ok::<_, SshCodecError>(message) && octets(*final(src))
            == octets(*old(src)).skip(4),
        parsed matches Err(error) ==> r == Err::<NetConfMessage<M>, _>(
            SshCodecError::Parsing(error),
        ) && octets(*final(src)) == octets(*old(src)),
{
}

/// What `encode` writes behind what is there: a hello behind the XML declaration and
/// in front of `]]>]]>`, any other message as one chunk in front of `\n##\n`.
pub proof fn lemma_encode<M>(
    codec: &mut SshCodec,
    item: &NetConfMessage<M>,
    serialized: Result<Vec<u8>, SerializationError>,
    dst: &mut BytesMut,
    r: Result<(), SshCodecError>,
)
    requires
        call_ensures(SshCodec::encode::<M>, (codec, item, serialized, dst), r),
    ensures
        final(codec)@ == old(codec)@,
        match serialized {
            Ok(xml) => {
                &&& r is Ok
                &&& item is Hello ==> octets(*final(dst)) == octets(*old(dst)) + encode_utf8(
                    "<?xml version=\"1.0\" encoding=\"utf-8\"?>"@,
                ) + xml@ + seq![93u8, 93, 62, 93, 93, 62]
                &&& item is Other ==> octets(*final(dst)) == octets(*old(dst)) + seq![10u8, 35]
                    + numeral(xml@.len()) + seq![10u8] + xml@ + seq![10u8, 35, 35, 10]
            },
            Err(error) => {
                &&& r == Err::<(), SshCodecError>(SshCodecError::Serialization(error))
                &&& octets(*final(dst)) == octets(*old(dst))
            },
        },
{
    lemma_written_frames(octets(*old(dst)), *item, serialized, r, octets(*final(dst)));
}

/// What a codec tells of its limit, and of what it can read: anything that fits into
/// memory with what is buffered, once the hello is over or before it was searched.
pub proof fn lemma_codec_asked(codec: &SshCodec, src: &BytesMut, max: usize, can_read: bool)
    requires
        call_ensures(SshCodec::max_message_size, (codec,), max),
        call_ensures(SshCodec::can_read, (codec, src), can_read),
    ensures
        max == codec@.max,
        can_read <==> readable(codec@, octets(*src)),
        !codec@.in_hello || codec@.hello_scanned == 0 ==> (can_read <==> codec@.buffered.len()
            + octets(*src).len() <= isize::MAX),
{
}

/// What a call of `get` found is what it gave, and it left every module as it was.
pub proof fn lemma_shared_get<P: ModulePromise>(
    cache: &YangModuleCache<P>,
    name: &str,
    revision: &str,
    r: Option<Arc<str>>,
)
    requires
        call_ensures(YangModuleCache::<P>::get, (cache, name, revision), r),
    ensures
        exists|seen: StoreState, left: StoreState|
            {
                &&& #[trigger] cache.replaced(seen, left)
                &&& r is Some <==> seen.modules.contains_key((name@, revision@))
                &&& r is Some ==> r == Some(seen.modules[(name@, revision@)])
                &&& left.modules == seen.modules
                &&& left == after_get(seen, name@, revision@)
            },
        r matches Some(text) ==> P::kept(name@, revision@, text),
{
}

/// A call of `insert` puts back a store that holds the module, with the text that was
/// there or else with the given one, and every other module as it was.
pub proof fn lemma_shared_insert<P: ModulePromise>(
    cache: &YangModuleCache<P>,
    name: &str,
    revision: &str,
    text: Arc<str>,
)
    requires
        call_ensures(YangModuleCache::<P>::insert, (cache, name, revision, text), ()),
    ensures
        exists|seen: StoreState, left: StoreState|
            {
                let module = (name@, revision@);
                &&& #[trigger] cache.replaced(seen, left)
                &&& left.modules.contains_key(module)
                &&& left.modules[module] == (if seen.modules.contains_key(module) {
                    seen.modules[module]
                } else {
                    text
                })
                &&& left.modules.remove(module) == seen.modules.remove(module)
                &&& left == after_insert(seen, name@, revision@, text)
            },
{
}

/// What the cache tells of its size and its counters is that of a store that the call
/// found.
pub proof fn lemma_shared_counters<P: ModulePromise>(
    cache: &YangModuleCache<P>,
    len: usize,
    empty: bool,
    stats: YangModuleCacheStats,
)
    requires
        call_ensures(YangModuleCache::<P>::len, (cache,), len),
        call_ensures(YangModuleCache::<P>::is_empty, (cache,), empty),
        call_ensures(YangModuleCache::<P>::stats, (cache,), stats),
    ensures
        exists|seen: StoreState| #[trigger] cache.observed(seen) && len == seen.modules.len(),
        exists|seen: StoreState| #[trigger]
            cache.observed(seen) && empty == seen.modules.dom().is_empty(),
        exists|seen: StoreState| #[trigger]
            cache.observed(seen) && stats == seen.stats && stats.size == seen.modules.len(),
{
    let seen = choose|seen: StoreState| #[trigger]
        cache.observed(seen) && cache.may_hold(seen) && stats == seen.stats;
    assert(cache.observed(seen) && stats.size == seen.modules.len());
}

/// A store with one owner: a lookup gives what is there, and an insertion adds what is
/// not; a new store is empty.
pub proof fn lemma_store_calls(
    fresh: ModuleStore,
    store: &mut ModuleStore,
    other: &mut ModuleStore,
    name: &str,
    revision: &str,
    text: Arc<str>,
    r: Option<Arc<str>>,
)
    requires
        call_ensures(ModuleStore::new, (), fresh),
        call_ensures(ModuleStore::get, (store, name, revision), r),
        call_ensures(ModuleStore::insert, (other, name, revision, text), ()),
    ensures
        fresh@.modules.dom().is_empty(),
        fresh@.stats.hits == 0 && fresh@.stats.misses == 0 && fresh@.stats.size == 0,
        r is Some <==> old(store)@.modules.contains_key((name@, revision@)),
        r is Some ==> r == Some(old(store)@.modules[(name@, revision@)]),
        final(store)@.modules == old(store)@.modules,
        old(other)@.modules.contains_key((name@, revision@)) ==> final(other)@ == old(other)@,
        !old(other)@.modules.contains_key((name@, revision@)) ==> final(other)@.modules
            == old(other)@.modules.insert((name@, revision@), text),
{
}

/// A new cache is empty, whichever way it is made, and a clone shares its store.
pub proof fn lemma_new_cache<P: ModulePromise>(
    plain: YangModuleCache,
    promised: YangModuleCache<P>,
    copy: YangModuleCache<P>,
)
    requires
        call_ensures(YangModuleCache::new, (), plain),
        call_ensures(YangModuleCache::<P>::with_promise, (), promised),
        call_ensures(<YangModuleCache<P> as Clone>::clone, (&promised,), copy),
    ensures
        plain.started_with(empty_store()),
        promised.started_with(empty_store()),
        copy == promised,
        empty_store().modules.dom().is_empty(),
        empty_store().stats.hits == 0,
        empty_store().stats.misses == 0,
        empty_store().stats.size == 0,
{
}

/// A key tells its module: no two modules have the same.
pub proof fn lemma_keys_tell_modules(
    name1: &str,
    revision1: &str,
    key1: String,
    name2: &str,
    revision2: &str,
    key2: String,
)
    requires
        call_ensures(YangModuleCache::make_key, (name1, revision1), key1),
        call_ensures(YangModuleCache::make_key, (name2, revision2), key2),
    ensures
        key1@ == key2@ <==> name1@ == name2@ && revision1@ == revision2@,
{
    if key1@ == key2@ {
        lemma_keys_are_distinct(name1@, revision1@, name2@, revision2@);
    }
}

/// A codec that is made without a limit has the default one.
pub proof fn lemma_default_codec(codec: SshCodec)
    requires
        call_ensures(<SshCodec as Default>::default, (), codec),
    ensures
        codec@.in_hello,
        codec@.buffered.len() == 0,
        codec@.hello_scanned == 0,
        codec@.max == 16777216,
{
}

/// A hello has the session and the capabilities that it was made with.
pub proof fn lemma_hello_made(
    session_id: Option<u32>,
    capabilities: Vec<Capability>,
    hello: Hello,
)
    requires
        call_ensures(Hello::new, (session_id, capabilities), hello),
    ensures
        hello.session_id == session_id,
        hello.capabilities@ == capabilities@,
{
}

/// Two I/O errors always count as equal; other errors do where they say the same.
pub proof fn lemma_errors_compared(left: &SshCodecError, right: &SshCodecError, r: bool)
    requires
        call_ensures(<SshCodecError as PartialEq>::eq, (left, right), r),
    ensures
        r <==> match (*left, *right) {
            (SshCodecError::IO(_), SshCodecError::IO(_)) => true,
            (SshCodecError::Utf(v1), SshCodecError::Utf(v2)) => v1 == v2,
            (SshCodecError::Int(v1), SshCodecError::Int(v2)) => v1 == v2,
            (SshCodecError::Parsing(v1), SshCodecError::Parsing(v2)) => v1.reason@ == v2.reason@,
            (SshCodecError::Serialization(v1), SshCodecError::Serialization(v2)) => v1.reason@
                == v2.reason@,
            _ => false,
        },
{
}

} // verus!
