//! YANG-based Kafka Publisher
//!
//! The decisions of the actor that publishes JSON messages to Apache Kafka, with
//! YANG schemas registered in a schema registry. The broker, the registry and
//! the cache of schemas are the business of the caller: each function takes what
//! they returned and tells what to do next.
//!
//! A message goes through these steps:
//! - [`KafkaYangPublisherActor::encode`] takes its payload and its key
//! - [`KafkaYangPublisherActor::find_schema`] finds the id of its schema, or asks
//!   for a lookup, which goes on with [`KafkaYangPublisherActor::lookup_sent`],
//!   [`KafkaYangPublisherActor::lookup_answered`] and
//!   [`KafkaYangPublisherActor::schema_registered`]
//! - [`schema_headers`] tells the headers
//! - [`KafkaYangPublisherActor::send_result`] decides about retries
//!
//! The loop around them takes its work from where [`next_source`] says, and ends
//! as [`stop_after`] says.
use crate::decimal::{i32_to_decimal_string, signed_numeral_chars};
use crate::text::{count, counted};
use rdkafka::error::KafkaError;
use rdkafka::message::{Header, OwnedHeaders};
use serde_json::Value;
use vstd::hash_map::StringHashMap;
use vstd::prelude::*;

verus! {

/// Maximum polling interval when Kafka message queue is full, in microseconds
pub const MAX_POLLING_INTERVAL: u64 = 5_000_000;

/// First polling interval when Kafka message queue is full, in microseconds
pub const FIRST_POLLING_INTERVAL: u64 = 10;

/// How long the answer to a lookup of a schema is waited for, in microseconds
pub const CACHE_LOOKUP_TIMEOUT: u64 = 5_000_000;

/// How long messages are flushed for before a shutdown, in microseconds
pub const FLUSH_TIMEOUT: u64 = 1_000_000;

/// An error of the Kafka client.
#[verifier::external_type_specification]
#[verifier::external_body]
pub struct ExKafkaError(rdkafka::error::KafkaError);

/// A JSON value.
#[verifier::external_type_specification]
#[verifier::external_body]
pub struct ExValue(serde_json::Value);

/// An error of the JSON encoder.
#[verifier::external_type_specification]
#[verifier::external_body]
pub struct ExJsonError(serde_json::Error);

/// The headers of a Kafka message.
#[verifier::external_type_specification]
#[verifier::external_body]
pub struct ExOwnedHeaders(rdkafka::message::OwnedHeaders);

/// The keys and values of headers, in order, as text.
pub uninterp spec fn header_list(headers: OwnedHeaders) -> Seq<(Seq<char>, Seq<char>)>;

/// `OwnedHeaders::new` makes an empty list of headers.
#[verifier::external_body]
fn no_headers() -> (headers: OwnedHeaders)
    ensures
        header_list(headers).len() == 0,
{
    OwnedHeaders::new()
}

/// `OwnedHeaders::insert` adds a header behind the others.
#[verifier::external_body]
fn with_header(headers: OwnedHeaders, key: &str, value: &str) -> (longer: OwnedHeaders)
    ensures
        header_list(longer) == header_list(headers).push((key@, value@)),
{
    headers.insert(Header { key, value: Some(value) })
}

/// The JSON text of a value.
pub uninterp spec fn json_text(value: Value) -> Seq<u8>;

/// `serde_json::to_vec` writes a value as JSON text. It fails only where a value
/// cannot be represented or the writer fails: every `Value` can be, the keys of
/// its objects being strings, and the writer is a vector in memory.
#[verifier::external_body]
fn json_to_vec(value: &Value) -> (r: Result<Vec<u8>, serde_json::Error>)
    ensures
        r is Ok,
        r->Ok_0@ == json_text(*value),
{
    serde_json::to_vec(value)
}

/// What the publisher has counted. All but `cache_actor_pending` count events,
/// and start again from zero behind the largest number.
#[derive(Debug, Clone, Copy, PartialEq, Eq, Structural)]
pub struct KafkaYangPublisherStats {
    /// Messages received from upstream producer
    pub received: u64,
    /// Number of messages successfully sent to Kafka
    pub sent: u64,
    /// Number of send retries to Kafka due to full queue in librdkafka
    pub send_retries: u64,
    /// Error decoding message into YANG
    pub error_decode: u64,
    /// Error sending message to Kafka
    pub error_send: u64,
    /// Number of schema ID lookups satisfied from this actor's local
    /// in-process schema_id_cache (no round-trip to the CacheActor)
    pub cache_hits: u64,
    /// Number of schema ID lookups not found in the local schema_id_cache,
    /// requiring a round-trip request to the CacheActor
    pub cache_misses: u64,
    /// In-flight round-trip requests to the CacheActor (incremented after
    /// the request is sent successfully, decremented after receive/timeout)
    pub cache_actor_pending: i64,
    /// Number of CacheActor round-trip requests that timed out
    pub cache_actor_timeouts: u64,
    /// Number of schemas registered with the Schema Registry, including
    /// at actor startup (default/custom schemas) and on cache-miss lookups
    pub schema_registry_registrations: u64,
    /// Number of messages that fell back to the default schema (or no schema)
    pub schema_fallbacks: u64,
}

/// Nothing counted yet.
pub open spec fn no_stats() -> KafkaYangPublisherStats {
    KafkaYangPublisherStats {
        received: 0,
        sent: 0,
        send_retries: 0,
        error_decode: 0,
        error_send: 0,
        cache_hits: 0,
        cache_misses: 0,
        cache_actor_pending: 0,
        cache_actor_timeouts: 0,
        schema_registry_registrations: 0,
        schema_fallbacks: 0,
    }
}

#[derive(Debug)]
pub enum KafkaYangPublisherActorError<E> {
    /// Error communicating with the Kafka brokers
    KafkaError(KafkaError),
    /// Serde JSON Error
    JsonError(serde_json::Error),
    /// Error receiving incoming messages from input async_channel
    ReceiveErr,
    /// YANG converter error
    YangConverterError(E),
    /// Error sending cache lookup request to SchemaCache Actor
    CacheLookupError,
    /// YANG Library schema construction error
    YangLibSchemaError(String),
    /// Yang Library dependency error
    YangLibDependencyError(String),
    /// Schema Registration Error
    SchemaRegistrationError(String),
    /// YANG Library Cache Error
    YangLibraryCacheError(String),
    /// YANG Library Schema Loading Error
    SchemaLoadingError(String),
}

#[derive(Debug, Clone, Copy, PartialEq, Eq, Structural)]
pub enum KafkaYangPublisherActorCommand {
    Shutdown,
}

#[derive(Debug, Clone, Copy, PartialEq, Eq, Structural)]
pub enum KafkaYangPublisherActorHandleError {
    SendError,
}

/// The state of the publisher.
pub struct PublisherState {
    /// The schema of messages without a content id.
    pub default_schema_id: Option<i32>,
    /// The schemas that are registered, by content id.
    pub schema_ids: Map<Seq<char>, i32>,
    pub stats: KafkaYangPublisherStats,
}

/// A publisher with a default schema, if there is one.
pub open spec fn fresh_publisher(default_schema_id: Option<i32>) -> PublisherState {
    PublisherState {
        default_schema_id,
        schema_ids: Map::empty(),
        stats: KafkaYangPublisherStats {
            schema_registry_registrations: if default_schema_id is Some {
                1
            } else {
                0
            },
            ..no_stats()
        },
    }
}

/// The state once a message could not be encoded.
pub open spec fn decode_failed(state: PublisherState) -> PublisherState {
    PublisherState {
        stats: KafkaYangPublisherStats {
            error_decode: counted(state.stats.error_decode),
            ..state.stats
        },
        ..state
    }
}

/// What is to be done to find the schema of a message.
pub enum SchemaSearch {
    /// Nothing: this is the schema, or there is none.
    Found(Option<i32>),
    /// The schema with this content id is to be looked up.
    LookUp(Seq<char>),
}

/// How the schema of a message with this content id is found.
pub open spec fn searched(state: PublisherState, content_id: Option<Seq<char>>) -> (
    SchemaSearch,
    PublisherState,
) {
    match content_id {
        None => (
            SchemaSearch::Found(state.default_schema_id),
            PublisherState {
                stats: KafkaYangPublisherStats {
                    schema_fallbacks: counted(state.stats.schema_fallbacks),
                    ..state.stats
                },
                ..state
            },
        ),
        Some(id) => if state.schema_ids.contains_key(id) {
            (
                SchemaSearch::Found(Some(state.schema_ids[id])),
                PublisherState {
                    stats: KafkaYangPublisherStats {
                        cache_hits: counted(state.stats.cache_hits),
                        ..state.stats
                    },
                    ..state
                },
            )
        } else {
            (
                SchemaSearch::LookUp(id),
                PublisherState {
                    stats: KafkaYangPublisherStats {
                        cache_misses: counted(state.stats.cache_misses),
                        ..state.stats
                    },
                    ..state
                },
            )
        },
    }
}

/// What is to be done to find the schema of a message.
#[derive(Debug)]
pub enum SchemaStep {
    /// Nothing: this is the schema, or there is none.
    Found(Option<i32>),
    /// Look up the schema with this content id.
    LookUp(String),
}

/// How the cache of schemas answers a lookup.
#[derive(Debug)]
pub enum CacheAnswer {
    /// It has the schema, under this content id.
    Found(String),
    /// It does not have the schema.
    NotFound,
    /// It went away.
    Closed,
    /// It did not answer in time.
    TimedOut,
}

/// The state after an answer of the cache. Where it has no schema, the message
/// falls back to the default.
pub open spec fn after_answer(state: PublisherState, answer: CacheAnswer) -> PublisherState {
    let answered = KafkaYangPublisherStats {
        cache_actor_pending: (state.stats.cache_actor_pending - 1) as i64,
        ..state.stats
    };
    let fallback = KafkaYangPublisherStats {
        schema_fallbacks: counted(answered.schema_fallbacks),
        ..answered
    };
    PublisherState {
        stats: match answer {
            CacheAnswer::Found(_) => answered,
            CacheAnswer::NotFound | CacheAnswer::Closed => fallback,
            CacheAnswer::TimedOut => KafkaYangPublisherStats {
                cache_actor_timeouts: counted(fallback.cache_actor_timeouts),
                ..fallback
            },
        },
        ..state
    }
}

/// What is to be done after an answer of the cache.
#[derive(Debug)]
pub enum AnswerStep {
    /// Register the schema that the cache has under this content id.
    Register(String),
    /// Use this schema, or none.
    Fallback(Option<i32>),
}

/// The state once the registry has given the schema with this content id an id.
pub open spec fn after_registration(state: PublisherState, content_id: Seq<char>, id: i32) ->
    PublisherState {
    PublisherState {
        schema_ids: state.schema_ids.insert(content_id, id),
        stats: KafkaYangPublisherStats {
            schema_registry_registrations: counted(state.stats.schema_registry_registrations),
            ..state.stats
        },
        ..state
    }
}

/// The sentence that reports a registry that gave no id.
pub open spec fn missing_id_text(content_id: Seq<char>) -> Seq<char> {
    "Schema ID not found in registered schema response for content_id: "@ + content_id
}

/// The id that the registry gave a schema. `content_id` is named where it gave
/// none.
pub fn registered_id<E>(content_id: &str, id: Option<i32>) -> (r: Result<
    i32,
    KafkaYangPublisherActorError<E>,
>)
    ensures
        match id {
            Some(id) => r matches Ok(result) && result == id,
            None => r matches Err(KafkaYangPublisherActorError::SchemaRegistrationError(text))
                && text@ == missing_id_text(content_id@),
        },
{
    match id {
        Some(id) => Ok(id),
        None => Err(
            KafkaYangPublisherActorError::SchemaRegistrationError(
                "Schema ID not found in registered schema response for content_id: ".to_owned().concat(
                    content_id,
                ),
            ),
        ),
    }
}

/// The headers of a message with the given schema: none without a schema.
pub open spec fn headers_of(schema_id: Option<i32>) -> Seq<(Seq<char>, Seq<char>)> {
    match schema_id {
        Some(id) => seq![
            ("schema-id"@, signed_numeral_chars(id as int)),
            ("content-type"@, "application/yang.data+json"@),
        ],
        None => Seq::empty(),
    }
}

/// The headers of a message with the given schema.
pub fn schema_headers(schema_id: Option<i32>) -> (headers: OwnedHeaders)
    ensures
        header_list(headers) == headers_of(schema_id),
{
    let headers = no_headers();
    let headers = match schema_id {
        Some(id) => with_header(
            with_header(headers, "schema-id", i32_to_decimal_string(id).as_str()),
            "content-type",
            "application/yang.data+json",
        ),
        None => headers,
    };
    assert(header_list(headers) =~= headers_of(schema_id));
    headers
}

/// What is to be done after an attempt to send a message.
#[derive(Debug, Clone, Copy, PartialEq, Eq, Structural)]
pub enum RetryStep {
    /// Wait for so many microseconds, and then try again.
    Retry { interval: u64 },
    /// Give up.
    GiveUp,
}

/// What is to be done where the queue is full, or the message could not be sent
/// for another reason. `interval` is how long to wait, in microseconds.
pub open spec fn retried(queue_full: bool, interval: u64) -> RetryStep {
    if queue_full && interval <= MAX_POLLING_INTERVAL {
        RetryStep::Retry { interval }
    } else {
        RetryStep::GiveUp
    }
}

/// What is to be done where the queue is full, or the message could not be sent
/// for another reason. `interval` is how long to wait, in microseconds.
pub fn retry_step(queue_full: bool, interval: u64) -> (step: RetryStep)
    ensures
        step == retried(queue_full, interval),
{
    if queue_full && interval <= MAX_POLLING_INTERVAL {
        RetryStep::Retry { interval }
    } else {
        RetryStep::GiveUp
    }
}

/// Why the Kafka client did not take a message, with its error.
#[derive(Debug)]
pub enum SendFailure {
    /// Its queue is full.
    QueueFull(KafkaError),
    /// Another reason.
    Other(KafkaError),
}

impl SendFailure {
    /// The error of the Kafka client.
    pub open spec fn cause(self) -> KafkaError {
        match self {
            SendFailure::QueueFull(error) => error,
            SendFailure::Other(error) => error,
        }
    }
}

/// What is to be done after an attempt to send a message.
#[derive(Debug)]
pub enum SendStep<E> {
    /// Nothing: it was sent.
    Done,
    /// Wait for `interval` microseconds, and try again. Should that fail too,
    /// `next_interval` is the interval to go on with.
    Retry { interval: u64, next_interval: u64 },
    /// Drop the message and report the error.
    Fail(KafkaYangPublisherActorError<E>),
}

/// The payload and the key of a message.
#[derive(Debug)]
pub struct EncodedMessage {
    pub value: Vec<u8>,
    pub key: Option<Vec<u8>>,
}

/// The main actor responsible for publishing messages to Kafka with YANG
/// schemas
pub struct KafkaYangPublisherActor {
    /// The default schema id to be used with messages that do not have a
    /// content_id
    default_schema_id: Option<i32>,
    /// Content id to schema registry ID mapping cache
    schema_id_cache: StringHashMap<i32>,
    stats: KafkaYangPublisherStats,
}

impl View for KafkaYangPublisherActor {
    type V = PublisherState;

    closed spec fn view(&self) -> PublisherState {
        PublisherState {
            default_schema_id: self.default_schema_id,
            schema_ids: self.schema_id_cache@,
            stats: self.stats,
        }
    }
}

impl KafkaYangPublisherActor {
    /// A publisher with a default schema that is registered under this id, if
    /// there is one.
    pub fn new(default_schema_id: Option<i32>) -> (publisher: Self)
        ensures
            publisher@ == fresh_publisher(default_schema_id),
    {
        KafkaYangPublisherActor {
            default_schema_id,
            schema_id_cache: StringHashMap::new(),
            stats: KafkaYangPublisherStats {
                received: 0,
                sent: 0,
                send_retries: 0,
                error_decode: 0,
                error_send: 0,
                cache_hits: 0,
                cache_misses: 0,
                cache_actor_pending: 0,
                cache_actor_timeouts: 0,
                schema_registry_registrations: if default_schema_id.is_some() {
                    1
                } else {
                    0
                },
                schema_fallbacks: 0,
            },
        }
    }

    /// What was counted so far.
    pub fn stats(&self) -> (stats: KafkaYangPublisherStats)
        ensures
            stats == self@.stats,
    {
        self.stats
    }

    /// Counts a message that came in.
    pub fn message_received(&mut self)
        ensures
            final(self)@ == (PublisherState {
                stats: KafkaYangPublisherStats {
                    received: counted(old(self)@.stats.received),
                    ..old(self)@.stats
                },
                ..old(self)@
            }),
    {
        self.stats.received = count(self.stats.received);
    }

    /// Takes the payload and the key of a message. `serialized` is the result of
    /// converting the message to JSON.
    pub fn encode<E>(&mut self, serialized: Result<Vec<u8>, E>, key: Option<Value>) -> (r: Result<
        EncodedMessage,
        KafkaYangPublisherActorError<E>,
    >)
        ensures
            match serialized {
                Ok(value) => {
                    &&& r matches Ok(encoded) && encoded.value == value && match key {
                        Some(key) => encoded.key matches Some(text) && text@ == json_text(key),
                        None => encoded.key is None,
                    }
                    &&& final(self)@ == old(self)@
                },
                Err(cause) => {
                    &&& r == Err::<EncodedMessage, KafkaYangPublisherActorError<E>>(
                        KafkaYangPublisherActorError::YangConverterError(cause),
                    )
                    &&& final(self)@ == decode_failed(old(self)@)
                },
            },
    {
        let value = match serialized {
            Ok(value) => value,
            Err(error) => {
                self.stats.error_decode = count(self.stats.error_decode);
                return Err(KafkaYangPublisherActorError::YangConverterError(error));
            },
        };
        let key = match key {
            Some(key) => Some(json_to_vec(&key)),
            None => None,
        };
        self.take_encoded(value, key)
    }

    /// Takes the payload of a message, and the result of writing its key as JSON.
    pub fn take_encoded<E>(
        &mut self,
        value: Vec<u8>,
        key: Option<Result<Vec<u8>, serde_json::Error>>,
    ) -> (r: Result<EncodedMessage, KafkaYangPublisherActorError<E>>)
        ensures
            match key {
                None => {
                    &&& r == Ok::<EncodedMessage, KafkaYangPublisherActorError<E>>(
                        EncodedMessage { value, key: None },
                    )
                    &&& final(self)@ == old(self)@
                },
                Some(Ok(text)) => {
                    &&& r == Ok::<EncodedMessage, KafkaYangPublisherActorError<E>>(
                        EncodedMessage { value, key: Some(text) },
                    )
                    &&& final(self)@ == old(self)@
                },
                Some(Err(error)) => {
                    &&& r == Err::<EncodedMessage, KafkaYangPublisherActorError<E>>(
                        KafkaYangPublisherActorError::JsonError(error),
                    )
                    &&& final(self)@ == decode_failed(old(self)@)
                },
            },
    {
        match key {
            None => Ok(EncodedMessage { value, key: None }),
            Some(Ok(text)) => Ok(EncodedMessage { value, key: Some(text) }),
            Some(Err(error)) => {
                self.stats.error_decode = count(self.stats.error_decode);
                Err(KafkaYangPublisherActorError::JsonError(error))
            },
        }
    }

    /// Get schema ID from cache, or ask for a lookup. A message without a content
    /// id gets the default schema.
    pub fn find_schema(&mut self, content_id: Option<&str>) -> (step: SchemaStep)
        ensures
            ({
                let (search, state) = searched(
                    old(self)@,
                    match content_id {
                        Some(id) => Some(id@),
                        None => None,
                    },
                );
                &&& final(self)@ == state
                &&& match search {
                    SchemaSearch::Found(id) => step matches SchemaStep::Found(result) && result
                        == id,
                    SchemaSearch::LookUp(id) => step matches SchemaStep::LookUp(text) && text@
                        == id,
                }
            }),
    {
        let id = match content_id {
            Some(id) => id,
            None => {
                self.stats.schema_fallbacks = count(self.stats.schema_fallbacks);
                return SchemaStep::Found(self.default_schema_id);
            },
        };
        // Check if we already have this schema registered
        let cached: Option<i32> = match self.schema_id_cache.get(id) {
            Some(schema_id) => Some(*schema_id),
            None => None,
        };
        if let Some(schema_id) = cached {
            self.stats.cache_hits = count(self.stats.cache_hits);
            return SchemaStep::Found(Some(schema_id));
        }
        self.stats.cache_misses = count(self.stats.cache_misses);
        SchemaStep::LookUp(id.to_owned())
    }

    /// The lookup was sent to the cache of schemas, or could not be.
    pub fn lookup_sent<E>(&mut self, sent: bool) -> (r: Result<(), KafkaYangPublisherActorError<E>>)
        requires
            old(self)@.stats.cache_actor_pending < i64::MAX,
        ensures
            if sent {
                &&& r is Ok
                &&& final(self)@ == (PublisherState {
                    stats: KafkaYangPublisherStats {
                        cache_actor_pending: (old(self)@.stats.cache_actor_pending + 1) as i64,
                        ..old(self)@.stats
                    },
                    ..old(self)@
                })
            } else {
                &&& r matches Err(KafkaYangPublisherActorError::CacheLookupError)
                &&& final(self)@ == old(self)@
            },
    {
        if !sent {
            return Err(KafkaYangPublisherActorError::CacheLookupError);
        }
        self.stats.cache_actor_pending = self.stats.cache_actor_pending + 1;
        Ok(())
    }

    /// The cache of schemas answered a lookup, or did not.
    pub fn lookup_answered(&mut self, answer: CacheAnswer) -> (step: AnswerStep)
        requires
            old(self)@.stats.cache_actor_pending > 0,
        ensures
            final(self)@ == after_answer(old(self)@, answer),
            match answer {
                CacheAnswer::Found(content_id) => step == AnswerStep::Register(content_id),
                _ => step == AnswerStep::Fallback(old(self)@.default_schema_id),
            },
    {
        self.stats.cache_actor_pending = self.stats.cache_actor_pending - 1;
        match answer {
            CacheAnswer::Found(content_id) => AnswerStep::Register(content_id),
            CacheAnswer::NotFound => {
                self.stats.schema_fallbacks = count(self.stats.schema_fallbacks);
                AnswerStep::Fallback(self.default_schema_id)
            },
            CacheAnswer::Closed => {
                self.stats.schema_fallbacks = count(self.stats.schema_fallbacks);
                AnswerStep::Fallback(self.default_schema_id)
            },
            CacheAnswer::TimedOut => {
                self.stats.cache_actor_timeouts = count(self.stats.cache_actor_timeouts);
                self.stats.schema_fallbacks = count(self.stats.schema_fallbacks);
                AnswerStep::Fallback(self.default_schema_id)
            },
        }
    }

    /// The registry took a schema that was looked up as `requested`, and that the
    /// cache has under `content_id`. `id` is the id that it gave the schema.
    pub fn schema_registered<E>(
        &mut self,
        requested: &str,
        content_id: String,
        id: Option<i32>,
    ) -> (r: Result<Option<i32>, KafkaYangPublisherActorError<E>>)
        ensures
            match id {
                Some(id) => {
                    &&& r matches Ok(result) && result == Some(id)
                    &&& final(self)@ == after_registration(old(self)@, content_id@, id)
                },
                None => {
                    &&& r matches Err(KafkaYangPublisherActorError::SchemaRegistrationError(text))
                        && text@ == missing_id_text(requested@)
                    &&& final(self)@ == old(self)@
                },
            },
    {
        let schema_id: i32 = match registered_id(requested, id) {
            Ok(schema_id) => schema_id,
            Err(error) => {
                return Err(error);
            },
        };
        self.stats.schema_registry_registrations =
        count(self.stats.schema_registry_registrations);
        self.schema_id_cache.insert(content_id, schema_id);
        Ok(Some(schema_id))
    }

    /// Decides what to do after an attempt to send a message: only where the queue
    /// is full, and not for longer than [`MAX_POLLING_INTERVAL`], is it tried again.
    /// `interval` is how long to wait before the next attempt, in microseconds: it
    /// starts at [`FIRST_POLLING_INTERVAL`].
    pub fn send_result<E>(&mut self, result: Result<(), SendFailure>, interval: u64) -> (step:
        SendStep<E>)
        ensures
            step is Retry <==> (result matches Err(SendFailure::QueueFull(_)) && interval
                <= MAX_POLLING_INTERVAL),
            match result {
                Ok(_) => {
                    &&& step is Done
                    &&& final(self)@ == (PublisherState {
                        stats: KafkaYangPublisherStats {
                            sent: counted(old(self)@.stats.sent),
                            ..old(self)@.stats
                        },
                        ..old(self)@
                    })
                },
                Err(failure) => match retried(failure is QueueFull, interval) {
                    RetryStep::Retry { interval } => {
                        &&& step == SendStep::<E>::Retry {
                            interval,
                            next_interval: (interval * 2) as u64,
                        }
                        &&& final(self)@ == (PublisherState {
                            stats: KafkaYangPublisherStats {
                                send_retries: counted(old(self)@.stats.send_retries),
                                ..old(self)@.stats
                            },
                            ..old(self)@
                        })
                    },
                    RetryStep::GiveUp => {
                        &&& step == SendStep::<E>::Fail(
                            KafkaYangPublisherActorError::KafkaError(failure.cause()),
                        )
                        &&& final(self)@ == (PublisherState {
                            stats: KafkaYangPublisherStats {
                                error_send: counted(old(self)@.stats.error_send),
                                ..old(self)@.stats
                            },
                            ..old(self)@
                        })
                    },
                },
            },
    {
        let (queue_full, error) = match result {
            Ok(_) => {
                self.stats.sent = count(self.stats.sent);
                return SendStep::Done;
            },
            Err(SendFailure::QueueFull(error)) => (true, error),
            Err(SendFailure::Other(error)) => (false, error),
        };
        match retry_step(queue_full, interval) {
            RetryStep::Retry { interval } => {
                // Exponential backoff when the librdkafka is full
                self.stats.send_retries = count(self.stats.send_retries);
                SendStep::Retry { interval, next_interval: interval * 2 }
            },
            RetryStep::GiveUp => {
                self.stats.error_send = count(self.stats.error_send);
                SendStep::Fail(KafkaYangPublisherActorError::KafkaError(error))
            },
        }
    }
}

/// With which words the loop of the actor ends after a command, or after the end
/// of the commands.
pub open spec fn last_words(command: Option<KafkaYangPublisherActorCommand>) -> Seq<char> {
    match command {
        Some(KafkaYangPublisherActorCommand::Shutdown) => "Shutting down"@,
        None => "KafkaYangPublisher shutdown successfully"@,
    }
}

/// Where the loop of the actor takes its next work from.
#[derive(Debug, Clone, Copy, PartialEq, Eq, Structural)]
pub enum PublisherSource {
    /// The commands.
    Command,
    /// The messages that are to be published.
    Input,
}

/// Which of the sources that are ready is served: commands come before messages.
pub open spec fn served(command: bool, input: bool) -> Option<PublisherSource> {
    if command {
        Some(PublisherSource::Command)
    } else if input {
        Some(PublisherSource::Input)
    } else {
        None
    }
}

/// Where the next work is to be taken from, given which of the channels hold
/// something or are closed.
pub fn next_source(command: bool, input: bool) -> (source: Option<PublisherSource>)
    ensures
        source == served(command, input),
{
    if command {
        Some(PublisherSource::Command)
    } else if input {
        Some(PublisherSource::Input)
    } else {
        None
    }
}

/// What the loop of the actor has just seen.
#[derive(Debug, Clone, Copy, PartialEq, Eq, Structural)]
pub enum PublisherEvent {
    /// A command, or the end of the commands.
    Command(Option<KafkaYangPublisherActorCommand>),
    /// A message that was sent, or could not be.
    Message { sent: bool },
    /// No more messages will come.
    InputClosed,
}

/// How the loop of the actor ends after an event; it goes on where there is
/// nothing. A message that could not be sent does not end it.
pub fn stop_after<E>(event: PublisherEvent) -> (r: Option<
    Result<String, KafkaYangPublisherActorError<E>>,
>)
    ensures
        match event {
            PublisherEvent::Command(command) => r matches Some(Ok(words)) && words@ == last_words(
                command,
            ),
            PublisherEvent::Message { .. } => r is None,
            PublisherEvent::InputClosed => r matches Some(
                Err(KafkaYangPublisherActorError::ReceiveErr),
            ),
        },
{
    match event {
        PublisherEvent::Command(Some(KafkaYangPublisherActorCommand::Shutdown)) => Some(
            Ok("Shutting down".to_owned()),
        ),
        PublisherEvent::Command(None) => Some(
            Ok("KafkaYangPublisher shutdown successfully".to_owned()),
        ),
        PublisherEvent::Message { .. } => None,
        PublisherEvent::InputClosed => Some(Err(KafkaYangPublisherActorError::ReceiveErr)),
    }
}

/// Whether the messages that the Kafka client still holds are flushed after an
/// event: only a shutdown asks for that.
pub fn flush_after(event: PublisherEvent) -> (r: bool)
    ensures
        r == (event matches PublisherEvent::Command(
            Some(KafkaYangPublisherActorCommand::Shutdown),
        )),
{
    match event {
        PublisherEvent::Command(Some(KafkaYangPublisherActorCommand::Shutdown)) => true,
        _ => false,
    }
}

/// A schema is registered once: after that its id is found without a lookup.
pub proof fn lemma_registered_schema_is_found(
    state: PublisherState,
    content_id: Seq<char>,
    id: i32,
)
    ensures
        searched(after_registration(state, content_id, id), Some(content_id)).0
            == SchemaSearch::Found(Some(id)),
{
}

/// Registering a schema changes the id of no other.
pub proof fn lemma_other_schemas_untouched(
    state: PublisherState,
    content_id: Seq<char>,
    id: i32,
    other: Seq<char>,
)
    requires
        other != content_id,
    ensures
        searched(after_registration(state, content_id, id), Some(other)).0 == searched(
            state,
            Some(other),
        ).0,
{
}

/// However a lookup is answered, it is no longer pending, and neither the default
/// schema nor the schemas that are registered change.
pub proof fn lemma_lookup_leaves_nothing_pending(state: PublisherState, answer: CacheAnswer)
    requires
        state.stats.cache_actor_pending < i64::MAX,
    ensures
        ({
            let asked = PublisherState {
                stats: KafkaYangPublisherStats {
                    cache_actor_pending: (state.stats.cache_actor_pending + 1) as i64,
                    ..state.stats
                },
                ..state
            };
            let after = after_answer(asked, answer);
            &&& after.stats.cache_actor_pending == state.stats.cache_actor_pending
            &&& after.schema_ids == state.schema_ids
            &&& after.default_schema_id == state.default_schema_id
        }),
{
}

/// Without a default schema, a message that has no content id, or whose schema the
/// cache does not have, is sent without schema headers.
pub proof fn lemma_no_schema_no_headers(state: PublisherState, answer: CacheAnswer)
    requires
        state.default_schema_id is None,
    ensures
        searched(state, None).0 matches SchemaSearch::Found(id) && headers_of(id).len() == 0,
        !(answer is Found) ==> headers_of(after_answer(state, answer).default_schema_id).len() == 0,
{
}

/// How long to wait after `attempts` attempts that found the queue full, in
/// microseconds.
pub open spec fn interval_after(attempts: nat) -> nat
    decreases attempts,
{
    if attempts == 0 {
        FIRST_POLLING_INTERVAL as nat
    } else {
        2 * interval_after((attempts - 1) as nat)
    }
}

/// While the queue stays full the waits double, from ten microseconds on, and
/// none is longer than the maximum: there are nineteen retries, and then the
/// message is given up.
pub proof fn lemma_retries_end(attempts: nat)
    ensures
        attempts < 19 ==> {
            &&& interval_after(attempts) <= MAX_POLLING_INTERVAL
            &&& retried(true, interval_after(attempts) as u64) == (RetryStep::Retry {
                interval: interval_after(attempts) as u64,
            })
            &&& interval_after(attempts + 1) == 2 * interval_after(attempts)
        },
        attempts == 19 ==> retried(true, interval_after(attempts) as u64) is GiveUp,
{
    if attempts <= 19 {
        reveal_with_fuel(interval_after, 21);
    }
}

} // verus!
