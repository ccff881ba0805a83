//! What each step of publishing a message does, for every state and every answer.
use crate::decimal::signed_numeral_chars;
use crate::publishers::kafka_yang::{
    after_answer, after_registration, decode_failed, flush_after, header_list, interval_after,
    json_text, next_source, registered_id, retried, retry_step, schema_headers, searched, served,
    stop_after, AnswerStep, CacheAnswer, EncodedMessage, KafkaYangPublisherActor,
    KafkaYangPublisherActorError, KafkaYangPublisherStats, PublisherEvent, PublisherSource,
    PublisherState, RetryStep, SchemaSearch, SchemaStep, SendFailure, SendStep,
    CACHE_LOOKUP_TIMEOUT, FIRST_POLLING_INTERVAL, FLUSH_TIMEOUT,
};
use crate::text::counted;
use rdkafka::message::OwnedHeaders;
use serde_json::Value;
use vstd::prelude::*;

verus! {

/// A new publisher has the default schema that it was made with, which counts as
/// registered, and has registered and counted nothing else.
pub proof fn lemma_new_publisher(default_schema_id: Option<i32>, publisher: KafkaYangPublisherActor)
    requires
        call_ensures(KafkaYangPublisherActor::new, (default_schema_id,), publisher),
    ensures
        ({
            let state = publisher@;
            let stats = state.stats;
            &&& state.default_schema_id == default_schema_id
            &&& state.schema_ids == Map::<Seq<char>, i32>::empty()
            &&& stats.schema_registry_registrations == (if default_schema_id is Some {
                1
            } else {
                0int
            })
            &&& stats.received == 0 && stats.sent == 0 && stats.send_retries == 0
            &&& stats.error_decode == 0 && stats.error_send == 0 && stats.cache_hits == 0
            &&& stats.cache_misses == 0 && stats.cache_actor_pending == 0
            &&& stats.cache_actor_timeouts == 0 && stats.schema_fallbacks == 0
        }),
{
}

/// How the schema of a message is found: the default one without a content id, the
/// registered one without a lookup, and any other by a lookup. Each is counted, and
/// nothing else changes.
pub proof fn lemma_schema_search(state: PublisherState, content_id: Option<Seq<char>>)
    ensures
        ({
            let (search, after) = searched(state, content_id);
            &&& after.schema_ids == state.schema_ids
            &&& after.default_schema_id == state.default_schema_id
            &&& match content_id {
                None => {
                    &&& search == SchemaSearch::Found(state.default_schema_id)
                    &&& after.stats == (KafkaYangPublisherStats {
                        schema_fallbacks: counted(state.stats.schema_fallbacks),
                        ..state.stats
                    })
                },
                Some(id) => {
                    &&& state.schema_ids.contains_key(id) ==> {
                        &&& search == SchemaSearch::Found(Some(state.schema_ids[id]))
                        &&& after.stats == (KafkaYangPublisherStats {
                            cache_hits: counted(state.stats.cache_hits),
                            ..state.stats
                        })
                    }
                    &&& !state.schema_ids.contains_key(id) ==> {
                        &&& search == SchemaSearch::LookUp(id)
                        &&& after.stats == (KafkaYangPublisherStats {
                            cache_misses: counted(state.stats.cache_misses),
                            ..state.stats
                        })
                    }
                },
            }
        }),
{
}

/// An answer ends a lookup. One that brings no schema counts as a fallback, and one
/// that did not come in time as a timeout too; nothing else changes.
pub proof fn lemma_answer_counted(state: PublisherState, answer: CacheAnswer)
    requires
        state.stats.cache_actor_pending > 0,
    ensures
        ({
            let after = after_answer(state, answer);
            &&& after.schema_ids == state.schema_ids
            &&& after.default_schema_id == state.default_schema_id
            &&& after.stats == (KafkaYangPublisherStats {
                cache_actor_pending: (state.stats.cache_actor_pending - 1) as i64,
                schema_fallbacks: if answer is Found {
                    state.stats.schema_fallbacks
                } else {
                    counted(state.stats.schema_fallbacks)
                },
                cache_actor_timeouts: if answer is TimedOut {
                    counted(state.stats.cache_actor_timeouts)
                } else {
                    state.stats.cache_actor_timeouts
                },
                ..state.stats
            })
        }),
{
}

/// A schema that is registered has its id from then on, every other schema keeps
/// its own, and the registration is counted.
pub proof fn lemma_registration(state: PublisherState, content_id: Seq<char>, id: i32)
    ensures
        ({
            let after = after_registration(state, content_id, id);
            &&& after.schema_ids.contains_key(content_id)
            &&& after.schema_ids[content_id] == id
            &&& after.schema_ids.remove(content_id) == state.schema_ids.remove(content_id)
            &&& after.default_schema_id == state.default_schema_id
            &&& after.stats == (KafkaYangPublisherStats {
                schema_registry_registrations: counted(state.stats.schema_registry_registrations),
                ..state.stats
            })
        }),
{
    let after = after_registration(state, content_id, id);
    assert(after.schema_ids.remove(content_id) =~= state.schema_ids.remove(content_id));
}

/// The registry has to give an id, and that id is taken.
pub proof fn lemma_registered_id<E>(
    content_id: &str,
    id: Option<i32>,
    r: Result<i32, KafkaYangPublisherActorError<E>>,
)
    requires
        call_ensures(registered_id::<E>, (content_id, id), r),
    ensures
        id matches Some(id) ==> r == Ok::<i32, KafkaYangPublisherActorError<E>>(id),
        id is None ==> (r matches Err(KafkaYangPublisherActorError::SchemaRegistrationError(text))
            && text@ == "Schema ID not found in registered schema response for content_id: "@
            + content_id@),
{
}

/// A message that cannot be encoded is counted, and nothing else changes.
pub proof fn lemma_encoding_failure_counted(state: PublisherState)
    ensures
        decode_failed(state) == (PublisherState {
            stats: (KafkaYangPublisherStats {
                error_decode: counted(state.stats.error_decode),
                ..state.stats
            }),
            ..state
        }),
{
}

/// The headers of a message: with a schema its id and the content type, in this
/// order, and without one nothing.
pub proof fn lemma_headers(schema_id: Option<i32>, headers: OwnedHeaders)
    requires
        call_ensures(schema_headers, (schema_id,), headers),
    ensures
        schema_id is None ==> header_list(headers).len() == 0,
        schema_id matches Some(id) ==> {
            &&& header_list(headers).len() == 2
            &&& header_list(headers)[0] == ("schema-id"@, signed_numeral_chars(id as int))
            &&& header_list(headers)[1] == ("content-type"@, "application/yang.data+json"@)
        },
{
}

/// Only a full queue is tried again, and only while the wait is at most five
/// seconds; the wait is the one that was asked for.
pub proof fn lemma_retries(queue_full: bool, interval: u64, step: RetryStep)
    requires
        call_ensures(retry_step, (queue_full, interval), step),
    ensures
        queue_full && interval <= 5_000_000 ==> step == (RetryStep::Retry { interval }),
        !queue_full || interval > 5_000_000 ==> step == RetryStep::GiveUp,
        retried(queue_full, interval) == step,
{
}

/// When and how the loop ends.
pub proof fn lemma_loop_ends<E>(
    event: PublisherEvent,
    r: Option<Result<String, KafkaYangPublisherActorError<E>>>,
)
    requires
        call_ensures(stop_after::<E>, (event,), r),
    ensures
        r is None <==> event is Message,
        event matches PublisherEvent::Command(Some(_)) ==> (r matches Some(Ok(words)) && words@
            == "Shutting down"@),
        event matches PublisherEvent::Command(None) ==> (r matches Some(Ok(words)) && words@
            == "KafkaYangPublisher shutdown successfully"@),
        event is InputClosed ==> (r matches Some(Err(KafkaYangPublisherActorError::ReceiveErr))),
{
}

/// Commands are served before messages, and messages whenever there is no command.
pub proof fn lemma_commands_first(command: bool, input: bool, source: Option<PublisherSource>)
    requires
        call_ensures(next_source, (command, input), source),
    ensures
        source == Some(PublisherSource::Command) <==> command,
        source == Some(PublisherSource::Input) <==> !command && input,
        source is None <==> !command && !input,
{
}

/// A message that came in is counted, and nothing else changes.
pub proof fn lemma_message_received(publisher: &mut KafkaYangPublisherActor)
    requires
        call_ensures(KafkaYangPublisherActor::message_received, (publisher,), ()),
    ensures
        final(publisher)@ == (PublisherState {
            stats: (KafkaYangPublisherStats {
                received: counted(old(publisher)@.stats.received),
                ..old(publisher)@.stats
            }),
            ..old(publisher)@
        }),
{
}

/// A message that could be converted is encoded: its payload as it is, and its key,
/// if it has one, as JSON. One that could not be is reported and counted.
pub proof fn lemma_message_encoded<E>(
    publisher: &mut KafkaYangPublisherActor,
    serialized: Result<Vec<u8>, E>,
    key: Option<Value>,
    r: Result<EncodedMessage, KafkaYangPublisherActorError<E>>,
)
    requires
        call_ensures(KafkaYangPublisherActor::encode::<E>, (publisher, serialized, key), r),
    ensures
        r is Ok <==> serialized is Ok,
        r matches Ok(encoded) ==> {
            &&& encoded.value == serialized->Ok_0
            &&& encoded.key is Some <==> key is Some
            &&& key matches Some(key) ==> encoded.key->0@ == json_text(key)
            &&& final(publisher)@ == old(publisher)@
        },
        serialized matches Err(cause) ==> {
            &&& r == Err::<EncodedMessage, _>(
                KafkaYangPublisherActorError::YangConverterError(cause),
            )
            &&& final(publisher)@.stats.error_decode == counted(old(publisher)@.stats.error_decode)
            &&& final(publisher)@.schema_ids == old(publisher)@.schema_ids
            &&& final(publisher)@.default_schema_id == old(publisher)@.default_schema_id
        },
{
}

/// The schema of a message is found or looked up by what is registered.
pub proof fn lemma_schema_found(
    publisher: &mut KafkaYangPublisherActor,
    content_id: Option<&str>,
    step: SchemaStep,
)
    requires
        call_ensures(KafkaYangPublisherActor::find_schema, (publisher, content_id), step),
    ensures
        content_id is None ==> step == SchemaStep::Found(old(publisher)@.default_schema_id),
        content_id matches Some(id) ==> {
            &&& old(publisher)@.schema_ids.contains_key(id@) ==> step == SchemaStep::Found(
                Some(old(publisher)@.schema_ids[id@]),
            )
            &&& !old(publisher)@.schema_ids.contains_key(id@) ==> (step matches SchemaStep::LookUp(
                text,
            ) && text@ == id@)
        },
        final(publisher)@.schema_ids == old(publisher)@.schema_ids,
        final(publisher)@.default_schema_id == old(publisher)@.default_schema_id,
{
}

/// A lookup that was sent is pending; one that was not is an error.
pub proof fn lemma_lookup_sent<E>(
    publisher: &mut KafkaYangPublisherActor,
    sent: bool,
    r: Result<(), KafkaYangPublisherActorError<E>>,
)
    requires
        call_ensures(KafkaYangPublisherActor::lookup_sent::<E>, (publisher, sent), r),
        old(publisher)@.stats.cache_actor_pending < i64::MAX,
    ensures
        r is Ok <==> sent,
        !sent ==> (r matches Err(KafkaYangPublisherActorError::CacheLookupError)),
        final(publisher)@ == (PublisherState {
            stats: (KafkaYangPublisherStats {
                cache_actor_pending: (old(publisher)@.stats.cache_actor_pending + if sent {
                    1int
                } else {
                    0
                }) as i64,
                ..old(publisher)@.stats
            }),
            ..old(publisher)@
        }),
{
}

/// A schema that the cache has is registered; otherwise the message falls back to the
/// default schema.
pub proof fn lemma_lookup_answered(
    publisher: &mut KafkaYangPublisherActor,
    answer: CacheAnswer,
    step: AnswerStep,
)
    requires
        call_ensures(KafkaYangPublisherActor::lookup_answered, (publisher, answer), step),
    ensures
        answer matches CacheAnswer::Found(content_id) ==> step == AnswerStep::Register(content_id),
        !(answer is Found) ==> step == AnswerStep::Fallback(old(publisher)@.default_schema_id),
        final(publisher)@ == after_answer(old(publisher)@, answer),
{
}

/// An id that the registry gave is used for the message and kept under the content id
/// of the schema; without one nothing changes.
pub proof fn lemma_schema_registered<E>(
    publisher: &mut KafkaYangPublisherActor,
    requested: &str,
    content_id: String,
    id: Option<i32>,
    r: Result<Option<i32>, KafkaYangPublisherActorError<E>>,
)
    requires
        call_ensures(
            KafkaYangPublisherActor::schema_registered::<E>,
            (publisher, requested, content_id, id),
            r,
        ),
    ensures
        id matches Some(id) ==> {
            &&& r == Ok::<_, KafkaYangPublisherActorError<E>>(Some(id))
            &&& final(publisher)@.schema_ids == old(publisher)@.schema_ids.insert(content_id@, id)
            &&& final(publisher)@.default_schema_id == old(publisher)@.default_schema_id
        },
        id is None ==> r is Err && final(publisher)@ == old(publisher)@,
{
}

/// An attempt to send: a message that was taken is done, one that met a full queue is
/// tried again after a wait that doubles, up to five seconds, and any other is given
/// up with the error of the client. Each is counted.
pub proof fn lemma_send_result<E>(
    publisher: &mut KafkaYangPublisherActor,
    result: Result<(), SendFailure>,
    interval: u64,
    step: SendStep<E>,
)
    requires
        call_ensures(KafkaYangPublisherActor::send_result::<E>, (publisher, result, interval), step),
    ensures
        result is Ok ==> step is Done && final(publisher)@.stats.sent == counted(
            old(publisher)@.stats.sent,
        ),
        result matches Err(SendFailure::QueueFull(error)) ==> {
            &&& interval <= 5_000_000 ==> {
                &&& step == SendStep::<E>::Retry { interval, next_interval: (2 * interval) as u64 }
                &&& final(publisher)@.stats.send_retries == counted(
                    old(publisher)@.stats.send_retries,
                )
            }
            &&& interval > 5_000_000 ==> {
                &&& step == SendStep::<E>::Fail(KafkaYangPublisherActorError::KafkaError(error))
                &&& final(publisher)@.stats.error_send == counted(old(publisher)@.stats.error_send)
            }
        },
        result matches Err(SendFailure::Other(error)) ==> {
            &&& step == SendStep::<E>::Fail(KafkaYangPublisherActorError::KafkaError(error))
            &&& final(publisher)@.stats.error_send == counted(old(publisher)@.stats.error_send)
        },
        final(publisher)@.schema_ids == old(publisher)@.schema_ids,
        final(publisher)@.default_schema_id == old(publisher)@.default_schema_id,
{
}

/// Only a shutdown asks for a flush.
pub proof fn lemma_flush_after(event: PublisherEvent, r: bool)
    requires
        call_ensures(flush_after, (event,), r),
    ensures
        r <==> (event matches PublisherEvent::Command(Some(_))),
{
}

/// What the result of writing the key as JSON leads to.
pub proof fn lemma_encoded_taken<E>(
    publisher: &mut KafkaYangPublisherActor,
    value: Vec<u8>,
    key: Option<Result<Vec<u8>, serde_json::Error>>,
    r: Result<EncodedMessage, KafkaYangPublisherActorError<E>>,
)
    requires
        call_ensures(KafkaYangPublisherActor::take_encoded::<E>, (publisher, value, key), r),
    ensures
        r is Ok <==> !(key matches Some(Err(_))),
        r matches Ok(encoded) ==> encoded.value == value && final(publisher)@ == old(publisher)@,
        key is None ==> (r matches Ok(encoded) && encoded.key is None),
        key matches Some(Ok(text)) ==> (r matches Ok(encoded) && encoded.key == Some(text)),
        key matches Some(Err(error)) ==> {
            &&& r == Err::<EncodedMessage, _>(
                KafkaYangPublisherActorError::<E>::JsonError(error),
            )
            &&& final(publisher)@.stats.error_decode == counted(old(publisher)@.stats.error_decode)
        },
{
}

/// The first wait is ten microseconds, and each one is twice the one before.
pub proof fn lemma_waits_double(attempts: nat)
    ensures
        interval_after(0) == 10,
        interval_after(attempts + 1) == 2 * interval_after(attempts),
        FIRST_POLLING_INTERVAL == 10,
        CACHE_LOOKUP_TIMEOUT == 5_000_000,
        FLUSH_TIMEOUT == 1_000_000,
{
}

} // verus!
