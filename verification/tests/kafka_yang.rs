use netcalyx::publishers::kafka_yang::{
    flush_after, next_source, registered_id, retry_step, schema_headers, stop_after, AnswerStep,
    CacheAnswer, KafkaYangPublisherActor, KafkaYangPublisherActorCommand,
    KafkaYangPublisherActorError, PublisherEvent, PublisherSource, RetryStep, SchemaStep,
    SendFailure, SendStep, CACHE_LOOKUP_TIMEOUT, FIRST_POLLING_INTERVAL, FLUSH_TIMEOUT,
    MAX_POLLING_INTERVAL,
};
use rdkafka::error::{KafkaError, RDKafkaErrorCode};
use rdkafka::message::Headers;
use serde_json::Value;

type PublishError = KafkaYangPublisherActorError<String>;

fn queue_full() -> KafkaError {
    KafkaError::MessageProduction(RDKafkaErrorCode::QueueFull)
}

#[test]
fn message_without_content_id_gets_the_default_schema() {
    let mut publisher = KafkaYangPublisherActor::new(Some(7));
    assert!(matches!(publisher.find_schema(None), SchemaStep::Found(Some(7))));
    assert_eq!(publisher.stats().schema_fallbacks, 1);
    assert_eq!(publisher.stats().schema_registry_registrations, 1);
    let mut publisher = KafkaYangPublisherActor::new(None);
    assert!(matches!(publisher.find_schema(None), SchemaStep::Found(None)));
    assert_eq!(publisher.stats().schema_fallbacks, 1);
    assert_eq!(publisher.stats().schema_registry_registrations, 0);
}

#[test]
fn schema_is_looked_up_once() {
    let mut publisher = KafkaYangPublisherActor::new(None);
    match publisher.find_schema(Some("content")) {
        SchemaStep::LookUp(id) => assert_eq!(id, "content"),
        other => panic!("no lookup: {other:?}"),
    }
    let sent: Result<(), PublishError> = publisher.lookup_sent(true);
    assert!(sent.is_ok());
    assert_eq!(publisher.stats().cache_actor_pending, 1);
    let content_id = match publisher.lookup_answered(CacheAnswer::Found("content".to_string())) {
        AnswerStep::Register(content_id) => content_id,
        other => panic!("no registration: {other:?}"),
    };
    assert_eq!(publisher.stats().cache_actor_pending, 0);
    let registered: Result<Option<i32>, PublishError> =
        publisher.schema_registered("content", content_id, Some(42));
    assert_eq!(registered.unwrap(), Some(42));
    assert!(matches!(publisher.find_schema(Some("content")), SchemaStep::Found(Some(42))));
    let stats = publisher.stats();
    assert_eq!((stats.cache_misses, stats.cache_hits), (1, 1));
    assert_eq!(stats.schema_registry_registrations, 1);
    assert!(matches!(publisher.find_schema(Some("other")), SchemaStep::LookUp(_)));
}

#[test]
fn lookup_without_result_falls_back() {
    for (answer, timeouts) in
        [(CacheAnswer::NotFound, 0), (CacheAnswer::Closed, 0), (CacheAnswer::TimedOut, 1)]
    {
        let mut publisher = KafkaYangPublisherActor::new(Some(3));
        let sent: Result<(), PublishError> = publisher.lookup_sent(true);
        assert!(sent.is_ok());
        assert!(matches!(publisher.lookup_answered(answer), AnswerStep::Fallback(Some(3))));
        let stats = publisher.stats();
        assert_eq!(stats.cache_actor_pending, 0);
        assert_eq!(stats.cache_actor_timeouts, timeouts);
        assert_eq!(stats.schema_fallbacks, 1);
    }
}

#[test]
fn lookup_that_cannot_be_sent_is_an_error() {
    let mut publisher = KafkaYangPublisherActor::new(None);
    let sent: Result<(), PublishError> = publisher.lookup_sent(false);
    assert!(matches!(sent, Err(KafkaYangPublisherActorError::CacheLookupError)));
    assert_eq!(publisher.stats().cache_actor_pending, 0);
}

#[test]
fn registry_without_id_is_an_error() {
    let mut publisher = KafkaYangPublisherActor::new(None);
    let registered: Result<Option<i32>, PublishError> =
        publisher.schema_registered("asked", "answered".to_string(), None);
    match registered {
        Err(KafkaYangPublisherActorError::SchemaRegistrationError(text)) => assert_eq!(
            text,
            "Schema ID not found in registered schema response for content_id: asked"
        ),
        other => panic!("no registration error: {other:?}"),
    }
    assert_eq!(publisher.stats().schema_registry_registrations, 0);
    let id: Result<i32, PublishError> = registered_id("asked", Some(5));
    assert_eq!(id.unwrap(), 5);
}

fn header_texts(schema_id: Option<i32>) -> Vec<(String, String)> {
    let headers = schema_headers(schema_id);
    (0..headers.count())
        .map(|i| {
            let header = headers.get(i);
            let value = std::str::from_utf8(header.value.unwrap()).unwrap();
            (header.key.to_string(), value.to_string())
        })
        .collect()
}

#[test]
fn headers_tell_the_schema() {
    assert!(header_texts(None).is_empty());
    let content_type = ("content-type".to_string(), "application/yang.data+json".to_string());
    assert_eq!(
        header_texts(Some(-12)),
        vec![("schema-id".to_string(), "-12".to_string()), content_type.clone()]
    );
    assert_eq!(
        header_texts(Some(1050)),
        vec![("schema-id".to_string(), "1050".to_string()), content_type]
    );
    assert_eq!(header_texts(Some(i32::MIN))[0].1, "-2147483648");
}

#[test]
fn full_queue_is_retried_nineteen_times() {
    let mut publisher = KafkaYangPublisherActor::new(None);
    let mut interval = FIRST_POLLING_INTERVAL;
    let mut waits = Vec::new();
    loop {
        let step: SendStep<String> =
            publisher.send_result(Err(SendFailure::QueueFull(queue_full())), interval);
        match step {
            SendStep::Retry { interval, next_interval } => {
                waits.push(interval);
                assert!(interval <= MAX_POLLING_INTERVAL);
                assert_eq!(next_interval, 2 * interval);
            }
            SendStep::Fail(KafkaYangPublisherActorError::KafkaError(error)) => {
                assert_eq!(error, queue_full());
                break;
            }
            other => panic!("unexpected: {other:?}"),
        }
        interval *= 2;
    }
    assert_eq!(waits.len(), 19);
    assert_eq!(waits[18], 2_621_440);
    let stats = publisher.stats();
    assert_eq!((stats.send_retries, stats.error_send, stats.sent), (19, 1, 0));
}

#[test]
fn other_errors_are_not_retried() {
    let mut publisher = KafkaYangPublisherActor::new(None);
    let step: SendStep<String> =
        publisher.send_result(Err(SendFailure::Other(KafkaError::Canceled)), 10);
    assert!(matches!(
        step,
        SendStep::Fail(KafkaYangPublisherActorError::KafkaError(KafkaError::Canceled))
    ));
    let too_large = KafkaError::MessageProduction(RDKafkaErrorCode::MessageSizeTooLarge);
    let step: SendStep<String> = publisher.send_result(Err(SendFailure::Other(too_large)), 10);
    assert!(matches!(step, SendStep::Fail(_)));
    let step: SendStep<String> = publisher.send_result(Ok(()), 10);
    assert!(matches!(step, SendStep::Done));
    let stats = publisher.stats();
    assert_eq!((stats.send_retries, stats.error_send, stats.sent), (0, 2, 1));
    assert_eq!(retry_step(true, 5_000_000), RetryStep::Retry { interval: 5_000_000 });
    assert_eq!(retry_step(true, 5_000_001), RetryStep::GiveUp);
    assert_eq!(retry_step(false, 10), RetryStep::GiveUp);
}

#[test]
fn key_is_written_as_json() {
    let mut publisher = KafkaYangPublisherActor::new(None);
    publisher.message_received();
    let key = Value::Array(vec![Value::String("a\"b".to_string()), Value::Bool(true)]);
    let encoded: Result<_, PublishError> = publisher.encode(Ok(b"{}".to_vec()), Some(key));
    let encoded = encoded.unwrap();
    assert_eq!(encoded.value, b"{}");
    assert_eq!(encoded.key, Some(b"[\"a\\\"b\",true]".to_vec()));
    let encoded: Result<_, PublishError> = publisher.encode(Ok(b"{}".to_vec()), None);
    assert_eq!(encoded.unwrap().key, None);
    assert_eq!(publisher.stats().error_decode, 0);
    assert_eq!(publisher.stats().received, 1);
}

#[test]
fn conversion_errors_are_counted() {
    let mut publisher = KafkaYangPublisherActor::new(None);
    match publisher.encode(Err("bad".to_string()), Some(Value::Null)) {
        Err(KafkaYangPublisherActorError::YangConverterError(error)) => assert_eq!(error, "bad"),
        other => panic!("no conversion error: {other:?}"),
    }
    let error = serde_json::from_slice::<Value>(b"{").unwrap_err();
    let encoded: Result<_, PublishError> = publisher.take_encoded(Vec::new(), Some(Err(error)));
    assert!(matches!(encoded, Err(KafkaYangPublisherActorError::JsonError(_))));
    assert_eq!(publisher.stats().error_decode, 2);
}

#[test]
fn loop_ends_with_words_or_goes_on() {
    let words = |event| match stop_after::<String>(event) {
        Some(Ok(words)) => words,
        other => panic!("no words: {other:?}"),
    };
    let shutdown = PublisherEvent::Command(Some(KafkaYangPublisherActorCommand::Shutdown));
    assert_eq!(words(shutdown), "Shutting down");
    assert_eq!(
        words(PublisherEvent::Command(None)),
        "KafkaYangPublisher shutdown successfully"
    );
    assert!(matches!(
        stop_after::<String>(PublisherEvent::InputClosed),
        Some(Err(KafkaYangPublisherActorError::ReceiveErr))
    ));
    for sent in [true, false] {
        assert!(stop_after::<String>(PublisherEvent::Message { sent }).is_none());
        assert!(!flush_after(PublisherEvent::Message { sent }));
    }
    assert!(flush_after(shutdown));
    assert!(!flush_after(PublisherEvent::Command(None)));
    assert!(!flush_after(PublisherEvent::InputClosed));
}

#[test]
fn commands_come_before_messages() {
    assert_eq!(next_source(true, true), Some(PublisherSource::Command));
    assert_eq!(next_source(true, false), Some(PublisherSource::Command));
    assert_eq!(next_source(false, true), Some(PublisherSource::Input));
    assert_eq!(next_source(false, false), None);
}

#[test]
fn waits_are_bounded() {
    assert_eq!(CACHE_LOOKUP_TIMEOUT, 5_000_000);
    assert_eq!(FLUSH_TIMEOUT, 1_000_000);
    assert_eq!(MAX_POLLING_INTERVAL, 5_000_000);
    assert_eq!(FIRST_POLLING_INTERVAL, 10);
}
