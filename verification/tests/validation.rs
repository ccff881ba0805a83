use bytes::Bytes;
use netcalyx::udp_notif::wire::{MediaType, UdpNotifPacket};
use netcalyx::yang_push::state::{
    BufferFull, DecodedNotification, NotificationVariant, Schemas, UdpNotifRequest,
};
use netcalyx::yang_push::subscription::{
    build_subscription_info, IpAddr, SocketAddr, SubscriptionInfo, SubscriptionStartedModified,
    YangPushModuleVersion,
};
use netcalyx::yang_push::telemetry::{
    cache_response_tags, extend_peer_targs_with_subscription_info, peer_tags_from_packet,
    subscription_info_tags, TagKey, TagValue,
};
use netcalyx::yang_push::validation::{
    stop_after, CacheLookupCommand, NextStep, Processed, RunEvent, Source, ValidationActor,
    ValidationActorCommand, ValidationActorError, ValidationActorHandleError,
};
use netcalyx::yang_push::yang::validate_message;
use std::collections::HashMap;
use std::sync::Arc;

const UPDATE: &str = r#"{"ietf-yang-library:yang-library-update":{"content-id":"1"}}"#;

const INTERFACES_STARTED: &str = r#"{"ietf-yp-notification:envelope": {
    "event-time": "2025-09-23T14:12:16.024Z",
    "hostname": "ipf-zbl1327-r-daisy-48",
    "sequence-number": 0,
    "contents": {"ietf-subscribed-notifications:subscription-started": {
        "id": 1,
        "ietf-yang-push:datastore": "ietf-datastores:operational",
        "ietf-yang-push:datastore-xpath-filter": "/ietf-interfaces:interfaces",
        "transport": "ietf-udp-notif-transport:udp-notif",
        "encoding": "encode-json",
        "purpose": "test subscription",
        "ietf-distributed-notif:message-publisher-id": [16843789],
        "ietf-yang-push-revision:module-version": [
            {"name": "ietf-interfaces", "revision": "2018-02-20"}
        ],
        "ietf-yang-push-revision:yang-library-content-id": "test-content-id-1",
        "ietf-yang-push:periodic": {"period": 6000}
    }}
}}"#;

const HARDWARE_STARTED: &str = r#"{"ietf-yp-notification:envelope": {
    "event-time": "2025-09-23T14:12:16.024Z",
    "hostname": "ipf-zbl1327-r-daisy-48",
    "sequence-number": 0,
    "contents": {"ietf-subscribed-notifications:subscription-started": {
        "id": 2,
        "ietf-yang-push:datastore": "ietf-datastores:operational",
        "ietf-yang-push:datastore-xpath-filter": "/ietf-hardware:hardware",
        "transport": "ietf-udp-notif-transport:udp-notif",
        "encoding": "encode-json",
        "ietf-distributed-notif:message-publisher-id": [16843789],
        "ietf-yang-push-revision:module-version": [
            {"name": "ietf-hardware", "revision": ""}
        ],
        "ietf-yang-push-revision:yang-library-content-id": "test-content-id-1",
        "ietf-yang-push:periodic": {"period": 6000}
    }}
}}"#;

const BACKPRESSURE_STARTED: &str = r#"{"ietf-yp-notification:envelope": {
    "event-time": "2025-09-23T14:12:16.024Z",
    "contents": {"ietf-subscribed-notifications:subscription-started": {
        "id": 1,
        "ietf-yang-push:datastore": "ietf-datastores:operational",
        "ietf-yang-push:datastore-xpath-filter": "/ietf-interfaces:interfaces",
        "transport": "ietf-udp-notif-transport:udp-notif",
        "encoding": "encode-json",
        "purpose": "test subscription",
        "ietf-distributed-notif:message-publisher-id": [16843789],
        "ietf-yang-push-revision:module-version": [
            {"name": "ietf-interfaces", "revision": "2018-02-20"}
        ],
        "ietf-yang-push-revision:yang-library-content-id": "test-content-id-1",
        "ietf-yang-push:periodic": {"period": 6000}
    }}
}}"#;

const MALFORMED_STARTED: &str = r#"{"ietf-yp-notification:envelope": {
    "event-time": "2025-09-23T14:12:16.024Z",
    "contents": {"ietf-subscribed-notifications:subscription-started": {
        "id": 103,
        "ietf-yang-push:datastore": "ietf-datastores:operational",
        "ietf-yang-push:datastore-xpath-filter": "/ietf-hardware:hardware",
        "transport": "ietf-udp-notif-transport:udp-notif",
        "encoding": "encode-json",
        "ietf-yang-push:periodic": {"period": 6000}
    }}
}}"#;

fn address(last: u32) -> SocketAddr {
    SocketAddr { ip: IpAddr::V4(0x0a00_0000 + last), port: 10000, flowinfo: 0, scope_id: 0 }
}

fn packet(message_id: u32, payload: &str) -> UdpNotifPacket {
    UdpNotifPacket::new(
        MediaType::YangDataJson,
        10,
        message_id,
        HashMap::new(),
        Bytes::from(payload.as_bytes().to_vec()),
    )
}

fn request(peer: u32, message_id: u32, payload: &str) -> Arc<UdpNotifRequest> {
    Arc::new(UdpNotifRequest {
        collector: address(1),
        interface: Some("eth0".to_string()),
        peer: address(peer),
        packet: packet(message_id, payload),
    })
}

/// A packet with this JSON, written compactly, as the local host collects it.
fn local_request(message_id: u32, json: &str) -> Arc<UdpNotifRequest> {
    let value: serde_json::Value = serde_json::from_str(json).unwrap();
    Arc::new(UdpNotifRequest {
        collector: SocketAddr {
            ip: IpAddr::V4(0x7f00_0001),
            port: 10000,
            flowinfo: 0,
            scope_id: 0,
        },
        interface: None,
        peer: address(2),
        packet: packet(message_id, &serde_json::to_string(&value).unwrap()),
    })
}

fn started(id: u32, modules: Option<Vec<YangPushModuleVersion>>) -> SubscriptionStartedModified {
    SubscriptionStartedModified {
        id,
        target: "/ietf-interfaces:interfaces".to_string(),
        stop_time: None,
        transport: Some("ietf-udp-notif-transport:udp-notif".to_string()),
        encoding: Some("encode-json".to_string()),
        purpose: Some("test subscription".to_string()),
        update_trigger: Some("periodic 6000".to_string()),
        module_version: modules,
        yang_library_content_id: Some("test-content-id-1".to_string()),
    }
}

fn interfaces() -> Option<Vec<YangPushModuleVersion>> {
    Some(vec![YangPushModuleVersion {
        name: "ietf-interfaces".to_string(),
        revision: Some("2018-02-20".to_string()),
        version: None,
    }])
}

/// A subscription to a module that is named without its revision.
fn hardware() -> SubscriptionStartedModified {
    SubscriptionStartedModified {
        id: 2,
        target: "/ietf-hardware:hardware".to_string(),
        stop_time: None,
        transport: Some("ietf-udp-notif-transport:udp-notif".to_string()),
        encoding: Some("encode-json".to_string()),
        purpose: None,
        update_trigger: Some("periodic 6000".to_string()),
        module_version: Some(vec![YangPushModuleVersion {
            name: "ietf-hardware".to_string(),
            revision: Some("".to_string()),
            version: None,
        }]),
        yang_library_content_id: Some("test-content-id-1".to_string()),
    }
}

fn announcement(id: u32) -> Result<DecodedNotification, ()> {
    Ok(DecodedNotification {
        is_legacy: false,
        contents: Some(NotificationVariant::SubscriptionStarted(started(id, interfaces()))),
    })
}

fn update(id: u32) -> Result<DecodedNotification, ()> {
    Ok(DecodedNotification {
        is_legacy: false,
        contents: Some(NotificationVariant::Other { subscription_id: id }),
    })
}

/// Schemas that accept the notifications of one module.
#[derive(Debug)]
struct Modules {
    accepted: &'static str,
}

type Actor = ValidationActor<Modules>;

fn context() -> Modules {
    Modules { accepted: "ietf-yang-library" }
}

fn envelopes() -> Modules {
    Modules { accepted: "ietf-yp-notification" }
}

fn process(
    actor: &mut Actor,
    message: &Arc<UdpNotifRequest>,
    decoded: &Result<DecodedNotification, ()>,
) -> Processed {
    actor.process_udp_notif_msg(Arc::clone(message), decoded, |packet, modules: &Modules, _| {
        let payload = std::str::from_utf8(packet.payload()).unwrap();
        payload.starts_with(&format!("{{\"{}:", modules.accepted))
    })
}

fn expect_lookup(processed: Processed) -> CacheLookupCommand {
    match processed {
        Processed::Lookup { command, .. } => command,
        other => panic!("no lookup: {other:?}"),
    }
}

fn expect_forward(processed: Processed) -> (Option<String>, SubscriptionInfo) {
    match processed {
        Processed::Forward { content_id, subscription_info } => (content_id, subscription_info),
        other => panic!("not forwarded: {other:?}"),
    }
}

/// Hands an announcement in and lets it wait for its schemas.
fn announce(actor: &mut Actor, message: &Arc<UdpNotifRequest>) -> SubscriptionInfo {
    actor.message_received();
    let command = expect_lookup(process(actor, message, &announcement(1)));
    let info = match &command {
        CacheLookupCommand::LookupBySubscriptionInfo(info) => info.copy(),
        other => panic!("no lookup by info: {other:?}"),
    };
    assert_eq!(actor.lookup_sent(command, Arc::clone(message), true), Ok(Ok(())));
    info
}

#[test]
fn test_validation_actor_schema_fetched() {
    let mut actor = Actor::new(1000, 100);
    let message = local_request(1, INTERFACES_STARTED);
    let info = announce(&mut actor, &message);
    assert_eq!(actor.stats().cache_request_by_subscription_info, 1);
    assert_eq!(actor.stats().buffered_packets, 1);
    assert!(actor.awaits_response(&info));

    let answer = actor.process_cache_response(
        Some("test-content-id-1".to_string()),
        info,
        Schemas::Loaded(envelopes()),
    );
    assert_eq!(answer, Ok(()));
    assert!(actor.has_pending());
    let pending = actor.next_pending().unwrap();
    assert!(!actor.has_pending());
    assert_eq!(pending.packet.message_id(), 1);
    let (content_id, sub_info) =
        expect_forward(process(&mut actor, &pending, &announcement(1)));
    assert!(content_id.is_some());
    assert!(!sub_info.is_empty());
    assert_eq!(actor.message_sent(true), Ok(()));

    let stats = actor.stats();
    assert_eq!(stats.cache_request_by_subscription_info, 1);
    assert_eq!(stats.cache_yang_ctx_created, 1);
    assert_eq!(stats.validation_success, 1);
    assert_eq!(stats.messages_sent, 1);
    assert_eq!((stats.buffered_packets, stats.buffer_drain), (0, 1));
}

#[test]
fn test_validation_actor_schema_not_found() {
    let mut actor = Actor::new(1000, 100);
    let message = local_request(1, HARDWARE_STARTED);
    let announcement = Ok(DecodedNotification {
        is_legacy: false,
        contents: Some(NotificationVariant::SubscriptionStarted(hardware())),
    });
    actor.message_received();
    let command = expect_lookup(process(&mut actor, &message, &announcement));
    let info = match &command {
        CacheLookupCommand::LookupBySubscriptionInfo(info) => info.copy(),
        other => panic!("no lookup by info: {other:?}"),
    };
    assert_eq!(actor.lookup_sent(command, Arc::clone(&message), true), Ok(Ok(())));
    assert_eq!(info.id, 2);
    assert_eq!(info.target, "/ietf-hardware:hardware");
    assert_eq!(actor.process_cache_response(None, info, Schemas::Unavailable), Ok(()));
    let pending = actor.next_pending().unwrap();
    let (content_id, sub_info) = expect_forward(process(&mut actor, &pending, &announcement));
    assert!(content_id.is_none());
    assert!(!sub_info.is_empty());
    assert_eq!(sub_info.id, 2);
    assert_eq!(actor.stats().cache_request_by_subscription_info, 1);
    assert_eq!(actor.stats().cache_yang_ctx_empty, 1);
    assert_eq!(actor.stats().validation_skip, 1);
}

#[test]
fn test_validation_actor_drains_under_backpressure() {
    let mut actor = Actor::new(10000, 1000);
    let n = 200;
    let info = announce(&mut actor, &local_request(0, BACKPRESSURE_STARTED));
    for i in 1..n {
        // The schemas are being looked up: the packet waits for them.
        let message = local_request(i, BACKPRESSURE_STARTED);
        let processed = process(&mut actor, &message, &announcement(1));
        assert!(matches!(processed, Processed::Waiting(Ok(()))));
    }
    assert_eq!(actor.stats().cache_request_by_subscription_info, 1);
    assert_eq!(actor.stats().buffered_packets, 200);
    let answer = actor.process_cache_response(
        Some("test-content-id-1".to_string()),
        info,
        Schemas::Loaded(envelopes()),
    );
    assert_eq!(answer, Ok(()));
    // The answer only queues the packets; each of them is then processed, in the
    // order in which they came.
    for i in 0..n {
        let pending = actor.next_pending().unwrap();
        assert_eq!(pending.packet.message_id(), i);
        expect_forward(process(&mut actor, &pending, &announcement(1)));
    }
    assert!(actor.next_pending().is_none());
    assert_eq!(actor.stats().buffer_drain, 200);
    assert_eq!(actor.stats().validation_success, 200);
}

#[test]
fn packets_wait_up_to_the_limit() {
    let mut actor = Actor::new(10, 2);
    announce(&mut actor, &request(2, 0, UPDATE));
    let processed = process(&mut actor, &request(2, 1, UPDATE), &update(1));
    assert!(matches!(processed, Processed::Waiting(Ok(()))));
    let processed = process(&mut actor, &request(2, 2, UPDATE), &update(1));
    assert!(matches!(processed, Processed::Waiting(Err(BufferFull::Subscription))));
    assert_eq!(actor.stats().buffer_drop, 1);
    assert_eq!(actor.stats().buffered_packets, 2);
    assert_eq!(actor.stats().messages_sent, 0);
}

#[test]
fn test_validation_actor_malformed_subscription_started_dropped() {
    let mut actor = Actor::new(1000, 100);
    let malformed = Ok(DecodedNotification {
        is_legacy: false,
        contents: Some(NotificationVariant::SubscriptionStarted(SubscriptionStartedModified {
            id: 103,
            module_version: None,
            yang_library_content_id: None,
            ..hardware()
        })),
    });
    let processed = process(&mut actor, &local_request(1, MALFORMED_STARTED), &malformed);
    assert!(matches!(processed, Processed::Dropped));
    assert!(!actor.has_pending());
    let stats = actor.stats();
    assert_eq!(stats.validation_malformed, 1);
    assert_eq!(stats.cache_request_by_subscription_info, 0);
    assert_eq!(stats.cache_request_by_subscription_id, 0);
    assert_eq!(stats.buffered_packets, 0);
}

#[test]
fn invalid_payload_is_dropped() {
    let mut actor = Actor::new(1000, 100);
    let message = request(2, 1, "{\"no-such-module:notification\":{}}");
    let info = announce(&mut actor, &message);
    let answer = actor.process_cache_response(
        Some("test-content-id-1".to_string()),
        info,
        Schemas::Loaded(context()),
    );
    assert_eq!(answer, Ok(()));
    let pending = actor.next_pending().unwrap();
    let processed = process(&mut actor, &pending, &announcement(1));
    assert!(matches!(processed, Processed::Dropped));
    assert_eq!(actor.stats().validation_invalid, 1);
    assert_eq!(actor.stats().validation_success, 0);
}

#[test]
fn schemas_that_cannot_be_loaded_disable_validation() {
    let mut actor = Actor::new(1000, 100);
    let message = request(2, 1, "{\"no-such-module:notification\":{}}");
    let info = announce(&mut actor, &message);
    let answer =
        actor.process_cache_response(Some("content".to_string()), info, Schemas::Invalid);
    assert_eq!(answer, Ok(()));
    assert_eq!(actor.stats().cache_yang_ctx_invalid, 1);
    for decoded in [announcement(1), update(1)] {
        let (content_id, info) =
            expect_forward(process(&mut actor, &message, &decoded));
        assert_eq!(content_id, None);
        assert_eq!(info.content_id, "test-content-id-1");
    }
    assert_eq!(actor.stats().validation_skip, 2);
}

#[test]
fn unknown_subscription_is_looked_up_by_id() {
    let mut actor = Actor::new(1000, 100);
    let message = request(2, 1, UPDATE);
    let command = expect_lookup(process(&mut actor, &message, &update(5)));
    match &command {
        CacheLookupCommand::LookupBySubscriptionId {
            collector,
            interface,
            peer,
            subscription_id,
        } => {
            assert_eq!(*collector, address(1));
            assert_eq!(interface.as_deref(), Some("eth0"));
            assert_eq!(*peer, address(2));
            assert_eq!(*subscription_id, 5);
        }
        other => panic!("no lookup by id: {other:?}"),
    }
    assert_eq!(actor.stats().cache_request_by_subscription_id, 1);
    assert_eq!(actor.lookup_sent(command, Arc::clone(&message), true), Ok(Ok(())));
    assert_eq!(actor.stats().buffered_packets, 1);
    // the answer for an empty subscription is forwarded without validation
    let empty = SubscriptionInfo::new_empty(address(1), None, address(2), 5);
    assert!(empty.is_empty());
    let answer =
        actor.process_cache_response(Some("c".to_string()), empty, Schemas::Loaded(context()));
    assert_eq!(answer, Ok(()));
    let pending = actor.next_pending().unwrap();
    let (content_id, info) = expect_forward(process(&mut actor, &pending, &update(5)));
    assert_eq!(content_id, None);
    assert_eq!(info.content_id, "EMPTY");
}

#[test]
fn failed_lookup_and_failed_send_are_errors() {
    let mut actor = Actor::new(1000, 100);
    let message = request(2, 1, UPDATE);
    let command = expect_lookup(process(&mut actor, &message, &update(5)));
    assert_eq!(
        actor.lookup_sent(command, message, false),
        Err(ValidationActorError::CacheLookupSendError)
    );
    assert_eq!(actor.stats().buffered_packets, 0);
    assert_eq!(actor.message_sent(false), Err(ValidationActorError::SendError));
    assert_eq!(actor.stats().messages_sent, 0);
}

#[test]
fn undecodable_and_empty_packets_are_dropped() {
    let mut actor = Actor::new(1000, 100);
    let message = request(2, 1, UPDATE);
    assert!(matches!(process(&mut actor, &message, &Err(())), Processed::Dropped));
    let nothing = Ok(DecodedNotification { is_legacy: true, contents: None });
    assert!(matches!(process(&mut actor, &message, &nothing), Processed::Dropped));
    let stats = actor.stats();
    assert_eq!(stats.messages_decoding_fail, 1);
    assert_eq!(stats.messages_decoding_success, 1);
    assert_eq!(stats.validation_invalid, 1);
}

#[test]
fn buffers_hold_no_more_than_their_limits() {
    let info = |id: u32| SubscriptionInfo::new_empty(address(1), None, address(2), id);
    let mut actor = Actor::new(3, 2);
    assert_eq!(actor.buffer_packet(info(1), request(2, 0, UPDATE)), Ok(()));
    assert_eq!(actor.buffer_packet(info(1), request(2, 1, UPDATE)), Ok(()));
    assert_eq!(
        actor.buffer_packet(info(1), request(2, 2, UPDATE)),
        Err(BufferFull::Subscription)
    );
    assert_eq!(actor.buffer_packet(info(2), request(2, 3, UPDATE)), Ok(()));
    assert_eq!(actor.buffer_packet(info(2), request(2, 4, UPDATE)), Err(BufferFull::Peer));
    assert_eq!(actor.stats().buffer_drop, 2);
    assert_eq!(actor.stats().buffered_packets, 3);
    // another peer has room of its own
    let other = SubscriptionInfo::new_empty(address(1), None, address(3), 1);
    assert_eq!(actor.buffer_packet(other, request(3, 5, UPDATE)), Ok(()));
    // an answer makes room again
    assert_eq!(actor.process_cache_response(None, info(1), Schemas::Unavailable), Ok(()));
    assert_eq!(actor.stats().buffered_packets, 1);
    assert_eq!(actor.buffer_packet(info(2), request(2, 6, UPDATE)), Ok(()));
    assert_eq!(actor.next_pending().unwrap().packet.message_id(), 0);
    assert_eq!(actor.next_pending().unwrap().packet.message_id(), 1);
    assert!(actor.next_pending().is_none());
}

#[test]
fn refused_packet_leaves_no_trace() {
    for (per_peer, per_subscription, full) in
        [(0, 5, BufferFull::Peer), (5, 0, BufferFull::Subscription)]
    {
        let mut actor = Actor::new(per_peer, per_subscription);
        let message = request(2, 1, UPDATE);
        let info = SubscriptionInfo::new_empty(address(1), None, address(2), 1);
        assert_eq!(actor.buffer_packet(info.copy(), Arc::clone(&message)), Err(full));
        assert!(!actor.awaits_response(&info));
        assert_eq!(actor.process_cache_response(None, info, Schemas::Unavailable), Ok(()));
        assert!(!actor.has_pending());
        let stats = actor.stats();
        assert_eq!((stats.buffer_drop, stats.buffered_packets), (1, 0));
        assert_eq!(stats.cache_yang_ctx_empty, 0);
    }
}

#[test]
fn lookup_of_a_packet_without_room_is_reported() {
    let mut actor = Actor::new(0, 5);
    let message = request(2, 1, UPDATE);
    let command = expect_lookup(process(&mut actor, &message, &update(7)));
    assert_eq!(actor.lookup_sent(command, message, true), Ok(Err(BufferFull::Peer)));
    assert_eq!(actor.stats().buffer_drop, 1);
}

#[test]
fn packet_waits_under_the_address_it_came_from() {
    let mut actor = Actor::new(5, 5);
    let info = SubscriptionInfo::new_empty(address(1), None, address(3), 1);
    assert_eq!(actor.buffer_packet(info, request(2, 1, UPDATE)), Ok(()));
    let elsewhere = SubscriptionInfo::new_empty(address(1), None, address(3), 1);
    assert!(!actor.awaits_response(&elsewhere));
    let here = SubscriptionInfo::new_empty(address(1), None, address(2), 1);
    assert!(actor.awaits_response(&here));
}

#[test]
fn sources_are_served_in_order() {
    let mut actor = Actor::new(10, 10);
    assert_eq!(actor.next_source(false, false, false), None);
    assert_eq!(actor.next_source(false, false, true), Some(Source::Input));
    let info = announce(&mut actor, &request(2, 1, UPDATE));
    assert_eq!(actor.process_cache_response(None, info, Schemas::Unavailable), Ok(()));
    assert_eq!(actor.next_source(false, false, false), Some(Source::Pending));
    assert_eq!(actor.next_source(false, false, true), Some(Source::Pending));
    assert_eq!(actor.next_source(false, true, true), Some(Source::CacheResponse));
    assert_eq!(actor.next_source(true, true, true), Some(Source::Command));
    assert!(actor.next_pending().is_some());
    assert_eq!(actor.next_source(false, false, true), Some(Source::Input));
}

#[test]
fn changed_subscription_is_looked_up_again() {
    let mut actor = Actor::new(1000, 100);
    let message = request(2, 1, UPDATE);
    let info = announce(&mut actor, &message);
    assert_eq!(actor.process_cache_response(None, info.copy(), Schemas::Unavailable), Ok(()));
    // the same announcement is known
    assert!(matches!(
        actor.decide(&message, &announcement(1)),
        NextStep::Skip(_)
    ));
    // another target is not
    let mut changed = started(1, interfaces());
    changed.target = "/other".to_string();
    let changed = Ok(DecodedNotification {
        is_legacy: false,
        contents: Some(NotificationVariant::SubscriptionModified(changed)),
    });
    match actor.decide(&message, &changed) {
        NextStep::Lookup(CacheLookupCommand::LookupBySubscriptionInfo(info)) => {
            assert_eq!(info.target, "/other")
        }
        other => panic!("no lookup: {other:?}"),
    }
    assert!(!actor.awaits_response(&info));
    // an answer for a subscription that is gone changes nothing
    let answer = actor.process_cache_response(None, info, Schemas::Invalid);
    assert_eq!(answer, Ok(()));
    assert_eq!(actor.stats().cache_yang_ctx_invalid, 0);
}

#[test]
fn peers_of_both_families_are_kept_apart() {
    let mut actor = Actor::new(10, 10);
    let v6 = SocketAddr {
        ip: IpAddr::V6(0x0a00_0002),
        port: 10000,
        flowinfo: 0,
        scope_id: 0,
    };
    let message = request(2, 1, UPDATE);
    let info = announce(&mut actor, &message);
    assert!(actor.awaits_response(&info));
    let other = SubscriptionInfo::new_empty(address(1), None, v6, 1);
    assert!(!actor.awaits_response(&other));
    let from_v6 = Arc::new(UdpNotifRequest {
        collector: address(1),
        interface: None,
        peer: v6,
        packet: packet(2, UPDATE),
    });
    assert_eq!(actor.buffer_packet(other.copy(), from_v6), Ok(()));
    assert!(actor.awaits_response(&other));
}

#[test]
fn announced_subscription_lists_the_notification_module() {
    let info = build_subscription_info(
        address(2),
        address(1),
        Some("eth0".to_string()),
        &started(1, interfaces()),
    )
    .unwrap();
    let names: Vec<&str> = info.modules.iter().map(|module| module.name.as_str()).collect();
    assert_eq!(names, vec!["ietf-interfaces", "ietf-subscribed-notifications"]);
    assert_eq!(info.modules[0].revision.as_deref(), Some("2018-02-20"));
    assert_eq!(info.modules[1].revision, None);
    assert_eq!(info.content_id, "test-content-id-1");
    assert!(info.same(&info.copy()));
    let mut other = info.copy();
    other.purpose = None;
    assert!(!info.same(&other));
    let mut unnamed = started(1, interfaces());
    unnamed.yang_library_content_id = None;
    let info = build_subscription_info(address(2), address(1), None, &unnamed).unwrap();
    assert_eq!(info.content_id, "");
    assert!(build_subscription_info(address(2), address(1), None, &started(1, None)).is_none());
}

#[test]
fn validator_is_told_packet_schemas_and_kind() {
    let mut actor = Actor::new(10, 10);
    let message = request(2, 1, UPDATE);
    let info = announce(&mut actor, &message);
    let answer =
        actor.process_cache_response(Some("c".to_string()), info, Schemas::Loaded(context()));
    assert_eq!(answer, Ok(()));
    let legacy = Ok(DecodedNotification {
        is_legacy: true,
        contents: Some(NotificationVariant::Other { subscription_id: 1 }),
    });
    let processed = actor.process_udp_notif_msg(Arc::clone(&message), &legacy, |packet, modules, is_legacy| {
        packet.message_id() == 1 && modules.accepted == "ietf-yang-library" && is_legacy
    });
    let (content_id, _) = expect_forward(processed);
    assert_eq!(content_id.as_deref(), Some("c"));
    let processed = actor.process_udp_notif_msg(Arc::clone(&message), &update(1), |_, _, is_legacy| is_legacy);
    assert!(matches!(processed, Processed::Dropped));
}

#[test]
fn envelopes_are_for_notifications_that_are_not_legacy() {
    let validate = |envelope: Option<u8>, is_legacy: bool| {
        validate_message(envelope, is_legacy, |ext| Err(ext), || Ok(()))
    };
    assert_eq!(validate(Some(3), false), Err(3));
    assert_eq!(validate(Some(3), true), Ok(()));
    assert_eq!(validate(None, false), Ok(()));
    assert_eq!(validate(None, true), Ok(()));
}

#[test]
fn tags_tell_peer_and_subscription() {
    let mut tags = peer_tags_from_packet(address(2), &packet(1, UPDATE));
    assert_eq!(tags.len(), 3);
    assert!(matches!(tags[0].value, TagValue::Address(IpAddr::V4(0x0a00_0002))));
    assert!(matches!((tags[1].key, &tags[1].value), (TagKey::PeerPort, TagValue::Int(10000))));
    assert!(matches!((tags[2].key, &tags[2].value), (TagKey::PublisherId, TagValue::Int(10))));
    let info = SubscriptionInfo::new_empty(address(1), None, address(2), 77);
    extend_peer_targs_with_subscription_info(&info, &mut tags);
    assert_eq!(tags.len(), 6);
    assert!(matches!((tags[3].key, &tags[3].value), (TagKey::SubscriptionId, TagValue::Int(77))));
    assert_eq!(tags[5].key, TagKey::RouterContentId);
    assert!(subscription_info_tags(None).is_empty());
    let tags = subscription_info_tags(Some(&info));
    assert_eq!(tags.len(), 4);
    assert_eq!(tags[0].key, TagKey::PeerAddress);
    assert_eq!(tags[1].key, TagKey::SubscriptionId);
    let tags = cache_response_tags(&info);
    assert_eq!(tags.len(), 5);
    assert!(matches!(tags[0].value, TagValue::Address(IpAddr::V4(0x0a00_0002))));
    assert!(matches!((tags[1].key, &tags[1].value), (TagKey::PeerPort, TagValue::Int(10000))));
    assert!(matches!((tags[2].key, &tags[2].value), (TagKey::SubscriptionId, TagValue::Int(77))));
}

#[test]
fn loop_ends_or_goes_on() {
    assert_eq!(
        stop_after(RunEvent::Command(Some(ValidationActorCommand::Shutdown))).as_deref(),
        Some("Enrichment shutdown successfully")
    );
    assert_eq!(
        stop_after(RunEvent::Command(None)).as_deref(),
        Some("Yang Push validation actor terminated due to command channel closing")
    );
    assert_eq!(stop_after(RunEvent::CacheResponse(Ok(()))), None);
    assert_eq!(stop_after(RunEvent::Pending(Ok(()))), None);
    assert_eq!(stop_after(RunEvent::Input(Ok(()))), None);
    assert_eq!(
        stop_after(RunEvent::CacheResponse(Err(ValidationActorError::SendError))).as_deref(),
        Some("Yang Push validation actor cache response processing unrecoverable error, shutting down")
    );
    assert_eq!(
        stop_after(RunEvent::CacheClosed).as_deref(),
        Some("Yang Push validation actor cache receiver channel closed unexpectedly, shutting down")
    );
    assert_eq!(
        stop_after(RunEvent::Pending(Err(ValidationActorError::SendError))).as_deref(),
        Some("Yang Push validation actor cached packet processing unrecoverable error, shutting down")
    );
    assert_eq!(
        stop_after(RunEvent::Input(Err(ValidationActorError::SendError))).as_deref(),
        Some("Yang Push validation actor UDP-Notif processing unrecoverable error, shutting down")
    );
    assert_eq!(
        stop_after(RunEvent::InputClosed).as_deref(),
        Some("Yang Push validation actor UDP Notif receiver channel closed unexpectedly, shutting down")
    );
}

#[test]
fn errors_have_words() {
    assert_eq!(
        ValidationActorError::CacheLookupSendError.message(),
        "Failed to send cache lookup command"
    );
    assert_eq!(
        ValidationActorError::CacheResponseReceiveError.message(),
        "Failed to receive cache response"
    );
    assert_eq!(
        ValidationActorError::SendError.message(),
        "Failed to send the decoded UDP-Notif packet"
    );
    assert_eq!(
        ValidationActorHandleError::SendErr.message(),
        "Failed to send command to actor"
    );
}
