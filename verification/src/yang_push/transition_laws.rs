//! What each step of the validation of notifications does to what is cached,
//! queued and counted, for every packet and every answer.
use crate::text::{counted, opt_text};
use crate::yang_push::state::{
    announced, answered, buffered, cached_subscription, consistent, counted_times, decided,
    fresh_actor, no_stats, ActorState, BufferFull, Decision, DecodedNotification,
    NotificationVariant, PeerState, Schemas, SubscriptionState, UdpNotifRequest, ValidationStats,
};
use crate::yang_push::subscription::{
    announced_info, modules_model, InfoModel, IpAddr, SocketAddr, SubscriptionInfo,
    SubscriptionStartedModified,
};
use crate::yang_push::validation::{
    last_words, requested_info, schemas_for, served, validated, CacheLookupCommand, NextStep,
    RunEvent, Source, ValidationActor, ValidationActorCommand, ValidationActorError,
};
use std::sync::Arc;
use vstd::prelude::*;

verus! {

/// Two states have the same limits.
pub open spec fn same_limits<C>(state: ActorState<C>, after: ActorState<C>) -> bool {
    &&& after.max_per_peer == state.max_per_peer
    &&& after.max_per_subscription == state.max_per_subscription
}

/// Two states differ in what they have counted at most.
pub open spec fn only_counted<C>(state: ActorState<C>, after: ActorState<C>) -> bool {
    &&& same_limits(state, after)
    &&& after.peers == state.peers
    &&& after.pending == state.pending
}

/// The limits of a new actor are those that it was made with; it knows no peer,
/// has nothing queued, and every counter is zero.
pub proof fn lemma_fresh_actor<C>(max_per_peer: nat, max_per_subscription: nat)
    ensures
        ({
            let state = fresh_actor::<C>(max_per_peer, max_per_subscription);
            let stats = state.stats;
            &&& state.max_per_peer == max_per_peer
            &&& state.max_per_subscription == max_per_subscription
            &&& state.peers == Map::<IpAddr, PeerState<C>>::empty()
            &&& state.pending.len() == 0
            &&& consistent(state)
            &&& stats == no_stats()
            &&& stats.messages_received == 0 && stats.messages_decoding_success == 0
            &&& stats.messages_decoding_fail == 0 && stats.cache_request_by_subscription_info == 0
            &&& stats.cache_request_by_subscription_id == 0 && stats.buffered_packets == 0
            &&& stats.buffer_drop == 0 && stats.buffer_drain == 0
            &&& stats.cache_yang_ctx_created == 0 && stats.cache_yang_ctx_invalid == 0
            &&& stats.cache_yang_ctx_empty == 0 && stats.validation_success == 0
            &&& stats.validation_invalid == 0 && stats.validation_malformed == 0
            &&& stats.validation_skip == 0 && stats.messages_sent == 0
        }),
{
}

/// A packet that cannot be decoded is dropped and counted, and nothing else
/// changes.
pub proof fn lemma_undecodable_packet_dropped<C>(state: ActorState<C>, message: UdpNotifRequest)
    ensures
        ({
            let (decision, after) = decided(state, message, Err(()));
            &&& decision is Drop
            &&& only_counted(state, after)
            &&& after.stats == (ValidationStats {
                messages_decoding_fail: counted(state.stats.messages_decoding_fail),
                ..state.stats
            })
        }),
{
}

/// A packet whose payload has no contents is dropped and counted as invalid, and
/// nothing else changes.
pub proof fn lemma_packet_without_contents_dropped<C>(
    state: ActorState<C>,
    message: UdpNotifRequest,
    is_legacy: bool,
)
    ensures
        ({
            let decoded = DecodedNotification { is_legacy, contents: None };
            let (decision, after) = decided(state, message, Ok(decoded));
            &&& decision is Drop
            &&& only_counted(state, after)
            &&& after.stats == (ValidationStats {
                messages_decoding_success: counted(state.stats.messages_decoding_success),
                validation_invalid: counted(state.stats.validation_invalid),
                ..state.stats
            })
        }),
{
}

/// A notification of a subscription of which nothing is cached is looked up by the
/// id of the subscription, whoever collected it and however; nothing that is
/// cached or queued changes.
pub proof fn lemma_unknown_subscription_looked_up<C>(
    state: ActorState<C>,
    message: UdpNotifRequest,
    is_legacy: bool,
    id: u32,
)
    requires
        !(state.peers.contains_key(message.peer.ip)
            && state.peers[message.peer.ip].subscriptions.contains_key(id)),
    ensures
        ({
            let contents = NotificationVariant::Other { subscription_id: id };
            let decoded = DecodedNotification { is_legacy, contents: Some(contents) };
            let (decision, after) = decided(state, message, Ok(decoded));
            &&& decision == (Decision::LookupById {
                collector: message.collector,
                interface: match message.interface {
                    Some(interface) => Some(interface@),
                    None => None,
                },
                peer: message.peer,
                id,
            })
            &&& only_counted(state, after)
            &&& after.stats == (ValidationStats {
                messages_decoding_success: counted(state.stats.messages_decoding_success),
                cache_request_by_subscription_id: counted(
                    state.stats.cache_request_by_subscription_id,
                ),
                ..state.stats
            })
        }),
{
}

/// What is decided about a packet of a subscription of which `cached` is cached:
/// it waits while its schemas are looked up, is validated where they are loaded
/// and the subscription is known, and is forwarded unvalidated otherwise.
pub open spec fn decided_by_cache<C>(
    decision: Decision,
    stats: ValidationStats,
    before: ValidationStats,
    cached: SubscriptionState<C>,
    info: InfoModel,
) -> bool {
    let seen = ValidationStats {
        messages_decoding_success: counted(before.messages_decoding_success),
        ..before
    };
    if !cached.answered {
        decision == Decision::Wait(info) && stats == seen
    } else if cached.content_id is Some && cached.yang_ctx is Some && info.content_id != "EMPTY"@ {
        decision == (Decision::Validate { info, content_id: cached.content_id->0 }) && stats == seen
    } else {
        decision == Decision::Skip(info) && stats == (ValidationStats {
            validation_skip: counted(before.validation_skip),
            ..seen
        })
    }
}

/// A notification of a subscription that is cached goes by what is cached, and
/// changes nothing of it.
pub proof fn lemma_known_subscription_decided<C>(
    state: ActorState<C>,
    message: UdpNotifRequest,
    is_legacy: bool,
    id: u32,
)
    requires
        state.peers.contains_key(message.peer.ip),
        state.peers[message.peer.ip].subscriptions.contains_key(id),
        state.peers[message.peer.ip].subscriptions[id].info.id == id,
    ensures
        ({
            let contents = NotificationVariant::Other { subscription_id: id };
            let decoded = DecodedNotification { is_legacy, contents: Some(contents) };
            let (decision, after) = decided(state, message, Ok(decoded));
            let cached = state.peers[message.peer.ip].subscriptions[id];
            &&& only_counted(state, after)
            &&& decided_by_cache(decision, after.stats, state.stats, cached, cached.info)
        }),
{
}

/// The subscription that a notification starts or modifies.
pub open spec fn announcement(contents: NotificationVariant) -> Option<
    SubscriptionStartedModified,
> {
    match contents {
        NotificationVariant::SubscriptionStarted(started) => Some(started),
        NotificationVariant::SubscriptionModified(started) => Some(started),
        NotificationVariant::Other { .. } => None,
    }
}

/// What a notification announces: its own fields, with where it came from, and the
/// module of the notification behind those that it lists. Without a list of
/// modules there is no subscription.
pub proof fn lemma_announced_fields(
    peer: SocketAddr,
    collector: SocketAddr,
    interface: Option<Seq<char>>,
    started: SubscriptionStartedModified,
)
    ensures
        announced_info(peer, collector, interface, started) is Some
            <==> started.module_version is Some,
        announced_info(peer, collector, interface, started) matches Some(info) ==> {
            let listed = started.module_version->0@;
            &&& info.peer == peer
            &&& info.collector == collector
            &&& info.interface == interface
            &&& info.id == started.id
            &&& info.target == started.target@
            &&& info.stop_time == opt_text(started.stop_time)
            &&& info.transport == opt_text(started.transport)
            &&& info.encoding == opt_text(started.encoding)
            &&& info.purpose == opt_text(started.purpose)
            &&& info.update_trigger == opt_text(started.update_trigger)
            &&& started.yang_library_content_id matches Some(id) ==> info.content_id == id@
            &&& started.yang_library_content_id is None ==> info.content_id.len() == 0
            &&& info.modules.len() == listed.len() + 1
            &&& forall|i: int|
                0 <= i < listed.len() ==> {
                    &&& (#[trigger] info.modules[i]).name == listed[i].name@
                    &&& info.modules[i].revision == opt_text(listed[i].revision)
                    &&& info.modules[i].version == opt_text(listed[i].version)
                }
            &&& info.modules.last().name == "ietf-subscribed-notifications"@
            &&& info.modules.last().revision is None
            &&& info.modules.last().version is None
        },
{
}

/// A notification that announces a subscription without listing its modules is
/// dropped and counted as malformed, and nothing else changes.
pub proof fn lemma_malformed_announcement_counted<C>(
    state: ActorState<C>,
    message: UdpNotifRequest,
    is_legacy: bool,
    contents: NotificationVariant,
)
    requires
        announcement(contents) matches Some(started) && started.module_version is None,
    ensures
        ({
            let decoded = DecodedNotification { is_legacy, contents: Some(contents) };
            let (decision, after) = decided(state, message, Ok(decoded));
            &&& decision is Drop
            &&& only_counted(state, after)
            &&& after.stats == (ValidationStats {
                messages_decoding_success: counted(state.stats.messages_decoding_success),
                validation_malformed: counted(state.stats.validation_malformed),
                ..state.stats
            })
        }),
{
}

/// An announcement of a subscription that is cached with the same contents goes by
/// what is cached, and changes nothing of it.
pub proof fn lemma_repeated_announcement_decided<C>(
    state: ActorState<C>,
    message: UdpNotifRequest,
    is_legacy: bool,
    contents: NotificationVariant,
    info: InfoModel,
)
    requires
        announcement(contents) matches Some(started) && announced_info(
            message.peer,
            message.collector,
            opt_text(message.interface),
            started,
        ) == Some(info),
        state.peers.contains_key(message.peer.ip),
        state.peers[message.peer.ip].subscriptions.contains_key(info.id),
        state.peers[message.peer.ip].subscriptions[info.id].info == info,
    ensures
        ({
            let decoded = DecodedNotification { is_legacy, contents: Some(contents) };
            let (decision, after) = decided(state, message, Ok(decoded));
            let cached = state.peers[message.peer.ip].subscriptions[info.id];
            &&& only_counted(state, after)
            &&& decided_by_cache(decision, after.stats, state.stats, cached, info)
        }),
{
    let ip = message.peer.ip;
    assert(state.peers[ip].subscriptions.dom().contains(info.id));
    assert(announced(state, ip, info).peers =~= state.peers);
    let decoded = DecodedNotification { is_legacy, contents: Some(contents) };
    let after = decided(state, message, Ok(decoded)).1;
    assert(after.peers =~= state.peers);
}

/// An announcement of a subscription that is not cached, or with other contents,
/// is looked up by what it says. What was cached of that subscription is gone;
/// every other subscription, of this peer and of others, stays as it is.
pub proof fn lemma_new_announcement_looked_up<C>(
    state: ActorState<C>,
    message: UdpNotifRequest,
    is_legacy: bool,
    contents: NotificationVariant,
    info: InfoModel,
)
    requires
        announcement(contents) matches Some(started) && announced_info(
            message.peer,
            message.collector,
            opt_text(message.interface),
            started,
        ) == Some(info),
        !(state.peers.contains_key(message.peer.ip)
            && state.peers[message.peer.ip].subscriptions.contains_key(info.id)
            && state.peers[message.peer.ip].subscriptions[info.id].info == info),
        cached_subscription(state, message.peer.ip, info.id) matches Some(subscription)
            ==> subscription.buffered.len() <= state.peers[message.peer.ip].total_buffered,
    ensures
        ({
            let decoded = DecodedNotification { is_legacy, contents: Some(contents) };
            let (decision, after) = decided(state, message, Ok(decoded));
            &&& decision == Decision::LookupByInfo(info)
            &&& same_limits(state, after)
            &&& after.pending == state.pending
            &&& only_subscription_gone(state, after, message.peer.ip, info.id)
            &&& after.stats == (ValidationStats {
                messages_decoding_success: counted(state.stats.messages_decoding_success),
                cache_request_by_subscription_info: counted(
                    state.stats.cache_request_by_subscription_info,
                ),
                ..state.stats
            })
        }),
{
    let ip = message.peer.ip;
    let decoded = DecodedNotification { is_legacy, contents: Some(contents) };
    let after = decided(state, message, Ok(decoded)).1;
    assert forall|k: IpAddr, id: u32|
        (k != ip || id != info.id) implies #[trigger] cached_subscription(after, k, id)
        == cached_subscription(state, k, id) by {
        if k == ip && state.peers.contains_key(ip) && state.peers[ip].subscriptions.contains_key(
            id,
        ) {
            let fewer = state.peers[ip].subscriptions.remove(info.id);
            assert(state.peers[ip].subscriptions.dom().contains(id));
            assert(fewer.dom().contains(id));
        }
    }
}

/// A subscription of a peer is gone, with its packets, and no other has changed.
pub open spec fn only_subscription_gone<C>(
    state: ActorState<C>,
    after: ActorState<C>,
    ip: IpAddr,
    id: u32,
) -> bool {
    &&& cached_subscription(after, ip, id) is None
    &&& forall|k: IpAddr, other: u32|
        (k != ip || other != id) ==> #[trigger] cached_subscription(after, k, other)
            == cached_subscription(state, k, other)
    &&& after.peers.contains_key(ip) ==> state.peers.contains_key(ip)
        && after.peers[ip].total_buffered == state.peers[ip].total_buffered - (
    match cached_subscription(state, ip, id) {
        Some(subscription) => subscription.buffered.len() as int,
        None => 0,
    })
}

/// What is cached of a subscription, if anything.
pub proof fn lemma_cached_subscription<C>(state: ActorState<C>, ip: IpAddr, id: u32)
    ensures
        cached_subscription(state, ip, id) is Some <==> state.peers.contains_key(ip)
            && state.peers[ip].subscriptions.contains_key(id),
        cached_subscription(state, ip, id) is Some ==> cached_subscription(state, ip, id)->0
            == state.peers[ip].subscriptions[id],
{
}

/// A packet that can be decoded and has contents is dropped only where it announces
/// a subscription without listing its modules. Every other packet waits, is
/// validated, is forwarded, or its subscription is looked up, and then it is one of
/// its own peer and id.
pub proof fn lemma_only_malformed_dropped<C>(
    state: ActorState<C>,
    message: UdpNotifRequest,
    is_legacy: bool,
    contents: NotificationVariant,
)
    ensures
        ({
            let decoded = DecodedNotification { is_legacy, contents: Some(contents) };
            let decision = decided(state, message, Ok(decoded)).0;
            &&& decision is Drop <==> (announcement(contents) matches Some(started)
                && started.module_version is None)
            &&& announcement(contents) matches Some(started) ==> match decision {
                Decision::Wait(info) => info.id == started.id && info.peer == message.peer,
                Decision::LookupByInfo(info) => info.id == started.id && info.peer == message.peer,
                Decision::Validate { info, .. } => info.id == started.id && info.peer
                    == message.peer,
                Decision::Skip(info) => info.id == started.id && info.peer == message.peer,
                Decision::LookupById { .. } => false,
                Decision::Drop => true,
            }
        }),
{
}

/// A packet that finds room waits behind the packets of its subscription. A
/// subscription that is cached keeps everything else; one that is not is cached
/// without schemas. The packet is counted for its peer, and no other subscription
/// changes.
pub proof fn lemma_packet_buffered<C>(
    state: ActorState<C>,
    info: InfoModel,
    message: Arc<UdpNotifRequest>,
)
    requires
        buffered(state, info, message).0 is Ok,
    ensures
        ({
            let after = buffered(state, info, message).1;
            let ip = message.peer.ip;
            let known = state.peers.contains_key(ip);
            let total = if known {
                state.peers[ip].total_buffered + 1
            } else {
                1
            };
            &&& same_limits(state, after)
            &&& after.pending == state.pending
            &&& after.stats == (ValidationStats { buffered_packets: total as u64, ..state.stats })
            &&& after.peers.contains_key(ip)
            &&& after.peers[ip].total_buffered == total
            &&& after.peers.remove(ip) == state.peers.remove(ip)
            &&& cached_subscription(after, ip, info.id) == Some(
                if known && state.peers[ip].subscriptions.contains_key(info.id) {
                    let old = state.peers[ip].subscriptions[info.id];
                    SubscriptionState {
                        content_id: old.content_id,
                        info: old.info,
                        answered: old.answered,
                        yang_ctx: old.yang_ctx,
                        buffered: old.buffered.push(message),
                    }
                } else {
                    SubscriptionState {
                        content_id: None,
                        info,
                        answered: false,
                        yang_ctx: None,
                        buffered: seq![message],
                    }
                },
            )
            &&& forall|id: u32|
                id != info.id ==> #[trigger] cached_subscription(after, ip, id)
                    == cached_subscription(state, ip, id)
        }),
{
    let ip = message.peer.ip;
    let after = buffered(state, info, message).1;
    assert(after.peers.remove(ip) =~= state.peers.remove(ip));
    assert(Seq::<Arc<UdpNotifRequest>>::empty().push(message) =~= seq![message]);
}

/// Which limit a packet meets: that of its subscription is looked at first.
pub proof fn lemma_buffer_limits<C>(
    state: ActorState<C>,
    info: InfoModel,
    message: Arc<UdpNotifRequest>,
)
    ensures
        ({
            let ip = message.peer.ip;
            let for_subscription = match cached_subscription(state, ip, info.id) {
                Some(subscription) => subscription.buffered.len(),
                None => 0,
            };
            let for_peer = if state.peers.contains_key(ip) {
                state.peers[ip].total_buffered
            } else {
                0
            };
            let r = buffered(state, info, message).0;
            &&& r == Err::<(), _>(BufferFull::Subscription) <==> for_subscription
                >= state.max_per_subscription
            &&& r == Err::<(), _>(BufferFull::Peer) <==> for_subscription
                < state.max_per_subscription && for_peer >= state.max_per_peer
            &&& r == Ok::<(), BufferFull>(()) <==> for_subscription < state.max_per_subscription
                && for_peer < state.max_per_peer
        }),
{
}

/// The counter of packets that leave the buffer counts each of them.
pub proof fn lemma_counted_times(n: u64, times: nat)
    ensures
        counted_times(n, times) == (n + times) % 0x1_0000_0000_0000_0000,
    decreases times,
{
    if times > 0 {
        lemma_counted_times(n, (times - 1) as nat);
    }
}

/// One more event is one more, until the largest number is reached.
pub proof fn lemma_counted(n: u64)
    ensures
        n < u64::MAX ==> counted(n) == n + 1,
        n == u64::MAX ==> counted(n) == 0,
{
}

/// An answer for a subscription that is not cached changes nothing at all.
pub proof fn lemma_answer_for_unknown_ignored<C>(
    state: ActorState<C>,
    content_id: Option<Seq<char>>,
    info: InfoModel,
    schemas: Schemas<C>,
)
    requires
        !(state.peers.contains_key(info.peer.ip)
            && state.peers[info.peer.ip].subscriptions.contains_key(info.id)),
    ensures
        answered(state, content_id, info, schemas) == state,
{
}

/// An answer for a subscription that is cached: it is known as the answer says,
/// with the schemas if they could be loaded and under the content id unless there
/// are none at all. The packets that waited are queued behind those that are queued
/// already, in their order, and each of them is counted. No other subscription
/// changes.
pub proof fn lemma_answer_taken_up<C>(
    state: ActorState<C>,
    content_id: Option<Seq<char>>,
    info: InfoModel,
    schemas: Schemas<C>,
)
    requires
        state.peers.contains_key(info.peer.ip),
        state.peers[info.peer.ip].subscriptions.contains_key(info.id),
        state.peers[info.peer.ip].subscriptions[info.id].buffered.len()
            <= state.peers[info.peer.ip].total_buffered,
    ensures
        ({
            let ip = info.peer.ip;
            let old = state.peers[ip].subscriptions[info.id];
            let after = answered(state, content_id, info, schemas);
            let total = state.peers[ip].total_buffered - old.buffered.len();
            &&& same_limits(state, after)
            &&& after.pending == state.pending + old.buffered
            &&& after.peers.contains_key(ip)
            &&& after.peers[ip].total_buffered == total
            &&& after.peers.remove(ip) == state.peers.remove(ip)
            &&& cached_subscription(after, ip, info.id) == Some(
                SubscriptionState {
                    content_id: match schemas {
                        Schemas::Unavailable => None,
                        _ => content_id,
                    },
                    info,
                    answered: true,
                    yang_ctx: match schemas {
                        Schemas::Loaded(yang_ctx) => Some(yang_ctx),
                        _ => None,
                    },
                    buffered: Seq::empty(),
                },
            )
            &&& forall|id: u32|
                id != info.id ==> #[trigger] cached_subscription(after, ip, id)
                    == cached_subscription(state, ip, id)
            &&& after.stats == (ValidationStats {
                cache_yang_ctx_created: if schemas is Loaded {
                    counted(state.stats.cache_yang_ctx_created)
                } else {
                    state.stats.cache_yang_ctx_created
                },
                cache_yang_ctx_invalid: if schemas is Invalid {
                    counted(state.stats.cache_yang_ctx_invalid)
                } else {
                    state.stats.cache_yang_ctx_invalid
                },
                cache_yang_ctx_empty: if schemas is Unavailable {
                    counted(state.stats.cache_yang_ctx_empty)
                } else {
                    state.stats.cache_yang_ctx_empty
                },
                buffered_packets: total as u64,
                buffer_drain: ((state.stats.buffer_drain + old.buffered.len())
                    % 0x1_0000_0000_0000_0000) as u64,
                ..state.stats
            })
        }),
{
    let ip = info.peer.ip;
    let after = answered(state, content_id, info, schemas);
    let drained = state.peers[ip].subscriptions[info.id].buffered.len();
    lemma_counted_times(state.stats.buffer_drain, drained);
    assert(after.peers.remove(ip) =~= state.peers.remove(ip));
}

/// A payload that was validated is counted as valid or as invalid, and nothing else
/// changes.
pub proof fn lemma_validation_counted<C>(state: ActorState<C>, valid: bool)
    ensures
        only_counted(state, validated(state, valid)),
        validated(state, valid).stats == (ValidationStats {
            validation_success: if valid {
                counted(state.stats.validation_success)
            } else {
                state.stats.validation_success
            },
            validation_invalid: if valid {
                state.stats.validation_invalid
            } else {
                counted(state.stats.validation_invalid)
            },
            ..state.stats
        }),
{
}

/// The schemas that a packet is validated against are those of its subscription.
pub proof fn lemma_schemas_of_subscription<C>(
    state: ActorState<C>,
    message: UdpNotifRequest,
    info: InfoModel,
    yang_ctx: C,
)
    requires
        cached_subscription(state, message.peer.ip, info.id) matches Some(subscription)
            && subscription.yang_ctx == Some(yang_ctx),
    ensures
        schemas_for(state, message, info) == yang_ctx,
{
}

/// What the caller is told to do is what was decided, with the same subscription
/// and the same addresses.
pub proof fn lemma_steps_say_what_was_decided(
    info: SubscriptionInfo,
    content_id: String,
    collector: SocketAddr,
    interface: Option<String>,
    peer: SocketAddr,
    subscription_id: u32,
)
    ensures
        NextStep::Drop@ == Decision::Drop,
        NextStep::Wait(info)@ == Decision::Wait(info@),
        NextStep::Skip(info)@ == Decision::Skip(info@),
        (NextStep::Validate { subscription_info: info, content_id })@ == (Decision::Validate {
            info: info@,
            content_id: content_id@,
        }),
        NextStep::Lookup(CacheLookupCommand::LookupBySubscriptionInfo(info))@
            == Decision::LookupByInfo(info@),
        NextStep::Lookup(
            (CacheLookupCommand::LookupBySubscriptionId {
                collector,
                interface,
                peer,
                subscription_id,
            }),
        )@ == (Decision::LookupById {
            collector,
            interface: match interface {
                Some(interface) => Some(interface@),
                None => None,
            },
            peer,
            id: subscription_id,
        }),
{
}

/// The subscription that a packet waits for, once its lookup was requested: the one
/// that was looked up, or one of which only the identifiers are known.
pub proof fn lemma_requested_subscription(
    info: SubscriptionInfo,
    collector: SocketAddr,
    interface: Option<String>,
    peer: SocketAddr,
    subscription_id: u32,
)
    ensures
        requested_info(CacheLookupCommand::LookupBySubscriptionInfo(info)) == info@,
        ({
            let requested = requested_info(
                (CacheLookupCommand::LookupBySubscriptionId {
                    collector,
                    interface,
                    peer,
                    subscription_id,
                }),
            );
            &&& requested.collector == collector
            &&& requested.interface == opt_text(interface)
            &&& requested.peer == peer
            &&& requested.id == subscription_id
            &&& requested.content_id == "EMPTY"@
            &&& requested.target.len() == 0
            &&& requested.modules.len() == 0
            &&& requested.stop_time is None && requested.transport is None
            &&& requested.encoding is None && requested.purpose is None
            &&& requested.update_trigger is None
        }),
{
}

/// Two subscriptions have the same contents exactly where every field is the same.
pub proof fn lemma_subscription_contents(info: SubscriptionInfo, other: SubscriptionInfo)
    ensures
        info@ == other@ <==> {
            &&& info.collector == other.collector
            &&& info.peer == other.peer
            &&& info.id == other.id
            &&& opt_text(info.interface) == opt_text(other.interface)
            &&& info.target@ == other.target@
            &&& opt_text(info.stop_time) == opt_text(other.stop_time)
            &&& opt_text(info.transport) == opt_text(other.transport)
            &&& opt_text(info.encoding) == opt_text(other.encoding)
            &&& opt_text(info.purpose) == opt_text(other.purpose)
            &&& opt_text(info.update_trigger) == opt_text(other.update_trigger)
            &&& info.content_id@ == other.content_id@
            &&& info.modules@.len() == other.modules@.len()
            &&& forall|i: int|
                0 <= i < info.modules@.len() ==> {
                    &&& (#[trigger] info.modules@[i]).name@ == other.modules@[i].name@
                    &&& opt_text(info.modules@[i].revision) == opt_text(other.modules@[i].revision)
                    &&& opt_text(info.modules@[i].version) == opt_text(other.modules@[i].version)
                }
        },
        info@.id == info.id,
        info@.peer == info.peer,
        info@.collector == info.collector,
        info@.interface == opt_text(info.interface),
        info@.target == info.target@,
        info@.content_id == info.content_id@,
{
    let ours = modules_model(info.modules@);
    let theirs = modules_model(other.modules@);
    if info@ == other@ {
        assert(ours.len() == theirs.len());
        assert forall|i: int| 0 <= i < info.modules@.len() implies {
            &&& (#[trigger] info.modules@[i]).name@ == other.modules@[i].name@
            &&& opt_text(info.modules@[i].revision) == opt_text(other.modules@[i].revision)
            &&& opt_text(info.modules@[i].version) == opt_text(other.modules@[i].version)
        } by {
            assert(ours[i] == theirs[i]);
        }
    }
    if info.modules@.len() == other.modules@.len() && (forall|i: int|
        0 <= i < info.modules@.len() ==> {
            &&& (#[trigger] info.modules@[i]).name@ == other.modules@[i].name@
            &&& opt_text(info.modules@[i].revision) == opt_text(other.modules@[i].revision)
            &&& opt_text(info.modules@[i].version) == opt_text(other.modules@[i].version)
        }) {
        assert forall|i: int| 0 <= i < ours.len() implies ours[i] == theirs[i] by {
            assert(info.modules@[i].name@ == other.modules@[i].name@);
        }
        assert(ours =~= theirs);
    }
}

/// The loop goes on after every answer and every packet that was processed, and
/// after nothing else.
pub proof fn lemma_loop_goes_on(event: RunEvent)
    ensures
        last_words(event) is None <==> (event matches RunEvent::CacheResponse(Ok(_))) || (
        event matches RunEvent::Pending(Ok(_))) || (event matches RunEvent::Input(Ok(_))),
        last_words(RunEvent::Command(Some(ValidationActorCommand::Shutdown))) == Some(
            "Enrichment shutdown successfully"@,
        ),
        last_words(RunEvent::Command(None)) == Some(
            "Yang Push validation actor terminated due to command channel closing"@,
        ),
{
}

/// Of the sources that are ready the first is served, in the order command, answer
/// of the cache, packet whose schemas arrived, new packet.
pub proof fn lemma_sources_in_order(command: bool, response: bool, pending: bool, input: bool)
    ensures
        ({
            let source = served(command, response, pending, input);
            &&& source == Some(Source::Command) <==> command
            &&& source == Some(Source::CacheResponse) <==> !command && response
            &&& source == Some(Source::Pending) <==> !command && !response && pending
            &&& source == Some(Source::Input) <==> !command && !response && !pending && input
            &&& source is None <==> !command && !response && !pending && !input
        }),
{
}

/// The sentences that report errors of the actor.
pub proof fn lemma_actor_sentences(error: ValidationActorError, text: &'static str)
    requires
        call_ensures(ValidationActorError::message, (error,), text),
    ensures
        match error {
            ValidationActorError::CacheLookupSendError => text@
                == "Failed to send cache lookup command"@,
            ValidationActorError::CacheResponseReceiveError => text@
                == "Failed to receive cache response"@,
            ValidationActorError::SendError => text@
                == "Failed to send the decoded UDP-Notif packet"@,
        },
{
}

/// A call of `decide` on a notification of a subscription of which nothing is
/// cached: its lookup by id is asked for, with where the notification came from, and
/// nothing that is cached or queued changes.
pub proof fn lemma_decide_looks_up_by_id<C>(
    actor: &mut ValidationActor<C>,
    message: &UdpNotifRequest,
    decoded: &Result<DecodedNotification, ()>,
    step: NextStep,
    id: u32,
)
    requires
        call_ensures(ValidationActor::<C>::decide, (actor, message, decoded), step),
        decoded matches Ok(notification) && notification.contents == Some(
            NotificationVariant::Other { subscription_id: id },
        ),
        !(old(actor)@.peers.contains_key(message.peer.ip)
            && old(actor)@.peers[message.peer.ip].subscriptions.contains_key(id)),
    ensures
        step matches NextStep::Lookup(
            CacheLookupCommand::LookupBySubscriptionId {
                collector,
                interface,
                peer,
                subscription_id,
            },
        ) && collector == message.collector && opt_text(interface) == opt_text(message.interface)
            && peer == message.peer && subscription_id == id,
        final(actor)@.peers == old(actor)@.peers,
        final(actor)@.pending == old(actor)@.pending,
        final(actor)@.stats.cache_request_by_subscription_id == counted(
            old(actor)@.stats.cache_request_by_subscription_id,
        ),
{
    lemma_unknown_subscription_looked_up(
        old(actor)@,
        *message,
        decoded->Ok_0.is_legacy,
        id,
    );
}

/// A call of `decide` drops a packet only where it could not be decoded, has no
/// contents, or announces a subscription without listing its modules.
pub proof fn lemma_decide_drops<C>(
    actor: &mut ValidationActor<C>,
    message: &UdpNotifRequest,
    decoded: &Result<DecodedNotification, ()>,
    step: NextStep,
)
    requires
        call_ensures(ValidationActor::<C>::decide, (actor, message, decoded), step),
    ensures
        step is Drop <==> match *decoded {
            Err(_) => true,
            Ok(notification) => match notification.contents {
                None => true,
                Some(contents) => announcement(contents) matches Some(started)
                    && started.module_version is None,
            },
        },
{
    if let Ok(notification) = *decoded {
        if let Some(contents) = notification.contents {
            lemma_only_malformed_dropped(
                old(actor)@,
                *message,
                notification.is_legacy,
                contents,
            );
        }
    }
}

} // verus!
