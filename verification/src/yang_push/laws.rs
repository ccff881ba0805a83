//! What holds of the validation of notifications as a whole.
use crate::text::{counted, opt_text};
use crate::yang_push::state::{
    announced, answered, buffered, cached_subscription, consistent, consistent_peer, decided,
    filed_by_peer, lemma_buffered_consistent, lemma_waiting_remove, waiting, ActorState, Decision,
    DecodedNotification, NotificationVariant, Schemas, UdpNotifRequest, ValidationStats,
};
use crate::yang_push::subscription::{announced_info, empty_info, InfoModel, IpAddr};
use std::sync::Arc;
use vstd::prelude::*;

verus! {

/// A notification that announces a subscription without listing its modules is
/// dropped: it is neither looked up nor buffered, and nothing that is cached or
/// queued changes.
pub proof fn lemma_malformed_announcement_dropped<C>(
    state: ActorState<C>,
    message: UdpNotifRequest,
    decoded: DecodedNotification,
)
    requires
        match decoded.contents {
            Some(NotificationVariant::SubscriptionStarted(started)) => started.module_version
                is None,
            Some(NotificationVariant::SubscriptionModified(started)) => started.module_version
                is None,
            _ => false,
        },
    ensures
        decided(state, message, Ok(decoded)).0 is Drop,
        decided(state, message, Ok(decoded)).1.peers == state.peers,
        decided(state, message, Ok(decoded)).1.pending == state.pending,
{
}

/// A packet that waits is not lost: once the cache answers, it is queued behind
/// the packets that came before it.
pub proof fn lemma_waiting_packet_is_queued<C>(
    state: ActorState<C>,
    info: InfoModel,
    message: Arc<UdpNotifRequest>,
    content_id: Option<Seq<char>>,
    answer: InfoModel,
    schemas: Schemas<C>,
)
    requires
        buffered(state, info, message).0 is Ok,
        answer.id == info.id,
        answer.peer.ip == message.peer.ip,
    ensures
        ({
            let waited = match cached_subscription(state, message.peer.ip, info.id) {
                Some(subscription) => subscription.buffered,
                None => Seq::empty(),
            };
            let after = answered(
                buffered(state, info, message).1,
                content_id,
                answer,
                schemas,
            );
            &&& after.pending == state.pending + waited.push(message)
            &&& cached_subscription(after, message.peer.ip, info.id) matches Some(subscription)
                && subscription.buffered.len() == 0
        }),
{
    let waited = match cached_subscription(state, message.peer.ip, info.id) {
        Some(subscription) => subscription.buffered,
        None => Seq::empty(),
    };
    let middle = buffered(state, info, message).1;
    assert(middle.peers[message.peer.ip].subscriptions[info.id].buffered =~= waited.push(message));
}

/// The limits hold: a packet whose subscription or whose peer has as many packets
/// waiting as its limit allows is dropped and counted, and nothing that is cached
/// or queued changes. Any other packet is buffered, which exceeds no limit.
pub proof fn lemma_full_buffer_refuses<C>(
    state: ActorState<C>,
    info: InfoModel,
    message: Arc<UdpNotifRequest>,
)
    requires
        consistent(state),
    ensures
        ({
            let ip = message.peer.ip;
            let waits_for_subscription = match cached_subscription(state, ip, info.id) {
                Some(subscription) => subscription.buffered.len(),
                None => 0,
            };
            let waits_for_peer = if state.peers.contains_key(ip) {
                waiting(state.peers[ip].subscriptions)
            } else {
                0
            };
            let (r, after) = buffered(state, info, message);
            &&& consistent(after)
            &&& if waits_for_subscription >= state.max_per_subscription || waits_for_peer
                >= state.max_per_peer {
                &&& r is Err
                &&& after.peers == state.peers
                &&& after.pending == state.pending
                &&& after.stats == (ValidationStats {
                    buffer_drop: counted(state.stats.buffer_drop),
                    ..state.stats
                })
            } else {
                r is Ok
            }
        }),
{
    lemma_buffered_consistent(state, info, message);
    if state.peers.contains_key(message.peer.ip) {
        assert(consistent_peer(state, state.peers[message.peer.ip]));
    }
}

/// Packets are neither lost nor made: one that is buffered waits, one that is not
/// is counted as dropped, and an answer moves those that waited to the queue.
pub proof fn lemma_packets_conserved<C>(
    state: ActorState<C>,
    info: InfoModel,
    message: Arc<UdpNotifRequest>,
    content_id: Option<Seq<char>>,
    schemas: Schemas<C>,
)
    requires
        consistent(state),
    ensures
        ({
            let waits = |s: ActorState<C>, ip: IpAddr|
                if s.peers.contains_key(ip) {
                    s.peers[ip].total_buffered
                } else {
                    0
                };
            let (r, next) = buffered(state, info, message);
            let after = answered(state, content_id, info, schemas);
            &&& next.pending == state.pending
            &&& match r {
                Ok(_) => waits(next, message.peer.ip) == waits(state, message.peer.ip) + 1
                    && next.stats.buffer_drop == state.stats.buffer_drop,
                Err(_) => waits(next, message.peer.ip) == waits(state, message.peer.ip)
                    && next.stats.buffer_drop == counted(state.stats.buffer_drop),
            }
            &&& waits(after, info.peer.ip) + after.pending.len() == waits(state, info.peer.ip)
                + state.pending.len()
        }),
{
    if cached_subscription(state, info.peer.ip, info.id) is Some {
        let peer = state.peers[info.peer.ip];
        assert(consistent_peer(state, peer));
        lemma_waiting_remove(peer.subscriptions, info.id);
    }
}

/// Once the cache has answered, a notification of that subscription is not
/// looked up again: it is validated where its schemas were loaded, and otherwise
/// forwarded without validation.
pub proof fn lemma_answer_settles_subscription<C>(
    state: ActorState<C>,
    content_id: Option<Seq<char>>,
    info: InfoModel,
    schemas: Schemas<C>,
    message: UdpNotifRequest,
    decoded: DecodedNotification,
)
    requires
        cached_subscription(state, info.peer.ip, info.id) is Some,
        message.peer.ip == info.peer.ip,
        match decoded.contents {
            Some(NotificationVariant::Other { subscription_id }) => subscription_id == info.id,
            Some(NotificationVariant::SubscriptionStarted(started)) => announced_info(
                message.peer,
                message.collector,
                opt_text(message.interface),
                started,
            ) == Some(info),
            Some(NotificationVariant::SubscriptionModified(started)) => announced_info(
                message.peer,
                message.collector,
                opt_text(message.interface),
                started,
            ) == Some(info),
            None => false,
        },
    ensures
        ({
            let after = answered(state, content_id, info, schemas);
            let decision = decided(after, message, Ok(decoded)).0;
            if schemas is Loaded && content_id is Some && info.content_id != "EMPTY"@ {
                decision == (Decision::Validate { info, content_id: content_id->0 })
            } else {
                decision == Decision::Skip(info)
            }
        }),
{
    let after = answered(state, content_id, info, schemas);
    let ip = info.peer.ip;
    assert(after.peers[ip].subscriptions.contains_key(info.id));
    assert(after.peers[ip].subscriptions.dom().contains(info.id));
    assert(cached_subscription(announced(after, ip, info), ip, info.id) == cached_subscription(
        after,
        ip,
        info.id,
    ));
}

/// While the schemas of a subscription are being looked up, its notifications
/// wait for them: none is forwarded, and nothing is looked up again.
pub proof fn lemma_pending_subscription_waits<C>(
    state: ActorState<C>,
    message: UdpNotifRequest,
    decoded: DecodedNotification,
    info: InfoModel,
)
    requires
        cached_subscription(state, message.peer.ip, info.id) matches Some(subscription)
            && subscription.info == info && !subscription.answered,
        match decoded.contents {
            Some(NotificationVariant::Other { subscription_id }) => subscription_id == info.id,
            Some(NotificationVariant::SubscriptionStarted(started)) => announced_info(
                message.peer,
                message.collector,
                opt_text(message.interface),
                started,
            ) == Some(info),
            Some(NotificationVariant::SubscriptionModified(started)) => announced_info(
                message.peer,
                message.collector,
                opt_text(message.interface),
                started,
            ) == Some(info),
            None => false,
        },
    ensures
        decided(state, message, Ok(decoded)).0 == Decision::Wait(info),
{
    let ip = message.peer.ip;
    assert(state.peers[ip].subscriptions.dom().contains(info.id));
}

/// A subscription that is announced with other contents than those that are
/// cached is looked up anew, and the packets that waited for the old schemas are
/// gone with them.
pub proof fn lemma_changed_subscription_looked_up<C>(
    state: ActorState<C>,
    message: UdpNotifRequest,
    decoded: DecodedNotification,
    info: InfoModel,
)
    requires
        match decoded.contents {
            Some(NotificationVariant::SubscriptionStarted(started)) => announced_info(
                message.peer,
                message.collector,
                opt_text(message.interface),
                started,
            ) == Some(info),
            Some(NotificationVariant::SubscriptionModified(started)) => announced_info(
                message.peer,
                message.collector,
                opt_text(message.interface),
                started,
            ) == Some(info),
            _ => false,
        },
        match cached_subscription(state, message.peer.ip, info.id) {
            Some(subscription) => subscription.info != info,
            None => true,
        },
    ensures
        decided(state, message, Ok(decoded)).0 == Decision::LookupByInfo(info),
        cached_subscription(
            decided(state, message, Ok(decoded)).1,
            message.peer.ip,
            info.id,
        ) is None,
{
}

/// A packet and an answer of the cache touch no peer but their own.
pub proof fn lemma_other_peers_untouched<C>(
    state: ActorState<C>,
    message: Arc<UdpNotifRequest>,
    decoded: Result<DecodedNotification, ()>,
    info: InfoModel,
    content_id: Option<Seq<char>>,
    schemas: Schemas<C>,
    other: IpAddr,
)
    requires
        other != message.peer.ip,
        other != info.peer.ip,
    ensures
        ({
            let unchanged = |after: ActorState<C>|
                after.peers.contains_key(other) == state.peers.contains_key(other) && (
                state.peers.contains_key(other) ==> after.peers[other] == state.peers[other]);
            &&& unchanged(decided(state, *message, decoded).1)
            &&& unchanged(buffered(state, info, message).1)
            &&& unchanged(answered(state, content_id, info, schemas))
        }),
{
}

/// The subscription that a packet is to wait for, if any.
pub open spec fn waits_for(decision: Decision) -> Option<InfoModel> {
    match decision {
        Decision::Wait(info) => Some(info),
        Decision::LookupByInfo(info) => Some(info),
        Decision::LookupById { collector, interface, peer, id } => Some(
            empty_info(collector, interface, peer, id),
        ),
        _ => None,
    }
}

/// A packet only waits for a subscription of its own peer, and deciding about it
/// leaves subscriptions filed under the addresses of their peers.
pub proof fn lemma_packet_waits_for_own_peer<C>(
    state: ActorState<C>,
    message: UdpNotifRequest,
    decoded: Result<DecodedNotification, ()>,
)
    requires
        filed_by_peer(state),
    ensures
        filed_by_peer(decided(state, message, decoded).1),
        waits_for(decided(state, message, decoded).0) matches Some(info) ==> info.peer.ip
            == message.peer.ip,
{
    let next = decided(state, message, decoded).1;
    assert forall|ip: IpAddr, id: u32|
        (#[trigger] cached_subscription(next, ip, id)) matches Some(subscription)
            ==> subscription.info.peer.ip == ip by {
        assert(cached_subscription(next, ip, id) is Some ==> cached_subscription(next, ip, id)
            == cached_subscription(state, ip, id));
    }
    if let Ok(d) = decoded {
        if let Some(NotificationVariant::Other { subscription_id }) = d.contents {
            assert(cached_subscription(next, message.peer.ip, subscription_id)
                == cached_subscription(state, message.peer.ip, subscription_id));
        }
    }
}

/// A packet that waits for a subscription of its own peer, and an answer of the
/// cache, leave subscriptions filed under the addresses of their peers.
pub proof fn lemma_subscriptions_stay_filed<C>(
    state: ActorState<C>,
    own: InfoModel,
    message: Arc<UdpNotifRequest>,
    content_id: Option<Seq<char>>,
    info: InfoModel,
    schemas: Schemas<C>,
)
    requires
        filed_by_peer(state),
        own.peer.ip == message.peer.ip,
    ensures
        filed_by_peer(buffered(state, own, message).1),
        filed_by_peer(answered(state, content_id, info, schemas)),
{
    let waits = buffered(state, own, message).1;
    assert forall|ip: IpAddr, id: u32|
        (#[trigger] cached_subscription(waits, ip, id)) matches Some(subscription)
            ==> subscription.info.peer.ip == ip by {
        assert(cached_subscription(state, ip, id) matches Some(subscription)
            ==> subscription.info.peer.ip == ip);
    }
    let after = answered(state, content_id, info, schemas);
    assert forall|ip: IpAddr, id: u32|
        (#[trigger] cached_subscription(after, ip, id)) matches Some(subscription)
            ==> subscription.info.peer.ip == ip by {
        if ip != info.peer.ip || id != info.id {
            assert(cached_subscription(after, ip, id) == cached_subscription(state, ip, id));
        }
    }
}

/// A peer whose last subscription is gone is forgotten.
pub proof fn lemma_peer_without_subscriptions_forgotten<C>(
    state: ActorState<C>,
    ip: IpAddr,
    info: InfoModel,
)
    ensures
        announced(state, ip, info).peers.contains_key(ip) ==> !announced(
            state,
            ip,
            info,
        ).peers[ip].subscriptions.dom().is_empty(),
{
}

} // verus!
