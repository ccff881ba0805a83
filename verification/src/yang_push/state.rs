//! The state of the validation of YANG-Push notifications, and how it changes.
//!
//! Validation keeps, for each peer and each of its subscriptions, the schemas
//! that notifications are validated against, and the packets that wait for
//! them. Everything here is a function from one state to the next.
use crate::text::{counted, opt_text};
use crate::udp_notif::wire::UdpNotifPacket;
use crate::yang_push::subscription::{
    announced_info, InfoModel, IpAddr, SocketAddr, SubscriptionStartedModified,
};
use std::sync::Arc;
use vstd::prelude::*;

verus! {

/// A UDP-Notif packet together with where it came from and arrived.
#[derive(Debug)]
pub struct UdpNotifRequest {
    pub collector: SocketAddr,
    pub interface: Option<String>,
    pub peer: SocketAddr,
    pub packet: UdpNotifPacket,
}

/// The contents of a notification, as far as validation looks into them.
#[derive(Debug)]
pub enum NotificationVariant {
    SubscriptionStarted(SubscriptionStartedModified),
    SubscriptionModified(SubscriptionStartedModified),
    Other { subscription_id: u32 },
}

/// A decoded payload, as far as validation looks into it.
#[derive(Debug)]
pub struct DecodedNotification {
    /// Whether the payload is a notification of the legacy kind.
    pub is_legacy: bool,
    /// The contents of the notification, if the payload has any.
    pub contents: Option<NotificationVariant>,
}

/// What the validation of notifications has counted. All but `buffered_packets`
/// count events, and start again from zero behind the largest number.
#[derive(Debug, Clone, Copy, PartialEq, Eq, Structural)]
pub struct ValidationStats {
    /// Messages received for validation (before decoding)
    pub messages_received: u64,
    /// Messages decoded successfully
    pub messages_decoding_success: u64,
    /// Messages dropped because of decoding errors
    pub messages_decoding_fail: u64,
    /// Cache requests by subscription info
    pub cache_request_by_subscription_info: u64,
    /// Cache requests by subscription ID
    pub cache_request_by_subscription_id: u64,
    /// Messages of the peer seen last that are buffered waiting for schemas
    pub buffered_packets: u64,
    /// Messages dropped because the buffer is full
    pub buffer_drop: u64,
    /// Messages popped out of the buffer and sent to the validation step
    pub buffer_drain: u64,
    /// Validation contexts that are successfully created
    pub cache_yang_ctx_created: u64,
    /// Validation contexts that are invalid (e.g., missing schema)
    pub cache_yang_ctx_invalid: u64,
    /// Validation contexts that are empty (e.g., schema loading from the router
    /// failed)
    pub cache_yang_ctx_empty: u64,
    /// Messages successfully validated
    pub validation_success: u64,
    /// Messages dropped because of validation errors
    pub validation_invalid: u64,
    /// Messages dropped because they are malformed; e.g., missing subscription
    /// info
    pub validation_malformed: u64,
    /// Messages that skipped the validation step because there are no schemas
    pub validation_skip: u64,
    /// Messages successfully sent upstream
    pub messages_sent: u64,
}

/// Nothing counted yet.
pub open spec fn no_stats() -> ValidationStats {
    ValidationStats {
        messages_received: 0,
        messages_decoding_success: 0,
        messages_decoding_fail: 0,
        cache_request_by_subscription_info: 0,
        cache_request_by_subscription_id: 0,
        buffered_packets: 0,
        buffer_drop: 0,
        buffer_drain: 0,
        cache_yang_ctx_created: 0,
        cache_yang_ctx_invalid: 0,
        cache_yang_ctx_empty: 0,
        validation_success: 0,
        validation_invalid: 0,
        validation_malformed: 0,
        validation_skip: 0,
        messages_sent: 0,
    }
}

impl ValidationStats {
    pub fn new() -> (stats: Self)
        ensures
            stats == no_stats(),
    {
        ValidationStats {
            messages_received: 0,
            messages_decoding_success: 0,
            messages_decoding_fail: 0,
            cache_request_by_subscription_info: 0,
            cache_request_by_subscription_id: 0,
            buffered_packets: 0,
            buffer_drop: 0,
            buffer_drain: 0,
            cache_yang_ctx_created: 0,
            cache_yang_ctx_invalid: 0,
            cache_yang_ctx_empty: 0,
            validation_success: 0,
            validation_invalid: 0,
            validation_malformed: 0,
            validation_skip: 0,
            messages_sent: 0,
        }
    }
}

/// What is cached of a subscription.
pub struct SubscriptionState<C> {
    /// The content id of the YANG library that was loaded.
    pub content_id: Option<Seq<char>>,
    pub info: InfoModel,
    /// Whether the cache has answered the lookup of its schemas.
    pub answered: bool,
    /// The modules that notifications are validated against.
    pub yang_ctx: Option<C>,
    /// The packets that wait for those modules.
    pub buffered: Seq<Arc<UdpNotifRequest>>,
}

/// What is cached of a peer.
pub struct PeerState<C> {
    pub subscriptions: Map<u32, SubscriptionState<C>>,
    /// How many packets wait, over all subscriptions.
    pub total_buffered: nat,
}

/// The state of the actor.
pub struct ActorState<C> {
    pub max_per_peer: nat,
    pub max_per_subscription: nat,
    pub peers: Map<IpAddr, PeerState<C>>,
    /// The packets whose modules arrived, in the order in which they are
    /// processed.
    pub pending: Seq<Arc<UdpNotifRequest>>,
    pub stats: ValidationStats,
}

/// A peer without subscriptions.
pub open spec fn new_peer<C>() -> PeerState<C> {
    PeerState { subscriptions: Map::empty(), total_buffered: 0 }
}

/// A subscription that waits for its modules.
pub open spec fn new_subscription<C>(info: InfoModel) -> SubscriptionState<C> {
    SubscriptionState {
        content_id: None,
        info,
        answered: false,
        yang_ctx: None,
        buffered: Seq::empty(),
    }
}

/// An actor that has seen nothing.
pub open spec fn fresh_actor<C>(max_per_peer: nat, max_per_subscription: nat) -> ActorState<C> {
    ActorState {
        max_per_peer,
        max_per_subscription,
        peers: Map::empty(),
        pending: Seq::empty(),
        stats: no_stats(),
    }
}

/// How many packets wait in all of these subscriptions.
pub open spec fn waiting<C>(subscriptions: Map<u32, SubscriptionState<C>>) -> nat
    decreases subscriptions.dom().len(),
    when subscriptions.dom().finite()
{
    if subscriptions.dom().is_empty() {
        0
    } else {
        let id = subscriptions.dom().choose();
        subscriptions[id].buffered.len() + waiting(subscriptions.remove(id))
    }
}

/// What is cached of a peer fits together: its packets are counted, none of the
/// limits is exceeded, each subscription is filed under its id, and there is at
/// least one.
pub open spec fn consistent_peer<C>(state: ActorState<C>, peer: PeerState<C>) -> bool {
    &&& peer.subscriptions.dom().finite()
    &&& !peer.subscriptions.dom().is_empty()
    &&& peer.total_buffered == waiting(peer.subscriptions)
    &&& peer.total_buffered <= state.max_per_peer
    &&& forall|id: u32| #[trigger]
        peer.subscriptions.contains_key(id) ==> {
            &&& peer.subscriptions[id].info.id == id
            &&& peer.subscriptions[id].buffered.len() <= state.max_per_subscription
        }
}

/// What is cached of every peer fits together.
pub open spec fn consistent<C>(state: ActorState<C>) -> bool {
    forall|ip: IpAddr| #[trigger]
        state.peers.contains_key(ip) ==> consistent_peer(state, state.peers[ip])
}

/// Each subscription is filed under the address of its peer.
pub open spec fn filed_by_peer<C>(state: ActorState<C>) -> bool {
    forall|ip: IpAddr, id: u32|
        (#[trigger] cached_subscription(state, ip, id)) matches Some(subscription)
            ==> subscription.info.peer.ip == ip
}

/// Whether what is cached fits together depends on nothing but what is cached
/// and the limits.
pub proof fn lemma_consistent_frame<C>(state: ActorState<C>, after: ActorState<C>)
    requires
        consistent(state),
        after.peers == state.peers,
        after.max_per_peer == state.max_per_peer,
        after.max_per_subscription == state.max_per_subscription,
    ensures
        consistent(after),
{
    assert forall|ip: IpAddr| #[trigger] after.peers.contains_key(ip) implies consistent_peer(
        after,
        after.peers[ip],
    ) by {
        assert(consistent_peer(state, state.peers[ip]));
    }
}

/// What is cached of a subscription of a peer.
pub open spec fn cached_subscription<C>(state: ActorState<C>, ip: IpAddr, id: u32) -> Option<
    SubscriptionState<C>,
> {
    if state.peers.contains_key(ip) && state.peers[ip].subscriptions.contains_key(id) {
        Some(state.peers[ip].subscriptions[id])
    } else {
        None
    }
}

/// The peer without one of its subscriptions.
pub open spec fn without_subscription<C>(peer: PeerState<C>, id: u32) -> PeerState<C> {
    if peer.subscriptions.contains_key(id) {
        PeerState {
            subscriptions: peer.subscriptions.remove(id),
            total_buffered: (peer.total_buffered - peer.subscriptions[id].buffered.len()) as nat,
        }
    } else {
        peer
    }
}

/// The state once `info` is announced: a subscription that is cached with other
/// contents is gone, and a peer without subscriptions is gone too.
pub open spec fn announced<C>(state: ActorState<C>, ip: IpAddr, info: InfoModel) -> ActorState<C> {
    if !state.peers.contains_key(ip) {
        state
    } else {
        let peer = state.peers[ip];
        let next = if peer.subscriptions.contains_key(info.id)
            && peer.subscriptions[info.id].info == info {
            peer
        } else {
            without_subscription(peer, info.id)
        };
        ActorState {
            peers: if next.subscriptions.dom().is_empty() {
                state.peers.remove(ip)
            } else {
                state.peers.insert(ip, next)
            },
            ..state
        }
    }
}

/// A subscription that a notification belongs to. `cached` is the content id
/// under which its modules are cached, if the subscription is cached.
pub struct Found {
    pub info: InfoModel,
    pub cached: Option<Option<Seq<char>>>,
}

/// The subscription that a notification announces or belongs to, and the state
/// once it is announced.
pub open spec fn looked_up<C>(
    state: ActorState<C>,
    message: UdpNotifRequest,
    decoded: DecodedNotification,
) -> (ActorState<C>, Option<Found>) {
    match decoded.contents {
        None => (state, None),
        Some(NotificationVariant::Other { subscription_id }) => (
            state,
            match cached_subscription(state, message.peer.ip, subscription_id) {
                Some(subscription) => Some(
                    Found { info: subscription.info, cached: Some(subscription.content_id) },
                ),
                None => None,
            },
        ),
        Some(NotificationVariant::SubscriptionStarted(started)) => announced_lookup(
            state,
            message,
            started,
        ),
        Some(NotificationVariant::SubscriptionModified(started)) => announced_lookup(
            state,
            message,
            started,
        ),
    }
}

/// The subscription that `started` announces, and the state once it is
/// announced.
pub open spec fn announced_lookup<C>(
    state: ActorState<C>,
    message: UdpNotifRequest,
    started: SubscriptionStartedModified,
) -> (ActorState<C>, Option<Found>) {
    match announced_info(message.peer, message.collector, opt_text(message.interface), started) {
        None => (state, None),
        Some(info) => {
            let next = announced(state, message.peer.ip, info);
            (
                next,
                Some(
                    Found {
                        info,
                        cached: match cached_subscription(next, message.peer.ip, info.id) {
                            Some(subscription) => if subscription.info == info {
                                Some(subscription.content_id)
                            } else {
                                None
                            },
                            None => None,
                        },
                    },
                ),
            )
        },
    }
}

/// Which buffer is full.
#[derive(Debug, Clone, Copy, PartialEq, Eq, Structural)]
pub enum BufferFull {
    Subscription,
    Peer,
}

/// The state once `message` waits for the modules of `info`, or is dropped
/// because a buffer is full. The limits are the most that a buffer holds. What is
/// cached is not touched by a packet that is dropped.
pub open spec fn buffered<C>(state: ActorState<C>, info: InfoModel, message: Arc<UdpNotifRequest>) -> (
    Result<(), BufferFull>,
    ActorState<C>,
) {
    let ip = message.peer.ip;
    let peer = if state.peers.contains_key(ip) {
        state.peers[ip]
    } else {
        new_peer()
    };
    let subscription = if peer.subscriptions.contains_key(info.id) {
        peer.subscriptions[info.id]
    } else {
        new_subscription(info)
    };
    let dropped = ActorState {
        stats: ValidationStats { buffer_drop: counted(state.stats.buffer_drop), ..state.stats },
        ..state
    };
    if subscription.buffered.len() >= state.max_per_subscription {
        (Err(BufferFull::Subscription), dropped)
    } else if peer.total_buffered >= state.max_per_peer {
        (Err(BufferFull::Peer), dropped)
    } else {
        let next = PeerState {
            subscriptions: peer.subscriptions.insert(
                info.id,
                SubscriptionState { buffered: subscription.buffered.push(message), ..subscription },
            ),
            total_buffered: peer.total_buffered + 1,
        };
        (
            Ok(()),
            ActorState {
                peers: state.peers.insert(ip, next),
                stats: ValidationStats {
                    buffered_packets: next.total_buffered as u64,
                    ..state.stats
                },
                ..state
            },
        )
    }
}

/// What is to be done about a packet.
pub enum Decision {
    /// Nothing: it is dropped.
    Drop,
    /// The schemas of this subscription are to be looked up.
    LookupByInfo(InfoModel),
    /// The subscription with this id, and its schemas, are to be looked up.
    LookupById { collector: SocketAddr, interface: Option<Seq<char>>, peer: SocketAddr, id: u32 },
    /// It is to wait for the schemas of this subscription, which are being
    /// looked up.
    Wait(InfoModel),
    /// It is to be validated with the modules under this content id.
    Validate { info: InfoModel, content_id: Seq<char> },
    /// It is to be forwarded without validation.
    Skip(InfoModel),
}

/// What is to be done about a packet, given the result of decoding its payload.
pub open spec fn decided<C>(
    state: ActorState<C>,
    message: UdpNotifRequest,
    decoded: Result<DecodedNotification, ()>,
) -> (Decision, ActorState<C>) {
    match decoded {
        Err(_) => (
            Decision::Drop,
            ActorState {
                stats: ValidationStats {
                    messages_decoding_fail: counted(state.stats.messages_decoding_fail),
                    ..state.stats
                },
                ..state
            },
        ),
        Ok(decoded) => {
            let stats = ValidationStats {
                messages_decoding_success: counted(state.stats.messages_decoding_success),
                ..state.stats
            };
            let (next, found) = looked_up(ActorState { stats, ..state }, message, decoded);
            match found {
                Some(found) => if found.cached is Some {
                    decided_known(next, message.peer.ip, found.info)
                } else {
                    (
                        Decision::LookupByInfo(found.info),
                        ActorState {
                            stats: ValidationStats {
                                cache_request_by_subscription_info: counted(
                                    stats.cache_request_by_subscription_info,
                                ),
                                ..stats
                            },
                            ..next
                        },
                    )
                },
                None => match decoded.contents {
                    Some(NotificationVariant::Other { subscription_id }) => (
                        Decision::LookupById {
                            collector: message.collector,
                            interface: opt_text(message.interface),
                            peer: message.peer,
                            id: subscription_id,
                        },
                        ActorState {
                            stats: ValidationStats {
                                cache_request_by_subscription_id: counted(
                                    stats.cache_request_by_subscription_id,
                                ),
                                ..stats
                            },
                            ..next
                        },
                    ),
                    // It will fail identically every time: buffering it and
                    // looking its subscription up would go on forever.
                    Some(_) => (
                        Decision::Drop,
                        ActorState {
                            stats: ValidationStats {
                                validation_malformed: counted(stats.validation_malformed),
                                ..stats
                            },
                            ..next
                        },
                    ),
                    None => (
                        Decision::Drop,
                        ActorState {
                            stats: ValidationStats {
                                validation_invalid: counted(stats.validation_invalid),
                                ..stats
                            },
                            ..next
                        },
                    ),
                },
            }
        },
    }
}

/// What is to be done about a packet of a subscription that is cached.
pub open spec fn decided_known<C>(state: ActorState<C>, ip: IpAddr, info: InfoModel) -> (
    Decision,
    ActorState<C>,
) {
    let skip = (
        Decision::Skip(info),
        ActorState {
            stats: ValidationStats {
                validation_skip: counted(state.stats.validation_skip),
                ..state.stats
            },
            ..state
        },
    );
    match cached_subscription(state, ip, info.id) {
        None => skip,
        Some(subscription) => if !subscription.answered {
            (Decision::Wait(info), state)
        } else if subscription.content_id is Some && subscription.yang_ctx is Some
            && info.content_id != "EMPTY"@ {
            (Decision::Validate { info, content_id: subscription.content_id->0 }, state)
        } else {
            skip
        },
    }
}

/// The state once the modules of a subscription arrived, or could not be had:
/// its packets leave the buffer and are processed again, in the order in which
/// they came. A subscription that is no longer cached is left alone.
pub open spec fn answered<C>(
    state: ActorState<C>,
    content_id: Option<Seq<char>>,
    info: InfoModel,
    schemas: Schemas<C>,
) -> ActorState<C> {
    let ip = info.peer.ip;
    match cached_subscription(state, ip, info.id) {
        None => state,
        Some(subscription) => {
            let peer = state.peers[ip];
            let drained = subscription.buffered.len();
            let next = SubscriptionState {
                content_id: if schemas is Unavailable {
                    None
                } else {
                    content_id
                },
                info,
                answered: true,
                yang_ctx: match schemas {
                    Schemas::Loaded(yang_ctx) => Some(yang_ctx),
                    _ => None,
                },
                buffered: Seq::empty(),
            };
            let total_buffered = (peer.total_buffered - drained) as nat;
            let stats = counted_schemas(state.stats, schemas);
            ActorState {
                peers: state.peers.insert(
                    ip,
                    PeerState {
                        subscriptions: peer.subscriptions.insert(info.id, next),
                        total_buffered,
                    },
                ),
                pending: state.pending + subscription.buffered,
                stats: ValidationStats {
                    buffered_packets: total_buffered as u64,
                    buffer_drain: counted_times(stats.buffer_drain, drained),
                    ..stats
                },
                ..state
            }
        },
    }
}

/// The counters after an attempt to load schemas.
pub open spec fn counted_schemas<C>(stats: ValidationStats, schemas: Schemas<C>) -> ValidationStats {
    match schemas {
        Schemas::Loaded(_) => ValidationStats {
            cache_yang_ctx_created: counted(stats.cache_yang_ctx_created),
            ..stats
        },
        Schemas::Invalid => ValidationStats {
            cache_yang_ctx_invalid: counted(stats.cache_yang_ctx_invalid),
            ..stats
        },
        Schemas::Unavailable => ValidationStats {
            cache_yang_ctx_empty: counted(stats.cache_yang_ctx_empty),
            ..stats
        },
    }
}

/// A counter after `times` events.
pub open spec fn counted_times(n: u64, times: nat) -> u64
    decreases times,
{
    if times == 0 {
        n
    } else {
        counted(counted_times(n, (times - 1) as nat))
    }
}

/// The schemas of a subscription, as the cache answers a lookup.
#[derive(Debug)]
pub enum Schemas<C> {
    /// They are loaded.
    Loaded(C),
    /// There is a YANG library, but it could not be loaded.
    Invalid,
    /// There is no YANG library.
    Unavailable,
}

pub proof fn lemma_waiting_remove<C>(subscriptions: Map<u32, SubscriptionState<C>>, id: u32)
    requires
        subscriptions.dom().finite(),
        subscriptions.contains_key(id),
    ensures
        waiting(subscriptions) == waiting(subscriptions.remove(id))
            + subscriptions[id].buffered.len(),
    decreases subscriptions.dom().len(),
{
    let first = subscriptions.dom().choose();
    assert(subscriptions.dom().contains(id));
    if first != id {
        assert(subscriptions.remove(first).remove(id) =~= subscriptions.remove(id).remove(first));
        lemma_waiting_remove(subscriptions.remove(first), id);
        lemma_waiting_remove(subscriptions.remove(id), first);
    }
}

proof fn lemma_waiting_insert<C>(
    subscriptions: Map<u32, SubscriptionState<C>>,
    id: u32,
    subscription: SubscriptionState<C>,
)
    requires
        subscriptions.dom().finite(),
    ensures
        waiting(subscriptions.insert(id, subscription)) == subscription.buffered.len() + (
        if subscriptions.contains_key(id) {
            waiting(subscriptions) - subscriptions[id].buffered.len()
        } else {
            waiting(subscriptions) as int
        }),
{
    let after = subscriptions.insert(id, subscription);
    lemma_waiting_remove(after, id);
    if subscriptions.contains_key(id) {
        lemma_waiting_remove(subscriptions, id);
        assert(after.remove(id) =~= subscriptions.remove(id));
    } else {
        assert(after.remove(id) =~= subscriptions);
    }
}

proof fn lemma_nothing_waits<C>(subscriptions: Map<u32, SubscriptionState<C>>)
    requires
        subscriptions.dom().is_empty(),
    ensures
        subscriptions.dom().finite(),
        waiting(subscriptions) == 0,
{
    assert(subscriptions.dom() =~= Set::empty());
}

/// Announcing a subscription keeps the cache consistent.
pub proof fn lemma_announced_consistent<C>(state: ActorState<C>, ip: IpAddr, info: InfoModel)
    requires
        consistent(state),
    ensures
        consistent(announced(state, ip, info)),
{
    let after = announced(state, ip, info);
    assert forall|k: IpAddr| #[trigger] after.peers.contains_key(k) implies consistent_peer(
        after,
        after.peers[k],
    ) by {
        assert(state.peers.contains_key(k));
        assert(consistent_peer(state, state.peers[k]));
        if k == ip && state.peers[ip].subscriptions.contains_key(info.id) {
            lemma_waiting_remove(state.peers[ip].subscriptions, info.id);
        }
    }
}

/// Buffering a packet keeps the cache consistent; in particular no buffer grows
/// beyond its limit.
pub proof fn lemma_buffered_consistent<C>(
    state: ActorState<C>,
    info: InfoModel,
    message: Arc<UdpNotifRequest>,
)
    requires
        consistent(state),
    ensures
        consistent(buffered(state, info, message).1),
{
    let ip = message.peer.ip;
    let after = buffered(state, info, message).1;
    lemma_nothing_waits(new_peer::<C>().subscriptions);
    assert forall|k: IpAddr| #[trigger] after.peers.contains_key(k) implies consistent_peer(
        after,
        after.peers[k],
    ) by {
        if state.peers.contains_key(k) {
            assert(consistent_peer(state, state.peers[k]));
        }
        if k == ip {
            let peer = if state.peers.contains_key(ip) {
                state.peers[ip]
            } else {
                new_peer()
            };
            let subscription = if peer.subscriptions.contains_key(info.id) {
                peer.subscriptions[info.id]
            } else {
                new_subscription(info)
            };
            lemma_waiting_insert(
                peer.subscriptions,
                info.id,
                SubscriptionState { buffered: subscription.buffered.push(message), ..subscription },
            );
        }
    }
}

/// An answer of the cache keeps the cache consistent.
pub proof fn lemma_answered_consistent<C>(
    state: ActorState<C>,
    content_id: Option<Seq<char>>,
    info: InfoModel,
    schemas: Schemas<C>,
)
    requires
        consistent(state),
    ensures
        consistent(answered(state, content_id, info, schemas)),
{
    let ip = info.peer.ip;
    let after = answered(state, content_id, info, schemas);
    assert forall|k: IpAddr| #[trigger] after.peers.contains_key(k) implies consistent_peer(
        after,
        after.peers[k],
    ) by {
        assert(consistent_peer(state, state.peers[k]));
        if k == ip && cached_subscription(state, ip, info.id) is Some {
            let subscriptions = state.peers[ip].subscriptions;
            lemma_waiting_insert(subscriptions, info.id, after.peers[ip].subscriptions[info.id]);
            lemma_waiting_remove(subscriptions, info.id);
        }
    }
}

/// Deciding about a packet keeps the cache consistent.
pub proof fn lemma_decided_consistent<C>(
    state: ActorState<C>,
    message: UdpNotifRequest,
    decoded: Result<DecodedNotification, ()>,
)
    requires
        consistent(state),
    ensures
        consistent(decided(state, message, decoded).1),
{
    if let Ok(d) = decoded {
        let stats = ValidationStats {
            messages_decoding_success: counted(state.stats.messages_decoding_success),
            ..state.stats
        };
        let s = ActorState { stats, ..state };
        lemma_consistent_frame(state, s);
        let (next, _) = looked_up(s, message, d);
        assert(consistent(next)) by {
            match d.contents {
                Some(NotificationVariant::SubscriptionStarted(started)) => {
                    if let Some(info) = announced_info(
                        message.peer,
                        message.collector,
                        opt_text(message.interface),
                        started,
                    ) {
                        lemma_announced_consistent(s, message.peer.ip, info);
                    }
                },
                Some(NotificationVariant::SubscriptionModified(started)) => {
                    if let Some(info) = announced_info(
                        message.peer,
                        message.collector,
                        opt_text(message.interface),
                        started,
                    ) {
                        lemma_announced_consistent(s, message.peer.ip, info);
                    }
                },
                _ => {},
            }
        }
        lemma_consistent_frame(next, decided(state, message, decoded).1);
    } else {
        lemma_consistent_frame(state, decided(state, message, decoded).1);
    }
}

} // verus!
