//! YANG Push Notification Validation
//!
//! The decisions of the actor that validates UDP-Notif packets carrying
//! YANG-modeled data. The actor validates notification payloads against YANG
//! schemas when available, gracefully handling cases where schemas haven't been
//! loaded yet. Its channels are the business of the caller: each function takes
//! what arrived and returns what is to be sent.
//!
//! ## Two-Level Caching
//!
//! - **Peer Level**: Groups all subscriptions from the same source IP
//!   - Enforces `max_buffered_packets_per_peer` limit across all subscriptions
//!   - Prevents a single peer from consuming excessive memory
//!
//! - **Subscription Level**: Per-subscription state including:
//!   - `SubscriptionInfo`: Metadata from `SubscriptionStarted`
//!   - Loaded YANG schemas for validation, of a type `C` that the caller picks
//!   - Buffered packets waiting for schema retrieval
//!   - Enforces `max_buffered_packets_per_subscription` limit
//!
//! Packets arriving before schemas are loaded are buffered and reprocessed
//! when the cache actor responds with YANG library references.
use crate::fx_map;
use crate::text::{copy_opt, count, counted, opt_text};
use crate::udp_notif::wire::UdpNotifPacket;
use crate::yang_push::state::{
    announced, announced_lookup, answered, buffered, cached_subscription, consistent,
    consistent_peer, counted_times, decided, fresh_actor, lemma_announced_consistent,
    lemma_answered_consistent, lemma_buffered_consistent, lemma_consistent_frame,
    lemma_decided_consistent,
    lemma_waiting_remove, looked_up, new_peer, ActorState, BufferFull, Decision,
    DecodedNotification, NotificationVariant, PeerState, Schemas, SubscriptionState,
    UdpNotifRequest, ValidationStats,
};
use crate::yang_push::subscription::{
    build_subscription_info, empty_info, InfoModel, IpAddr, SocketAddr, SubscriptionInfo,
    SubscriptionStartedModified,
};
use rustc_hash::FxHashMap;
use std::collections::VecDeque;
use std::sync::Arc;
use vstd::prelude::*;

verus! {

#[derive(Debug)]
struct CachedSubscription<C> {
    cached_content_id: Option<String>,
    subscription_info: SubscriptionInfo,
    answered: bool,
    yang_ctx: Option<C>,
    buffered_packets: Vec<Arc<UdpNotifRequest>>,
}

impl<C> View for CachedSubscription<C> {
    type V = SubscriptionState<C>;

    closed spec fn view(&self) -> SubscriptionState<C> {
        SubscriptionState {
            content_id: opt_text(self.cached_content_id),
            info: self.subscription_info@,
            answered: self.answered,
            yang_ctx: self.yang_ctx,
            buffered: self.buffered_packets@,
        }
    }
}

#[derive(Debug)]
struct CachedPeerSubscriptions<C> {
    subscriptions: FxHashMap<u32, CachedSubscription<C>>,
    total_buffered: usize,
}

impl<C> View for CachedPeerSubscriptions<C> {
    type V = PeerState<C>;

    closed spec fn view(&self) -> PeerState<C> {
        PeerState {
            subscriptions: self.subscriptions@.map_values(
                |subscription: CachedSubscription<C>| subscription@,
            ),
            total_buffered: self.total_buffered as nat,
        }
    }
}

impl<C> CachedPeerSubscriptions<C> {
    fn new() -> (peer: Self)
        ensures
            peer@ == new_peer::<C>(),
    {
        let peer = CachedPeerSubscriptions { subscriptions: fx_map::new_map(), total_buffered: 0 };
        assert(peer@.subscriptions =~= Map::empty());
        peer
    }

    fn get(&self, id: u32) -> (subscription: Option<&CachedSubscription<C>>)
        ensures
            match subscription {
                Some(subscription) => self@.subscriptions.contains_key(id)
                    && self@.subscriptions[id] == subscription@,
                None => !self@.subscriptions.contains_key(id),
            },
    {
        fx_map::get(&self.subscriptions, &id)
    }

    /// Takes a subscription out. Its packets stay counted.
    fn take(&mut self, id: u32) -> (subscription: Option<CachedSubscription<C>>)
        ensures
            match subscription {
                Some(subscription) => old(self)@.subscriptions.contains_key(id)
                    && old(self)@.subscriptions[id] == subscription@,
                None => !old(self)@.subscriptions.contains_key(id),
            },
            final(self)@ == (PeerState {
                subscriptions: old(self)@.subscriptions.remove(id),
                ..old(self)@
            }),
    {
        let subscription = fx_map::remove(&mut self.subscriptions, &id);
        assert(self@.subscriptions =~= old(self)@.subscriptions.remove(id));
        subscription
    }

    /// Puts a subscription in. The packets that are counted stay the same.
    fn put(&mut self, id: u32, subscription: CachedSubscription<C>)
        ensures
            final(self)@ == (PeerState {
                subscriptions: old(self)@.subscriptions.insert(id, subscription@),
                ..old(self)@
            }),
    {
        fx_map::insert(&mut self.subscriptions, id, subscription);
        assert(self@.subscriptions =~= old(self)@.subscriptions.insert(id, subscription@));
    }

    fn has_no_subscriptions(&self) -> (r: bool)
        ensures
            r == self@.subscriptions.dom().is_empty(),
    {
        assert(self@.subscriptions.dom() =~= self.subscriptions@.dom());
        fx_map::is_empty(&self.subscriptions)
    }
}

/// The peers, by address.
#[derive(Debug)]
struct PeerCache<C> {
    v4: FxHashMap<u32, CachedPeerSubscriptions<C>>,
    v6: FxHashMap<u128, CachedPeerSubscriptions<C>>,
}

impl<C> View for PeerCache<C> {
    type V = Map<IpAddr, PeerState<C>>;

    closed spec fn view(&self) -> Map<IpAddr, PeerState<C>> {
        Map::new(
            |ip: IpAddr|
                match ip {
                    IpAddr::V4(n) => self.v4@.contains_key(n),
                    IpAddr::V6(n) => self.v6@.contains_key(n),
                },
            |ip: IpAddr|
                match ip {
                    IpAddr::V4(n) => self.v4@[n]@,
                    IpAddr::V6(n) => self.v6@[n]@,
                },
        )
    }
}

impl<C> PeerCache<C> {
    fn new() -> (cache: Self)
        ensures
            cache@ == Map::<IpAddr, PeerState<C>>::empty(),
    {
        let cache = PeerCache { v4: fx_map::new_map(), v6: fx_map::new_map() };
        assert(cache@ =~= Map::empty());
        cache
    }

    fn get(&self, ip: IpAddr) -> (peer: Option<&CachedPeerSubscriptions<C>>)
        ensures
            match peer {
                Some(peer) => self@.contains_key(ip) && self@[ip] == peer@,
                None => !self@.contains_key(ip),
            },
    {
        match ip {
            IpAddr::V4(n) => fx_map::get(&self.v4, &n),
            IpAddr::V6(n) => fx_map::get(&self.v6, &n),
        }
    }

    fn take(&mut self, ip: IpAddr) -> (peer: Option<CachedPeerSubscriptions<C>>)
        ensures
            match peer {
                Some(peer) => old(self)@.contains_key(ip) && old(self)@[ip] == peer@,
                None => !old(self)@.contains_key(ip),
            },
            final(self)@ == old(self)@.remove(ip),
    {
        let peer = match ip {
            IpAddr::V4(n) => fx_map::remove(&mut self.v4, &n),
            IpAddr::V6(n) => fx_map::remove(&mut self.v6, &n),
        };
        assert(self@ =~= old(self)@.remove(ip));
        peer
    }

    fn put(&mut self, ip: IpAddr, peer: CachedPeerSubscriptions<C>)
        ensures
            final(self)@ == old(self)@.insert(ip, peer@),
    {
        match ip {
            IpAddr::V4(n) => fx_map::insert(&mut self.v4, n, peer),
            IpAddr::V6(n) => fx_map::insert(&mut self.v6, n, peer),
        }
        assert(self@ =~= old(self)@.insert(ip, peer@));
    }

    fn get_subscription(&self, ip: IpAddr, id: u32) -> (subscription: Option<&CachedSubscription<C>>)
        ensures
            match subscription {
                Some(subscription) => {
                    &&& self@.contains_key(ip)
                    &&& self@[ip].subscriptions.contains_key(id)
                    &&& self@[ip].subscriptions[id] == subscription@
                },
                None => !(self@.contains_key(ip) && self@[ip].subscriptions.contains_key(id)),
            },
    {
        match self.get(ip) {
            Some(peer) => peer.get(id),
            None => None,
        }
    }
}

/// A request to the cache of schemas.
#[derive(Debug)]
pub enum CacheLookupCommand {
    LookupBySubscriptionInfo(SubscriptionInfo),
    LookupBySubscriptionId {
        collector: SocketAddr,
        interface: Option<String>,
        peer: SocketAddr,
        subscription_id: u32,
    },
}

/// What is to be done about a packet.
#[derive(Debug)]
pub enum NextStep {
    /// Nothing: it is dropped.
    Drop,
    /// The request is to be sent to the cache.
    Lookup(CacheLookupCommand),
    /// The packet is to wait for the schemas of this subscription.
    Wait(SubscriptionInfo),
    /// The payload is to be validated.
    Validate { subscription_info: SubscriptionInfo, content_id: String },
    /// The packet is to be forwarded without validation.
    Skip(SubscriptionInfo),
}

impl View for NextStep {
    type V = Decision;

    open spec fn view(&self) -> Decision {
        match self {
            NextStep::Drop => Decision::Drop,
            NextStep::Lookup(CacheLookupCommand::LookupBySubscriptionInfo(info)) =>
                Decision::LookupByInfo(info@),
            NextStep::Lookup(
                CacheLookupCommand::LookupBySubscriptionId {
                    collector,
                    interface,
                    peer,
                    subscription_id,
                },
            ) => Decision::LookupById {
                collector: *collector,
                interface: opt_text(*interface),
                peer: *peer,
                id: *subscription_id,
            },
            NextStep::Validate { subscription_info, content_id } => Decision::Validate {
                info: subscription_info@,
                content_id: content_id@,
            },
            NextStep::Wait(info) => Decision::Wait(info@),
            NextStep::Skip(info) => Decision::Skip(info@),
        }
    }
}

/// What the caller has to do with a packet.
#[derive(Debug)]
pub enum Processed {
    /// Nothing: it was dropped.
    Dropped,
    /// Nothing: it waits for the schemas of its subscription, or was dropped
    /// because there is no room to wait.
    Waiting(Result<(), BufferFull>),
    /// Send the request to the cache, and report to
    /// [`ValidationActor::lookup_sent`].
    Lookup { command: CacheLookupCommand, message: Arc<UdpNotifRequest> },
    /// Forward the decoded packet with this content id and subscription, and
    /// report to [`ValidationActor::message_sent`].
    Forward { content_id: Option<String>, subscription_info: SubscriptionInfo },
}

#[derive(Debug, Clone, Copy, PartialEq, Eq, Structural)]
pub enum ValidationActorError {
    CacheLookupSendError,
    CacheResponseReceiveError,
    SendError,
}

/// The sentence that reports an error.
pub open spec fn actor_error_text(error: ValidationActorError) -> Seq<char> {
    match error {
        ValidationActorError::CacheLookupSendError => "Failed to send cache lookup command"@,
        ValidationActorError::CacheResponseReceiveError => "Failed to receive cache response"@,
        ValidationActorError::SendError => "Failed to send the decoded UDP-Notif packet"@,
    }
}

impl ValidationActorError {
    /// The sentence that reports this error.
    pub fn message(self) -> (text: &'static str)
        ensures
            text@ == actor_error_text(self),
    {
        match self {
            ValidationActorError::CacheLookupSendError => "Failed to send cache lookup command",
            ValidationActorError::CacheResponseReceiveError => "Failed to receive cache response",
            ValidationActorError::SendError => "Failed to send the decoded UDP-Notif packet",
        }
    }
}

#[derive(Debug, Clone, Copy, PartialEq, Eq, Structural)]
pub enum ValidationActorCommand {
    Shutdown,
}

#[derive(Debug, Clone, Copy, PartialEq, Eq, Structural)]
pub enum ValidationActorHandleError {
    SendErr,
}

impl ValidationActorHandleError {
    /// The sentence that reports this error.
    pub fn message(self) -> (text: &'static str)
        ensures
            text@ == "Failed to send command to actor"@,
    {
        "Failed to send command to actor"
    }
}

/// Where the loop of the actor takes its next work from.
#[derive(Debug, Clone, Copy, PartialEq, Eq, Structural)]
pub enum Source {
    /// The commands.
    Command,
    /// The answers of the cache.
    CacheResponse,
    /// The packets whose schemas arrived.
    Pending,
    /// The packets from the network.
    Input,
}

/// Which of the sources that are ready is served: commands come before answers
/// of the cache, those before packets whose schemas arrived, and those before
/// new packets. None is served where none is ready.
pub open spec fn served(command: bool, response: bool, pending: bool, input: bool) -> Option<
    Source,
> {
    if command {
        Some(Source::Command)
    } else if response {
        Some(Source::CacheResponse)
    } else if pending {
        Some(Source::Pending)
    } else if input {
        Some(Source::Input)
    } else {
        None
    }
}

/// What the loop of the actor has just seen.
#[derive(Debug, Clone, Copy)]
pub enum RunEvent {
    /// A command, or the end of the commands.
    Command(Option<ValidationActorCommand>),
    /// An answer of the cache was processed.
    CacheResponse(Result<(), ValidationActorError>),
    /// The cache will send no more answers.
    CacheClosed,
    /// A packet whose schemas arrived was processed.
    Pending(Result<(), ValidationActorError>),
    /// A packet from the network was processed.
    Input(Result<(), ValidationActorError>),
    /// No more packets will come from the network.
    InputClosed,
}

/// With which words the loop ends after an event; it goes on where there are
/// none.
pub open spec fn last_words(event: RunEvent) -> Option<Seq<char>> {
    match event {
        RunEvent::Command(Some(ValidationActorCommand::Shutdown)) => Some(
            "Enrichment shutdown successfully"@,
        ),
        RunEvent::Command(None) => Some(
            "Yang Push validation actor terminated due to command channel closing"@,
        ),
        RunEvent::CacheResponse(Ok(_)) => None,
        RunEvent::CacheResponse(Err(_)) => Some(
            "Yang Push validation actor cache response processing unrecoverable error, shutting down"@,
        ),
        RunEvent::CacheClosed => Some(
            "Yang Push validation actor cache receiver channel closed unexpectedly, shutting down"@,
        ),
        RunEvent::Pending(Ok(_)) => None,
        RunEvent::Pending(Err(_)) => Some(
            "Yang Push validation actor cached packet processing unrecoverable error, shutting down"@,
        ),
        RunEvent::Input(Ok(_)) => None,
        RunEvent::Input(Err(_)) => Some(
            "Yang Push validation actor UDP-Notif processing unrecoverable error, shutting down"@,
        ),
        RunEvent::InputClosed => Some(
            "Yang Push validation actor UDP Notif receiver channel closed unexpectedly, shutting down"@,
        ),
    }
}

/// With which words the loop ends after an event; it goes on where there are
/// none.
pub fn stop_after(event: RunEvent) -> (words: Option<String>)
    ensures
        opt_text(words) == last_words(event),
{
    match event {
        RunEvent::Command(Some(ValidationActorCommand::Shutdown)) => Some(
            "Enrichment shutdown successfully".to_owned(),
        ),
        RunEvent::Command(None) => Some(
            "Yang Push validation actor terminated due to command channel closing".to_owned(),
        ),
        RunEvent::CacheResponse(Ok(_)) => None,
        RunEvent::CacheResponse(Err(_)) => Some(
            "Yang Push validation actor cache response processing unrecoverable error, shutting down".to_owned(),
        ),
        RunEvent::CacheClosed => Some(
            "Yang Push validation actor cache receiver channel closed unexpectedly, shutting down".to_owned(),
        ),
        RunEvent::Pending(Ok(_)) => None,
        RunEvent::Pending(Err(_)) => Some(
            "Yang Push validation actor cached packet processing unrecoverable error, shutting down".to_owned(),
        ),
        RunEvent::Input(Ok(_)) => None,
        RunEvent::Input(Err(_)) => Some(
            "Yang Push validation actor UDP-Notif processing unrecoverable error, shutting down".to_owned(),
        ),
        RunEvent::InputClosed => Some(
            "Yang Push validation actor UDP Notif receiver channel closed unexpectedly, shutting down".to_owned(),
        ),
    }
}

/// The state of the validation of notifications.
#[derive(Debug)]
pub struct ValidationActor<C> {
    max_buffered_packets_per_peer: usize,
    max_buffered_packets_per_subscription: usize,
    peer_cache: PeerCache<C>,
    /// Packets buffered while their subscription waits for schemas to arrive,
    /// then drained in pending_packets once the cache responds. They are
    /// processed one at a time
    pending_packets: VecDeque<Arc<UdpNotifRequest>>,
    stats: ValidationStats,
}

impl<C> View for ValidationActor<C> {
    type V = ActorState<C>;

    closed spec fn view(&self) -> ActorState<C> {
        ActorState {
            max_per_peer: self.max_buffered_packets_per_peer as nat,
            max_per_subscription: self.max_buffered_packets_per_subscription as nat,
            peers: self.peer_cache@,
            pending: self.pending_packets@,
            stats: self.stats,
        }
    }
}

impl<C> ValidationActor<C> {
    pub fn new(
        max_buffered_packets_per_peer: usize,
        max_buffered_packets_per_subscription: usize,
    ) -> (actor: Self)
        ensures
            actor@ == fresh_actor::<C>(
                max_buffered_packets_per_peer as nat,
                max_buffered_packets_per_subscription as nat,
            ),
            consistent(actor@),
    {
        ValidationActor {
            max_buffered_packets_per_peer,
            max_buffered_packets_per_subscription,
            peer_cache: PeerCache::new(),
            pending_packets: VecDeque::new(),
            stats: ValidationStats::new(),
        }
    }

    /// What was counted so far.
    pub fn stats(&self) -> (stats: ValidationStats)
        ensures
            stats == self@.stats,
    {
        self.stats
    }

    /// Check if the subscription is different from the existing one in the
    /// cache.
    ///
    /// If it is different, remove the existing one from the cache to allow a
    /// new request to the caching actor.
    pub fn check_subscription_new(&mut self, peer: SocketAddr, subscription_info: &SubscriptionInfo)
        requires
            consistent(old(self)@),
        ensures
            final(self)@ == announced(old(self)@, peer.ip, subscription_info@),
            consistent(final(self)@),
    {
        let ghost state = self@;
        proof {
            lemma_announced_consistent(state, peer.ip, subscription_info@);
        }
        if let Some(mut cached_peer_subscriptions) = self.peer_cache.take(peer.ip) {
            let ghost before = cached_peer_subscriptions@;
            assert(consistent_peer(state, before));
            let is_different = match cached_peer_subscriptions.get(subscription_info.id) {
                Some(cached) => !cached.subscription_info.same(subscription_info),
                None => true,
            };
            if is_different {
                if let Some(removed) = cached_peer_subscriptions.take(subscription_info.id) {
                    proof {
                        lemma_waiting_remove(before.subscriptions, subscription_info.id);
                    }
                    cached_peer_subscriptions.total_buffered =
                    cached_peer_subscriptions.total_buffered - removed.buffered_packets.len();
                } else {
                    assert(before.subscriptions.remove(subscription_info.id)
                        =~= before.subscriptions);
                }
            }
            // clear peer if there are no subscriptions left
            if !cached_peer_subscriptions.has_no_subscriptions() {
                self.peer_cache.put(peer.ip, cached_peer_subscriptions);
                assert(self@.peers =~= state.peers.insert(peer.ip, cached_peer_subscriptions@));
            }
        } else {
            assert(self@.peers =~= state.peers);
        }
    }

    /// Get the subscription info from the cache or from the SubscriptionStarted
    /// notification, and the cached content id if it's found in the cache.
    ///
    /// If the notification is a SubscriptionStarted, create a new
    /// SubscriptionInfo and return it. If the notification is not a
    /// SubscriptionStarted, look up the subscription info in the cache.
    pub fn get_subscription_info(
        &mut self,
        message: &UdpNotifRequest,
        decoded: &DecodedNotification,
    ) -> (r: Option<(SubscriptionInfo, Option<Option<String>>)>)
        requires
            consistent(old(self)@),
        ensures
            consistent(final(self)@),
            final(self)@ == looked_up(old(self)@, *message, *decoded).0,
            match looked_up(old(self)@, *message, *decoded).1 {
                Some(found) => r matches Some((info, cached)) && info@ == found.info
                    && opt_opt_text(cached) == found.cached,
                None => r is None,
            },
    {
        let notif_contents = match &decoded.contents {
            Some(notif_contents) => notif_contents,
            None => {
                return None;
            },
        };
        match notif_contents {
            NotificationVariant::SubscriptionStarted(started) => self.announce(message, started),
            NotificationVariant::SubscriptionModified(started) => self.announce(message, started),
            NotificationVariant::Other { subscription_id } => {
                match self.peer_cache.get_subscription(message.peer.ip, *subscription_id) {
                    Some(cached) => Some(
                        (cached.subscription_info.copy(), Some(copy_opt(&cached.cached_content_id))),
                    ),
                    None => None,
                }
            },
        }
    }

    /// Takes up the subscription that a notification announces.
    fn announce(&mut self, message: &UdpNotifRequest, started: &SubscriptionStartedModified) -> (r:
        Option<(SubscriptionInfo, Option<Option<String>>)>)
        requires
            consistent(old(self)@),
        ensures
            consistent(final(self)@),
            final(self)@ == announced_lookup(old(self)@, *message, *started).0,
            match announced_lookup(old(self)@, *message, *started).1 {
                Some(found) => r matches Some((info, cached)) && info@ == found.info
                    && opt_opt_text(cached) == found.cached,
                None => r is None,
            },
    {
        let subscription_info = match build_subscription_info(
            message.peer,
            message.collector,
            copy_opt(&message.interface),
            started,
        ) {
            Some(subscription_info) => subscription_info,
            None => {
                return None;
            },
        };
        self.check_subscription_new(message.peer, &subscription_info);
        let cached_content_id = match self.peer_cache.get_subscription(
            message.peer.ip,
            subscription_info.id,
        ) {
            Some(cached) => if cached.subscription_info.same(&subscription_info) {
                Some(copy_opt(&cached.cached_content_id))
            } else {
                None
            },
            None => None,
        };
        Some((subscription_info, cached_content_id))
    }

    /// Buffers a packet until the schemas of its subscription arrive. A packet
    /// for which a buffer has no room is dropped and counted, and changes nothing
    /// else.
    pub fn buffer_packet(
        &mut self,
        subscription_info: SubscriptionInfo,
        message: Arc<UdpNotifRequest>,
    ) -> (r: Result<(), BufferFull>)
        requires
            consistent(old(self)@),
        ensures
            consistent(final(self)@),
            (r, final(self)@) == buffered(old(self)@, subscription_info@, message),
    {
        let ghost state = self@;
        proof {
            lemma_buffered_consistent(state, subscription_info@, message);
        }
        let ip = message.peer.ip;
        let subscription_id: u32 = subscription_info.id;
        let (sub_buffered_packets, total_buffered): (usize, usize) = match self.peer_cache.get(ip) {
            Some(peer_cache) => match peer_cache.get(subscription_id) {
                Some(cached) => (cached.buffered_packets.len(), peer_cache.total_buffered),
                None => (0, peer_cache.total_buffered),
            },
            None => (0, 0),
        };
        if sub_buffered_packets >= self.max_buffered_packets_per_subscription {
            // drop the new packet, since the buffer is full
            self.stats.buffer_drop = count(self.stats.buffer_drop);
            return Err(BufferFull::Subscription);
        }
        if total_buffered >= self.max_buffered_packets_per_peer {
            self.stats.buffer_drop = count(self.stats.buffer_drop);
            return Err(BufferFull::Peer);
        }
        let mut peer_cache = match self.peer_cache.take(ip) {
            Some(peer_cache) => peer_cache,
            None => CachedPeerSubscriptions::new(),
        };
        let ghost peer = peer_cache@;
        let mut subscription_cache = match peer_cache.take(subscription_id) {
            Some(subscription_cache) => subscription_cache,
            None => CachedSubscription {
                cached_content_id: None,
                subscription_info,
                answered: false,
                yang_ctx: None,
                buffered_packets: Vec::new(),
            },
        };
        subscription_cache.buffered_packets.push(message);
        let ghost next = subscription_cache@;
        peer_cache.put(subscription_id, subscription_cache);
        peer_cache.total_buffered = peer_cache.total_buffered + 1;
        self.stats.buffered_packets = peer_cache.total_buffered as u64;
        let ghost next_peer = peer_cache@;
        self.peer_cache.put(ip, peer_cache);
        proof {
            assert(next_peer.subscriptions =~= peer.subscriptions.insert(subscription_id, next));
            assert(self@.peers =~= state.peers.insert(ip, next_peer));
        }
        Ok(())
    }

    /// Decides what is to be done about a packet, given the result of decoding
    /// its payload.
    pub fn decide(
        &mut self,
        message: &UdpNotifRequest,
        decoded: &Result<DecodedNotification, ()>,
    ) -> (step: NextStep)
        requires
            consistent(old(self)@),
        ensures
            consistent(final(self)@),
            (step@, final(self)@) == decided(old(self)@, *message, *decoded),
    {
        let ghost state = self@;
        proof {
            lemma_decided_consistent(state, *message, *decoded);
        }
        let decoded = match decoded {
            Ok(decoded) => decoded,
            Err(_) => {
                self.stats.messages_decoding_fail = count(self.stats.messages_decoding_fail);
                return NextStep::Drop;
            },
        };
        self.stats.messages_decoding_success = count(self.stats.messages_decoding_success);
        proof {
            lemma_consistent_frame(state, self@);
        }
        match self.get_subscription_info(message, decoded) {
            Some((subscription_info, Some(_))) => {
                let cached = self.peer_cache.get_subscription(
                    message.peer.ip,
                    subscription_info.id,
                );
                if let Some(cached) = cached {
                    if !cached.answered {
                        return NextStep::Wait(subscription_info);
                    }
                    if let Some(content_id) = &cached.cached_content_id {
                        if cached.yang_ctx.is_some() && !subscription_info.is_empty() {
                            let content_id = content_id.clone();
                            return NextStep::Validate { subscription_info, content_id };
                        }
                    }
                }
                self.stats.validation_skip = count(self.stats.validation_skip);
                NextStep::Skip(subscription_info)
            },
            Some((subscription_info, None)) => {
                self.stats.cache_request_by_subscription_info =
                count(self.stats.cache_request_by_subscription_info);
                NextStep::Lookup(CacheLookupCommand::LookupBySubscriptionInfo(subscription_info))
            },
            None => {
                match &decoded.contents {
                    Some(NotificationVariant::Other { subscription_id }) => {
                        self.stats.cache_request_by_subscription_id =
                        count(self.stats.cache_request_by_subscription_id);
                        NextStep::Lookup(
                            CacheLookupCommand::LookupBySubscriptionId {
                                collector: message.collector,
                                interface: copy_opt(&message.interface),
                                peer: message.peer,
                                subscription_id: *subscription_id,
                            },
                        )
                    },
                    // A subscription-started/modified that reached here failed to
                    // build SubscriptionInfo (e.g. missing module version). It will
                    // fail identically every time, so buffering it and re-fetching
                    // would loop forever. Drop it permanently.
                    Some(_) => {
                        self.stats.validation_malformed = count(self.stats.validation_malformed);
                        NextStep::Drop
                    },
                    None => {
                        self.stats.validation_invalid = count(self.stats.validation_invalid);
                        NextStep::Drop
                    },
                }
            },
        }
    }

    /// Takes up the result of validating a payload: an invalid one is dropped.
    pub fn finish_validation(
        &mut self,
        subscription_info: SubscriptionInfo,
        content_id: String,
        valid: bool,
    ) -> (r: Processed)
        requires
            consistent(old(self)@),
        ensures
            consistent(final(self)@),
            final(self)@ == validated(old(self)@, valid),
            if valid {
                r == (Processed::Forward { content_id: Some(content_id), subscription_info })
            } else {
                r is Dropped
            },
    {
        let ghost state = self@;
        if !valid {
            self.stats.validation_invalid = count(self.stats.validation_invalid);
        } else {
            self.stats.validation_success = count(self.stats.validation_success);
        }
        proof {
            lemma_consistent_frame(state, self@);
        }
        if !valid {
            Processed::Dropped
        } else {
            Processed::Forward { content_id: Some(content_id), subscription_info }
        }
    }

    /// Core per-packet handler, called for every incoming UDP-Notif message and
    /// for every packet drained from the per-subscription buffer once schemas
    /// arrive. `decoded` is the result of decoding the payload. `validate` tells
    /// whether the payload of a packet is valid for the given schemas; it is also
    /// told whether the payload is of the legacy kind.
    pub fn process_udp_notif_msg<F: FnOnce(&UdpNotifPacket, &C, bool) -> bool>(
        &mut self,
        message: Arc<UdpNotifRequest>,
        decoded: &Result<DecodedNotification, ()>,
        validate: F,
    ) -> (r: Processed)
        requires
            consistent(old(self)@),
            forall|packet: &UdpNotifPacket, yang_ctx: &C, is_legacy: bool| #[trigger]
                call_requires(validate, (packet, yang_ctx, is_legacy)),
        ensures
            consistent(final(self)@),
            ({
                let (decision, state) = decided(old(self)@, *message, *decoded);
                match decision {
                    Decision::Drop => r is Dropped && final(self)@ == state,
                    Decision::LookupByInfo(_) | Decision::LookupById { .. } => {
                        &&& r matches Processed::Lookup { command, message: packet }
                            && NextStep::Lookup(command)@ == decision && packet == message
                        &&& final(self)@ == state
                    },
                    Decision::Wait(info) => {
                        &&& r matches Processed::Waiting(waits) && waits == buffered(
                            state,
                            info,
                            message,
                        ).0
                        &&& final(self)@ == buffered(state, info, message).1
                    },
                    Decision::Skip(info) => {
                        &&& r matches Processed::Forward { content_id, subscription_info }
                            && content_id is None && subscription_info@ == info
                        &&& final(self)@ == state
                    },
                    Decision::Validate { info, content_id } => exists|valid: bool|
                        {
                            &&& #[trigger] call_ensures(
                                validate,
                                (
                                    &message.packet,
                                    &schemas_for(state, *message, info),
                                    decoded->Ok_0.is_legacy,
                                ),
                                valid,
                            )
                            &&& final(self)@ == validated(state, valid)
                            &&& if valid {
                                r matches Processed::Forward { content_id: id, subscription_info }
                                    && opt_text(id) == Some(content_id) && subscription_info@
                                    == info
                            } else {
                                r is Dropped
                            }
                        },
                }
            }),
    {
        match self.decide(&message, decoded) {
            NextStep::Drop => Processed::Dropped,
            NextStep::Lookup(command) => Processed::Lookup { command, message },
            NextStep::Wait(subscription_info) => Processed::Waiting(
                self.buffer_packet(subscription_info, message),
            ),
            NextStep::Skip(subscription_info) => Processed::Forward {
                content_id: None,
                subscription_info,
            },
            NextStep::Validate { subscription_info, content_id } => {
                let is_legacy = match decoded {
                    Ok(decoded) => decoded.is_legacy,
                    Err(_) => false,
                };
                let valid = match self.peer_cache.get_subscription(
                    message.peer.ip,
                    subscription_info.id,
                ) {
                    Some(cached) => match &cached.yang_ctx {
                        Some(yang_ctx) => validate(&message.packet, yang_ctx, is_legacy),
                        None => {
                            // Validation is only decided on with schemas.
                            assert(false);
                            false
                        },
                    },
                    None => {
                        assert(false);
                        false
                    },
                };
                self.finish_validation(subscription_info, content_id, valid)
            },
        }
    }

    /// The request for a packet was sent to the cache, or could not be. Where it
    /// was, the packet waits for the answer, or is dropped because there is no
    /// room to wait.
    pub fn lookup_sent(
        &mut self,
        command: CacheLookupCommand,
        message: Arc<UdpNotifRequest>,
        sent: bool,
    ) -> (r: Result<Result<(), BufferFull>, ValidationActorError>)
        requires
            consistent(old(self)@),
        ensures
            consistent(final(self)@),
            r == (if sent {
                Ok(buffered(old(self)@, requested_info(command), message).0)
            } else {
                Err(ValidationActorError::CacheLookupSendError)
            }),
            final(self)@ == (if sent {
                buffered(old(self)@, requested_info(command), message).1
            } else {
                old(self)@
            }),
    {
        if !sent {
            return Err(ValidationActorError::CacheLookupSendError);
        }
        let subscription_info = match command {
            CacheLookupCommand::LookupBySubscriptionInfo(subscription_info) => subscription_info,
            CacheLookupCommand::LookupBySubscriptionId {
                collector,
                interface,
                peer,
                subscription_id,
            } => SubscriptionInfo::new_empty(collector, interface, peer, subscription_id),
        };
        Ok(self.buffer_packet(subscription_info, message))
    }

    /// The decoded packet was sent on, or could not be.
    pub fn message_sent(&mut self, sent: bool) -> (r: Result<(), ValidationActorError>)
        requires
            consistent(old(self)@),
        ensures
            consistent(final(self)@),
            r == (if sent {
                Ok(())
            } else {
                Err(ValidationActorError::SendError)
            }),
            final(self)@ == (if sent {
                ActorState {
                    stats: ValidationStats {
                        messages_sent: counted(old(self)@.stats.messages_sent),
                        ..old(self)@.stats
                    },
                    ..old(self)@
                }
            } else {
                old(self)@
            }),
    {
        if !sent {
            return Err(ValidationActorError::SendError);
        }
        let ghost state = self@;
        self.stats.messages_sent = count(self.stats.messages_sent);
        proof {
            lemma_consistent_frame(state, self@);
        }
        Ok(())
    }

    /// Whether an answer for this subscription is of use. Schemas need not be
    /// loaded for one that is not.
    pub fn awaits_response(&self, subscription_info: &SubscriptionInfo) -> (r: bool)
        ensures
            r == (cached_subscription(
                self@,
                subscription_info@.peer.ip,
                subscription_info@.id,
            ) is Some),
    {
        self.peer_cache.get_subscription(
            subscription_info.peer.ip,
            subscription_info.id,
        ).is_some()
    }

    /// Takes up the answer of the cache for a subscription: its schemas are used
    /// from now on, and its buffered packets are queued for processing.
    pub fn process_cache_response(
        &mut self,
        cached_content_id: Option<String>,
        subscription_info: SubscriptionInfo,
        schemas: Schemas<C>,
    ) -> (r: Result<(), ValidationActorError>)
        requires
            consistent(old(self)@),
        ensures
            r is Ok,
            consistent(final(self)@),
            final(self)@ == answered(
                old(self)@,
                opt_text(cached_content_id),
                subscription_info@,
                schemas,
            ),
    {
        let ghost state = self@;
        let ghost content_id = opt_text(cached_content_id);
        let ghost info = subscription_info@;
        proof {
            lemma_answered_consistent(state, content_id, info, schemas);
        }
        let ip = subscription_info.peer.ip;
        let id: u32 = subscription_info.id;
        if self.peer_cache.get_subscription(ip, id).is_none() {
            return Ok(());
        }
        let mut peer_cache = match self.peer_cache.take(ip) {
            Some(peer_cache) => peer_cache,
            None => {
                assert(false);
                return Ok(());
            },
        };
        let ghost peer = peer_cache@;
        assert(consistent_peer(state, peer));
        let subscription_cache = match peer_cache.take(id) {
            Some(subscription_cache) => subscription_cache,
            None => {
                assert(false);
                return Ok(());
            },
        };
        proof {
            lemma_waiting_remove(peer.subscriptions, id);
        }
        let (cached_content_id, yang_ctx) = match schemas {
            Schemas::Loaded(yang_ctx) => {
                self.stats.cache_yang_ctx_created = count(self.stats.cache_yang_ctx_created);
                (cached_content_id, Some(yang_ctx))
            },
            Schemas::Invalid => {
                self.stats.cache_yang_ctx_invalid = count(self.stats.cache_yang_ctx_invalid);
                (cached_content_id, None)
            },
            Schemas::Unavailable => {
                self.stats.cache_yang_ctx_empty = count(self.stats.cache_yang_ctx_empty);
                (None, None)
            },
        };
        let buffered_packets = subscription_cache.buffered_packets;
        let ghost waited = buffered_packets@;
        let drained: usize = buffered_packets.len();
        let next = CachedSubscription {
            cached_content_id,
            subscription_info,
            answered: true,
            yang_ctx,
            buffered_packets: Vec::new(),
        };
        let ghost next_state = next@;
        assert(next_state.buffered =~= Seq::empty());
        peer_cache.put(id, next);
        peer_cache.total_buffered = peer_cache.total_buffered - drained;
        self.stats.buffered_packets = peer_cache.total_buffered as u64;
        let ghost next_peer = peer_cache@;
        self.peer_cache.put(ip, peer_cache);
        proof {
            assert(next_peer.subscriptions =~= peer.subscriptions.insert(id, next_state));
            assert(self@.peers =~= state.peers.insert(ip, next_peer));
        }
        let ghost ready = self@;
        for message in iter: buffered_packets
            invariant
                iter.seq() == waited,
                self@.pending =~= state.pending + waited.take(iter.index()),
                self@ == (ActorState {
                    pending: self@.pending,
                    stats: ValidationStats {
                        buffer_drain: counted_times(
                            ready.stats.buffer_drain,
                            iter.index() as nat,
                        ),
                        ..ready.stats
                    },
                    ..ready
                }),
        {
            let ghost queued = self@.pending;
            self.pending_packets.push_back(message);
            self.stats.buffer_drain = count(self.stats.buffer_drain);
            assert(self@.pending =~= queued.push(message));
            assert(waited.take(iter.index() + 1) =~= waited.take(iter.index()).push(message));
        }
        assert(waited.take(waited.len() as int) =~= waited);
        Ok(())
    }

    /// Whether there is a packet whose schemas arrived.
    pub fn has_pending(&self) -> (r: bool)
        ensures
            r == (self@.pending.len() > 0),
    {
        self.pending_packets.len() > 0
    }

    /// The next packet whose schemas arrived.
    pub fn next_pending(&mut self) -> (message: Option<Arc<UdpNotifRequest>>)
        requires
            consistent(old(self)@),
        ensures
            consistent(final(self)@),
            match message {
                Some(message) => {
                    &&& old(self)@.pending.len() > 0
                    &&& message == old(self)@.pending[0]
                    &&& final(self)@ == (ActorState {
                        pending: old(self)@.pending.skip(1),
                        ..old(self)@
                    })
                },
                None => old(self)@.pending.len() == 0 && final(self)@ == old(self)@,
            },
    {
        let ghost state = self@;
        let message = self.pending_packets.pop_front();
        assert(state.pending.len() > 0 ==> self@.pending =~= state.pending.skip(1));
        assert(state.pending.len() == 0 ==> self@.pending =~= state.pending);
        proof {
            lemma_consistent_frame(state, self@);
        }
        message
    }

    /// Where the next work is to be taken from, given which of the channels hold
    /// something or are closed.
    pub fn next_source(&self, command: bool, response: bool, input: bool) -> (source: Option<
        Source,
    >)
        ensures
            source == served(command, response, self@.pending.len() > 0, input),
    {
        if command {
            Some(Source::Command)
        } else if response {
            Some(Source::CacheResponse)
        } else if self.has_pending() {
            Some(Source::Pending)
        } else if input {
            Some(Source::Input)
        } else {
            None
        }
    }

    /// Counts a packet that came in from the network.
    pub fn message_received(&mut self)
        requires
            consistent(old(self)@),
        ensures
            consistent(final(self)@),
            final(self)@ == (ActorState {
                stats: ValidationStats {
                    messages_received: counted(old(self)@.stats.messages_received),
                    ..old(self)@.stats
                },
                ..old(self)@
            }),
    {
        let ghost state = self@;
        self.stats.messages_received = count(self.stats.messages_received);
        proof {
            lemma_consistent_frame(state, self@);
        }
    }
}

/// The subscription that a packet waits for, once its lookup was requested.
pub open spec fn requested_info(command: CacheLookupCommand) -> InfoModel {
    match command {
        CacheLookupCommand::LookupBySubscriptionInfo(info) => info@,
        CacheLookupCommand::LookupBySubscriptionId {
            collector,
            interface,
            peer,
            subscription_id,
        } => empty_info(collector, opt_text(interface), peer, subscription_id),
    }
}

/// The schemas that the packets of the subscription `info` are validated against.
pub open spec fn schemas_for<C>(state: ActorState<C>, message: UdpNotifRequest, info: InfoModel) ->
    C {
    state.peers[message.peer.ip].subscriptions[info.id].yang_ctx->0
}

/// The text of an optional content id that may itself be missing.
pub open spec fn opt_opt_text(text: Option<Option<String>>) -> Option<Option<Seq<char>>> {
    match text {
        Some(text) => Some(opt_text(text)),
        None => None,
    }
}

/// The state once a payload was found valid or not.
pub open spec fn validated<C>(state: ActorState<C>, valid: bool) -> ActorState<C> {
    ActorState {
        stats: if valid {
            ValidationStats {
                validation_success: counted(state.stats.validation_success),
                ..state.stats
            }
        } else {
            ValidationStats {
                validation_invalid: counted(state.stats.validation_invalid),
                ..state.stats
            }
        },
        ..state
    }
}

} // verus!
