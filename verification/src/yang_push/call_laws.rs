//! What the calls of the validation of notifications give and change.
use crate::text::{counted, opt_text};
use crate::udp_notif::wire::UdpNotifPacket;
use crate::yang_push::state::{
    announced, answered, buffered, cached_subscription, decided, BufferFull, Decision,
    DecodedNotification, NotificationVariant, Schemas, UdpNotifRequest, ValidationStats,
};
use crate::yang_push::subscription::{
    announced_info, build_subscription_info, IpAddr, SocketAddr, SubscriptionInfo,
    SubscriptionStartedModified,
};
use crate::yang_push::transition_laws::{
    announcement, lemma_announced_fields, lemma_buffer_limits, lemma_fresh_actor,
    lemma_packet_buffered, only_counted, same_limits,
};
use crate::yang_push::validation::{
    requested_info, stop_after, CacheLookupCommand, NextStep, Processed, RunEvent, Source,
    ValidationActor, ValidationActorError,
};
use std::sync::Arc;
use vstd::prelude::*;

verus! {

/// A new actor has its limits, knows nobody and has nothing queued or counted.
pub proof fn lemma_new_actor<C>(
    per_peer: usize,
    per_subscription: usize,
    actor: ValidationActor<C>,
)
    requires
        call_ensures(ValidationActor::<C>::new, (per_peer, per_subscription), actor),
    ensures
        actor@.max_per_peer == per_peer,
        actor@.max_per_subscription == per_subscription,
        actor@.peers.dom().is_empty(),
        actor@.pending.len() == 0,
        actor@.stats.messages_received == 0,
        actor@.stats.messages_sent == 0,
        actor@.stats.buffer_drop == 0,
{
    lemma_fresh_actor::<C>(per_peer as nat, per_subscription as nat);
}

/// What `decide` tells and changes is what is decided.
pub proof fn lemma_decide<C>(
    actor: &mut ValidationActor<C>,
    message: &UdpNotifRequest,
    decoded: &Result<DecodedNotification, ()>,
    step: NextStep,
)
    requires
        call_ensures(ValidationActor::<C>::decide, (actor, message, decoded), step),
    ensures
        step@ == decided(old(actor)@, *message, *decoded).0,
        final(actor)@ == decided(old(actor)@, *message, *decoded).1,
{
}

/// What becomes of a packet: it is dropped, looked up, made to wait, forwarded or
/// validated as was decided. What is validated is this packet, against the schemas
/// of its subscription and with its own legacy flag, and it is forwarded exactly
/// where it is valid.
pub proof fn lemma_packet_processed<C, F: FnOnce(&UdpNotifPacket, &C, bool) -> bool>(
    actor: &mut ValidationActor<C>,
    message: Arc<UdpNotifRequest>,
    decoded: &Result<DecodedNotification, ()>,
    validate: F,
    r: Processed,
)
    requires
        call_ensures(
            ValidationActor::<C>::process_udp_notif_msg::<F>,
            (actor, message, decoded, validate),
            r,
        ),
    ensures
        match decided(old(actor)@, *message, *decoded).0 {
            Decision::Drop => r is Dropped,
            Decision::LookupByInfo(info) => r matches Processed::Lookup {
                command: CacheLookupCommand::LookupBySubscriptionInfo(asked),
                message: packet,
            } && asked@ == info && packet == message,
            Decision::LookupById { collector, interface, peer, id } => r matches Processed::Lookup {
                command: CacheLookupCommand::LookupBySubscriptionId {
                    collector: c,
                    interface: i,
                    peer: p,
                    subscription_id,
                },
                message: packet,
            } && c == collector && opt_text(i) == interface && p == peer && subscription_id == id
                && packet == message,
            Decision::Wait(info) => r == Processed::Waiting(
                buffered(decided(old(actor)@, *message, *decoded).1, info, message).0,
            ),
            Decision::Skip(info) => r matches Processed::Forward { content_id, subscription_info }
                && content_id is None && subscription_info@ == info,
            Decision::Validate { info, content_id } => {
                let state = decided(old(actor)@, *message, *decoded).1;
                exists|valid: bool|
                {
                    &&& #[trigger] call_ensures(
                        validate,
                        (
                            &message.packet,
                            &state.peers[message.peer.ip].subscriptions[info.id].yang_ctx->0,
                            decoded->Ok_0.is_legacy,
                        ),
                        valid,
                    )
                    &&& !valid ==> r is Dropped
                    &&& valid ==> (r matches Processed::Forward { content_id: id, subscription_info }
                        && opt_text(id) == Some(content_id) && subscription_info@ == info)
                    &&& final(actor)@.peers == state.peers
                    &&& final(actor)@.pending == state.pending
                    &&& final(actor)@.stats.validation_success == (if valid {
                        counted(state.stats.validation_success)
                    } else {
                        state.stats.validation_success
                    })
                    &&& final(actor)@.stats.validation_invalid == (if valid {
                        state.stats.validation_invalid
                    } else {
                        counted(state.stats.validation_invalid)
                    })
                }
            },
        },
        match decided(old(actor)@, *message, *decoded).0 {
            Decision::Wait(info) => final(actor)@ == buffered(
                decided(old(actor)@, *message, *decoded).1,
                info,
                message,
            ).1,
            Decision::Validate { .. } => true,
            _ => final(actor)@ == decided(old(actor)@, *message, *decoded).1,
        },
{
}

/// A packet is buffered exactly where neither its subscription nor its peer has as
/// many packets waiting as allowed. Then it waits behind the others; otherwise
/// nothing but a counter changes.
pub proof fn lemma_buffer_packet<C>(
    actor: &mut ValidationActor<C>,
    info: SubscriptionInfo,
    message: Arc<UdpNotifRequest>,
    r: Result<(), BufferFull>,
)
    requires
        call_ensures(ValidationActor::<C>::buffer_packet, (actor, info, message), r),
    ensures
        ({
            let state = old(actor)@;
            let after = final(actor)@;
            let ip = message.peer.ip;
            let waits = match cached_subscription(state, ip, info.id) {
                Some(subscription) => subscription.buffered,
                None => Seq::empty(),
            };
            let total = if state.peers.contains_key(ip) {
                state.peers[ip].total_buffered
            } else {
                0
            };
            &&& r is Ok <==> waits.len() < state.max_per_subscription && total < state.max_per_peer
            &&& r is Err ==> only_counted(state, after) && after.stats == (ValidationStats {
                buffer_drop: counted(state.stats.buffer_drop),
                ..state.stats
            })
            &&& r is Ok ==> {
                &&& cached_subscription(after, ip, info.id) matches Some(subscription)
                    && subscription.buffered == waits.push(message)
                &&& after.peers[ip].total_buffered == total + 1
                &&& after.pending == state.pending
                &&& same_limits(state, after)
            }
        }),
{
    lemma_buffer_limits(old(actor)@, info@, message);
    if r is Ok {
        lemma_packet_buffered(old(actor)@, info@, message);
        assert(Seq::<Arc<UdpNotifRequest>>::empty().push(message) =~= seq![message]);
    }
}

/// A lookup that was sent makes its packet wait; one that was not is an error and
/// changes nothing.
pub proof fn lemma_lookup_sent<C>(
    actor: &mut ValidationActor<C>,
    command: CacheLookupCommand,
    message: Arc<UdpNotifRequest>,
    sent: bool,
    r: Result<Result<(), BufferFull>, ValidationActorError>,
)
    requires
        call_ensures(ValidationActor::<C>::lookup_sent, (actor, command, message, sent), r),
    ensures
        !sent ==> r == Err::<Result<(), BufferFull>, _>(ValidationActorError::CacheLookupSendError)
            && final(actor)@ == old(actor)@,
        sent ==> r is Ok,
        sent ==> {
            let (waits, after) = buffered(old(actor)@, requested_info(command), message);
            r == Ok::<_, ValidationActorError>(waits) && final(actor)@ == after
        },
{
}

/// An answer is always taken up: it changes nothing where its subscription is not
/// cached, and otherwise queues the packets that waited.
pub proof fn lemma_cache_response<C>(
    actor: &mut ValidationActor<C>,
    content_id: Option<String>,
    info: SubscriptionInfo,
    schemas: Schemas<C>,
    r: Result<(), ValidationActorError>,
)
    requires
        call_ensures(
            ValidationActor::<C>::process_cache_response,
            (actor, content_id, info, schemas),
            r,
        ),
    ensures
        r is Ok,
        final(actor)@ == answered(old(actor)@, opt_text(content_id), info@, schemas),
        cached_subscription(old(actor)@, info.peer.ip, info.id) is None ==> final(actor)@
            == old(actor)@,
        cached_subscription(old(actor)@, info.peer.ip, info.id) matches Some(subscription)
            ==> final(actor)@.pending == old(actor)@.pending + subscription.buffered,
{
}

/// Whether an answer is awaited.
pub proof fn lemma_awaits_response<C>(actor: &ValidationActor<C>, info: &SubscriptionInfo, r: bool)
    requires
        call_ensures(ValidationActor::<C>::awaits_response, (actor, info), r),
    ensures
        r <==> actor@.peers.contains_key(info.peer.ip)
            && actor@.peers[info.peer.ip].subscriptions.contains_key(info.id),
{
}

/// The packets that are queued come out one by one, the first of them first.
pub proof fn lemma_next_pending<C>(
    actor: &mut ValidationActor<C>,
    message: Option<Arc<UdpNotifRequest>>,
)
    requires
        call_ensures(ValidationActor::<C>::next_pending, (actor,), message),
    ensures
        message is Some <==> old(actor)@.pending.len() > 0,
        message matches Some(message) ==> message == old(actor)@.pending[0] && final(actor)@.pending
            == old(actor)@.pending.skip(1),
        message is None ==> final(actor)@.pending == old(actor)@.pending,
        final(actor)@.peers == old(actor)@.peers,
        final(actor)@.stats == old(actor)@.stats,
        same_limits(old(actor)@, final(actor)@),
{
}

/// Whether packets are queued, and which source is served next.
pub proof fn lemma_next_source<C>(
    actor: &ValidationActor<C>,
    command: bool,
    response: bool,
    input: bool,
    queued: bool,
    source: Option<Source>,
)
    requires
        call_ensures(ValidationActor::<C>::has_pending, (actor,), queued),
        call_ensures(ValidationActor::<C>::next_source, (actor, command, response, input), source),
    ensures
        queued <==> actor@.pending.len() > 0,
        source == Some(Source::Command) <==> command,
        source == Some(Source::CacheResponse) <==> !command && response,
        source == Some(Source::Pending) <==> !command && !response && queued,
        source == Some(Source::Input) <==> !command && !response && !queued && input,
        source is None <==> !command && !response && !queued && !input,
{
}

/// A packet that came in is counted, and nothing else changes.
pub proof fn lemma_message_received<C>(actor: &mut ValidationActor<C>)
    requires
        call_ensures(ValidationActor::<C>::message_received, (actor,), ()),
    ensures
        only_counted(old(actor)@, final(actor)@),
        final(actor)@.stats == (ValidationStats {
            messages_received: counted(old(actor)@.stats.messages_received),
            ..old(actor)@.stats
        }),
{
}

/// A packet that was sent on is counted; one that could not be is an error.
pub proof fn lemma_message_sent<C>(
    actor: &mut ValidationActor<C>,
    sent: bool,
    r: Result<(), ValidationActorError>,
)
    requires
        call_ensures(ValidationActor::<C>::message_sent, (actor, sent), r),
    ensures
        only_counted(old(actor)@, final(actor)@),
        r is Ok <==> sent,
        !sent ==> r == Err::<(), _>(ValidationActorError::SendError) && final(actor)@
            == old(actor)@,
        sent ==> final(actor)@.stats == (ValidationStats {
            messages_sent: counted(old(actor)@.stats.messages_sent),
            ..old(actor)@.stats
        }),
{
}

/// A payload that is valid is forwarded with its content id and subscription, any
/// other is dropped, and either is counted.
pub proof fn lemma_finish_validation<C>(
    actor: &mut ValidationActor<C>,
    info: SubscriptionInfo,
    content_id: String,
    valid: bool,
    r: Processed,
)
    requires
        call_ensures(
            ValidationActor::<C>::finish_validation,
            (actor, info, content_id, valid),
            r,
        ),
    ensures
        only_counted(old(actor)@, final(actor)@),
        valid ==> (r matches Processed::Forward { content_id: id, subscription_info } && id == Some(
            content_id,
        ) && subscription_info == info),
        !valid ==> r is Dropped,
        final(actor)@.stats == (ValidationStats {
            validation_success: if valid {
                counted(old(actor)@.stats.validation_success)
            } else {
                old(actor)@.stats.validation_success
            },
            validation_invalid: if valid {
                old(actor)@.stats.validation_invalid
            } else {
                counted(old(actor)@.stats.validation_invalid)
            },
            ..old(actor)@.stats
        }),
{
}

/// A subscription is built from an announcement exactly where it lists its modules.
pub proof fn lemma_subscription_built(
    peer: SocketAddr,
    collector: SocketAddr,
    interface: Option<String>,
    started: &SubscriptionStartedModified,
    r: Option<SubscriptionInfo>,
)
    requires
        call_ensures(build_subscription_info, (peer, collector, interface, started), r),
    ensures
        r is Some <==> started.module_version is Some,
        r matches Some(info) ==> {
            &&& info.peer == peer
            &&& info.collector == collector
            &&& opt_text(info.interface) == opt_text(interface)
            &&& info.id == started.id
            &&& info.target@ == started.target@
            &&& info.modules@.len() == started.module_version->0@.len() + 1
            &&& started.yang_library_content_id matches Some(id) ==> info.content_id@ == id@
        },
{
    lemma_announced_fields(peer, collector, opt_text(interface), *started);
    if r is Some {
        assert(r->0@.modules.len() == r->0.modules@.len());
    }
}

/// Two subscriptions are the same, a copy is the same, and one of which only the
/// identifiers are known is told from the others, all by their contents.
pub proof fn lemma_subscription_calls(
    info: &SubscriptionInfo,
    other: &SubscriptionInfo,
    same: bool,
    copy: SubscriptionInfo,
    empty: bool,
)
    requires
        call_ensures(SubscriptionInfo::same, (info, other), same),
        call_ensures(SubscriptionInfo::copy, (info,), copy),
        call_ensures(SubscriptionInfo::is_empty, (info,), empty),
    ensures
        same <==> info@ == other@,
        copy@ == info@,
        empty <==> info.content_id@ == "EMPTY"@,
{
}

/// The loop ends after a command, a closed channel or an error, and goes on after
/// everything else.
pub proof fn lemma_stop_after(event: RunEvent, words: Option<String>)
    requires
        call_ensures(stop_after, (event,), words),
    ensures
        words is None <==> match event {
            RunEvent::CacheResponse(r) => r is Ok,
            RunEvent::Pending(r) => r is Ok,
            RunEvent::Input(r) => r is Ok,
            _ => false,
        },
        event matches RunEvent::Command(Some(_)) ==> (words matches Some(text) && text@
            == "Enrichment shutdown successfully"@),
        event matches RunEvent::Command(None) ==> (words matches Some(text) && text@
            == "Yang Push validation actor terminated due to command channel closing"@),
        event matches RunEvent::CacheResponse(Err(_)) ==> (words matches Some(text) && text@
            == "Yang Push validation actor cache response processing unrecoverable error, shutting down"@),
        event is CacheClosed ==> (words matches Some(text) && text@
            == "Yang Push validation actor cache receiver channel closed unexpectedly, shutting down"@),
        event matches RunEvent::Pending(Err(_)) ==> (words matches Some(text) && text@
            == "Yang Push validation actor cached packet processing unrecoverable error, shutting down"@),
        event matches RunEvent::Input(Err(_)) ==> (words matches Some(text) && text@
            == "Yang Push validation actor UDP-Notif processing unrecoverable error, shutting down"@),
        event is InputClosed ==> (words matches Some(text) && text@
            == "Yang Push validation actor UDP Notif receiver channel closed unexpectedly, shutting down"@),
{
}

/// Which subscription a notification announces or belongs to, and under which content
/// id its schemas are cached.
pub proof fn lemma_subscription_of_notification<C>(
    actor: &mut ValidationActor<C>,
    message: &UdpNotifRequest,
    decoded: &DecodedNotification,
    r: Option<(SubscriptionInfo, Option<Option<String>>)>,
)
    requires
        call_ensures(ValidationActor::<C>::get_subscription_info, (actor, message, decoded), r),
    ensures
        ({
            let ip = message.peer.ip;
            match decoded.contents {
                None => r is None && final(actor)@ == old(actor)@,
                Some(NotificationVariant::Other { subscription_id }) => {
                    &&& final(actor)@ == old(actor)@
                    &&& match cached_subscription(old(actor)@, ip, subscription_id) {
                        None => r is None,
                        Some(cached) => r matches Some((info, Some(content_id))) && info@
                            == cached.info && opt_text(content_id) == cached.content_id,
                    }
                },
                Some(contents) => {
                    let started = announcement(contents)->0;
                    let announced_as = announced_info(
                        message.peer,
                        message.collector,
                        opt_text(message.interface),
                        started,
                    );
                    match announced_as {
                        None => r is None && final(actor)@ == old(actor)@,
                        Some(said) => {
                            &&& final(actor)@ == announced(old(actor)@, ip, said)
                            &&& r matches Some((info, content_id)) && info@ == said && (
                            match cached_subscription(old(actor)@, ip, said.id) {
                                Some(cached) => if cached.info == said {
                                    content_id matches Some(id) && opt_text(id) == cached.content_id
                                } else {
                                    content_id is None
                                },
                                None => content_id is None,
                            })
                        },
                    }
                },
            }
        }),
{
    if let Some(contents) = decoded.contents {
        if let Some(started) = announcement(contents) {
            if let Some(said) = announced_info(
                message.peer,
                message.collector,
                opt_text(message.interface),
                started,
            ) {
                let ip = message.peer.ip;
                if cached_subscription(old(actor)@, ip, said.id) is Some {
                    assert(old(actor)@.peers[ip].subscriptions.dom().contains(said.id));
                }
            }
        }
    }
}

/// A subscription that is announced with other contents than those that are cached is
/// gone; with the same contents, and of a peer that is not known, nothing changes.
pub proof fn lemma_subscription_checked<C>(
    actor: &mut ValidationActor<C>,
    peer: SocketAddr,
    info: &SubscriptionInfo,
)
    requires
        call_ensures(ValidationActor::<C>::check_subscription_new, (actor, peer, info), ()),
    ensures
        final(actor)@.pending == old(actor)@.pending,
        final(actor)@.stats == old(actor)@.stats,
        same_limits(old(actor)@, final(actor)@),
        match cached_subscription(old(actor)@, peer.ip, info.id) {
            Some(cached) => cached_subscription(final(actor)@, peer.ip, info.id) == (
            if cached.info == info@ {
                Some(cached)
            } else {
                None
            }),
            None => cached_subscription(final(actor)@, peer.ip, info.id) is None,
        },
        forall|ip: IpAddr, id: u32|
            (ip != peer.ip || id != info.id) ==> #[trigger] cached_subscription(
                final(actor)@,
                ip,
                id,
            ) == cached_subscription(old(actor)@, ip, id),
        !final(actor)@.peers.contains_key(peer.ip)
            || !final(actor)@.peers[peer.ip].subscriptions.dom().is_empty(),
{
    let state = old(actor)@;
    let ip = peer.ip;
    if state.peers.contains_key(ip) {
        let subscriptions = state.peers[ip].subscriptions;
        assert forall|k: IpAddr, id: u32|
            (k != ip || id != info.id) implies #[trigger] cached_subscription(final(actor)@, k, id)
            == cached_subscription(state, k, id) by {
            if k == ip && subscriptions.contains_key(id) {
                assert(subscriptions.dom().contains(id));
                assert(subscriptions.remove(info.id).dom().contains(id));
            }
        }
        if subscriptions.contains_key(info.id) {
            assert(subscriptions.dom().contains(info.id));
        }
    }
}

/// A subscription of which only the identifiers are known has those, and nothing else.
pub proof fn lemma_empty_subscription(
    collector: SocketAddr,
    interface: Option<String>,
    peer: SocketAddr,
    id: u32,
    info: SubscriptionInfo,
)
    requires
        call_ensures(SubscriptionInfo::new_empty, (collector, interface, peer, id), info),
    ensures
        info.collector == collector,
        opt_text(info.interface) == opt_text(interface),
        info.peer == peer,
        info.id == id,
        info.content_id@ == "EMPTY"@,
        info.target@.len() == 0,
        info.modules@.len() == 0,
        info.purpose is None,
        info.stop_time is None,
        info.transport is None,
        info.encoding is None,
        info.update_trigger is None,
{
    assert(info@.modules.len() == info.modules@.len());
}

} // verus!
