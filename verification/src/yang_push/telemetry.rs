//! The attributes that telemetry about YANG-Push messages carries.
use crate::udp_notif::wire::UdpNotifPacket;
use crate::yang_push::state::BufferFull;
use crate::yang_push::subscription::{InfoModel, IpAddr, SocketAddr, SubscriptionInfo};
use vstd::prelude::*;

verus! {

/// What an attribute is about.
#[derive(Debug, Clone, Copy, PartialEq, Eq, Structural)]
pub enum TagKey {
    /// `network.peer.address`
    PeerAddress,
    /// `network.peer.port`
    PeerPort,
    PublisherId,
    SubscriptionId,
    SubscriptionTarget,
    RouterContentId,
    DecodeError,
    CacheDropReason,
}

/// The value of an attribute.
#[derive(Debug)]
pub enum TagValue {
    Address(IpAddr),
    Int(i64),
    Text(String),
    Drop(BufferFull),
}

/// The contents of a value.
pub enum ValueModel {
    Address(IpAddr),
    Int(int),
    Text(Seq<char>),
    Drop(BufferFull),
}

/// An attribute.
#[derive(Debug)]
pub struct Tag {
    pub key: TagKey,
    pub value: TagValue,
}

/// The contents of an attribute.
pub struct TagModel {
    pub key: TagKey,
    pub value: ValueModel,
}

impl View for Tag {
    type V = TagModel;

    open spec fn view(&self) -> TagModel {
        TagModel {
            key: self.key,
            value: match self.value {
                TagValue::Address(ip) => ValueModel::Address(ip),
                TagValue::Int(n) => ValueModel::Int(n as int),
                TagValue::Text(text) => ValueModel::Text(text@),
                TagValue::Drop(reason) => ValueModel::Drop(reason),
            },
        }
    }
}

/// The contents of a list of attributes.
pub open spec fn tags_model(tags: Seq<Tag>) -> Seq<TagModel> {
    tags.map_values(|tag: Tag| tag@)
}

/// The attributes of a peer and a publisher.
pub open spec fn peer_tags(peer: SocketAddr, publisher_id: u32) -> Seq<TagModel> {
    seq![
        TagModel { key: TagKey::PeerAddress, value: ValueModel::Address(peer.ip) },
        TagModel { key: TagKey::PeerPort, value: ValueModel::Int(peer.port as int) },
        TagModel { key: TagKey::PublisherId, value: ValueModel::Int(publisher_id as int) },
    ]
}

/// The attributes of a subscription.
pub open spec fn subscription_tags(info: InfoModel) -> Seq<TagModel> {
    seq![
        TagModel { key: TagKey::SubscriptionId, value: ValueModel::Int(info.id as int) },
        TagModel { key: TagKey::SubscriptionTarget, value: ValueModel::Text(info.target) },
        TagModel { key: TagKey::RouterContentId, value: ValueModel::Text(info.content_id) },
    ]
}

/// The attributes of the peer and the publisher of a packet.
pub fn peer_tags_from_packet(peer: SocketAddr, packet: &UdpNotifPacket) -> (tags: Vec<Tag>)
    ensures
        tags_model(tags@) == peer_tags(peer, packet@.publisher_id),
{
    let mut tags: Vec<Tag> = Vec::new();
    tags.push(Tag { key: TagKey::PeerAddress, value: TagValue::Address(peer.ip) });
    tags.push(Tag { key: TagKey::PeerPort, value: TagValue::Int(peer.port as i64) });
    tags.push(
        Tag { key: TagKey::PublisherId, value: TagValue::Int(packet.publisher_id() as i64) },
    );
    assert(tags_model(tags@) =~= peer_tags(peer, packet@.publisher_id));
    tags
}

/// Adds the attributes of a subscription.
pub fn extend_peer_targs_with_subscription_info(
    subscription_info: &SubscriptionInfo,
    peer_tags: &mut Vec<Tag>,
)
    ensures
        tags_model(final(peer_tags)@) == tags_model(old(peer_tags)@) + subscription_tags(
            subscription_info@,
        ),
{
    peer_tags.push(
        Tag { key: TagKey::SubscriptionId, value: TagValue::Int(subscription_info.id as i64) },
    );
    peer_tags.push(
        Tag {
            key: TagKey::SubscriptionTarget,
            value: TagValue::Text(subscription_info.target.clone()),
        },
    );
    peer_tags.push(
        Tag {
            key: TagKey::RouterContentId,
            value: TagValue::Text(subscription_info.content_id.clone()),
        },
    );
    assert(tags_model(peer_tags@) =~= tags_model(old(peer_tags)@) + subscription_tags(
        subscription_info@,
    ));
}

/// The attributes of the peer and the subscription that the cache answers for.
pub open spec fn answer_tags(info: InfoModel) -> Seq<TagModel> {
    seq![
        TagModel { key: TagKey::PeerAddress, value: ValueModel::Address(info.peer.ip) },
        TagModel { key: TagKey::PeerPort, value: ValueModel::Int(info.peer.port as int) },
    ] + subscription_tags(info)
}

/// The attributes of the peer and the subscription that the cache answers for.
pub fn cache_response_tags(subscription_info: &SubscriptionInfo) -> (tags: Vec<Tag>)
    ensures
        tags_model(tags@) == answer_tags(subscription_info@),
{
    let peer = subscription_info.peer;
    let mut tags: Vec<Tag> = Vec::new();
    tags.push(Tag { key: TagKey::PeerAddress, value: TagValue::Address(peer.ip) });
    tags.push(Tag { key: TagKey::PeerPort, value: TagValue::Int(peer.port as i64) });
    assert(tags_model(tags@) =~= seq![
        TagModel { key: TagKey::PeerAddress, value: ValueModel::Address(peer.ip) },
        TagModel { key: TagKey::PeerPort, value: ValueModel::Int(peer.port as int) },
    ]);
    extend_peer_targs_with_subscription_info(subscription_info, &mut tags);
    tags
}

/// The attributes of a subscription and its peer, or none where the subscription
/// is not known.
pub open spec fn lookup_tags(info: Option<InfoModel>) -> Seq<TagModel> {
    match info {
        Some(info) => seq![
            TagModel { key: TagKey::PeerAddress, value: ValueModel::Address(info.peer.ip) },
        ] + subscription_tags(info),
        None => Seq::empty(),
    }
}

/// Build tags (peer address + subscription context) for schema lookup metrics,
/// when subscription info is available
pub fn subscription_info_tags(subscription_info: Option<&SubscriptionInfo>) -> (tags: Vec<Tag>)
    ensures
        tags_model(tags@) == lookup_tags(
            match subscription_info {
                Some(info) => Some(info@),
                None => None,
            },
        ),
{
    let mut tags: Vec<Tag> = Vec::new();
    assert(tags_model(tags@) =~= Seq::empty());
    if let Some(subscription_info) = subscription_info {
        tags.push(
            Tag { key: TagKey::PeerAddress, value: TagValue::Address(subscription_info.peer.ip) },
        );
        assert(tags_model(tags@) =~= seq![
            TagModel {
                key: TagKey::PeerAddress,
                value: ValueModel::Address(subscription_info@.peer.ip),
            },
        ]);
        extend_peer_targs_with_subscription_info(subscription_info, &mut tags);
    }
    tags
}

/// The attribute has this key and holds this number.
pub open spec fn tells_int(tag: Tag, key: TagKey, n: int) -> bool {
    tag.key == key && (tag.value matches TagValue::Int(value) && value == n)
}

/// The attribute has this key and holds this text.
pub open spec fn tells_text(tag: Tag, key: TagKey, text: Seq<char>) -> bool {
    tag.key == key && (tag.value matches TagValue::Text(value) && value@ == text)
}

/// The attribute has this key and holds this address.
pub open spec fn tells_address(tag: Tag, key: TagKey, ip: IpAddr) -> bool {
    tag.key == key && (tag.value matches TagValue::Address(value) && value == ip)
}

/// What the attributes of a packet tell: the address and the port of its peer and
/// its publisher.
pub proof fn lemma_packet_tags(peer: SocketAddr, packet: &UdpNotifPacket, tags: Vec<Tag>)
    requires
        call_ensures(peer_tags_from_packet, (peer, packet), tags),
    ensures
        tags@.len() == 3,
        tells_address(tags@[0], TagKey::PeerAddress, peer.ip),
        tells_int(tags@[1], TagKey::PeerPort, peer.port as int),
        tells_int(tags@[2], TagKey::PublisherId, packet@.publisher_id as int),
{
    let model = tags_model(tags@);
    assert(model.len() == 3);
    assert(model[0] == tags@[0]@ && model[1] == tags@[1]@ && model[2] == tags@[2]@);
}

/// What the attributes of an answer of the cache tell: the address and the port of
/// the peer, and the subscription.
pub proof fn lemma_answer_tags(info: &SubscriptionInfo, tags: Vec<Tag>)
    requires
        call_ensures(cache_response_tags, (info,), tags),
    ensures
        tags@.len() == 5,
        tells_address(tags@[0], TagKey::PeerAddress, info.peer.ip),
        tells_int(tags@[1], TagKey::PeerPort, info.peer.port as int),
        tells_int(tags@[2], TagKey::SubscriptionId, info.id as int),
        tells_text(tags@[3], TagKey::SubscriptionTarget, info.target@),
        tells_text(tags@[4], TagKey::RouterContentId, info.content_id@),
{
    let model = tags_model(tags@);
    assert(model.len() == 5);
    assert(model[0] == tags@[0]@ && model[1] == tags@[1]@ && model[2] == tags@[2]@ && model[3]
        == tags@[3]@ && model[4] == tags@[4]@);
}

/// What the attributes of a lookup tell: the address of the peer and the
/// subscription, or nothing where the subscription is not known.
pub proof fn lemma_lookup_tags(info: Option<&SubscriptionInfo>, tags: Vec<Tag>)
    requires
        call_ensures(subscription_info_tags, (info,), tags),
    ensures
        info is None ==> tags@.len() == 0,
        info matches Some(info) ==> {
            &&& tags@.len() == 4
            &&& tells_address(tags@[0], TagKey::PeerAddress, info.peer.ip)
            &&& tells_int(tags@[1], TagKey::SubscriptionId, info.id as int)
            &&& tells_text(tags@[2], TagKey::SubscriptionTarget, info.target@)
            &&& tells_text(tags@[3], TagKey::RouterContentId, info.content_id@)
        },
{
    let model = tags_model(tags@);
    assert(model.len() == tags@.len());
    if info is Some {
        assert(model.len() == 4);
        assert(model[0] == tags@[0]@ && model[1] == tags@[1]@ && model[2] == tags@[2]@ && model[3]
            == tags@[3]@);
    }
}

/// The attributes of a subscription: its id, its target and its content id.
pub proof fn lemma_subscription_tags(info: InfoModel)
    ensures
        subscription_tags(info).len() == 3,
        subscription_tags(info)[0] == (TagModel {
            key: TagKey::SubscriptionId,
            value: ValueModel::Int(info.id as int),
        }),
        subscription_tags(info)[1] == (TagModel {
            key: TagKey::SubscriptionTarget,
            value: ValueModel::Text(info.target),
        }),
        subscription_tags(info)[2] == (TagModel {
            key: TagKey::RouterContentId,
            value: ValueModel::Text(info.content_id),
        }),
{
}

/// The attributes of a subscription are added behind those that are there.
pub proof fn lemma_tags_extended(info: &SubscriptionInfo, tags: &mut Vec<Tag>)
    requires
        call_ensures(extend_peer_targs_with_subscription_info, (info, tags), ()),
    ensures
        ({
            let before = old(tags)@.len() as int;
            let after = final(tags)@;
            &&& after.len() == before + 3
            &&& forall|i: int| 0 <= i < before ==> #[trigger] after[i]@ == old(tags)@[i]@
            &&& tells_int(after[before], TagKey::SubscriptionId, info.id as int)
            &&& tells_text(after[before + 1], TagKey::SubscriptionTarget, info.target@)
            &&& tells_text(after[before + 2], TagKey::RouterContentId, info.content_id@)
        }),
{
    let before = old(tags)@.len() as int;
    let model = tags_model(final(tags)@);
    assert(model.len() == before + 3);
    assert(final(tags)@.len() == model.len());
    assert forall|i: int| 0 <= i < model.len() implies #[trigger] model[i] == final(tags)@[i]@ by {}
    assert forall|i: int| 0 <= i < before implies #[trigger] final(tags)@[i]@ == old(tags)@[i]@ by {
        assert(model[i] == tags_model(old(tags)@)[i]);
    }
    assert(model[before] == subscription_tags(info@)[0]);
    assert(model[before + 1] == subscription_tags(info@)[1]);
    assert(model[before + 2] == subscription_tags(info@)[2]);
}

} // verus!
