//! Subscriptions to YANG data, and the notifications that announce them.
use crate::text::{copy_opt, opt_text, same_opt};
use vstd::prelude::*;

verus! {

/// An address of a host.
#[derive(Debug, Clone, Copy, PartialEq, Eq, Structural)]
pub enum IpAddr {
    V4(u32),
    V6(u128),
}

/// An address of a socket. The flow label and the scope are zero where the host
/// has an IPv4 address.
#[derive(Debug, Clone, Copy, PartialEq, Eq, Structural)]
pub struct SocketAddr {
    pub ip: IpAddr,
    pub port: u16,
    pub flowinfo: u32,
    pub scope_id: u32,
}

/// A YANG module that a subscription uses.
#[derive(Debug)]
pub struct YangPushModuleVersion {
    pub name: String,
    pub revision: Option<String>,
    pub version: Option<String>,
}

/// The contents of a [`YangPushModuleVersion`].
pub struct ModuleModel {
    pub name: Seq<char>,
    pub revision: Option<Seq<char>>,
    pub version: Option<Seq<char>>,
}

impl View for YangPushModuleVersion {
    type V = ModuleModel;

    open spec fn view(&self) -> ModuleModel {
        ModuleModel {
            name: self.name@,
            revision: opt_text(self.revision),
            version: opt_text(self.version),
        }
    }
}

/// The contents of a list of modules.
pub open spec fn modules_model(modules: Seq<YangPushModuleVersion>) -> Seq<ModuleModel> {
    modules.map_values(|module: YangPushModuleVersion| module@)
}

impl YangPushModuleVersion {
    fn same(&self, other: &Self) -> (r: bool)
        ensures
            r == (self@ == other@),
    {
        self.name == other.name && same_opt(&self.revision, &other.revision) && same_opt(
            &self.version,
            &other.version,
        )
    }

    fn copy(&self) -> (copy: Self)
        ensures
            copy@ == self@,
    {
        YangPushModuleVersion {
            name: self.name.clone(),
            revision: copy_opt(&self.revision),
            version: copy_opt(&self.version),
        }
    }
}

fn same_modules(left: &Vec<YangPushModuleVersion>, right: &Vec<YangPushModuleVersion>) -> (r: bool)
    ensures
        r == (modules_model(left@) == modules_model(right@)),
{
    if left.len() != right.len() {
        assert(modules_model(left@).len() != modules_model(right@).len());
        return false;
    }
    let mut i: usize = 0;
    while i < left.len()
        invariant
            i <= left@.len(),
            left@.len() == right@.len(),
            forall|j: int| 0 <= j < i ==> #[trigger] left@[j]@ == right@[j]@,
        decreases left@.len() - i,
    {
        if !left[i].same(&right[i]) {
            assert(modules_model(left@)[i as int] != modules_model(right@)[i as int]);
            return false;
        }
        i += 1;
    }
    assert(modules_model(left@) =~= modules_model(right@));
    true
}

fn copy_modules(modules: &Vec<YangPushModuleVersion>) -> (copy: Vec<YangPushModuleVersion>)
    ensures
        modules_model(copy@) == modules_model(modules@),
{
    let mut copy: Vec<YangPushModuleVersion> = Vec::new();
    let mut i: usize = 0;
    while i < modules.len()
        invariant
            i <= modules@.len(),
            copy@.len() == i,
            forall|j: int| 0 <= j < i ==> #[trigger] copy@[j]@ == modules@[j]@,
        decreases modules@.len() - i,
    {
        copy.push(modules[i].copy());
        i += 1;
    }
    assert(modules_model(copy@) =~= modules_model(modules@));
    copy
}

/// What the collector knows about a subscription. Parts that it only compares
/// and reports are kept as text.
#[derive(Debug)]
pub struct SubscriptionInfo {
    pub collector: SocketAddr,
    pub interface: Option<String>,
    pub peer: SocketAddr,
    pub id: u32,
    pub target: String,
    pub stop_time: Option<String>,
    pub transport: Option<String>,
    pub encoding: Option<String>,
    pub purpose: Option<String>,
    pub update_trigger: Option<String>,
    pub modules: Vec<YangPushModuleVersion>,
    pub content_id: String,
}

/// The contents of a [`SubscriptionInfo`].
pub struct InfoModel {
    pub collector: SocketAddr,
    pub interface: Option<Seq<char>>,
    pub peer: SocketAddr,
    pub id: u32,
    pub target: Seq<char>,
    pub stop_time: Option<Seq<char>>,
    pub transport: Option<Seq<char>>,
    pub encoding: Option<Seq<char>>,
    pub purpose: Option<Seq<char>>,
    pub update_trigger: Option<Seq<char>>,
    pub modules: Seq<ModuleModel>,
    pub content_id: Seq<char>,
}

impl View for SubscriptionInfo {
    type V = InfoModel;

    open spec fn view(&self) -> InfoModel {
        InfoModel {
            collector: self.collector,
            interface: opt_text(self.interface),
            peer: self.peer,
            id: self.id,
            target: self.target@,
            stop_time: opt_text(self.stop_time),
            transport: opt_text(self.transport),
            encoding: opt_text(self.encoding),
            purpose: opt_text(self.purpose),
            update_trigger: opt_text(self.update_trigger),
            modules: modules_model(self.modules@),
            content_id: self.content_id@,
        }
    }
}

/// A subscription of which only the identifiers are known.
pub open spec fn empty_info(
    collector: SocketAddr,
    interface: Option<Seq<char>>,
    peer: SocketAddr,
    id: u32,
) -> InfoModel {
    InfoModel {
        collector,
        interface,
        peer,
        id,
        target: Seq::empty(),
        stop_time: None,
        transport: None,
        encoding: None,
        purpose: None,
        update_trigger: None,
        modules: Seq::empty(),
        content_id: "EMPTY"@,
    }
}

impl SubscriptionInfo {
    /// A subscription of which only the identifiers are known.
    pub fn new_empty(
        collector: SocketAddr,
        interface: Option<String>,
        peer: SocketAddr,
        id: u32,
    ) -> (info: Self)
        ensures
            info@ == empty_info(collector, opt_text(interface), peer, id),
    {
        let info = SubscriptionInfo {
            collector,
            interface,
            peer,
            id,
            target: String::new(),
            stop_time: None,
            transport: None,
            encoding: None,
            purpose: None,
            update_trigger: None,
            modules: Vec::new(),
            content_id: "EMPTY".to_owned(),
        };
        assert(info@.modules =~= Seq::empty());
        assert(info@.target =~= Seq::empty());
        info
    }

    /// Whether only the identifiers of the subscription are known.
    pub fn is_empty(&self) -> (r: bool)
        ensures
            r == (self@.content_id == "EMPTY"@),
    {
        self.content_id == "EMPTY".to_owned()
    }

    /// Whether two subscriptions are the same in every part.
    pub fn same(&self, other: &Self) -> (r: bool)
        ensures
            r == (self@ == other@),
    {
        self.collector == other.collector && same_opt(&self.interface, &other.interface)
            && self.peer == other.peer && self.id == other.id && self.target == other.target
            && same_opt(&self.stop_time, &other.stop_time) && same_opt(
            &self.transport,
            &other.transport,
        ) && same_opt(&self.encoding, &other.encoding) && same_opt(&self.purpose, &other.purpose)
            && same_opt(&self.update_trigger, &other.update_trigger) && same_modules(
            &self.modules,
            &other.modules,
        ) && self.content_id == other.content_id
    }

    /// A copy of the subscription.
    pub fn copy(&self) -> (copy: Self)
        ensures
            copy@ == self@,
    {
        SubscriptionInfo {
            collector: self.collector,
            interface: copy_opt(&self.interface),
            peer: self.peer,
            id: self.id,
            target: self.target.clone(),
            stop_time: copy_opt(&self.stop_time),
            transport: copy_opt(&self.transport),
            encoding: copy_opt(&self.encoding),
            purpose: copy_opt(&self.purpose),
            update_trigger: copy_opt(&self.update_trigger),
            modules: copy_modules(&self.modules),
            content_id: self.content_id.clone(),
        }
    }
}

/// What a subscription-started or subscription-modified notification says.
#[derive(Debug)]
pub struct SubscriptionStartedModified {
    pub id: u32,
    pub target: String,
    pub stop_time: Option<String>,
    pub transport: Option<String>,
    pub encoding: Option<String>,
    pub purpose: Option<String>,
    pub update_trigger: Option<String>,
    pub module_version: Option<Vec<YangPushModuleVersion>>,
    pub yang_library_content_id: Option<String>,
}

/// The module that the notifications about subscriptions themselves come from.
pub open spec fn subscribed_notifications() -> ModuleModel {
    ModuleModel { name: "ietf-subscribed-notifications"@, revision: None, version: None }
}

/// The subscription that a notification announces, if it lists its modules. The
/// module of the notification itself is added to them.
pub open spec fn announced_info(
    peer: SocketAddr,
    collector: SocketAddr,
    interface: Option<Seq<char>>,
    started: SubscriptionStartedModified,
) -> Option<InfoModel> {
    match started.module_version {
        None => None,
        Some(modules) => Some(
            InfoModel {
                collector,
                interface,
                peer,
                id: started.id,
                target: started.target@,
                stop_time: opt_text(started.stop_time),
                transport: opt_text(started.transport),
                encoding: opt_text(started.encoding),
                purpose: opt_text(started.purpose),
                update_trigger: opt_text(started.update_trigger),
                modules: modules_model(modules@).push(subscribed_notifications()),
                content_id: match started.yang_library_content_id {
                    Some(content_id) => content_id@,
                    None => Seq::empty(),
                },
            },
        ),
    }
}

/// The subscription that a notification announces, or `None` where it does not
/// list its modules.
pub fn build_subscription_info(
    peer: SocketAddr,
    collector: SocketAddr,
    interface: Option<String>,
    sub_started: &SubscriptionStartedModified,
) -> (r: Option<SubscriptionInfo>)
    ensures
        match announced_info(peer, collector, opt_text(interface), *sub_started) {
            Some(info) => r matches Some(result) && result@ == info,
            None => r is None,
        },
{
    let mut modules = match &sub_started.module_version {
        Some(modules) => copy_modules(modules),
        None => {
            return None;
        },
    };
    let ghost listed = modules@;
    modules.push(
        YangPushModuleVersion {
            name: "ietf-subscribed-notifications".to_owned(),
            revision: None,
            version: None,
        },
    );
    assert(modules_model(modules@) =~= modules_model(listed).push(subscribed_notifications()));
    let content_id = match &sub_started.yang_library_content_id {
        Some(content_id) => content_id.clone(),
        None => String::new(),
    };
    assert(sub_started.yang_library_content_id is None ==> content_id@ =~= Seq::empty());
    Some(
        SubscriptionInfo {
            collector,
            interface,
            peer,
            id: sub_started.id,
            target: sub_started.target.clone(),
            stop_time: copy_opt(&sub_started.stop_time),
            transport: copy_opt(&sub_started.transport),
            encoding: copy_opt(&sub_started.encoding),
            purpose: copy_opt(&sub_started.purpose),
            update_trigger: copy_opt(&sub_started.update_trigger),
            modules,
            content_id,
        },
    )
}

} // verus!
