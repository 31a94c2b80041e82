//! What the runtime wants to hear of.
use vstd::prelude::*;
use super::effects::{EffectModel, RuntimeEffect};
use super::store::{FanoutGoal, GroupPendingFanout, RuntimeState, StateModel};
use crate::collections::{lists, ordered, push_item, views, VecSet};
use crate::ids::{DevicePubkey, OwnerPubkey};
use crate::invite::domain::{Filter, FilterModel};
use crate::session_manager::listed_owners;
use crate::session_manager::queries::{
    all_sessions, listed_devices, listed_senders, senders, trusts,
};
use crate::session_manager::ManagerModel;
use crate::types::{
    APP_KEYS_EVENT_KIND, INVITE_EVENT_KIND, INVITE_RESPONSE_KIND, MESSAGE_EVENT_KIND,
};

verus! {

pub const PROTOCOL_SUBID: &'static str = "ndr-runtime-protocol";

pub const MESSAGE_SUBID: &'static str = "ndr-runtime-messages";

/// A filter for events of a kind by some authors.
pub open spec fn by_authors(kind: u32, authors: Seq<DevicePubkey>) -> FilterModel {
    FilterModel {
        kinds: seq![kind as u16],
        authors,
        pubkeys: Seq::empty(),
        labels: Seq::empty(),
    }
}

/// A filter for events of a kind that mention a key.
pub open spec fn to_key(kind: u32, key: DevicePubkey) -> FilterModel {
    FilterModel {
        kinds: seq![kind as u16],
        authors: Seq::empty(),
        pubkeys: seq![key],
        labels: Seq::empty(),
    }
}

fn filter_by_authors(kind: u32, authors: Vec<DevicePubkey>) -> (r: Filter)
    requires
        kind <= u16::MAX,
    ensures
        r@ == by_authors(kind, authors@),
{
    let mut kinds: Vec<u16> = Vec::new();
    kinds.push(kind as u16);
    let r = Filter { kinds, authors, pubkeys: Vec::new(), labels: Vec::new() };
    assert(r@ =~= by_authors(kind, authors@));
    r
}

fn filter_to_key(kind: u32, key: DevicePubkey) -> (r: Filter)
    requires
        kind <= u16::MAX,
    ensures
        r@ == to_key(kind, key),
{
    let mut kinds: Vec<u16> = Vec::new();
    kinds.push(kind as u16);
    let mut pubkeys: Vec<DevicePubkey> = Vec::new();
    pubkeys.push(key);
    let r = Filter { kinds, authors: Vec::new(), pubkeys, labels: Vec::new() };
    assert(r@ =~= to_key(kind, key));
    r
}

// ---------------------------------------------------------------------------
// Owners and devices
// ---------------------------------------------------------------------------

/// Whether something waits for an owner to become reachable.
pub open spec fn awaited(m: StateModel, owner: OwnerPubkey) -> bool {
    ||| exists|i: int| 0 <= i < m.outbound.len() && (#[trigger] m.outbound[i]).recipient == owner
    ||| exists|i: int| 0 <= i < m.fanouts.len() && meant_for((#[trigger] m.fanouts[i]).goal, owner)
}

pub open spec fn meant_for(goal: FanoutGoal, owner: OwnerPubkey) -> bool {
    goal matches FanoutGoal::Remote(recipient, _) && recipient == owner
}

/// The owners whose device lists matter: the own one, those that are known,
/// those that were asked for, and those for whom something waits.
pub open spec fn protocol_owners(m: StateModel, own: OwnerPubkey) -> Set<OwnerPubkey> {
    Set::new(
        |owner: OwnerPubkey|
            owner == own || m.core.users.contains_key(owner) || m.watched.contains(owner)
                || awaited(m, owner),
    )
}

/// The devices of some owners that their rosters list.
pub open spec fn protocol_devices(m: ManagerModel, owners: Set<OwnerPubkey>) -> Set<DevicePubkey> {
    Set::new(|device: DevicePubkey| has_owner(m, owners, device))
}

pub open spec fn has_owner(m: ManagerModel, owners: Set<OwnerPubkey>, device: DevicePubkey) -> bool {
    exists|owner: OwnerPubkey| owners.contains(owner) && #[trigger] trusts(m, owner, device)
}

pub open spec fn as_devices(owners: Seq<OwnerPubkey>) -> Seq<DevicePubkey> {
    Seq::new(owners.len(), |i: int| owners[i].device())
}

/// What is asked of relays so that sessions can be made: device lists of all
/// owners that matter, invites of their devices, and responses to the own
/// invite.
pub open spec fn protocol_filters(m: StateModel, own: OwnerPubkey) -> Seq<FilterModel> {
    let owners = protocol_owners(m, own);
    let devices = ordered::<DevicePubkey>(protocol_devices(m.core, owners));
    let lists = seq![by_authors(APP_KEYS_EVENT_KIND, as_devices(ordered::<OwnerPubkey>(owners)))];
    let invites = if devices.len() == 0 {
        Seq::empty()
    } else {
        seq![by_authors(INVITE_EVENT_KIND, devices)]
    };
    let responses = match m.core.local_invite {
        Some(invite) => seq![to_key(INVITE_RESPONSE_KIND, invite.ephemeral_key)],
        None => Seq::empty(),
    };
    lists + invites + responses
}

pub open spec fn refresh(m: StateModel, own: OwnerPubkey) -> EffectModel {
    EffectModel::Subscribe { subid: PROTOCOL_SUBID@, filters: protocol_filters(m, own) }
}

/// The senders whose messages are expected.
pub open spec fn message_authors(m: ManagerModel) -> Seq<DevicePubkey> {
    ordered::<DevicePubkey>(senders(all_sessions(m)))
}

/// To whose messages to listen, and what is to be done about it, where one
/// listens to some already.
pub open spec fn synced(current: Option<Seq<DevicePubkey>>, next: Seq<DevicePubkey>) -> (
    Option<Seq<DevicePubkey>>,
    Seq<EffectModel>,
) {
    if current == Some(next) {
        (current, Seq::empty())
    } else {
        let gone = if current is Some {
            seq![EffectModel::Unsubscribe(MESSAGE_SUBID@)]
        } else {
            Seq::empty()
        };
        if next.len() == 0 {
            (None, gone)
        } else {
            (
                Some(next),
                gone.push(
                    EffectModel::Subscribe {
                        subid: MESSAGE_SUBID@,
                        filters: seq![by_authors(MESSAGE_EVENT_KIND, next)],
                    },
                ),
            )
        }
    }
}

pub open spec fn authors_of(current: Option<Vec<DevicePubkey>>) -> Option<Seq<DevicePubkey>> {
    match current {
        Some(authors) => Some(authors@),
        None => None,
    }
}

fn same_devices(a: &Vec<DevicePubkey>, b: &Vec<DevicePubkey>) -> (r: bool)
    ensures
        r == (a@ == b@),
{
    if a.len() != b.len() {
        return false;
    }
    let mut i: usize = 0;
    while i < a.len()
        invariant
            i <= a@.len(),
            a@.len() == b@.len(),
            forall|j: int| 0 <= j < i ==> a@[j] == b@[j],
        decreases a@.len() - i,
    {
        if a[i] != b[i] {
            return false;
        }
        i = i + 1;
    }
    assert(a@ =~= b@);
    true
}

/// Listens to the messages of some senders, and to no others.
pub fn sync_authors(current: &mut Option<Vec<DevicePubkey>>, next: Vec<DevicePubkey>) -> (r: Vec<
    RuntimeEffect,
>)
    ensures
        authors_of(*final(current)) == synced(authors_of(*old(current)), next@).0,
        views(r@) == synced(authors_of(*old(current)), next@).1,
{
    let ghost all = synced(authors_of(*current), next@).1;
    let mut effects: Vec<RuntimeEffect> = Vec::new();
    assert(views(effects@) =~= Seq::empty());
    if let Some(authors) = current {
        if same_devices(authors, &next) {
            return effects;
        }
        push_item(&mut effects, RuntimeEffect::Unsubscribe(MESSAGE_SUBID.to_string()));
    }
    if next.len() == 0 {
        *current = None;
        assert(views(effects@) =~= all);
        return effects;
    }
    let authors: Vec<DevicePubkey> = vstd::slice::slice_to_vec(next.as_slice());
    let mut filters: Vec<Filter> = Vec::new();
    filters.push(filter_by_authors(MESSAGE_EVENT_KIND, authors));
    assert(views(filters@) =~= seq![by_authors(MESSAGE_EVENT_KIND, next@)]);
    push_item(
        &mut effects,
        RuntimeEffect::Subscribe { subid: MESSAGE_SUBID.to_string(), filters },
    );
    *current = Some(next);
    assert(views(effects@) =~= all);
    effects
}

impl RuntimeState {
    /// The owners whose device lists matter.
    pub fn protocol_owner_pubkeys(&self, own: OwnerPubkey) -> (r: VecSet<OwnerPubkey>)
        ensures
            r@ == protocol_owners(self@, own),
    {
        let mut owners: VecSet<OwnerPubkey> = self.tracked_owner_pubkeys.clone();
        owners.insert(own);
        let known = self.core.owners();
        let ghost start = owners@;
        let mut i: usize = 0;
        while i < known.len()
            invariant
                i <= known@.len(),
                forall|k: OwnerPubkey| #[trigger]
                    owners@.contains(k) <==> start.contains(k) || exists|j: int|
                        0 <= j < i && known@[j] == k,
            decreases known@.len() - i,
        {
            owners.insert(known[i]);
            i = i + 1;
        }
        let ghost start = owners@;
        let mut i: usize = 0;
        while i < self.pending_outbound.len()
            invariant
                i <= self.pending_outbound@.len(),
                forall|k: OwnerPubkey| #[trigger]
                    owners@.contains(k) <==> start.contains(k) || exists|j: int|
                        0 <= j < i && (#[trigger] self@.outbound[j]).recipient == k,
            decreases self.pending_outbound@.len() - i,
        {
            let ghost prior = owners@;
            owners.insert(self.pending_outbound[i].recipient_owner);
            assert(self@.outbound[i as int].recipient == self.pending_outbound@[i as int].recipient_owner);
            i = i + 1;
        }
        let ghost start2 = owners@;
        let mut i: usize = 0;
        while i < self.pending_group_fanouts.len()
            invariant
                i <= self.pending_group_fanouts@.len(),
                forall|k: OwnerPubkey| #[trigger]
                    owners@.contains(k) <==> start2.contains(k) || exists|j: int|
                        0 <= j < i && meant_for((#[trigger] self@.fanouts[j]).goal, k),
            decreases self.pending_group_fanouts@.len() - i,
        {
            let ghost prior = owners@;
            assert(self@.fanouts[i as int] == self.pending_group_fanouts@[i as int]@);
            match &self.pending_group_fanouts[i].fanout {
                GroupPendingFanout::Remote { recipient_owner, .. } => {
                    owners.insert(*recipient_owner);
                    assert(meant_for(self@.fanouts[i as int].goal, *recipient_owner));
                },
                GroupPendingFanout::LocalSiblings { .. } => {},
            }
            i = i + 1;
        }
        assert forall|k: OwnerPubkey| #[trigger] owners@.contains(k) <==> protocol_owners(
            self@,
            own,
        ).contains(k) by {
            if self@.core.users.contains_key(k) {
                assert(self@.core.users.dom().contains(k));
                assert(known@.contains(k));
            }
        }
        assert(owners@ =~= protocol_owners(self@, own));
        owners
    }

    /// The devices of some owners that their rosters list, in the order of
    /// their keys.
    pub fn known_device_identity_pubkeys_for_owners(&self, owners: &Vec<OwnerPubkey>) -> (r: Vec<
        DevicePubkey,
    >)
        ensures
            r@ == ordered::<DevicePubkey>(protocol_devices(self@.core, owners@.to_set())),
    {
        let mut devices: VecSet<DevicePubkey> = VecSet::new();
        let mut i: usize = 0;
        while i < owners.len()
            invariant
                i <= owners@.len(),
                forall|d: DevicePubkey| #[trigger]
                    devices@.contains(d) <==> exists|j: int|
                        0 <= j < i && #[trigger] trusts(self@.core, owners@[j], d),
            decreases owners@.len() - i,
        {
            self.core.collect_trusted_devices(owners[i], &mut devices);
            i = i + 1;
        }
        assert forall|d: DevicePubkey| #[trigger] devices@.contains(d) <==> protocol_devices(
            self@.core,
            owners@.to_set(),
        ).contains(d) by {
            if devices@.contains(d) {
                let j = choose|j: int|
                    0 <= j < owners@.len() && #[trigger] trusts(self@.core, owners@[j], d);
                assert(owners@.to_set().contains(owners@[j]));
            }
            if has_owner(self@.core, owners@.to_set(), d) {
                let owner = choose|owner: OwnerPubkey|
                    owners@.to_set().contains(owner) && #[trigger] trusts(self@.core, owner, d);
                let j = choose|j: int| 0 <= j < owners@.len() && owners@[j] == owner;
                assert(trusts(self@.core, owners@[j], d));
            }
        }
        assert(devices@ =~= protocol_devices(self@.core, owners@.to_set()));
        listed_devices(&devices)
    }

    /// Asks relays for what sessions are made of.
    pub fn push_protocol_subscription(&self, own: OwnerPubkey, effects: &mut Vec<RuntimeEffect>)
        ensures
            views(final(effects)@) == views(old(effects)@).push(refresh(self@, own)),
    {
        let set = self.protocol_owner_pubkeys(own);
        let owners = listed_owners(&set);
        let ghost n = set@;
        let _ = set.len();
        assert(owners@.to_set() =~= set@) by {
            assert forall|k: OwnerPubkey| #[trigger] owners@.to_set().contains(k)
                <==> set@.contains(k) by {}
        }
        let mut authors: Vec<DevicePubkey> = Vec::new();
        let mut i: usize = 0;
        while i < owners.len()
            invariant
                i <= owners@.len(),
                authors@ == as_devices(owners@).take(i as int),
            decreases owners@.len() - i,
        {
            authors.push(owners[i].as_device());
            assert(authors@ =~= as_devices(owners@).take(i + 1));
            i = i + 1;
        }
        assert(authors@ =~= as_devices(owners@));
        let mut filters: Vec<Filter> = Vec::new();
        filters.push(filter_by_authors(APP_KEYS_EVENT_KIND, authors));
        let devices = self.known_device_identity_pubkeys_for_owners(&owners);
        if devices.len() > 0 {
            filters.push(filter_by_authors(INVITE_EVENT_KIND, devices));
        }
        if let Some(invite) = self.core.local_invite() {
            filters.push(filter_to_key(INVITE_RESPONSE_KIND, invite.inviter_ephemeral_public_key));
        }
        assert(views(filters@) =~= protocol_filters(self@, own));
        push_item(
            effects,
            RuntimeEffect::Subscribe { subid: PROTOCOL_SUBID.to_string(), filters },
        );
    }

    /// The senders whose messages are expected, in the order of their keys.
    pub fn message_authors(&self) -> (r: Vec<DevicePubkey>)
        ensures
            r@ == message_authors(self@.core),
    {
        listed_senders(&self.core.sessions())
    }
}

/// Asking twice changes nothing: where one listens to the right senders,
/// nothing is to be done.
pub proof fn syncing_twice_is_once(current: Option<Seq<DevicePubkey>>, next: Seq<DevicePubkey>)
    ensures
        synced(synced(current, next).0, next) == (synced(current, next).0, Seq::<EffectModel>::empty()),
        synced(current, next).0 == (if next.len() == 0 && current != Some(next) {
            None
        } else {
            Some(next)
        }),
{
}

/// Whoever something waits for is listened to.
pub proof fn awaited_owners_are_heard(m: StateModel, own: OwnerPubkey, owner: OwnerPubkey)
    requires
        awaited(m, owner),
        protocol_owners(m, own).finite(),
    ensures
        protocol_filters(m, own)[0].authors.contains(owner.device()),
{
    let owners = protocol_owners(m, own);
    crate::collections::ordered_lists::<OwnerPubkey>(owners);
    let order = ordered::<OwnerPubkey>(owners);
    assert(owners.contains(owner));
    assert(order.contains(owner));
    let i = choose|i: int| 0 <= i < order.len() && order[i] == owner;
    assert(as_devices(order)[i] == owner.device());
    assert(protocol_filters(m, own)[0] == by_authors(APP_KEYS_EVENT_KIND, as_devices(order)));
}

} // verus!
