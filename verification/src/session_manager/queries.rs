//! What a session manager can be asked: which sessions there are, to whom they
//! listen, and which owners and devices are known.
use vstd::prelude::*;
use super::{ManagerModel, SessionManager, UserModel};
use crate::collections::{lists, ordered, VecSet};
use crate::ids::{DevicePubkey, OwnerPubkey};
use crate::invite::Invite;
use crate::roster::{DeviceRoster, RosterModel};
use crate::session::domain::expects;
use crate::session::{SessionModel, SessionState};
use crate::shelf::ShelfModel;

verus! {

/// A session, and with whom it is.
#[derive(Debug)]
pub struct HeldSession {
    pub owner_pubkey: OwnerPubkey,
    pub device_pubkey: DevicePubkey,
    pub state: SessionState,
}

#[verifier::ext_equal]
pub struct HeldModel {
    pub owner: OwnerPubkey,
    pub device: DevicePubkey,
    pub state: SessionModel,
}

impl View for HeldSession {
    type V = HeldModel;

    open spec fn view(&self) -> HeldModel {
        HeldModel { owner: self.owner_pubkey, device: self.device_pubkey, state: self.state@ }
    }
}

pub open spec fn held_models(held: Seq<HeldSession>) -> Seq<HeldModel> {
    Seq::new(held.len(), |i: int| held[i]@)
}

/// Which sessions are asked for.
#[derive(Debug, Clone, Copy, PartialEq, Eq, Structural)]
pub enum Which {
    Active,
    All,
}

/// The sessions with a device: the active one first.
pub open spec fn device_sessions(
    owner: OwnerPubkey,
    device: DevicePubkey,
    shelf: ShelfModel,
    which: Which,
) -> Seq<HeldModel> {
    let active = match shelf.active {
        Some(state) => seq![HeldModel { owner, device, state }],
        None => Seq::empty(),
    };
    let inactive = Seq::new(
        shelf.inactive.len(),
        |i: int| HeldModel { owner, device, state: shelf.inactive[i] },
    );
    match which {
        Which::Active => active,
        Which::All => active + inactive,
    }
}

/// The sessions with some devices of an owner.
pub open spec fn user_sessions(
    owner: OwnerPubkey,
    user: UserModel,
    devices: Seq<DevicePubkey>,
    which: Which,
) -> Seq<HeldModel>
    decreases devices.len(),
{
    if devices.len() == 0 {
        Seq::empty()
    } else {
        user_sessions(owner, user, devices.drop_last(), which) + device_sessions(
            owner,
            devices.last(),
            user.devices[devices.last()].sessions,
            which,
        )
    }
}

/// The sessions with some owners.
pub open spec fn owner_sessions(
    m: ManagerModel,
    owners: Seq<OwnerPubkey>,
    which: Which,
) -> Seq<HeldModel>
    decreases owners.len(),
{
    if owners.len() == 0 {
        Seq::empty()
    } else {
        let owner = owners.last();
        let user = m.users[owner];
        owner_sessions(m, owners.drop_last(), which) + user_sessions(
            owner,
            user,
            ordered::<DevicePubkey>(user.devices.dom()),
            which,
        )
    }
}

/// All sessions, in the order of the owners' keys, then of the devices' keys.
pub open spec fn all_sessions(m: ManagerModel) -> Seq<HeldModel> {
    owner_sessions(m, ordered::<OwnerPubkey>(m.users.dom()), Which::All)
}

/// All sessions that are active, in the same order.
pub open spec fn active_sessions(m: ManagerModel) -> Seq<HeldModel> {
    owner_sessions(m, ordered::<OwnerPubkey>(m.users.dom()), Which::Active)
}

/// Whether one of some sessions listens to a sender.
pub open spec fn listened_to(held: Seq<HeldModel>, sender: DevicePubkey) -> bool {
    exists|i: int| 0 <= i < held.len() && expects((#[trigger] held[i]).state, sender)
}

/// Those to whom some sessions listen.
pub open spec fn senders(held: Seq<HeldModel>) -> Set<DevicePubkey> {
    Set::new(|sender: DevicePubkey| listened_to(held, sender))
}

/// The sessions with an owner, out of some.
pub open spec fn sessions_with(held: Seq<HeldModel>, owner: OwnerPubkey) -> Seq<HeldModel>
    decreases held.len(),
{
    if held.len() == 0 {
        Seq::empty()
    } else {
        let rest = sessions_with(held.drop_last(), owner);
        if held.last().owner == owner {
            rest.push(held.last())
        } else {
            rest
        }
    }
}

/// The owner of the first of some sessions that listens to a sender.
pub open spec fn first_owner(held: Seq<HeldModel>, sender: DevicePubkey) -> Option<OwnerPubkey>
    decreases held.len(),
{
    if held.len() == 0 {
        None
    } else {
        match first_owner(held.drop_last(), sender) {
            Some(owner) => Some(owner),
            None => if expects(held.last().state, sender) {
                Some(held.last().owner)
            } else {
                None
            },
        }
    }
}

/// The devices of an owner that its roster lists.
pub open spec fn trusted_devices(m: ManagerModel, owner: OwnerPubkey) -> Set<DevicePubkey> {
    Set::new(|device: DevicePubkey| trusts(m, owner, device))
}

pub open spec fn trusts(m: ManagerModel, owner: OwnerPubkey, device: DevicePubkey) -> bool {
    m.users.contains_key(owner) && m.users[owner].devices.contains_key(device)
        && m.users[owner].devices[device].authorized && !m.users[owner].devices[device].is_stale
}

/// The roster of an owner, if it is known.
pub open spec fn known_roster(m: ManagerModel, owner: OwnerPubkey) -> Option<RosterModel> {
    if m.users.contains_key(owner) {
        m.users[owner].roster
    } else {
        None
    }
}

/// Adds those to whom a session listens.
pub fn collect_expected_senders(state: &SessionState, out: &mut VecSet<DevicePubkey>)
    ensures
        forall|k: DevicePubkey| #[trigger]
            final(out)@.contains(k) <==> old(out)@.contains(k) || expects(state@, k),
{
    if let Some(current) = state.their_current_nostr_public_key {
        out.insert(current);
    }
    if let Some(next) = state.their_next_nostr_public_key {
        out.insert(next);
    }
    let ghost start = out@;
    let n: usize = state.skipped_keys.len();
    let ghost order = state.skipped_keys.order();
    let mut i: usize = 0;
    while i < n
        invariant
            i <= n,
            n == order.len(),
            order == state.skipped_keys.order(),
            forall|k: DevicePubkey| #[trigger]
                out@.contains(k) <==> start.contains(k) || order.take(i as int).contains(k),
        decreases n - i,
    {
        out.insert(*state.skipped_keys.key_at(i));
        assert(order.take(i + 1) =~= order.take(i as int).push(order[i as int]));
        assert forall|k: DevicePubkey| #[trigger] out@.contains(k) <==> start.contains(k)
            || order.take(i + 1).contains(k) by {
            let less = order.take(i as int);
            let more = order.take(i + 1);
            if less.contains(k) {
                let j = choose|j: int| 0 <= j < less.len() && less[j] == k;
                assert(more[j] == k);
            }
            assert(more[i as int] == order[i as int]);
            if more.contains(k) {
                let j = choose|j: int| 0 <= j < more.len() && more[j] == k;
                if j < i {
                    assert(less[j] == k);
                }
            }
        }
        i = i + 1;
    }
    assert(order.take(n as int) =~= order);
}

/// Those to whom some sessions listen, in the order of their keys.
pub fn listed_senders(held: &Vec<HeldSession>) -> (r: Vec<DevicePubkey>)
    ensures
        r@ == ordered::<DevicePubkey>(senders(held_models(held@))),
{
    let ghost all = held_models(held@);
    let mut set: VecSet<DevicePubkey> = VecSet::new();
    let mut i: usize = 0;
    while i < held.len()
        invariant
            i <= held@.len(),
            all == held_models(held@),
            forall|k: DevicePubkey| #[trigger]
                set@.contains(k) <==> listened_to(all.take(i as int), k),
        decreases held@.len() - i,
    {
        collect_expected_senders(&held[i].state, &mut set);
        assert forall|k: DevicePubkey| #[trigger] set@.contains(k) <==> listened_to(
            all.take(i + 1),
            k,
        ) by {
            let less = all.take(i as int);
            let more = all.take(i + 1);
            if listened_to(less, k) {
                let j = choose|j: int| 0 <= j < less.len() && expects((#[trigger] less[j]).state, k);
                assert(more[j] == less[j]);
            }
            assert(more[i as int] == all[i as int]);
            if listened_to(more, k) {
                let j = choose|j: int| 0 <= j < more.len() && expects((#[trigger] more[j]).state, k);
                if j < i {
                    assert(less[j] == more[j]);
                }
            }
        }
        i = i + 1;
    }
    assert(all.take(i as int) =~= all);
    assert(set@ =~= senders(all));
    listed_devices(&set)
}

/// The devices of a set in their order.
pub fn listed_devices(set: &VecSet<DevicePubkey>) -> (r: Vec<DevicePubkey>)
    ensures
        r@ == ordered::<DevicePubkey>(set@),
{
    let n: usize = set.len();
    let mut r: Vec<DevicePubkey> = Vec::new();
    let mut i: usize = 0;
    while i < n
        invariant
            i <= n,
            n == ordered::<DevicePubkey>(set@).len(),
            r@ == ordered::<DevicePubkey>(set@).take(i as int),
        decreases n - i,
    {
        r.push(*set.at(i));
        assert(r@ =~= ordered::<DevicePubkey>(set@).take(i + 1));
        i = i + 1;
    }
    assert(r@ =~= ordered::<DevicePubkey>(set@));
    r
}

impl SessionManager {
    pub fn local_owner_pubkey(&self) -> (r: OwnerPubkey)
        ensures
            r == self@.owner,
    {
        self.local_owner_pubkey
    }

    /// The invite of this device, if it was made.
    pub fn local_invite(&self) -> (r: Option<&Invite>)
        ensures
            match r {
                Some(invite) => self@.local_invite == Some(invite@),
                None => self@.local_invite is None,
            },
    {
        match &self.local_invite {
            Some(invite) => Some(invite),
            None => None,
        }
    }

    /// The roster of an owner, if it is known.
    pub fn roster_of(&self, owner_pubkey: OwnerPubkey) -> (r: Option<&DeviceRoster>)
        ensures
            match r {
                Some(roster) => known_roster(self@, owner_pubkey) == Some(roster@),
                None => known_roster(self@, owner_pubkey) is None,
            },
    {
        match self.users.get(&owner_pubkey) {
            Some(user) => match &user.roster {
                Some(roster) => Some(roster),
                None => None,
            },
            None => None,
        }
    }

    /// The owners of whom something is known, in the order of their keys.
    pub fn owners(&self) -> (r: Vec<OwnerPubkey>)
        ensures
            r@ == ordered::<OwnerPubkey>(self@.users.dom()),
            lists::<OwnerPubkey>(r@, self@.users.dom()),
    {
        let r = self.users.keys();
        assert(self@.users.dom() =~= self.users@.dom());
        assert(r@ =~= self.users.order());
        r
    }

    /// Adds the devices that the roster of an owner lists.
    pub fn collect_trusted_devices(
        &self,
        owner_pubkey: OwnerPubkey,
        out: &mut VecSet<DevicePubkey>,
    )
        ensures
            final(out)@ == old(out)@.union(trusted_devices(self@, owner_pubkey)),
    {
        let ghost start = out@;
        let user = match self.users.get(&owner_pubkey) {
            Some(user) => user,
            None => {
                assert(out@ =~= start.union(trusted_devices(self@, owner_pubkey)));
                return;
            },
        };
        assert(user@ == self@.users[owner_pubkey]);
        assert(user@.devices.dom() =~= user.devices@.dom());
        let n: usize = user.devices.len();
        let ghost order = user.devices.order();
        let mut i: usize = 0;
        while i < n
            invariant
                i <= n,
                n == order.len(),
                order == user.devices.order(),
                user@ == self@.users[owner_pubkey],
                self@.users.contains_key(owner_pubkey),
                user@.devices.dom() == user.devices@.dom(),
                lists::<DevicePubkey>(order, user.devices@.dom()),
                forall|k: DevicePubkey| #[trigger]
                    out@.contains(k) <==> start.contains(k) || (order.take(i as int).contains(k)
                        && trusts(self@, owner_pubkey, k)),
            decreases n - i,
        {
            let device = *user.devices.key_at(i);
            let record = user.devices.value_at(i);
            assert(record@ == user@.devices[device]);
            if record.authorized && !record.is_stale {
                out.insert(device);
            }
            assert forall|k: DevicePubkey| #[trigger] out@.contains(k) <==> start.contains(k) || (
            order.take(i + 1).contains(k) && trusts(self@, owner_pubkey, k)) by {
                let less = order.take(i as int);
                let more = order.take(i + 1);
                if less.contains(k) {
                    let j = choose|j: int| 0 <= j < less.len() && less[j] == k;
                    assert(more[j] == k);
                }
                assert(more[i as int] == device);
                if more.contains(k) {
                    let j = choose|j: int| 0 <= j < more.len() && more[j] == k;
                    if j < i {
                        assert(less[j] == k);
                    }
                }
            }
            i = i + 1;
        }
        assert(order.take(n as int) =~= order);
        assert forall|k: DevicePubkey| #[trigger] out@.contains(k) <==> start.union(
            trusted_devices(self@, owner_pubkey),
        ).contains(k) by {
            if trusts(self@, owner_pubkey, k) {
                assert(user.devices@.dom().contains(k));
                assert(order.contains(k));
            }
        }
        assert(out@ =~= start.union(trusted_devices(self@, owner_pubkey)));
    }

    /// Adds the sessions with an owner's devices.
    fn push_user_sessions(
        &self,
        owner_pubkey: OwnerPubkey,
        which: Which,
        held: &mut Vec<HeldSession>,
    )
        requires
            self@.users.contains_key(owner_pubkey),
        ensures
            held_models(final(held)@) == held_models(old(held)@) + user_sessions(
                owner_pubkey,
                self@.users[owner_pubkey],
                ordered::<DevicePubkey>(self@.users[owner_pubkey].devices.dom()),
                which,
            ),
    {
        let ghost start = held_models(held@);
        let user = match self.users.get(&owner_pubkey) {
            Some(user) => user,
            None => {
                assert(false);
                return;
            },
        };
        let ghost model = self@.users[owner_pubkey];
        assert(user@ == model);
        assert(user@.devices.dom() =~= user.devices@.dom());
        let n: usize = user.devices.len();
        let ghost order = user.devices.order();
        assert(order.take(0) =~= Seq::empty());
        assert(start + user_sessions(owner_pubkey, model, order.take(0), which) =~= start);
        let mut i: usize = 0;
        while i < n
            invariant
                i <= n,
                n == order.len(),
                order == user.devices.order(),
                user@ == model,
                held_models(held@) == start + user_sessions(
                    owner_pubkey,
                    model,
                    order.take(i as int),
                    which,
                ),
            decreases n - i,
        {
            let ghost before = held_models(held@);
            let device_pubkey = *user.devices.key_at(i);
            let record = user.devices.value_at(i);
            assert(record@ == model.devices[device_pubkey]);
            let ghost shelf = model.devices[device_pubkey].sessions;
            let ghost wanted = device_sessions(owner_pubkey, device_pubkey, shelf, which);
            if let Some(session) = &record.sessions.active {
                held.push(HeldSession { owner_pubkey, device_pubkey, state: session.state.clone() });
            }
            let ghost base = held@.len() as int;
            assert(held_models(held@) =~= before + wanted.take(base - before.len()));
            let mut j: usize = 0;
            while which == Which::All && j < record.sessions.inactive.len()
                invariant
                    j <= record.sessions.inactive@.len(),
                    record@.sessions == shelf,
                    wanted == device_sessions(owner_pubkey, device_pubkey, shelf, which),
                    which == Which::Active ==> j == 0,
                    base - before.len() == (if shelf.active is Some {
                        1int
                    } else {
                        0
                    }),
                    held_models(held@) == before + wanted.take(base - before.len() + j),
                decreases record.sessions.inactive@.len() - j,
            {
                let ghost known = held_models(held@);
                held.push(
                    HeldSession {
                        owner_pubkey,
                        device_pubkey,
                        state: record.sessions.inactive[j].state.clone(),
                    },
                );
                assert(shelf.inactive[j as int] == record.sessions.inactive@[j as int]@);
                assert(held_models(held@) =~= known.push(wanted[base - before.len() + j]));
                assert(held_models(held@) =~= before + wanted.take(base - before.len() + j + 1));
                j = j + 1;
            }
            assert(wanted.take(base - before.len() + j) =~= wanted);
            assert(order.take(i + 1).drop_last() =~= order.take(i as int));
            assert(held_models(held@) =~= start + user_sessions(
                owner_pubkey,
                model,
                order.take(i + 1),
                which,
            ));
            i = i + 1;
        }
        assert(order.take(n as int) =~= order);
    }

    /// All sessions, in the order of the owners' keys, then of the devices'
    /// keys. With each device the active session comes first.
    pub fn sessions(&self) -> (r: Vec<HeldSession>)
        ensures
            held_models(r@) == all_sessions(self@),
    {
        self.list_sessions(Which::All)
    }

    /// All sessions that are active, in the same order.
    pub fn active_sessions(&self) -> (r: Vec<HeldSession>)
        ensures
            held_models(r@) == active_sessions(self@),
    {
        self.list_sessions(Which::Active)
    }

    fn list_sessions(&self, which: Which) -> (r: Vec<HeldSession>)
        ensures
            held_models(r@) == owner_sessions(
                self@,
                ordered::<OwnerPubkey>(self@.users.dom()),
                which,
            ),
    {
        let owners = self.owners();
        let mut held: Vec<HeldSession> = Vec::new();
        let mut i: usize = 0;
        assert(owners@.take(0) =~= Seq::empty());
        assert(held_models(held@) =~= owner_sessions(self@, owners@.take(0), which));
        while i < owners.len()
            invariant
                i <= owners@.len(),
                lists::<OwnerPubkey>(owners@, self@.users.dom()),
                held_models(held@) == owner_sessions(self@, owners@.take(i as int), which),
            decreases owners@.len() - i,
        {
            assert(owners@.contains(owners@[i as int]));
            self.push_user_sessions(owners[i], which, &mut held);
            assert(owners@.take(i + 1).drop_last() =~= owners@.take(i as int));
            i = i + 1;
        }
        assert(owners@.take(i as int) =~= owners@);
        held
    }

    /// The owner of the first session that listens to a sender.
    pub fn owner_of_sender(&self, sender: DevicePubkey) -> (r: Option<OwnerPubkey>)
        ensures
            r == first_owner(all_sessions(self@), sender),
    {
        let held = self.sessions();
        let ghost all = held_models(held@);
        let mut found: Option<OwnerPubkey> = None;
        let mut i: usize = 0;
        while i < held.len()
            invariant
                i <= held@.len(),
                all == held_models(held@),
                found == first_owner(all.take(i as int), sender),
            decreases held@.len() - i,
        {
            assert(all.take(i + 1).drop_last() =~= all.take(i as int));
            if found.is_none() && held[i].listens_to(sender) {
                found = Some(held[i].owner_pubkey);
            }
            i = i + 1;
        }
        assert(all.take(i as int) =~= all);
        found
    }
}

impl HeldSession {
    fn listens_to(&self, sender: DevicePubkey) -> (r: bool)
        ensures
            r == expects(self@.state, sender),
    {
        let current = match self.state.their_current_nostr_public_key {
            Some(key) => key == sender,
            None => false,
        };
        let next = match self.state.their_next_nostr_public_key {
            Some(key) => key == sender,
            None => false,
        };
        current || next || self.state.skipped_keys.contains_key(&sender)
    }
}

} // verus!
