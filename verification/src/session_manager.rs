//! The sessions with all devices of all owners: who is known, to which devices
//! a message goes, and which session takes in one that comes.
pub mod order;
pub mod properties;
pub mod queries;

use vstd::prelude::*;
use self::order::{
    lemma_import, lemma_invite, lemma_message, lemma_pruning, lemma_response, lemma_rostered_to,
    lemma_sending, orderly, rosters_decide,
};
use crate::collections::{
    collected, entries_make_the_map, lists, lists_distinct, map_is_finite, ordered,
    ordered_entries, ordered_lists, set_is_finite, OrderedKey, VecMap, VecSet,
};
use crate::encoding::hex_text;
use crate::error::{detail, fault, DomainError, Error, Fault};
use crate::ids::{device_key_of, DeviceId, DevicePubkey, OwnerPubkey, UnixSeconds};
use crate::invite::{
    accepted, device_name, processes, resolved_owner, IncomingInviteResponseEnvelope, Invite,
    InviteModel, InviteResponse, InviteResponseEnvelope,
};
use crate::peer_book::{optional_state, session_models, state_models};
use crate::roster::{
    apply_roster_snapshot, next_roster, optional_roster, roster_list, DeviceRoster, RosterModel,
    RosterSnapshotDecision,
};
use crate::session::domain::after_send;
use crate::session::{
    drawn_payload, EnvelopeModel, IncomingDirectMessageEnvelope, OutgoingDirectMessageEnvelope,
    Session, SessionModel, SessionState,
};
use crate::shelf::{
    empty_shelf, listening_place, occupied, place_of, received_shelf, send_payload, send_place,
    sends_payload, sent_shelf, shelf_session, upserted_shelf, Shelf, ShelfModel,
};
use crate::types::{chance_fails, ProtocolContext};

verus! {

/// How long a device that was taken off a roster is remembered: a week, in
/// seconds.
pub const MAX_RELAY_LATENCY_SECS: u64 = 604800;

/// A message as it is handed to a relay.
pub type MessageEnvelope = OutgoingDirectMessageEnvelope;

/// The sessions of a device with all devices that it knows.
#[derive(Debug)]
pub struct SessionManager {
    local_owner_pubkey: OwnerPubkey,
    local_device_pubkey: DevicePubkey,
    local_device_secret_key: [u8; 32],
    local_device_id: Option<DeviceId>,
    local_invite: Option<Invite>,
    users: VecMap<OwnerPubkey, UserRecord>,
}

#[derive(Debug)]
struct UserRecord {
    roster: Option<DeviceRoster>,
    devices: VecMap<DevicePubkey, DeviceRecord>,
}

#[derive(Debug)]
struct DeviceRecord {
    device_id: Option<DeviceId>,
    authorized: bool,
    is_stale: bool,
    stale_since: Option<UnixSeconds>,
    public_invite: Option<Invite>,
    sessions: Shelf,
    last_activity: Option<UnixSeconds>,
    created_at: UnixSeconds,
}

#[derive(Debug)]
pub struct SessionManagerSnapshot {
    pub local_owner_pubkey: OwnerPubkey,
    pub local_device_pubkey: DevicePubkey,
    pub local_device_id: Option<DeviceId>,
    pub local_invite: Option<Invite>,
    pub users: Vec<UserRecordSnapshot>,
}

#[derive(Debug)]
pub struct UserRecordSnapshot {
    pub owner_pubkey: OwnerPubkey,
    pub roster: Option<DeviceRoster>,
    pub devices: Vec<DeviceRecordSnapshot>,
}

#[derive(Debug)]
pub struct DeviceRecordSnapshot {
    pub device_pubkey: DevicePubkey,
    pub device_id: Option<DeviceId>,
    pub authorized: bool,
    pub is_stale: bool,
    pub stale_since: Option<UnixSeconds>,
    pub public_invite: Option<Invite>,
    pub active_session: Option<SessionState>,
    pub inactive_sessions: Vec<SessionState>,
    pub last_activity: Option<UnixSeconds>,
    pub created_at: UnixSeconds,
}

/// What sending a payload comes to.
#[derive(Debug)]
pub struct PreparedSend {
    pub recipient_owner: OwnerPubkey,
    pub payload: Vec<u8>,
    pub deliveries: Vec<Delivery>,
    pub invite_responses: Vec<InviteResponseEnvelope>,
    pub relay_gaps: Vec<RelayGap>,
}

/// A message for one device.
#[derive(Debug)]
pub struct Delivery {
    pub owner_pubkey: OwnerPubkey,
    pub device_pubkey: DevicePubkey,
    pub device_id: Option<DeviceId>,
    pub envelope: MessageEnvelope,
}

#[derive(Debug)]
pub struct ProcessedInviteResponse {
    pub owner_pubkey: OwnerPubkey,
    pub device_pubkey: DevicePubkey,
    pub device_id: Option<DeviceId>,
}

#[derive(Debug)]
pub struct ReceivedMessage {
    pub owner_pubkey: OwnerPubkey,
    pub device_pubkey: DevicePubkey,
    pub device_id: Option<DeviceId>,
    pub payload: Vec<u8>,
}

/// Something that has to come from a relay before a device can be reached.
#[derive(Debug, PartialEq, Eq)]
pub enum RelayGap {
    MissingRoster { owner_pubkey: OwnerPubkey },
    MissingDeviceInvite {
        owner_pubkey: OwnerPubkey,
        device_pubkey: DevicePubkey,
        device_id: Option<DeviceId>,
    },
}

#[derive(Debug)]
pub struct PruneReport {
    pub removed_devices: Vec<(OwnerPubkey, DevicePubkey)>,
    pub removed_users: Vec<OwnerPubkey>,
}

/// A device of an owner. The owner's key comes first in the order.
#[derive(Debug, Clone, Copy)]
pub struct TargetDevice {
    pub owner_pubkey: OwnerPubkey,
    pub device_pubkey: DevicePubkey,
}

impl OrderedKey for TargetDevice {
    type Id = (OwnerPubkey, DevicePubkey);

    open spec fn id(&self) -> (OwnerPubkey, DevicePubkey) {
        (self.owner_pubkey, self.device_pubkey)
    }

    open spec fn before(a: (OwnerPubkey, DevicePubkey), b: (OwnerPubkey, DevicePubkey)) -> bool {
        <OwnerPubkey as OrderedKey>::before(a.0, b.0) || (a.0 == b.0
            && <DevicePubkey as OrderedKey>::before(a.1, b.1))
    }

    proof fn before_irreflexive(a: (OwnerPubkey, DevicePubkey)) {
        <OwnerPubkey as OrderedKey>::before_irreflexive(a.0);
        <DevicePubkey as OrderedKey>::before_irreflexive(a.1);
    }

    proof fn before_transitive(
        a: (OwnerPubkey, DevicePubkey),
        b: (OwnerPubkey, DevicePubkey),
        c: (OwnerPubkey, DevicePubkey),
    ) {
        <OwnerPubkey as OrderedKey>::before_irreflexive(a.0);
        if a.0 == b.0 && b.0 == c.0 {
            <DevicePubkey as OrderedKey>::before_transitive(a.1, b.1, c.1);
        } else if a.0 != b.0 && b.0 != c.0 {
            <OwnerPubkey as OrderedKey>::before_transitive(a.0, b.0, c.0);
        }
    }

    proof fn before_total(a: (OwnerPubkey, DevicePubkey), b: (OwnerPubkey, DevicePubkey)) {
        <OwnerPubkey as OrderedKey>::before_total(a.0, b.0);
        <DevicePubkey as OrderedKey>::before_total(a.1, b.1);
    }

    fn precedes(&self, other: &TargetDevice) -> (r: bool) {
        proof {
            let (a, b) = (self.owner_pubkey, other.owner_pubkey);
            <OwnerPubkey as OrderedKey>::before_total(a, b);
            <OwnerPubkey as OrderedKey>::before_irreflexive(a);
            if <OwnerPubkey as OrderedKey>::before(a, b) && <OwnerPubkey as OrderedKey>::before(b, a) {
                <OwnerPubkey as OrderedKey>::before_transitive(a, b, a);
            }
        }
        self.owner_pubkey.precedes(&other.owner_pubkey) || (
        !other.owner_pubkey.precedes(&self.owner_pubkey) && self.device_pubkey.precedes(
            &other.device_pubkey,
        ))
    }

    fn duplicate(&self) -> (r: TargetDevice) {
        *self
    }
}

// ---------------------------------------------------------------------------
// Models
// ---------------------------------------------------------------------------

/// What is known of a device.
#[verifier::ext_equal]
pub struct DeviceModel {
    pub device_id: Option<Seq<char>>,
    pub authorized: bool,
    pub is_stale: bool,
    pub stale_since: Option<UnixSeconds>,
    pub public_invite: Option<InviteModel>,
    pub sessions: ShelfModel,
    pub last_activity: Option<UnixSeconds>,
    pub created_at: UnixSeconds,
}

/// What is known of an owner.
#[verifier::ext_equal]
pub struct UserModel {
    pub roster: Option<RosterModel>,
    pub devices: Map<DevicePubkey, DeviceModel>,
}

/// What a session manager knows.
#[verifier::ext_equal]
pub struct ManagerModel {
    pub owner: OwnerPubkey,
    pub device: DevicePubkey,
    pub secret: [u8; 32],
    pub device_id: Option<Seq<char>>,
    pub local_invite: Option<InviteModel>,
    pub users: Map<OwnerPubkey, UserModel>,
}

pub open spec fn optional_invite(invite: Option<Invite>) -> Option<InviteModel> {
    match invite {
        Some(invite) => Some(invite@),
        None => None,
    }
}

impl View for DeviceRecord {
    type V = DeviceModel;

    closed spec fn view(&self) -> DeviceModel {
        DeviceModel {
            device_id: device_name(self.device_id),
            authorized: self.authorized,
            is_stale: self.is_stale,
            stale_since: self.stale_since,
            public_invite: optional_invite(self.public_invite),
            sessions: self.sessions@,
            last_activity: self.last_activity,
            created_at: self.created_at,
        }
    }
}

spec fn record_models(records: Map<DevicePubkey, DeviceRecord>) -> Map<DevicePubkey, DeviceModel> {
    Map::new(|k: DevicePubkey| records.contains_key(k), |k: DevicePubkey| records[k]@)
}

impl View for UserRecord {
    type V = UserModel;

    closed spec fn view(&self) -> UserModel {
        UserModel {
            roster: optional_roster(self.roster),
            devices: record_models(self.devices@),
        }
    }
}

spec fn user_models(users: Map<OwnerPubkey, UserRecord>) -> Map<OwnerPubkey, UserModel> {
    Map::new(|k: OwnerPubkey| users.contains_key(k), |k: OwnerPubkey| users[k]@)
}

impl View for SessionManager {
    type V = ManagerModel;

    closed spec fn view(&self) -> ManagerModel {
        ManagerModel {
            owner: self.local_owner_pubkey,
            device: self.local_device_pubkey,
            secret: self.local_device_secret_key,
            device_id: device_name(self.local_device_id),
            local_invite: optional_invite(self.local_invite),
            users: user_models(self.users@),
        }
    }
}

/// A device of which nothing is known but a time.
pub open spec fn fresh_record(created_at: UnixSeconds) -> DeviceModel {
    DeviceModel {
        device_id: None,
        authorized: false,
        is_stale: false,
        stale_since: None,
        public_invite: None,
        sessions: empty_shelf(),
        last_activity: None,
        created_at,
    }
}

pub open spec fn record_or_fresh(
    devices: Map<DevicePubkey, DeviceModel>,
    device: DevicePubkey,
    created_at: UnixSeconds,
) -> DeviceModel {
    if devices.contains_key(device) {
        devices[device]
    } else {
        fresh_record(created_at)
    }
}

pub open spec fn user_or_fresh(m: ManagerModel, owner: OwnerPubkey) -> UserModel {
    if m.users.contains_key(owner) {
        m.users[owner]
    } else {
        UserModel { roster: None, devices: Map::empty() }
    }
}

/// What is known with one device's record put in.
pub open spec fn with_record(
    m: ManagerModel,
    owner: OwnerPubkey,
    device: DevicePubkey,
    record: DeviceModel,
) -> ManagerModel {
    let user = user_or_fresh(m, owner);
    ManagerModel {
        users: m.users.insert(
            owner,
            UserModel { devices: user.devices.insert(device, record), ..user },
        ),
        ..m
    }
}

/// When a device was made, after another time was heard of: the earlier of the
/// two, where zero stands for an unknown time.
pub open spec fn merged_created_at(current: UnixSeconds, observed: UnixSeconds) -> UnixSeconds {
    if current.0 == 0 {
        observed
    } else if observed.0 == 0 || current.0 <= observed.0 {
        current
    } else {
        observed
    }
}

fn merge_created_at(current: UnixSeconds, observed: UnixSeconds) -> (r: UnixSeconds)
    ensures
        r == merged_created_at(current, observed),
{
    if current.0 == 0 {
        observed
    } else if observed.0 == 0 || current.0 <= observed.0 {
        current
    } else {
        observed
    }
}

fn clone_invite(invite: &Option<Invite>) -> (r: Option<Invite>)
    ensures
        optional_invite(r) == optional_invite(*invite),
{
    match invite {
        Some(invite) => Some(invite.clone()),
        None => None,
    }
}

impl DeviceRecord {
    fn new(created_at: UnixSeconds) -> (r: Self)
        ensures
            r@ == fresh_record(created_at),
    {
        DeviceRecord {
            device_id: None,
            authorized: false,
            is_stale: false,
            stale_since: None,
            public_invite: None,
            sessions: Shelf::new(),
            last_activity: None,
            created_at,
        }
    }

    /// Takes a session in.
    fn upsert_session(&mut self, session: Session, now: UnixSeconds)
        ensures
            final(self)@ == (DeviceModel {
                sessions: upserted_shelf(old(self)@.sessions, session@),
                last_activity: Some(now),
                ..old(self)@
            }),
    {
        self.sessions.upsert(session);
        self.last_activity = Some(now);
    }
}

impl UserRecord {
    fn new() -> (r: Self)
        ensures
            r@ == (UserModel { roster: None, devices: Map::empty() }),
    {
        let r = UserRecord { roster: None, devices: VecMap::new() };
        assert(r@.devices =~= Map::empty());
        r
    }

    /// Takes the record of a device out, or a fresh one if there is none.
    fn take_device(&mut self, device_pubkey: DevicePubkey, created_at: UnixSeconds) -> (r:
        DeviceRecord)
        ensures
            r@ == record_or_fresh(old(self)@.devices, device_pubkey, created_at),
            final(self)@ == (UserModel {
                devices: old(self)@.devices.remove(device_pubkey),
                ..old(self)@
            }),
    {
        let ghost before = self@;
        let record = match self.devices.remove(&device_pubkey) {
            Some(record) => record,
            None => DeviceRecord::new(created_at),
        };
        assert(self@.devices =~= before.devices.remove(device_pubkey));
        record
    }

    fn put_device(&mut self, device_pubkey: DevicePubkey, record: DeviceRecord)
        ensures
            final(self)@ == (UserModel {
                devices: old(self)@.devices.insert(device_pubkey, record@),
                ..old(self)@
            }),
    {
        let ghost before = self@;
        let ghost put = record@;
        self.devices.insert(device_pubkey, record);
        assert(self@.devices =~= before.devices.insert(device_pubkey, put));
    }
}

impl SessionManager {
    /// Takes what is known of an owner out.
    fn take_user(&mut self, owner_pubkey: OwnerPubkey) -> (r: UserRecord)
        ensures
            r@ == user_or_fresh(old(self)@, owner_pubkey),
            final(self)@ == (ManagerModel {
                users: old(self)@.users.remove(owner_pubkey),
                ..old(self)@
            }),
    {
        let ghost before = self@;
        let user = match self.users.remove(&owner_pubkey) {
            Some(user) => user,
            None => UserRecord::new(),
        };
        assert(self@.users =~= before.users.remove(owner_pubkey));
        user
    }

    fn put_user(&mut self, owner_pubkey: OwnerPubkey, user: UserRecord)
        ensures
            final(self)@ == (ManagerModel {
                users: old(self)@.users.insert(owner_pubkey, user@),
                ..old(self)@
            }),
    {
        let ghost before = self@;
        let ghost put = user@;
        self.users.insert(owner_pubkey, user);
        assert(self@.users =~= before.users.insert(owner_pubkey, put));
    }

    pub fn new(
        local_owner_pubkey: OwnerPubkey,
        local_device_secret_key: [u8; 32],
        local_device_id: Option<DeviceId>,
    ) -> (r: Self)
        requires
            device_key_of(local_device_secret_key) is Some,
        ensures
            r@ == (ManagerModel {
                owner: local_owner_pubkey,
                device: device_key_of(local_device_secret_key)->Some_0,
                secret: local_device_secret_key,
                device_id: device_name(local_device_id),
                local_invite: None,
                users: Map::empty(),
            }),
            orderly(r@),
    {
        let local_device_pubkey = match DevicePubkey::from_secret_bytes(
            &local_device_secret_key,
        ) {
            Ok(key) => key,
            Err(_) => {
                assert(false);
                vstd::pervasive::unreached()
            },
        };
        let r = SessionManager {
            local_owner_pubkey,
            local_device_pubkey,
            local_device_secret_key,
            local_device_id,
            local_invite: None,
            users: VecMap::new(),
        };
        assert(r@.users =~= Map::empty());
        r
    }

    /// A manager for a secret key that may not be one.
    pub fn with_secret_key(
        local_owner_pubkey: OwnerPubkey,
        local_device_secret_key: [u8; 32],
        local_device_id: Option<DeviceId>,
    ) -> (r: Result<Self, Error>)
        ensures
            match r {
                Ok(manager) => device_key_of(local_device_secret_key) is Some && manager@ == (
                ManagerModel {
                    owner: local_owner_pubkey,
                    device: device_key_of(local_device_secret_key)->Some_0,
                    secret: local_device_secret_key,
                    device_id: device_name(local_device_id),
                    local_invite: None,
                    users: Map::empty(),
                }) && orderly(manager@),
                Err(e) => device_key_of(local_device_secret_key) is None && fault(e)
                    == Fault::NostrKey,
            },
    {
        match DevicePubkey::from_secret_bytes(&local_device_secret_key) {
            Ok(_) => Ok(Self::new(local_owner_pubkey, local_device_secret_key, local_device_id)),
            Err(e) => Err(e),
        }
    }

    pub fn apply_local_roster(&mut self, roster: DeviceRoster) -> (r: RosterSnapshotDecision)
        ensures
            takes_roster(old(self)@, final(self)@, old(self)@.owner, roster@, r),
            orderly(old(self)@) ==> orderly(final(self)@),
    {
        let ghost before = self@;
        let owner_pubkey = self.local_owner_pubkey;
        let ghost incoming = roster@;
        let r = self.apply_roster_for_owner(owner_pubkey, roster);
        proof {
            if orderly(before) {
                rosters_decide(before, self@, owner_pubkey, incoming, r);
            }
        }
        r
    }

    pub fn observe_peer_roster(&mut self, owner_pubkey: OwnerPubkey, roster: DeviceRoster) -> (r:
        RosterSnapshotDecision)
        ensures
            takes_roster(old(self)@, final(self)@, owner_pubkey, roster@, r),
            orderly(old(self)@) ==> orderly(final(self)@),
    {
        let ghost before = self@;
        let ghost incoming = roster@;
        let r = self.apply_roster_for_owner(owner_pubkey, roster);
        proof {
            if orderly(before) {
                rosters_decide(before, self@, owner_pubkey, incoming, r);
            }
        }
        r
    }

    /// Puts a roster in place of the local one, whichever is newer.
    pub fn replace_local_roster(&mut self, roster: DeviceRoster)
        ensures
            final(self)@ == (ManagerModel {
                users: old(self)@.users.insert(
                    old(self)@.owner,
                    rostered_to(user_or_fresh(old(self)@, old(self)@.owner), roster@),
                ),
                ..old(self)@
            }),
            orderly(old(self)@) ==> orderly(final(self)@),
    {
        let owner_pubkey = self.local_owner_pubkey;
        proof {
            if orderly(self@) {
                lemma_rostered_to(user_or_fresh(self@, owner_pubkey), roster@);
            }
        }
        self.set_roster(owner_pubkey, roster);
    }

    fn apply_roster_for_owner(
        &mut self,
        owner_pubkey: OwnerPubkey,
        incoming_roster: DeviceRoster,
    ) -> (r: RosterSnapshotDecision)
        ensures
            takes_roster(old(self)@, final(self)@, owner_pubkey, incoming_roster@, r),
    {
        let ghost before = self@;
        let user = self.take_user(owner_pubkey);
        let ghost known = user@;
        let (decision, roster) = apply_roster_snapshot(&user.roster, &incoming_roster);
        self.put_user(owner_pubkey, user);
        assert(user_or_fresh(self@, owner_pubkey) == known);
        self.set_roster(owner_pubkey, roster);
        assert(self@.users =~= before.users.insert(
            owner_pubkey,
            rostered(known, incoming_roster@),
        ));
        decision
    }

    fn set_roster(&mut self, owner_pubkey: OwnerPubkey, roster: DeviceRoster)
        ensures
            final(self)@ == (ManagerModel {
                users: old(self)@.users.insert(
                    owner_pubkey,
                    rostered_to(user_or_fresh(old(self)@, owner_pubkey), roster@),
                ),
                ..old(self)@
            }),
    {
        let ghost before = self@;
        let mut user = self.take_user(owner_pubkey);
        let ghost known = user@;
        let ghost next = roster@;
        let previous = match &user.roster {
            Some(current) => current.devices(),
            None => Vec::new(),
        };
        let ghost listed_before = previous_devices(known);
        let ghost previous_order = ordered::<DevicePubkey>(listed_before);
        proof {
            if known.roster is None {
                assert(listed_before =~= Set::empty());
                assert(lists::<DevicePubkey>(Seq::empty(), Set::empty())) by {
                    assert forall|k: DevicePubkey| !Seq::<DevicePubkey>::empty().contains(k) by {}
                }
                crate::collections::lemma_ordered::<DevicePubkey>(Seq::empty(), Set::empty());
            }
            assert(previous@.len() == previous_order.len());
            assert(forall|i: int|
                0 <= i < previous@.len() ==> (#[trigger] previous@[i]).device_pubkey
                    == previous_order[i]);
        }
        let devices = roster.devices();
        let ghost order = ordered::<DevicePubkey>(next.devices.dom());
        let ghost mut done: Set<DevicePubkey> = Set::empty();
        assert(known.devices =~= admitted(known.devices, next, done));
        let mut i: usize = 0;
        while i < devices.len()
            invariant
                i <= devices@.len(),
                devices@ == roster_list(next),
                order == ordered::<DevicePubkey>(next.devices.dom()),
                lists::<DevicePubkey>(order, next.devices.dom()),
                user@.roster == known.roster,
                user@.devices == admitted(known.devices, next, done),
                forall|k: DevicePubkey| #[trigger]
                    done.contains(k) <==> exists|j: int| 0 <= j < i && #[trigger] order[j] == k,
            decreases devices@.len() - i,
        {
            let device = devices[i];
            let ghost key = order[i as int];
            let ghost user_before = user@;
            proof {
                assert(device.device_pubkey == key);
                assert forall|j: int| 0 <= j < i implies #[trigger] order[j] != key by {
                    lists_distinct::<DevicePubkey>(order, next.devices.dom(), j, i as int);
                }
                assert(!done.contains(key));
                assert(order.contains(key));
                assert(next.devices.contains_key(key));
            }
            let mut record = user.take_device(device.device_pubkey, device.created_at);
            assert(record@ == record_or_fresh(known.devices, key, next.devices[key]));
            record.authorized = true;
            record.is_stale = false;
            record.stale_since = None;
            record.created_at = merge_created_at(record.created_at, device.created_at);
            user.put_device(device.device_pubkey, record);
            proof {
                let more = done.insert(key);
                assert forall|k: DevicePubkey| #[trigger] more.contains(k) <==> exists|j: int|
                    0 <= j < i + 1 && #[trigger] order[j] == k by {
                    if more.contains(k) {
                        if k == key {
                            assert(order[i as int] == k);
                        } else {
                            let j = choose|j: int| 0 <= j < i && #[trigger] order[j] == k;
                            assert(order[j] == k);
                        }
                    }
                    if exists|j: int| 0 <= j < i + 1 && #[trigger] order[j] == k {
                        let j = choose|j: int| 0 <= j < i + 1 && #[trigger] order[j] == k;
                        if j < i {
                            assert(done.contains(k));
                        }
                    }
                }
                assert(user@.devices =~= admitted(known.devices, next, more));
                done = more;
            }
            i = i + 1;
        }
        proof {
            assert forall|k: DevicePubkey| #[trigger] done.contains(k) <==> next.devices.dom().contains(
                k,
            ) by {
                if next.devices.dom().contains(k) {
                    assert(order.contains(k));
                    let j = choose|j: int| 0 <= j < order.len() && order[j] == k;
                    assert(order[j] == k);
                }
                if done.contains(k) {
                    let j = choose|j: int| 0 <= j < i && #[trigger] order[j] == k;
                    assert(order.contains(order[j]));
                }
            }
            assert(done =~= next.devices.dom());
        }
        let ghost mid = user@.devices;
        let ghost mut gone: Set<DevicePubkey> = Set::empty();
        assert(mid =~= dismissed(mid, next, gone));
        let mut p: usize = 0;
        while p < previous.len()
            invariant
                p <= previous@.len(),
                previous@.len() == previous_order.len(),
                forall|j: int|
                    0 <= j < previous@.len() ==> (#[trigger] previous@[j]).device_pubkey
                        == previous_order[j],
                lists::<DevicePubkey>(previous_order, listed_before),
                roster@ == next,
                mid == admitted(known.devices, next, next.devices.dom()),
                user@.roster == known.roster,
                user@.devices == dismissed(mid, next, gone),
                forall|k: DevicePubkey| #[trigger]
                    gone.contains(k) <==> !next.devices.contains_key(k) && exists|j: int|
                        0 <= j < p && #[trigger] previous_order[j] == k,
            decreases previous@.len() - p,
        {
            let device_pubkey = previous[p].device_pubkey;
            let ghost key = previous_order[p as int];
            let ghost mut more = gone;
            if roster.get_device(&device_pubkey).is_none() {
                proof {
                    assert forall|j: int| 0 <= j < p implies #[trigger] previous_order[j] != key by {
                        lists_distinct::<DevicePubkey>(
                            previous_order,
                            listed_before,
                            j,
                            p as int,
                        );
                    }
                    assert(!gone.contains(key));
                }
                let mut record = user.take_device(device_pubkey, roster.created_at());
                record.authorized = false;
                record.is_stale = true;
                if record.stale_since.is_none() {
                    record.stale_since = Some(roster.created_at());
                }
                user.put_device(device_pubkey, record);
                proof {
                    more = gone.insert(key);
                    assert(user@.devices =~= dismissed(mid, next, more));
                }
            }
            proof {
                assert forall|k: DevicePubkey| #[trigger] more.contains(k) <==> !next.devices.contains_key(
                    k,
                ) && exists|j: int| 0 <= j < p + 1 && #[trigger] previous_order[j] == k by {
                    if more.contains(k) {
                        if gone.contains(k) {
                            let j = choose|j: int| 0 <= j < p && #[trigger] previous_order[j] == k;
                            assert(previous_order[j] == k);
                        } else {
                            assert(previous_order[p as int] == k);
                        }
                    }
                    if !next.devices.contains_key(k) && exists|j: int|
                        0 <= j < p + 1 && #[trigger] previous_order[j] == k {
                        let j = choose|j: int| 0 <= j < p + 1 && #[trigger] previous_order[j] == k;
                        if j < p {
                            assert(gone.contains(k));
                        }
                    }
                }
                gone = more;
            }
            p = p + 1;
        }
        user.roster = Some(roster);
        proof {
            assert forall|k: DevicePubkey| #[trigger] gone.contains(k) <==> listed_before.contains(
                k,
            ) && !next.devices.contains_key(k) by {
                if listed_before.contains(k) && !next.devices.contains_key(k) {
                    assert(previous_order.contains(k));
                    let j = choose|j: int| 0 <= j < previous_order.len() && previous_order[j] == k;
                    assert(previous_order[j] == k);
                }
                if gone.contains(k) {
                    let j = choose|j: int| 0 <= j < p && #[trigger] previous_order[j] == k;
                    assert(previous_order.contains(previous_order[j]));
                }
            }
            assert(user@.devices =~= rostered_to(known, next).devices);
        }
        let ghost after = user@;
        self.put_user(owner_pubkey, user);
        assert(self@.users =~= before.users.insert(owner_pubkey, after));
    }

    /// Forgets an owner.
    pub fn delete_user(&mut self, owner_pubkey: OwnerPubkey)
        ensures
            final(self)@ == (ManagerModel {
                users: old(self)@.users.remove(owner_pubkey),
                ..old(self)@
            }),
            orderly(old(self)@) ==> orderly(final(self)@),
    {
        let _ = self.take_user(owner_pubkey);
    }

    /// Takes in a session that was set up elsewhere.
    pub fn import_session_state(
        &mut self,
        owner_pubkey: OwnerPubkey,
        device_pubkey: DevicePubkey,
        state: SessionState,
        now: UnixSeconds,
    )
        ensures
            final(self)@ == with_import(old(self)@, owner_pubkey, device_pubkey, state@, now),
            orderly(old(self)@) ==> orderly(final(self)@),
    {
        proof {
            if orderly(self@) {
                lemma_import(self@, owner_pubkey, device_pubkey, state@, now);
            }
        }
        let ghost before = self@;
        let mut user = self.take_user(owner_pubkey);
        let ghost known = user@;
        let mut record = user.take_device(device_pubkey, now);
        record.upsert_session(Session::new(state, "session".to_string()), now);
        let ghost after = record@;
        user.put_device(device_pubkey, record);
        let ghost user_after = user@;
        self.put_user(owner_pubkey, user);
        proof {
            assert(user_after.devices =~= known.devices.insert(device_pubkey, after));
            assert(self@.users =~= before.users.insert(owner_pubkey, user_after));
        }
    }

    /// Puts an invite in place of the local one.
    pub fn replace_local_invite(&mut self, invite: Invite)
        ensures
            final(self)@ == (ManagerModel { local_invite: Some(invite@), ..old(self)@ }),
            orderly(old(self)@) ==> orderly(final(self)@),
    {
        self.local_invite = Some(invite);
    }

    pub fn observe_device_invite(&mut self, owner_pubkey: OwnerPubkey, invite: Invite) -> (r: Result<
        (),
        Error,
    >)
        ensures
            observes_invite(old(self)@, final(self)@, owner_pubkey, invite@, r),
            orderly(old(self)@) ==> orderly(final(self)@),
    {
        proof {
            if orderly(self@) {
                lemma_invite(self@, owner_pubkey, invite@);
            }
        }
        let ghost before = self@;
        let resolved = match invite.owner_public_key {
            Some(owner) => owner,
            None => invite.inviter,
        };
        let device_pubkey = invite.inviter.as_device();
        let late: bool = match self.users.get(&owner_pubkey) {
            Some(user) => {
                assert(user@ == before.users[owner_pubkey]);
                !user.devices.contains_key(&device_pubkey) && match &user.roster {
                    Some(roster) => roster.get_device(&device_pubkey).is_none()
                        && invite.created_at.0 < roster.created_at().0,
                    None => false,
                }
            },
            None => false,
        };
        assert(late == left_behind(user_or_fresh(before, owner_pubkey), device_pubkey, invite@));
        if late && resolved == owner_pubkey {
            return Ok(());
        }
        self.observe_public_invite(owner_pubkey, invite)
    }

    /// Takes in an invite of an owner's device, however late it comes.
    pub(crate) fn observe_public_invite(&mut self, owner_pubkey: OwnerPubkey, invite: Invite) -> (r:
        Result<(), Error>)
        ensures
            stores_invite(
                old(self)@,
                final(self)@,
                owner_pubkey,
                invite@,
                with_new_invite(old(self)@, owner_pubkey, invite@),
                r,
            ),
            orderly(old(self)@) ==> orderly(final(self)@),
    {
        proof {
            if orderly(self@) {
                lemma_invite(self@, owner_pubkey, invite@);
            }
        }
        let ghost before = self@;
        let resolved = match invite.owner_public_key {
            Some(owner) => owner,
            None => invite.inviter,
        };
        if resolved != owner_pubkey {
            let expected = crate::text::concat(
                "invite owner mismatch: expected ",
                owner_pubkey.to_hex().as_str(),
            );
            let text = crate::text::concat3(
                expected.as_str(),
                ", got ",
                resolved.to_hex().as_str(),
            );
            return Err(Error::Domain(DomainError::InvalidState(text)));
        }
        let device_pubkey = invite.inviter.as_device();
        let mut public_invite = invite;
        public_invite.inviter_ephemeral_private_key = None;
        let mut user = self.take_user(owner_pubkey);
        let mut record = user.take_device(device_pubkey, public_invite.created_at);
        let should_replace_invite: bool = match &record.public_invite {
            Some(existing) => public_invite.created_at.0 >= existing.created_at.0,
            None => true,
        };
        if public_invite.device_id.is_some() && (should_replace_invite
            || record.device_id.is_none()) {
            record.device_id = public_invite.device_id.clone();
        }
        record.created_at = merge_created_at(record.created_at, public_invite.created_at);
        if should_replace_invite {
            record.public_invite = Some(public_invite);
        }
        let ghost after = record@;
        user.put_device(device_pubkey, record);
        let ghost user_after = user@;
        self.put_user(owner_pubkey, user);
        proof {
            let known = user_or_fresh(before, owner_pubkey);
            assert(user_after.devices =~= known.devices.insert(device_pubkey, after));
            assert(self@.users =~= before.users.insert(owner_pubkey, user_after));
        }
        Ok(())
    }
}

// ---------------------------------------------------------------------------
// Rosters and invites
// ---------------------------------------------------------------------------

/// The devices that were on the last roster of an owner.
pub open spec fn previous_devices(user: UserModel) -> Set<DevicePubkey> {
    match user.roster {
        Some(roster) => roster.devices.dom(),
        None => Set::empty(),
    }
}

/// A device that is on a roster since a time.
pub open spec fn authorized_record(record: DeviceModel, since: UnixSeconds) -> DeviceModel {
    DeviceModel {
        authorized: true,
        is_stale: false,
        stale_since: None,
        created_at: merged_created_at(record.created_at, since),
        ..record
    }
}

/// A device that was taken off the roster of a time.
pub open spec fn revoked_record(record: DeviceModel, at: UnixSeconds) -> DeviceModel {
    DeviceModel {
        authorized: false,
        is_stale: true,
        stale_since: match record.stale_since {
            Some(since) => Some(since),
            None => Some(at),
        },
        ..record
    }
}

/// Devices of which some were found on a roster.
pub open spec fn admitted(
    devices: Map<DevicePubkey, DeviceModel>,
    roster: RosterModel,
    some: Set<DevicePubkey>,
) -> Map<DevicePubkey, DeviceModel> {
    Map::new(
        |k: DevicePubkey| devices.contains_key(k) || some.contains(k),
        |k: DevicePubkey|
            if some.contains(k) {
                authorized_record(
                    record_or_fresh(devices, k, roster.devices[k]),
                    roster.devices[k],
                )
            } else {
                devices[k]
            },
    )
}

/// Devices of which some were found missing on a roster.
pub open spec fn dismissed(
    devices: Map<DevicePubkey, DeviceModel>,
    roster: RosterModel,
    some: Set<DevicePubkey>,
) -> Map<DevicePubkey, DeviceModel> {
    Map::new(
        |k: DevicePubkey| devices.contains_key(k) || some.contains(k),
        |k: DevicePubkey|
            if some.contains(k) {
                revoked_record(
                    record_or_fresh(devices, k, roster.created_at),
                    roster.created_at,
                )
            } else {
                devices[k]
            },
    )
}

/// An owner whose roster was heard of. The devices on it act for the owner;
/// those that were on the last one and are missing now do no longer.
pub open spec fn rostered(user: UserModel, incoming: RosterModel) -> UserModel {
    rostered_to(user, next_roster(user.roster, incoming).1)
}

/// An owner with a roster.
pub open spec fn rostered_to(user: UserModel, next: RosterModel) -> UserModel {
    UserModel {
        roster: Some(next),
        devices: dismissed(
            admitted(user.devices, next, next.devices.dom()),
            next,
            previous_devices(user).difference(next.devices.dom()),
        ),
    }
}

/// Whether a roster was taken in.
pub open spec fn takes_roster(
    before: ManagerModel,
    after: ManagerModel,
    owner: OwnerPubkey,
    roster: RosterModel,
    decision: RosterSnapshotDecision,
) -> bool {
    let user = user_or_fresh(before, owner);
    &&& decision == next_roster(user.roster, roster).0
    &&& after == (ManagerModel { users: before.users.insert(owner, rostered(user, roster)), ..before })
}

/// A device whose invite was heard of. A newer invite takes the place of an
/// older one.
pub open spec fn invited(record: DeviceModel, invite: InviteModel) -> DeviceModel {
    let replaces = record.public_invite is None || invite.created_at.0
        >= record.public_invite->Some_0.created_at.0;
    DeviceModel {
        device_id: if invite.device_id is Some && (replaces || record.device_id is None) {
            invite.device_id
        } else {
            record.device_id
        },
        created_at: merged_created_at(record.created_at, invite.created_at),
        public_invite: if replaces {
            Some(InviteModel { ephemeral_secret: None, ..invite })
        } else {
            record.public_invite
        },
        ..record
    }
}

/// What is known with a session of a device taken in.
pub open spec fn with_import(
    m: ManagerModel,
    owner: OwnerPubkey,
    device: DevicePubkey,
    session: SessionModel,
    now: UnixSeconds,
) -> ManagerModel {
    let record = record_or_fresh(user_or_fresh(m, owner).devices, device, now);
    with_record(
        m,
        owner,
        device,
        DeviceModel {
            sessions: upserted_shelf(record.sessions, session),
            last_activity: Some(now),
            ..record
        },
    )
}

/// The owner that an invite speaks for.
pub open spec fn invite_owner(invite: InviteModel) -> OwnerPubkey {
    match invite.owner {
        Some(owner) => owner,
        None => invite.inviter,
    }
}

/// Whether an invite comes too late: nothing is known of its device, and a
/// roster that is newer than the invite does not list it.
pub open spec fn left_behind(user: UserModel, device: DevicePubkey, invite: InviteModel) -> bool {
    &&& !user.devices.contains_key(device)
    &&& user.roster matches Some(roster) && !roster.devices.contains_key(device)
        && invite.created_at.0 < roster.created_at.0
}

/// What is known when an invite of an owner's device was heard of. One that
/// comes too late changes nothing.
pub open spec fn with_invite(m: ManagerModel, owner: OwnerPubkey, invite: InviteModel) -> ManagerModel {
    let device = invite.inviter.device();
    if left_behind(user_or_fresh(m, owner), device, invite) {
        m
    } else {
        with_new_invite(m, owner, invite)
    }
}

/// What is known when an invite of an owner's device is taken in.
pub open spec fn with_new_invite(
    m: ManagerModel,
    owner: OwnerPubkey,
    invite: InviteModel,
) -> ManagerModel {
    let device = invite.inviter.device();
    with_record(
        m,
        owner,
        device,
        invited(
            record_or_fresh(user_or_fresh(m, owner).devices, device, invite.created_at),
            invite,
        ),
    )
}

/// Whether an invite was taken in. One that speaks for another owner is
/// refused, and one that comes too late changes nothing.
pub open spec fn observes_invite(
    before: ManagerModel,
    after: ManagerModel,
    owner: OwnerPubkey,
    invite: InviteModel,
    r: Result<(), Error>,
) -> bool {
    stores_invite(before, after, owner, invite, with_invite(before, owner, invite), r)
}

/// Whether an invite came to what is known with it, unless it speaks for
/// another owner.
pub open spec fn stores_invite(
    before: ManagerModel,
    after: ManagerModel,
    owner: OwnerPubkey,
    invite: InviteModel,
    known: ManagerModel,
    r: Result<(), Error>,
) -> bool {
    match r {
        Ok(_) => invite_owner(invite) == owner && after == known,
        Err(e) => {
            &&& invite_owner(invite) != owner
            &&& after == before
            &&& fault(e) == Fault::InvalidState
            &&& detail(e) == Some(
                "invite owner mismatch: expected "@ + hex_text(owner.0@) + ", got "@ + hex_text(
                    invite_owner(invite).0@,
                ),
            )
        },
    }
}

// ---------------------------------------------------------------------------
// The local invite and responses to it
// ---------------------------------------------------------------------------

/// Whether an invite is a new one of a device: its keys are left to chance.
pub open spec fn fresh_invite(m: ManagerModel, now: UnixSeconds, invite: InviteModel) -> bool {
    &&& invite.ephemeral_secret is Some
    &&& device_key_of(invite.ephemeral_secret->Some_0) == Some(invite.ephemeral_key)
    &&& invite == (InviteModel {
        ephemeral_key: invite.ephemeral_key,
        shared_secret: invite.shared_secret,
        inviter: m.device.owner(),
        ephemeral_secret: invite.ephemeral_secret,
        device_id: m.device_id,
        max_uses: None,
        used_by: Seq::empty(),
        created_at: now,
        purpose: None,
        owner: if m.owner == m.device.owner() {
            None
        } else {
            Some(m.owner)
        },
    })
}

/// Whether the local invite is there, and was made if it was not.
pub open spec fn has_invite(
    before: ManagerModel,
    after: ManagerModel,
    now: UnixSeconds,
    r: Result<&Invite, Error>,
) -> bool {
    match before.local_invite {
        Some(known) => after == before && (r matches Ok(invite) && invite@ == known),
        None => match r {
            Ok(invite) => fresh_invite(before, now, invite@) && after == (ManagerModel {
                local_invite: Some(invite@),
                ..with_new_invite(before, before.owner, invite@)
            }),
            Err(e) => after == before && fault(e) == Fault::NostrKey && chance_fails(),
        },
    }
}

/// What is known when a response to the local invite was taken in: the session
/// that it starts stands with the device that sent it.
pub open spec fn with_response(
    m: ManagerModel,
    now: UnixSeconds,
    invite: InviteModel,
    response: InviteResponse,
) -> ManagerModel {
    let owner = resolved_owner(response.invitee_identity, response.owner_public_key);
    let device = response.invitee_identity;
    let record = record_or_fresh(user_or_fresh(m, owner).devices, device, now);
    with_record(
        ManagerModel { local_invite: Some(invite), ..m },
        owner,
        device,
        DeviceModel {
            device_id: match device_name(response.device_id) {
                Some(name) => Some(name),
                None => record.device_id,
            },
            sessions: upserted_shelf(record.sessions, response.session@),
            last_activity: Some(now),
            ..record
        },
    )
}

/// Whether a response was taken in.
pub open spec fn takes_response(
    before: ManagerModel,
    after: ManagerModel,
    now: UnixSeconds,
    sender: DevicePubkey,
    content: Seq<char>,
    response: InviteResponse,
    done: ProcessedInviteResponse,
) -> bool {
    &&& after.local_invite is Some
    &&& processes(
        before.local_invite->Some_0,
        after.local_invite->Some_0,
        sender,
        content,
        before.secret,
        Ok(response),
    )
    &&& after == with_response(before, now, after.local_invite->Some_0, response)
    &&& done.owner_pubkey == resolved_owner(response.invitee_identity, response.owner_public_key)
    &&& done.device_pubkey == response.invitee_identity
    &&& device_name(done.device_id) == device_name(response.device_id)
}

/// Whether a result is that of a response to the local invite.
pub open spec fn observes_response(
    before: ManagerModel,
    after: ManagerModel,
    now: UnixSeconds,
    sender: DevicePubkey,
    content: Seq<char>,
    r: Result<Option<ProcessedInviteResponse>, Error>,
) -> bool {
    match before.local_invite {
        None => after == before && (r matches Ok(found) && found is None),
        Some(invite) => match r {
            Ok(Some(done)) => exists|response: InviteResponse| #[trigger]
                takes_response(before, after, now, sender, content, response, done),
            Ok(None) => false,
            Err(e) => after == before && processes(
                invite,
                invite,
                sender,
                content,
                before.secret,
                Err(e),
            ),
        },
    }
}

impl SessionManager {
    /// The invite of this device. It is made when it is first asked for.
    pub fn ensure_local_invite(&mut self, ctx: &mut ProtocolContext<'_>) -> (r: Result<
        &Invite,
        Error,
    >)
        ensures
            final(ctx).now_secs == old(ctx).now_secs,
            final(ctx).now_millis == old(ctx).now_millis,
            has_invite(old(self)@, final(self)@, old(ctx).now_secs, r),
            orderly(old(self)@) ==> orderly(final(self)@),
    {
        if self.local_invite.is_none() {
            match self.make_invite(ctx) {
                Err(e) => {
                    return Err(e);
                },
                Ok(()) => {},
            }
        }
        match &self.local_invite {
            Some(invite) => Ok(invite),
            None => {
                assert(false);
                Err(Error::Domain(DomainError::SessionNotReady))
            },
        }
    }

    fn make_invite(&mut self, ctx: &mut ProtocolContext<'_>) -> (r: Result<(), Error>)
        requires
            old(self)@.local_invite is None,
        ensures
            final(ctx).now_secs == old(ctx).now_secs,
            final(ctx).now_millis == old(ctx).now_millis,
            match r {
                Ok(_) => {
                    &&& final(self)@.local_invite is Some
                    &&& fresh_invite(
                        old(self)@,
                        old(ctx).now_secs,
                        final(self)@.local_invite->Some_0,
                    )
                    &&& final(self)@ == (ManagerModel {
                        local_invite: final(self)@.local_invite,
                        ..with_new_invite(
                            old(self)@,
                            old(self)@.owner,
                            final(self)@.local_invite->Some_0,
                        )
                    })
                    &&& orderly(old(self)@) ==> orderly(final(self)@)
                },
                Err(e) => *final(self) == *old(self) && fault(e) == Fault::NostrKey
                    && chance_fails(),
            },
    {
        let mut invite = match Invite::create_new(
            ctx,
            self.local_device_pubkey.as_owner(),
            self.local_device_id.clone(),
            None,
        ) {
            Ok(invite) => invite,
            Err(e) => {
                return Err(e);
            },
        };
        if self.local_owner_pubkey != self.local_device_pubkey.as_owner() {
            invite.owner_public_key = Some(self.local_owner_pubkey);
        }
        let owner_pubkey = self.local_owner_pubkey;
        match self.observe_public_invite(owner_pubkey, invite.clone()) {
            Ok(()) => {},
            Err(_) => {
                assert(false);
            },
        }
        self.local_invite = Some(invite);
        Ok(())
    }

    /// Takes in a response to the local invite.
    pub fn observe_invite_response(
        &mut self,
        ctx: &mut ProtocolContext<'_>,
        envelope: &InviteResponseEnvelope,
    ) -> (r: Result<Option<ProcessedInviteResponse>, Error>)
        ensures
            final(ctx).now_secs == old(ctx).now_secs,
            final(ctx).now_millis == old(ctx).now_millis,
            observes_response(
                old(self)@,
                final(self)@,
                old(ctx).now_secs,
                envelope.sender,
                envelope.content@,
                r,
            ),
            orderly(old(self)@) ==> orderly(final(self)@),
    {
        let ghost before = self@;
        let r = self.take_response(ctx.now_secs, envelope.sender, envelope.content.as_str());
        proof {
            if orderly(before) {
                lemma_response(
                    before,
                    self@,
                    ctx.now_secs,
                    envelope.sender,
                    envelope.content@,
                    r,
                );
            }
        }
        r
    }

    /// Takes in a response as it came from a relay.
    pub fn observe_incoming_response(
        &mut self,
        ctx: &mut ProtocolContext<'_>,
        envelope: &IncomingInviteResponseEnvelope,
    ) -> (r: Result<Option<ProcessedInviteResponse>, Error>)
        ensures
            final(ctx).now_secs == old(ctx).now_secs,
            final(ctx).now_millis == old(ctx).now_millis,
            observes_response(
                old(self)@,
                final(self)@,
                old(ctx).now_secs,
                envelope.sender,
                envelope.content@,
                r,
            ),
            orderly(old(self)@) ==> orderly(final(self)@),
    {
        let ghost before = self@;
        let r = self.take_response(ctx.now_secs, envelope.sender, envelope.content.as_str());
        proof {
            if orderly(before) {
                lemma_response(
                    before,
                    self@,
                    ctx.now_secs,
                    envelope.sender,
                    envelope.content@,
                    r,
                );
            }
        }
        r
    }

    fn take_response(&mut self, now: UnixSeconds, sender: DevicePubkey, content: &str) -> (r: Result<
        Option<ProcessedInviteResponse>,
        Error,
    >)
        ensures
            observes_response(old(self)@, final(self)@, now, sender, content@, r),
    {
        let ghost before = self@;
        let mut owned_invite = match &self.local_invite {
            Some(invite) => invite.clone(),
            None => {
                return Ok(None);
            },
        };
        let response = match owned_invite.process_content(
            sender,
            content,
            self.local_device_secret_key,
        ) {
            Ok(response) => response,
            Err(e) => {
                return Err(e);
            },
        };
        let ghost whole = response;
        let ghost used = owned_invite@;
        self.local_invite = Some(owned_invite);
        let ghost mid = self@;
        assert(mid =~= (ManagerModel { local_invite: Some(used), ..before }));
        let owner_pubkey = response.resolved_owner_pubkey();
        let device_pubkey = response.invitee_identity;
        let device_id = response.device_id.clone();
        let mut user = self.take_user(owner_pubkey);
        let mut record = user.take_device(device_pubkey, now);
        if response.device_id.is_some() {
            record.device_id = response.device_id;
        }
        record.upsert_session(response.session, now);
        let ghost after = record@;
        user.put_device(device_pubkey, record);
        let ghost user_after = user@;
        self.put_user(owner_pubkey, user);
        let done = ProcessedInviteResponse { owner_pubkey, device_pubkey, device_id };
        proof {
            let known = user_or_fresh(before, owner_pubkey);
            assert(user_or_fresh(mid, owner_pubkey) == known);
            assert(user_after.devices =~= known.devices.insert(device_pubkey, after));
            assert(self@.users =~= before.users.insert(owner_pubkey, user_after));
            assert(self@ =~= with_response(before, now, used, whole));
            assert(takes_response(
                before,
                self@,
                now,
                sender,
                content@,
                whole,
                done,
            ));
        }
        let r: Result<Option<ProcessedInviteResponse>, Error> = Ok(Some(done));
        r
    }
}

// ---------------------------------------------------------------------------
// Sending
// ---------------------------------------------------------------------------

/// Whether a device acts for an owner and can be written to.
pub open spec fn reachable(m: ManagerModel, owner: OwnerPubkey, device: DevicePubkey) -> bool {
    &&& m.users.contains_key(owner)
    &&& m.users[owner].roster is Some
    &&& m.users[owner].devices.contains_key(device)
    &&& m.users[owner].devices[device].authorized
    &&& !m.users[owner].devices[device].is_stale
}

/// The devices to which a message goes: those of its recipient, and the
/// sender's own others.
pub open spec fn target_set(m: ManagerModel, recipient: OwnerPubkey) -> Set<
    (OwnerPubkey, DevicePubkey),
> {
    Set::new(
        |t: (OwnerPubkey, DevicePubkey)|
            reachable(m, t.0, t.1) && (t.0 == recipient || (t.0 == m.owner && t.1 != m.device)),
    )
}

/// The devices to which a message goes, in order.
pub open spec fn targets(m: ManagerModel, recipient: OwnerPubkey) -> Seq<
    (OwnerPubkey, DevicePubkey),
> {
    ordered::<TargetDevice>(target_set(m, recipient))
}

/// Who sends: a device, and the owner that it names when it accepts an invite,
/// where it is not its own.
#[verifier::ext_equal]
pub struct SenderModel {
    pub device: DevicePubkey,
    pub secret: [u8; 32],
    pub device_id: Option<Seq<char>>,
    pub owner: Option<OwnerPubkey>,
}

pub open spec fn sender_of(m: ManagerModel) -> SenderModel {
    SenderModel {
        device: m.device,
        secret: m.secret,
        device_id: m.device_id,
        owner: if m.owner == m.device.owner() {
            None
        } else {
            Some(m.owner)
        },
    }
}

/// What one device gets: a message, perhaps with the response that starts the
/// session, or nothing where it cannot be reached yet.
pub type DeviceOutcome = Option<(Delivery, Option<InviteResponseEnvelope>)>;

/// Whether an invite was accepted and a first message sent in the session.
pub open spec fn opens_with(
    sender: SenderModel,
    invite: InviteModel,
    now: UnixSeconds,
    payload: Seq<u8>,
    session: Session,
    response: InviteResponseEnvelope,
    r: Result<MessageEnvelope, Error>,
) -> bool {
    &&& accepted(
        invite,
        now,
        sender.device,
        sender.secret,
        sender.device_id,
        sender.owner,
        Ok((session, response)),
    )
    &&& sends_payload(session@, now, payload, r)
}

/// Whether a device whose invite is known got a first message in a session
/// that the message starts.
pub open spec fn starts_session(
    sender: SenderModel,
    before: DeviceModel,
    after: DeviceModel,
    now: UnixSeconds,
    payload: Seq<u8>,
    session: Session,
    delivery: Delivery,
    response: InviteResponseEnvelope,
) -> bool {
    &&& opens_with(
        sender,
        before.public_invite->Some_0,
        now,
        payload,
        session,
        response,
        Ok(delivery.envelope),
    )
    &&& after == (DeviceModel {
        sessions: upserted_shelf(before.sessions, after_send(session@)),
        last_activity: Some(now),
        ..before
    })
}

/// Whether a result is that of a payload for one device, and a record what it
/// comes to. A device that is not authorized, or no longer, gets nothing.
pub open spec fn delivers(
    sender: SenderModel,
    before: DeviceModel,
    after: DeviceModel,
    now: UnixSeconds,
    payload: Seq<u8>,
    r: Result<DeviceOutcome, Error>,
) -> bool {
    if !before.authorized || before.is_stale {
        after == before && (r matches Ok(outcome) && outcome is None)
    } else {
        writes(sender, before, after, now, payload, r)
    }
}

/// Whether a result is that of a payload for one device that may be written
/// to: it goes through a session that can send, else through one that the
/// device's invite begins.
pub open spec fn writes(
    sender: SenderModel,
    before: DeviceModel,
    after: DeviceModel,
    now: UnixSeconds,
    payload: Seq<u8>,
    r: Result<DeviceOutcome, Error>,
) -> bool {
    match send_place(before.sessions) {
        Some(place) => match r {
            Ok(Some((delivery, None))) => {
                &&& sends_payload(
                    shelf_session(before.sessions, place),
                    now,
                    payload,
                    Ok(delivery.envelope),
                )
                &&& device_name(delivery.device_id) == before.device_id
                &&& after == (DeviceModel {
                    sessions: sent_shelf(before.sessions, place),
                    last_activity: Some(now),
                    ..before
                })
            },
            Err(e) => after == before && sends_payload(
                shelf_session(before.sessions, place),
                now,
                payload,
                Err(e),
            ),
            _ => false,
        },
        None => match before.public_invite {
            None => after == before && (r matches Ok(outcome) && outcome is None),
            Some(invite) => match r {
                Ok(Some((delivery, Some(response)))) => {
                    &&& device_name(delivery.device_id) == before.device_id
                    &&& exists|session: Session| #[trigger]
                        starts_session(
                            sender,
                            before,
                            after,
                            now,
                            payload,
                            session,
                            delivery,
                            response,
                        )
                },
                Err(e) => after == before && (accepted(
                    invite,
                    now,
                    sender.device,
                    sender.secret,
                    sender.device_id,
                    sender.owner,
                    Err(e),
                ) || exists|session: Session, response: InviteResponseEnvelope| #[trigger]
                    opens_with(sender, invite, now, payload, session, response, Err(e))),
                _ => false,
            },
        },
    }
}

/// What is known of a device that is known.
pub open spec fn record_of(m: ManagerModel, t: (OwnerPubkey, DevicePubkey)) -> DeviceModel {
    m.users[t.0].devices[t.1]
}

/// Whether two states know the same owners, rosters and devices, and differ
/// only in the records of some devices.
pub open spec fn differs_in(
    before: ManagerModel,
    after: ManagerModel,
    some: Seq<(OwnerPubkey, DevicePubkey)>,
) -> bool {
    &&& after == (ManagerModel { users: after.users, ..before })
    &&& after.users.dom() == before.users.dom()
    &&& forall|o: OwnerPubkey| #[trigger]
        before.users.contains_key(o) ==> after.users[o].roster == before.users[o].roster
            && after.users[o].devices.dom() == before.users[o].devices.dom()
    &&& forall|t: (OwnerPubkey, DevicePubkey)|
        before.users.contains_key(t.0) && before.users[t.0].devices.contains_key(t.1)
            && !some.contains(t) ==> #[trigger] record_of(after, t) == record_of(before, t)
}

/// Whether a payload was sent to devices with outcomes, one each.
pub open spec fn fans_out(
    before: ManagerModel,
    after: ManagerModel,
    now: UnixSeconds,
    payload: Seq<u8>,
    some: Seq<(OwnerPubkey, DevicePubkey)>,
    outcomes: Seq<DeviceOutcome>,
) -> bool {
    &&& outcomes.len() == some.len()
    &&& differs_in(before, after, some)
    &&& forall|i: int|
        0 <= i < some.len() ==> #[trigger] outcome_fits(before, after, now, payload, some, outcomes, i)
}

pub open spec fn outcome_fits(
    before: ManagerModel,
    after: ManagerModel,
    now: UnixSeconds,
    payload: Seq<u8>,
    some: Seq<(OwnerPubkey, DevicePubkey)>,
    outcomes: Seq<DeviceOutcome>,
    i: int,
) -> bool {
    &&& delivers(
        sender_of(before),
        record_of(before, some[i]),
        record_of(after, some[i]),
        now,
        payload,
        Ok(outcomes[i]),
    )
    &&& outcomes[i] matches Some((delivery, _)) ==> (
        delivery.owner_pubkey,
        delivery.device_pubkey,
    ) == some[i]
}

/// The messages of outcomes.
pub open spec fn deliveries_of(outcomes: Seq<DeviceOutcome>) -> Seq<Delivery>
    decreases outcomes.len(),
{
    if outcomes.len() == 0 {
        Seq::empty()
    } else {
        let rest = deliveries_of(outcomes.drop_last());
        match outcomes.last() {
            Some((delivery, _)) => rest.push(delivery),
            None => rest,
        }
    }
}

/// The responses of outcomes.
pub open spec fn responses_of(outcomes: Seq<DeviceOutcome>) -> Seq<InviteResponseEnvelope>
    decreases outcomes.len(),
{
    if outcomes.len() == 0 {
        Seq::empty()
    } else {
        let rest = responses_of(outcomes.drop_last());
        match outcomes.last() {
            Some((_, Some(response))) => rest.push(response),
            _ => rest,
        }
    }
}

/// What a gap says.
#[verifier::ext_equal]
pub enum GapModel {
    Roster(OwnerPubkey),
    DeviceInvite(OwnerPubkey, DevicePubkey, Option<Seq<char>>),
}

impl View for RelayGap {
    type V = GapModel;

    open spec fn view(&self) -> GapModel {
        match *self {
            RelayGap::MissingRoster { owner_pubkey } => GapModel::Roster(owner_pubkey),
            RelayGap::MissingDeviceInvite {
                owner_pubkey,
                device_pubkey,
                device_id,
            } => GapModel::DeviceInvite(owner_pubkey, device_pubkey, device_name(device_id)),
        }
    }
}

/// Whether a name comes before another, where having none comes first.
pub open spec fn name_before(a: Option<Seq<char>>, b: Option<Seq<char>>) -> bool {
    match (a, b) {
        (None, Some(_)) => true,
        (Some(x), Some(y)) => <DeviceId as OrderedKey>::before(x, y),
        _ => false,
    }
}

impl OrderedKey for RelayGap {
    type Id = GapModel;

    open spec fn id(&self) -> GapModel {
        self@
    }

    open spec fn before(a: GapModel, b: GapModel) -> bool {
        match (a, b) {
            (GapModel::Roster(x), GapModel::Roster(y)) => <OwnerPubkey as OrderedKey>::before(x, y),
            (GapModel::Roster(_), GapModel::DeviceInvite(_, _, _)) => true,
            (GapModel::DeviceInvite(_, _, _), GapModel::Roster(_)) => false,
            (GapModel::DeviceInvite(o, d, n), GapModel::DeviceInvite(p, e, m)) => {
                ||| <TargetDevice as OrderedKey>::before((o, d), (p, e))
                ||| (o, d) == (p, e) && name_before(n, m)
            },
        }
    }

    proof fn before_irreflexive(a: GapModel) {
        match a {
            GapModel::Roster(x) => <OwnerPubkey as OrderedKey>::before_irreflexive(x),
            GapModel::DeviceInvite(o, d, n) => {
                <TargetDevice as OrderedKey>::before_irreflexive((o, d));
                if n is Some {
                    <DeviceId as OrderedKey>::before_irreflexive(n->Some_0);
                }
            },
        }
    }

    proof fn before_transitive(a: GapModel, b: GapModel, c: GapModel) {
        match (a, b, c) {
            (GapModel::Roster(x), GapModel::Roster(y), GapModel::Roster(z)) => {
                <OwnerPubkey as OrderedKey>::before_transitive(x, y, z);
            },
            (
                GapModel::DeviceInvite(o, d, n),
                GapModel::DeviceInvite(p, e, m),
                GapModel::DeviceInvite(q, f, l),
            ) => {
                if (o, d) != (p, e) && (p, e) != (q, f) {
                    <TargetDevice as OrderedKey>::before_transitive((o, d), (p, e), (q, f));
                } else {
                    <TargetDevice as OrderedKey>::before_irreflexive((p, e));
                }
                if n is Some && m is Some && l is Some && name_before(n, m) && name_before(m, l) {
                    <DeviceId as OrderedKey>::before_transitive(
                        n->Some_0,
                        m->Some_0,
                        l->Some_0,
                    );
                }
            },
            _ => {},
        }
    }

    proof fn before_total(a: GapModel, b: GapModel) {
        match (a, b) {
            (GapModel::Roster(x), GapModel::Roster(y)) => {
                <OwnerPubkey as OrderedKey>::before_total(x, y);
            },
            (GapModel::DeviceInvite(o, d, n), GapModel::DeviceInvite(p, e, m)) => {
                <TargetDevice as OrderedKey>::before_total((o, d), (p, e));
                if n is Some && m is Some {
                    <DeviceId as OrderedKey>::before_total(n->Some_0, m->Some_0);
                }
            },
            _ => {},
        }
    }

    fn precedes(&self, other: &RelayGap) -> (r: bool) {
        match (self, other) {
            (
                RelayGap::MissingRoster { owner_pubkey: a },
                RelayGap::MissingRoster { owner_pubkey: b },
            ) => a.precedes(b),
            (RelayGap::MissingRoster { .. }, RelayGap::MissingDeviceInvite { .. }) => true,
            (RelayGap::MissingDeviceInvite { .. }, RelayGap::MissingRoster { .. }) => false,
            (
                RelayGap::MissingDeviceInvite {
                    owner_pubkey: o,
                    device_pubkey: d,
                    device_id: n,
                },
                RelayGap::MissingDeviceInvite {
                    owner_pubkey: p,
                    device_pubkey: e,
                    device_id: m,
                },
            ) => {
                let a = TargetDevice { owner_pubkey: *o, device_pubkey: *d };
                let b = TargetDevice { owner_pubkey: *p, device_pubkey: *e };
                let by_name: bool = match (n, m) {
                    (None, Some(_)) => true,
                    (Some(x), Some(y)) => x.precedes(y),
                    _ => false,
                };
                proof {
                    <TargetDevice as OrderedKey>::before_total(a.id(), b.id());
                    <TargetDevice as OrderedKey>::before_irreflexive(a.id());
                    if <TargetDevice as OrderedKey>::before(a.id(), b.id()) && <
                        TargetDevice as OrderedKey
                    >::before(b.id(), a.id()) {
                        <TargetDevice as OrderedKey>::before_transitive(a.id(), b.id(), a.id());
                    }
                }
                a.precedes(&b) || (!b.precedes(&a) && by_name)
            },
        }
    }

    fn duplicate(&self) -> (r: RelayGap) {
        match self {
            RelayGap::MissingRoster { owner_pubkey } => RelayGap::MissingRoster {
                owner_pubkey: *owner_pubkey,
            },
            RelayGap::MissingDeviceInvite {
                owner_pubkey,
                device_pubkey,
                device_id,
            } => RelayGap::MissingDeviceInvite {
                owner_pubkey: *owner_pubkey,
                device_pubkey: *device_pubkey,
                device_id: device_id.clone(),
            },
        }
    }
}

pub open spec fn gap_models(gaps: Seq<RelayGap>) -> Seq<GapModel> {
    Seq::new(gaps.len(), |i: int| gaps[i]@)
}

/// The roster that is missing, if it is.
pub open spec fn roster_gaps(m: ManagerModel, recipient: OwnerPubkey) -> Seq<GapModel> {
    if m.users.contains_key(recipient) && m.users[recipient].roster is Some {
        Seq::empty()
    } else {
        seq![GapModel::Roster(recipient)]
    }
}

/// What is missing after some devices were written to: what was missing before
/// first, then invites in the order of the devices.
pub open spec fn gaps_of(
    m: ManagerModel,
    first: Seq<GapModel>,
    some: Seq<(OwnerPubkey, DevicePubkey)>,
    outcomes: Seq<DeviceOutcome>,
) -> Seq<GapModel>
    decreases outcomes.len(),
{
    if outcomes.len() == 0 {
        first
    } else {
        let rest = gaps_of(m, first, some, outcomes.drop_last());
        let t = some[outcomes.len() - 1];
        match outcomes.last() {
            Some(_) => rest,
            None => rest.push(GapModel::DeviceInvite(t.0, t.1, record_of(m, t).device_id)),
        }
    }
}

/// To which devices a payload goes, and what is missing beforehand.
#[verifier::ext_equal]
pub struct Audience {
    pub devices: Seq<(OwnerPubkey, DevicePubkey)>,
    pub gaps: Seq<GapModel>,
}

/// Those to whom a payload for an owner goes.
pub open spec fn audience(m: ManagerModel, recipient: OwnerPubkey) -> Audience {
    Audience { devices: targets(m, recipient), gaps: roster_gaps(m, recipient) }
}

/// The devices of an owner that can be written to, but for the sender itself.
pub open spec fn devices_of(m: ManagerModel, owner: OwnerPubkey) -> Set<
    (OwnerPubkey, DevicePubkey),
> {
    Set::new(
        |t: (OwnerPubkey, DevicePubkey)|
            reachable(m, t.0, t.1) && t.0 == owner && t.1 != m.device,
    )
}

/// The devices of an owner but the sender's own.
pub open spec fn remote_audience(m: ManagerModel, recipient: OwnerPubkey) -> Audience {
    Audience {
        devices: ordered::<TargetDevice>(devices_of(m, recipient)),
        gaps: roster_gaps(m, recipient),
    }
}

/// The sender's other devices.
pub open spec fn sibling_audience(m: ManagerModel) -> Audience {
    Audience {
        devices: ordered::<TargetDevice>(devices_of(m, m.owner)),
        gaps: Seq::empty(),
    }
}

/// Whether a prepared message is that of outcomes for all devices to which it
/// goes.
pub open spec fn prepares_with(
    before: ManagerModel,
    after: ManagerModel,
    now: UnixSeconds,
    recipient: OwnerPubkey,
    to: Audience,
    payload: Seq<u8>,
    outcomes: Seq<DeviceOutcome>,
    prepared: PreparedSend,
) -> bool {
    &&& fans_out(before, after, now, payload, to.devices, outcomes)
    &&& prepared.recipient_owner == recipient
    &&& prepared.payload@ == payload
    &&& prepared.deliveries@ == deliveries_of(outcomes)
    &&& prepared.invite_responses@ == responses_of(outcomes)
    &&& gap_models(prepared.relay_gaps@) == gaps_of(before, to.gaps, to.devices, outcomes)
}

/// Whether sending failed at a device, after those before it were tried.
pub open spec fn fails_with(
    before: ManagerModel,
    mid: ManagerModel,
    now: UnixSeconds,
    to: Audience,
    payload: Seq<u8>,
    outcomes: Seq<DeviceOutcome>,
    e: Error,
) -> bool {
    let n = outcomes.len() as int;
    &&& n < to.devices.len()
    &&& fans_out(before, mid, now, payload, to.devices.take(n), outcomes)
    &&& delivers(
        sender_of(before),
        record_of(before, to.devices[n]),
        record_of(before, to.devices[n]),
        now,
        payload,
        Err(e),
    )
}

/// Whether a result is that of sending a payload to an owner. Where a device
/// fails, nothing changes.
pub open spec fn prepares(
    before: ManagerModel,
    after: ManagerModel,
    now: UnixSeconds,
    recipient: OwnerPubkey,
    to: Audience,
    payload: Seq<u8>,
    r: Result<PreparedSend, Error>,
) -> bool {
    match r {
        Ok(prepared) => exists|outcomes: Seq<DeviceOutcome>| #[trigger]
            prepares_with(before, after, now, recipient, to, payload, outcomes, prepared),
        Err(e) => after == before && exists|mid: ManagerModel, outcomes: Seq<DeviceOutcome>| #[trigger]
            fails_with(before, mid, now, to, payload, outcomes, e),
    }
}

/// Whether the record of a device was kept as it was.
spec fn saved_at(
    before: ManagerModel,
    devices: Seq<(OwnerPubkey, DevicePubkey)>,
    saved: Seq<DeviceRecordSnapshot>,
    i: int,
) -> bool {
    let t = devices[i];
    &&& before.users.contains_key(t.0)
    &&& before.users[t.0].devices.contains_key(t.1)
    &&& saved[i]@ == record_of(before, t)
}

proof fn lemma_no_difference(before: ManagerModel, after: ManagerModel)
    requires
        differs_in(before, after, Seq::empty()),
    ensures
        after == before,
{
    assert forall|o: OwnerPubkey| #[trigger] before.users.contains_key(o) implies after.users[o]
        == before.users[o] by {
        assert forall|d: DevicePubkey| #[trigger]
            before.users[o].devices.contains_key(d) implies after.users[o].devices[d]
            == before.users[o].devices[d] by {
            assert(record_of(after, (o, d)) == record_of(before, (o, d)));
        }
        assert(after.users[o].devices =~= before.users[o].devices);
    }
    assert(after.users =~= before.users);
}

proof fn lemma_put_back(
    before: ManagerModel,
    mid: ManagerModel,
    after: ManagerModel,
    some: Seq<(OwnerPubkey, DevicePubkey)>,
)
    requires
        some.len() > 0,
        differs_in(before, mid, some),
        before.users.contains_key(some[0].0),
        before.users[some[0].0].devices.contains_key(some[0].1),
        after == with_record(mid, some[0].0, some[0].1, record_of(before, some[0])),
    ensures
        differs_in(before, after, some.drop_first()),
{
    let t = some[0];
    let rest = some.drop_first();
    assert(mid.users.dom().contains(t.0));
    assert(mid.users[t.0].devices.dom().contains(t.1));
    assert(after.users.dom() =~= before.users.dom());
    assert(after.users[t.0].devices.dom() =~= before.users[t.0].devices.dom());
    assert forall|u: (OwnerPubkey, DevicePubkey)|
        before.users.contains_key(u.0) && before.users[u.0].devices.contains_key(u.1)
            && !rest.contains(u) implies #[trigger] record_of(after, u) == record_of(before, u) by {
        if u != t {
            if some.contains(u) {
                let i = choose|i: int| 0 <= i < some.len() && some[i] == u;
                assert(rest[i - 1] == u);
            }
            assert(record_of(mid, u) == record_of(before, u));
        }
    }
}

impl SessionManager {
    /// Puts records of devices back as they were.
    fn put_back(
        &mut self,
        set: &VecSet<TargetDevice>,
        saved: &Vec<DeviceRecordSnapshot>,
        before: Ghost<ManagerModel>,
    )
        requires
            saved@.len() <= ordered::<TargetDevice>(set@).len(),
            differs_in(
                before@,
                old(self)@,
                ordered::<TargetDevice>(set@).take(saved@.len() as int),
            ),
            forall|i: int|
                0 <= i < saved@.len() ==> #[trigger] saved_at(
                    before@,
                    ordered::<TargetDevice>(set@),
                    saved@,
                    i,
                ),
        ensures
            final(self)@ == before@,
    {
        let ghost all = ordered::<TargetDevice>(set@);
        let ghost some = all.take(saved@.len() as int);
        assert(some.skip(0) =~= some);
        let mut i: usize = 0;
        while i < saved.len()
            invariant
                i <= saved@.len(),
                all == ordered::<TargetDevice>(set@),
                saved@.len() <= all.len(),
                some == all.take(saved@.len() as int),
                differs_in(before@, self@, some.skip(i as int)),
                forall|j: int|
                    0 <= j < saved@.len() ==> #[trigger] saved_at(before@, all, saved@, j),
            decreases saved@.len() - i,
        {
            let target = *set.at(i);
            let ghost t = all[i as int];
            let ghost mid = self@;
            assert(saved_at(before@, all, saved@, i as int));
            let mut user = self.take_user(target.owner_pubkey);
            let ghost known = user@;
            user.put_device(target.device_pubkey, DeviceRecord::from_snapshot(&saved[i]));
            self.put_user(target.owner_pubkey, user);
            proof {
                assert(target.id() == t);
                assert(some.skip(i as int)[0] == t);
                assert(self@.users =~= with_record(
                    mid,
                    t.0,
                    t.1,
                    record_of(before@, t),
                ).users);
                lemma_put_back(before@, mid, self@, some.skip(i as int));
                assert(some.skip(i as int).drop_first() =~= some.skip(i + 1));
            }
            i = i + 1;
        }
        proof {
            assert(some.skip(i as int) =~= Seq::empty());
            lemma_no_difference(before@, self@);
        }
    }
}

impl SessionManager {
    /// Adds the devices of an owner that can be written to.
    fn collect_targets(
        &self,
        owner_pubkey: OwnerPubkey,
        with_local_device: bool,
        targets: &mut VecSet<TargetDevice>,
    ) -> (r: bool)
        ensures
            forall|t: (OwnerPubkey, DevicePubkey)| #[trigger]
                final(targets)@.contains(t) <==> old(targets)@.contains(t) || (t.0 == owner_pubkey
                    && reachable(self@, t.0, t.1) && (with_local_device || t.1 != self@.device)),
            r == (self@.users.contains_key(owner_pubkey) && self@.users[owner_pubkey].roster
                is Some),
    {
        let user = match self.users.get(&owner_pubkey) {
            Some(user) => user,
            None => {
                return false;
            },
        };
        assert(user@ == self@.users[owner_pubkey]);
        if user.roster.is_none() {
            return false;
        }
        let n: usize = user.devices.len();
        let ghost order = user.devices.order();
        let mut i: usize = 0;
        while i < n
            invariant
                i <= n,
                n == order.len(),
                order == user.devices.order(),
                lists::<DevicePubkey>(order, user.devices@.dom()),
                user@ == self@.users[owner_pubkey],
                self@.users.contains_key(owner_pubkey),
                user@.roster is Some,
                forall|t: (OwnerPubkey, DevicePubkey)| #[trigger]
                    targets@.contains(t) <==> old(targets)@.contains(t) || (t.0 == owner_pubkey
                        && reachable(self@, t.0, t.1) && (with_local_device || t.1 != self@.device)
                        && exists|j: int| 0 <= j < i && #[trigger] order[j] == t.1),
            decreases n - i,
        {
            let device_pubkey = *user.devices.key_at(i);
            let record = user.devices.value_at(i);
            assert(record@ == user@.devices[order[i as int]]);
            assert(user@.devices.contains_key(order[i as int]));
            let ghost before = targets@;
            let wanted: bool = record.authorized && !record.is_stale && (with_local_device
                || device_pubkey != self.local_device_pubkey);
            if wanted {
                targets.insert(TargetDevice { owner_pubkey, device_pubkey });
            }
            proof {
                assert(wanted ==> targets@ == before.insert((owner_pubkey, device_pubkey)));
                assert forall|t: (OwnerPubkey, DevicePubkey)| #[trigger] targets@.contains(t) <==> old(
                    targets,
                )@.contains(t) || (t.0 == owner_pubkey && reachable(self@, t.0, t.1) && (
                with_local_device || t.1 != self@.device) && exists|j: int|
                    0 <= j < i + 1 && #[trigger] order[j] == t.1) by {
                    if t == (owner_pubkey, device_pubkey) {
                        assert(order[i as int] == t.1);
                    }
                    if before.contains(t) && !old(targets)@.contains(t) {
                        let j = choose|j: int| 0 <= j < i && #[trigger] order[j] == t.1;
                        assert(order[j] == t.1);
                    }
                    if t.0 == owner_pubkey && exists|j: int|
                        0 <= j < i + 1 && #[trigger] order[j] == t.1 {
                        let j = choose|j: int| 0 <= j < i + 1 && #[trigger] order[j] == t.1;
                        if j < i {
                            assert(order[j] == t.1);
                        }
                    }
                }
            }
            i = i + 1;
        }
        proof {
            assert forall|t: (OwnerPubkey, DevicePubkey)| t.0 == owner_pubkey && #[trigger] reachable(
                self@,
                t.0,
                t.1,
            ) implies exists|j: int| 0 <= j < n && #[trigger] order[j] == t.1 by {
                assert(user.devices@.dom().contains(t.1));
                assert(order.contains(t.1));
            }
        }
        true
    }

    /// Writes to one device.
    fn prepare_device_delivery(
        &mut self,
        ctx: &mut ProtocolContext<'_>,
        owner_pubkey: OwnerPubkey,
        device_pubkey: DevicePubkey,
        payload: &[u8],
    ) -> (r: Result<DeviceOutcome, Error>)
        ensures
            final(ctx).now_secs == old(ctx).now_secs,
            final(ctx).now_millis == old(ctx).now_millis,
            final(self)@ == with_record(
                old(self)@,
                owner_pubkey,
                device_pubkey,
                record_of(final(self)@, (owner_pubkey, device_pubkey)),
            ),
            delivers(
                sender_of(old(self)@),
                record_or_fresh(
                    user_or_fresh(old(self)@, owner_pubkey).devices,
                    device_pubkey,
                    old(ctx).now_secs,
                ),
                record_of(final(self)@, (owner_pubkey, device_pubkey)),
                old(ctx).now_secs,
                payload@,
                r,
            ),
            r matches Ok(Some((delivery, _))) ==> delivery.owner_pubkey == owner_pubkey
                && delivery.device_pubkey == device_pubkey,
    {
        let ghost before = self@;
        let claimed_owner: Option<OwnerPubkey> = if self.local_owner_pubkey
            == self.local_device_pubkey.as_owner() {
            None
        } else {
            Some(self.local_owner_pubkey)
        };
        let mut user = self.take_user(owner_pubkey);
        let mut record = user.take_device(device_pubkey, ctx.now_secs);
        let r = self.write_to(ctx, owner_pubkey, device_pubkey, claimed_owner, &mut record, payload);
        let ghost after = record@;
        user.put_device(device_pubkey, record);
        let ghost user_after = user@;
        self.put_user(owner_pubkey, user);
        proof {
            assert(user_after.devices =~= user_or_fresh(before, owner_pubkey).devices.insert(
                device_pubkey,
                after,
            ));
            assert(self@.users =~= before.users.insert(owner_pubkey, user_after));
            assert(record_of(self@, (owner_pubkey, device_pubkey)) == after);
        }
        r
    }

    fn write_to(
        &self,
        ctx: &mut ProtocolContext<'_>,
        owner_pubkey: OwnerPubkey,
        device_pubkey: DevicePubkey,
        claimed_owner: Option<OwnerPubkey>,
        record: &mut DeviceRecord,
        payload: &[u8],
    ) -> (r: Result<DeviceOutcome, Error>)
        requires
            claimed_owner == sender_of(self@).owner,
        ensures
            final(ctx).now_secs == old(ctx).now_secs,
            final(ctx).now_millis == old(ctx).now_millis,
            delivers(sender_of(self@), old(record)@, final(record)@, old(ctx).now_secs, payload@, r),
            r matches Ok(Some((delivery, _))) ==> delivery.owner_pubkey == owner_pubkey
                && delivery.device_pubkey == device_pubkey,
    {
        let now = ctx.now_secs;
        let ghost before = record@;
        if !record.authorized || record.is_stale {
            return Ok(None);
        }
        if let Some(place) = record.sessions.best_send_place() {
            return match record.sessions.send_from(place, payload, now) {
                Err(e) => {
                    assert(record@ =~= before);
                    Err(e)
                },
                Ok(envelope) => {
                    record.last_activity = Some(now);
                    Ok(
                        Some(
                            (
                                Delivery {
                                    owner_pubkey,
                                    device_pubkey,
                                    device_id: record.device_id.clone(),
                                    envelope,
                                },
                                None,
                            ),
                        ),
                    )
                },
            };
        }
        let public_invite = match &record.public_invite {
            Some(invite) => invite,
            None => {
                return Ok(None);
            },
        };
        let (mut session, response) = match public_invite.accept_with_owner(
            ctx,
            self.local_device_pubkey,
            self.local_device_secret_key,
            self.local_device_id.clone(),
            claimed_owner,
        ) {
            Ok(started) => started,
            Err(e) => {
                return Err(e);
            },
        };
        let ghost started = session;
        let sent = send_payload(&mut session, payload, now);
        let envelope = match sent {
            Err(e) => {
                assert(opens_with(
                    sender_of(self@),
                    before.public_invite->Some_0,
                    now,
                    payload@,
                    started,
                    response,
                    Err(e),
                ));
                return Err(e);
            },
            Ok(envelope) => envelope,
        };
        record.upsert_session(session, now);
        let delivery = Delivery {
            owner_pubkey,
            device_pubkey,
            device_id: record.device_id.clone(),
            envelope,
        };
        let r: Result<DeviceOutcome, Error> = Ok(Some((delivery, Some(response))));
        assert(starts_session(
            sender_of(self@),
            before,
            record@,
            now,
            payload@,
            started,
            r->Ok_0->Some_0.0,
            r->Ok_0->Some_0.1->Some_0,
        ));
        r
    }

    /// Prepares a payload for all devices of its recipient and for the other
    /// devices of the sender. Where one of them fails, nothing changes.
    pub fn prepare_send(
        &mut self,
        ctx: &mut ProtocolContext<'_>,
        recipient_owner: OwnerPubkey,
        payload: Vec<u8>,
    ) -> (r: Result<PreparedSend, Error>)
        ensures
            final(ctx).now_secs == old(ctx).now_secs,
            final(ctx).now_millis == old(ctx).now_millis,
            prepares(
                old(self)@,
                final(self)@,
                old(ctx).now_secs,
                recipient_owner,
                audience(old(self)@, recipient_owner),
                payload@,
                r,
            ),
            orderly(old(self)@) ==> orderly(final(self)@),
    {
        let ghost before = self@;
        let mut relay_gaps: Vec<RelayGap> = Vec::new();
        let mut set: VecSet<TargetDevice> = VecSet::new();
        if !self.collect_targets(recipient_owner, true, &mut set) {
            relay_gaps.push(RelayGap::MissingRoster { owner_pubkey: recipient_owner });
        }
        let local_owner_pubkey = self.local_owner_pubkey;
        let _ = self.collect_targets(local_owner_pubkey, false, &mut set);
        assert(set@ =~= target_set(self@, recipient_owner));
        assert(gap_models(relay_gaps@) =~= roster_gaps(self@, recipient_owner));
        let ghost bytes = payload@;
        let r = self.prepare_for(ctx, recipient_owner, payload, set, relay_gaps);
        proof {
            if orderly(before) {
                lemma_sending(
                    before,
                    self@,
                    ctx.now_secs,
                    recipient_owner,
                    audience(before, recipient_owner),
                    bytes,
                    r,
                );
            }
        }
        r
    }

    /// Prepares a payload for the devices of its recipient alone.
    pub fn prepare_remote_send(
        &mut self,
        ctx: &mut ProtocolContext<'_>,
        recipient_owner: OwnerPubkey,
        payload: Vec<u8>,
    ) -> (r: Result<PreparedSend, Error>)
        ensures
            final(ctx).now_secs == old(ctx).now_secs,
            final(ctx).now_millis == old(ctx).now_millis,
            prepares(
                old(self)@,
                final(self)@,
                old(ctx).now_secs,
                recipient_owner,
                remote_audience(old(self)@, recipient_owner),
                payload@,
                r,
            ),
            orderly(old(self)@) ==> orderly(final(self)@),
    {
        let ghost before = self@;
        let mut relay_gaps: Vec<RelayGap> = Vec::new();
        let mut set: VecSet<TargetDevice> = VecSet::new();
        if !self.collect_targets(recipient_owner, false, &mut set) {
            relay_gaps.push(RelayGap::MissingRoster { owner_pubkey: recipient_owner });
        }
        assert(set@ =~= devices_of(self@, recipient_owner));
        assert(gap_models(relay_gaps@) =~= roster_gaps(self@, recipient_owner));
        let ghost bytes = payload@;
        let r = self.prepare_for(ctx, recipient_owner, payload, set, relay_gaps);
        proof {
            if orderly(before) {
                lemma_sending(
                    before,
                    self@,
                    ctx.now_secs,
                    recipient_owner,
                    remote_audience(before, recipient_owner),
                    bytes,
                    r,
                );
            }
        }
        r
    }

    /// Prepares a payload for the other devices of the sender.
    pub fn prepare_local_sibling_send(
        &mut self,
        ctx: &mut ProtocolContext<'_>,
        payload: Vec<u8>,
    ) -> (r: Result<PreparedSend, Error>)
        ensures
            final(ctx).now_secs == old(ctx).now_secs,
            final(ctx).now_millis == old(ctx).now_millis,
            prepares(
                old(self)@,
                final(self)@,
                old(ctx).now_secs,
                old(self)@.owner,
                sibling_audience(old(self)@),
                payload@,
                r,
            ),
            orderly(old(self)@) ==> orderly(final(self)@),
    {
        let ghost before = self@;
        let relay_gaps: Vec<RelayGap> = Vec::new();
        let mut set: VecSet<TargetDevice> = VecSet::new();
        let local_owner_pubkey = self.local_owner_pubkey;
        let _ = self.collect_targets(local_owner_pubkey, false, &mut set);
        assert(set@ =~= devices_of(self@, self@.owner));
        assert(gap_models(relay_gaps@) =~= Seq::empty());
        let ghost bytes = payload@;
        let r = self.prepare_for(ctx, local_owner_pubkey, payload, set, relay_gaps);
        proof {
            if orderly(before) {
                lemma_sending(
                    before,
                    self@,
                    ctx.now_secs,
                    local_owner_pubkey,
                    sibling_audience(before),
                    bytes,
                    r,
                );
            }
        }
        r
    }

    /// Prepares a payload for devices that can be written to.
    fn prepare_for(
        &mut self,
        ctx: &mut ProtocolContext<'_>,
        recipient_owner: OwnerPubkey,
        payload: Vec<u8>,
        set: VecSet<TargetDevice>,
        missing: Vec<RelayGap>,
    ) -> (r: Result<PreparedSend, Error>)
        requires
            forall|t: (OwnerPubkey, DevicePubkey)| #[trigger]
                set@.contains(t) ==> reachable(old(self)@, t.0, t.1),
        ensures
            final(ctx).now_secs == old(ctx).now_secs,
            final(ctx).now_millis == old(ctx).now_millis,
            prepares(
                old(self)@,
                final(self)@,
                old(ctx).now_secs,
                recipient_owner,
                Audience {
                    devices: ordered::<TargetDevice>(set@),
                    gaps: gap_models(missing@),
                },
                payload@,
                r,
            ),
    {
        let ghost before = self@;
        let ghost now = ctx.now_secs;
        let ghost first = gap_models(missing@);
        let mut relay_gaps = missing;
        let mut deliveries: Vec<Delivery> = Vec::new();
        let mut invite_responses: Vec<InviteResponseEnvelope> = Vec::new();
        let mut saved: Vec<DeviceRecordSnapshot> = Vec::new();
        let n: usize = set.len();
        let ghost all = ordered::<TargetDevice>(set@);
        let ghost to = Audience { devices: all, gaps: first };
        let ghost mut outcomes: Seq<DeviceOutcome> = Seq::empty();
        let mut i: usize = 0;
        assert(all.take(0) =~= Seq::empty());
        while i < n
            invariant
                i <= n,
                n == all.len(),
                before == old(self)@,
                to == (Audience { devices: all, gaps: first }),
                first == gap_models(missing@),
                all == ordered::<TargetDevice>(set@),
                lists::<TargetDevice>(all, set@),
                forall|t: (OwnerPubkey, DevicePubkey)| #[trigger]
                    set@.contains(t) ==> reachable(before, t.0, t.1),
                outcomes.len() == i,
                now == old(ctx).now_secs,
                ctx.now_secs == now,
                ctx.now_millis == old(ctx).now_millis,
                fans_out(before, self@, now, payload@, all.take(i as int), outcomes),
                saved@.len() == i,
                forall|j: int| 0 <= j < i ==> #[trigger] saved_at(before, all, saved@, j),
                deliveries@ == deliveries_of(outcomes),
                invite_responses@ == responses_of(outcomes),
                gap_models(relay_gaps@) == gaps_of(before, first, all, outcomes),
            decreases n - i,
        {
            let target = *set.at(i);
            let ghost t = all[i as int];
            let ghost mid = self@;
            proof {
                assert(target.id() == t);
                assert(all.contains(t));
                assert(set@.contains(t));
                assert(reachable(before, t.0, t.1));
                assert forall|j: int| 0 <= j < i implies all[j] != t by {
                    lists_distinct::<TargetDevice>(all, set@, j, i as int);
                }
                assert(!all.take(i as int).contains(t));
                assert(mid.users.dom().contains(t.0));
                assert(mid.users.contains_key(t.0));
                assert(before.users.contains_key(t.0));
                assert(mid.users[t.0].devices.dom().contains(t.1));
                assert(record_of(mid, t) == record_of(before, t));
            }
            let record = self.record_snapshot(target.owner_pubkey, target.device_pubkey);
            let outcome = self.prepare_device_delivery(
                ctx,
                target.owner_pubkey,
                target.device_pubkey,
                payload.as_slice(),
            );
            assert(sender_of(mid) == sender_of(before));
            match outcome {
                Err(e) => {
                    proof {
                        assert(record_of(self@, t) == record_of(mid, t));
                        lemma_unchanged(mid, self@, t);
                    }
                    let r: Result<PreparedSend, Error> = Err(e);
                    assert(fails_with(before, mid, now, to, payload@, outcomes, r->Err_0));
                    self.put_back(&set, &saved, Ghost(before));
                    return r;
                },
                Ok(found) => {
                    let ghost kept = saved@;
                    saved.push(record);
                    assert forall|j: int| 0 <= j < i + 1 implies #[trigger] saved_at(
                        before,
                        all,
                        saved@,
                        j,
                    ) by {
                        if j < i {
                            assert(saved_at(before, all, kept, j));
                        }
                    }
                    let ghost more = outcomes.push(found);
                    proof {
                        lemma_fan_out_step(
                            before,
                            mid,
                            self@,
                            now,
                            payload@,
                            all,
                            outcomes,
                            found,
                        );
                        assert(more.drop_last() =~= outcomes);
                    }
                    match found {
                        Some((delivery, maybe_response)) => {
                            deliveries.push(delivery);
                            if let Some(response) = maybe_response {
                                invite_responses.push(response);
                            }
                        },
                        None => {
                            let ghost gaps = gap_models(relay_gaps@);
                            let device_id = self.device_id_of(
                                target.owner_pubkey,
                                target.device_pubkey,
                            );
                            relay_gaps.push(
                                RelayGap::MissingDeviceInvite {
                                    owner_pubkey: target.owner_pubkey,
                                    device_pubkey: target.device_pubkey,
                                    device_id,
                                },
                            );
                            assert(gap_models(relay_gaps@) =~= gaps.push(
                                GapModel::DeviceInvite(t.0, t.1, record_of(before, t).device_id),
                            ));
                        },
                    }
                    proof {
                        outcomes = more;
                    }
                },
            }
            i = i + 1;
        }
        assert(all.take(i as int) =~= all);
        let prepared = PreparedSend {
            recipient_owner,
            payload,
            deliveries,
            invite_responses,
            relay_gaps,
        };
        let r: Result<PreparedSend, Error> = Ok(prepared);
        assert(prepares_with(
            before,
            self@,
            now,
            recipient_owner,
            to,
            prepared.payload@,
            outcomes,
            r->Ok_0,
        ));
        r
    }

    fn record_snapshot(&self, owner_pubkey: OwnerPubkey, device_pubkey: DevicePubkey) -> (r:
        DeviceRecordSnapshot)
        requires
            self@.users.contains_key(owner_pubkey),
            self@.users[owner_pubkey].devices.contains_key(device_pubkey),
        ensures
            r@ == record_of(self@, (owner_pubkey, device_pubkey)),
    {
        if let Some(user) = self.users.get(&owner_pubkey) {
            assert(user@ == self@.users[owner_pubkey]);
            if let Some(record) = user.devices.get(&device_pubkey) {
                assert(record@ == user@.devices[device_pubkey]);
                return record.snapshot(device_pubkey);
            }
        }
        assert(false);
        vstd::pervasive::unreached()
    }

    fn device_id_of(&self, owner_pubkey: OwnerPubkey, device_pubkey: DevicePubkey) -> (r: Option<
        DeviceId,
    >)
        requires
            self@.users.contains_key(owner_pubkey),
            self@.users[owner_pubkey].devices.contains_key(device_pubkey),
        ensures
            device_name(r) == record_of(self@, (owner_pubkey, device_pubkey)).device_id,
    {
        match self.users.get(&owner_pubkey) {
            Some(user) => {
                assert(user@ == self@.users[owner_pubkey]);
                match user.devices.get(&device_pubkey) {
                    Some(record) => {
                        assert(record@ == user@.devices[device_pubkey]);
                        record.device_id.clone()
                    },
                    None => None,
                }
            },
            None => None,
        }
    }
}

/// A state into which a record was put that was there already.
proof fn lemma_unchanged(before: ManagerModel, after: ManagerModel, t: (OwnerPubkey, DevicePubkey))
    requires
        before.users.contains_key(t.0),
        before.users[t.0].devices.contains_key(t.1),
        after == with_record(before, t.0, t.1, record_of(before, t)),
    ensures
        after == before,
{
    assert(after.users[t.0].devices =~= before.users[t.0].devices);
    assert(after.users =~= before.users);
}

proof fn lemma_fan_out_step(
    before: ManagerModel,
    mid: ManagerModel,
    after: ManagerModel,
    now: UnixSeconds,
    payload: Seq<u8>,
    all: Seq<(OwnerPubkey, DevicePubkey)>,
    outcomes: Seq<DeviceOutcome>,
    outcome: DeviceOutcome,
)
    requires
        outcomes.len() < all.len(),
        fans_out(before, mid, now, payload, all.take(outcomes.len() as int), outcomes),
        ({
            let t = all[outcomes.len() as int];
            &&& before.users.contains_key(t.0)
            &&& before.users[t.0].devices.contains_key(t.1)
            &&& after == with_record(mid, t.0, t.1, record_of(after, t))
            &&& delivers(
                sender_of(before),
                record_of(before, t),
                record_of(after, t),
                now,
                payload,
                Ok(outcome),
            )
            &&& outcome matches Some((delivery, _)) ==> (
                delivery.owner_pubkey,
                delivery.device_pubkey,
            ) == t
            &&& forall|j: int| 0 <= j < outcomes.len() ==> all[j] != t
        }),
    ensures
        fans_out(
            before,
            after,
            now,
            payload,
            all.take(outcomes.len() as int + 1),
            outcomes.push(outcome),
        ),
{
    let n = outcomes.len() as int;
    let t = all[n];
    let some = all.take(n);
    let more = all.take(n + 1);
    let pushed = outcomes.push(outcome);
    assert(mid.users.dom().contains(t.0));
    assert(mid.users.contains_key(t.0));
    assert(mid.users[t.0].devices.dom().contains(t.1));
    assert(after.users.dom() =~= before.users.dom());
    assert forall|o: OwnerPubkey| #[trigger] before.users.contains_key(o) implies after.users[o].roster
        == before.users[o].roster && after.users[o].devices.dom()
        == before.users[o].devices.dom() by {
        assert(mid.users.dom().contains(o));
        assert(after.users[o].devices.dom() =~= before.users[o].devices.dom());
    }
    assert forall|u: (OwnerPubkey, DevicePubkey)|
        before.users.contains_key(u.0) && before.users[u.0].devices.contains_key(u.1)
            && !more.contains(u) implies #[trigger] record_of(after, u) == record_of(before, u) by {
        assert(more[n] == t);
        assert(u != t);
        assert(!some.contains(u)) by {
            if some.contains(u) {
                let j = choose|j: int| 0 <= j < some.len() && some[j] == u;
                assert(more[j] == u);
            }
        }
        assert(record_of(mid, u) == record_of(before, u));
    }
    assert forall|i: int| 0 <= i < more.len() implies #[trigger] outcome_fits(
        before,
        after,
        now,
        payload,
        more,
        pushed,
        i,
    ) by {
        if i < n {
            assert(outcome_fits(before, mid, now, payload, some, outcomes, i));
            assert(some[i] == more[i] && outcomes[i] == pushed[i]);
            assert(more[i] != t);
            assert(record_of(after, more[i]) == record_of(mid, more[i]));
        } else {
            assert(more[i] == t);
        }
    }
}

// ---------------------------------------------------------------------------
// Receiving
// ---------------------------------------------------------------------------

/// The first device, in some order, with a session that listens to a sender,
/// and where on its shelf that session stands.
pub open spec fn first_listening(
    devices: Map<DevicePubkey, DeviceModel>,
    order: Seq<DevicePubkey>,
    sender: DevicePubkey,
) -> Option<(DevicePubkey, Option<int>)>
    decreases order.len(),
{
    if order.len() == 0 {
        None
    } else {
        match listening_place(devices[order[0]].sessions, sender) {
            Some(place) => Some((order[0], place)),
            None => first_listening(devices, order.drop_first(), sender),
        }
    }
}

/// The device of an owner with a session that listens to a sender.
pub open spec fn listening_device(user: UserModel, sender: DevicePubkey) -> Option<
    (DevicePubkey, Option<int>),
> {
    first_listening(user.devices, ordered::<DevicePubkey>(user.devices.dom()), sender)
}

/// A device one of whose sessions has received.
pub open spec fn received_record(
    record: DeviceModel,
    place: Option<int>,
    next: SessionModel,
    now: UnixSeconds,
) -> DeviceModel {
    DeviceModel {
        sessions: received_shelf(record.sessions, place, next),
        last_activity: Some(now),
        ..record
    }
}

/// Whether a message was taken in by the session at a place.
pub open spec fn takes_message(
    before: ManagerModel,
    after: ManagerModel,
    now: UnixSeconds,
    owner: OwnerPubkey,
    envelope: EnvelopeModel,
    at: (DevicePubkey, Option<int>),
    state: SessionState,
    message: ReceivedMessage,
) -> bool {
    let record = before.users[owner].devices[at.0];
    &&& drawn_payload(
        shelf_session(record.sessions, at.1),
        envelope.sender,
        envelope.encrypted_header,
        envelope.ciphertext,
        Ok((state, message.payload)),
    )
    &&& message.owner_pubkey == owner
    &&& message.device_pubkey == at.0
    &&& device_name(message.device_id) == record.device_id
    &&& after == with_record(before, owner, at.0, received_record(record, at.1, state@, now))
}

/// Whether a result is that of a message of an owner.
pub open spec fn receives(
    before: ManagerModel,
    after: ManagerModel,
    now: UnixSeconds,
    owner: OwnerPubkey,
    envelope: EnvelopeModel,
    r: Result<Option<ReceivedMessage>, Error>,
) -> bool {
    if !before.users.contains_key(owner) {
        after == before && (r matches Ok(found) && found is None)
    } else {
        match listening_device(before.users[owner], envelope.sender) {
            None => after == before && (r matches Ok(found) && found is None),
            Some(at) => match r {
                Ok(Some(message)) => exists|state: SessionState| #[trigger]
                    takes_message(before, after, now, owner, envelope, at, state, message),
                Ok(None) => false,
                Err(e) => after == before && drawn_payload(
                    shelf_session(before.users[owner].devices[at.0].sessions, at.1),
                    envelope.sender,
                    envelope.encrypted_header,
                    envelope.ciphertext,
                    Err(e),
                ),
            },
        }
    }
}

impl UserRecord {
    /// The device with a session that listens to a sender.
    fn find_listener(&self, sender: DevicePubkey) -> (r: Option<(DevicePubkey, Option<usize>)>)
        ensures
            match r {
                None => listening_device(self@, sender) is None,
                Some((device, place)) => {
                    &&& listening_device(self@, sender) == Some((device, place_of(place)))
                    &&& self@.devices.contains_key(device)
                    &&& occupied(self@.devices[device].sessions, place_of(place))
                },
            },
    {
        let n: usize = self.devices.len();
        let ghost order = self.devices.order();
        assert(self@.devices.dom() =~= self.devices@.dom());
        assert(order.skip(0) =~= order);
        let mut i: usize = 0;
        while i < n
            invariant
                i <= n,
                n == order.len(),
                order == self.devices.order(),
                order == ordered::<DevicePubkey>(self@.devices.dom()),
                listening_device(self@, sender) == first_listening(
                    self@.devices,
                    order.skip(i as int),
                    sender,
                ),
            decreases n - i,
        {
            let record = self.devices.value_at(i);
            assert(record@ == self@.devices[order[i as int]]);
            assert(order.skip(i as int)[0] == order[i as int]);
            assert(order.skip(i as int).drop_first() =~= order.skip(i + 1));
            if let Some(place) = record.sessions.find_listener(sender) {
                return Some((*self.devices.key_at(i), place));
            }
            i = i + 1;
        }
        None
    }
}

impl SessionManager {
    /// Takes in a message of an owner with the first session that listens to
    /// its sender. Where none does, there is no message.
    pub fn receive(
        &mut self,
        ctx: &mut ProtocolContext<'_>,
        sender_owner: OwnerPubkey,
        envelope: &MessageEnvelope,
    ) -> (r: Result<Option<ReceivedMessage>, Error>)
        ensures
            final(ctx).now_secs == old(ctx).now_secs,
            final(ctx).now_millis == old(ctx).now_millis,
            receives(
                old(self)@,
                final(self)@,
                old(ctx).now_secs,
                sender_owner,
                envelope@,
                r,
            ),
            orderly(old(self)@) ==> orderly(final(self)@),
    {
        let incoming = IncomingDirectMessageEnvelope {
            sender: envelope.sender,
            created_at: envelope.created_at,
            encrypted_header: envelope.encrypted_header.clone(),
            ciphertext: envelope.ciphertext.clone(),
        };
        self.receive_incoming(ctx, sender_owner, &incoming)
    }

    /// Takes in a message as it came from a relay.
    pub fn receive_incoming(
        &mut self,
        ctx: &mut ProtocolContext<'_>,
        sender_owner: OwnerPubkey,
        envelope: &IncomingDirectMessageEnvelope,
    ) -> (r: Result<Option<ReceivedMessage>, Error>)
        ensures
            final(ctx).now_secs == old(ctx).now_secs,
            final(ctx).now_millis == old(ctx).now_millis,
            receives(
                old(self)@,
                final(self)@,
                old(ctx).now_secs,
                sender_owner,
                envelope@,
                r,
            ),
            orderly(old(self)@) ==> orderly(final(self)@),
    {
        let ghost before = self@;
        proof {
            managers_are_finite(*self);
        }
        let r = self.take_message(ctx, sender_owner, envelope);
        proof {
            if orderly(before) {
                lemma_message(before, self@, ctx.now_secs, sender_owner, envelope@, r);
            }
        }
        r
    }

    fn take_message(
        &mut self,
        ctx: &mut ProtocolContext<'_>,
        sender_owner: OwnerPubkey,
        envelope: &IncomingDirectMessageEnvelope,
    ) -> (r: Result<Option<ReceivedMessage>, Error>)
        ensures
            final(ctx).now_secs == old(ctx).now_secs,
            final(ctx).now_millis == old(ctx).now_millis,
            receives(
                old(self)@,
                final(self)@,
                old(ctx).now_secs,
                sender_owner,
                envelope@,
                r,
            ),
    {
        let ghost before = self@;
        let mut user = match self.users.remove(&sender_owner) {
            Some(user) => user,
            None => {
                assert(self@.users =~= before.users);
                return Ok(None);
            },
        };
        let ghost known = user@;
        assert(known == before.users[sender_owner]);
        let (device_pubkey, place) = match user.find_listener(envelope.sender) {
            Some(found) => found,
            None => {
                self.put_user(sender_owner, user);
                assert(self@.users =~= before.users);
                return Ok(None);
            },
        };
        let ghost at = (device_pubkey, place_of(place));
        let mut record = user.take_device(device_pubkey, ctx.now_secs);
        let ghost known_record = record@;
        let planned = record.sessions.plan_receive(ctx, place, envelope);
        let (state, payload) = match planned {
            Err(e) => {
                user.put_device(device_pubkey, record);
                assert(user@.devices =~= known.devices);
                self.put_user(sender_owner, user);
                assert(self@.users =~= before.users);
                return Err(e);
            },
            Ok(plan) => plan,
        };
        let ghost next = state;
        record.sessions.take_over(place, state);
        record.last_activity = Some(ctx.now_secs);
        let message = ReceivedMessage {
            owner_pubkey: sender_owner,
            device_pubkey,
            device_id: record.device_id.clone(),
            payload,
        };
        let ghost after = record@;
        user.put_device(device_pubkey, record);
        let ghost user_after = user@;
        self.put_user(sender_owner, user);
        let r: Result<Option<ReceivedMessage>, Error> = Ok(Some(message));
        proof {
            assert(user_after.devices =~= known.devices.insert(device_pubkey, after));
            assert(self@.users =~= before.users.insert(sender_owner, user_after));
            assert(takes_message(
                before,
                self@,
                old(ctx).now_secs,
                sender_owner,
                envelope@,
                at,
                next,
                r->Ok_0->Some_0,
            ));
        }
        r
    }
}

// ---------------------------------------------------------------------------
// Forgetting
// ---------------------------------------------------------------------------

/// Whether a device is remembered: it is not stale, or has not been for long.
pub open spec fn remembered(record: DeviceModel, now: UnixSeconds) -> bool {
    ||| !record.is_stale
    ||| record.stale_since is None
    ||| now.0 - record.stale_since->Some_0.0 <= MAX_RELAY_LATENCY_SECS
}

/// An owner without the devices that are no longer remembered.
pub open spec fn pruned_user(user: UserModel, now: UnixSeconds) -> UserModel {
    UserModel {
        devices: Map::new(
            |d: DevicePubkey| user.devices.contains_key(d) && remembered(user.devices[d], now),
            |d: DevicePubkey| user.devices[d],
        ),
        ..user
    }
}

/// Whether an owner is still of interest.
pub open spec fn user_kept(user: UserModel) -> bool {
    user.roster is Some || exists|d: DevicePubkey| #[trigger] user.devices.contains_key(d)
}

/// What is known when all that is no longer remembered is gone.
pub open spec fn pruned(m: ManagerModel, now: UnixSeconds) -> ManagerModel {
    ManagerModel {
        users: Map::new(
            |o: OwnerPubkey| m.users.contains_key(o) && user_kept(pruned_user(m.users[o], now)),
            |o: OwnerPubkey| pruned_user(m.users[o], now),
        ),
        ..m
    }
}

/// The devices that are no longer remembered.
pub open spec fn forgotten_devices(m: ManagerModel, now: UnixSeconds) -> Set<
    (OwnerPubkey, DevicePubkey),
> {
    Set::new(
        |t: (OwnerPubkey, DevicePubkey)|
            m.users.contains_key(t.0) && m.users[t.0].devices.contains_key(t.1) && !remembered(
                record_of(m, t),
                now,
            ),
    )
}

/// The owners that are no longer of interest.
pub open spec fn forgotten_users(m: ManagerModel, now: UnixSeconds) -> Set<OwnerPubkey> {
    Set::new(
        |o: OwnerPubkey| m.users.contains_key(o) && !user_kept(pruned_user(m.users[o], now)),
    )
}

impl UserRecord {
    /// Drops the devices that are no longer remembered and adds them to those
    /// that are gone.
    fn prune(
        &mut self,
        owner_pubkey: OwnerPubkey,
        now: UnixSeconds,
        gone: &mut VecSet<TargetDevice>,
    )
        ensures
            final(self)@ == pruned_user(old(self)@, now),
            forall|t: (OwnerPubkey, DevicePubkey)| #[trigger]
                final(gone)@.contains(t) <==> old(gone)@.contains(t) || (t.0 == owner_pubkey
                    && old(self)@.devices.contains_key(t.1) && !remembered(
                    old(self)@.devices[t.1],
                    now,
                )),
    {
        let ghost known = self@;
        let keys = self.devices.keys();
        let ghost order = self.devices.order();
        assert(self@.devices.dom() =~= self.devices@.dom());
        let mut i: usize = 0;
        while i < keys.len()
            invariant
                i <= keys@.len(),
                keys@.len() == order.len(),
                forall|j: int| 0 <= j < keys@.len() ==> (#[trigger] keys@[j]).id() == order[j],
                lists::<DevicePubkey>(order, known.devices.dom()),
                self@.roster == known.roster,
                forall|d: DevicePubkey| #[trigger]
                    self@.devices.contains_key(d) <==> known.devices.contains_key(d) && (
                    remembered(known.devices[d], now) || !(exists|j: int|
                        0 <= j < i && #[trigger] order[j] == d)),
                forall|d: DevicePubkey| #[trigger]
                    self@.devices.contains_key(d) ==> self@.devices[d] == known.devices[d],
                forall|t: (OwnerPubkey, DevicePubkey)| #[trigger]
                    gone@.contains(t) <==> old(gone)@.contains(t) || (t.0 == owner_pubkey
                        && known.devices.contains_key(t.1) && !remembered(known.devices[t.1], now)
                        && exists|j: int| 0 <= j < i && #[trigger] order[j] == t.1),
            decreases keys@.len() - i,
        {
            let device_pubkey = keys[i];
            let ghost key = order[i as int];
            let ghost mid = self@;
            let ghost gone_before = gone@;
            proof {
                assert(keys@[i as int].id() == key);
                assert(order.contains(key));
                assert(known.devices.dom().contains(key));
                assert forall|j: int| 0 <= j < i implies #[trigger] order[j] != key by {
                    lists_distinct::<DevicePubkey>(order, known.devices.dom(), j, i as int);
                }
                assert(mid.devices.contains_key(key));
            }
            let keep: bool = match self.devices.get(&device_pubkey) {
                Some(record) => {
                    assert(record@ == self@.devices[key]);
                    !record.is_stale || match record.stale_since {
                        Some(since) => now.0.saturating_sub(since.0) <= MAX_RELAY_LATENCY_SECS,
                        None => true,
                    }
                },
                None => true,
            };
            assert(keep == remembered(known.devices[key], now));
            if !keep {
                let _ = self.take_device(device_pubkey, now);
                gone.insert(TargetDevice { owner_pubkey, device_pubkey });
            }
            proof {
                assert(keep ==> self@ == mid && gone@ == gone_before);
                assert(!keep ==> self@.devices == mid.devices.remove(key) && gone@
                    == gone_before.insert((owner_pubkey, key)));
                assert forall|d: DevicePubkey| #[trigger] self@.devices.contains_key(d)
                    <==> known.devices.contains_key(d) && (remembered(known.devices[d], now) || !(
                exists|j: int| 0 <= j < i + 1 && #[trigger] order[j] == d)) by {
                    if d == key {
                        assert(order[i as int] == d);
                    } else {
                        assert(mid.devices.contains_key(d) == self@.devices.contains_key(d));
                        lemma_up_to(order, d, i as int);
                    }
                }
                assert forall|t: (OwnerPubkey, DevicePubkey)| #[trigger] gone@.contains(t) <==> old(
                    gone,
                )@.contains(t) || (t.0 == owner_pubkey && known.devices.contains_key(t.1)
                    && !remembered(known.devices[t.1], now) && exists|j: int|
                    0 <= j < i + 1 && #[trigger] order[j] == t.1) by {
                    lemma_up_to(order, t.1, i as int);
                    if t.1 == key {
                        assert(order[i as int] == t.1);
                    }
                    if gone_before.contains(t) && !old(gone)@.contains(t) {
                        let j = choose|j: int| 0 <= j < i && #[trigger] order[j] == t.1;
                        assert(order[j] == t.1);
                    }
                }
            }
            i = i + 1;
        }
        proof {
            assert forall|d: DevicePubkey| #[trigger] known.devices.contains_key(d) implies exists|
                j: int,
            | 0 <= j < i && #[trigger] order[j] == d by {
                assert(known.devices.dom().contains(d));
                assert(order.contains(d));
            }
            assert(self@.devices =~= pruned_user(known, now).devices);
        }
    }
}

proof fn lemma_up_to<T>(order: Seq<T>, x: T, i: int)
    requires
        0 <= i < order.len(),
    ensures
        (exists|j: int| 0 <= j < i + 1 && #[trigger] order[j] == x) == ((exists|j: int|
            0 <= j < i && #[trigger] order[j] == x) || order[i] == x),
{
    if exists|j: int| 0 <= j < i && #[trigger] order[j] == x {
        let j = choose|j: int| 0 <= j < i && #[trigger] order[j] == x;
        assert(order[j] == x);
    }
    if exists|j: int| 0 <= j < i + 1 && #[trigger] order[j] == x {
        let j = choose|j: int| 0 <= j < i + 1 && #[trigger] order[j] == x;
        assert(j < i || order[i] == x);
    }
}

impl SessionManager {
    /// Forgets devices that were taken off a roster long ago, and owners of
    /// whom nothing is left.
    pub fn prune_stale(&mut self, now: UnixSeconds) -> (r: PruneReport)
        ensures
            final(self)@ == pruned(old(self)@, now),
            r.removed_devices@ == ordered::<TargetDevice>(forgotten_devices(old(self)@, now)),
            r.removed_users@ == ordered::<OwnerPubkey>(forgotten_users(old(self)@, now)),
            lists::<TargetDevice>(r.removed_devices@, forgotten_devices(old(self)@, now)),
            lists::<OwnerPubkey>(r.removed_users@, forgotten_users(old(self)@, now)),
            orderly(old(self)@) ==> orderly(final(self)@),
    {
        let ghost before = self@;
        let mut gone_devices: VecSet<TargetDevice> = VecSet::new();
        let mut gone_users: VecSet<OwnerPubkey> = VecSet::new();
        let keys = self.users.keys();
        let ghost order = self.users.order();
        assert(self@.users.dom() =~= self.users@.dom());
        let mut i: usize = 0;
        while i < keys.len()
            invariant
                i <= keys@.len(),
                keys@.len() == order.len(),
                forall|j: int| 0 <= j < keys@.len() ==> (#[trigger] keys@[j]).id() == order[j],
                lists::<OwnerPubkey>(order, before.users.dom()),
                before == old(self)@,
                self@ == (ManagerModel { users: self@.users, ..before }),
                forall|o: OwnerPubkey| #[trigger]
                    self@.users.contains_key(o) <==> before.users.contains_key(o) && (user_kept(
                        pruned_user(before.users[o], now),
                    ) || !(exists|j: int| 0 <= j < i && #[trigger] order[j] == o)),
                forall|o: OwnerPubkey| #[trigger]
                    self@.users.contains_key(o) ==> self@.users[o] == (if exists|j: int|
                        0 <= j < i && #[trigger] order[j] == o {
                        pruned_user(before.users[o], now)
                    } else {
                        before.users[o]
                    }),
                forall|t: (OwnerPubkey, DevicePubkey)| #[trigger]
                    gone_devices@.contains(t) <==> forgotten_devices(before, now).contains(t)
                        && exists|j: int| 0 <= j < i && #[trigger] order[j] == t.0,
                forall|o: OwnerPubkey| #[trigger]
                    gone_users@.contains(o) <==> forgotten_users(before, now).contains(o)
                        && exists|j: int| 0 <= j < i && #[trigger] order[j] == o,
            decreases keys@.len() - i,
        {
            let owner_pubkey = keys[i];
            let ghost key = order[i as int];
            let ghost mid = self@;
            let ghost devices_before = gone_devices@;
            let ghost users_before = gone_users@;
            proof {
                assert(keys@[i as int].id() == key);
                assert(order.contains(key));
                assert(before.users.dom().contains(key));
                assert forall|j: int| 0 <= j < i implies #[trigger] order[j] != key by {
                    lists_distinct::<OwnerPubkey>(order, before.users.dom(), j, i as int);
                }
                assert(mid.users.contains_key(key));
            }
            let mut user = self.take_user(owner_pubkey);
            assert(user@ == before.users[key]);
            user.prune(owner_pubkey, now, &mut gone_devices);
            let ghost after = user@;
            let no_devices: bool = user.devices.is_empty();
            assert(after.devices.dom() =~= user.devices@.dom());
            let keep: bool = user.roster.is_some() || !no_devices;
            proof {
                if no_devices {
                    assert forall|d: DevicePubkey| !(#[trigger] after.devices.contains_key(d)) by {
                        assert(!after.devices.dom().contains(d));
                    }
                } else {
                    assert(!(after.devices.dom() =~= Set::empty()));
                    let d = choose|d: DevicePubkey| after.devices.dom().contains(d);
                    assert(after.devices.contains_key(d));
                }
                assert(keep == user_kept(after));
            }
            if keep {
                self.put_user(owner_pubkey, user);
                assert(self@.users =~= mid.users.insert(key, after));
            } else {
                gone_users.insert(owner_pubkey);
                assert(self@.users == mid.users.remove(key));
            }
            proof {
                assert forall|o: OwnerPubkey| #[trigger] self@.users.contains_key(o)
                    <==> before.users.contains_key(o) && (user_kept(
                    pruned_user(before.users[o], now),
                ) || !(exists|j: int| 0 <= j < i + 1 && #[trigger] order[j] == o)) by {
                    lemma_up_to(order, o, i as int);
                    if o != key {
                        assert(mid.users.contains_key(o) == self@.users.contains_key(o));
                    }
                }
                assert forall|o: OwnerPubkey| #[trigger] self@.users.contains_key(o) implies self@.users[o]
                    == (if exists|j: int| 0 <= j < i + 1 && #[trigger] order[j] == o {
                    pruned_user(before.users[o], now)
                } else {
                    before.users[o]
                }) by {
                    lemma_up_to(order, o, i as int);
                    if o != key {
                        assert(mid.users.contains_key(o));
                    }
                }
                assert forall|t: (OwnerPubkey, DevicePubkey)| #[trigger] gone_devices@.contains(t)
                    <==> forgotten_devices(before, now).contains(t) && exists|j: int|
                    0 <= j < i + 1 && #[trigger] order[j] == t.0 by {
                    lemma_up_to(order, t.0, i as int);
                    assert(devices_before.contains(t) ==> gone_devices@.contains(t));
                }
                assert forall|o: OwnerPubkey| #[trigger] gone_users@.contains(o)
                    <==> forgotten_users(before, now).contains(o) && exists|j: int|
                    0 <= j < i + 1 && #[trigger] order[j] == o by {
                    lemma_up_to(order, o, i as int);
                    assert(users_before.contains(o) ==> gone_users@.contains(o));
                    if o != key {
                        assert(users_before.contains(o) == gone_users@.contains(o));
                    }
                }
            }
            i = i + 1;
        }
        proof {
            assert forall|o: OwnerPubkey| #[trigger] before.users.contains_key(o) implies exists|j: int|
                0 <= j < i && #[trigger] order[j] == o by {
                assert(before.users.dom().contains(o));
                assert(order.contains(o));
            }
            assert(self@.users =~= pruned(before, now).users);
            assert(gone_devices@ =~= forgotten_devices(before, now));
            assert(gone_users@ =~= forgotten_users(before, now));
            set_is_finite(gone_devices);
            set_is_finite(gone_users);
            ordered_lists::<TargetDevice>(gone_devices@);
            ordered_lists::<OwnerPubkey>(gone_users@);
            if orderly(before) {
                lemma_pruning(before, now);
            }
        }
        PruneReport {
            removed_devices: listed_targets(&gone_devices),
            removed_users: listed_owners(&gone_users),
        }
    }
}

fn listed_targets(set: &VecSet<TargetDevice>) -> (r: Vec<(OwnerPubkey, DevicePubkey)>)
    ensures
        r@ == ordered::<TargetDevice>(set@),
{
    let n: usize = set.len();
    let mut r: Vec<(OwnerPubkey, DevicePubkey)> = Vec::new();
    let mut i: usize = 0;
    while i < n
        invariant
            i <= n,
            n == ordered::<TargetDevice>(set@).len(),
            r@ == ordered::<TargetDevice>(set@).take(i as int),
        decreases n - i,
    {
        let target = set.at(i);
        r.push((target.owner_pubkey, target.device_pubkey));
        assert(r@ =~= ordered::<TargetDevice>(set@).take(i + 1));
        i = i + 1;
    }
    assert(r@ =~= ordered::<TargetDevice>(set@));
    r
}

/// The owners of a set in their order.
pub fn listed_owners(set: &VecSet<OwnerPubkey>) -> (r: Vec<OwnerPubkey>)
    ensures
        r@ == ordered::<OwnerPubkey>(set@),
{
    let n: usize = set.len();
    let mut r: Vec<OwnerPubkey> = Vec::new();
    let mut i: usize = 0;
    while i < n
        invariant
            i <= n,
            n == ordered::<OwnerPubkey>(set@).len(),
            r@ == ordered::<OwnerPubkey>(set@).take(i as int),
        decreases n - i,
    {
        r.push(*set.at(i));
        assert(r@ =~= ordered::<OwnerPubkey>(set@).take(i + 1));
        i = i + 1;
    }
    assert(r@ =~= ordered::<OwnerPubkey>(set@));
    r
}

// ---------------------------------------------------------------------------
// Snapshots
// ---------------------------------------------------------------------------

/// What the snapshot of an owner says.
#[verifier::ext_equal]
pub struct UserSnapshotModel {
    pub roster: Option<RosterModel>,
    pub devices: Seq<(DevicePubkey, DeviceModel)>,
}

/// What a snapshot says.
#[verifier::ext_equal]
pub struct ManagerSnapshotModel {
    pub owner: OwnerPubkey,
    pub device: DevicePubkey,
    pub device_id: Option<Seq<char>>,
    pub local_invite: Option<InviteModel>,
    pub users: Seq<(OwnerPubkey, UserSnapshotModel)>,
}

impl View for DeviceRecordSnapshot {
    type V = DeviceModel;

    open spec fn view(&self) -> DeviceModel {
        DeviceModel {
            device_id: device_name(self.device_id),
            authorized: self.authorized,
            is_stale: self.is_stale,
            stale_since: self.stale_since,
            public_invite: optional_invite(self.public_invite),
            sessions: ShelfModel {
                active: optional_state(self.active_session),
                inactive: state_models(self.inactive_sessions@),
            },
            last_activity: self.last_activity,
            created_at: self.created_at,
        }
    }
}

pub open spec fn device_entries(devices: Seq<DeviceRecordSnapshot>) -> Seq<
    (DevicePubkey, DeviceModel),
> {
    Seq::new(devices.len(), |i: int| (devices[i].device_pubkey, devices[i]@))
}

impl View for UserRecordSnapshot {
    type V = UserSnapshotModel;

    open spec fn view(&self) -> UserSnapshotModel {
        UserSnapshotModel {
            roster: optional_roster(self.roster),
            devices: device_entries(self.devices@),
        }
    }
}

pub open spec fn user_entries(users: Seq<UserRecordSnapshot>) -> Seq<
    (OwnerPubkey, UserSnapshotModel),
> {
    Seq::new(users.len(), |i: int| (users[i].owner_pubkey, users[i]@))
}

impl View for SessionManagerSnapshot {
    type V = ManagerSnapshotModel;

    open spec fn view(&self) -> ManagerSnapshotModel {
        ManagerSnapshotModel {
            owner: self.local_owner_pubkey,
            device: self.local_device_pubkey,
            device_id: device_name(self.local_device_id),
            local_invite: optional_invite(self.local_invite),
            users: user_entries(self.users@),
        }
    }
}

/// The snapshot of an owner: the devices in the order of their keys.
pub open spec fn user_snapshot(user: UserModel) -> UserSnapshotModel {
    UserSnapshotModel {
        roster: user.roster,
        devices: ordered_entries::<DevicePubkey, DeviceModel>(user.devices),
    }
}

/// The snapshot of what is known, in the order of the keys. The secret key is
/// not in it.
pub open spec fn manager_snapshot(m: ManagerModel) -> ManagerSnapshotModel {
    let users = ordered_entries::<OwnerPubkey, UserModel>(m.users);
    ManagerSnapshotModel {
        owner: m.owner,
        device: m.device,
        device_id: m.device_id,
        local_invite: m.local_invite,
        users: Seq::new(users.len(), |i: int| (users[i].0, user_snapshot(users[i].1))),
    }
}

/// What an owner's snapshot restores.
pub open spec fn restored_user(s: UserSnapshotModel) -> UserModel {
    UserModel { roster: s.roster, devices: collected(s.devices) }
}

pub open spec fn restored_users(users: Seq<(OwnerPubkey, UserSnapshotModel)>) -> Seq<
    (OwnerPubkey, UserModel),
> {
    Seq::new(users.len(), |i: int| (users[i].0, restored_user(users[i].1)))
}

/// What a snapshot restores, with the secret key of its device.
pub open spec fn restored(s: ManagerSnapshotModel, secret: [u8; 32]) -> ManagerModel {
    ManagerModel {
        owner: s.owner,
        device: s.device,
        secret,
        device_id: s.device_id,
        local_invite: s.local_invite,
        users: collected(restored_users(s.users)),
    }
}

/// Whether a result is that of restoring a snapshot with a secret key.
pub open spec fn restores(
    s: ManagerSnapshotModel,
    secret: [u8; 32],
    r: Result<SessionManager, Error>,
) -> bool {
    match r {
        Ok(manager) => device_key_of(secret) == Some(s.device) && manager@ == restored(s, secret),
        Err(e) => match device_key_of(secret) {
            None => fault(e) == Fault::NostrKey,
            Some(key) => key != s.device && fault(e) == Fault::InvalidState && detail(e) == Some(
                "snapshot local device pubkey does not match provided secret key"@,
            ),
        },
    }
}

fn clone_states(sessions: &Vec<Session>) -> (r: Vec<SessionState>)
    ensures
        state_models(r@) == session_models(sessions@),
{
    let mut r: Vec<SessionState> = Vec::new();
    let mut i: usize = 0;
    while i < sessions.len()
        invariant
            i <= sessions@.len(),
            r@.len() == i,
            forall|j: int| 0 <= j < i ==> (#[trigger] r@[j])@ == sessions@[j]@,
        decreases sessions@.len() - i,
    {
        r.push(sessions[i].state.clone());
        i = i + 1;
    }
    assert(state_models(r@) =~= session_models(sessions@));
    r
}

fn make_sessions(states: &Vec<SessionState>) -> (r: Vec<Session>)
    ensures
        session_models(r@) == state_models(states@),
{
    let mut r: Vec<Session> = Vec::new();
    let mut i: usize = 0;
    while i < states.len()
        invariant
            i <= states@.len(),
            r@.len() == i,
            forall|j: int| 0 <= j < i ==> (#[trigger] r@[j])@ == states@[j]@,
        decreases states@.len() - i,
    {
        r.push(Session::new(states[i].clone(), "session".to_string()));
        i = i + 1;
    }
    assert(session_models(r@) =~= state_models(states@));
    r
}

fn clone_roster(roster: &Option<DeviceRoster>) -> (r: Option<DeviceRoster>)
    ensures
        optional_roster(r) == optional_roster(*roster),
{
    match roster {
        Some(roster) => Some(roster.clone()),
        None => None,
    }
}

impl DeviceRecord {
    fn from_snapshot(snapshot: &DeviceRecordSnapshot) -> (r: Self)
        ensures
            r@ == snapshot@,
    {
        DeviceRecord {
            device_id: snapshot.device_id.clone(),
            authorized: snapshot.authorized,
            is_stale: snapshot.is_stale,
            stale_since: snapshot.stale_since,
            public_invite: clone_invite(&snapshot.public_invite),
            sessions: Shelf {
                active: match &snapshot.active_session {
                    Some(state) => Some(Session::new(state.clone(), "session".to_string())),
                    None => None,
                },
                inactive: make_sessions(&snapshot.inactive_sessions),
            },
            last_activity: snapshot.last_activity,
            created_at: snapshot.created_at,
        }
    }

    fn snapshot(&self, device_pubkey: DevicePubkey) -> (r: DeviceRecordSnapshot)
        ensures
            r@ == self@,
            r.device_pubkey == device_pubkey,
    {
        DeviceRecordSnapshot {
            device_pubkey,
            device_id: self.device_id.clone(),
            authorized: self.authorized,
            is_stale: self.is_stale,
            stale_since: self.stale_since,
            public_invite: clone_invite(&self.public_invite),
            active_session: match &self.sessions.active {
                Some(session) => Some(session.state.clone()),
                None => None,
            },
            inactive_sessions: clone_states(&self.sessions.inactive),
            last_activity: self.last_activity,
            created_at: self.created_at,
        }
    }
}

impl UserRecord {
    fn from_snapshot(snapshot: &UserRecordSnapshot) -> (r: Self)
        ensures
            r@ == restored_user(snapshot@),
    {
        let mut user = UserRecord {
            roster: clone_roster(&snapshot.roster),
            devices: VecMap::new(),
        };
        let ghost entries = snapshot@.devices;
        assert(user@.devices =~= Map::empty());
        assert(entries.take(0) =~= Seq::empty());
        let mut i: usize = 0;
        while i < snapshot.devices.len()
            invariant
                i <= snapshot.devices@.len(),
                entries == device_entries(snapshot.devices@),
                user@.roster == optional_roster(snapshot.roster),
                user@.devices == collected(entries.take(i as int)),
            decreases snapshot.devices@.len() - i,
        {
            let device = &snapshot.devices[i];
            assert(entries.take(i + 1).drop_last() =~= entries.take(i as int));
            assert(entries.take(i + 1).last() == (device.device_pubkey, device@));
            user.put_device(device.device_pubkey, DeviceRecord::from_snapshot(device));
            i = i + 1;
        }
        assert(entries.take(i as int) =~= entries);
        user
    }

    fn snapshot(&self, owner_pubkey: OwnerPubkey) -> (r: UserRecordSnapshot)
        ensures
            r@ == user_snapshot(self@),
            r.owner_pubkey == owner_pubkey,
    {
        let n: usize = self.devices.len();
        let ghost order = self.devices.order();
        assert(self@.devices.dom() =~= self.devices@.dom());
        let ghost entries = ordered_entries::<DevicePubkey, DeviceModel>(self@.devices);
        let mut devices: Vec<DeviceRecordSnapshot> = Vec::new();
        let mut i: usize = 0;
        while i < n
            invariant
                i <= n,
                n == order.len(),
                order == self.devices.order(),
                order == ordered::<DevicePubkey>(self@.devices.dom()),
                entries == ordered_entries::<DevicePubkey, DeviceModel>(self@.devices),
                devices@.len() == i,
                forall|j: int|
                    0 <= j < i ==> (
                        (#[trigger] devices@[j]).device_pubkey,
                        devices@[j]@,
                    ) == entries[j],
            decreases n - i,
        {
            let record = self.devices.value_at(i);
            assert(record@ == self@.devices[order[i as int]]);
            devices.push(record.snapshot(*self.devices.key_at(i)));
            i = i + 1;
        }
        assert(device_entries(devices@) =~= entries);
        UserRecordSnapshot { owner_pubkey, roster: clone_roster(&self.roster), devices }
    }
}

impl SessionManager {
    /// All that is known but the secret key.
    pub fn snapshot(&self) -> (r: SessionManagerSnapshot)
        ensures
            r@ == manager_snapshot(self@),
            finite(self@),
    {
        proof {
            managers_are_finite(*self);
        }
        let n: usize = self.users.len();
        let ghost order = self.users.order();
        assert(self@.users.dom() =~= self.users@.dom());
        let ghost entries = ordered_entries::<OwnerPubkey, UserModel>(self@.users);
        let mut users: Vec<UserRecordSnapshot> = Vec::new();
        let mut i: usize = 0;
        while i < n
            invariant
                i <= n,
                n == order.len(),
                order == self.users.order(),
                order == ordered::<OwnerPubkey>(self@.users.dom()),
                entries == ordered_entries::<OwnerPubkey, UserModel>(self@.users),
                users@.len() == i,
                forall|j: int|
                    0 <= j < i ==> (
                        (#[trigger] users@[j]).owner_pubkey,
                        users@[j]@,
                    ) == (entries[j].0, user_snapshot(entries[j].1)),
            decreases n - i,
        {
            let user = self.users.value_at(i);
            assert(user@ == self@.users[order[i as int]]);
            users.push(user.snapshot(*self.users.key_at(i)));
            i = i + 1;
        }
        let r = SessionManagerSnapshot {
            local_owner_pubkey: self.local_owner_pubkey,
            local_device_pubkey: self.local_device_pubkey,
            local_device_id: self.local_device_id.clone(),
            local_invite: clone_invite(&self.local_invite),
            users,
        };
        assert(r@.users =~= manager_snapshot(self@).users);
        r
    }

    /// A manager from a snapshot and the secret key of its device.
    pub fn from_snapshot(
        snapshot: SessionManagerSnapshot,
        local_device_secret_key: [u8; 32],
    ) -> (r: Result<Self, Error>)
        ensures
            restores(snapshot@, local_device_secret_key, r),
    {
        let derived = match DevicePubkey::from_secret_bytes(&local_device_secret_key) {
            Ok(key) => key,
            Err(e) => {
                return Err(e);
            },
        };
        if derived != snapshot.local_device_pubkey {
            return Err(
                Error::Domain(
                    DomainError::InvalidState(
                        "snapshot local device pubkey does not match provided secret key".to_string(),
                    ),
                ),
            );
        }
        let mut manager = SessionManager {
            local_owner_pubkey: snapshot.local_owner_pubkey,
            local_device_pubkey: snapshot.local_device_pubkey,
            local_device_secret_key,
            local_device_id: snapshot.local_device_id,
            local_invite: snapshot.local_invite,
            users: VecMap::new(),
        };
        let users = snapshot.users;
        let ghost first = manager@;
        let ghost entries = restored_users(user_entries(users@));
        assert(manager@.users =~= Map::empty());
        assert(entries.take(0) =~= Seq::empty());
        let mut i: usize = 0;
        while i < users.len()
            invariant
                i <= users@.len(),
                entries == restored_users(user_entries(users@)),
                manager@ == (ManagerModel { users: collected(entries.take(i as int)), ..first }),
            decreases users@.len() - i,
        {
            let user = &users[i];
            assert(entries.take(i + 1).drop_last() =~= entries.take(i as int));
            assert(entries.take(i + 1).last() == (user.owner_pubkey, restored_user(user@)));
            manager.put_user(user.owner_pubkey, UserRecord::from_snapshot(user));
            i = i + 1;
        }
        assert(entries.take(i as int) =~= entries);
        Ok(manager)
    }
}

// ---------------------------------------------------------------------------
// What holds of all of it
// ---------------------------------------------------------------------------

/// Whether only finitely much is known.
pub open spec fn finite(m: ManagerModel) -> bool {
    &&& m.users.dom().finite()
    &&& forall|o: OwnerPubkey| #[trigger]
        m.users.contains_key(o) ==> m.users[o].devices.dom().finite()
}

/// A manager knows only finitely much.
pub proof fn managers_are_finite(manager: SessionManager)
    ensures
        finite(manager@),
{
    map_is_finite(manager.users);
    assert(manager@.users.dom() =~= manager.users@.dom());
    assert forall|o: OwnerPubkey| #[trigger]
        manager@.users.contains_key(o) implies manager@.users[o].devices.dom().finite() by {
        let user = manager.users@[o];
        map_is_finite(user.devices);
        assert(user@.devices.dom() =~= user.devices@.dom());
    }
}

/// A manager is restored from its snapshot with its own secret key, just as it
/// was. With the secret key of another device it is not restored.
pub proof fn own_key_restores(
    manager: SessionManager,
    secret: [u8; 32],
    r: Result<SessionManager, Error>,
)
    requires
        device_key_of(manager@.secret) == Some(manager@.device),
        restores(manager_snapshot(manager@), secret, r),
    ensures
        secret == manager@.secret ==> (r matches Ok(again) && again@ == manager@
            && manager_snapshot(again@) == manager_snapshot(manager@)),
        device_key_of(secret) is Some && device_key_of(secret) != Some(manager@.device) ==> (
        r matches Err(e) && fault(e) == Fault::InvalidState),
{
    managers_are_finite(manager);
    snapshot_restores(manager@);
}

/// A snapshot restores what was known when it was taken.
pub proof fn snapshot_restores(m: ManagerModel)
    requires
        finite(m),
    ensures
        restored(manager_snapshot(m), m.secret) == m,
{
    let users = ordered_entries::<OwnerPubkey, UserModel>(m.users);
    entries_make_the_map::<OwnerPubkey, UserModel>(m.users);
    crate::collections::ordered_lists::<OwnerPubkey>(m.users.dom());
    let order = ordered::<OwnerPubkey>(m.users.dom());
    let back = restored_users(manager_snapshot(m).users);
    assert forall|i: int| 0 <= i < users.len() implies #[trigger] back[i] == users[i] by {
        assert(order.contains(order[i]));
        assert(m.users.dom().contains(order[i]));
        assert(m.users.contains_key(order[i]));
        entries_make_the_map::<DevicePubkey, DeviceModel>(users[i].1.devices);
    }
    assert(back =~= users);
}

/// Nothing that is forgotten comes back by forgetting again, and forgetting
/// twice at a time is forgetting once.
pub proof fn pruning_twice_is_once(m: ManagerModel, now: UnixSeconds)
    ensures
        pruned(pruned(m, now), now) == pruned(m, now),
        forgotten_devices(pruned(m, now), now) == Set::<(OwnerPubkey, DevicePubkey)>::empty(),
        forgotten_users(pruned(m, now), now) == Set::<OwnerPubkey>::empty(),
{
    let once = pruned(m, now);
    assert forall|o: OwnerPubkey| #[trigger] once.users.contains_key(o) implies pruned_user(
        once.users[o],
        now,
    ) == once.users[o] by {
        assert(pruned_user(once.users[o], now).devices =~= once.users[o].devices);
    }
    assert(pruned(once, now).users =~= once.users);
    assert(forgotten_devices(once, now) =~= Set::empty());
    assert(forgotten_users(once, now) =~= Set::empty());
}

/// Devices that act for their owner are never forgotten.
pub proof fn pruning_keeps_devices_in_use(
    m: ManagerModel,
    now: UnixSeconds,
    owner: OwnerPubkey,
    device: DevicePubkey,
)
    requires
        reachable(m, owner, device),
    ensures
        reachable(pruned(m, now), owner, device),
        record_of(pruned(m, now), (owner, device)) == record_of(m, (owner, device)),
{
    assert(pruned_user(m.users[owner], now).roster is Some);
}

/// After a roster of an owner came, a device that was on the last one or is on
/// the new one is written to just if it is on the one that is kept.
pub proof fn roster_decides_who_is_written_to(
    before: ManagerModel,
    after: ManagerModel,
    owner: OwnerPubkey,
    roster: RosterModel,
    decision: RosterSnapshotDecision,
    device: DevicePubkey,
)
    requires
        takes_roster(before, after, owner, roster, decision),
        previous_devices(user_or_fresh(before, owner)).contains(device)
            || previous_devices(after.users[owner]).contains(device),
    ensures
        reachable(after, owner, device) == previous_devices(after.users[owner]).contains(device),
{
}

/// Every device to which a message goes gets it, or is named as one that
/// cannot be reached yet.
pub proof fn every_target_is_served_or_named(
    before: ManagerModel,
    after: ManagerModel,
    now: UnixSeconds,
    recipient: OwnerPubkey,
    to: Audience,
    payload: Seq<u8>,
    outcomes: Seq<DeviceOutcome>,
    prepared: PreparedSend,
    i: int,
)
    requires
        prepares_with(before, after, now, recipient, to, payload, outcomes, prepared),
        0 <= i < to.devices.len(),
    ensures
        ({
            let t = to.devices[i];
            ||| exists|k: int|
                0 <= k < prepared.deliveries@.len() && (
                    (#[trigger] prepared.deliveries@[k]).owner_pubkey,
                    prepared.deliveries@[k].device_pubkey,
                ) == t
            ||| gap_models(prepared.relay_gaps@).contains(
                GapModel::DeviceInvite(t.0, t.1, record_of(before, t).device_id),
            )
        }),
{
    lemma_served_or_named(before, to.gaps, to.devices, outcomes, i);
    assert(outcome_fits(before, after, now, payload, to.devices, outcomes, i));
}

proof fn lemma_served_or_named(
    m: ManagerModel,
    first: Seq<GapModel>,
    all: Seq<(OwnerPubkey, DevicePubkey)>,
    outcomes: Seq<DeviceOutcome>,
    i: int,
)
    requires
        0 <= i < outcomes.len() <= all.len(),
    ensures
        match outcomes[i] {
            Some((delivery, _)) => exists|k: int|
                0 <= k < deliveries_of(outcomes).len() && #[trigger] deliveries_of(outcomes)[k]
                    == delivery,
            None => gaps_of(m, first, all, outcomes).contains(
                GapModel::DeviceInvite(all[i].0, all[i].1, record_of(m, all[i]).device_id),
            ),
        },
    decreases outcomes.len(),
{
    let fewer = outcomes.drop_last();
    let n = outcomes.len() - 1;
    let gaps = gaps_of(m, first, all, outcomes);
    let deliveries = deliveries_of(outcomes);
    if i < n {
        lemma_served_or_named(m, first, all, fewer, i);
        assert(fewer[i] == outcomes[i]);
        match outcomes[i] {
            Some((delivery, _)) => {
                let k = choose|k: int|
                    0 <= k < deliveries_of(fewer).len() && #[trigger] deliveries_of(fewer)[k]
                        == delivery;
                assert(deliveries[k] == delivery);
            },
            None => {
                let gap = GapModel::DeviceInvite(
                    all[i].0,
                    all[i].1,
                    record_of(m, all[i]).device_id,
                );
                let rest = gaps_of(m, first, all, fewer);
                let k = choose|k: int| 0 <= k < rest.len() && rest[k] == gap;
                assert(gaps[k] == gap);
            },
        }
    } else {
        match outcomes[i] {
            Some((delivery, _)) => {
                assert(deliveries[deliveries.len() - 1] == delivery);
            },
            None => {
                assert(gaps[gaps.len() - 1] == GapModel::DeviceInvite(
                    all[i].0,
                    all[i].1,
                    record_of(m, all[i]).device_id,
                ));
            },
        }
    }
}

} // verus!
