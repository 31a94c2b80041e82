//! Everything that one device keeps: its own devices, its peers and the
//! sessions with them.
use vstd::prelude::*;
use crate::app_keys::{
    listed, lists_each_once, merged, order_of_devices_does_not_matter, AppKeys, AppKeysModel,
    DeviceEntry,
};
use crate::collections::{ordered, ordered_values, OrderedKey, VecMap};
use crate::encoding::hex_text;
use crate::error::{detail, fault, DomainError, Error, Fault};
use crate::ids::{DeviceId, DevicePubkey, OwnerPubkey, UnixSeconds};
use crate::invite::{
    accepted, device_name, processes, resolved_owner, IncomingInviteResponseEnvelope, Invite,
    InviteModel, InviteResponse, OutgoingInviteResponseEnvelope,
};
use crate::peer_book::{
    commit_fault, device_or_fresh, known_name, plans_from, received, send_choice, sendable_to,
    sends, stored_devices, upserted, PeerBook, PeerBookReceivePlan, PeerDeviceModel,
    StoredPeerBook,
};
use crate::rumor::{content_rumor, text_of, DirectMessageContent, Rumor, RumorModel};
use crate::session::{
    EnvelopeModel, IncomingDirectMessageEnvelope, OutgoingDirectMessageEnvelope, SendOutcome,
    Session,
};
use crate::types::{chance_fails, ProtocolContext};

verus! {

/// The state of a device.
pub struct NdrState {
    local: LocalState,
    peers: VecMap<OwnerPubkey, PeerState>,
}

struct LocalState {
    owner_pubkey: OwnerPubkey,
    device_pubkey: DevicePubkey,
    device_id: Option<DeviceId>,
    app_keys: Option<AppKeys>,
    app_keys_created_at: UnixSeconds,
}

struct PeerState {
    owner_pubkey: OwnerPubkey,
    sessions: PeerBook,
    app_keys: Option<AppKeys>,
    app_keys_created_at: UnixSeconds,
}

/// What became of a list of devices that was taken in.
#[derive(Debug, Clone, Copy, PartialEq, Eq, Structural)]
pub enum AppKeysSnapshotDecision {
    Advanced,
    Stale,
    MergedEqualTimestamp,
}

#[derive(Debug)]
pub struct NdrSnapshot {
    pub local: LocalSnapshot,
    pub peers: Vec<PeerSnapshot>,
}

#[derive(Debug)]
pub struct LocalSnapshot {
    pub owner_pubkey: OwnerPubkey,
    pub device_pubkey: DevicePubkey,
    pub device_id: Option<DeviceId>,
    pub app_keys_created_at: UnixSeconds,
    pub authorized_devices: Vec<DeviceSnapshot>,
}

#[derive(Debug)]
pub struct PeerSnapshot {
    pub owner_pubkey: OwnerPubkey,
    pub app_keys_created_at: UnixSeconds,
    pub authorized_devices: Vec<DeviceSnapshot>,
    pub sessions: StoredPeerBook,
}

#[derive(Debug)]
pub struct DeviceSnapshot {
    pub identity_pubkey: DevicePubkey,
    pub created_at: UnixSeconds,
    pub device_label: Option<String>,
    pub client_label: Option<String>,
    pub labels_updated_at: Option<UnixSeconds>,
}

#[derive(Debug)]
pub struct PreparedDirectMessage {
    pub peer_owner_pubkey: OwnerPubkey,
    pub peer_device_id: DeviceId,
    pub envelope: OutgoingDirectMessageEnvelope,
    pub rumor: Rumor,
}

#[derive(Debug)]
pub struct ReceivedDirectMessage {
    pub peer_owner_pubkey: OwnerPubkey,
    pub peer_device_id: DeviceId,
    pub rumor: Rumor,
}

#[derive(Debug)]
pub struct InviteAcceptance {
    pub inviter_pubkey: OwnerPubkey,
    pub inviter_device_id: Option<DeviceId>,
    pub response: OutgoingInviteResponseEnvelope,
}

#[derive(Debug)]
pub struct ProcessedInviteResponse {
    pub peer_owner_pubkey: OwnerPubkey,
    pub peer_device_id: Option<DeviceId>,
    pub invitee_identity: DevicePubkey,
}

// ---------------------------------------------------------------------------
// Models
// ---------------------------------------------------------------------------

/// What is kept of a peer.
#[verifier::ext_equal]
pub struct PeerModel {
    pub owner: OwnerPubkey,
    pub sessions: Map<Seq<char>, PeerDeviceModel>,
    pub app_keys: Option<AppKeysModel>,
    pub app_keys_created_at: UnixSeconds,
}

/// What a device keeps.
#[verifier::ext_equal]
pub struct NdrModel {
    pub owner: OwnerPubkey,
    pub device: DevicePubkey,
    pub device_id: Option<Seq<char>>,
    pub app_keys: Option<AppKeysModel>,
    pub app_keys_created_at: UnixSeconds,
    pub peers: Map<OwnerPubkey, PeerModel>,
}

pub open spec fn optional_keys(keys: Option<AppKeys>) -> Option<AppKeysModel> {
    match keys {
        Some(keys) => Some(keys@),
        None => None,
    }
}

impl View for PeerState {
    type V = PeerModel;

    closed spec fn view(&self) -> PeerModel {
        PeerModel {
            owner: self.owner_pubkey,
            sessions: self.sessions@,
            app_keys: optional_keys(self.app_keys),
            app_keys_created_at: self.app_keys_created_at,
        }
    }
}

spec fn peer_models(peers: Map<OwnerPubkey, PeerState>) -> Map<OwnerPubkey, PeerModel> {
    Map::new(|k: OwnerPubkey| peers.contains_key(k), |k: OwnerPubkey| peers[k]@)
}

impl View for NdrState {
    type V = NdrModel;

    closed spec fn view(&self) -> NdrModel {
        NdrModel {
            owner: self.local.owner_pubkey,
            device: self.local.device_pubkey,
            device_id: device_name(self.local.device_id),
            app_keys: optional_keys(self.local.app_keys),
            app_keys_created_at: self.local.app_keys_created_at,
            peers: peer_models(self.peers@),
        }
    }
}

/// A device as a snapshot shows it.
#[verifier::ext_equal]
pub struct DeviceSnapshotModel {
    pub device: DeviceEntry,
    pub device_label: Option<Seq<char>>,
    pub client_label: Option<Seq<char>>,
    pub labels_updated_at: Option<UnixSeconds>,
}

impl View for DeviceSnapshot {
    type V = DeviceSnapshotModel;

    open spec fn view(&self) -> DeviceSnapshotModel {
        DeviceSnapshotModel {
            device: DeviceEntry {
                identity_pubkey: self.identity_pubkey,
                created_at: self.created_at,
            },
            device_label: text_of(self.device_label),
            client_label: text_of(self.client_label),
            labels_updated_at: self.labels_updated_at,
        }
    }
}

pub open spec fn device_snapshots(devices: Seq<DeviceSnapshot>) -> Seq<DeviceSnapshotModel> {
    Seq::new(devices.len(), |i: int| devices[i]@)
}

/// A peer as a snapshot shows it.
#[verifier::ext_equal]
pub struct PeerSnapshotModel {
    pub owner: OwnerPubkey,
    pub app_keys_created_at: UnixSeconds,
    pub devices: Seq<DeviceSnapshotModel>,
    pub sessions: Seq<PeerDeviceModel>,
}

impl View for PeerSnapshot {
    type V = PeerSnapshotModel;

    open spec fn view(&self) -> PeerSnapshotModel {
        PeerSnapshotModel {
            owner: self.owner_pubkey,
            app_keys_created_at: self.app_keys_created_at,
            devices: device_snapshots(self.authorized_devices@),
            sessions: stored_devices(self.sessions.devices@),
        }
    }
}

/// What a snapshot shows.
#[verifier::ext_equal]
pub struct NdrSnapshotModel {
    pub owner: OwnerPubkey,
    pub device: DevicePubkey,
    pub device_id: Option<Seq<char>>,
    pub app_keys_created_at: UnixSeconds,
    pub devices: Seq<DeviceSnapshotModel>,
    pub peers: Seq<PeerSnapshotModel>,
}

impl View for NdrSnapshot {
    type V = NdrSnapshotModel;

    open spec fn view(&self) -> NdrSnapshotModel {
        NdrSnapshotModel {
            owner: self.local.owner_pubkey,
            device: self.local.device_pubkey,
            device_id: device_name(self.local.device_id),
            app_keys_created_at: self.local.app_keys_created_at,
            devices: device_snapshots(self.local.authorized_devices@),
            peers: Seq::new(self.peers@.len(), |i: int| self.peers@[i]@),
        }
    }
}

/// The devices of an owner as a snapshot shows them, in the order of their
/// keys.
pub open spec fn shown_devices(keys: Option<AppKeysModel>) -> Seq<DeviceSnapshotModel> {
    match keys {
        None => Seq::empty(),
        Some(keys) => Seq::new(
            ordered_values::<DevicePubkey, DeviceEntry>(keys.devices).len(),
            |i: int| shown_device(keys, ordered_values::<DevicePubkey, DeviceEntry>(keys.devices)[i]),
        ),
    }
}

pub open spec fn shown_device(keys: AppKeysModel, device: DeviceEntry) -> DeviceSnapshotModel {
    if keys.labels.contains_key(device.identity_pubkey) {
        let labels = keys.labels[device.identity_pubkey];
        DeviceSnapshotModel {
            device,
            device_label: labels.device_label,
            client_label: labels.client_label,
            labels_updated_at: Some(labels.updated_at),
        }
    } else {
        DeviceSnapshotModel {
            device,
            device_label: None,
            client_label: None,
            labels_updated_at: None,
        }
    }
}

pub open spec fn shown_peer(peer: PeerModel) -> PeerSnapshotModel {
    PeerSnapshotModel {
        owner: peer.owner,
        app_keys_created_at: peer.app_keys_created_at,
        devices: shown_devices(peer.app_keys),
        sessions: ordered_values::<DeviceId, PeerDeviceModel>(peer.sessions),
    }
}

/// What a snapshot of a state shows.
pub open spec fn shown(m: NdrModel) -> NdrSnapshotModel {
    NdrSnapshotModel {
        owner: m.owner,
        device: m.device,
        device_id: m.device_id,
        app_keys_created_at: m.app_keys_created_at,
        devices: shown_devices(m.app_keys),
        peers: Seq::new(
            ordered_values::<OwnerPubkey, PeerModel>(m.peers).len(),
            |i: int| shown_peer(ordered_values::<OwnerPubkey, PeerModel>(m.peers)[i]),
        ),
    }
}

/// Whether each peer is known under its own key.
pub open spec fn named(m: NdrModel) -> bool {
    forall|k: OwnerPubkey| #[trigger] m.peers.contains_key(k) ==> m.peers[k].owner == k
}

/// A peer of which nothing is known yet.
pub open spec fn fresh_peer(owner: OwnerPubkey) -> PeerModel {
    PeerModel {
        owner,
        sessions: Map::empty(),
        app_keys: None,
        app_keys_created_at: UnixSeconds(0),
    }
}

pub open spec fn peer_or_fresh(m: NdrModel, owner: OwnerPubkey) -> PeerModel {
    if m.peers.contains_key(owner) {
        m.peers[owner]
    } else {
        fresh_peer(owner)
    }
}

/// What becomes of a list of devices when another comes: the newer one stays,
/// and two of the same time are put together.
pub open spec fn decided(
    current: Option<AppKeysModel>,
    current_at: UnixSeconds,
    incoming: AppKeysModel,
    incoming_at: UnixSeconds,
) -> (AppKeysSnapshotDecision, AppKeysModel, UnixSeconds) {
    match current {
        None => (AppKeysSnapshotDecision::Advanced, incoming, incoming_at),
        Some(keys) => if incoming_at.0 > current_at.0 {
            (AppKeysSnapshotDecision::Advanced, incoming, incoming_at)
        } else if incoming_at.0 < current_at.0 {
            (AppKeysSnapshotDecision::Stale, keys, current_at)
        } else {
            (AppKeysSnapshotDecision::MergedEqualTimestamp, merged(keys, incoming), current_at)
        },
    }
}

/// A state with a session more with a peer.
pub open spec fn with_peer_session(
    m: NdrModel,
    owner: OwnerPubkey,
    name: Seq<char>,
    session: crate::session::SessionModel,
    now: UnixSeconds,
) -> NdrModel {
    let peer = peer_or_fresh(m, owner);
    NdrModel {
        peers: m.peers.insert(
            owner,
            PeerModel {
                sessions: peer.sessions.insert(
                    name,
                    upserted(device_or_fresh(peer.sessions, name, now), session, now),
                ),
                ..peer
            },
        ),
        ..m
    }
}

fn apply_app_keys_snapshot(
    current_app_keys: &Option<AppKeys>,
    current_created_at: UnixSeconds,
    incoming_app_keys: AppKeys,
    incoming_created_at: UnixSeconds,
) -> (r: (AppKeysSnapshotDecision, AppKeys, UnixSeconds))
    ensures
        (r.0, r.1@, r.2) == decided(
            optional_keys(*current_app_keys),
            current_created_at,
            incoming_app_keys@,
            incoming_created_at,
        ),
{
    match current_app_keys {
        None => (AppKeysSnapshotDecision::Advanced, incoming_app_keys, incoming_created_at),
        Some(current) => if incoming_created_at.0 > current_created_at.0 {
            (AppKeysSnapshotDecision::Advanced, incoming_app_keys, incoming_created_at)
        } else if incoming_created_at.0 < current_created_at.0 {
            (AppKeysSnapshotDecision::Stale, current.clone(), current_created_at)
        } else {
            (
                AppKeysSnapshotDecision::MergedEqualTimestamp,
                current.merge(&incoming_app_keys),
                current_created_at,
            )
        },
    }
}

fn snapshot_devices(app_keys: &Option<AppKeys>) -> (r: Vec<DeviceSnapshot>)
    ensures
        device_snapshots(r@) == shown_devices(optional_keys(*app_keys)),
{
    let app_keys = match app_keys {
        Some(keys) => keys,
        None => {
            let none: Vec<DeviceSnapshot> = Vec::new();
            assert(device_snapshots(none@) =~= Seq::empty());
            return none;
        },
    };
    let devices = app_keys.get_all_devices();
    let mut r: Vec<DeviceSnapshot> = Vec::new();
    let mut i: usize = 0;
    while i < devices.len()
        invariant
            i <= devices@.len(),
            r@.len() == i,
            forall|j: int|
                0 <= j < i ==> (#[trigger] r@[j])@ == shown_device(app_keys@, devices@[j]),
        decreases devices@.len() - i,
    {
        let device: DeviceEntry = devices[i];
        let shown = match app_keys.get_device_labels(&device.identity_pubkey) {
            Some(labels) => DeviceSnapshot {
                identity_pubkey: device.identity_pubkey,
                created_at: device.created_at,
                device_label: labels.device_label.clone(),
                client_label: labels.client_label.clone(),
                labels_updated_at: Some(labels.updated_at),
            },
            None => DeviceSnapshot {
                identity_pubkey: device.identity_pubkey,
                created_at: device.created_at,
                device_label: None,
                client_label: None,
                labels_updated_at: None,
            },
        };
        r.push(shown);
        i = i + 1;
    }
    assert(device_snapshots(r@) =~= shown_devices(Some(app_keys@)));
    r
}

impl PeerState {
    fn fresh(owner_pubkey: OwnerPubkey) -> (r: PeerState)
        ensures
            r@ == fresh_peer(owner_pubkey),
    {
        PeerState {
            owner_pubkey,
            sessions: PeerBook::new(),
            app_keys: None,
            app_keys_created_at: UnixSeconds(0),
        }
    }

    fn snapshot(&self) -> (r: PeerSnapshot)
        ensures
            r@ == shown_peer(self@),
    {
        PeerSnapshot {
            owner_pubkey: self.owner_pubkey,
            app_keys_created_at: self.app_keys_created_at,
            authorized_devices: snapshot_devices(&self.app_keys),
            sessions: self.sessions.snapshot(),
        }
    }
}

fn unknown_peer(owner: OwnerPubkey) -> (r: Error)
    ensures
        fault(r) == Fault::UnknownPeer,
        detail(r) == Some(hex_text(owner.0@)),
{
    Error::Domain(DomainError::UnknownPeer(owner.to_hex()))
}

fn no_sendable_session(owner: OwnerPubkey) -> (r: Error)
    ensures
        fault(r) == Fault::NoSendableSession,
        detail(r) == Some(hex_text(owner.0@)),
{
    Error::Domain(DomainError::NoSendableSession(owner.to_hex()))
}

impl NdrState {
    pub fn new(
        owner_pubkey: OwnerPubkey,
        device_pubkey: DevicePubkey,
        device_id: Option<DeviceId>,
    ) -> (r: Self)
        ensures
            r@ == (NdrModel {
                owner: owner_pubkey,
                device: device_pubkey,
                device_id: device_name(device_id),
                app_keys: None,
                app_keys_created_at: UnixSeconds(0),
                peers: Map::empty(),
            }),
            named(r@),
    {
        let r = NdrState {
            local: LocalState {
                owner_pubkey,
                device_pubkey,
                device_id,
                app_keys: None,
                app_keys_created_at: UnixSeconds(0),
            },
            peers: VecMap::new(),
        };
        assert(r@.peers =~= Map::empty());
        r
    }

    pub fn single_device(identity_pubkey: DevicePubkey, device_id: Option<DeviceId>) -> (r: Self)
        ensures
            r@ == (NdrModel {
                owner: identity_pubkey.owner(),
                device: identity_pubkey,
                device_id: device_name(device_id),
                app_keys: None,
                app_keys_created_at: UnixSeconds(0),
                peers: Map::empty(),
            }),
            named(r@),
    {
        Self::new(identity_pubkey.as_owner(), identity_pubkey, device_id)
    }

    pub fn owner_pubkey(&self) -> (r: OwnerPubkey)
        ensures
            r == self@.owner,
    {
        self.local.owner_pubkey
    }

    pub fn device_pubkey(&self) -> (r: DevicePubkey)
        ensures
            r == self@.device,
    {
        self.local.device_pubkey
    }

    /// What is kept, in the order of the keys and names.
    pub fn snapshot(&self) -> (r: NdrSnapshot)
        ensures
            r@ == shown(self@),
    {
        let mut peers: Vec<PeerSnapshot> = Vec::new();
        let n: usize = self.peers.len();
        let ghost order = self.peers.order();
        assert(self@.peers.dom() =~= self.peers@.dom());
        let mut i: usize = 0;
        while i < n
            invariant
                i <= n,
                n == order.len(),
                order == self.peers.order(),
                peers@.len() == i,
                forall|j: int|
                    0 <= j < i ==> (#[trigger] peers@[j])@ == shown_peer(self@.peers[order[j]]),
            decreases n - i,
        {
            let peer = self.peers.value_at(i);
            assert(peer@ == self@.peers[order[i as int]]);
            peers.push(peer.snapshot());
            i = i + 1;
        }
        let r = NdrSnapshot {
            local: LocalSnapshot {
                owner_pubkey: self.local.owner_pubkey,
                device_pubkey: self.local.device_pubkey,
                device_id: self.local.device_id.clone(),
                app_keys_created_at: self.local.app_keys_created_at,
                authorized_devices: snapshot_devices(&self.local.app_keys),
            },
            peers,
        };
        assert(r@.peers =~= shown(self@).peers);
        r
    }

    pub fn apply_local_app_keys(
        &mut self,
        incoming_app_keys: AppKeys,
        created_at: UnixSeconds,
    ) -> (r: AppKeysSnapshotDecision)
        ensures
            ({
                let (decision, keys, at) = decided(
                    old(self)@.app_keys,
                    old(self)@.app_keys_created_at,
                    incoming_app_keys@,
                    created_at,
                );
                &&& r == decision
                &&& final(self)@ == (NdrModel {
                    app_keys: Some(keys),
                    app_keys_created_at: at,
                    ..old(self)@
                })
            }),
            named(old(self)@) ==> named(final(self)@),
    {
        let (decision, app_keys, at) = apply_app_keys_snapshot(
            &self.local.app_keys,
            self.local.app_keys_created_at,
            incoming_app_keys,
            created_at,
        );
        self.local.app_keys = Some(app_keys);
        self.local.app_keys_created_at = at;
        decision
    }

    pub fn apply_peer_app_keys(
        &mut self,
        owner_pubkey: OwnerPubkey,
        incoming_app_keys: AppKeys,
        created_at: UnixSeconds,
    ) -> (r: AppKeysSnapshotDecision)
        ensures
            ({
                let peer = peer_or_fresh(old(self)@, owner_pubkey);
                let (decision, keys, at) = decided(
                    peer.app_keys,
                    peer.app_keys_created_at,
                    incoming_app_keys@,
                    created_at,
                );
                &&& r == decision
                &&& final(self)@ == (NdrModel {
                    peers: old(self)@.peers.insert(
                        owner_pubkey,
                        PeerModel { app_keys: Some(keys), app_keys_created_at: at, ..peer },
                    ),
                    ..old(self)@
                })
            }),
            named(old(self)@) ==> named(final(self)@),
    {
        let ghost before = self@;
        let mut peer = self.take_peer(owner_pubkey);
        let (decision, app_keys, at) = apply_app_keys_snapshot(
            &peer.app_keys,
            peer.app_keys_created_at,
            incoming_app_keys,
            created_at,
        );
        peer.app_keys = Some(app_keys);
        peer.app_keys_created_at = at;
        let ghost after = peer@;
        self.put_peer(owner_pubkey, peer);
        assert(self@.peers =~= before.peers.insert(owner_pubkey, after));
        decision
    }

    /// Takes a peer out, or a fresh one if it is not known.
    fn take_peer(&mut self, owner_pubkey: OwnerPubkey) -> (r: PeerState)
        ensures
            r@ == peer_or_fresh(old(self)@, owner_pubkey),
            final(self)@ == (NdrModel {
                peers: old(self)@.peers.remove(owner_pubkey),
                ..old(self)@
            }),
    {
        let ghost before = self@;
        let peer = match self.peers.remove(&owner_pubkey) {
            Some(peer) => peer,
            None => PeerState::fresh(owner_pubkey),
        };
        assert(self@.peers =~= before.peers.remove(owner_pubkey));
        peer
    }

    /// Puts a peer in.
    fn put_peer(&mut self, owner_pubkey: OwnerPubkey, peer: PeerState)
        ensures
            final(self)@ == (NdrModel {
                peers: old(self)@.peers.insert(owner_pubkey, peer@),
                ..old(self)@
            }),
    {
        let ghost before = self@;
        let ghost after = peer@;
        self.peers.insert(owner_pubkey, peer);
        assert(self@.peers =~= before.peers.insert(owner_pubkey, after));
    }

    pub fn upsert_peer_session(
        &mut self,
        owner_pubkey: OwnerPubkey,
        device_id: Option<DeviceId>,
        session: Session,
        now: UnixSeconds,
    )
        ensures
            final(self)@ == with_peer_session(
                old(self)@,
                owner_pubkey,
                known_name(device_id),
                session@,
                now,
            ),
            named(old(self)@) ==> named(final(self)@),
    {
        let ghost before = self@;
        let mut peer = self.take_peer(owner_pubkey);
        peer.sessions.upsert_session(device_id, session, now);
        let ghost after = peer@;
        self.put_peer(owner_pubkey, peer);
        assert(self@.peers =~= before.peers.insert(owner_pubkey, after));
    }

    /// Sends a rumor to a peer, on the best session there is.
    pub fn send_rumor(&mut self, now: UnixSeconds, owner_pubkey: OwnerPubkey, rumor: &Rumor) -> (r:
        Result<PreparedDirectMessage, Error>)
        ensures
            sends_to_peer(old(self)@, final(self)@, now, owner_pubkey, rumor@, r),
            named(old(self)@) ==> named(final(self)@),
    {
        let ghost before = self@;
        let mut peer = match self.peers.remove(&owner_pubkey) {
            Some(peer) => peer,
            None => {
                assert(self@.peers =~= before.peers);
                return Err(unknown_peer(owner_pubkey));
            },
        };
        let ghost known = peer@;
        match peer.sessions.plan_send() {
            None => {
                self.peers.insert(owner_pubkey, peer);
                assert(self@.peers =~= before.peers);
                Err(no_sendable_session(owner_pubkey))
            },
            Some(selection) => {
                let sent = peer.sessions.apply_send(now, &selection, rumor);
                let ghost after = peer@;
                self.peers.insert(owner_pubkey, peer);
                assert(self@.peers =~= before.peers.insert(owner_pubkey, after));
                match sent {
                    Err(e) => {
                        assert(after =~= known);
                        assert(self@.peers =~= before.peers);
                        Err(e)
                    },
                    Ok(outcome) => Ok(
                        PreparedDirectMessage {
                            peer_owner_pubkey: owner_pubkey,
                            peer_device_id: selection.device_id,
                            envelope: outcome.envelope,
                            rumor: outcome.rumor,
                        },
                    ),
                }
            },
        }
    }

    /// Writes a message and sends it to a peer. The key that it is written
    /// under is left to chance.
    pub fn send_direct_message(
        &mut self,
        ctx: &mut ProtocolContext<'_>,
        owner_pubkey: OwnerPubkey,
        content: DirectMessageContent,
    ) -> (r: Result<PreparedDirectMessage, Error>)
        ensures
            final(ctx).now_secs == old(ctx).now_secs,
            final(ctx).now_millis == old(ctx).now_millis,
            (exists|author: DevicePubkey|
                sends_to_peer(
                    old(self)@,
                    final(self)@,
                    old(ctx).now_secs,
                    owner_pubkey,
                    #[trigger] content_rumor(
                        author,
                        old(ctx).now_secs,
                        old(ctx).now_millis,
                        content,
                    ),
                    r,
                )) || (*final(self) == *old(self) && (r matches Err(e) && fault(e)
                == Fault::NostrKey) && chance_fails()),
            named(old(self)@) ==> named(final(self)@),
    {
        match Rumor::from_content(ctx, content) {
            Err(e) => Err(e),
            Ok(rumor) => {
                let r = self.send_rumor(ctx.now_secs, owner_pubkey, &rumor);
                assert(rumor@ == content_rumor(
                    rumor.pubkey,
                    old(ctx).now_secs,
                    old(ctx).now_millis,
                    content,
                ));
                r
            },
        }
    }

    pub fn send_text(
        &mut self,
        ctx: &mut ProtocolContext<'_>,
        owner_pubkey: OwnerPubkey,
        text: String,
    ) -> (r: Result<PreparedDirectMessage, Error>)
        ensures
            final(ctx).now_secs == old(ctx).now_secs,
            final(ctx).now_millis == old(ctx).now_millis,
            (exists|author: DevicePubkey|
                sends_to_peer(
                    old(self)@,
                    final(self)@,
                    old(ctx).now_secs,
                    owner_pubkey,
                    #[trigger] content_rumor(
                        author,
                        old(ctx).now_secs,
                        old(ctx).now_millis,
                        DirectMessageContent::Text(text),
                    ),
                    r,
                )) || (*final(self) == *old(self) && (r matches Err(e) && fault(e)
                == Fault::NostrKey) && chance_fails()),
            named(old(self)@) ==> named(final(self)@),
    {
        self.send_direct_message(ctx, owner_pubkey, DirectMessageContent::Text(text))
    }

    /// Receives a message of a peer with the first session that listens to its
    /// sender. Where none does, there is no message.
    pub fn receive_direct_message(
        &mut self,
        ctx: &mut ProtocolContext<'_>,
        owner_pubkey: OwnerPubkey,
        preferred_device_id: Option<&DeviceId>,
        envelope: &IncomingDirectMessageEnvelope,
    ) -> (r: Result<Option<ReceivedDirectMessage>, Error>)
        ensures
            final(ctx).now_secs == old(ctx).now_secs,
            final(ctx).now_millis == old(ctx).now_millis,
            receives_from_peer(
                old(self)@,
                final(self)@,
                old(ctx).now_secs,
                owner_pubkey,
                match preferred_device_id {
                    Some(id) => Some(id@),
                    None => None,
                },
                envelope@,
                r,
            ),
            named(old(self)@) ==> named(final(self)@),
    {
        let ghost before = self@;
        let mut peer = match self.peers.remove(&owner_pubkey) {
            Some(peer) => peer,
            None => {
                assert(self@.peers =~= before.peers);
                return Err(unknown_peer(owner_pubkey));
            },
        };
        let ghost known = peer@;
        let planned = peer.sessions.plan_receive(ctx, envelope, preferred_device_id);
        let ghost plan_result = planned;
        match planned {
            Err(e) => {
                self.peers.insert(owner_pubkey, peer);
                assert(self@.peers =~= before.peers);
                Err(e)
            },
            Ok(None) => {
                self.peers.insert(owner_pubkey, peer);
                assert(self@.peers =~= before.peers);
                Ok(None)
            },
            Ok(Some(plan)) => {
                let device_id = plan.device_id.clone();
                let committed = peer.sessions.commit_receive(ctx.now_secs, plan);
                let ghost after = peer@;
                self.peers.insert(owner_pubkey, peer);
                assert(self@.peers =~= before.peers.insert(owner_pubkey, after));
                match committed {
                    Err(e) => Err(e),
                    Ok(outcome) => {
                        let message = ReceivedDirectMessage {
                            peer_owner_pubkey: owner_pubkey,
                            peer_device_id: device_id,
                            rumor: outcome.rumor,
                        };
                        assert(takes_over(
                            before,
                            self@,
                            old(ctx).now_secs,
                            owner_pubkey,
                            match preferred_device_id {
                                Some(id) => Some(id@),
                                None => None,
                            },
                            envelope@,
                            plan,
                            message,
                        ));
                        Ok(Some(message))
                    },
                }
            },
        }
    }

    pub fn create_invite(&self, ctx: &mut ProtocolContext<'_>, max_uses: Option<usize>) -> (r: Result<
        Invite,
        Error,
    >)
        ensures
            final(ctx).now_secs == old(ctx).now_secs,
            final(ctx).now_millis == old(ctx).now_millis,
            match r {
                Ok(invite) => {
                    &&& invite@.ephemeral_secret is Some
                    &&& crate::ids::device_key_of(invite@.ephemeral_secret->Some_0) == Some(
                        invite@.ephemeral_key,
                    )
                    &&& invite@ == (InviteModel {
                        ephemeral_key: invite@.ephemeral_key,
                        shared_secret: invite@.shared_secret,
                        inviter: self@.owner,
                        ephemeral_secret: invite@.ephemeral_secret,
                        device_id: self@.device_id,
                        max_uses,
                        used_by: Seq::empty(),
                        created_at: old(ctx).now_secs,
                        purpose: None,
                        owner: None,
                    })
                },
                Err(e) => fault(e) == Fault::NostrKey && chance_fails(),
            },
    {
        Invite::create_new(
            ctx,
            self.local.owner_pubkey,
            self.local.device_id.clone(),
            max_uses,
        )
    }

    /// Accepts an invite and keeps the session that it starts. A device of
    /// another owner says whose it is.
    pub fn accept_invite(
        &mut self,
        ctx: &mut ProtocolContext<'_>,
        invite: &Invite,
        invitee_private_key: [u8; 32],
    ) -> (r: Result<InviteAcceptance, Error>)
        ensures
            final(ctx).now_secs == old(ctx).now_secs,
            final(ctx).now_millis == old(ctx).now_millis,
            accepts(
                old(self)@,
                final(self)@,
                old(ctx).now_secs,
                invite@,
                invitee_private_key,
                r,
            ),
            named(old(self)@) ==> named(final(self)@),
    {
        let ghost before = self@;
        let claimed_owner: Option<OwnerPubkey> = if self.local.owner_pubkey
            == self.local.device_pubkey.as_owner() {
            None
        } else {
            Some(self.local.owner_pubkey)
        };
        let answered = invite.accept_with_owner(
            ctx,
            self.local.device_pubkey,
            invitee_private_key,
            self.local.device_id.clone(),
            claimed_owner,
        );
        match answered {
            Err(e) => {
                assert(accepted(
                    invite@,
                    old(ctx).now_secs,
                    before.device,
                    invitee_private_key,
                    before.device_id,
                    claimed_owner_of(before),
                    Err(e),
                ));
                Err(e)
            },
            Ok((session, response)) => {
                let ghost kept = session;
                assert(accepted(
                    invite@,
                    old(ctx).now_secs,
                    before.device,
                    invitee_private_key,
                    before.device_id,
                    claimed_owner_of(before),
                    Ok((kept, response)),
                ));
                self.upsert_peer_session(
                    invite.inviter,
                    invite.device_id.clone(),
                    session,
                    ctx.now_secs,
                );
                let acceptance = InviteAcceptance {
                    inviter_pubkey: invite.inviter,
                    inviter_device_id: invite.device_id.clone(),
                    response,
                };
                assert(accepts_with(
                    before,
                    self@,
                    old(ctx).now_secs,
                    invite@,
                    invitee_private_key,
                    kept,
                    acceptance,
                ));
                Ok(acceptance)
            },
        }
    }

    /// Takes in the response to an invite and keeps the session that it starts.
    pub fn process_invite_response(
        &mut self,
        ctx: &mut ProtocolContext<'_>,
        invite: &mut Invite,
        envelope: &IncomingInviteResponseEnvelope,
        inviter_private_key: [u8; 32],
    ) -> (r: Result<Option<ProcessedInviteResponse>, Error>)
        ensures
            final(ctx).now_secs == old(ctx).now_secs,
            final(ctx).now_millis == old(ctx).now_millis,
            r matches Ok(found) ==> found is Some,
            match r {
                Ok(found) => exists|response: InviteResponse| #[trigger]
                    takes_response(
                        old(self)@,
                        final(self)@,
                        old(invite)@,
                        final(invite)@,
                        old(ctx).now_secs,
                        envelope.sender,
                        envelope.content@,
                        inviter_private_key,
                        response,
                        found->Some_0,
                    ),
                Err(e) => *final(self) == *old(self) && *final(invite) == *old(invite) && processes(
                    old(invite)@,
                    final(invite)@,
                    envelope.sender,
                    envelope.content@,
                    inviter_private_key,
                    Err(e),
                ),
            },
            named(old(self)@) ==> named(final(self)@),
    {
        let ghost before = self@;
        let response = match invite.process_invite_response(ctx, envelope, inviter_private_key) {
            Err(e) => {
                return Err(e);
            },
            Ok(None) => {
                return Ok(None);
            },
            Ok(Some(response)) => response,
        };
        let ghost whole = response;
        let peer_owner_pubkey = response.resolved_owner_pubkey();
        let peer_device_id = response.device_id.clone();
        self.upsert_peer_session(
            peer_owner_pubkey,
            response.device_id,
            response.session,
            ctx.now_secs,
        );
        let done = ProcessedInviteResponse {
            peer_owner_pubkey,
            peer_device_id,
            invitee_identity: response.invitee_identity,
        };
        assert(takes_response(
            before,
            self@,
            old(invite)@,
            invite@,
            old(ctx).now_secs,
            envelope.sender,
            envelope.content@,
            inviter_private_key,
            whole,
            done,
        ));
        let r: Result<Option<ProcessedInviteResponse>, Error> = Ok(Some(done));
        assert(takes_response(
            before,
            self@,
            old(invite)@,
            invite@,
            old(ctx).now_secs,
            envelope.sender,
            envelope.content@,
            inviter_private_key,
            whole,
            r->Ok_0->Some_0,
        ));
        r
    }
}

/// Whether a result is that of sending a rumor to a peer, and a state what it
/// comes to.
pub open spec fn sends_to_peer(
    before: NdrModel,
    after: NdrModel,
    now: UnixSeconds,
    owner: OwnerPubkey,
    rumor: RumorModel,
    r: Result<PreparedDirectMessage, Error>,
) -> bool {
    if !before.peers.contains_key(owner) {
        (r matches Err(e) && fault(e) == Fault::UnknownPeer && detail(e) == Some(
            hex_text(owner.0@),
        )) && after == before
    } else {
        let book = before.peers[owner].sessions;
        match r {
            Ok(message) => {
                &&& message.peer_owner_pubkey == owner
                &&& send_choice(book, message.peer_device_id@)
                &&& sends(
                    book,
                    after.peers[owner].sessions,
                    message.peer_device_id@,
                    rumor,
                    now,
                    Ok(SendOutcome { envelope: message.envelope, rumor: message.rumor }),
                )
                &&& after == (NdrModel {
                    peers: before.peers.insert(
                        owner,
                        PeerModel {
                            sessions: after.peers[owner].sessions,
                            ..before.peers[owner]
                        },
                    ),
                    ..before
                })
            },
            Err(e) => {
                &&& after == before
                &&& if forall|name: Seq<char>| #[trigger]
                    book.contains_key(name) ==> !sendable_to(book[name]) {
                    fault(e) == Fault::NoSendableSession && detail(e) == Some(hex_text(owner.0@))
                } else {
                    exists|name: Seq<char>| #[trigger]
                        send_choice(book, name) && sends(book, book, name, rumor, now, Err(e))
                }
            },
        }
    }
}

/// Whether a plan was taken over.
pub open spec fn takes_over(
    before: NdrModel,
    after: NdrModel,
    now: UnixSeconds,
    owner: OwnerPubkey,
    preferred: Option<Seq<char>>,
    envelope: EnvelopeModel,
    plan: PeerBookReceivePlan,
    message: ReceivedDirectMessage,
) -> bool {
    let book = before.peers[owner].sessions;
    &&& plans_from(book, envelope, preferred, Ok(Some(plan)))
    &&& !commit_fault(book, plan.device_id@, plan.active_match, plan.inactive_index)
    &&& message.peer_owner_pubkey == owner
    &&& message.peer_device_id@ == plan.device_id@
    &&& message.rumor == plan.session_plan.rumor
    &&& after == (NdrModel {
        peers: before.peers.insert(
            owner,
            PeerModel {
                sessions: book.insert(
                    plan.device_id@,
                    received(
                        book[plan.device_id@],
                        plan.active_match,
                        plan.inactive_index,
                        plan.session_plan.next_state@,
                        now,
                    ),
                ),
                ..before.peers[owner]
            },
        ),
        ..before
    })
}

/// Whether a result is that of receiving a message of a peer, and a state what
/// it comes to.
pub open spec fn receives_from_peer(
    before: NdrModel,
    after: NdrModel,
    now: UnixSeconds,
    owner: OwnerPubkey,
    preferred: Option<Seq<char>>,
    envelope: EnvelopeModel,
    r: Result<Option<ReceivedDirectMessage>, Error>,
) -> bool {
    if !before.peers.contains_key(owner) {
        (r matches Err(e) && fault(e) == Fault::UnknownPeer && detail(e) == Some(
            hex_text(owner.0@),
        )) && after == before
    } else {
        match r {
            Ok(Some(message)) => exists|plan: PeerBookReceivePlan| #[trigger]
                takes_over(before, after, now, owner, preferred, envelope, plan, message),
            Ok(None) => after == before && plans_from(
                before.peers[owner].sessions,
                envelope,
                preferred,
                Ok(None),
            ),
            Err(e) => after == before && plans_from(
                before.peers[owner].sessions,
                envelope,
                preferred,
                Err(e),
            ),
        }
    }
}

/// The owner that a device claims: none where it is its own.
pub open spec fn claimed_owner_of(m: NdrModel) -> Option<OwnerPubkey> {
    if m.owner == m.device.owner() {
        None
    } else {
        Some(m.owner)
    }
}

/// The name of a device that may have none, as sessions are kept under it.
pub open spec fn kept_name(name: Option<Seq<char>>) -> Seq<char> {
    match name {
        Some(name) => name,
        None => "unknown"@,
    }
}

/// Whether an invite was accepted with a session that is then kept.
pub open spec fn accepts_with(
    before: NdrModel,
    after: NdrModel,
    now: UnixSeconds,
    invite: InviteModel,
    invitee_secret: [u8; 32],
    session: Session,
    acceptance: InviteAcceptance,
) -> bool {
    &&& accepted(
        invite,
        now,
        before.device,
        invitee_secret,
        before.device_id,
        claimed_owner_of(before),
        Ok((session, acceptance.response)),
    )
    &&& acceptance.inviter_pubkey == invite.inviter
    &&& device_name(acceptance.inviter_device_id) == invite.device_id
    &&& after == with_peer_session(
        before,
        invite.inviter,
        kept_name(invite.device_id),
        session@,
        now,
    )
}

/// Whether a result is that of accepting an invite, and a state what it comes
/// to.
pub open spec fn accepts(
    before: NdrModel,
    after: NdrModel,
    now: UnixSeconds,
    invite: InviteModel,
    invitee_secret: [u8; 32],
    r: Result<InviteAcceptance, Error>,
) -> bool {
    match r {
        Ok(acceptance) => exists|session: Session| #[trigger]
            accepts_with(before, after, now, invite, invitee_secret, session, acceptance),
        Err(e) => after == before && accepted(
            invite,
            now,
            before.device,
            invitee_secret,
            before.device_id,
            claimed_owner_of(before),
            Err(e),
        ),
    }
}

/// Whether a response was taken in and its session is then kept.
pub open spec fn takes_response(
    before: NdrModel,
    after: NdrModel,
    invite: InviteModel,
    next_invite: InviteModel,
    now: UnixSeconds,
    sender: DevicePubkey,
    content: Seq<char>,
    inviter_secret: [u8; 32],
    response: InviteResponse,
    done: ProcessedInviteResponse,
) -> bool {
    let owner = resolved_owner(response.invitee_identity, response.owner_public_key);
    &&& processes(invite, next_invite, sender, content, inviter_secret, Ok(response))
    &&& done.peer_owner_pubkey == owner
    &&& device_name(done.peer_device_id) == device_name(response.device_id)
    &&& done.invitee_identity == response.invitee_identity
    &&& after == with_peer_session(
        before,
        owner,
        known_name(response.device_id),
        response.session@,
        now,
    )
}

// ---------------------------------------------------------------------------
// What holds of lists of devices
// ---------------------------------------------------------------------------

/// The time of the list of devices that is kept never goes back.
pub proof fn device_lists_never_go_back(
    current: Option<AppKeysModel>,
    current_at: UnixSeconds,
    incoming: AppKeysModel,
    incoming_at: UnixSeconds,
)
    ensures
        current is Some ==> decided(current, current_at, incoming, incoming_at).2.0
            >= current_at.0,
        decided(current, current_at, incoming, incoming_at).2.0 >= incoming_at.0,
{
}

/// A list of devices that is taken in a second time changes nothing.
pub proof fn same_device_list_changes_nothing(
    current: Option<AppKeysModel>,
    current_at: UnixSeconds,
    incoming: AppKeysModel,
    incoming_at: UnixSeconds,
)
    requires
        current is None || incoming_at.0 > current_at.0,
        incoming.devices.dom().finite(),
        incoming.keyed(),
        incoming.labels_known(),
    ensures
        ({
            let (_, keys, at) = decided(current, current_at, incoming, incoming_at);
            decided(Some(keys), at, incoming, incoming_at) == (
                AppKeysSnapshotDecision::MergedEqualTimestamp,
                keys,
                at,
            )
        }),
{
    crate::app_keys::merging_is_idempotent(incoming);
}

/// What is kept when a list of the own devices came.
pub open spec fn with_own_devices(m: NdrModel, incoming: AppKeysModel, at: UnixSeconds) -> NdrModel {
    let (_, keys, at) = decided(m.app_keys, m.app_keys_created_at, incoming, at);
    NdrModel { app_keys: Some(keys), app_keys_created_at: at, ..m }
}

/// What is kept when lists of the own devices came one after the other.
pub open spec fn with_own_lists(m: NdrModel, lists: Seq<(Seq<DeviceEntry>, UnixSeconds)>) -> NdrModel
    decreases lists.len(),
{
    if lists.len() == 0 {
        m
    } else {
        with_own_devices(
            with_own_lists(m, lists.drop_last()),
            AppKeysModel { devices: listed(lists.last().0), labels: Map::empty() },
            lists.last().1,
        )
    }
}

/// Lists of the same devices and times give the same snapshot, in whatever order
/// each names its devices.
pub proof fn snapshots_do_not_tell_in_which_order_devices_came(
    m: NdrModel,
    a: Seq<(Seq<DeviceEntry>, UnixSeconds)>,
    b: Seq<(Seq<DeviceEntry>, UnixSeconds)>,
)
    requires
        a.len() == b.len(),
        forall|i: int|
            0 <= i < a.len() ==> (#[trigger] a[i]).1 == b[i].1 && a[i].0.to_set() == b[i].0.to_set()
                && lists_each_once(a[i].0) && lists_each_once(b[i].0),
    ensures
        shown(with_own_lists(m, a)) == shown(with_own_lists(m, b)),
        with_own_lists(m, a) == with_own_lists(m, b),
    decreases a.len(),
{
    if a.len() > 0 {
        let n = a.len() - 1;
        assert forall|i: int| 0 <= i < n implies (#[trigger] a.drop_last()[i]).1
            == b.drop_last()[i].1 && a.drop_last()[i].0.to_set() == b.drop_last()[i].0.to_set()
            && lists_each_once(a.drop_last()[i].0) && lists_each_once(b.drop_last()[i].0) by {
            assert(a.drop_last()[i] == a[i] && b.drop_last()[i] == b[i]);
        }
        snapshots_do_not_tell_in_which_order_devices_came(m, a.drop_last(), b.drop_last());
        assert(a[n].1 == b[n].1);
        order_of_devices_does_not_matter(a[n].0, b[n].0);
    }
}

/// A snapshot shows every peer once, in the order of their keys.
pub proof fn snapshots_are_sorted(state: NdrState)
    requires
        named(state@),
    ensures
        ({
            let peers = shown(state@).peers;
            &&& forall|i: int, j: int|
                0 <= i < j < peers.len() ==> OwnerPubkey::before(
                    (#[trigger] peers[i]).owner,
                    (#[trigger] peers[j]).owner,
                )
            &&& forall|i: int|
                0 <= i < peers.len() ==> state@.peers.contains_key((#[trigger] peers[i]).owner)
                    && peers[i] == shown_peer(state@.peers[peers[i].owner])
            &&& forall|k: OwnerPubkey| #[trigger]
                state@.peers.contains_key(k) ==> peers.contains(shown_peer(state@.peers[k]))
        }),
{
    let m = state@;
    crate::collections::map_is_finite(state.peers);
    assert(m.peers.dom() =~= state.peers@.dom());
    let order = ordered::<OwnerPubkey>(m.peers.dom());
    crate::collections::ordered_lists::<OwnerPubkey>(m.peers.dom());
    let peers = shown(m).peers;
    assert forall|i: int| 0 <= i < peers.len() implies (#[trigger] peers[i]).owner == order[i]
        && m.peers.contains_key(order[i]) && peers[i] == shown_peer(m.peers[order[i]]) by {
        assert(order.contains(order[i]));
        assert(m.peers.dom().contains(order[i]));
        assert(m.peers.contains_key(order[i]));
    }
    assert forall|k: OwnerPubkey| #[trigger] m.peers.contains_key(k) implies peers.contains(
        shown_peer(m.peers[k]),
    ) by {
        assert(m.peers.dom().contains(k));
        let i = choose|i: int| 0 <= i < order.len() && order[i] == k;
        assert(peers[i] == shown_peer(m.peers[k]));
    }
}

} // verus!
