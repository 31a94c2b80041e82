//! What the runtime keeps between two events, and how it is stored.
use vstd::prelude::*;
use crate::collections::{
    collected, ordered, ordered_entries, views, Alike, Replica, VecMap, VecSet,
};
use crate::event::{Event, SignedBody};
use crate::group::{group_snapshots, GroupManagerSnapshot, GroupSnapshotModel};
use crate::group_manager::{restored_groups, snapshots_of, GroupManager, GroupsModel};
use crate::ids::{device_key_of, DevicePubkey, OwnerPubkey, UnixSeconds};
use crate::order::same_str;
use crate::rumor::text_of;
use crate::session_manager::{
    manager_snapshot, restored, ManagerModel, ManagerSnapshotModel, SessionManager,
    SessionManagerSnapshot,
};

verus! {

/// Where the state of the runtime is stored.
pub const RUNTIME_STATE_KEY: &'static str = "v2/runtime-state";

/// What a message waits for.
#[derive(Debug, Clone, Copy, PartialEq, Eq, Structural)]
pub enum QueuedMessageStage {
    Discovery,
    Device,
}

/// A message that cannot be sent yet.
#[derive(Debug)]
pub struct PendingOutbound {
    pub recipient_owner: OwnerPubkey,
    pub remote_payload: Vec<u8>,
    pub local_sibling_payload: Option<Vec<u8>>,
    pub inner_event_id: Option<String>,
    pub created_at_ms: u64,
    pub reason: QueuedMessageStage,
}

#[verifier::ext_equal]
pub struct OutboundModel {
    pub recipient: OwnerPubkey,
    pub remote: Seq<u8>,
    pub local: Option<Seq<u8>>,
    pub inner: Option<Seq<char>>,
    pub created_at_ms: u64,
    pub reason: QueuedMessageStage,
}

pub open spec fn bytes_of(value: Option<Vec<u8>>) -> Option<Seq<u8>> {
    match value {
        Some(bytes) => Some(bytes@),
        None => None,
    }
}

impl View for PendingOutbound {
    type V = OutboundModel;

    open spec fn view(&self) -> OutboundModel {
        OutboundModel {
            recipient: self.recipient_owner,
            remote: self.remote_payload@,
            local: bytes_of(self.local_sibling_payload),
            inner: text_of(self.inner_event_id),
            created_at_ms: self.created_at_ms,
            reason: self.reason,
        }
    }
}

/// An event that was prepared and not yet acknowledged.
#[derive(Debug)]
pub struct PendingPreparedPublish {
    pub event: Event,
    pub inner_event_id: Option<String>,
    pub target_device_id: Option<String>,
}

#[verifier::ext_equal]
pub struct PublishModel {
    pub event: SignedBody,
    pub inner: Option<Seq<char>>,
    pub target: Option<Seq<char>>,
}

impl View for PendingPreparedPublish {
    type V = PublishModel;

    open spec fn view(&self) -> PublishModel {
        PublishModel {
            event: self.event@,
            inner: text_of(self.inner_event_id),
            target: text_of(self.target_device_id),
        }
    }
}

/// A message that was decrypted and not yet acknowledged.
#[derive(Debug)]
pub struct PendingDecryptedDelivery {
    pub sender_owner: OwnerPubkey,
    pub sender_device: Option<DevicePubkey>,
    pub conversation_owner: Option<OwnerPubkey>,
    pub content: String,
    pub event_id: Option<String>,
    pub created_at_ms: u64,
}

#[verifier::ext_equal]
pub struct DecryptedModel {
    pub sender: OwnerPubkey,
    pub device: Option<DevicePubkey>,
    pub conversation: Option<OwnerPubkey>,
    pub content: Seq<char>,
    pub event_id: Option<Seq<char>>,
    pub created_at_ms: u64,
}

impl View for PendingDecryptedDelivery {
    type V = DecryptedModel;

    open spec fn view(&self) -> DecryptedModel {
        DecryptedModel {
            sender: self.sender_owner,
            device: self.sender_device,
            conversation: self.conversation_owner,
            content: self.content@,
            event_id: text_of(self.event_id),
            created_at_ms: self.created_at_ms,
        }
    }
}

/// What a member told of a group that is not known yet.
#[derive(Debug)]
pub struct PendingGroupPairwisePayload {
    pub sender_owner: OwnerPubkey,
    pub sender_device: Option<DevicePubkey>,
    pub payload: Vec<u8>,
    pub created_at_ms: u64,
}

#[verifier::ext_equal]
pub struct PairwiseModel {
    pub sender: OwnerPubkey,
    pub device: Option<DevicePubkey>,
    pub payload: Seq<u8>,
    pub created_at_ms: u64,
}

impl View for PendingGroupPairwisePayload {
    type V = PairwiseModel;

    open spec fn view(&self) -> PairwiseModel {
        PairwiseModel {
            sender: self.sender_owner,
            device: self.sender_device,
            payload: self.payload@,
            created_at_ms: self.created_at_ms,
        }
    }
}

/// Whom something of a group has still to reach.
#[derive(Debug)]
pub enum GroupPendingFanout {
    Remote { recipient_owner: OwnerPubkey, payload: Vec<u8> },
    LocalSiblings { payload: Vec<u8> },
}

#[verifier::ext_equal]
pub enum FanoutGoal {
    Remote(OwnerPubkey, Seq<u8>),
    LocalSiblings(Seq<u8>),
}

impl View for GroupPendingFanout {
    type V = FanoutGoal;

    open spec fn view(&self) -> FanoutGoal {
        match *self {
            GroupPendingFanout::Remote { recipient_owner, payload } => FanoutGoal::Remote(
                recipient_owner,
                payload@,
            ),
            GroupPendingFanout::LocalSiblings { payload } => FanoutGoal::LocalSiblings(payload@),
        }
    }
}

/// Something of a group that has not reached all yet.
#[derive(Debug)]
pub struct PendingGroupFanout {
    pub group_id: String,
    pub fanout: GroupPendingFanout,
    pub inner_event_id: Option<String>,
    pub created_at_ms: u64,
}

#[verifier::ext_equal]
pub struct FanoutModel {
    pub group_id: Seq<char>,
    pub goal: FanoutGoal,
    pub inner: Option<Seq<char>>,
    pub created_at_ms: u64,
}

impl View for PendingGroupFanout {
    type V = FanoutModel;

    open spec fn view(&self) -> FanoutModel {
        FanoutModel {
            group_id: self.group_id@,
            goal: self.fanout@,
            inner: text_of(self.inner_event_id),
            created_at_ms: self.created_at_ms,
        }
    }
}

/// A message to a group that was encrypted with its sender's own key.
#[derive(Debug)]
pub struct GroupSenderKeyMessage {
    pub sender_event_pubkey: DevicePubkey,
    pub key_id: u32,
    pub message_number: u32,
    pub created_at: UnixSeconds,
    pub ciphertext: String,
}

#[verifier::ext_equal]
pub struct SenderKeyModel {
    pub sender: DevicePubkey,
    pub key_id: u32,
    pub message_number: u32,
    pub created_at: u64,
    pub ciphertext: Seq<char>,
}

impl View for GroupSenderKeyMessage {
    type V = SenderKeyModel;

    open spec fn view(&self) -> SenderKeyModel {
        SenderKeyModel {
            sender: self.sender_event_pubkey,
            key_id: self.key_id,
            message_number: self.message_number,
            created_at: self.created_at.0,
            ciphertext: self.ciphertext@,
        }
    }
}

// ---------------------------------------------------------------------------
// Copies and comparisons
// ---------------------------------------------------------------------------

pub fn copy_bytes(bytes: &Vec<u8>) -> (r: Vec<u8>)
    ensures
        r@ == bytes@,
{
    vstd::slice::slice_to_vec(bytes.as_slice())
}

pub fn copy_optional_bytes(bytes: &Option<Vec<u8>>) -> (r: Option<Vec<u8>>)
    ensures
        bytes_of(r) == bytes_of(*bytes),
{
    match bytes {
        Some(bytes) => Some(copy_bytes(bytes)),
        None => None,
    }
}

pub fn same_bytes(a: &Vec<u8>, b: &Vec<u8>) -> (r: bool)
    ensures
        r == (a@ == b@),
{
    if a.len() != b.len() {
        return false;
    }
    let mut i: usize = 0;
    while i < a.len()
        invariant
            i <= a@.len(),
            a@.len() == b@.len(),
            forall|j: int| 0 <= j < i ==> a@[j] == b@[j],
        decreases a@.len() - i,
    {
        if a[i] != b[i] {
            return false;
        }
        i = i + 1;
    }
    assert(a@ =~= b@);
    true
}

pub fn same_optional_bytes(a: &Option<Vec<u8>>, b: &Option<Vec<u8>>) -> (r: bool)
    ensures
        r == (bytes_of(*a) == bytes_of(*b)),
{
    match (a, b) {
        (Some(a), Some(b)) => same_bytes(a, b),
        (None, None) => true,
        _ => false,
    }
}

pub fn same_optional_text(a: &Option<String>, b: &Option<String>) -> (r: bool)
    ensures
        r == (text_of(*a) == text_of(*b)),
{
    match (a, b) {
        (Some(a), Some(b)) => same_str(a.as_str(), b.as_str()),
        (None, None) => true,
        _ => false,
    }
}

fn same_optional_device(a: Option<DevicePubkey>, b: Option<DevicePubkey>) -> (r: bool)
    ensures
        r == (a == b),
{
    match (a, b) {
        (Some(a), Some(b)) => a == b,
        (None, None) => true,
        _ => false,
    }
}

impl Replica for Event {
    fn replica(&self) -> (r: Self) {
        self.clone()
    }
}

impl Replica for PendingOutbound {
    fn replica(&self) -> (r: Self) {
        PendingOutbound {
            recipient_owner: self.recipient_owner,
            remote_payload: copy_bytes(&self.remote_payload),
            local_sibling_payload: copy_optional_bytes(&self.local_sibling_payload),
            inner_event_id: self.inner_event_id.clone(),
            created_at_ms: self.created_at_ms,
            reason: self.reason,
        }
    }
}

impl Replica for PendingPreparedPublish {
    fn replica(&self) -> (r: Self) {
        PendingPreparedPublish {
            event: self.event.clone(),
            inner_event_id: self.inner_event_id.clone(),
            target_device_id: self.target_device_id.clone(),
        }
    }
}

impl Replica for PendingDecryptedDelivery {
    fn replica(&self) -> (r: Self) {
        PendingDecryptedDelivery {
            sender_owner: self.sender_owner,
            sender_device: self.sender_device,
            conversation_owner: self.conversation_owner,
            content: self.content.clone(),
            event_id: self.event_id.clone(),
            created_at_ms: self.created_at_ms,
        }
    }
}

impl Replica for PendingGroupPairwisePayload {
    fn replica(&self) -> (r: Self) {
        PendingGroupPairwisePayload {
            sender_owner: self.sender_owner,
            sender_device: self.sender_device,
            payload: copy_bytes(&self.payload),
            created_at_ms: self.created_at_ms,
        }
    }
}

impl Alike for PendingGroupPairwisePayload {
    fn alike(&self, other: &Self) -> (r: bool) {
        self.sender_owner == other.sender_owner && same_optional_device(
            self.sender_device,
            other.sender_device,
        ) && same_bytes(&self.payload, &other.payload) && self.created_at_ms
            == other.created_at_ms
    }
}

impl Replica for GroupPendingFanout {
    fn replica(&self) -> (r: Self) {
        match self {
            GroupPendingFanout::Remote { recipient_owner, payload } => GroupPendingFanout::Remote {
                recipient_owner: *recipient_owner,
                payload: copy_bytes(payload),
            },
            GroupPendingFanout::LocalSiblings { payload } => GroupPendingFanout::LocalSiblings {
                payload: copy_bytes(payload),
            },
        }
    }
}

impl Alike for GroupPendingFanout {
    fn alike(&self, other: &Self) -> (r: bool) {
        match (self, other) {
            (
                GroupPendingFanout::Remote { recipient_owner: a, payload: p },
                GroupPendingFanout::Remote { recipient_owner: b, payload: q },
            ) => *a == *b && same_bytes(p, q),
            (
                GroupPendingFanout::LocalSiblings { payload: p },
                GroupPendingFanout::LocalSiblings { payload: q },
            ) => same_bytes(p, q),
            _ => false,
        }
    }
}

impl Replica for PendingGroupFanout {
    fn replica(&self) -> (r: Self) {
        PendingGroupFanout {
            group_id: self.group_id.clone(),
            fanout: self.fanout.replica(),
            inner_event_id: self.inner_event_id.clone(),
            created_at_ms: self.created_at_ms,
        }
    }
}

impl Alike for PendingGroupFanout {
    fn alike(&self, other: &Self) -> (r: bool) {
        same_str(self.group_id.as_str(), other.group_id.as_str()) && self.fanout.alike(
            &other.fanout,
        ) && same_optional_text(&self.inner_event_id, &other.inner_event_id) && self.created_at_ms
            == other.created_at_ms
    }
}

impl Replica for GroupSenderKeyMessage {
    fn replica(&self) -> (r: Self) {
        GroupSenderKeyMessage {
            sender_event_pubkey: self.sender_event_pubkey,
            key_id: self.key_id,
            message_number: self.message_number,
            created_at: self.created_at,
            ciphertext: self.ciphertext.clone(),
        }
    }
}

impl Alike for GroupSenderKeyMessage {
    fn alike(&self, other: &Self) -> (r: bool) {
        self.sender_event_pubkey == other.sender_event_pubkey && self.key_id == other.key_id
            && self.message_number == other.message_number && self.created_at.0
            == other.created_at.0 && same_str(self.ciphertext.as_str(), other.ciphertext.as_str())
    }
}

// ---------------------------------------------------------------------------
// The state
// ---------------------------------------------------------------------------

/// The sessions and groups of a device, and what is still to be done.
pub struct RuntimeState {
    pub core: SessionManager,
    pub group_manager: GroupManager,
    pub pending_prepared_publishes: Vec<PendingPreparedPublish>,
    pub pending_group_sender_key_messages: Vec<GroupSenderKeyMessage>,
    pub pending_group_pairwise_payloads: Vec<PendingGroupPairwisePayload>,
    pub pending_group_fanouts: Vec<PendingGroupFanout>,
    pub pending_decrypted_deliveries: Vec<PendingDecryptedDelivery>,
    pub pending_inbound_messages: Vec<Event>,
    pub pending_outbound: Vec<PendingOutbound>,
    pub processed_invite_response_ids: VecSet<String>,
    pub latest_app_keys_created_at: VecMap<OwnerPubkey, u64>,
    pub tracked_owner_pubkeys: VecSet<OwnerPubkey>,
    pub group_senders: VecMap<DevicePubkey, String>,
}

#[verifier::ext_equal]
pub struct StateModel {
    pub core: ManagerModel,
    pub groups: GroupsModel,
    pub publishes: Seq<PublishModel>,
    pub sender_keys: Seq<SenderKeyModel>,
    pub payloads: Seq<PairwiseModel>,
    pub fanouts: Seq<FanoutModel>,
    pub deliveries: Seq<DecryptedModel>,
    pub inbound: Seq<SignedBody>,
    pub outbound: Seq<OutboundModel>,
    pub processed: Set<Seq<char>>,
    pub latest: Map<OwnerPubkey, u64>,
    pub watched: Set<OwnerPubkey>,
    pub senders: Map<DevicePubkey, Seq<char>>,
}

pub open spec fn sender_groups(map: Map<DevicePubkey, String>) -> Map<DevicePubkey, Seq<char>> {
    Map::new(|k: DevicePubkey| map.contains_key(k), |k: DevicePubkey| map[k]@)
}

impl View for RuntimeState {
    type V = StateModel;

    open spec fn view(&self) -> StateModel {
        StateModel {
            core: self.core@,
            groups: self.group_manager@,
            publishes: views(self.pending_prepared_publishes@),
            sender_keys: views(self.pending_group_sender_key_messages@),
            payloads: views(self.pending_group_pairwise_payloads@),
            fanouts: views(self.pending_group_fanouts@),
            deliveries: views(self.pending_decrypted_deliveries@),
            inbound: views(self.pending_inbound_messages@),
            outbound: views(self.pending_outbound@),
            processed: self.processed_invite_response_ids@,
            latest: self.latest_app_keys_created_at@,
            watched: self.tracked_owner_pubkeys@,
            senders: sender_groups(self.group_senders@),
        }
    }
}

/// The state as it is stored.
#[derive(Debug)]
pub struct StoredRuntimeState {
    pub core: SessionManagerSnapshot,
    pub group_manager: Option<GroupManagerSnapshot>,
    pub pending_prepared_publishes: Vec<PendingPreparedPublish>,
    pub pending_group_sender_key_messages: Vec<GroupSenderKeyMessage>,
    pub pending_group_pairwise_payloads: Vec<PendingGroupPairwisePayload>,
    pub pending_group_fanouts: Vec<PendingGroupFanout>,
    pub pending_decrypted_deliveries: Vec<PendingDecryptedDelivery>,
    pub pending_inbound_messages: Vec<Event>,
    pub pending_outbound: Vec<PendingOutbound>,
    pub processed_invite_response_ids: Vec<String>,
    pub latest_app_keys_created_at: Vec<(OwnerPubkey, u64)>,
    pub tracked_owner_pubkeys: Vec<OwnerPubkey>,
    pub group_senders: Vec<(DevicePubkey, String)>,
}

#[verifier::ext_equal]
pub struct StoredGroups {
    pub owner: OwnerPubkey,
    pub groups: Seq<GroupSnapshotModel>,
}

#[verifier::ext_equal]
pub struct StoredModel {
    pub core: ManagerSnapshotModel,
    pub groups: Option<StoredGroups>,
    pub publishes: Seq<PublishModel>,
    pub sender_keys: Seq<SenderKeyModel>,
    pub payloads: Seq<PairwiseModel>,
    pub fanouts: Seq<FanoutModel>,
    pub deliveries: Seq<DecryptedModel>,
    pub inbound: Seq<SignedBody>,
    pub outbound: Seq<OutboundModel>,
    pub processed: Seq<Seq<char>>,
    pub latest: Seq<(OwnerPubkey, u64)>,
    pub watched: Seq<OwnerPubkey>,
    pub senders: Seq<(DevicePubkey, Seq<char>)>,
}

pub open spec fn sender_entries(entries: Seq<(DevicePubkey, String)>) -> Seq<
    (DevicePubkey, Seq<char>),
> {
    Seq::new(entries.len(), |i: int| (entries[i].0, entries[i].1@))
}

pub open spec fn stored_groups(snapshot: Option<GroupManagerSnapshot>) -> Option<StoredGroups> {
    match snapshot {
        Some(snapshot) => Some(
            StoredGroups {
                owner: snapshot.local_owner_pubkey,
                groups: group_snapshots(snapshot.groups@),
            },
        ),
        None => None,
    }
}

impl View for StoredRuntimeState {
    type V = StoredModel;

    open spec fn view(&self) -> StoredModel {
        StoredModel {
            core: self.core@,
            groups: stored_groups(self.group_manager),
            publishes: views(self.pending_prepared_publishes@),
            sender_keys: views(self.pending_group_sender_key_messages@),
            payloads: views(self.pending_group_pairwise_payloads@),
            fanouts: views(self.pending_group_fanouts@),
            deliveries: views(self.pending_decrypted_deliveries@),
            inbound: views(self.pending_inbound_messages@),
            outbound: views(self.pending_outbound@),
            processed: crate::event::texts(self.processed_invite_response_ids@),
            latest: self.latest_app_keys_created_at@,
            watched: self.tracked_owner_pubkeys@,
            senders: sender_entries(self.group_senders@),
        }
    }
}

/// A state as it is stored: sets and maps in the order of their keys.
pub open spec fn stored_of(m: StateModel) -> StoredModel {
    StoredModel {
        core: manager_snapshot(m.core),
        groups: Some(StoredGroups { owner: m.groups.owner, groups: snapshots_of(m.groups.groups) }),
        publishes: m.publishes,
        sender_keys: m.sender_keys,
        payloads: m.payloads,
        fanouts: m.fanouts,
        deliveries: m.deliveries,
        inbound: m.inbound,
        outbound: m.outbound,
        processed: ordered::<String>(m.processed),
        latest: ordered_entries::<OwnerPubkey, u64>(m.latest),
        watched: ordered::<OwnerPubkey>(m.watched),
        senders: ordered_entries::<DevicePubkey, Seq<char>>(m.senders),
    }
}

/// The groups that were stored; none where they cannot be read.
pub open spec fn loaded_groups(stored: Option<StoredGroups>, owner: OwnerPubkey) -> GroupsModel {
    match stored {
        Some(stored) => match restored_groups(stored.groups) {
            Ok(groups) => GroupsModel { owner: stored.owner, groups },
            Err(_) => GroupsModel { owner, groups: Map::empty() },
        },
        None => GroupsModel { owner, groups: Map::empty() },
    }
}

/// The state that was stored.
pub open spec fn loaded_state(s: StoredModel, owner: OwnerPubkey, secret: [u8; 32]) -> StateModel {
    StateModel {
        core: restored(s.core, secret),
        groups: loaded_groups(s.groups, owner),
        publishes: s.publishes,
        sender_keys: s.sender_keys,
        payloads: s.payloads,
        fanouts: s.fanouts,
        deliveries: s.deliveries,
        inbound: s.inbound,
        outbound: s.outbound,
        processed: s.processed.to_set(),
        latest: collected(s.latest),
        watched: s.watched.to_set(),
        senders: collected(s.senders),
    }
}

/// A state before anything happened.
pub open spec fn fresh_state(core: ManagerModel, owner: OwnerPubkey) -> StateModel {
    StateModel {
        core,
        groups: GroupsModel { owner, groups: Map::empty() },
        publishes: Seq::empty(),
        sender_keys: Seq::empty(),
        payloads: Seq::empty(),
        fanouts: Seq::empty(),
        deliveries: Seq::empty(),
        inbound: Seq::empty(),
        outbound: Seq::empty(),
        processed: Set::empty(),
        latest: Map::empty(),
        watched: Set::empty(),
        senders: Map::empty(),
    }
}

impl RuntimeState {
    pub fn fresh(core: SessionManager, owner_public_key: OwnerPubkey) -> (r: Self)
        ensures
            r@ == fresh_state(core@, owner_public_key),
    {
        let r = RuntimeState {
            core,
            group_manager: GroupManager::new(owner_public_key),
            pending_prepared_publishes: Vec::new(),
            pending_group_sender_key_messages: Vec::new(),
            pending_group_pairwise_payloads: Vec::new(),
            pending_group_fanouts: Vec::new(),
            pending_decrypted_deliveries: Vec::new(),
            pending_inbound_messages: Vec::new(),
            pending_outbound: Vec::new(),
            processed_invite_response_ids: VecSet::new(),
            latest_app_keys_created_at: VecMap::new(),
            tracked_owner_pubkeys: VecSet::new(),
            group_senders: VecMap::new(),
        };
        assert(r@ =~= fresh_state(core@, owner_public_key));
        r
    }

    /// The state as it is stored.
    pub fn stored(&self) -> (r: StoredRuntimeState)
        ensures
            r@ == stored_of(self@),
    {
        let n: usize = self.processed_invite_response_ids.len();
        let ghost order = ordered::<String>(self@.processed);
        let mut processed: Vec<String> = Vec::new();
        let mut i: usize = 0;
        while i < n
            invariant
                i <= n,
                n == order.len(),
                order == ordered::<String>(self.processed_invite_response_ids@),
                processed@.len() == i,
                forall|j: int| 0 <= j < i ==> (#[trigger] processed@[j])@ == order[j],
            decreases n - i,
        {
            processed.push(self.processed_invite_response_ids.at(i).clone());
            i = i + 1;
        }
        assert(crate::event::texts(processed@) =~= order);
        let n: usize = self.latest_app_keys_created_at.len();
        let ghost entries = ordered_entries::<OwnerPubkey, u64>(self@.latest);
        let mut latest: Vec<(OwnerPubkey, u64)> = Vec::new();
        let mut i: usize = 0;
        while i < n
            invariant
                i <= n,
                n == entries.len(),
                n == self.latest_app_keys_created_at.order().len(),
                self.latest_app_keys_created_at.order() == ordered::<OwnerPubkey>(
                    self@.latest.dom(),
                ),
                entries == ordered_entries::<OwnerPubkey, u64>(self@.latest),
                latest@ == entries.take(i as int),
            decreases n - i,
        {
            latest.push(
                (
                    *self.latest_app_keys_created_at.key_at(i),
                    *self.latest_app_keys_created_at.value_at(i),
                ),
            );
            assert(latest@ =~= entries.take(i + 1));
            i = i + 1;
        }
        assert(latest@ =~= entries);
        let n: usize = self.group_senders.len();
        let ghost entries = ordered_entries::<DevicePubkey, Seq<char>>(self@.senders);
        assert(self@.senders.dom() =~= self.group_senders@.dom());
        let mut senders: Vec<(DevicePubkey, String)> = Vec::new();
        let mut i: usize = 0;
        while i < n
            invariant
                i <= n,
                n == entries.len(),
                n == self.group_senders.order().len(),
                self.group_senders.order() == ordered::<DevicePubkey>(self@.senders.dom()),
                entries == ordered_entries::<DevicePubkey, Seq<char>>(self@.senders),
                senders@.len() == i,
                forall|j: int|
                    0 <= j < i ==> ((#[trigger] senders@[j]).0, senders@[j].1@) == entries[j],
            decreases n - i,
        {
            senders.push((*self.group_senders.key_at(i), self.group_senders.value_at(i).clone()));
            i = i + 1;
        }
        assert(sender_entries(senders@) =~= entries);
        StoredRuntimeState {
            core: self.core.snapshot(),
            group_manager: Some(self.group_manager.snapshot()),
            pending_prepared_publishes: crate::collections::replicas(
                &self.pending_prepared_publishes,
            ),
            pending_group_sender_key_messages: crate::collections::replicas(
                &self.pending_group_sender_key_messages,
            ),
            pending_group_pairwise_payloads: crate::collections::replicas(
                &self.pending_group_pairwise_payloads,
            ),
            pending_group_fanouts: crate::collections::replicas(&self.pending_group_fanouts),
            pending_decrypted_deliveries: crate::collections::replicas(
                &self.pending_decrypted_deliveries,
            ),
            pending_inbound_messages: crate::collections::replicas(&self.pending_inbound_messages),
            pending_outbound: crate::collections::replicas(&self.pending_outbound),
            processed_invite_response_ids: processed,
            latest_app_keys_created_at: latest,
            tracked_owner_pubkeys: crate::session_manager::listed_owners(
                &self.tracked_owner_pubkeys,
            ),
            group_senders: senders,
        }
    }

    /// The state that was stored, if it is that of the device with this secret
    /// key. Groups that cannot be read are left out.
    pub fn load(
        stored: StoredRuntimeState,
        owner_public_key: OwnerPubkey,
        identity_key: [u8; 32],
    ) -> (r: Option<Self>)
        ensures
            match r {
                Some(state) => device_key_of(identity_key) == Some(stored@.core.device) && state@
                    == loaded_state(stored@, owner_public_key, identity_key),
                None => device_key_of(identity_key) != Some(stored@.core.device),
            },
    {
        let ghost whole = stored@;
        let core = match SessionManager::from_snapshot(stored.core, identity_key) {
            Ok(core) => core,
            Err(_) => {
                return None;
            },
        };
        let group_manager = match stored.group_manager {
            Some(snapshot) => match GroupManager::from_snapshot(snapshot) {
                Ok(manager) => manager,
                Err(_) => GroupManager::new(owner_public_key),
            },
            None => GroupManager::new(owner_public_key),
        };
        let ids = stored.processed_invite_response_ids;
        let ghost all = crate::event::texts(ids@);
        let mut processed: VecSet<String> = VecSet::new();
        let mut i: usize = 0;
        while i < ids.len()
            invariant
                i <= ids@.len(),
                all == crate::event::texts(ids@),
                processed@ == all.take(i as int).to_set(),
            decreases ids@.len() - i,
        {
            let ghost before = processed@;
            processed.insert(ids[i].clone());
            assert(processed@ =~= all.take(i + 1).to_set()) by {
                lemma_take_set(all, i as int);
            }
            i = i + 1;
        }
        assert(all.take(i as int) =~= all);
        let pairs = stored.latest_app_keys_created_at;
        let mut latest: VecMap<OwnerPubkey, u64> = VecMap::new();
        let mut i: usize = 0;
        assert(pairs@.take(0) =~= Seq::empty());
        while i < pairs.len()
            invariant
                i <= pairs@.len(),
                latest@ == collected(pairs@.take(i as int)),
            decreases pairs@.len() - i,
        {
            latest.insert(pairs[i].0, pairs[i].1);
            assert(pairs@.take(i + 1).drop_last() =~= pairs@.take(i as int));
            i = i + 1;
        }
        assert(pairs@.take(i as int) =~= pairs@);
        let owners = stored.tracked_owner_pubkeys;
        let mut watched: VecSet<OwnerPubkey> = VecSet::new();
        let mut i: usize = 0;
        while i < owners.len()
            invariant
                i <= owners@.len(),
                watched@ == owners@.take(i as int).to_set(),
            decreases owners@.len() - i,
        {
            watched.insert(owners[i]);
            assert(watched@ =~= owners@.take(i + 1).to_set()) by {
                lemma_take_set(owners@, i as int);
            }
            i = i + 1;
        }
        assert(owners@.take(i as int) =~= owners@);
        let named = stored.group_senders;
        let ghost entries = sender_entries(named@);
        let mut group_senders: VecMap<DevicePubkey, String> = VecMap::new();
        let mut i: usize = 0;
        assert(entries.take(0) =~= Seq::empty());
        assert(sender_groups(group_senders@) =~= Map::empty());
        while i < named.len()
            invariant
                i <= named@.len(),
                entries == sender_entries(named@),
                sender_groups(group_senders@) == collected(entries.take(i as int)),
            decreases named@.len() - i,
        {
            let ghost before = sender_groups(group_senders@);
            group_senders.insert(named[i].0, named[i].1.clone());
            assert(entries.take(i + 1).drop_last() =~= entries.take(i as int));
            assert(entries.take(i + 1).last() == (named@[i as int].0, named@[i as int].1@));
            assert(sender_groups(group_senders@) =~= before.insert(
                named@[i as int].0,
                named@[i as int].1@,
            ));
            i = i + 1;
        }
        assert(entries.take(i as int) =~= entries);
        let state = RuntimeState {
            core,
            group_manager,
            pending_prepared_publishes: stored.pending_prepared_publishes,
            pending_group_sender_key_messages: stored.pending_group_sender_key_messages,
            pending_group_pairwise_payloads: stored.pending_group_pairwise_payloads,
            pending_group_fanouts: stored.pending_group_fanouts,
            pending_decrypted_deliveries: stored.pending_decrypted_deliveries,
            pending_inbound_messages: stored.pending_inbound_messages,
            pending_outbound: stored.pending_outbound,
            processed_invite_response_ids: processed,
            latest_app_keys_created_at: latest,
            tracked_owner_pubkeys: watched,
            group_senders,
        };
        assert(state@ =~= loaded_state(whole, owner_public_key, identity_key));
        Some(state)
    }
}

proof fn lemma_take_set<T>(items: Seq<T>, i: int)
    requires
        0 <= i < items.len(),
    ensures
        items.take(i + 1).to_set() == items.take(i).to_set().insert(items[i]),
{
    let more = items.take(i + 1);
    let less = items.take(i);
    assert(more =~= less.push(items[i]));
    assert forall|x: T| #[trigger] more.to_set().contains(x) <==> less.to_set().insert(
        items[i],
    ).contains(x) by {
        if more.contains(x) {
            let j = choose|j: int| 0 <= j < more.len() && more[j] == x;
            if j < i {
                assert(less[j] == x);
            }
        }
        if less.contains(x) {
            let j = choose|j: int| 0 <= j < less.len() && less[j] == x;
            assert(more[j] == x);
        }
        if x == items[i] {
            assert(more[i] == x);
        }
    }
    assert(more.to_set() =~= less.to_set().insert(items[i]));
}

/// Whether only finitely much is known, each group stands under its own
/// identifier, and all groups are well formed.
pub open spec fn storable(m: StateModel) -> bool {
    &&& crate::session_manager::finite(m.core)
    &&& crate::group_manager::all_well_formed(m.groups.groups)
    &&& m.processed.finite()
    &&& m.latest.dom().finite()
    &&& m.watched.finite()
    &&& m.senders.dom().finite()
}

/// What was stored is read back as it was.
pub proof fn stored_state_is_read_back(m: StateModel, owner: OwnerPubkey)
    requires
        storable(m),
    ensures
        loaded_state(stored_of(m), owner, m.core.secret) == m,
{
    crate::session_manager::snapshot_restores(m.core);
    crate::group_manager::group_snapshots_restore(m.groups.groups);
    crate::collections::entries_make_the_map::<OwnerPubkey, u64>(m.latest);
    crate::collections::entries_make_the_map::<DevicePubkey, Seq<char>>(m.senders);
    crate::collections::ordered_lists::<String>(m.processed);
    crate::collections::ordered_lists::<OwnerPubkey>(m.watched);
    assert(ordered::<String>(m.processed).to_set() =~= m.processed);
    assert(ordered::<OwnerPubkey>(m.watched).to_set() =~= m.watched);
    assert(loaded_state(stored_of(m), owner, m.core.secret) =~= m);
}

/// Every state whose groups are well formed can be stored and read back.
pub proof fn states_are_storable(state: RuntimeState)
    requires
        crate::group_manager::all_well_formed(state@.groups.groups),
    ensures
        storable(state@),
{
    crate::session_manager::managers_are_finite(state.core);
    crate::collections::set_is_finite(state.processed_invite_response_ids);
    crate::collections::map_is_finite(state.latest_app_keys_created_at);
    crate::collections::set_is_finite(state.tracked_owner_pubkeys);
    crate::collections::map_is_finite(state.group_senders);
    assert(state@.senders.dom() =~= state.group_senders@.dom());
}

} // verus!
