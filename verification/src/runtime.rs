//! The runtime: everything that a device keeps, and what it asks to be done
//! when it sends, receives or is told something. Nothing here reads a clock,
//! a disk or a relay; what is to be done there comes back as effects.
pub mod answering;
pub mod effects;
pub mod group_ops;
pub mod groups;
pub mod hearing;
pub mod inbox;
pub mod letters;
pub mod listening;
pub mod outbox;
pub mod properties;
pub mod reaching;
pub mod retry;
pub mod starting;
pub mod store;
pub mod subscriptions;
pub mod waiting;

use vstd::prelude::*;
use crate::app_keys::AppKeys;
use crate::codec::nostr::{invite_event_body, invite_tags, invite_unsigned_event};
use crate::collections::{lists, ordered, push_item, push_items, views, VecSet};
use crate::crypto::{parse_public_key, public_key_of, public_key_parsed};
use crate::encoding::hex_text;
use crate::error::{fault, Error, Fault};
use crate::event::{body_id, event_verifies, tag_texts, texts, Event, SignedBody};
use crate::group::{group_snapshots, GroupIncomingEvent, GroupSnapshot};
use crate::group_manager::{snapshots_of, GroupManager};
use crate::group_wire::{payload_of_bytes, OwnersChange};
use crate::ids::{device_key_of, DeviceId, DevicePubkey, OwnerPubkey, UnixMillis, UnixSeconds};
use crate::invite::{Invite, InviteModel};
use crate::roster::{device_times, AuthorizedDevice, DeviceRoster, RosterModel};
use crate::rumor::{ensured, message_tag, pair_of, text_of, Rumor, RumorModel};
use crate::session::domain::expects;
use crate::session::{SessionModel, SessionState};
use crate::session_manager::queries::{
    active_sessions, all_sessions, held_models, known_roster, listed_devices, listed_senders,
    senders, sessions_with, trusted_devices, HeldModel, HeldSession,
};
use crate::session_manager::{
    fresh_invite, listed_owners, optional_invite, rostered, user_or_fresh, with_import,
    with_new_invite, ManagerModel, SessionManager,
};
use crate::text::{blank, is_blank};
use crate::types::{
    chance_fails, ProtocolContext, CHAT_MESSAGE_KIND, CHAT_SETTINGS_KIND, REACTION_KIND, RECEIPT_KIND,
    TYPING_KIND,
};
use effects::{
    delivery_waits, emit_all, nothing_published, persist, publish_all, push_emit_effects,
    push_publish_effects, waits, without_delivery, without_event, EffectModel, RuntimeEffect,
    RuntimePublishResult,
};
use group_ops::{changes_owners, makes_group, renames, writes_to_group};
use groups::{
    incoming, outer, GroupPairwiseHandleOutcome, RuntimeGroupCreateResult,
    RuntimeGroupIncomingResult, RuntimeGroupSnapshotResult, SenderKeyOutcome,
};
use inbox::{ingests, processes_event};
use letters::{
    check_receipt_type, expiration, is_receipt, letter, letter_bytes, letter_to_bytes,
    local_sibling_payload, message_tags, resolve_expiration_seconds, settings_json, sibling_bytes,
    write_letter, write_message_tags, write_settings, SendOptions,
};
use outbox::{
    dispatches, effects_of, invalid_event, moment, refresh_core, sync_core, sync_effects,
    with_core, CoreModel, Letter, Moment, RuntimeCore,
};
use store::{
    fresh_state, loaded_state, GroupSenderKeyMessage, OutboundModel, QueuedMessageStage,
    RuntimeState, StateModel, StoredModel, StoredRuntimeState,
};
use subscriptions::message_authors;

verus! {

/// Everything that a device keeps.
pub struct NdrRuntime {
    core: RuntimeCore,
    our_identity_key: [u8; 32],
    device_id: String,
}

#[verifier::ext_equal]
pub struct RuntimeModel {
    pub core: CoreModel,
    pub secret: [u8; 32],
    pub device_id: Seq<char>,
}

impl View for NdrRuntime {
    type V = RuntimeModel;

    closed spec fn view(&self) -> RuntimeModel {
        RuntimeModel {
            core: self.core@,
            secret: self.our_identity_key,
            device_id: self.device_id@,
        }
    }
}

/// Whether two are the same device.
pub open spec fn same_device(a: RuntimeModel, b: RuntimeModel) -> bool {
    a.secret == b.secret && a.device_id == b.device_id
}

#[derive(Debug)]
pub struct RuntimeTextSendResult {
    pub inner_event_id: String,
    pub event_ids: Vec<String>,
    pub effects: Vec<RuntimeEffect>,
}

#[derive(Debug)]
pub struct RuntimeAcceptInviteResult {
    pub outcome: AcceptInviteResult,
    pub effects: Vec<RuntimeEffect>,
}

#[derive(Debug)]
pub struct AcceptInviteResult {
    pub owner_pubkey: OwnerPubkey,
    pub inviter_device_pubkey: DevicePubkey,
    pub device_id: String,
    pub created_new_session: bool,
}

/// What a message waits for, and for whom.
#[derive(Debug)]
pub struct QueuedMessageDiagnostic {
    pub stage: QueuedMessageStage,
    pub target_key: String,
    pub owner_pubkey: Option<OwnerPubkey>,
    pub inner_event_id: Option<String>,
    pub created_at_ms: u64,
}

#[verifier::ext_equal]
pub struct DiagnosticModel {
    pub stage: QueuedMessageStage,
    pub target_key: Seq<char>,
    pub owner: Option<OwnerPubkey>,
    pub inner: Option<Seq<char>>,
    pub created_at_ms: u64,
}

impl View for QueuedMessageDiagnostic {
    type V = DiagnosticModel;

    open spec fn view(&self) -> DiagnosticModel {
        DiagnosticModel {
            stage: self.stage,
            target_key: self.target_key@,
            owner: self.owner_pubkey,
            inner: text_of(self.inner_event_id),
            created_at_ms: self.created_at_ms,
        }
    }
}

/// A session, to whom it listens, and whether it can receive.
#[derive(Debug)]
pub struct MessagePushSessionStateSnapshot {
    pub state: SessionState,
    pub tracked_sender_pubkeys: Vec<DevicePubkey>,
    pub has_receiving_capability: bool,
}

#[verifier::ext_equal]
pub struct PushStateModel {
    pub state: SessionModel,
    pub senders: Seq<DevicePubkey>,
    pub receives: bool,
}

impl View for MessagePushSessionStateSnapshot {
    type V = PushStateModel;

    open spec fn view(&self) -> PushStateModel {
        PushStateModel {
            state: self.state@,
            senders: self.tracked_sender_pubkeys@,
            receives: self.has_receiving_capability,
        }
    }
}

#[derive(Debug)]
pub struct GroupOuterSubscriptionPlan {
    pub authors: Vec<DevicePubkey>,
    pub added_authors: Vec<DevicePubkey>,
}

// ---------------------------------------------------------------------------
// Starting
// ---------------------------------------------------------------------------

/// The state to start with: the one that was stored, if it is that of this
/// device.
pub open spec fn starting_state(
    secret: [u8; 32],
    device_id: Seq<char>,
    owner: OwnerPubkey,
    stored: Option<StoredModel>,
) -> StateModel {
    match stored {
        Some(s) if device_key_of(secret) == Some(s.core.device) => loaded_state(s, owner, secret),
        _ => fresh_state(
            ManagerModel {
                owner,
                device: device_key_of(secret)->Some_0,
                secret,
                device_id: Some(device_id),
                local_invite: None,
                users: Map::empty(),
            },
            owner,
        ),
    }
}

/// A runtime that was just started. An invite that it is given takes the place
/// of a stored one.
pub open spec fn started(
    our_public_key: DevicePubkey,
    secret: [u8; 32],
    device_id: Seq<char>,
    owner: OwnerPubkey,
    stored: Option<StoredModel>,
    invite: Option<InviteModel>,
) -> RuntimeModel {
    let state = starting_state(secret, device_id, owner, stored);
    RuntimeModel {
        core: CoreModel {
            state: match invite {
                Some(invite) => StateModel {
                    core: ManagerModel { local_invite: Some(invite), ..state.core },
                    ..state
                },
                None => state,
            },
            owner,
            device: our_public_key,
            authors: None,
        },
        secret,
        device_id,
    }
}

pub open spec fn stored_model(stored: Option<StoredRuntimeState>) -> Option<StoredModel> {
    match stored {
        Some(stored) => Some(stored@),
        None => None,
    }
}

/// Whether the own invite is there, and was made if it was not.
pub open spec fn gets_invite(
    before: ManagerModel,
    after: ManagerModel,
    now: UnixSeconds,
    found: Result<InviteModel, Error>,
) -> bool {
    match before.local_invite {
        Some(known) => after == before && found == Ok::<InviteModel, Error>(known),
        None => match found {
            Ok(invite) => fresh_invite(before, now, invite) && after == (ManagerModel {
                local_invite: Some(invite),
                ..with_new_invite(before, before.owner, invite)
            }),
            Err(e) => after == before && fault(e) == Fault::NostrKey && chance_fails(),
        },
    }
}

/// The roster of a device that knows of no other.
pub open spec fn own_roster(device: DevicePubkey, since: UnixSeconds) -> RosterModel {
    RosterModel {
        created_at: since,
        devices: device_times(seq![AuthorizedDevice { device_pubkey: device, created_at: since }]),
    }
}

/// What is known once the own owner has a roster. Where none is known, this
/// device is the only one in it.
pub open spec fn with_own_roster(
    before: ManagerModel,
    mid: ManagerModel,
    own: OwnerPubkey,
    device: DevicePubkey,
    since: UnixSeconds,
) -> ManagerModel {
    if known_roster(before, own) is Some {
        mid
    } else {
        ManagerModel {
            users: mid.users.insert(
                mid.owner,
                rostered(user_or_fresh(mid, mid.owner), own_roster(device, since)),
            ),
            ..mid
        }
    }
}

/// Whether an event announces the own invite.
pub open spec fn announces_invite(secret: [u8; 32], invite: InviteModel, event: SignedBody) -> bool {
    let body = invite_event_body(invite, invite_tags(invite, invite.device_id->Some_0));
    &&& invite.device_id is Some
    &&& event.body == body
    &&& event.id == body_id(body)
    &&& public_key_of(secret) == Some(invite.inviter.0) ==> event_verifies(event)
}

/// Why the own invite cannot be announced, if it cannot.
pub open spec fn announce_fault(secret: [u8; 32], invite: InviteModel) -> Option<Fault> {
    if invite.device_id is None {
        Some(Fault::InvalidEvent)
    } else if public_key_of(secret) is None {
        Some(Fault::NostrKey)
    } else {
        None
    }
}

/// What waits, once more: messages to show, then events to publish.
pub open spec fn replays(m: StateModel) -> Seq<EffectModel> {
    emit_all(m.deliveries) + publish_all(m.publishes)
}

/// What is asked for at the start, with the event that announces the own
/// invite.
pub open spec fn starting_effects(mid: CoreModel, event: SignedBody) -> Seq<EffectModel> {
    seq![EffectModel::PublishSigned(event), persist(mid.state)] + replays(mid.state) + seq![
        refresh_core(mid),
    ] + sync_effects(mid)
}

/// Whether the runtime has begun: it has an invite and a roster, and the invite
/// is announced.
pub open spec fn begins(
    before: RuntimeModel,
    after: CoreModel,
    at: Moment,
    core: ManagerModel,
    found: Result<InviteModel, Error>,
    r: Result<Seq<EffectModel>, Error>,
) -> bool {
    &&& gets_invite(before.core.state.core, core, at.secs, found)
    &&& match found {
        Err(e) => after == with_core(before.core, core) && r == Err::<Seq<EffectModel>, Error>(e),
        Ok(invite) => {
            let mid = with_core(
                before.core,
                with_own_roster(
                    before.core.state.core,
                    core,
                    before.core.owner,
                    before.core.device,
                    invite.created_at,
                ),
            );
            match r {
                Ok(effects) => after == sync_core(mid) && exists|event: SignedBody| #[trigger]
                    announces_invite(before.secret, invite, event) && effects
                        == starting_effects(mid, event),
                Err(e) => after == mid && announce_fault(before.secret, invite) == Some(fault(e)),
            }
        },
    }
}

// ---------------------------------------------------------------------------
// Sending
// ---------------------------------------------------------------------------

/// The letter that a message of the own owner is sent in.
pub open spec fn event_letter(recipient: OwnerPubkey, m: RumorModel) -> Letter {
    Letter {
        recipient,
        remote: letter_bytes(m),
        local: Some(sibling_bytes(recipient, letter_bytes(m))),
        inner: m.id,
    }
}

/// Whether a message was sent that expires when the options say.
pub open spec fn sends_letter(
    before: CoreModel,
    after: CoreModel,
    at: Moment,
    recipient: OwnerPubkey,
    kind: u32,
    tags: Seq<Seq<Seq<char>>>,
    content: Seq<char>,
    options: Option<SendOptions>,
    r: Result<RuntimePublishResult, Error>,
) -> bool {
    match expiration(options, at.secs.0) {
        Err(f) => after == before && (r matches Err(e) && fault(e) == f),
        Ok(expires) => dispatches(
            before,
            after,
            at,
            event_letter(
                recipient,
                letter(before.owner, at.secs, at.millis, kind, tags, content, expires),
            ),
            r,
        ),
    }
}

/// Whether a text was sent, and under which identifier. A blank one is not
/// sent.
pub open spec fn sends_text(
    before: CoreModel,
    after: CoreModel,
    at: Moment,
    recipient: OwnerPubkey,
    text: Seq<char>,
    options: Option<SendOptions>,
    r: Result<RuntimeTextSendResult, Error>,
) -> bool {
    if is_blank(text) {
        after == before && (r matches Ok(result) && result.inner_event_id@ == Seq::<char>::empty()
            && texts(result.event_ids@) == Seq::<Seq<char>>::empty() && views(result.effects@)
            == Seq::<EffectModel>::empty())
    } else {
        match expiration(options, at.secs.0) {
            Err(f) => after == before && (r matches Err(e) && fault(e) == f),
            Ok(expires) => {
                let m = letter(
                    before.owner,
                    at.secs,
                    at.millis,
                    CHAT_MESSAGE_KIND,
                    Seq::empty(),
                    text,
                    expires,
                );
                exists|p: Result<RuntimePublishResult, Error>| #[trigger]
                    dispatches(before, after, at, event_letter(recipient, m), p) && match p {
                        Err(e) => r == Err::<RuntimeTextSendResult, Error>(e),
                        Ok(published) => r matches Ok(result) && Some(result.inner_event_id@)
                            == m.id && texts(result.event_ids@) == published@.event_ids && views(
                            result.effects@,
                        ) == published@.effects,
                    }
            },
        }
    }
}

// ---------------------------------------------------------------------------
// Accepting an invite
// ---------------------------------------------------------------------------

/// Whose invite it is.
pub open spec fn inviting_owner(invite: InviteModel, hint: Option<OwnerPubkey>) -> OwnerPubkey {
    match (hint, invite.owner) {
        (Some(owner), _) => owner,
        (None, Some(owner)) => owner,
        (None, None) => invite.inviter,
    }
}

/// What is known once an invite is accepted: the invite, and that its device
/// acts for its owner.
pub open spec fn with_accepted(
    m: ManagerModel,
    invite: InviteModel,
    owner: OwnerPubkey,
    now: UnixSeconds,
) -> ManagerModel {
    let roster = RosterModel {
        created_at: now,
        devices: device_times(
            seq![
                AuthorizedDevice {
                    device_pubkey: invite.inviter.device(),
                    created_at: invite.created_at,
                },
            ],
        ),
    };
    let mid = with_new_invite(m, owner, InviteModel { owner: Some(owner), ..invite });
    ManagerModel { users: mid.users.insert(owner, rostered(user_or_fresh(mid, owner), roster)), ..mid }
}

/// When a message that opens a link expires.
pub open spec fn bootstrap_expiration(now: u64) -> u64 {
    if now + 60 <= u64::MAX {
        (now + 60) as u64
    } else {
        u64::MAX
    }
}

/// Whether an invite was accepted. One that links a device is answered at
/// once.
pub open spec fn accepts_invite(
    before: CoreModel,
    after: CoreModel,
    at: Moment,
    invite: InviteModel,
    hint: Option<OwnerPubkey>,
    r: Result<RuntimeAcceptInviteResult, Error>,
) -> bool {
    let owner = inviting_owner(invite, hint);
    let mid = with_core(before, with_accepted(before.state.core, invite, owner, at.secs));
    let first = seq![persist(mid.state), refresh_core(mid)];
    if invite.purpose == Some("link"@) {
        let m = letter(
            before.owner,
            at.secs,
            at.millis,
            TYPING_KIND,
            Seq::empty(),
            "typing"@,
            Some(bootstrap_expiration(at.secs.0)),
        );
        exists|p: Result<RuntimePublishResult, Error>| #[trigger]
            dispatches(mid, after, at, event_letter(owner, m), p) && match p {
                Err(e) => r == Err::<RuntimeAcceptInviteResult, Error>(e),
                Ok(published) => r matches Ok(result) && accept_outcome(result.outcome, invite, owner)
                    && views(result.effects@) == first + published@.effects,
            }
    } else {
        after == mid && (r matches Ok(result) && accept_outcome(result.outcome, invite, owner)
            && views(result.effects@) == first)
    }
}

pub open spec fn accept_outcome(
    outcome: AcceptInviteResult,
    invite: InviteModel,
    owner: OwnerPubkey,
) -> bool {
    &&& outcome.owner_pubkey == owner
    &&& outcome.inviter_device_pubkey == invite.inviter.device()
    &&& outcome.device_id@ == hex_text(invite.inviter.0@)
    &&& !outcome.created_new_session
}

// ---------------------------------------------------------------------------
// What can be asked
// ---------------------------------------------------------------------------

/// The key that a session is with that comes from elsewhere.
pub open spec fn import_device(peer: OwnerPubkey, device_id: Option<Seq<char>>) -> DevicePubkey {
    match device_id {
        Some(text) => match public_key_parsed(text) {
            Some(key) => DevicePubkey(key),
            None => peer.device(),
        },
        None => peer.device(),
    }
}

/// The first of some sessions that is with an owner.
pub open spec fn first_with(held: Seq<HeldModel>, owner: OwnerPubkey) -> Option<SessionModel>
    decreases held.len(),
{
    if held.len() == 0 {
        None
    } else {
        match first_with(held.drop_last(), owner) {
            Some(state) => Some(state),
            None => if held.last().owner == owner {
                Some(held.last().state)
            } else {
                None
            },
        }
    }
}

pub open spec fn listener(state: SessionModel, sender: DevicePubkey) -> bool {
    expects(state, sender)
}

/// What a device that receives for this one has to know of a session.
pub open spec fn push_state(state: SessionModel) -> PushStateModel {
    PushStateModel {
        state,
        senders: ordered::<DevicePubkey>(
            Set::new(|sender: DevicePubkey| listener(state, sender)),
        ),
        receives: state.receiving_chain_key is Some || state.their_current is Some,
    }
}

pub open spec fn push_states(held: Seq<HeldModel>) -> Seq<PushStateModel> {
    Seq::new(held.len(), |i: int| push_state(held[i].state))
}

/// The messages that wait, or those of one identifier.
pub open spec fn diagnostics(
    outbound: Seq<OutboundModel>,
    inner: Option<Seq<char>>,
) -> Seq<DiagnosticModel>
    decreases outbound.len(),
{
    if outbound.len() == 0 {
        Seq::empty()
    } else {
        let rest = diagnostics(outbound.drop_last(), inner);
        let last = outbound.last();
        if inner is None || last.inner == inner {
            rest.push(
                DiagnosticModel {
                    stage: last.reason,
                    target_key: hex_text(last.recipient.0@),
                    owner: Some(last.recipient),
                    inner: last.inner,
                    created_at_ms: last.created_at_ms,
                },
            )
        } else {
            rest
        }
    }
}

/// A session that was exported: with whom, the device's key in digits, and its
/// state.
pub open spec fn exported(held: Seq<HeldModel>) -> Seq<(OwnerPubkey, Seq<char>, SessionModel)> {
    Seq::new(held.len(), |i: int| (held[i].owner, hex_text(held[i].device.0@), held[i].state))
}

pub open spec fn export_models(list: Seq<(OwnerPubkey, String, SessionState)>) -> Seq<
    (OwnerPubkey, Seq<char>, SessionModel),
> {
    Seq::new(list.len(), |i: int| (list[i].0, list[i].1@, list[i].2@))
}

impl NdrRuntime {
    /// Starts with what was stored, if it is that of this device.
    pub fn new(
        our_public_key: DevicePubkey,
        our_identity_key: [u8; 32],
        device_id: String,
        owner_public_key: OwnerPubkey,
        stored: Option<StoredRuntimeState>,
        invite: Option<Invite>,
    ) -> (r: Self)
        requires
            device_key_of(our_identity_key) is Some,
        ensures
            r@ == started(
                our_public_key,
                our_identity_key,
                device_id@,
                owner_public_key,
                stored_model(stored),
                optional_invite(invite),
            ),
    {
        let loaded = match stored {
            Some(stored) => RuntimeState::load(stored, owner_public_key, our_identity_key),
            None => None,
        };
        let mut state = match loaded {
            Some(state) => state,
            None => RuntimeState::fresh(
                SessionManager::new(
                    owner_public_key,
                    our_identity_key,
                    Some(DeviceId::new(device_id.as_str())),
                ),
                owner_public_key,
            ),
        };
        assert(state@ == starting_state(
            our_identity_key,
            device_id@,
            owner_public_key,
            stored_model(stored),
        ));
        if let Some(invite) = invite {
            state.core.replace_local_invite(invite);
        }
        NdrRuntime {
            core: RuntimeCore {
                state,
                owner: owner_public_key,
                device: our_public_key,
                authors: None,
            },
            our_identity_key,
            device_id,
        }
    }

    /// Starts with what was stored. What was stored of groups apart is not
    /// read: groups are stored with everything else.
    pub fn new_with_group_storage(
        our_public_key: DevicePubkey,
        our_identity_key: [u8; 32],
        device_id: String,
        owner_public_key: OwnerPubkey,
        stored: Option<StoredRuntimeState>,
        group_stored: Option<StoredRuntimeState>,
        invite: Option<Invite>,
    ) -> (r: Self)
        requires
            device_key_of(our_identity_key) is Some,
        ensures
            r@ == started(
                our_public_key,
                our_identity_key,
                device_id@,
                owner_public_key,
                stored_model(stored),
                optional_invite(invite),
            ),
    {
        let _ = group_stored;
        Self::new(our_public_key, our_identity_key, device_id, owner_public_key, stored, invite)
    }

    /// Starts with a secret key that may not be one.
    pub fn with_identity_key(
        our_public_key: DevicePubkey,
        our_identity_key: [u8; 32],
        device_id: String,
        owner_public_key: OwnerPubkey,
        stored: Option<StoredRuntimeState>,
        invite: Option<Invite>,
    ) -> (r: Result<Self, Error>)
        ensures
            match r {
                Ok(runtime) => device_key_of(our_identity_key) is Some && runtime@ == started(
                    our_public_key,
                    our_identity_key,
                    device_id@,
                    owner_public_key,
                    stored_model(stored),
                    optional_invite(invite),
                ),
                Err(e) => device_key_of(our_identity_key) is None && fault(e) == Fault::NostrKey,
            },
    {
        match DevicePubkey::from_secret_bytes(&our_identity_key) {
            Ok(_) => Ok(
                Self::new_with_group_storage(
                    our_public_key,
                    our_identity_key,
                    device_id,
                    owner_public_key,
                    stored,
                    None,
                    invite,
                ),
            ),
            Err(e) => Err(e),
        }
    }

    /// The event that announces an invite of this device.
    fn publish_local_invite(&self, invite: &Invite) -> (r: Result<Event, Error>)
        ensures
            match r {
                Ok(event) => announces_invite(self@.secret, invite@, event@) && announce_fault(
                    self@.secret,
                    invite@,
                ) is None,
                Err(e) => announce_fault(self@.secret, invite@) == Some(fault(e)),
            },
    {
        let unsigned = match invite_unsigned_event(invite) {
            Ok(event) => event,
            Err(e) => {
                return Err(invalid_event(e));
            },
        };
        assert forall|i: int| 0 <= i < unsigned@.tags.len() implies (#[trigger]
        unsigned@.tags[i]).len() > 0 by {
            let tags = invite_tags(invite@, invite@.device_id->Some_0);
            assert(unsigned@.tags == tags);
        }
        unsigned.sign_with_secret(&self.our_identity_key)
    }

    /// Adds what waits, once more.
    fn push_replays(&self, effects: &mut Vec<RuntimeEffect>)
        ensures
            views(final(effects)@) == views(old(effects)@) + replays(self@.core.state),
    {
        let ghost start = views(effects@);
        push_emit_effects(effects, &self.core.state.pending_decrypted_deliveries);
        push_publish_effects(effects, &self.core.state.pending_prepared_publishes);
        assert(views(effects@) =~= start + replays(self@.core.state));
    }

    /// Makes an invite and a roster where there is none, announces the invite,
    /// and asks for everything once more that waits.
    pub fn init(&mut self, ctx: &mut ProtocolContext<'_>) -> (r: Result<Vec<RuntimeEffect>, Error>)
        ensures
            moment(*final(ctx)) == moment(*old(ctx)),
            same_device(old(self)@, final(self)@),
            exists|core: ManagerModel, found: Result<InviteModel, Error>| #[trigger]
                begins(
                    old(self)@,
                    final(self)@.core,
                    moment(*old(ctx)),
                    core,
                    found,
                    effects_of(r),
                ),
    {
        let ghost before = self@;
        let ghost at = moment(*ctx);
        let has_local_roster = self.core.state.core.roster_of(self.core.owner).is_some();
        let found = match self.core.state.core.ensure_local_invite(ctx) {
            Ok(invite) => Ok(invite.clone()),
            Err(e) => Err(e),
        };
        let ghost core = self@.core.state.core;
        let invite = match found {
            Ok(invite) => invite,
            Err(e) => {
                let r: Result<Vec<RuntimeEffect>, Error> = Err(e);
                assert(self@.core =~= with_core(before.core, core));
                assert(begins(
                    before,
                    self@.core,
                    at,
                    core,
                    Err::<InviteModel, Error>(e),
                    effects_of(r),
                ));
                return r;
            },
        };
        if !has_local_roster {
            let mut devices: Vec<AuthorizedDevice> = Vec::new();
            devices.push(AuthorizedDevice::new(self.core.device, invite.created_at));
            assert(devices@ =~= seq![
                AuthorizedDevice {
                    device_pubkey: before.core.device,
                    created_at: invite.created_at,
                },
            ]);
            let _ = self.core.state.core.apply_local_roster(
                DeviceRoster::new(invite.created_at, devices),
            );
        }
        let ghost mid = with_core(
            before.core,
            with_own_roster(
                before.core.state.core,
                core,
                before.core.owner,
                before.core.device,
                invite@.created_at,
            ),
        );
        assert(self@.core =~= mid);
        let event = match self.publish_local_invite(&invite) {
            Ok(event) => event,
            Err(e) => {
                let r: Result<Vec<RuntimeEffect>, Error> = Err(e);
                assert(begins(
                    before,
                    self@.core,
                    at,
                    core,
                    Ok::<InviteModel, Error>(invite@),
                    effects_of(r),
                ));
                return r;
            },
        };
        let ghost signed = event@;
        let mut effects: Vec<RuntimeEffect> = Vec::new();
        effects.push(RuntimeEffect::PublishSigned(event));
        assert(views(effects@) =~= seq![EffectModel::PublishSigned(signed)]);
        self.core.push_persist(&mut effects);
        self.push_replays(&mut effects);
        self.core.push_refresh(&mut effects);
        self.core.sync(&mut effects);
        assert(views(effects@) =~= starting_effects(mid, signed));
        let r: Result<Vec<RuntimeEffect>, Error> = Ok(effects);
        assert(announces_invite(before.secret, invite@, signed));
        assert(begins(
            before,
            self@.core,
            at,
            core,
            Ok::<InviteModel, Error>(invite@),
            effects_of(r),
        ));
        r
    }

    /// Watches for the devices of an owner.
    pub fn setup_user(&mut self, user_pubkey: OwnerPubkey) -> (r: Result<Vec<RuntimeEffect>, Error>)
        ensures
            same_device(old(self)@, final(self)@),
            ({
                let mid = CoreModel {
                    state: StateModel {
                        watched: old(self)@.core.state.watched.insert(user_pubkey),
                        ..old(self)@.core.state
                    },
                    ..old(self)@.core
                };
                &&& final(self)@.core == sync_core(mid)
                &&& effects_of(r) == Ok::<Seq<EffectModel>, Error>(
                    seq![refresh_core(mid)] + sync_effects(mid),
                )
            }),
    {
        self.core.state.tracked_owner_pubkeys.insert(user_pubkey);
        let ghost mid = self@.core;
        let mut effects: Vec<RuntimeEffect> = Vec::new();
        self.core.push_refresh(&mut effects);
        assert(views(effects@) =~= seq![refresh_core(mid)]);
        self.core.sync(&mut effects);
        Ok(effects)
    }

    /// Puts what was stored in place of what is there, if it is that of this
    /// device, and asks for everything once more that waits.
    pub fn reload_from_storage(&mut self, stored: Option<StoredRuntimeState>) -> (r: Result<
        Vec<RuntimeEffect>,
        Error,
    >)
        ensures
            same_device(old(self)@, final(self)@),
            ({
                let before = old(self)@;
                let mid = match stored_model(stored) {
                    Some(s) if device_key_of(before.secret) == Some(s.core.device) => CoreModel {
                        state: loaded_state(s, before.core.owner, before.secret),
                        ..before.core
                    },
                    _ => before.core,
                };
                &&& final(self)@.core == sync_core(mid)
                &&& effects_of(r) == Ok::<Seq<EffectModel>, Error>(
                    replays(mid.state) + seq![refresh_core(mid)] + sync_effects(mid),
                )
            }),
    {
        if let Some(stored) = stored {
            if let Some(loaded) = RuntimeState::load(
                stored,
                self.core.owner,
                self.our_identity_key,
            ) {
                self.core.state = loaded;
            }
        }
        let ghost mid = self@.core;
        let mut effects: Vec<RuntimeEffect> = Vec::new();
        self.push_replays(&mut effects);
        self.core.push_refresh(&mut effects);
        assert(views(effects@) =~= replays(mid.state) + seq![refresh_core(mid)]);
        self.core.sync(&mut effects);
        Ok(effects)
    }

    /// That all waiting events are to be published.
    pub fn prepared_publish_effects(&self) -> (r: Vec<RuntimeEffect>)
        ensures
            views(r@) == publish_all(self@.core.state.publishes),
    {
        let mut effects: Vec<RuntimeEffect> = Vec::new();
        push_publish_effects(&mut effects, &self.core.state.pending_prepared_publishes);
        assert(views(effects@) =~= publish_all(self@.core.state.publishes));
        effects
    }

    /// Takes note that an event was published.
    pub fn ack_prepared_publish(&mut self, event_id: &str) -> (r: Result<Vec<RuntimeEffect>, Error>)
        ensures
            same_device(old(self)@, final(self)@),
            ({
                let before = old(self)@.core;
                let after = CoreModel {
                    state: StateModel {
                        publishes: without_event(before.state.publishes, event_id@),
                        ..before.state
                    },
                    ..before
                };
                &&& final(self)@.core == after
                &&& effects_of(r) == Ok::<Seq<EffectModel>, Error>(
                    if waits(before.state.publishes, event_id@) {
                        seq![persist(after.state)]
                    } else {
                        Seq::empty()
                    },
                )
            }),
    {
        let changed = self.core.state.forget_publish(event_id);
        let mut effects: Vec<RuntimeEffect> = Vec::new();
        assert(views(effects@) =~= Seq::empty());
        if changed {
            self.core.push_persist(&mut effects);
            assert(views(effects@) =~= seq![persist(self@.core.state)]);
        }
        Ok(effects)
    }

    /// Takes note that a message was shown.
    pub fn ack_decrypted_delivery(&mut self, event_id: &str) -> (r: Result<
        Vec<RuntimeEffect>,
        Error,
    >)
        ensures
            same_device(old(self)@, final(self)@),
            ({
                let before = old(self)@.core;
                let after = CoreModel {
                    state: StateModel {
                        deliveries: without_delivery(before.state.deliveries, event_id@),
                        ..before.state
                    },
                    ..before
                };
                &&& final(self)@.core == after
                &&& effects_of(r) == Ok::<Seq<EffectModel>, Error>(
                    if delivery_waits(before.state.deliveries, event_id@) {
                        seq![persist(after.state)]
                    } else {
                        Seq::empty()
                    },
                )
            }),
    {
        let changed = self.core.state.forget_delivery(event_id);
        let mut effects: Vec<RuntimeEffect> = Vec::new();
        assert(views(effects@) =~= Seq::empty());
        if changed {
            self.core.push_persist(&mut effects);
            assert(views(effects@) =~= seq![persist(self@.core.state)]);
        }
        Ok(effects)
    }

    /// Forgets an owner.
    pub fn delete_chat(&mut self, user_pubkey: OwnerPubkey) -> (r: Result<Vec<RuntimeEffect>, Error>)
        ensures
            same_device(old(self)@, final(self)@),
            ({
                let before = old(self)@.core;
                let mid = with_core(
                    before,
                    (ManagerModel {
                        users: before.state.core.users.remove(user_pubkey),
                        ..before.state.core
                    }),
                );
                &&& final(self)@.core == sync_core(mid)
                &&& effects_of(r) == Ok::<Seq<EffectModel>, Error>(
                    seq![persist(mid.state), refresh_core(mid)] + sync_effects(mid),
                )
            }),
    {
        self.core.state.core.delete_user(user_pubkey);
        let ghost mid = self@.core;
        let mut effects: Vec<RuntimeEffect> = Vec::new();
        self.core.push_persist(&mut effects);
        self.core.push_refresh(&mut effects);
        assert(views(effects@) =~= seq![persist(mid.state), refresh_core(mid)]);
        self.core.sync(&mut effects);
        Ok(effects)
    }

    /// No message is ever dropped for its age.
    pub fn cleanup_discovery_queue(&self, max_age_ms: u64) -> (r: Result<usize, Error>)
        ensures
            r == Ok::<usize, Error>(0),
    {
        let _ = max_age_ms;
        Ok(0)
    }

    /// Accepts an invite: its device is known to act for its owner, and can be
    /// written to. One that links a device is answered at once.
    pub fn accept_invite(
        &mut self,
        ctx: &mut ProtocolContext<'_>,
        invite: &Invite,
        owner_pubkey_hint: Option<OwnerPubkey>,
    ) -> (r: Result<RuntimeAcceptInviteResult, Error>)
        ensures
            moment(*final(ctx)) == moment(*old(ctx)),
            same_device(old(self)@, final(self)@),
            accepts_invite(
                old(self)@.core,
                final(self)@.core,
                moment(*old(ctx)),
                invite@,
                owner_pubkey_hint,
                r,
            ),
    {
        let ghost before = self@.core;
        let ghost at = moment(*ctx);
        let owner = match (owner_pubkey_hint, invite.owner_public_key) {
            (Some(owner), _) => owner,
            (None, Some(owner)) => owner,
            (None, None) => invite.inviter,
        };
        let device = invite.inviter.as_device();
        let mut known = invite.clone();
        known.owner_public_key = Some(owner);
        assert(known@ == InviteModel { owner: Some(owner), ..invite@ });
        let mut devices: Vec<AuthorizedDevice> = Vec::new();
        devices.push(AuthorizedDevice::new(device, invite.created_at));
        assert(devices@ =~= seq![
            AuthorizedDevice { device_pubkey: device, created_at: invite@.created_at },
        ]);
        match self.core.state.core.observe_public_invite(owner, known) {
            Ok(()) => {},
            Err(e) => {
                assert(false);
                return Err(e);
            },
        }
        let _ = self.core.state.core.observe_peer_roster(
            owner,
            DeviceRoster::new(ctx.now_secs, devices),
        );
        let ghost mid = with_core(
            before,
            with_accepted(before.state.core, invite@, owner, at.secs),
        );
        assert(self@.core =~= mid);
        let mut effects: Vec<RuntimeEffect> = Vec::new();
        self.core.push_persist(&mut effects);
        self.core.push_refresh(&mut effects);
        assert(views(effects@) =~= seq![persist(mid.state), refresh_core(mid)]);
        let outcome = AcceptInviteResult {
            owner_pubkey: owner,
            inviter_device_pubkey: device,
            device_id: device.to_hex(),
            created_new_session: false,
        };
        let links = match &invite.purpose {
            Some(purpose) => crate::order::same_str(purpose.as_str(), "link"),
            None => false,
        };
        if links {
            let p = self.send_link_bootstrap(ctx, owner);
            let ghost whole = p;
            assert(dispatches(
                mid,
                self@.core,
                at,
                event_letter(
                    owner,
                    letter(
                        before.owner,
                        at.secs,
                        at.millis,
                        TYPING_KIND,
                        Seq::empty(),
                        "typing"@,
                        Some(bootstrap_expiration(at.secs.0)),
                    ),
                ),
                whole,
            ));
            match p {
                Err(e) => {
                    return Err(e);
                },
                Ok(published) => {
                    push_items(&mut effects, published.effects);
                },
            }
        }
        Ok(RuntimeAcceptInviteResult { outcome, effects })
    }

    fn send_link_bootstrap(&mut self, ctx: &mut ProtocolContext<'_>, owner: OwnerPubkey) -> (r:
        Result<RuntimePublishResult, Error>)
        ensures
            moment(*final(ctx)) == moment(*old(ctx)),
            same_device(old(self)@, final(self)@),
            dispatches(
                old(self)@.core,
                final(self)@.core,
                moment(*old(ctx)),
                event_letter(
                    owner,
                    letter(
                        old(self)@.core.owner,
                        old(ctx).now_secs,
                        old(ctx).now_millis,
                        TYPING_KIND,
                        Seq::empty(),
                        "typing"@,
                        Some(bootstrap_expiration(old(ctx).now_secs.0)),
                    ),
                ),
                r,
            ),
    {
        let expires: u64 = match ctx.now_secs.0.checked_add(60) {
            Some(at) => at,
            None => u64::MAX,
        };
        let tags: Vec<Vec<String>> = Vec::new();
        assert(tag_texts(tags@) =~= Seq::empty());
        match write_letter(
            self.core.owner,
            ctx.now_secs,
            ctx.now_millis,
            TYPING_KIND,
            tags,
            "typing".to_string(),
            Some(expires),
        ) {
            Ok(rumor) => self.send_event(ctx, owner, rumor),
            Err(e) => {
                assert(false);
                Err(e)
            },
        }
    }

    /// Sends a text, unless it is blank.
    pub fn send_text(
        &mut self,
        ctx: &mut ProtocolContext<'_>,
        recipient: OwnerPubkey,
        text: String,
        options: Option<SendOptions>,
    ) -> (r: Result<RuntimePublishResult, Error>)
        ensures
            moment(*final(ctx)) == moment(*old(ctx)),
            same_device(old(self)@, final(self)@),
            is_blank(text@) ==> final(self)@.core == old(self)@.core && (r matches Ok(result)
                && result@ == nothing_published()),
            !is_blank(text@) ==> sends_letter(
                old(self)@.core,
                final(self)@.core,
                moment(*old(ctx)),
                recipient,
                CHAT_MESSAGE_KIND,
                Seq::empty(),
                text@,
                options,
                r,
            ),
    {
        if blank(text.as_str()) {
            return Ok(RuntimePublishResult::default());
        }
        let tags: Vec<Vec<String>> = Vec::new();
        assert(tag_texts(tags@) =~= Seq::empty());
        self.send_letter(ctx, recipient, CHAT_MESSAGE_KIND, tags, text, options)
    }

    /// Sends a text, unless it is blank, and says under which identifier.
    pub fn send_text_with_inner_id(
        &mut self,
        ctx: &mut ProtocolContext<'_>,
        recipient: OwnerPubkey,
        text: String,
        options: Option<SendOptions>,
    ) -> (r: Result<RuntimeTextSendResult, Error>)
        ensures
            moment(*final(ctx)) == moment(*old(ctx)),
            same_device(old(self)@, final(self)@),
            sends_text(
                old(self)@.core,
                final(self)@.core,
                moment(*old(ctx)),
                recipient,
                text@,
                options,
                r,
            ),
    {
        let ghost before = self@.core;
        let ghost at = moment(*ctx);
        if blank(text.as_str()) {
            let result = RuntimeTextSendResult {
                inner_event_id: String::new(),
                event_ids: Vec::new(),
                effects: Vec::new(),
            };
            assert(result.inner_event_id@ =~= Seq::empty());
            assert(texts(result.event_ids@) =~= Seq::empty());
            assert(views(result.effects@) =~= Seq::empty());
            return Ok(result);
        }
        let expires = match resolve_expiration_seconds(options, ctx.now_secs.0) {
            Ok(expires) => expires,
            Err(e) => {
                return Err(e);
            },
        };
        let tags: Vec<Vec<String>> = Vec::new();
        assert(tag_texts(tags@) =~= Seq::empty());
        let rumor = match write_letter(
            self.core.owner,
            ctx.now_secs,
            ctx.now_millis,
            CHAT_MESSAGE_KIND,
            tags,
            text,
            expires,
        ) {
            Ok(rumor) => rumor,
            Err(e) => {
                assert(false);
                return Err(e);
            },
        };
        let ghost m = rumor@;
        let inner_event_id = match &rumor.id {
            Some(id) => id.clone(),
            None => String::new(),
        };
        let p = self.send_event(ctx, recipient, rumor);
        let ghost whole = p;
        assert(dispatches(before, self@.core, at, event_letter(recipient, m), whole));
        match p {
            Err(e) => Err(e),
            Ok(published) => Ok(
                RuntimeTextSendResult {
                    inner_event_id,
                    event_ids: published.event_ids,
                    effects: published.effects,
                },
            ),
        }
    }

    /// Sends a message. It gets its identifier, unless it carries one.
    pub fn send_event(
        &mut self,
        ctx: &mut ProtocolContext<'_>,
        recipient: OwnerPubkey,
        event: Rumor,
    ) -> (r: Result<RuntimePublishResult, Error>)
        ensures
            moment(*final(ctx)) == moment(*old(ctx)),
            same_device(old(self)@, final(self)@),
            dispatches(
                old(self)@.core,
                final(self)@.core,
                moment(*old(ctx)),
                event_letter(recipient, ensured(event@)),
                r,
            ),
    {
        let mut event = event;
        event.ensure_id();
        let remote_payload = match letter_to_bytes(&event) {
            Ok(bytes) => bytes,
            Err(e) => {
                assert(false);
                return Err(e);
            },
        };
        let local_payload = local_sibling_payload(recipient, &remote_payload);
        self.core.prepare_and_publish(
            ctx,
            recipient,
            remote_payload,
            Some(local_payload),
            event.id,
        )
    }

    fn send_letter(
        &mut self,
        ctx: &mut ProtocolContext<'_>,
        recipient: OwnerPubkey,
        kind: u32,
        tags: Vec<Vec<String>>,
        content: String,
        options: Option<SendOptions>,
    ) -> (r: Result<RuntimePublishResult, Error>)
        ensures
            moment(*final(ctx)) == moment(*old(ctx)),
            same_device(old(self)@, final(self)@),
            sends_letter(
                old(self)@.core,
                final(self)@.core,
                moment(*old(ctx)),
                recipient,
                kind,
                tag_texts(tags@),
                content@,
                options,
                r,
            ),
    {
        let expires = match resolve_expiration_seconds(options, ctx.now_secs.0) {
            Ok(expires) => expires,
            Err(e) => {
                return Err(e);
            },
        };
        match write_letter(
            self.core.owner,
            ctx.now_secs,
            ctx.now_millis,
            kind,
            tags,
            content,
            expires,
        ) {
            Ok(rumor) => self.send_event(ctx, recipient, rumor),
            Err(e) => {
                assert(false);
                Err(e)
            },
        }
    }

    /// Sends what is thought of a message.
    pub fn send_reaction(
        &mut self,
        ctx: &mut ProtocolContext<'_>,
        recipient: OwnerPubkey,
        message_id: String,
        emoji: String,
        options: Option<SendOptions>,
    ) -> (r: Result<RuntimePublishResult, Error>)
        ensures
            moment(*final(ctx)) == moment(*old(ctx)),
            same_device(old(self)@, final(self)@),
            sends_letter(
                old(self)@.core,
                final(self)@.core,
                moment(*old(ctx)),
                recipient,
                REACTION_KIND,
                seq![message_tag(message_id@)],
                emoji@,
                options,
                r,
            ),
    {
        let mut tags: Vec<Vec<String>> = Vec::new();
        tags.push(pair_of("e", message_id.as_str()));
        assert(tag_texts(tags@) =~= seq![message_tag(message_id@)]);
        self.send_letter(ctx, recipient, REACTION_KIND, tags, emoji, options)
    }

    /// Sends what became of messages, if there are any.
    pub fn send_receipt(
        &mut self,
        ctx: &mut ProtocolContext<'_>,
        recipient: OwnerPubkey,
        receipt_type: &str,
        message_ids: Vec<String>,
        options: Option<SendOptions>,
    ) -> (r: Result<RuntimePublishResult, Error>)
        ensures
            moment(*final(ctx)) == moment(*old(ctx)),
            same_device(old(self)@, final(self)@),
            if message_ids@.len() == 0 {
                final(self)@.core == old(self)@.core && (r matches Ok(result) && result@
                    == nothing_published())
            } else if !is_receipt(receipt_type@) {
                final(self)@.core == old(self)@.core && (r matches Err(e) && fault(e)
                    == Fault::InvalidEvent)
            } else {
                sends_letter(
                    old(self)@.core,
                    final(self)@.core,
                    moment(*old(ctx)),
                    recipient,
                    RECEIPT_KIND,
                    message_tags(texts(message_ids@)),
                    receipt_type@,
                    options,
                    r,
                )
            },
    {
        if message_ids.len() == 0 {
            return Ok(RuntimePublishResult::default());
        }
        match check_receipt_type(receipt_type) {
            Ok(()) => {},
            Err(e) => {
                return Err(e);
            },
        }
        let tags = write_message_tags(&message_ids);
        self.send_letter(ctx, recipient, RECEIPT_KIND, tags, receipt_type.to_string(), options)
    }

    /// Sends that a message is being written.
    pub fn send_typing(
        &mut self,
        ctx: &mut ProtocolContext<'_>,
        recipient: OwnerPubkey,
        options: Option<SendOptions>,
    ) -> (r: Result<RuntimePublishResult, Error>)
        ensures
            moment(*final(ctx)) == moment(*old(ctx)),
            same_device(old(self)@, final(self)@),
            sends_letter(
                old(self)@.core,
                final(self)@.core,
                moment(*old(ctx)),
                recipient,
                TYPING_KIND,
                Seq::empty(),
                "typing"@,
                options,
                r,
            ),
    {
        let tags: Vec<Vec<String>> = Vec::new();
        assert(tag_texts(tags@) =~= Seq::empty());
        self.send_letter(ctx, recipient, TYPING_KIND, tags, "typing".to_string(), options)
    }

    /// Sends how long messages last.
    pub fn send_chat_settings(
        &mut self,
        ctx: &mut ProtocolContext<'_>,
        recipient: OwnerPubkey,
        ttl_seconds: u64,
    ) -> (r: Result<RuntimePublishResult, Error>)
        ensures
            moment(*final(ctx)) == moment(*old(ctx)),
            same_device(old(self)@, final(self)@),
            sends_letter(
                old(self)@.core,
                final(self)@.core,
                moment(*old(ctx)),
                recipient,
                CHAT_SETTINGS_KIND,
                Seq::empty(),
                crate::json::json_text(settings_json(ttl_seconds)),
                None,
                r,
            ),
    {
        let tags: Vec<Vec<String>> = Vec::new();
        assert(tag_texts(tags@) =~= Seq::empty());
        let content = write_settings(ttl_seconds);
        self.send_letter(ctx, recipient, CHAT_SETTINGS_KIND, tags, content, None)
    }

    /// Takes in a session that was set up elsewhere.
    pub fn import_session_state(
        &mut self,
        peer_pubkey: OwnerPubkey,
        device_id: Option<String>,
        state: SessionState,
        now: UnixSeconds,
    ) -> (r: Result<Vec<RuntimeEffect>, Error>)
        ensures
            same_device(old(self)@, final(self)@),
            ({
                let before = old(self)@.core;
                let mid = with_core(
                    before,
                    with_import(
                        before.state.core,
                        peer_pubkey,
                        import_device(peer_pubkey, text_of(device_id)),
                        state@,
                        now,
                    ),
                );
                &&& final(self)@.core == sync_core(mid)
                &&& effects_of(r) == Ok::<Seq<EffectModel>, Error>(
                    seq![persist(mid.state)] + sync_effects(mid),
                )
            }),
    {
        let device_pubkey = match &device_id {
            Some(text) => match parse_public_key(text.as_str()) {
                Ok(key) => DevicePubkey(key),
                Err(_) => peer_pubkey.as_device(),
            },
            None => peer_pubkey.as_device(),
        };
        assert(device_pubkey == import_device(peer_pubkey, text_of(device_id)));
        self.core.state.core.import_session_state(peer_pubkey, device_pubkey, state, now);
        let ghost mid = self@.core;
        let mut effects: Vec<RuntimeEffect> = Vec::new();
        self.core.push_persist(&mut effects);
        assert(views(effects@) =~= seq![persist(mid.state)]);
        self.core.sync(&mut effects);
        Ok(effects)
    }

    /// The sessions that are active, with the keys of their devices in digits.
    pub fn export_active_sessions(&self) -> (r: Vec<(OwnerPubkey, String, SessionState)>)
        ensures
            export_models(r@) == exported(active_sessions(self@.core.state.core)),
    {
        let held = self.core.state.core.active_sessions();
        let ghost all = held_models(held@);
        let mut r: Vec<(OwnerPubkey, String, SessionState)> = Vec::new();
        let mut i: usize = 0;
        while i < held.len()
            invariant
                i <= held@.len(),
                all == held_models(held@),
                r@.len() == i,
                forall|j: int|
                    0 <= j < i ==> (#[trigger] r@[j]).0 == all[j].owner && r@[j].1@ == hex_text(
                        all[j].device.0@,
                    ) && r@[j].2@ == all[j].state,
            decreases held@.len() - i,
        {
            r.push((held[i].owner_pubkey, held[i].device_pubkey.to_hex(), held[i].state.clone()));
            i = i + 1;
        }
        assert(export_models(r@) =~= exported(all));
        r
    }

    /// The first active session with an owner.
    pub fn export_active_session_state(&self, peer_pubkey: OwnerPubkey) -> (r: Result<
        Option<SessionState>,
        Error,
    >)
        ensures
            match r {
                Ok(Some(state)) => first_with(
                    active_sessions(self@.core.state.core),
                    peer_pubkey,
                ) == Some(state@),
                Ok(None) => first_with(
                    active_sessions(self@.core.state.core),
                    peer_pubkey,
                ) is None,
                Err(_) => false,
            },
    {
        let held = self.core.state.core.active_sessions();
        let ghost all = held_models(held@);
        let mut found: Option<SessionState> = None;
        let mut i: usize = 0;
        while i < held.len()
            invariant
                i <= held@.len(),
                all == held_models(held@),
                match found {
                    Some(state) => first_with(all.take(i as int), peer_pubkey) == Some(state@),
                    None => first_with(all.take(i as int), peer_pubkey) is None,
                },
            decreases held@.len() - i,
        {
            assert(all.take(i + 1).drop_last() =~= all.take(i as int));
            if found.is_none() && held[i].owner_pubkey == peer_pubkey {
                found = Some(held[i].state.clone());
            }
            i = i + 1;
        }
        assert(all.take(i as int) =~= all);
        Ok(found)
    }

    /// All senders whose messages are expected.
    pub fn get_all_message_push_author_pubkeys(&self) -> (r: Vec<DevicePubkey>)
        ensures
            r@ == message_authors(self@.core.state.core),
    {
        self.core.state.message_authors()
    }

    /// The senders of an owner whose messages are expected.
    pub fn get_message_push_author_pubkeys(&self, peer_owner_pubkey: OwnerPubkey) -> (r: Vec<
        DevicePubkey,
    >)
        ensures
            r@ == ordered::<DevicePubkey>(
                senders(sessions_with(all_sessions(self@.core.state.core), peer_owner_pubkey)),
            ),
    {
        listed_senders(&self.sessions_of(peer_owner_pubkey))
    }

    fn sessions_of(&self, owner: OwnerPubkey) -> (r: Vec<HeldSession>)
        ensures
            held_models(r@) == sessions_with(all_sessions(self@.core.state.core), owner),
    {
        let held = self.core.state.core.sessions();
        let ghost all = held_models(held@);
        let mut r: Vec<HeldSession> = Vec::new();
        let mut i: usize = 0;
        assert(held_models(r@) =~= Seq::empty());
        assert(all.take(0) =~= Seq::empty());
        while i < held.len()
            invariant
                i <= held@.len(),
                all == held_models(held@),
                held_models(r@) == sessions_with(all.take(i as int), owner),
            decreases held@.len() - i,
        {
            let ghost known = held_models(r@);
            assert(all.take(i + 1).drop_last() =~= all.take(i as int));
            if held[i].owner_pubkey == owner {
                r.push(
                    HeldSession {
                        owner_pubkey: held[i].owner_pubkey,
                        device_pubkey: held[i].device_pubkey,
                        state: held[i].state.clone(),
                    },
                );
                assert(held_models(r@) =~= known.push(all[i as int]));
            }
            i = i + 1;
        }
        assert(all.take(i as int) =~= all);
        r
    }

    /// The sessions with an owner, as one who receives for this device has to
    /// know them.
    pub fn get_message_push_session_states(&self, peer_owner_pubkey: OwnerPubkey) -> (r: Vec<
        MessagePushSessionStateSnapshot,
    >)
        ensures
            views(r@) == push_states(
                sessions_with(all_sessions(self@.core.state.core), peer_owner_pubkey),
            ),
    {
        let held = self.sessions_of(peer_owner_pubkey);
        let ghost all = held_models(held@);
        let mut r: Vec<MessagePushSessionStateSnapshot> = Vec::new();
        let mut i: usize = 0;
        assert(views(r@) =~= push_states(all).take(0));
        while i < held.len()
            invariant
                i <= held@.len(),
                all == held_models(held@),
                views(r@) == push_states(all).take(i as int),
            decreases held@.len() - i,
        {
            let state = held[i].state.clone();
            let mut set: VecSet<DevicePubkey> = VecSet::new();
            crate::session_manager::queries::collect_expected_senders(&state, &mut set);
            assert(set@ =~= Set::new(|sender: DevicePubkey| listener(state@, sender)));
            let has_receiving_capability = state.receiving_chain_key.is_some()
                || state.their_current_nostr_public_key.is_some();
            let next = MessagePushSessionStateSnapshot {
                state,
                tracked_sender_pubkeys: listed_devices(&set),
                has_receiving_capability,
            };
            assert(next@ =~= push_state(all[i as int].state));
            push_item(&mut r, next);
            assert(push_states(all).take(i as int).push(push_states(all)[i as int])
                =~= push_states(all).take(i + 1));
            i = i + 1;
        }
        assert(push_states(all).take(i as int) =~= push_states(all));
        r
    }

    /// The other owners of whom something is known.
    pub fn known_peer_owner_pubkeys(&self) -> (r: Vec<OwnerPubkey>)
        ensures
            r@ == ordered::<OwnerPubkey>(
                self@.core.state.core.users.dom().remove(self@.core.owner),
            ),
            lists::<OwnerPubkey>(
                r@,
                self@.core.state.core.users.dom().remove(self@.core.owner),
            ),
    {
        let known = self.core.state.core.owners();
        let mut set: VecSet<OwnerPubkey> = VecSet::new();
        let mut i: usize = 0;
        while i < known.len()
            invariant
                i <= known@.len(),
                forall|k: OwnerPubkey| #[trigger]
                    set@.contains(k) <==> k != self@.core.owner && exists|j: int|
                        0 <= j < i && known@[j] == k,
            decreases known@.len() - i,
        {
            if known[i] != self.core.owner {
                set.insert(known[i]);
            }
            i = i + 1;
        }
        let ghost dom = self@.core.state.core.users.dom();
        assert forall|k: OwnerPubkey| #[trigger] set@.contains(k) <==> dom.remove(
            self@.core.owner,
        ).contains(k) by {
            if dom.contains(k) {
                assert(known@.contains(k));
            }
            if known@.contains(k) {
                assert(dom.contains(k));
            }
        }
        proof {
            assert(set@ =~= dom.remove(self@.core.owner));
            crate::collections::set_is_finite(set);
            crate::collections::ordered_lists::<OwnerPubkey>(set@);
        }
        listed_owners(&set)
    }

    /// The devices that the roster of an owner lists.
    pub fn known_device_identity_pubkeys_for_owner(&self, owner_pubkey: OwnerPubkey) -> (r: Vec<
        DevicePubkey,
    >)
        ensures
            r@ == ordered::<DevicePubkey>(
                trusted_devices(self@.core.state.core, owner_pubkey),
            ),
    {
        let mut set: VecSet<DevicePubkey> = VecSet::new();
        self.core.state.core.collect_trusted_devices(owner_pubkey, &mut set);
        assert(set@ =~= trusted_devices(self@.core.state.core, owner_pubkey));
        listed_devices(&set)
    }

    pub fn get_total_sessions(&self) -> (r: usize)
        ensures
            r == all_sessions(self@.core.state.core).len(),
    {
        let held = self.core.state.core.sessions();
        assert(held_models(held@).len() == held@.len());
        held.len()
    }

    /// Takes in a device list of an owner, unless it is older than one that
    /// came before.
    pub fn ingest_app_keys_snapshot(
        &mut self,
        ctx: &mut ProtocolContext<'_>,
        owner_pubkey: OwnerPubkey,
        app_keys: &AppKeys,
        created_at: u64,
    ) -> (r: Result<Vec<RuntimeEffect>, Error>)
        ensures
            moment(*final(ctx)) == moment(*old(ctx)),
            same_device(old(self)@, final(self)@),
            ingests(
                old(self)@.core,
                final(self)@.core,
                moment(*old(ctx)),
                owner_pubkey,
                app_keys@,
                created_at,
                effects_of(r),
            ),
    {
        self.core.ingest_app_keys_snapshot(ctx, owner_pubkey, app_keys, created_at)
    }

    /// Takes in an event that came from a relay.
    pub fn process_received_event(&mut self, ctx: &mut ProtocolContext<'_>, event: &Event) -> (r:
        Result<Vec<RuntimeEffect>, Error>)
        ensures
            moment(*final(ctx)) == moment(*old(ctx)),
            same_device(old(self)@, final(self)@),
            processes_event(
                old(self)@.core,
                final(self)@.core,
                moment(*old(ctx)),
                event@,
                effects_of(r),
            ),
    {
        self.core.process_received_event(ctx, event)
    }

    /// Listens to the right senders.
    pub fn sync_direct_message_subscriptions(&mut self) -> (r: Result<Vec<RuntimeEffect>, Error>)
        ensures
            same_device(old(self)@, final(self)@),
            final(self)@.core == sync_core(old(self)@.core),
            effects_of(r) == Ok::<Seq<EffectModel>, Error>(sync_effects(old(self)@.core)),
    {
        let ghost before = self@.core;
        let mut effects: Vec<RuntimeEffect> = Vec::new();
        self.core.sync(&mut effects);
        assert(views(effects@) =~= sync_effects(before));
        Ok(effects)
    }

    /// No response is ever waited for.
    pub fn pending_invite_response_owner_pubkeys(&self) -> (r: Vec<OwnerPubkey>)
        ensures
            r@ == Seq::<OwnerPubkey>::empty(),
    {
        Vec::new()
    }

    /// The key to which responses to the own invite are addressed.
    pub fn current_device_invite_response_pubkey(&self) -> (r: Option<DevicePubkey>)
        ensures
            r == match self@.core.state.core.local_invite {
                Some(invite) => Some(invite.ephemeral_key),
                None => None,
            },
    {
        match self.core.state.core.local_invite() {
            Some(invite) => Some(invite.inviter_ephemeral_public_key),
            None => None,
        }
    }

    pub fn local_invite(&self) -> (r: Option<Invite>)
        ensures
            optional_invite(r) == self@.core.state.core.local_invite,
    {
        match self.core.state.core.local_invite() {
            Some(invite) => Some(invite.clone()),
            None => None,
        }
    }

    pub fn get_owner_pubkey(&self) -> (r: OwnerPubkey)
        ensures
            r == self@.core.owner,
    {
        self.core.owner
    }

    pub fn get_our_pubkey(&self) -> (r: DevicePubkey)
        ensures
            r == self@.core.device,
    {
        self.core.device
    }

    pub fn get_device_id(&self) -> (r: &str)
        ensures
            r@ == self@.device_id,
    {
        self.device_id.as_str()
    }

    /// Settings of a chat are never adopted here.
    pub fn set_auto_adopt_chat_settings(&mut self, enabled: bool)
        ensures
            final(self)@ == old(self)@,
    {
        let _ = enabled;
    }

    /// The sessions and the groups, to work on.
    pub fn with_group_context(&mut self) -> (r: (&mut SessionManager, &mut GroupManager))
        ensures
            r.0@ == old(self)@.core.state.core,
            r.1@ == old(self)@.core.state.groups,
            final(self)@ == (RuntimeModel {
                core: CoreModel {
                    state: StateModel {
                        core: final(r.0)@,
                        groups: final(r.1)@,
                        ..old(self)@.core.state
                    },
                    ..old(self)@.core
                },
                ..old(self)@
            }),
    {
        (&mut self.core.state.core, &mut self.core.state.group_manager)
    }

    /// Groups are kept here; what others know of them is not taken over.
    pub fn sync_groups(&mut self, groups: Vec<GroupSnapshot>) -> (r: Result<(), Error>)
        ensures
            final(self)@ == old(self)@,
            r == Ok::<(), Error>(()),
    {
        let _ = groups;
        Ok(())
    }

    /// Takes note of which group a key's messages belong to.
    pub fn learn_group_sender(&mut self, sender_event_pubkey: DevicePubkey, group_id: String)
        ensures
            same_device(old(self)@, final(self)@),
            final(self)@.core == (CoreModel {
                state: StateModel {
                    senders: old(self)@.core.state.senders.insert(sender_event_pubkey, group_id@),
                    ..old(self)@.core.state
                },
                ..old(self)@.core
            }),
    {
        let ghost before = self@.core.state.senders;
        let ghost id = group_id@;
        self.core.state.group_senders.insert(sender_event_pubkey, group_id);
        assert(self@.core.state.senders =~= before.insert(sender_event_pubkey, id));
    }

    /// The keys whose messages belong to groups.
    pub fn group_known_sender_event_pubkeys(&self) -> (r: Vec<DevicePubkey>)
        ensures
            r@ == ordered::<DevicePubkey>(self@.core.state.senders.dom()),
    {
        let r = self.core.state.group_senders.keys();
        assert(self@.core.state.senders.dom() =~= self.core.state.group_senders@.dom());
        assert(r@ =~= self.core.state.group_senders.order());
        r
    }

    pub fn group_id_for_sender_event_pubkey(&self, sender_event_pubkey: DevicePubkey) -> (r: Option<
        String,
    >)
        ensures
            match r {
                Some(id) => self@.core.state.senders.contains_key(sender_event_pubkey)
                    && self@.core.state.senders[sender_event_pubkey] == id@,
                None => !self@.core.state.senders.contains_key(sender_event_pubkey),
            },
    {
        match self.core.state.group_senders.get(&sender_event_pubkey) {
            Some(id) => Some(id.clone()),
            None => None,
        }
    }

    pub fn group_outer_subscription_plan(&self) -> (r: GroupOuterSubscriptionPlan)
        ensures
            r.authors@ == ordered::<DevicePubkey>(self@.core.state.senders.dom()),
            r.added_authors@ == r.authors@,
    {
        let authors = self.group_known_sender_event_pubkeys();
        let added_authors = vstd::slice::slice_to_vec(authors.as_slice());
        GroupOuterSubscriptionPlan { authors, added_authors }
    }

    pub fn group_snapshots(&self) -> (r: Vec<GroupSnapshot>)
        ensures
            group_snapshots(r@) == snapshots_of(self@.core.state.groups.groups),
    {
        self.core.state.group_manager.groups()
    }

    pub fn create_group(
        &mut self,
        ctx: &mut ProtocolContext<'_>,
        name: String,
        member_owners: Vec<OwnerPubkey>,
    ) -> (r: Result<RuntimeGroupCreateResult, Error>)
        ensures
            moment(*final(ctx)) == moment(*old(ctx)),
            same_device(old(self)@, final(self)@),
            makes_group(
                old(self)@.core,
                final(self)@.core,
                moment(*old(ctx)),
                name@,
                member_owners@,
                r,
            ),
    {
        self.core.create_group(ctx, name, member_owners)
    }

    pub fn update_group_name(
        &mut self,
        ctx: &mut ProtocolContext<'_>,
        group_id: &str,
        name: String,
    ) -> (r: Result<RuntimeGroupSnapshotResult, Error>)
        ensures
            moment(*final(ctx)) == moment(*old(ctx)),
            same_device(old(self)@, final(self)@),
            renames(old(self)@.core, final(self)@.core, moment(*old(ctx)), group_id@, name@, r),
    {
        self.core.update_group_name(ctx, group_id, name)
    }

    pub fn add_group_members(
        &mut self,
        ctx: &mut ProtocolContext<'_>,
        group_id: &str,
        members: Vec<OwnerPubkey>,
    ) -> (r: Result<RuntimeGroupSnapshotResult, Error>)
        ensures
            moment(*final(ctx)) == moment(*old(ctx)),
            same_device(old(self)@, final(self)@),
            changes_owners(
                old(self)@.core,
                final(self)@.core,
                moment(*old(ctx)),
                group_id@,
                OwnersChange::AddMembers,
                members@,
                r,
            ),
    {
        self.core.change_group_owners(ctx, group_id, OwnersChange::AddMembers, members)
    }

    pub fn remove_group_member(
        &mut self,
        ctx: &mut ProtocolContext<'_>,
        group_id: &str,
        member: OwnerPubkey,
    ) -> (r: Result<RuntimeGroupSnapshotResult, Error>)
        ensures
            moment(*final(ctx)) == moment(*old(ctx)),
            same_device(old(self)@, final(self)@),
            changes_owners(
                old(self)@.core,
                final(self)@.core,
                moment(*old(ctx)),
                group_id@,
                OwnersChange::RemoveMembers,
                seq![member],
                r,
            ),
    {
        let mut members: Vec<OwnerPubkey> = Vec::new();
        members.push(member);
        assert(members@ =~= seq![member]);
        self.core.change_group_owners(ctx, group_id, OwnersChange::RemoveMembers, members)
    }

    pub fn set_group_admin(
        &mut self,
        ctx: &mut ProtocolContext<'_>,
        group_id: &str,
        member: OwnerPubkey,
        is_admin: bool,
    ) -> (r: Result<RuntimeGroupSnapshotResult, Error>)
        ensures
            moment(*final(ctx)) == moment(*old(ctx)),
            same_device(old(self)@, final(self)@),
            changes_owners(
                old(self)@.core,
                final(self)@.core,
                moment(*old(ctx)),
                group_id@,
                if is_admin {
                    OwnersChange::AddAdmins
                } else {
                    OwnersChange::RemoveAdmins
                },
                seq![member],
                r,
            ),
    {
        let mut members: Vec<OwnerPubkey> = Vec::new();
        members.push(member);
        assert(members@ =~= seq![member]);
        let change = if is_admin {
            OwnersChange::AddAdmins
        } else {
            OwnersChange::RemoveAdmins
        };
        self.core.change_group_owners(ctx, group_id, change, members)
    }

    pub fn send_group_message(
        &mut self,
        ctx: &mut ProtocolContext<'_>,
        group_id: &str,
        payload: Vec<u8>,
        inner_event_id: Option<String>,
    ) -> (r: Result<RuntimePublishResult, Error>)
        ensures
            moment(*final(ctx)) == moment(*old(ctx)),
            same_device(old(self)@, final(self)@),
            writes_to_group(
                old(self)@.core,
                final(self)@.core,
                moment(*old(ctx)),
                group_id@,
                payload@,
                text_of(inner_event_id),
                r,
            ),
    {
        self.core.send_group_message(ctx, group_id, payload, inner_event_id)
    }

    /// Hears from a member, and says what came of it.
    pub fn group_handle_incoming_payload(
        &mut self,
        payload: &[u8],
        from_owner_pubkey: OwnerPubkey,
        from_sender_device_pubkey: Option<DevicePubkey>,
        now_millis: UnixMillis,
        outcomes: Vec<SenderKeyOutcome>,
    ) -> (r: Vec<GroupIncomingEvent>)
        ensures
            same_device(old(self)@, final(self)@),
            ({
                let (after, result) = incoming(
                    old(self)@.core,
                    from_owner_pubkey,
                    from_sender_device_pubkey,
                    payload@,
                    now_millis,
                    views(outcomes@),
                );
                final(self)@.core == after && views(r@) == result.events
            }),
    {
        self.core.handle_group_payload(
            payload,
            from_owner_pubkey,
            from_sender_device_pubkey,
            now_millis,
            outcomes,
        ).events
    }

    /// Hears from a member. The outcomes say what would become of the messages
    /// that wait and were encrypted with their senders' own keys; they count
    /// once something is heard.
    pub fn group_handle_incoming_payload_outcome(
        &mut self,
        payload: &[u8],
        from_owner_pubkey: OwnerPubkey,
        from_sender_device_pubkey: Option<DevicePubkey>,
        now_millis: UnixMillis,
        outcomes: Vec<SenderKeyOutcome>,
    ) -> (r: GroupPairwiseHandleOutcome)
        ensures
            same_device(old(self)@, final(self)@),
            ({
                let (after, result) = incoming(
                    old(self)@.core,
                    from_owner_pubkey,
                    from_sender_device_pubkey,
                    payload@,
                    now_millis,
                    views(outcomes@),
                );
                &&& final(self)@.core == after
                &&& views(r.events@) == result.events
                &&& views(r.effects@) == result.effects
                &&& r.consumed == payload_of_bytes(payload@) is Some
            }),
    {
        self.core.handle_group_payload(
            payload,
            from_owner_pubkey,
            from_sender_device_pubkey,
            now_millis,
            outcomes,
        )
    }

    /// Takes in a message that was encrypted with its sender's own key, where
    /// the event was one, and what became of it.
    pub fn group_handle_outer_event(
        &mut self,
        message: Option<GroupSenderKeyMessage>,
        outcome: SenderKeyOutcome,
    ) -> (r: RuntimeGroupIncomingResult)
        ensures
            same_device(old(self)@, final(self)@),
            ({
                let said = match message {
                    Some(message) => Some(message@),
                    None => None,
                };
                let (after, result) = outer(old(self)@.core, said, outcome@);
                final(self)@.core == after && r@ == result
            }),
    {
        self.core.handle_group_outer_event(message, outcome)
    }

    /// The messages that wait, or those of one identifier.
    pub fn queued_message_diagnostics(&self, inner_event_id: Option<&str>) -> (r: Result<
        Vec<QueuedMessageDiagnostic>,
        Error,
    >)
        ensures
            r matches Ok(list) && views(list@) == diagnostics(
                self@.core.state.outbound,
                match inner_event_id {
                    Some(id) => Some(id@),
                    None => None,
                },
            ),
    {
        let ghost all = self@.core.state.outbound;
        let ghost inner = match inner_event_id {
            Some(id) => Some(id@),
            None => None,
        };
        let mut list: Vec<QueuedMessageDiagnostic> = Vec::new();
        let mut i: usize = 0;
        assert(views(list@) =~= Seq::empty());
        assert(all.take(0) =~= Seq::empty());
        while i < self.core.state.pending_outbound.len()
            invariant
                i <= self.core.state.pending_outbound@.len(),
                all == views(self.core.state.pending_outbound@),
                inner == (match inner_event_id {
                    Some(id) => Some(id@),
                    None => None,
                }),
                views(list@) == diagnostics(all.take(i as int), inner),
            decreases self.core.state.pending_outbound@.len() - i,
        {
            assert(all.take(i + 1).drop_last() =~= all.take(i as int));
            let pending = &self.core.state.pending_outbound[i];
            assert(all.take(i + 1).last() == pending@);
            let wanted = match (inner_event_id, &pending.inner_event_id) {
                (None, _) => true,
                (Some(id), Some(own)) => crate::order::same_str(own.as_str(), id),
                (Some(_), None) => false,
            };
            if wanted {
                push_item(
                    &mut list,
                    QueuedMessageDiagnostic {
                        stage: pending.reason,
                        target_key: pending.recipient_owner.to_hex(),
                        owner_pubkey: Some(pending.recipient_owner),
                        inner_event_id: pending.inner_event_id.clone(),
                        created_at_ms: pending.created_at_ms,
                    },
                );
            }
            i = i + 1;
        }
        assert(all.take(i as int) =~= all);
        Ok(list)
    }

    /// The state as it is stored.
    pub fn stored_state(&self) -> (r: StoredRuntimeState)
        ensures
            r@ == store::stored_of(self@.core.state),
    {
        self.core.state.stored()
    }
}

} // verus!
