//! Receiving: device lists, invites, responses to the own invite, and
//! messages.
use vstd::prelude::*;
use vstd::utf8::{decode_utf8, valid_utf8};
use super::effects::{
    decrypted_delivery_effect, emit, first_delivery, persist, with_delivery, EffectModel,
    RuntimeEffect,
};
use super::letters::{decode_local_sibling_payload, sibling_of};
use super::outbox::{
    effects_of, invalid_event, moment, sync_core, sync_effects, with_core, CoreModel, Moment,
    RuntimeCore,
};
use super::retry::{reacts, reacts_and_asks};
use super::store::{DecryptedModel, PendingDecryptedDelivery, StateModel};
use crate::app_keys::{listed, AppKeys, AppKeysModel, DeviceEntry, LabelsModel};
use crate::codec::nostr::{
    device_list_of, invite_of_event, is_app_keys_event, lists_devices, message_of_event,
    parse_app_keys_event, parse_direct_message_event, parse_invite_event,
    parse_invite_response_event, response_event_fault,
};
use crate::collections::{lists_len, ordered, ordered_values, push_item, push_items, views};
use crate::encoding::utf8_decode;
use crate::error::{fault, Error, Fault};
use crate::event::{Event, SignedBody};
use crate::ids::{DevicePubkey, OwnerPubkey, UnixSeconds};
use crate::order::same_str;
use crate::roster::{device_times, AuthorizedDevice, DeviceRoster, RosterModel};
use crate::session::EnvelopeModel;
use crate::session_manager::queries::{all_sessions, first_owner, known_roster};
use crate::session_manager::{
    invite_owner, observes_response, receives, rostered, rostered_to, user_or_fresh, with_invite,
    ManagerModel, ProcessedInviteResponse, ReceivedMessage,
};
use crate::types::{
    ProtocolContext, APP_KEYS_EVENT_KIND, INVITE_EVENT_KIND, INVITE_RESPONSE_KIND,
    MESSAGE_EVENT_KIND,
};

verus! {

// ---------------------------------------------------------------------------
// Device lists
// ---------------------------------------------------------------------------

pub open spec fn authorized(entries: Seq<DeviceEntry>) -> Seq<AuthorizedDevice> {
    Seq::new(
        entries.len(),
        |i: int|
            AuthorizedDevice {
                device_pubkey: entries[i].identity_pubkey,
                created_at: entries[i].created_at,
            },
    )
}

/// The roster that a device list of a time is.
pub open spec fn roster_of_keys(keys: AppKeysModel, created_at: u64) -> RosterModel {
    RosterModel {
        created_at: UnixSeconds(created_at),
        devices: device_times(
            authorized(ordered_values::<DevicePubkey, DeviceEntry>(keys.devices)),
        ),
    }
}

/// Whether the roster of the own owner was only made up by this device, and a
/// roster comes that lists this device and others. Then the one that comes
/// stands, though it is older.
pub open spec fn replaces_provisional(
    current: Option<RosterModel>,
    device: DevicePubkey,
    incoming: RosterModel,
) -> bool {
    &&& incoming.devices.dom().len() > 1
    &&& incoming.devices.contains_key(device)
    &&& current matches Some(roster) && roster.devices.dom() == set![device]
        && roster.created_at.0 > incoming.created_at.0
}

/// What is known when the roster of an owner came.
pub open spec fn with_roster(
    m: ManagerModel,
    own: OwnerPubkey,
    device: DevicePubkey,
    owner: OwnerPubkey,
    roster: RosterModel,
) -> ManagerModel {
    if owner != own {
        ManagerModel {
            users: m.users.insert(owner, rostered(user_or_fresh(m, owner), roster)),
            ..m
        }
    } else if replaces_provisional(known_roster(m, own), device, roster) {
        ManagerModel {
            users: m.users.insert(m.owner, rostered_to(user_or_fresh(m, m.owner), roster)),
            ..m
        }
    } else {
        ManagerModel {
            users: m.users.insert(m.owner, rostered(user_or_fresh(m, m.owner), roster)),
            ..m
        }
    }
}

/// Whether a device list is older than one that came before.
pub open spec fn outdated(m: StateModel, owner: OwnerPubkey, created_at: u64) -> bool {
    m.latest.contains_key(owner) && created_at < m.latest[owner]
}

/// What is known when a device list came.
pub open spec fn with_keys(
    c: CoreModel,
    owner: OwnerPubkey,
    keys: AppKeysModel,
    created_at: u64,
) -> CoreModel {
    CoreModel {
        state: StateModel {
            core: with_roster(
                c.state.core,
                c.owner,
                c.device,
                owner,
                roster_of_keys(keys, created_at),
            ),
            latest: c.state.latest.insert(owner, created_at),
            ..c.state
        },
        ..c
    }
}

/// Whether a device list was taken in. One that is older than another is not.
pub open spec fn ingests(
    before: CoreModel,
    after: CoreModel,
    at: Moment,
    owner: OwnerPubkey,
    keys: AppKeysModel,
    created_at: u64,
    r: Result<Seq<EffectModel>, Error>,
) -> bool {
    if outdated(before.state, owner, created_at) {
        after == before && r == Ok::<Seq<EffectModel>, Error>(Seq::empty())
    } else {
        reacts_and_asks(with_keys(before, owner, keys, created_at), after, at, r)
    }
}

fn roster_from_keys(app_keys: &AppKeys, created_at: u64) -> (r: DeviceRoster)
    ensures
        r@ == roster_of_keys(app_keys@, created_at),
{
    let entries = app_keys.get_all_devices();
    let mut devices: Vec<AuthorizedDevice> = Vec::new();
    let mut i: usize = 0;
    while i < entries.len()
        invariant
            i <= entries@.len(),
            devices@ == authorized(entries@).take(i as int),
        decreases entries@.len() - i,
    {
        devices.push(
            AuthorizedDevice::new(entries[i].identity_pubkey, entries[i].created_at),
        );
        assert(devices@ =~= authorized(entries@).take(i + 1));
        i = i + 1;
    }
    assert(devices@ =~= authorized(entries@));
    DeviceRoster::new(UnixSeconds(created_at), devices)
}

fn should_replace_provisional_local_roster(
    current: Option<&DeviceRoster>,
    device: DevicePubkey,
    incoming: &DeviceRoster,
) -> (r: bool)
    ensures
        r == replaces_provisional(
            match current {
                Some(roster) => Some(roster@),
                None => None,
            },
            device,
            incoming@,
        ),
{
    let incoming_devices = incoming.devices();
    proof {
        lists_len::<DevicePubkey>(
            ordered::<DevicePubkey>(incoming@.devices.dom()),
            incoming@.devices.dom(),
        );
    }
    if incoming_devices.len() <= 1 || incoming.get_device(&device).is_none() {
        return false;
    }
    let roster = match current {
        Some(roster) => roster,
        None => {
            return false;
        },
    };
    let devices = roster.devices();
    let ghost order = ordered::<DevicePubkey>(roster@.devices.dom());
    let alone = devices.len() == 1 && devices[0].device_pubkey == device;
    proof {
        let dom = roster@.devices.dom();
        lists_len::<DevicePubkey>(order, dom);
        if alone {
            assert forall|k: DevicePubkey| #[trigger] dom.contains(k) <==> set![device].contains(
                k,
            ) by {
                assert(order[0] == device);
                assert(order.contains(device));
                if dom.contains(k) {
                    assert(order.contains(k));
                }
            }
            assert(dom =~= set![device]);
        } else if dom == set![device] {
            assert(dom.len() == 1);
            assert(order.contains(order[0]));
            assert(dom.contains(order[0]));
            assert(false);
        }
    }
    alone && roster.created_at().0 > incoming.created_at().0
}

// ---------------------------------------------------------------------------
// Invites and responses
// ---------------------------------------------------------------------------

/// Whether an invite was taken in.
pub open spec fn hears_invite(
    before: CoreModel,
    after: CoreModel,
    at: Moment,
    event: SignedBody,
    r: Result<Seq<EffectModel>, Error>,
) -> bool {
    match invite_of_event(event) {
        Err(_) => after == before && (r matches Err(e) && fault(e) == Fault::InvalidEvent),
        Ok(invite) => reacts(
            with_core(before, with_invite(before.state.core, invite_owner(invite), invite)),
            after,
            at,
            r,
        ),
    }
}

/// What is known when a response was taken in.
pub open spec fn with_processed(c: CoreModel, core: ManagerModel, id: Seq<char>) -> CoreModel {
    CoreModel {
        state: StateModel { core, processed: c.state.processed.insert(id), ..c.state },
        ..c
    }
}

/// Whether a response was looked at, and what came of it.
pub open spec fn responds(
    before: CoreModel,
    after: CoreModel,
    at: Moment,
    event: SignedBody,
    mid: ManagerModel,
    found: Result<Option<ProcessedInviteResponse>, Error>,
    r: Result<Seq<EffectModel>, Error>,
) -> bool {
    &&& observes_response(
        before.state.core,
        mid,
        at.secs,
        event.body.pubkey,
        event.body.content,
        found,
    )
    &&& match found {
        Err(e) => after == with_core(before, mid) && r == Err::<Seq<EffectModel>, Error>(e),
        Ok(None) => after == with_core(before, mid) && r == Ok::<Seq<EffectModel>, Error>(
            Seq::empty(),
        ),
        Ok(Some(_)) => opens_and_reacts(with_processed(before, mid, event.id), after, at, r),
    }
}

/// Whether the kept messages were tried, and then everything else that waits.
pub open spec fn opens_and_reacts(
    before: CoreModel,
    after: CoreModel,
    at: Moment,
    r: Result<Seq<EffectModel>, Error>,
) -> bool {
    exists|mid: CoreModel, first: Seq<EffectModel>, second: Result<Seq<EffectModel>, Error>| #[trigger]
        opened_then(before, mid, after, at, first, second) && r == match second {
            Ok(more) => Ok::<Seq<EffectModel>, Error>(first + more),
            Err(e) => Err(e),
        }
}

pub open spec fn opened_then(
    before: CoreModel,
    mid: CoreModel,
    after: CoreModel,
    at: Moment,
    first: Seq<EffectModel>,
    second: Result<Seq<EffectModel>, Error>,
) -> bool {
    opens_kept(before, mid, at, first) && reacts_and_asks(mid, after, at, second)
}

/// Whether a response was taken in. One that was taken in before is passed
/// over.
pub open spec fn hears_response(
    before: CoreModel,
    after: CoreModel,
    at: Moment,
    event: SignedBody,
    r: Result<Seq<EffectModel>, Error>,
) -> bool {
    if before.state.processed.contains(event.id) {
        after == before && r == Ok::<Seq<EffectModel>, Error>(Seq::empty())
    } else if response_event_fault(event) is Some {
        after == before && (r matches Err(e) && fault(e) == Fault::InvalidEvent)
    } else {
        exists|mid: ManagerModel, found: Result<Option<ProcessedInviteResponse>, Error>| #[trigger]
            responds(before, after, at, event, mid, found, r)
    }
}

// ---------------------------------------------------------------------------
// Messages
// ---------------------------------------------------------------------------

/// Whose message it is: that of the owner with a session that listens to its
/// sender, else that of the sender itself.
pub open spec fn message_owner(m: ManagerModel, sender: DevicePubkey) -> OwnerPubkey {
    match first_owner(all_sessions(m), sender) {
        Some(owner) => owner,
        None => sender.owner(),
    }
}

/// The conversation that a payload belongs to, if it is the copy of a message
/// of an own device, and what it says.
pub open spec fn unwrapped(payload: Seq<u8>) -> (Option<OwnerPubkey>, Seq<u8>) {
    match sibling_of(payload) {
        Some((owner, inner)) => (Some(owner), inner),
        None => (None, payload),
    }
}

/// A message to show.
pub open spec fn shown_message(
    message: ReceivedMessage,
    id: Seq<char>,
    at: Moment,
) -> DecryptedModel {
    DecryptedModel {
        sender: message.owner_pubkey,
        device: Some(message.device_pubkey),
        conversation: unwrapped(message.payload@).0,
        content: decode_utf8(unwrapped(message.payload@).1),
        event_id: Some(id),
        created_at_ms: at.millis.0,
    }
}

pub open spec fn with_message(c: CoreModel, d: DecryptedModel) -> CoreModel {
    CoreModel { state: with_delivery(c.state, d), ..c }
}

/// Whether a message was decrypted, and what came of it: nothing where no
/// session listens to its sender.
pub open spec fn decrypts(
    before: CoreModel,
    after: CoreModel,
    at: Moment,
    envelope: EnvelopeModel,
    id: Seq<char>,
    mid: ManagerModel,
    found: Result<Option<ReceivedMessage>, Error>,
    r: Result<Option<Seq<EffectModel>>, Error>,
) -> bool {
    &&& receives(
        before.state.core,
        mid,
        at.secs,
        message_owner(before.state.core, envelope.sender),
        envelope,
        found,
    )
    &&& match found {
        Err(e) => after == with_core(before, mid) && r == Err::<Option<Seq<EffectModel>>, Error>(e),
        Ok(None) => after == with_core(before, mid) && r == Ok::<Option<Seq<EffectModel>>, Error>(
            None,
        ),
        Ok(Some(message)) => if !valid_utf8(unwrapped(message.payload@).1) {
            after == with_core(before, mid) && (r matches Err(e) && fault(e) == Fault::Decryption)
        } else {
            let d = shown_message(message, id, at);
            &&& after == with_message(with_core(before, mid), d)
            &&& r == Ok::<Option<Seq<EffectModel>>, Error>(
                Some(seq![persist(after.state), emit(d)]),
            )
        },
    }
}

/// Whether an event was opened, if a session listens to its sender.
pub open spec fn opens(
    before: CoreModel,
    after: CoreModel,
    at: Moment,
    event: SignedBody,
    r: Result<Option<Seq<EffectModel>>, Error>,
) -> bool {
    match message_of_event(event) {
        None => after == before && (r matches Err(e) && fault(e) == Fault::InvalidEvent),
        Some(envelope) => exists|
            mid: ManagerModel,
            found: Result<Option<ReceivedMessage>, Error>,
        | #[trigger]
            decrypts(before, after, at, envelope, event.id, mid, found, r),
    }
}

/// Whether an event of an identifier is kept until it can be opened.
pub open spec fn kept(m: StateModel, id: Seq<char>) -> bool {
    exists|i: int| 0 <= i < m.inbound.len() && (#[trigger] m.inbound[i]).id == id
}

/// What is there when an event is kept until it can be opened.
pub open spec fn with_kept(c: CoreModel, event: SignedBody) -> CoreModel {
    if kept(c.state, event.id) {
        c
    } else {
        CoreModel {
            state: StateModel { inbound: c.state.inbound.push(event), ..c.state },
            ..c
        }
    }
}

/// Whether a message was taken in. One that cannot be opened yet is kept.
pub open spec fn hears_message(
    before: CoreModel,
    after: CoreModel,
    at: Moment,
    event: SignedBody,
    r: Result<Seq<EffectModel>, Error>,
) -> bool {
    exists|mid: CoreModel, found: Result<Option<Seq<EffectModel>>, Error>| #[trigger]
        opens(before, mid, at, event, found) && match found {
            Err(e) => after == mid && r == Err::<Seq<EffectModel>, Error>(e),
            Ok(Some(effects)) => after == mid && r == Ok::<Seq<EffectModel>, Error>(effects),
            Ok(None) => after == with_kept(mid, event) && r == Ok::<Seq<EffectModel>, Error>(
                if kept(mid.state, event.id) {
                    Seq::empty()
                } else {
                    seq![persist(after.state)]
                },
            ),
        }
}

/// How far opening the kept messages has come: what is known, the messages that
/// are kept on, and what is asked for.
pub struct OpeningTrace {
    pub core: CoreModel,
    pub left: Seq<SignedBody>,
    pub effects: Seq<EffectModel>,
}

pub open spec fn with_inbound(c: CoreModel, inbound: Seq<SignedBody>) -> CoreModel {
    CoreModel { state: StateModel { inbound, ..c.state }, ..c }
}

/// Whether one more kept message was tried. One that cannot be opened yet is
/// kept on; one that never can is not. Those that were not tried yet are kept
/// all the while.
pub open spec fn opening_step(
    at: Moment,
    event: SignedBody,
    untried: Seq<SignedBody>,
    prev: OpeningTrace,
    next: OpeningTrace,
    found: Result<Option<Seq<EffectModel>>, Error>,
) -> bool {
    &&& opens(
        with_inbound(prev.core, prev.left + untried),
        with_inbound(next.core, prev.left + untried),
        at,
        event,
        found,
    )
    &&& next.core.state.inbound == next.left + untried
    &&& match found {
        Err(_) => next.left == prev.left && next.effects == prev.effects,
        Ok(Some(effects)) => next.left == prev.left && next.effects == prev.effects + effects,
        Ok(None) => next.left == prev.left.push(event) && next.effects == prev.effects,
    }
}

/// Whether the first of some kept messages were tried, one after another.
pub open spec fn opens_some(
    start: CoreModel,
    at: Moment,
    events: Seq<SignedBody>,
    n: nat,
    t: OpeningTrace,
) -> bool
    decreases n,
{
    if n == 0 {
        t == (OpeningTrace { core: start, left: Seq::empty(), effects: Seq::empty() })
    } else {
        exists|prev: OpeningTrace, found: Result<Option<Seq<EffectModel>>, Error>| #[trigger]
            opening_step(at, events[n - 1], events.skip(n as int), prev, t, found) && opens_some(
                start,
                at,
                events,
                (n - 1) as nat,
                prev,
            )
    }
}

/// Whether all kept messages were tried.
pub open spec fn opens_kept(
    before: CoreModel,
    after: CoreModel,
    at: Moment,
    effects: Seq<EffectModel>,
) -> bool {
    exists|t: OpeningTrace| #[trigger]
        opens_some(before, at, before.state.inbound, before.state.inbound.len(), t) && effects
            == t.effects && after == t.core
}

// ---------------------------------------------------------------------------
// Events
// ---------------------------------------------------------------------------

/// Whether an event was taken in by what handles its kind.
pub open spec fn hears_event(
    before: CoreModel,
    after: CoreModel,
    at: Moment,
    event: SignedBody,
    r: Result<Seq<EffectModel>, Error>,
) -> bool {
    let kind = event.body.kind;
    if kind == APP_KEYS_EVENT_KIND && lists_devices(event.body) {
        match device_list_of(event) {
            Err(f) => after == before && (r matches Err(e) && fault(e) == f),
            Ok(list) => ingests(
                before,
                after,
                at,
                event.body.pubkey.owner(),
                AppKeysModel { devices: listed(list), labels: Map::empty() },
                event.body.created_at.0,
                r,
            ),
        }
    } else if kind == INVITE_EVENT_KIND {
        hears_invite(before, after, at, event, r)
    } else if kind == INVITE_RESPONSE_KIND {
        hears_response(before, after, at, event, r)
    } else if kind == MESSAGE_EVENT_KIND {
        hears_message(before, after, at, event, r)
    } else {
        after == before && r == Ok::<Seq<EffectModel>, Error>(Seq::empty())
    }
}

/// The message that an event brought and that nobody has acknowledged yet.
pub open spec fn unacknowledged(m: StateModel, event: SignedBody) -> Option<DecryptedModel> {
    if event.body.kind == MESSAGE_EVENT_KIND {
        first_delivery(m.deliveries, event.id)
    } else {
        None
    }
}

/// Whether an event was processed. A message that waits to be acknowledged is
/// shown once more; else the event is taken in, and the runtime listens to the
/// right senders afterwards.
pub open spec fn processes_event(
    before: CoreModel,
    after: CoreModel,
    at: Moment,
    event: SignedBody,
    r: Result<Seq<EffectModel>, Error>,
) -> bool {
    match unacknowledged(before.state, event) {
        Some(d) => after == before && r == Ok::<Seq<EffectModel>, Error>(seq![emit(d)]),
        None => exists|mid: CoreModel, first: Result<Seq<EffectModel>, Error>| #[trigger]
            hears_event(before, mid, at, event, first) && match first {
                Ok(effects) => after == sync_core(mid) && r == Ok::<Seq<EffectModel>, Error>(
                    effects + sync_effects(mid),
                ),
                Err(e) => after == mid && r == Err::<Seq<EffectModel>, Error>(e),
            },
    }
}

pub open spec fn optional_effects(r: Result<Option<Vec<RuntimeEffect>>, Error>) -> Result<
    Option<Seq<EffectModel>>,
    Error,
> {
    match r {
        Ok(Some(effects)) => Ok(Some(views(effects@))),
        Ok(None) => Ok(None),
        Err(e) => Err(e),
    }
}

proof fn lemma_opening_keeps_inbound(
    before: CoreModel,
    after: CoreModel,
    at: Moment,
    event: SignedBody,
    found: Result<Option<Seq<EffectModel>>, Error>,
)
    requires
        opens(before, after, at, event, found),
    ensures
        after.state.inbound == before.state.inbound,
{
    if message_of_event(event) is Some {
        let envelope = message_of_event(event)->Some_0;
        let (mid, message) = choose|
            mid: ManagerModel,
            message: Result<Option<ReceivedMessage>, Error>,
        | #[trigger]
            decrypts(before, after, at, envelope, event.id, mid, message, found);
    }
}

impl RuntimeCore {
    /// Takes in a device list, unless it is older than one that came before.
    pub fn ingest_app_keys_snapshot(
        &mut self,
        ctx: &mut ProtocolContext<'_>,
        owner_pubkey: OwnerPubkey,
        app_keys: &AppKeys,
        created_at: u64,
    ) -> (r: Result<Vec<RuntimeEffect>, Error>)
        ensures
            moment(*final(ctx)) == moment(*old(ctx)),
            ingests(
                old(self)@,
                final(self)@,
                moment(*old(ctx)),
                owner_pubkey,
                app_keys@,
                created_at,
                effects_of(r),
            ),
    {
        let ghost before = self@;
        if let Some(latest) = self.state.latest_app_keys_created_at.get(&owner_pubkey) {
            if created_at < *latest {
                let effects: Vec<RuntimeEffect> = Vec::new();
                assert(views(effects@) =~= Seq::empty());
                return Ok(effects);
            }
        }
        self.state.latest_app_keys_created_at.insert(owner_pubkey, created_at);
        let roster = roster_from_keys(app_keys, created_at);
        if owner_pubkey == self.owner {
            let replace = should_replace_provisional_local_roster(
                self.state.core.roster_of(owner_pubkey),
                self.device,
                &roster,
            );
            if replace {
                self.state.core.replace_local_roster(roster);
            } else {
                let _ = self.state.core.apply_local_roster(roster);
            }
        } else {
            let _ = self.state.core.observe_peer_roster(owner_pubkey, roster);
        }
        assert(self@ =~= with_keys(before, owner_pubkey, app_keys@, created_at));
        self.react_and_ask(ctx)
    }

    fn process_invite_event(&mut self, ctx: &mut ProtocolContext<'_>, event: &Event) -> (r: Result<
        Vec<RuntimeEffect>,
        Error,
    >)
        ensures
            moment(*final(ctx)) == moment(*old(ctx)),
            hears_invite(old(self)@, final(self)@, moment(*old(ctx)), event@, effects_of(r)),
    {
        let ghost before = self@;
        let invite = match parse_invite_event(event) {
            Ok(invite) => invite,
            Err(e) => {
                return Err(invalid_event(e));
            },
        };
        let owner = match invite.owner_public_key {
            Some(owner) => owner,
            None => invite.inviter,
        };
        match self.state.core.observe_device_invite(owner, invite) {
            Ok(()) => {},
            Err(e) => {
                assert(false);
                return Err(e);
            },
        }
        assert(self@ =~= with_core(
            before,
            with_invite(before.state.core, invite_owner(invite@), invite@),
        ));
        self.react(ctx)
    }

    fn process_invite_response_event(
        &mut self,
        ctx: &mut ProtocolContext<'_>,
        event: &Event,
    ) -> (r: Result<Vec<RuntimeEffect>, Error>)
        ensures
            moment(*final(ctx)) == moment(*old(ctx)),
            hears_response(old(self)@, final(self)@, moment(*old(ctx)), event@, effects_of(r)),
    {
        let ghost before = self@;
        let ghost at = moment(*ctx);
        let none: Vec<RuntimeEffect> = Vec::new();
        assert(views(none@) =~= Seq::empty());
        if self.state.processed_invite_response_ids.contains(&event.id) {
            return Ok(none);
        }
        let envelope = match parse_invite_response_event(event) {
            Ok(envelope) => envelope,
            Err(e) => {
                return Err(invalid_event(e));
            },
        };
        let found = self.state.core.observe_incoming_response(ctx, &envelope);
        let ghost whole = found;
        let ghost mid = self@.state.core;
        match found {
            Err(e) => {
                let r: Result<Vec<RuntimeEffect>, Error> = Err(e);
                assert(responds(before, self@, at, event@, mid, whole, effects_of(r)));
                r
            },
            Ok(None) => {
                let r: Result<Vec<RuntimeEffect>, Error> = Ok(none);
                assert(responds(before, self@, at, event@, mid, whole, effects_of(r)));
                r
            },
            Ok(Some(_)) => {
                self.state.processed_invite_response_ids.insert(event.id.clone());
                assert(self@ =~= with_processed(before, mid, event@.id));
                let r = self.open_and_react(ctx);
                assert(responds(before, self@, at, event@, mid, whole, effects_of(r)));
                r
            },
        }
    }

    /// Tries the kept messages. Each stays among them until it is tried.
    fn open_kept(&mut self, ctx: &mut ProtocolContext<'_>) -> (r: Vec<RuntimeEffect>)
        ensures
            moment(*final(ctx)) == moment(*old(ctx)),
            opens_kept(old(self)@, final(self)@, moment(*old(ctx)), views(r@)),
    {
        let ghost before = self@;
        let ghost at = moment(*ctx);
        let ghost all = before.state.inbound;
        let ghost mut tried: nat = 0;
        let ghost mut left: Seq<SignedBody> = Seq::empty();
        let mut kept_on: usize = 0;
        let mut effects: Vec<RuntimeEffect> = Vec::new();
        proof {
            assert(views(effects@) =~= Seq::empty());
            assert(left + all.skip(0) =~= all);
            assert(opens_some(
                before,
                at,
                all,
                0,
                (OpeningTrace { core: self@, left, effects: views(effects@) }),
            ));
        }
        while kept_on < self.state.pending_inbound_messages.len()
            invariant
                tried <= all.len(),
                kept_on == left.len(),
                self@.state.inbound == left + all.skip(tried as int),
                moment(*ctx) == at,
                opens_some(
                    before,
                    at,
                    all,
                    tried,
                    (OpeningTrace { core: self@, left, effects: views(effects@) }),
                ),
            decreases all.len() - tried,
        {
            let ghost prev = OpeningTrace { core: self@, left, effects: views(effects@) };
            let ghost untried = all.skip(tried + 1int);
            let ghost known = self@.state.inbound;
            let ghost raw = self.state.pending_inbound_messages@;
            assert(known.len() == self.state.pending_inbound_messages@.len());
            assert(tried < all.len());
            let event = self.state.pending_inbound_messages.remove(kept_on);
            let ghost body = all[tried as int];
            proof {
                assert(known[kept_on as int] == body);
                assert(event@ == body);
                assert(self.state.pending_inbound_messages@ =~= raw.remove(kept_on as int));
                assert forall|j: int| 0 <= j < left.len() + untried.len() implies #[trigger]
                    self@.state.inbound[j] == (left + untried)[j] by {
                    if j < kept_on {
                        assert(known[j] == left[j]);
                    } else {
                        assert(known[j + 1] == all.skip(tried as int)[j + 1 - kept_on]);
                    }
                }
                assert(self@.state.inbound =~= left + untried);
                assert(self@ =~= with_inbound(prev.core, left + untried));
            }
            let found = self.open_message(ctx, &event);
            let ghost said = optional_effects(found);
            let ghost mid = self@;
            assert(mid.state.inbound == left + untried) by {
                lemma_opening_keeps_inbound(
                    with_inbound(prev.core, left + untried),
                    mid,
                    at,
                    body,
                    said,
                );
            }
            match found {
                Ok(Some(more)) => {
                    push_items(&mut effects, more);
                },
                Ok(None) => {
                    let ghost rest = self.state.pending_inbound_messages@;
                    assert(rest.len() == mid.state.inbound.len());
                    self.state.pending_inbound_messages.insert(kept_on, event);
                    proof {
                        assert(self.state.pending_inbound_messages@ =~= rest.insert(
                            kept_on as int,
                            event,
                        ));
                        assert forall|j: int| 0 <= j < left.len() + 1 + untried.len() implies #[trigger]
                            self@.state.inbound[j] == (left.push(body) + untried)[j] by {
                            if j < kept_on {
                                assert(mid.state.inbound[j] == left[j]);
                            } else if j > kept_on {
                                assert(mid.state.inbound[j - 1] == untried[j - 1 - kept_on]);
                            }
                        }
                    }
                    kept_on = kept_on + 1;
                    proof {
                        left = left.push(body);
                        assert(self@.state.inbound =~= left + untried);
                    }
                },
                Err(_) => {},
            }
            proof {
                let next = OpeningTrace { core: self@, left, effects: views(effects@) };
                assert(with_inbound(next.core, prev.left + untried) =~= mid);
                assert(opening_step(at, body, untried, prev, next, said));
                assert(opening_step(
                    at,
                    all[(tried + 1) - 1],
                    all.skip((tried + 1) as int),
                    prev,
                    next,
                    said,
                ));
                tried = (tried + 1) as nat;
            }
        }
        proof {
            assert(all.skip(tried as int).len() == 0);
            assert(tried == all.len());
        }
        effects
    }

    /// Tries the kept messages, and then everything else that waits.
    fn open_and_react(&mut self, ctx: &mut ProtocolContext<'_>) -> (r: Result<
        Vec<RuntimeEffect>,
        Error,
    >)
        ensures
            moment(*final(ctx)) == moment(*old(ctx)),
            opens_and_reacts(old(self)@, final(self)@, moment(*old(ctx)), effects_of(r)),
    {
        let ghost before = self@;
        let ghost at = moment(*ctx);
        let mut effects = self.open_kept(ctx);
        let ghost first = views(effects@);
        let ghost mid = self@;
        let second = self.react_and_ask(ctx);
        let ghost said = effects_of(second);
        assert(opened_then(before, mid, self@, at, first, said));
        match second {
            Ok(more) => {
                push_items(&mut effects, more);
                Ok(effects)
            },
            Err(e) => Err(e),
        }
    }

    /// Opens a message, if a session listens to its sender.
    fn open_message(&mut self, ctx: &mut ProtocolContext<'_>, event: &Event) -> (r: Result<
        Option<Vec<RuntimeEffect>>,
        Error,
    >)
        ensures
            moment(*final(ctx)) == moment(*old(ctx)),
            opens(old(self)@, final(self)@, moment(*old(ctx)), event@, optional_effects(r)),
    {
        let ghost before = self@;
        let ghost at = moment(*ctx);
        let envelope = match parse_direct_message_event(event) {
            Ok(envelope) => envelope,
            Err(e) => {
                return Err(invalid_event(e));
            },
        };
        let ghost sent = message_of_event(event@)->Some_0;
        assert(sent == envelope@);
        let owner = match self.state.core.owner_of_sender(envelope.sender) {
            Some(owner) => owner,
            None => envelope.sender.as_owner(),
        };
        let found = self.state.core.receive_incoming(ctx, owner, &envelope);
        let ghost whole = found;
        let ghost mid = self@.state.core;
        let message = match found {
            Err(e) => {
                let r: Result<Option<Vec<RuntimeEffect>>, Error> = Err(e);
                assert(decrypts(before, self@, at, sent, event@.id, mid, whole, optional_effects(r)));
                return r;
            },
            Ok(None) => {
                let r: Result<Option<Vec<RuntimeEffect>>, Error> = Ok(None);
                assert(decrypts(before, self@, at, sent, event@.id, mid, whole, optional_effects(r)));
                return r;
            },
            Ok(Some(message)) => message,
        };
        let (conversation_owner, payload) = match decode_local_sibling_payload(&message.payload) {
            Some((owner, payload)) => (Some(owner), payload),
            None => (None, message.payload),
        };
        assert((conversation_owner, payload@) == unwrapped(message.payload@));
        let content = match utf8_decode(payload) {
            Ok(content) => content,
            Err(e) => {
                let r: Result<Option<Vec<RuntimeEffect>>, Error> = Err(Error::Decryption(e));
                assert(decrypts(before, self@, at, sent, event@.id, mid, whole, optional_effects(r)));
                return r;
            },
        };
        let pending = PendingDecryptedDelivery {
            sender_owner: message.owner_pubkey,
            sender_device: Some(message.device_pubkey),
            conversation_owner,
            content,
            event_id: Some(event.id.clone()),
            created_at_ms: ctx.now_millis.0,
        };
        assert(pending@ =~= shown_message(message, event@.id, at));
        let effects = self.state.stage_pending_decrypted_delivery(pending);
        let r: Result<Option<Vec<RuntimeEffect>>, Error> = Ok(Some(effects));
        assert(decrypts(before, self@, at, sent, event@.id, mid, whole, optional_effects(r)));
        r
    }

    /// Whether an event of an identifier is kept.
    fn keeps(&self, event_id: &str) -> (r: bool)
        ensures
            r == kept(self@.state, event_id@),
    {
        let mut i: usize = 0;
        while i < self.state.pending_inbound_messages.len()
            invariant
                i <= self.state.pending_inbound_messages@.len(),
                forall|j: int| 0 <= j < i ==> (#[trigger] self@.state.inbound[j]).id != event_id@,
            decreases self.state.pending_inbound_messages@.len() - i,
        {
            assert(self@.state.inbound[i as int] == self.state.pending_inbound_messages@[i as int]@);
            if same_str(self.state.pending_inbound_messages[i].id.as_str(), event_id) {
                return true;
            }
            i = i + 1;
        }
        false
    }

    fn process_message_event(&mut self, ctx: &mut ProtocolContext<'_>, event: &Event) -> (r: Result<
        Vec<RuntimeEffect>,
        Error,
    >)
        ensures
            moment(*final(ctx)) == moment(*old(ctx)),
            hears_message(old(self)@, final(self)@, moment(*old(ctx)), event@, effects_of(r)),
    {
        let ghost before = self@;
        let ghost at = moment(*ctx);
        let found = self.open_message(ctx, event);
        let ghost said = optional_effects(found);
        let ghost mid = self@;
        assert(opens(before, mid, at, event@, said));
        match found {
            Err(e) => Err(e),
            Ok(Some(effects)) => Ok(effects),
            Ok(None) => {
                let mut effects: Vec<RuntimeEffect> = Vec::new();
                assert(views(effects@) =~= Seq::empty());
                if !self.keeps(event.id.as_str()) {
                    push_item(&mut self.state.pending_inbound_messages, event.clone());
                    self.push_persist(&mut effects);
                    assert(self@ == with_kept(mid, event@));
                    assert(views(effects@) =~= seq![persist(self@.state)]);
                }
                Ok(effects)
            },
        }
    }

    fn process_event(&mut self, ctx: &mut ProtocolContext<'_>, event: &Event) -> (r: Result<
        Vec<RuntimeEffect>,
        Error,
    >)
        ensures
            moment(*final(ctx)) == moment(*old(ctx)),
            hears_event(old(self)@, final(self)@, moment(*old(ctx)), event@, effects_of(r)),
    {
        let kind: u32 = event.kind as u32;
        if kind == APP_KEYS_EVENT_KIND && is_app_keys_event(event) {
            match parse_app_keys_event(event) {
                Ok(decoded) => {
                    assert(decoded.app_keys@ == AppKeysModel {
                        devices: listed(device_list_of(event@)->Ok_0),
                        labels: Map::<DevicePubkey, LabelsModel>::empty(),
                    });
                    self.ingest_app_keys_snapshot(
                        ctx,
                        decoded.owner_pubkey,
                        &decoded.app_keys,
                        decoded.created_at.0,
                    )
                },
                Err(e) => Err(e),
            }
        } else if kind == INVITE_EVENT_KIND {
            self.process_invite_event(ctx, event)
        } else if kind == INVITE_RESPONSE_KIND {
            self.process_invite_response_event(ctx, event)
        } else if kind == MESSAGE_EVENT_KIND {
            self.process_message_event(ctx, event)
        } else {
            let none: Vec<RuntimeEffect> = Vec::new();
            assert(views(none@) =~= Seq::empty());
            Ok(none)
        }
    }

    /// Takes in an event that came from a relay.
    pub fn process_received_event(&mut self, ctx: &mut ProtocolContext<'_>, event: &Event) -> (r:
        Result<Vec<RuntimeEffect>, Error>)
        ensures
            moment(*final(ctx)) == moment(*old(ctx)),
            processes_event(old(self)@, final(self)@, moment(*old(ctx)), event@, effects_of(r)),
    {
        let ghost before = self@;
        let ghost at = moment(*ctx);
        if event.kind as u32 == MESSAGE_EVENT_KIND {
            if let Some(pending) = self.state.delivery_of(event.id.as_str()) {
                let mut effects: Vec<RuntimeEffect> = Vec::new();
                effects.push(decrypted_delivery_effect(pending));
                assert(views(effects@) =~= seq![emit(pending@)]);
                return Ok(effects);
            }
        }
        let first = self.process_event(ctx, event);
        let ghost first_effects = effects_of(first);
        let ghost mid = self@;
        assert(hears_event(before, mid, at, event@, first_effects));
        match first {
            Ok(mut effects) => {
                self.sync(&mut effects);
                Ok(effects)
            },
            Err(e) => Err(e),
        }
    }
}

} // verus!
