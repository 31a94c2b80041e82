//! Sending: what is prepared is published, and what cannot be sent yet waits
//! and is tried again.
use vstd::prelude::*;
use super::effects::{
    persist, staging, with_staged, EffectModel, PublishResultModel, RuntimeEffect,
    RuntimePublishResult,
};
use super::store::{
    bytes_of, copy_bytes, copy_optional_bytes, same_bytes, same_optional_bytes, OutboundModel,
    PendingOutbound, PendingPreparedPublish, PublishModel, QueuedMessageStage, RuntimeState,
    StateModel,
};
use super::subscriptions::{authors_of, message_authors, refresh, sync_authors, synced};
use crate::codec::nostr::{
    direct_message_event, invite_response_event, response_event_body, signer_fault, signs,
};
use crate::collections::{push_item, push_items, views};
use crate::encoding::hex_text;
use crate::error::{detail, error_text, fault, CodecError, Error, Fault};
use crate::event::texts;
use crate::ids::{DevicePubkey, OwnerPubkey, UnixMillis, UnixSeconds};
use crate::invite::InviteResponseEnvelope;
use crate::order::same_str;
use crate::rumor::text_of;
use crate::session::domain::message_event;
use crate::session_manager::{
    prepares, remote_audience, sibling_audience, Delivery, ManagerModel, PreparedSend, RelayGap,
};
use crate::types::ProtocolContext;

verus! {

/// The state of the runtime, whose it is, and to whose messages it listens.
pub struct RuntimeCore {
    pub state: RuntimeState,
    pub owner: OwnerPubkey,
    pub device: DevicePubkey,
    pub authors: Option<Vec<DevicePubkey>>,
}

#[verifier::ext_equal]
pub struct CoreModel {
    pub state: StateModel,
    pub owner: OwnerPubkey,
    pub device: DevicePubkey,
    pub authors: Option<Seq<DevicePubkey>>,
}

impl View for RuntimeCore {
    type V = CoreModel;

    open spec fn view(&self) -> CoreModel {
        CoreModel {
            state: self.state@,
            owner: self.owner,
            device: self.device,
            authors: authors_of(self.authors),
        }
    }
}

/// The time at which something happens.
#[derive(Debug, Clone, Copy)]
pub struct Moment {
    pub secs: UnixSeconds,
    pub millis: UnixMillis,
}

pub open spec fn moment(ctx: ProtocolContext<'_>) -> Moment {
    Moment { secs: ctx.now_secs, millis: ctx.now_millis }
}

pub open spec fn with_core(c: CoreModel, core: ManagerModel) -> CoreModel {
    CoreModel { state: StateModel { core, ..c.state }, ..c }
}

/// What is there once the runtime listens to the right senders.
pub open spec fn sync_core(c: CoreModel) -> CoreModel {
    CoreModel { authors: synced(c.authors, message_authors(c.state.core)).0, ..c }
}

/// What has to be done so that the runtime listens to the right senders.
pub open spec fn sync_effects(c: CoreModel) -> Seq<EffectModel> {
    synced(c.authors, message_authors(c.state.core)).1
}

pub open spec fn refresh_core(c: CoreModel) -> EffectModel {
    refresh(c.state, c.owner)
}

pub open spec fn effects_of(r: Result<Vec<RuntimeEffect>, Error>) -> Result<
    Seq<EffectModel>,
    Error,
> {
    match r {
        Ok(effects) => Ok(views(effects@)),
        Err(e) => Err(e),
    }
}

/// An error that says that an event is none, with the text of another.
pub(crate) fn invalid_event(e: Error) -> (r: Error)
    ensures
        fault(r) == Fault::InvalidEvent,
        detail(r) == Some(error_text(e)),
{
    Error::Codec(CodecError::InvalidEvent(e.text()))
}

// ---------------------------------------------------------------------------
// Events of prepared messages
// ---------------------------------------------------------------------------

/// Whether an event to publish is that of a response to an invite.
pub open spec fn publishes_response(response: InviteResponseEnvelope, p: PublishModel) -> bool {
    &&& p.inner is None
    &&& p.target is None
    &&& signs(
        p.event,
        response_event_body(
            response.sender,
            response.recipient,
            response.created_at,
            response.content@,
        ),
    )
}

/// Whether an event to publish is that of a message for a device.
pub open spec fn publishes_delivery(
    delivery: Delivery,
    inner: Option<Seq<char>>,
    p: PublishModel,
    id: Seq<char>,
) -> bool {
    let envelope = delivery.envelope;
    &&& p.inner == inner
    &&& p.target == Some(hex_text(delivery.device_pubkey.0@))
    &&& p.event.id == id
    &&& signs(
        p.event,
        message_event(
            envelope.sender,
            envelope.created_at.0,
            envelope.encrypted_header@,
            envelope.ciphertext@,
        ),
    )
}

/// Whether events are those of prepared messages: responses to invites first,
/// then a message for each device. The identifiers are those of the messages.
pub open spec fn published_as(
    deliveries: Seq<Delivery>,
    responses: Seq<InviteResponseEnvelope>,
    inner: Option<Seq<char>>,
    pending: Seq<PublishModel>,
    ids: Seq<Seq<char>>,
) -> bool {
    &&& pending.len() == responses.len() + deliveries.len()
    &&& ids.len() == deliveries.len()
    &&& forall|i: int|
        0 <= i < responses.len() ==> publishes_response(#[trigger] responses[i], pending[i])
    &&& forall|i: int|
        0 <= i < deliveries.len() ==> publishes_delivery(
            #[trigger] deliveries[i],
            inner,
            pending[responses.len() + i],
            ids[i],
        )
}

/// Whether one of some prepared messages cannot be signed: its secret key is
/// not its sender's.
pub open spec fn unsignable(
    deliveries: Seq<Delivery>,
    responses: Seq<InviteResponseEnvelope>,
) -> bool {
    ||| exists|i: int|
        0 <= i < responses.len() && signer_fault(
            (#[trigger] responses[i]).sender,
            responses[i].signer_secret_key,
        ) is Some
    ||| exists|i: int|
        0 <= i < deliveries.len() && signer_fault(
            (#[trigger] deliveries[i]).envelope.sender,
            deliveries[i].envelope.signer_secret_key,
        ) is Some
}

/// The events of prepared messages.
pub fn prepared_publishes(
    deliveries: &Vec<Delivery>,
    responses: &Vec<InviteResponseEnvelope>,
    inner_event_id: &Option<String>,
) -> (r: Result<(Vec<PendingPreparedPublish>, Vec<String>), Error>)
    ensures
        match r {
            Ok((pending, ids)) => published_as(
                deliveries@,
                responses@,
                text_of(*inner_event_id),
                views(pending@),
                texts(ids@),
            ) && !unsignable(deliveries@, responses@),
            Err(e) => fault(e) == Fault::InvalidEvent && unsignable(deliveries@, responses@),
        },
{
    let ghost inner = text_of(*inner_event_id);
    let mut pending: Vec<PendingPreparedPublish> = Vec::new();
    let mut ids: Vec<String> = Vec::new();
    let mut i: usize = 0;
    while i < responses.len()
        invariant
            i <= responses@.len(),
            pending@.len() == i,
            forall|j: int|
                0 <= j < i ==> publishes_response(#[trigger] responses@[j], pending@[j]@)
                    && signer_fault(responses@[j].sender, responses@[j].signer_secret_key) is None,
        decreases responses@.len() - i,
    {
        let event = match invite_response_event(&responses[i]) {
            Ok(event) => event,
            Err(e) => {
                assert(signer_fault(
                    responses@[i as int].sender,
                    responses@[i as int].signer_secret_key,
                ) is Some);
                return Err(invalid_event(e));
            },
        };
        pending.push(PendingPreparedPublish { event, inner_event_id: None, target_device_id: None });
        i = i + 1;
    }
    let mut i: usize = 0;
    while i < deliveries.len()
        invariant
            i <= deliveries@.len(),
            pending@.len() == responses@.len() + i,
            ids@.len() == i,
            inner == text_of(*inner_event_id),
            forall|j: int|
                0 <= j < responses@.len() ==> publishes_response(
                    #[trigger] responses@[j],
                    pending@[j]@,
                ) && signer_fault(responses@[j].sender, responses@[j].signer_secret_key) is None,
            forall|j: int|
                0 <= j < i ==> publishes_delivery(
                    #[trigger] deliveries@[j],
                    inner,
                    pending@[responses@.len() + j]@,
                    ids@[j]@,
                ) && signer_fault(
                    deliveries@[j].envelope.sender,
                    deliveries@[j].envelope.signer_secret_key,
                ) is None,
        decreases deliveries@.len() - i,
    {
        let event = match direct_message_event(&deliveries[i].envelope) {
            Ok(event) => event,
            Err(e) => {
                assert(signer_fault(
                    deliveries@[i as int].envelope.sender,
                    deliveries@[i as int].envelope.signer_secret_key,
                ) is Some);
                return Err(invalid_event(e));
            },
        };
        ids.push(event.id.clone());
        pending.push(
            PendingPreparedPublish {
                event,
                inner_event_id: inner_event_id.clone(),
                target_device_id: Some(deliveries[i].device_pubkey.to_hex()),
            },
        );
        assert(publishes_delivery(
            deliveries@[i as int],
            inner,
            pending@[responses@.len() + i]@,
            ids@[i as int]@,
        ));
        i = i + 1;
    }
    assert forall|j: int| 0 <= j < responses@.len() implies publishes_response(
        #[trigger] responses@[j],
        views(pending@)[j],
    ) by {}
    assert forall|j: int| 0 <= j < deliveries@.len() implies publishes_delivery(
        #[trigger] deliveries@[j],
        inner,
        views(pending@)[responses@.len() + j],
        texts(ids@)[j],
    ) by {
        assert(views(pending@)[responses@.len() + j] == pending@[responses@.len() + j]@);
    }
    Ok((pending, ids))
}

// ---------------------------------------------------------------------------
// Messages that cannot be sent yet
// ---------------------------------------------------------------------------

/// Whether two waiting messages are the same: by their identifier where both
/// have one, by what they say where none has.
pub open spec fn same_message(a: OutboundModel, b: OutboundModel) -> bool {
    a.recipient == b.recipient && match (a.inner, b.inner) {
        (Some(x), Some(y)) => x == y,
        (None, None) => a.remote == b.remote && a.local == b.local,
        _ => false,
    }
}

/// The waiting messages with one more. One that waits already only learns what
/// it waits for now.
pub open spec fn queued(outbound: Seq<OutboundModel>, next: OutboundModel) -> Seq<OutboundModel>
    decreases outbound.len(),
{
    if outbound.len() == 0 {
        seq![next]
    } else if same_message(outbound[0], next) {
        outbound.update(0, OutboundModel { reason: next.reason, ..outbound[0] })
    } else {
        seq![outbound[0]] + queued(outbound.drop_first(), next)
    }
}

fn same_pending_outbound(pending: &PendingOutbound, next: &PendingOutbound) -> (r: bool)
    ensures
        r == same_message(pending@, next@),
{
    if pending.recipient_owner != next.recipient_owner {
        return false;
    }
    match (&pending.inner_event_id, &next.inner_event_id) {
        (Some(a), Some(b)) => same_str(a.as_str(), b.as_str()),
        (None, None) => same_bytes(&pending.remote_payload, &next.remote_payload)
            && same_optional_bytes(&pending.local_sibling_payload, &next.local_sibling_payload),
        _ => false,
    }
}

proof fn lemma_queued(outbound: Seq<OutboundModel>, next: OutboundModel, i: int)
    requires
        0 <= i <= outbound.len(),
        forall|j: int| 0 <= j < i ==> !same_message(#[trigger] outbound[j], next),
    ensures
        queued(outbound, next) == outbound.take(i) + queued(outbound.skip(i), next),
    decreases i,
{
    if i == 0 {
        assert(outbound.skip(0) =~= outbound);
        assert(queued(outbound, next) =~= outbound.take(0) + queued(outbound, next));
    } else {
        assert(!same_message(outbound[0], next));
        let rest = outbound.drop_first();
        assert forall|j: int| 0 <= j < i - 1 implies !same_message(#[trigger] rest[j], next) by {
            assert(rest[j] == outbound[j + 1]);
        }
        lemma_queued(rest, next, i - 1);
        assert(rest.skip(i - 1) =~= outbound.skip(i));
        assert(seq![outbound[0]] + rest.take(i - 1) =~= outbound.take(i));
        assert(queued(outbound, next) =~= outbound.take(i) + queued(outbound.skip(i), next));
    }
}

/// Adds a message to those that wait.
pub fn queue_outbound(outbound: &mut Vec<PendingOutbound>, next: PendingOutbound)
    ensures
        views(final(outbound)@) == queued(views(old(outbound)@), next@),
{
    let ghost all = views(outbound@);
    let mut i: usize = 0;
    while i < outbound.len()
        invariant
            i <= outbound@.len(),
            all == views(outbound@),
            all == views(old(outbound)@),
            forall|j: int| 0 <= j < i ==> !same_message(#[trigger] all[j], next@),
        decreases outbound@.len() - i,
    {
        assert(all[i as int] == outbound@[i as int]@);
        if same_pending_outbound(&outbound[i], &next) {
            let changed = PendingOutbound {
                recipient_owner: outbound[i].recipient_owner,
                remote_payload: copy_bytes(&outbound[i].remote_payload),
                local_sibling_payload: copy_optional_bytes(&outbound[i].local_sibling_payload),
                inner_event_id: outbound[i].inner_event_id.clone(),
                created_at_ms: outbound[i].created_at_ms,
                reason: next.reason,
            };
            outbound.set(i, changed);
            proof {
                lemma_queued(all, next@, i as int);
                assert(all.skip(i as int)[0] == all[i as int]);
                assert(views(outbound@) =~= queued(all, next@));
            }
            return;
        }
        i = i + 1;
    }
    proof {
        lemma_queued(all, next@, i as int);
        assert(all.skip(i as int) =~= Seq::empty());
        assert(all.take(i as int) =~= all);
        assert(all + seq![next@] =~= all.push(next@));
    }
    push_item(outbound, next);
}

/// Whether a roster is missing.
pub open spec fn lacks_roster(gaps: Seq<RelayGap>) -> bool {
    exists|i: int| 0 <= i < gaps.len() && (#[trigger] gaps[i]) is MissingRoster
}

pub open spec fn local_gaps(local: Option<PreparedSend>) -> Seq<RelayGap> {
    match local {
        Some(prepared) => prepared.relay_gaps@,
        None => Seq::empty(),
    }
}

/// What a message waits for.
pub open spec fn waits_for(remote: Seq<RelayGap>, local: Seq<RelayGap>) -> QueuedMessageStage {
    if lacks_roster(remote) || lacks_roster(local) {
        QueuedMessageStage::Discovery
    } else {
        QueuedMessageStage::Device
    }
}

fn roster_missing(gaps: &Vec<RelayGap>) -> (r: bool)
    ensures
        r == lacks_roster(gaps@),
{
    let mut i: usize = 0;
    while i < gaps.len()
        invariant
            i <= gaps@.len(),
            forall|j: int| 0 <= j < i ==> !((#[trigger] gaps@[j]) is MissingRoster),
        decreases gaps@.len() - i,
    {
        match &gaps[i] {
            RelayGap::MissingRoster { .. } => {
                assert(gaps@[i as int] is MissingRoster);
                return true;
            },
            RelayGap::MissingDeviceInvite { .. } => {},
        }
        i = i + 1;
    }
    false
}

// ---------------------------------------------------------------------------
// Sending
// ---------------------------------------------------------------------------

/// A message to an owner: what its devices get, and what the own devices get.
#[verifier::ext_equal]
pub struct Letter {
    pub recipient: OwnerPubkey,
    pub remote: Seq<u8>,
    pub local: Option<Seq<u8>>,
    pub inner: Option<Seq<char>>,
}

/// A letter that waits.
pub open spec fn waiting(letter: Letter, at: Moment, reason: QueuedMessageStage) -> OutboundModel {
    OutboundModel {
        recipient: letter.recipient,
        remote: letter.remote,
        local: letter.local,
        inner: letter.inner,
        created_at_ms: at.millis.0,
        reason,
    }
}

pub open spec fn letter_of(o: OutboundModel) -> Letter {
    Letter { recipient: o.recipient, remote: o.remote, local: o.local, inner: o.inner }
}

/// What encrypting a letter came to: for the recipient's devices, then for the
/// own ones.
pub struct Attempt {
    pub mid: ManagerModel,
    pub remote: Result<PreparedSend, Error>,
    pub local: Option<Result<PreparedSend, Error>>,
}

pub open spec fn attempted(
    before: ManagerModel,
    after: ManagerModel,
    at: Moment,
    letter: Letter,
    a: Attempt,
) -> bool {
    &&& prepares(
        before,
        a.mid,
        at.secs,
        letter.recipient,
        remote_audience(before, letter.recipient),
        letter.remote,
        a.remote,
    )
    &&& match (a.remote, letter.local) {
        (Ok(_), Some(payload)) => a.local matches Some(r) && prepares(
            a.mid,
            after,
            at.secs,
            a.mid.owner,
            sibling_audience(a.mid),
            payload,
            r,
        ),
        _ => a.local is None && after == a.mid,
    }
}

pub open spec fn outcome(a: Attempt) -> Result<(PreparedSend, Option<PreparedSend>), Error> {
    match a.remote {
        Err(e) => Err(e),
        Ok(remote) => match a.local {
            None => Ok((remote, None)),
            Some(Ok(local)) => Ok((remote, Some(local))),
            Some(Err(e)) => Err(e),
        },
    }
}

pub open spec fn deliveries_to_own(local: Option<PreparedSend>) -> Seq<Delivery> {
    match local {
        Some(prepared) => prepared.deliveries@,
        None => Seq::empty(),
    }
}

pub open spec fn responses_to_own(local: Option<PreparedSend>) -> Seq<InviteResponseEnvelope> {
    match local {
        Some(prepared) => prepared.invite_responses@,
        None => Seq::empty(),
    }
}

/// The events of a letter.
pub struct Published {
    pub remote: Seq<PublishModel>,
    pub remote_ids: Seq<Seq<char>>,
    pub local: Seq<PublishModel>,
    pub local_ids: Seq<Seq<char>>,
}

pub open spec fn publishes_letter(
    remote: PreparedSend,
    local: Option<PreparedSend>,
    inner: Option<Seq<char>>,
    p: Published,
) -> bool {
    &&& published_as(
        remote.deliveries@,
        remote.invite_responses@,
        inner,
        p.remote,
        p.remote_ids,
    )
    &&& published_as(
        deliveries_to_own(local),
        responses_to_own(local),
        inner,
        p.local,
        p.local_ids,
    )
}

/// What a letter asks for whose events are these.
pub open spec fn publishing(before: CoreModel, p: Published) -> (CoreModel, PublishResultModel) {
    let pending = p.remote + p.local;
    let mid = CoreModel { state: with_staged(before.state, pending), ..before };
    (
        sync_core(mid),
        PublishResultModel {
            event_ids: p.remote_ids + p.local_ids,
            effects: staging(before.state, pending) + sync_effects(mid),
        },
    )
}

/// What a letter comes to that was encrypted. Where something is missing, it
/// waits; else its events are published.
pub open spec fn settles(
    before: CoreModel,
    after: CoreModel,
    at: Moment,
    letter: Letter,
    remote: PreparedSend,
    local: Option<PreparedSend>,
    r: Result<RuntimePublishResult, Error>,
) -> bool {
    if remote.relay_gaps@.len() > 0 || local_gaps(local).len() > 0 {
        let next = waiting(letter, at, waits_for(remote.relay_gaps@, local_gaps(local)));
        &&& after == (CoreModel {
            state: StateModel { outbound: queued(before.state.outbound, next), ..before.state },
            ..before
        })
        &&& r matches Ok(result) && result@ == (PublishResultModel {
            event_ids: Seq::empty(),
            effects: seq![persist(after.state), refresh_core(after)],
        })
    } else {
        match r {
            Ok(result) => exists|p: Published| #[trigger]
                publishes_letter(remote, local, letter.inner, p) && publishing(before, p) == (
                    after,
                    result@,
                ),
            Err(e) => after == before && fault(e) == Fault::InvalidEvent && (unsignable(
                remote.deliveries@,
                remote.invite_responses@,
            ) || unsignable(deliveries_to_own(local), responses_to_own(local))),
        }
    }
}

/// Whether a result is that of sending a letter, for one way in which
/// encrypting it went.
pub open spec fn dispatched(
    before: CoreModel,
    after: CoreModel,
    at: Moment,
    letter: Letter,
    a: Attempt,
    r: Result<RuntimePublishResult, Error>,
) -> bool {
    &&& attempted(before.state.core, after.state.core, at, letter, a)
    &&& match outcome(a) {
        Ok((remote, local)) => settles(
            with_core(before, after.state.core),
            after,
            at,
            letter,
            remote,
            local,
            r,
        ),
        Err(e) => after == with_core(before, after.state.core) && r == Err::<
            RuntimePublishResult,
            Error,
        >(e),
    }
}

/// Whether a result is that of sending a letter.
pub open spec fn dispatches(
    before: CoreModel,
    after: CoreModel,
    at: Moment,
    letter: Letter,
    r: Result<RuntimePublishResult, Error>,
) -> bool {
    exists|a: Attempt| #[trigger] dispatched(before, after, at, letter, a, r)
}

impl RuntimeCore {
    /// Listens to the right senders.
    pub fn sync(&mut self, effects: &mut Vec<RuntimeEffect>)
        ensures
            final(self)@ == sync_core(old(self)@),
            views(final(effects)@) == views(old(effects)@) + sync_effects(old(self)@),
    {
        let next = self.state.message_authors();
        let more = sync_authors(&mut self.authors, next);
        push_items(effects, more);
    }

    /// Asks relays for what sessions are made of.
    pub fn push_refresh(&self, effects: &mut Vec<RuntimeEffect>)
        ensures
            views(final(effects)@) == views(old(effects)@).push(refresh_core(self@)),
    {
        self.state.push_protocol_subscription(self.owner, effects);
    }

    pub fn push_persist(&self, effects: &mut Vec<RuntimeEffect>)
        ensures
            views(final(effects)@) == views(old(effects)@).push(persist(self@.state)),
    {
        self.state.persist_state_effect(effects);
    }

    /// Encrypts a letter.
    fn attempt(
        &mut self,
        ctx: &mut ProtocolContext<'_>,
        recipient_owner: OwnerPubkey,
        remote_payload: Vec<u8>,
        local_sibling_payload: Option<Vec<u8>>,
        inner: Ghost<Option<Seq<char>>>,
    ) -> (r: Result<(PreparedSend, Option<PreparedSend>), Error>)
        ensures
            moment(*final(ctx)) == moment(*old(ctx)),
            final(self)@ == with_core(old(self)@, final(self)@.state.core),
            exists|a: Attempt| #[trigger]
                attempted(
                    old(self)@.state.core,
                    final(self)@.state.core,
                    moment(*old(ctx)),
                    (Letter {
                        recipient: recipient_owner,
                        remote: remote_payload@,
                        local: bytes_of(local_sibling_payload),
                        inner: inner@,
                    }),
                    a,
                ) && outcome(a) == r,
    {
        let ghost before = self@;
        let ghost at = moment(*ctx);
        let ghost letter = Letter {
            recipient: recipient_owner,
            remote: remote_payload@,
            local: bytes_of(local_sibling_payload),
            inner: inner@,
        };
        let remote = self.state.core.prepare_remote_send(ctx, recipient_owner, remote_payload);
        let ghost mid = self@.state.core;
        let remote_send = match remote {
            Ok(prepared) => prepared,
            Err(e) => {
                proof {
                    let a = Attempt { mid, remote: Err(e), local: None };
                    assert(attempted(before.state.core, self@.state.core, at, letter, a));
                }
                return Err(e);
            },
        };
        match local_sibling_payload {
            None => {
                proof {
                    let a = Attempt { mid, remote: Ok(remote_send), local: None };
                    assert(attempted(before.state.core, self@.state.core, at, letter, a));
                }
                Ok((remote_send, None))
            },
            Some(payload) => {
                let local = self.state.core.prepare_local_sibling_send(ctx, payload);
                let ghost a = Attempt { mid, remote: Ok(remote_send), local: Some(local) };
                assert(attempted(before.state.core, self@.state.core, at, letter, a));
                match local {
                    Ok(prepared) => Ok((remote_send, Some(prepared))),
                    Err(e) => Err(e),
                }
            },
        }
    }

    /// Publishes a letter that was encrypted, or lets it wait where something
    /// is missing.
    pub fn settle(
        &mut self,
        recipient_owner: OwnerPubkey,
        remote_payload: Vec<u8>,
        local_sibling_payload: Option<Vec<u8>>,
        inner_event_id: Option<String>,
        now_secs: UnixSeconds,
        now_millis: UnixMillis,
        remote: &PreparedSend,
        local: &Option<PreparedSend>,
    ) -> (r: Result<RuntimePublishResult, Error>)
        ensures
            settles(
                old(self)@,
                final(self)@,
                (Moment { secs: now_secs, millis: now_millis }),
                (Letter {
                    recipient: recipient_owner,
                    remote: remote_payload@,
                    local: bytes_of(local_sibling_payload),
                    inner: text_of(inner_event_id),
                }),
                *remote,
                *local,
                r,
            ),
    {
        let ghost before = self@;
        let mut effects: Vec<RuntimeEffect> = Vec::new();
        assert(views(effects@) =~= Seq::empty());
        let (local_gap, local_roster) = match local {
            Some(prepared) => (
                prepared.relay_gaps.len() > 0,
                roster_missing(&prepared.relay_gaps),
            ),
            None => (false, false),
        };
        if remote.relay_gaps.len() > 0 || local_gap {
            let reason = if roster_missing(&remote.relay_gaps) || local_roster {
                QueuedMessageStage::Discovery
            } else {
                QueuedMessageStage::Device
            };
            let next = PendingOutbound {
                recipient_owner,
                remote_payload,
                local_sibling_payload,
                inner_event_id,
                created_at_ms: now_millis.0,
                reason,
            };
            queue_outbound(&mut self.state.pending_outbound, next);
            self.push_persist(&mut effects);
            self.push_refresh(&mut effects);
            let result = RuntimePublishResult { event_ids: Vec::new(), effects };
            assert(result@ =~= PublishResultModel {
                event_ids: Seq::empty(),
                effects: seq![persist(self@.state), refresh_core(self@)],
            });
            return Ok(result);
        }
        let (mut pending, mut event_ids) = match prepared_publishes(
            &remote.deliveries,
            &remote.invite_responses,
            &inner_event_id,
        ) {
            Ok(made) => made,
            Err(e) => {
                return Err(e);
            },
        };
        let ghost p1 = views(pending@);
        let ghost i1 = texts(event_ids@);
        let ghost mut p2: Seq<PublishModel> = Seq::empty();
        let ghost mut i2: Seq<Seq<char>> = Seq::empty();
        assert(published_as(
            Seq::<Delivery>::empty(),
            Seq::<InviteResponseEnvelope>::empty(),
            text_of(inner_event_id),
            p2,
            i2,
        ));
        if let Some(prepared) = local {
            let (more, mut more_ids) = match prepared_publishes(
                &prepared.deliveries,
                &prepared.invite_responses,
                &inner_event_id,
            ) {
                Ok(made) => made,
                Err(e) => {
                    return Err(e);
                },
            };
            proof {
                p2 = views(more@);
                i2 = texts(more_ids@);
            }
            push_items(&mut pending, more);
            event_ids.append(&mut more_ids);
        }
        assert(views(pending@) =~= p1 + p2);
        assert(texts(event_ids@) =~= i1 + i2);
        let ghost published = Published {
            remote: p1,
            remote_ids: i1,
            local: p2,
            local_ids: i2,
        };
        assert(publishes_letter(*remote, *local, text_of(inner_event_id), published));
        let mut effects = self.state.stage_prepared_publishes(pending);
        self.sync(&mut effects);
        let result = RuntimePublishResult { event_ids, effects };
        assert(result@ =~= publishing(before, published).1);
        let r: Result<RuntimePublishResult, Error> = Ok(result);
        assert(publishing(before, published) == (self@, r->Ok_0@));
        r
    }

    /// Sends a letter.
    pub fn prepare_and_publish(
        &mut self,
        ctx: &mut ProtocolContext<'_>,
        recipient_owner: OwnerPubkey,
        remote_payload: Vec<u8>,
        local_sibling_payload: Option<Vec<u8>>,
        inner_event_id: Option<String>,
    ) -> (r: Result<RuntimePublishResult, Error>)
        ensures
            moment(*final(ctx)) == moment(*old(ctx)),
            dispatches(
                old(self)@,
                final(self)@,
                moment(*old(ctx)),
                (Letter {
                    recipient: recipient_owner,
                    remote: remote_payload@,
                    local: bytes_of(local_sibling_payload),
                    inner: text_of(inner_event_id),
                }),
                r,
            ),
    {
        let ghost before = self@;
        let ghost at = moment(*ctx);
        let ghost letter = Letter {
            recipient: recipient_owner,
            remote: remote_payload@,
            local: bytes_of(local_sibling_payload),
            inner: text_of(inner_event_id),
        };
        let tried = self.attempt(
            ctx,
            recipient_owner,
            copy_bytes(&remote_payload),
            copy_optional_bytes(&local_sibling_payload),
            Ghost(text_of(inner_event_id)),
        );
        let ghost mid = self@;
        let ghost a = choose|a: Attempt| #[trigger]
            attempted(before.state.core, mid.state.core, at, letter, a) && outcome(a) == tried;
        assert(attempted(before.state.core, mid.state.core, at, letter, a) && outcome(a) == tried);
        match tried {
            Err(e) => {
                let r: Result<RuntimePublishResult, Error> = Err(e);
                assert(dispatched(before, self@, at, letter, a, r));
                r
            },
            Ok((remote, local)) => {
                let (now_secs, now_millis) = (ctx.now_secs, ctx.now_millis);
                let r = self.settle(
                    recipient_owner,
                    remote_payload,
                    local_sibling_payload,
                    inner_event_id,
                    now_secs,
                    now_millis,
                    &remote,
                    &local,
                );
                assert(self@.state.core == mid.state.core);
                assert(dispatched(before, self@, at, letter, a, r));
                r
            },
        }
    }
}

} // verus!
