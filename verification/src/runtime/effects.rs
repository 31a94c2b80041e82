//! What the runtime asks to be done.
use vstd::prelude::*;
use super::store::{
    DecryptedModel, PendingDecryptedDelivery, PendingPreparedPublish, PublishModel, RuntimeState,
    StateModel, StoredModel, StoredRuntimeState, RUNTIME_STATE_KEY,
};
use crate::collections::{push_item, views, Replica};
use crate::event::{texts, Event, EventBody, SignedBody, UnsignedEvent};
use crate::ids::{DevicePubkey, OwnerPubkey};
use crate::invite::domain::{Filter, FilterModel};
use crate::rumor::text_of;

verus! {

#[derive(Debug)]
pub enum RuntimeEffect {
    PersistRuntimeState { key: String, value: StoredRuntimeState },
    Subscribe { subid: String, filters: Vec<Filter> },
    Unsubscribe(String),
    PublishUnsigned(UnsignedEvent),
    PublishSigned(Event),
    PublishSignedForInnerEvent {
        event: Event,
        inner_event_id: Option<String>,
        target_device_id: Option<String>,
    },
    EmitDecrypted {
        sender: OwnerPubkey,
        sender_device: Option<DevicePubkey>,
        conversation_owner: Option<OwnerPubkey>,
        content: String,
        event_id: Option<String>,
    },
}

#[verifier::ext_equal]
pub enum EffectModel {
    Persist { key: Seq<char>, value: StoredModel },
    Subscribe { subid: Seq<char>, filters: Seq<FilterModel> },
    Unsubscribe(Seq<char>),
    PublishUnsigned(EventBody),
    PublishSigned(SignedBody),
    PublishFor { event: SignedBody, inner: Option<Seq<char>>, target: Option<Seq<char>> },
    Emit {
        sender: OwnerPubkey,
        device: Option<DevicePubkey>,
        conversation: Option<OwnerPubkey>,
        content: Seq<char>,
        event_id: Option<Seq<char>>,
    },
}

impl View for RuntimeEffect {
    type V = EffectModel;

    open spec fn view(&self) -> EffectModel {
        match *self {
            RuntimeEffect::PersistRuntimeState { key, value } => EffectModel::Persist {
                key: key@,
                value: value@,
            },
            RuntimeEffect::Subscribe { subid, filters } => EffectModel::Subscribe {
                subid: subid@,
                filters: views(filters@),
            },
            RuntimeEffect::Unsubscribe(subid) => EffectModel::Unsubscribe(subid@),
            RuntimeEffect::PublishUnsigned(event) => EffectModel::PublishUnsigned(event@),
            RuntimeEffect::PublishSigned(event) => EffectModel::PublishSigned(event@),
            RuntimeEffect::PublishSignedForInnerEvent {
                event,
                inner_event_id,
                target_device_id,
            } => EffectModel::PublishFor {
                event: event@,
                inner: text_of(inner_event_id),
                target: text_of(target_device_id),
            },
            RuntimeEffect::EmitDecrypted {
                sender,
                sender_device,
                conversation_owner,
                content,
                event_id,
            } => EffectModel::Emit {
                sender,
                device: sender_device,
                conversation: conversation_owner,
                content: content@,
                event_id: text_of(event_id),
            },
        }
    }
}

/// The identifiers of what was sent, and what is to be done.
#[derive(Debug)]
pub struct RuntimePublishResult {
    pub event_ids: Vec<String>,
    pub effects: Vec<RuntimeEffect>,
}

#[verifier::ext_equal]
pub struct PublishResultModel {
    pub event_ids: Seq<Seq<char>>,
    pub effects: Seq<EffectModel>,
}

impl View for RuntimePublishResult {
    type V = PublishResultModel;

    open spec fn view(&self) -> PublishResultModel {
        PublishResultModel { event_ids: texts(self.event_ids@), effects: views(self.effects@) }
    }
}

impl Default for RuntimePublishResult {
    fn default() -> (r: Self)
        ensures
            r@ == nothing_published(),
    {
        let r = RuntimePublishResult { event_ids: Vec::new(), effects: Vec::new() };
        assert(r@ =~= nothing_published());
        r
    }
}

pub open spec fn nothing_published() -> PublishResultModel {
    PublishResultModel { event_ids: Seq::empty(), effects: Seq::empty() }
}

// ---------------------------------------------------------------------------
// Storing and publishing
// ---------------------------------------------------------------------------

/// That the state is to be stored.
pub open spec fn persist(m: StateModel) -> EffectModel {
    EffectModel::Persist { key: RUNTIME_STATE_KEY@, value: super::store::stored_of(m) }
}

/// That an event is to be published. Where it is known for which message and
/// which device, that is said too.
pub open spec fn publish(p: PublishModel) -> EffectModel {
    if p.inner is Some || p.target is Some {
        EffectModel::PublishFor { event: p.event, inner: p.inner, target: p.target }
    } else {
        EffectModel::PublishSigned(p.event)
    }
}

pub open spec fn publish_all(pending: Seq<PublishModel>) -> Seq<EffectModel> {
    Seq::new(pending.len(), |i: int| publish(pending[i]))
}

/// That a message is to be shown.
pub open spec fn emit(d: DecryptedModel) -> EffectModel {
    EffectModel::Emit {
        sender: d.sender,
        device: d.device,
        conversation: d.conversation,
        content: d.content,
        event_id: d.event_id,
    }
}

pub open spec fn emit_all(pending: Seq<DecryptedModel>) -> Seq<EffectModel> {
    Seq::new(pending.len(), |i: int| emit(pending[i]))
}

/// Some waiting events together with new ones. An event that waits already is
/// not taken twice.
pub open spec fn staged(known: Seq<PublishModel>, pending: Seq<PublishModel>) -> Seq<PublishModel>
    decreases pending.len(),
{
    if pending.len() == 0 {
        known
    } else {
        let rest = staged(known, pending.drop_last());
        let next = pending.last();
        if waits(rest, next.event.id) {
            rest
        } else {
            rest.push(next)
        }
    }
}

/// Whether an event of an identifier waits to be published.
pub open spec fn waits(known: Seq<PublishModel>, id: Seq<char>) -> bool {
    exists|i: int| 0 <= i < known.len() && (#[trigger] known[i]).event.id == id
}

/// The waiting events but for one.
pub open spec fn without_event(known: Seq<PublishModel>, id: Seq<char>) -> Seq<PublishModel>
    decreases known.len(),
{
    if known.len() == 0 {
        Seq::empty()
    } else {
        let rest = without_event(known.drop_last(), id);
        if known.last().event.id == id {
            rest
        } else {
            rest.push(known.last())
        }
    }
}

/// The waiting messages but for those that an event brought.
pub open spec fn without_delivery(known: Seq<DecryptedModel>, id: Seq<char>) -> Seq<DecryptedModel>
    decreases known.len(),
{
    if known.len() == 0 {
        Seq::empty()
    } else {
        let rest = without_delivery(known.drop_last(), id);
        if known.last().event_id == Some(id) {
            rest
        } else {
            rest.push(known.last())
        }
    }
}

/// Whether a message that an event brought waits.
pub open spec fn delivery_waits(known: Seq<DecryptedModel>, id: Seq<char>) -> bool {
    exists|i: int| 0 <= i < known.len() && (#[trigger] known[i]).event_id == Some(id)
}

/// The first waiting message that an event brought.
pub open spec fn first_delivery(known: Seq<DecryptedModel>, id: Seq<char>) -> Option<DecryptedModel>
    decreases known.len(),
{
    if known.len() == 0 {
        None
    } else {
        match first_delivery(known.drop_last(), id) {
            Some(found) => Some(found),
            None => if known.last().event_id == Some(id) {
                Some(known.last())
            } else {
                None
            },
        }
    }
}

/// A state in which new events wait.
pub open spec fn with_staged(m: StateModel, pending: Seq<PublishModel>) -> StateModel {
    StateModel { publishes: staged(m.publishes, pending), ..m }
}

/// What staging events asks for: the state is stored before anything is
/// published.
pub open spec fn staging(m: StateModel, pending: Seq<PublishModel>) -> Seq<EffectModel> {
    if pending.len() == 0 {
        Seq::empty()
    } else {
        seq![persist(with_staged(m, pending))] + publish_all(pending)
    }
}

/// A state in which a message waits to be acknowledged.
pub open spec fn with_delivery(m: StateModel, d: DecryptedModel) -> StateModel {
    if d.event_id is Some && delivery_waits(m.deliveries, d.event_id->Some_0) {
        m
    } else {
        StateModel { deliveries: m.deliveries.push(d), ..m }
    }
}

pub fn decrypted_delivery_effect(pending: &PendingDecryptedDelivery) -> (r: RuntimeEffect)
    ensures
        r@ == emit(pending@),
{
    RuntimeEffect::EmitDecrypted {
        sender: pending.sender_owner,
        sender_device: pending.sender_device,
        conversation_owner: pending.conversation_owner,
        content: pending.content.clone(),
        event_id: pending.event_id.clone(),
    }
}

pub fn prepared_publish_effect(pending: &PendingPreparedPublish) -> (r: RuntimeEffect)
    ensures
        r@ == publish(pending@),
{
    if pending.inner_event_id.is_some() || pending.target_device_id.is_some() {
        RuntimeEffect::PublishSignedForInnerEvent {
            event: pending.event.clone(),
            inner_event_id: pending.inner_event_id.clone(),
            target_device_id: pending.target_device_id.clone(),
        }
    } else {
        RuntimeEffect::PublishSigned(pending.event.clone())
    }
}

/// Adds that events are to be published.
pub fn push_publish_effects(effects: &mut Vec<RuntimeEffect>, pending: &Vec<PendingPreparedPublish>)
    ensures
        views(final(effects)@) == views(old(effects)@) + publish_all(views(pending@)),
{
    let ghost start = views(effects@);
    let ghost all = publish_all(views(pending@));
    let mut i: usize = 0;
    assert(start + all.take(0) =~= start);
    while i < pending.len()
        invariant
            i <= pending@.len(),
            all == publish_all(views(pending@)),
            views(effects@) == start + all.take(i as int),
        decreases pending@.len() - i,
    {
        push_item(effects, prepared_publish_effect(&pending[i]));
        assert((start + all.take(i as int)).push(all[i as int]) =~= start + all.take(i + 1));
        i = i + 1;
    }
    assert(all.take(i as int) =~= all);
}

/// Adds that messages are to be shown.
pub fn push_emit_effects(effects: &mut Vec<RuntimeEffect>, pending: &Vec<PendingDecryptedDelivery>)
    ensures
        views(final(effects)@) == views(old(effects)@) + emit_all(views(pending@)),
{
    let ghost start = views(effects@);
    let ghost all = emit_all(views(pending@));
    let mut i: usize = 0;
    assert(start + all.take(0) =~= start);
    while i < pending.len()
        invariant
            i <= pending@.len(),
            all == emit_all(views(pending@)),
            views(effects@) == start + all.take(i as int),
        decreases pending@.len() - i,
    {
        push_item(effects, decrypted_delivery_effect(&pending[i]));
        assert((start + all.take(i as int)).push(all[i as int]) =~= start + all.take(i + 1));
        i = i + 1;
    }
    assert(all.take(i as int) =~= all);
}

fn event_waits(known: &Vec<PendingPreparedPublish>, id: &str) -> (r: bool)
    ensures
        r == waits(views(known@), id@),
{
    let mut i: usize = 0;
    while i < known.len()
        invariant
            i <= known@.len(),
            forall|j: int| 0 <= j < i ==> (#[trigger] views(known@)[j]).event.id != id@,
        decreases known@.len() - i,
    {
        if crate::order::same_str(known[i].event.id.as_str(), id) {
            assert(views(known@)[i as int].event.id == id@);
            return true;
        }
        i = i + 1;
    }
    false
}

impl RuntimeState {
    /// Adds that the state is to be stored.
    pub fn persist_state_effect(&self, effects: &mut Vec<RuntimeEffect>)
        ensures
            views(final(effects)@) == views(old(effects)@).push(persist(self@)),
    {
        push_item(
            effects,
            RuntimeEffect::PersistRuntimeState {
                key: RUNTIME_STATE_KEY.to_string(),
                value: self.stored(),
            },
        );
    }

    /// Lets events wait until they are acknowledged, and asks for them to be
    /// published once that is stored.
    pub fn stage_prepared_publishes(&mut self, pending: Vec<PendingPreparedPublish>) -> (r: Vec<
        RuntimeEffect,
    >)
        ensures
            final(self)@ == with_staged(old(self)@, views(pending@)),
            views(r@) == staging(old(self)@, views(pending@)),
    {
        let ghost before = self@;
        let ghost all = views(pending@);
        let mut effects: Vec<RuntimeEffect> = Vec::new();
        assert(views(effects@) =~= Seq::empty());
        if pending.len() == 0 {
            return effects;
        }
        let mut i: usize = 0;
        assert(all.take(0) =~= Seq::empty());
        assert(self@ == with_staged(before, all.take(0)));
        while i < pending.len()
            invariant
                i <= pending@.len(),
                all == views(pending@),
                self@ == with_staged(before, all.take(i as int)),
            decreases pending@.len() - i,
        {
            let ghost prior = self@;
            assert(all.take(i + 1).drop_last() =~= all.take(i as int));
            if !event_waits(&self.pending_prepared_publishes, pending[i].event.id.as_str()) {
                push_item(&mut self.pending_prepared_publishes, pending[i].replica());
            }
            assert(self@ == with_staged(before, all.take(i + 1)));
            i = i + 1;
        }
        assert(all.take(i as int) =~= all);
        self.persist_state_effect(&mut effects);
        push_publish_effects(&mut effects, &pending);
        assert(views(effects@) =~= staging(before, all));
        effects
    }

    /// Lets a message wait until it is acknowledged, and asks for it to be
    /// shown once that is stored.
    pub fn stage_pending_decrypted_delivery(&mut self, pending: PendingDecryptedDelivery) -> (r:
        Vec<RuntimeEffect>)
        ensures
            final(self)@ == with_delivery(old(self)@, pending@),
            views(r@) == seq![persist(final(self)@), emit(pending@)],
    {
        let already = match &pending.event_id {
            Some(id) => self.delivery_of(id.as_str()).is_some(),
            None => false,
        };
        let effect = decrypted_delivery_effect(&pending);
        if !already {
            push_item(&mut self.pending_decrypted_deliveries, pending);
        }
        let mut effects: Vec<RuntimeEffect> = Vec::new();
        assert(views(effects@) =~= Seq::empty());
        self.persist_state_effect(&mut effects);
        push_item(&mut effects, effect);
        assert(views(effects@) =~= seq![persist(self@), emit(pending@)]);
        effects
    }

    /// The first waiting message that an event brought.
    pub fn delivery_of(&self, event_id: &str) -> (r: Option<&PendingDecryptedDelivery>)
        ensures
            match r {
                Some(found) => first_delivery(self@.deliveries, event_id@) == Some(found@)
                    && delivery_waits(self@.deliveries, event_id@),
                None => first_delivery(self@.deliveries, event_id@) is None && !delivery_waits(
                    self@.deliveries,
                    event_id@,
                ),
            },
    {
        let ghost all = self@.deliveries;
        let mut i: usize = 0;
        assert(all.take(0) =~= Seq::empty());
        while i < self.pending_decrypted_deliveries.len()
            invariant
                i <= self.pending_decrypted_deliveries@.len(),
                all == views(self.pending_decrypted_deliveries@),
                first_delivery(all.take(i as int), event_id@) is None,
                forall|j: int| 0 <= j < i ==> (#[trigger] all[j]).event_id != Some(event_id@),
            decreases self.pending_decrypted_deliveries@.len() - i,
        {
            assert(all.take(i + 1).drop_last() =~= all.take(i as int));
            let pending = &self.pending_decrypted_deliveries[i];
            assert(pending@ == all[i as int]);
            if let Some(id) = &pending.event_id {
                if crate::order::same_str(id.as_str(), event_id) {
                    proof {
                        lemma_first_delivery(all, i + 1, event_id@);
                    }
                    return Some(pending);
                }
            }
            i = i + 1;
        }
        assert(all.take(i as int) =~= all);
        None
    }

    /// Takes an event off those that wait to be published.
    pub fn forget_publish(&mut self, event_id: &str) -> (r: bool)
        ensures
            final(self)@ == (StateModel {
                publishes: without_event(old(self)@.publishes, event_id@),
                ..old(self)@
            }),
            r == waits(old(self)@.publishes, event_id@),
    {
        let ghost before = self@;
        let ghost all = self@.publishes;
        let mut known: Vec<PendingPreparedPublish> = Vec::new();
        std::mem::swap(&mut known, &mut self.pending_prepared_publishes);
        let mut kept: Vec<PendingPreparedPublish> = Vec::new();
        let mut found = false;
        let mut i: usize = 0;
        assert(all.take(0) =~= Seq::empty());
        assert(views(kept@) =~= Seq::empty());
        while i < known.len()
            invariant
                i <= known@.len(),
                all == views(known@),
                views(kept@) == without_event(all.take(i as int), event_id@),
                found == waits(all.take(i as int), event_id@),
            decreases known@.len() - i,
        {
            let ghost less = all.take(i as int);
            let ghost more = all.take(i + 1);
            assert(more.drop_last() =~= less);
            assert(more.last() == known@[i as int]@);
            proof {
                assert(more =~= less.push(more.last()));
                lemma_waits_push(less, more.last(), event_id@);
            }
            if crate::order::same_str(known[i].event.id.as_str(), event_id) {
                found = true;
            } else {
                push_item(&mut kept, known[i].replica());
            }
            i = i + 1;
        }
        assert(all.take(i as int) =~= all);
        self.pending_prepared_publishes = kept;
        found
    }

    /// Takes the messages that an event brought off those that wait.
    pub fn forget_delivery(&mut self, event_id: &str) -> (r: bool)
        ensures
            final(self)@ == (StateModel {
                deliveries: without_delivery(old(self)@.deliveries, event_id@),
                ..old(self)@
            }),
            r == delivery_waits(old(self)@.deliveries, event_id@),
    {
        let ghost before = self@;
        let ghost all = self@.deliveries;
        let mut known: Vec<PendingDecryptedDelivery> = Vec::new();
        std::mem::swap(&mut known, &mut self.pending_decrypted_deliveries);
        let mut kept: Vec<PendingDecryptedDelivery> = Vec::new();
        let mut found = false;
        let mut i: usize = 0;
        assert(all.take(0) =~= Seq::empty());
        assert(views(kept@) =~= Seq::empty());
        while i < known.len()
            invariant
                i <= known@.len(),
                all == views(known@),
                views(kept@) == without_delivery(all.take(i as int), event_id@),
                found == delivery_waits(all.take(i as int), event_id@),
            decreases known@.len() - i,
        {
            let ghost less = all.take(i as int);
            let ghost more = all.take(i + 1);
            assert(more.drop_last() =~= less);
            assert(more.last() == known@[i as int]@);
            proof {
                assert(more =~= less.push(more.last()));
                lemma_delivery_push(less, more.last(), event_id@);
            }
            let same = match &known[i].event_id {
                Some(id) => crate::order::same_str(id.as_str(), event_id),
                None => false,
            };
            if same {
                found = true;
            } else {
                push_item(&mut kept, known[i].replica());
            }
            i = i + 1;
        }
        assert(all.take(i as int) =~= all);
        self.pending_decrypted_deliveries = kept;
        found
    }
}

proof fn lemma_first_delivery(known: Seq<DecryptedModel>, n: int, id: Seq<char>)
    requires
        0 <= n <= known.len(),
        first_delivery(known.take(n), id) is Some,
    ensures
        first_delivery(known, id) == first_delivery(known.take(n), id),
    decreases known.len() - n,
{
    if n < known.len() {
        assert(known.take(n + 1).drop_last() =~= known.take(n));
        lemma_first_delivery(known, n + 1, id);
    } else {
        assert(known.take(n) =~= known);
    }
}

// ---------------------------------------------------------------------------
// What holds of waiting events and messages
// ---------------------------------------------------------------------------

/// What staging asks for comes in order: the state is stored first, with every
/// event in it that is published afterwards.
pub proof fn stored_before_published(m: StateModel, pending: Seq<PublishModel>)
    requires
        pending.len() > 0,
    ensures
        staging(m, pending)[0] == persist(with_staged(m, pending)),
        forall|i: int|
            0 < i < staging(m, pending).len() ==> staging(m, pending)[i] == publish(pending[i - 1]),
        forall|i: int|
            0 <= i < pending.len() ==> waits(
                with_staged(m, pending).publishes,
                (#[trigger] pending[i]).event.id,
            ),
    decreases pending.len(),
{
    assert forall|i: int| 0 <= i < pending.len() implies waits(
        with_staged(m, pending).publishes,
        (#[trigger] pending[i]).event.id,
    ) by {
        lemma_staged_waits(m.publishes, pending, i);
    }
}

proof fn lemma_staged_waits(known: Seq<PublishModel>, pending: Seq<PublishModel>, i: int)
    requires
        0 <= i < pending.len(),
    ensures
        waits(staged(known, pending), pending[i].event.id),
    decreases pending.len(),
{
    let rest = staged(known, pending.drop_last());
    let all = staged(known, pending);
    if i == pending.len() - 1 {
        if !waits(rest, pending[i].event.id) {
            assert(all[rest.len() as int].event.id == pending[i].event.id);
        }
    } else {
        lemma_staged_waits(known, pending.drop_last(), i);
        assert(pending.drop_last()[i] == pending[i]);
        let j = choose|j: int|
            0 <= j < rest.len() && (#[trigger] rest[j]).event.id == pending[i].event.id;
        assert(all[j].event.id == pending[i].event.id);
    }
}

/// Once an event is acknowledged it no longer waits, and all others still do.
pub proof fn acknowledged_events_leave(known: Seq<PublishModel>, id: Seq<char>, other: Seq<char>)
    ensures
        !waits(without_event(known, id), id),
        other != id ==> waits(without_event(known, id), other) == waits(known, other),
    decreases known.len(),
{
    if known.len() > 0 {
        acknowledged_events_leave(known.drop_last(), id, other);
        let rest = without_event(known.drop_last(), id);
        let all = without_event(known, id);
        assert(known =~= known.drop_last().push(known.last()));
        lemma_waits_push(rest, known.last(), id);
        lemma_waits_push(rest, known.last(), other);
        lemma_waits_push(known.drop_last(), known.last(), other);
    }
}

proof fn lemma_waits_push(known: Seq<PublishModel>, p: PublishModel, id: Seq<char>)
    ensures
        waits(known.push(p), id) == (waits(known, id) || p.event.id == id),
{
    let all = known.push(p);
    if waits(known, id) {
        let j = choose|j: int| 0 <= j < known.len() && (#[trigger] known[j]).event.id == id;
        assert(all[j].event.id == id);
    }
    if p.event.id == id {
        assert(all[known.len() as int].event.id == id);
    }
    if waits(all, id) {
        let j = choose|j: int| 0 <= j < all.len() && (#[trigger] all[j]).event.id == id;
        if j < known.len() {
            assert(known[j].event.id == id);
        }
    }
}

/// Once a message is acknowledged it no longer waits, and all others still do.
pub proof fn acknowledged_messages_leave(known: Seq<DecryptedModel>, id: Seq<char>, other: Seq<char>)
    ensures
        !delivery_waits(without_delivery(known, id), id),
        other != id ==> delivery_waits(without_delivery(known, id), other) == delivery_waits(
            known,
            other,
        ),
    decreases known.len(),
{
    if known.len() > 0 {
        acknowledged_messages_leave(known.drop_last(), id, other);
        let rest = without_delivery(known.drop_last(), id);
        assert(known =~= known.drop_last().push(known.last()));
        lemma_delivery_push(rest, known.last(), id);
        lemma_delivery_push(rest, known.last(), other);
        lemma_delivery_push(known.drop_last(), known.last(), other);
    }
}

proof fn lemma_delivery_push(known: Seq<DecryptedModel>, d: DecryptedModel, id: Seq<char>)
    ensures
        delivery_waits(known.push(d), id) == (delivery_waits(known, id) || d.event_id == Some(id)),
{
    let all = known.push(d);
    if delivery_waits(known, id) {
        let j = choose|j: int| 0 <= j < known.len() && (#[trigger] known[j]).event_id == Some(id);
        assert(all[j].event_id == Some(id));
    }
    if d.event_id == Some(id) {
        assert(all[known.len() as int].event_id == Some(id));
    }
    if delivery_waits(all, id) {
        let j = choose|j: int| 0 <= j < all.len() && (#[trigger] all[j]).event_id == Some(id);
        if j < known.len() {
            assert(known[j].event_id == Some(id));
        }
    }
}

/// Acknowledging an event takes off just what waits under its identifier, in
/// place, and acknowledging it again changes nothing.
pub proof fn acknowledging_events_twice_is_once(known: Seq<PublishModel>, id: Seq<char>)
    ensures
        without_event(known, id) == known.filter(|p: PublishModel| p.event.id != id),
        without_event(without_event(known, id), id) == without_event(known, id),
        !waits(without_event(known, id), id),
    decreases known.len(),
{
    reveal(Seq::filter);
    acknowledged_events_leave(known, id, id);
    if known.len() > 0 {
        let fewer = known.drop_last();
        acknowledging_events_twice_is_once(fewer, id);
        let rest = without_event(fewer, id);
        assert(rest.push(known.last()).drop_last() =~= rest);
    }
}

/// Acknowledging a message takes off just what waits under its event, in
/// place, and acknowledging it again changes nothing.
pub proof fn acknowledging_messages_twice_is_once(known: Seq<DecryptedModel>, id: Seq<char>)
    ensures
        without_delivery(known, id) == known.filter(|d: DecryptedModel| d.event_id != Some(id)),
        without_delivery(without_delivery(known, id), id) == without_delivery(known, id),
        !delivery_waits(without_delivery(known, id), id),
    decreases known.len(),
{
    reveal(Seq::filter);
    acknowledged_messages_leave(known, id, id);
    if known.len() > 0 {
        let fewer = known.drop_last();
        acknowledging_messages_twice_is_once(fewer, id);
        let rest = without_delivery(fewer, id);
        assert(rest.push(known.last()).drop_last() =~= rest);
    }
}

} // verus!
