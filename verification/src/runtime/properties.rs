//! What holds of the runtime, whatever is sent and received.
use vstd::prelude::*;
use super::effects::{
    delivery_waits, emit, first_delivery, persist, publish, publish_all, staged, staging, waits,
    with_delivery, with_staged, without_delivery, EffectModel, RuntimePublishResult,
};
use super::inbox::{
    decrypts, hears_message, ingests, kept, message_owner, opened_then, opening_step, opens,
    opens_and_reacts, opens_some, outdated, processes_event, roster_of_keys, shown_message,
    unacknowledged, with_inbound, with_keys, with_kept, OpeningTrace,
};
use super::outbox::{
    dispatched, dispatches, letter_of, local_gaps, outcome, published_as, publishes_letter, queued,
    refresh_core, same_message, sync_core, sync_effects, waiting, waits_for, with_core, Attempt, CoreModel, Letter, Moment,
    Published,
};
use super::retry::{
    breaks_at, fanout_effects, fanout_step, fans_out_again, reacts, reacts_by, retries, retries_fanouts, retries_outbound,
    retry_step, with_failed, with_failed_fanouts, without_fanouts, without_outbound, FanoutOutcome,
    FanoutTrace, RetryTrace,
};
use super::replays;
use super::store::{
    loaded_state, stored_of, DecryptedModel, FanoutGoal, FanoutModel, OutboundModel, PublishModel,
    StateModel,
};
use crate::app_keys::AppKeysModel;
use crate::codec::nostr::message_of_event;
use crate::error::{fault, Error, Fault};
use crate::event::SignedBody;
use crate::ids::{DevicePubkey, OwnerPubkey};
use crate::roster::next_roster;
use crate::session_manager::order::{orderly, rosters_decide};
use crate::session_manager::{
    listening_device, previous_devices, user_or_fresh, ManagerModel, PreparedSend, ReceivedMessage,
};
use crate::types::MESSAGE_EVENT_KIND;

verus! {

// ---------------------------------------------------------------------------
// Messages that wait to be sent
// ---------------------------------------------------------------------------

/// Whether a message waits.
pub open spec fn waits_in(outbound: Seq<OutboundModel>, message: OutboundModel) -> bool {
    exists|i: int| 0 <= i < outbound.len() && same_message(#[trigger] outbound[i], message)
}

/// Whether everything of a list is in another.
pub open spec fn all_in(few: Seq<EffectModel>, many: Seq<EffectModel>) -> bool {
    forall|i: int| 0 <= i < few.len() ==> many.contains(#[trigger] few[i])
}

/// Whether a message was encrypted for its recipient, nothing was missing, and
/// all its events are to be published.
pub open spec fn sent_with(
    message: OutboundModel,
    effects: Seq<EffectModel>,
    remote: PreparedSend,
    local: Option<PreparedSend>,
    p: Published,
) -> bool {
    &&& publishes_letter(remote, local, message.inner, p)
    &&& remote.recipient_owner == message.recipient
    &&& remote.payload@ == message.remote
    &&& remote.relay_gaps@.len() == 0
    &&& local_gaps(local).len() == 0
    &&& all_in(publish_all(p.remote + p.local), effects)
}

pub open spec fn was_sent(message: OutboundModel, effects: Seq<EffectModel>) -> bool {
    exists|remote: PreparedSend, local: Option<PreparedSend>, p: Published| #[trigger]
        sent_with(message, effects, remote, local, p)
}

proof fn lemma_queued_waits(outbound: Seq<OutboundModel>, next: OutboundModel, message: OutboundModel)
    requires
        waits_in(outbound, message) || same_message(next, message),
    ensures
        waits_in(queued(outbound, next), message),
    decreases outbound.len(),
{
    let all = queued(outbound, next);
    if outbound.len() == 0 {
        assert(same_message(all[0], message));
    } else if same_message(outbound[0], next) {
        if same_message(next, message) {
            assert(same_message(all[0], message));
        } else {
            let i = choose|i: int|
                0 <= i < outbound.len() && same_message(#[trigger] outbound[i], message);
            assert(same_message(all[i], message));
        }
    } else {
        let rest = outbound.drop_first();
        if waits_in(outbound, message) {
            let i = choose|i: int|
                0 <= i < outbound.len() && same_message(#[trigger] outbound[i], message);
            if i == 0 {
                assert(same_message(all[0], message));
                return;
            }
            assert(rest[i - 1] == outbound[i]);
            assert(waits_in(rest, message));
        }
        lemma_queued_waits(rest, next, message);
        let more = queued(rest, next);
        let j = choose|j: int| 0 <= j < more.len() && same_message(#[trigger] more[j], message);
        assert(all[j + 1] == more[j]);
    }
}

/// Sending one message takes no other off those that wait.
pub proof fn sending_keeps_waiting_messages(
    before: CoreModel,
    after: CoreModel,
    at: Moment,
    letter: Letter,
    r: Result<RuntimePublishResult, Error>,
    message: OutboundModel,
)
    requires
        dispatches(before, after, at, letter, r),
        waits_in(before.state.outbound, message),
    ensures
        waits_in(after.state.outbound, message),
{
    let a = choose|a: Attempt| #[trigger] dispatched(before, after, at, letter, a, r);
    if outcome(a) is Ok {
        let (remote, local) = outcome(a)->Ok_0;
        if remote.relay_gaps@.len() > 0 || local_gaps(local).len() > 0 {
            lemma_queued_waits(
                before.state.outbound,
                waiting(letter, at, waits_for(remote.relay_gaps@, local_gaps(local))),
                message,
            );
        }
    }
}

/// A message that was accepted waits, or its events are to be published.
pub proof fn accepted_messages_wait_or_are_sent(
    before: CoreModel,
    after: CoreModel,
    at: Moment,
    message: OutboundModel,
    r: Result<RuntimePublishResult, Error>,
)
    requires
        dispatches(before, after, at, letter_of(message), r),
        r is Ok,
    ensures
        waits_in(after.state.outbound, message) || was_sent(message, r->Ok_0@.effects),
{
    let letter = letter_of(message);
    let a = choose|a: Attempt| #[trigger] dispatched(before, after, at, letter, a, r);
    assert(outcome(a) is Ok);
    let (remote, local) = outcome(a)->Ok_0;
    if remote.relay_gaps@.len() > 0 || local_gaps(local).len() > 0 {
        let next = waiting(letter, at, waits_for(remote.relay_gaps@, local_gaps(local)));
        assert(same_message(next, message));
        lemma_queued_waits(before.state.outbound, next, message);
    } else {
        let mid = with_core(before, after.state.core);
        let p = choose|p: Published| #[trigger]
            publishes_letter(remote, local, letter.inner, p) && super::outbox::publishing(mid, p)
                == (after, r->Ok_0@);
        let pending = p.remote + p.local;
        let wanted = publish_all(pending);
        let effects = r->Ok_0@.effects;
        assert forall|i: int| 0 <= i < wanted.len() implies effects.contains(
            #[trigger] wanted[i],
        ) by {
            assert(staging(mid.state, pending)[i + 1] == wanted[i]);
            assert(effects[i + 1] == wanted[i]);
        }
        assert(sent_with(message, effects, remote, local, p));
    }
}

proof fn lemma_sent_stays(message: OutboundModel, few: Seq<EffectModel>, many: Seq<EffectModel>)
    requires
        was_sent(message, few),
        all_in(few, many),
    ensures
        was_sent(message, many),
{
    let (remote, local, p) = choose|
        remote: PreparedSend,
        local: Option<PreparedSend>,
        p: Published,
    | #[trigger] sent_with(message, few, remote, local, p);
    let wanted = publish_all(p.remote + p.local);
    assert forall|i: int| 0 <= i < wanted.len() implies many.contains(#[trigger] wanted[i]) by {
        let j = choose|j: int| 0 <= j < few.len() && few[j] == wanted[i];
        assert(many.contains(few[j]));
    }
    assert(sent_with(message, many, remote, local, p));
}

proof fn lemma_retries(
    start: CoreModel,
    at: Moment,
    messages: Seq<OutboundModel>,
    t: RetryTrace,
    i: int,
)
    requires
        retries(start, at, messages, t),
        0 <= i < messages.len(),
    ensures
        waits_in(t.core.state.outbound, messages[i]) || t.failed.contains(messages[i]) || was_sent(
            messages[i],
            t.effects,
        ),
    decreases messages.len(),
{
    let (prev, r) = choose|prev: RetryTrace, r: Result<RuntimePublishResult, Error>| #[trigger]
        retry_step(at, messages.last(), prev, t, r) && retries(
            start,
            at,
            messages.drop_last(),
            prev,
        );
    let message = messages[i];
    if i == messages.len() - 1 {
        if r is Ok {
            accepted_messages_wait_or_are_sent(prev.core, t.core, at, message, r);
            if was_sent(message, r->Ok_0@.effects) {
                assert forall|j: int| 0 <= j < r->Ok_0@.effects.len() implies t.effects.contains(
                    #[trigger] r->Ok_0@.effects[j],
                ) by {
                    assert(t.effects[prev.effects.len() + j] == r->Ok_0@.effects[j]);
                }
                lemma_sent_stays(message, r->Ok_0@.effects, t.effects);
            }
        } else {
            assert(t.failed[prev.failed.len() as int] == message);
        }
    } else {
        assert(messages.drop_last()[i] == message);
        lemma_retries(start, at, messages.drop_last(), prev, i);
        if waits_in(prev.core.state.outbound, message) {
            sending_keeps_waiting_messages(
                prev.core,
                t.core,
                at,
                letter_of(messages.last()),
                r,
                message,
            );
        } else if prev.failed.contains(message) {
            let j = choose|j: int| 0 <= j < prev.failed.len() && prev.failed[j] == message;
            assert(t.failed[j] == message);
        } else {
            assert forall|j: int| 0 <= j < prev.effects.len() implies t.effects.contains(
                #[trigger] prev.effects[j],
            ) by {
                assert(t.effects[j] == prev.effects[j]);
            }
            lemma_sent_stays(message, prev.effects, t.effects);
        }
    }
}

/// No waiting message is lost when all are tried again: each of them waits
/// afterwards, or its events are to be published.
pub proof fn retrying_loses_no_message(
    before: CoreModel,
    after: CoreModel,
    at: Moment,
    effects: Seq<EffectModel>,
    i: int,
)
    requires
        retries_outbound(before, after, at, effects),
        0 <= i < before.state.outbound.len(),
    ensures
        waits_in(after.state.outbound, before.state.outbound[i]) || was_sent(
            before.state.outbound[i],
            effects,
        ),
{
    let message = before.state.outbound[i];
    let t = choose|t: RetryTrace| #[trigger]
        retries(without_outbound(before), at, before.state.outbound, t) && after == with_failed(t)
            && effects == t.effects.push(persist(after.state));
    lemma_retries(without_outbound(before), at, before.state.outbound, t, i);
    let all = after.state.outbound;
    if waits_in(t.core.state.outbound, message) {
        let j = choose|j: int|
            0 <= j < t.core.state.outbound.len() && same_message(
                #[trigger] t.core.state.outbound[j],
                message,
            );
        assert(all[j] == t.core.state.outbound[j]);
    } else if t.failed.contains(message) {
        let j = choose|j: int| 0 <= j < t.failed.len() && t.failed[j] == message;
        assert(all[t.core.state.outbound.len() + j] == message);
        assert(same_message(message, message));
    } else {
        assert forall|j: int| 0 <= j < t.effects.len() implies effects.contains(
            #[trigger] t.effects[j],
        ) by {
            assert(effects[j] == t.effects[j]);
        }
        lemma_sent_stays(message, t.effects, effects);
    }
}

/// Whether something of a group was encrypted for those it has to reach,
/// nothing was missing, and all its events are to be published.
pub open spec fn told_with(
    f: FanoutModel,
    effects: Seq<EffectModel>,
    sent: PreparedSend,
    pending: Seq<PublishModel>,
    ids: Seq<Seq<char>>,
) -> bool {
    &&& published_as(sent.deliveries@, sent.invite_responses@, f.inner, pending, ids)
    &&& sent.payload@ == match f.goal {
        FanoutGoal::Remote(_, payload) => payload,
        FanoutGoal::LocalSiblings(payload) => payload,
    }
    &&& sent.relay_gaps@.len() == 0
    &&& all_in(publish_all(pending), effects)
}

pub open spec fn was_told(f: FanoutModel, effects: Seq<EffectModel>) -> bool {
    exists|sent: PreparedSend, pending: Seq<PublishModel>, ids: Seq<Seq<char>>| #[trigger]
        told_with(f, effects, sent, pending, ids)
}

proof fn lemma_told_stays(f: FanoutModel, few: Seq<EffectModel>, many: Seq<EffectModel>)
    requires
        was_told(f, few),
        all_in(few, many),
    ensures
        was_told(f, many),
{
    let (sent, pending, ids) = choose|
        sent: PreparedSend,
        pending: Seq<PublishModel>,
        ids: Seq<Seq<char>>,
    | #[trigger] told_with(f, few, sent, pending, ids);
    let wanted = publish_all(pending);
    assert forall|i: int| 0 <= i < wanted.len() implies many.contains(#[trigger] wanted[i]) by {
        let j = choose|j: int| 0 <= j < few.len() && few[j] == wanted[i];
        assert(many.contains(few[j]));
    }
    assert(told_with(f, many, sent, pending, ids));
}

proof fn lemma_fans_out(
    start: CoreModel,
    at: Moment,
    fanouts: Seq<FanoutModel>,
    t: FanoutTrace,
    i: int,
)
    requires
        fans_out_again(start, at, fanouts, t),
        0 <= i < fanouts.len(),
    ensures
        t.failed.contains(fanouts[i]) || was_told(fanouts[i], t.effects),
    decreases fanouts.len(),
{
    let (prev, o) = choose|prev: FanoutTrace, o: FanoutOutcome| #[trigger]
        fanout_step(at, fanouts.last(), prev, t, o) && fans_out_again(
            start,
            at,
            fanouts.drop_last(),
            prev,
        );
    let f = fanouts[i];
    if i == fanouts.len() - 1 {
        if o.sent is Err || o.sent->Ok_0.relay_gaps@.len() > 0 {
            assert(t.failed[prev.failed.len() as int] == f);
        } else {
            let mid = with_core(prev.core, t.core.state.core);
            let wanted = publish_all(o.pending);
            assert forall|j: int| 0 <= j < wanted.len() implies t.effects.contains(
                #[trigger] wanted[j],
            ) by {
                assert(staging(mid.state, o.pending)[j + 1] == wanted[j]);
                assert(t.effects[prev.effects.len() + j + 1] == wanted[j]);
            }
            assert(told_with(f, t.effects, o.sent->Ok_0, o.pending, o.ids));
        }
    } else {
        assert(fanouts.drop_last()[i] == f);
        lemma_fans_out(start, at, fanouts.drop_last(), prev, i);
        if prev.failed.contains(f) {
            let j = choose|j: int| 0 <= j < prev.failed.len() && prev.failed[j] == f;
            assert(t.failed[j] == f);
        } else {
            assert forall|j: int| 0 <= j < prev.effects.len() implies t.effects.contains(
                #[trigger] prev.effects[j],
            ) by {
                assert(t.effects[j] == prev.effects[j]);
            }
            lemma_told_stays(f, prev.effects, t.effects);
        }
    }
}

/// Nothing that a group has still to be told is lost when all is tried again:
/// it waits afterwards, or its events are to be published.
pub proof fn retrying_loses_no_fanout(
    before: CoreModel,
    after: CoreModel,
    at: Moment,
    effects: Seq<EffectModel>,
    i: int,
)
    requires
        retries_fanouts(before, after, at, Ok::<Seq<EffectModel>, Error>(effects)),
        0 <= i < before.state.fanouts.len(),
    ensures
        after.state.fanouts.contains(before.state.fanouts[i]) || was_told(
            before.state.fanouts[i],
            effects,
        ),
{
    let f = before.state.fanouts[i];
    let t = choose|t: FanoutTrace| #[trigger]
        fans_out_again(without_fanouts(before), at, before.state.fanouts, t) && after == sync_core(
            with_failed_fanouts(t),
        ) && effects == fanout_effects(t);
    lemma_fans_out(without_fanouts(before), at, before.state.fanouts, t, i);
    if t.failed.contains(f) {
        let j = choose|j: int| 0 <= j < t.failed.len() && t.failed[j] == f;
        assert(after.state.fanouts[t.core.state.fanouts.len() + j] == f);
    } else {
        assert forall|j: int| 0 <= j < t.effects.len() implies effects.contains(
            #[trigger] t.effects[j],
        ) by {
            assert(effects[j] == t.effects[j]);
        }
        lemma_told_stays(f, t.effects, effects);
    }
}

// ---------------------------------------------------------------------------
// Messages that were received
// ---------------------------------------------------------------------------

proof fn lemma_first_of_delivery(known: Seq<DecryptedModel>, id: Seq<char>)
    ensures
        first_delivery(known, id) is Some == delivery_waits(known, id),
    decreases known.len(),
{
    if known.len() > 0 {
        let rest = known.drop_last();
        lemma_first_of_delivery(rest, id);
        if delivery_waits(rest, id) {
            let j = choose|j: int|
                0 <= j < rest.len() && (#[trigger] rest[j]).event_id == Some(id);
            assert(known[j].event_id == Some(id));
        }
        if delivery_waits(known, id) {
            let j = choose|j: int|
                0 <= j < known.len() && (#[trigger] known[j]).event_id == Some(id);
            if j < rest.len() {
                assert(rest[j].event_id == Some(id));
            }
        }
    }
}

/// What a message that was taken in asks for comes in order: the state is
/// stored first, and a message that is shown waits in it.
pub proof fn stored_before_shown(
    before: CoreModel,
    after: CoreModel,
    at: Moment,
    event: SignedBody,
    effects: Seq<EffectModel>,
    i: int,
)
    requires
        hears_message(before, after, at, event, Ok::<Seq<EffectModel>, Error>(effects)),
        0 <= i < effects.len(),
    ensures
        effects[0] == persist(after.state),
        i > 0 ==> delivery_waits(after.state.deliveries, event.id) && exists|d: DecryptedModel|
            d.event_id == Some(event.id) && effects[i] == #[trigger] emit(d),
{
    let r = Ok::<Seq<EffectModel>, Error>(effects);
    let (mid, found) = choose|mid: CoreModel, found: Result<Option<Seq<EffectModel>>, Error>|
        #[trigger]
        opens(before, mid, at, event, found) && match found {
            Err(e) => after == mid && r == Err::<Seq<EffectModel>, Error>(e),
            Ok(Some(all)) => after == mid && r == Ok::<Seq<EffectModel>, Error>(all),
            Ok(None) => after == with_kept(mid, event) && r == Ok::<Seq<EffectModel>, Error>(
                if kept(mid.state, event.id) {
                    Seq::empty()
                } else {
                    seq![persist(after.state)]
                },
            ),
        };
    if found is Ok && found->Ok_0 is Some {
        let envelope = message_of_event(event)->Some_0;
        let (core, message) = choose|
            core: ManagerModel,
            message: Result<Option<ReceivedMessage>, Error>,
        | #[trigger]
            decrypts(before, mid, at, envelope, event.id, core, message, found);
        let d = shown_message(message->Ok_0->Some_0, event.id, at);
        let less = with_core(before, core).state;
        if !delivery_waits(less.deliveries, event.id) {
            assert(after.state.deliveries[less.deliveries.len() as int] == d);
        }
        assert(effects[1] == emit(d));
    }
}

/// Who a message is from, the session says that listens to its sender; nothing
/// in the message can make it another's.
pub proof fn sessions_tell_who_wrote(
    before: CoreModel,
    after: CoreModel,
    at: Moment,
    event: SignedBody,
    effects: Seq<EffectModel>,
    i: int,
)
    requires
        hears_message(before, after, at, event, Ok::<Seq<EffectModel>, Error>(effects)),
        0 < i < effects.len(),
    ensures
        effects[i] is Emit,
        effects[i]->sender == message_owner(before.state.core, event.body.pubkey),
        effects[i]->event_id == Some(event.id),
{
    stored_before_shown(before, after, at, event, effects, i);
    let r = Ok::<Seq<EffectModel>, Error>(effects);
    let (mid, found) = choose|mid: CoreModel, found: Result<Option<Seq<EffectModel>>, Error>|
        #[trigger]
        opens(before, mid, at, event, found) && match found {
            Err(e) => after == mid && r == Err::<Seq<EffectModel>, Error>(e),
            Ok(Some(all)) => after == mid && r == Ok::<Seq<EffectModel>, Error>(all),
            Ok(None) => after == with_kept(mid, event) && r == Ok::<Seq<EffectModel>, Error>(
                if kept(mid.state, event.id) {
                    Seq::empty()
                } else {
                    seq![persist(after.state)]
                },
            ),
        };
    let envelope = message_of_event(event)->Some_0;
    let (core, message) = choose|
        core: ManagerModel,
        message: Result<Option<ReceivedMessage>, Error>,
    | #[trigger]
        decrypts(before, mid, at, envelope, event.id, core, message, found);
    assert(effects[i] == emit(shown_message(message->Ok_0->Some_0, event.id, at)));
}

/// An event that carries no message, though it is of that kind, changes
/// nothing.
pub proof fn malformed_messages_change_nothing(
    before: CoreModel,
    after: CoreModel,
    at: Moment,
    event: SignedBody,
    r: Result<Seq<EffectModel>, Error>,
)
    requires
        processes_event(before, after, at, event, r),
        event.body.kind == MESSAGE_EVENT_KIND,
        message_of_event(event) is None,
        unacknowledged(before.state, event) is None,
    ensures
        after == before,
        r matches Err(e) && fault(e) == Fault::InvalidEvent,
{
}

/// A message that was decrypted is shown again when its event comes again,
/// until it is acknowledged.
pub proof fn messages_are_shown_until_acknowledged(
    m: StateModel,
    d: DecryptedModel,
    event: SignedBody,
)
    requires
        d.event_id == Some(event.id),
        event.body.kind == MESSAGE_EVENT_KIND,
    ensures
        unacknowledged(with_delivery(m, d), event) is Some,
        unacknowledged(
            (StateModel {
                deliveries: without_delivery(with_delivery(m, d).deliveries, event.id),
                ..with_delivery(m, d)
            }),
            event,
        ) is None,
{
    let after = with_delivery(m, d);
    if !delivery_waits(m.deliveries, event.id) {
        assert(after.deliveries[m.deliveries.len() as int] == d);
    }
    assert(delivery_waits(after.deliveries, event.id));
    lemma_first_of_delivery(after.deliveries, event.id);
    super::effects::acknowledged_messages_leave(after.deliveries, event.id, event.id);
    lemma_first_of_delivery(without_delivery(after.deliveries, event.id), event.id);
}

/// While a message waits to be acknowledged, its event changes nothing, however
/// often it comes.
pub proof fn waiting_messages_are_not_decrypted_twice(
    before: CoreModel,
    after: CoreModel,
    at: Moment,
    event: SignedBody,
    r: Result<Seq<EffectModel>, Error>,
)
    requires
        processes_event(before, after, at, event, r),
        unacknowledged(before.state, event) is Some,
    ensures
        after == before,
        r == Ok::<Seq<EffectModel>, Error>(
            seq![emit(unacknowledged(before.state, event)->Some_0)],
        ),
{
}

/// A message that cannot be opened yet is kept.
pub proof fn unopened_messages_are_kept(c: CoreModel, event: SignedBody)
    ensures
        kept(with_kept(c, event).state, event.id),
{
    if !kept(c.state, event.id) {
        let after = with_kept(c, event);
        assert(after.state.inbound[c.state.inbound.len() as int] == event);
    }
}

/// Whether a message that an event brought is to be shown.
pub open spec fn shows_event(effects: Seq<EffectModel>, id: Seq<char>) -> bool {
    exists|d: DecryptedModel| d.event_id == Some(id) && effects.contains(#[trigger] emit(d))
}

proof fn lemma_shows_more(few: Seq<EffectModel>, many: Seq<EffectModel>, id: Seq<char>)
    requires
        shows_event(few, id) || shows_event(many, id),
    ensures
        shows_event(few + many, id),
{
    let all = few + many;
    if shows_event(few, id) {
        let d = choose|d: DecryptedModel|
            d.event_id == Some(id) && few.contains(#[trigger] emit(d));
        let j = choose|j: int| 0 <= j < few.len() && few[j] == emit(d);
        assert(all[j] == emit(d));
    } else {
        let d = choose|d: DecryptedModel|
            d.event_id == Some(id) && many.contains(#[trigger] emit(d));
        let j = choose|j: int| 0 <= j < many.len() && many[j] == emit(d);
        assert(all[few.len() + j] == emit(d));
    }
}

proof fn lemma_opened_is_shown(
    before: CoreModel,
    after: CoreModel,
    at: Moment,
    event: SignedBody,
    effects: Seq<EffectModel>,
)
    requires
        opens(before, after, at, event, Ok::<_, Error>(Some(effects))),
    ensures
        shows_event(effects, event.id),
{
    let found = Ok::<Option<Seq<EffectModel>>, Error>(Some(effects));
    let envelope = message_of_event(event)->Some_0;
    let (core, message) = choose|
        core: ManagerModel,
        message: Result<Option<ReceivedMessage>, Error>,
    | #[trigger]
        decrypts(before, after, at, envelope, event.id, core, message, found);
    let d = shown_message(message->Ok_0->Some_0, event.id, at);
    assert(effects[1] == emit(d));
}

/// Whether a kept message was tried when its turn came, with what came of it.
pub open spec fn has_turn(
    before: CoreModel,
    at: Moment,
    i: int,
    prev: OpeningTrace,
    next: OpeningTrace,
    found: Result<Option<Seq<EffectModel>>, Error>,
) -> bool {
    let events = before.state.inbound;
    &&& opens_some(before, at, events, i as nat, prev)
    &&& opening_step(at, events[i], events.skip(i + 1), prev, next, found)
}

/// What came of a kept message when it was tried: it is to be shown, it is kept
/// on because no session listens to its sender, or it cannot be opened.
pub open spec fn settles(
    found: Result<Option<Seq<EffectModel>>, Error>,
    event: SignedBody,
    left: Seq<SignedBody>,
    effects: Seq<EffectModel>,
) -> bool {
    match found {
        Ok(Some(_)) => shows_event(effects, event.id),
        Ok(None) => left.contains(event),
        Err(_) => true,
    }
}

proof fn lemma_opens_some(before: CoreModel, at: Moment, n: nat, t: OpeningTrace, i: int) -> (r: (
    OpeningTrace,
    OpeningTrace,
    Result<Option<Seq<EffectModel>>, Error>,
))
    requires
        opens_some(before, at, before.state.inbound, n, t),
        0 <= i < n <= before.state.inbound.len(),
    ensures
        has_turn(before, at, i, r.0, r.1, r.2),
        settles(r.2, before.state.inbound[i], t.left, t.effects),
    decreases n,
{
    let events = before.state.inbound;
    let event = events[i];
    let (prev, found) = choose|prev: OpeningTrace, found: Result<Option<Seq<EffectModel>>, Error>|
        #[trigger]
        opening_step(at, events[n - 1], events.skip(n as int), prev, t, found) && opens_some(
            before,
            at,
            events,
            (n - 1) as nat,
            prev,
        );
    if i == n - 1 {
        match found {
            Ok(Some(effects)) => {
                lemma_opened_is_shown(
                    with_inbound(prev.core, prev.left + events.skip(n as int)),
                    with_inbound(t.core, prev.left + events.skip(n as int)),
                    at,
                    event,
                    effects,
                );
                lemma_shows_more(prev.effects, effects, event.id);
            },
            Ok(None) => {
                assert(t.left[prev.left.len() as int] == event);
            },
            Err(_) => {},
        }
        (prev, t, found)
    } else {
        let r = lemma_opens_some(before, at, (n - 1) as nat, prev, i);
        match r.2 {
            Ok(Some(_)) => {
                if let Ok(Some(effects)) = found {
                    lemma_shows_more(prev.effects, effects, event.id);
                }
            },
            Ok(None) => {
                let j = choose|j: int| 0 <= j < prev.left.len() && prev.left[j] == event;
                assert(t.left[j] == event);
            },
            Err(_) => {},
        }
        r
    }
}

/// Once a response is taken in, every message that was kept until then is tried
/// in its turn. If it was opened it is to be shown; if no session listens to
/// its sender it is kept on; else opening it failed in the very state that was
/// reached when its turn came.
pub proof fn kept_messages_are_shown_after_a_response(
    before: CoreModel,
    after: CoreModel,
    at: Moment,
    effects: Seq<EffectModel>,
    i: int,
)
    requires
        opens_and_reacts(before, after, at, Ok::<Seq<EffectModel>, Error>(effects)),
        0 <= i < before.state.inbound.len(),
    ensures
        exists|
            mid: CoreModel,
            first: Seq<EffectModel>,
            more: Seq<EffectModel>,
            prev: OpeningTrace,
            next: OpeningTrace,
            found: Result<Option<Seq<EffectModel>>, Error>,
        |
            #![trigger opened_then(before, mid, after, at, first, Ok::<Seq<EffectModel>, Error>(more)), has_turn(before, at, i, prev, next, found)]
            {
                &&& opened_then(
                    before,
                    mid,
                    after,
                    at,
                    first,
                    Ok::<Seq<EffectModel>, Error>(more),
                )
                &&& effects == first + more
                &&& has_turn(before, at, i, prev, next, found)
                &&& settles(found, before.state.inbound[i], mid.state.inbound, effects)
            },
{
    let event = before.state.inbound[i];
    let r = Ok::<Seq<EffectModel>, Error>(effects);
    let (mid, first, second) = choose|
        mid: CoreModel,
        first: Seq<EffectModel>,
        second: Result<Seq<EffectModel>, Error>,
    | #[trigger]
        opened_then(before, mid, after, at, first, second) && r == match second {
            Ok(more) => Ok::<Seq<EffectModel>, Error>(first + more),
            Err(e) => Err(e),
        };
    let events = before.state.inbound;
    let t = choose|t: OpeningTrace| #[trigger]
        opens_some(before, at, events, events.len(), t) && first == t.effects && mid == t.core;
    let (prev, next, found) = lemma_opens_some(before, at, events.len(), t, i);
    let more = second->Ok_0;
    assert(opened_then(before, mid, after, at, first, Ok::<Seq<EffectModel>, Error>(more)));
    assert(t.core.state.inbound =~= t.left) by {
        lemma_all_tried(before, at, t);
    }
    if shows_event(first, event.id) {
        lemma_shows_more(first, more, event.id);
    }
    assert(has_turn(before, at, i, prev, next, found));
}

proof fn lemma_all_tried(before: CoreModel, at: Moment, t: OpeningTrace)
    requires
        opens_some(before, at, before.state.inbound, before.state.inbound.len(), t),
    ensures
        t.core.state.inbound == t.left,
{
    let events = before.state.inbound;
    if events.len() == 0 {
        assert(t.core.state.inbound =~= t.left);
    } else {
        assert(events.skip(events.len() as int) =~= Seq::empty());
        assert(t.core.state.inbound =~= t.left);
    }
}

/// A message that comes before the response which starts its session is
/// neither lost nor shown: it is kept, and the state in which it is kept is
/// stored.
pub proof fn early_messages_are_stored(
    before: CoreModel,
    after: CoreModel,
    at: Moment,
    event: SignedBody,
    r: Result<Seq<EffectModel>, Error>,
)
    requires
        hears_message(before, after, at, event, r),
        message_of_event(event) is Some,
        ({
            let owner = message_owner(before.state.core, event.body.pubkey);
            !before.state.core.users.contains_key(owner) || listening_device(
                before.state.core.users[owner],
                event.body.pubkey,
            ) is None
        }),
        !kept(before.state, event.id),
    ensures
        after == with_kept(before, event),
        kept(after.state, event.id),
        r == Ok::<Seq<EffectModel>, Error>(seq![persist(after.state)]),
        stored_of(after.state).inbound.last() == event,
{
    let (mid, found) = choose|mid: CoreModel, found: Result<Option<Seq<EffectModel>>, Error>|
        #[trigger]
        opens(before, mid, at, event, found) && match found {
            Err(e) => after == mid && r == Err::<Seq<EffectModel>, Error>(e),
            Ok(Some(all)) => after == mid && r == Ok::<Seq<EffectModel>, Error>(all),
            Ok(None) => after == with_kept(mid, event) && r == Ok::<Seq<EffectModel>, Error>(
                if kept(mid.state, event.id) {
                    Seq::empty()
                } else {
                    seq![persist(after.state)]
                },
            ),
        };
    let envelope = message_of_event(event)->Some_0;
    let (core, message) = choose|
        core: ManagerModel,
        message: Result<Option<ReceivedMessage>, Error>,
    | #[trigger]
        decrypts(before, mid, at, envelope, event.id, core, message, found);
    assert(mid =~= before);
    unopened_messages_are_kept(before, event);
}

/// What was stored and is loaded again asks for the same events to be published
/// and the same messages to be shown.
pub proof fn reloading_repeats_what_waits(m: StateModel, owner: OwnerPubkey, secret: [u8; 32])
    ensures
        replays(loaded_state(stored_of(m), owner, secret)) == replays(m),
{
}

/// The device list of another owner decides who acts for it: what is known of
/// the owner is that list, unless a roster of a later time is known, and just
/// the devices on what is kept are authorized.
pub proof fn device_lists_decide(
    c: CoreModel,
    owner: OwnerPubkey,
    keys: AppKeysModel,
    created_at: u64,
)
    requires
        orderly(c.state.core),
        owner != c.owner,
    ensures
        ({
            let after = with_keys(c, owner, keys, created_at);
            let user = after.state.core.users[owner];
            let known = user_or_fresh(c.state.core, owner).roster;
            &&& after.state.latest[owner] == created_at
            &&& !outdated(after.state, owner, created_at)
            &&& orderly(after.state.core)
            &&& known is None || known->Some_0.created_at.0 < created_at ==> user.roster == Some(
                roster_of_keys(keys, created_at),
            )
            &&& known is Some && known->Some_0.created_at.0 > created_at
                ==> after.state.core == c.state.core
            &&& forall|d: DevicePubkey|
                previous_devices(user).contains(d) <==> (#[trigger] user.devices.contains_key(d)
                    && user.devices[d].authorized)
        }),
{
    let after = with_keys(c, owner, keys, created_at);
    let roster = roster_of_keys(keys, created_at);
    let user = user_or_fresh(c.state.core, owner);
    rosters_decide(
        c.state.core,
        after.state.core,
        owner,
        roster,
        next_roster(user.roster, roster).0,
    );
}

// ---------------------------------------------------------------------------
// Device lists and the time they are of
// ---------------------------------------------------------------------------

proof fn lemma_retries_keep_latest(
    start: CoreModel,
    at: Moment,
    messages: Seq<OutboundModel>,
    t: RetryTrace,
)
    requires
        retries(start, at, messages, t),
    ensures
        t.core.state.latest == start.state.latest,
    decreases messages.len(),
{
    if messages.len() > 0 {
        let (prev, r) = choose|prev: RetryTrace, r: Result<RuntimePublishResult, Error>| #[trigger]
            retry_step(at, messages.last(), prev, t, r) && retries(
                start,
                at,
                messages.drop_last(),
                prev,
            );
        lemma_retries_keep_latest(start, at, messages.drop_last(), prev);
        let a = choose|a: Attempt| #[trigger]
            dispatched(prev.core, t.core, at, letter_of(messages.last()), a, r);
        assert(t.core.state.latest == prev.core.state.latest);
    }
}

proof fn lemma_fanouts_keep_latest(
    start: CoreModel,
    at: Moment,
    fanouts: Seq<FanoutModel>,
    t: FanoutTrace,
)
    requires
        fans_out_again(start, at, fanouts, t),
    ensures
        t.core.state.latest == start.state.latest,
    decreases fanouts.len(),
{
    if fanouts.len() > 0 {
        let (prev, o) = choose|prev: FanoutTrace, o: FanoutOutcome| #[trigger]
            fanout_step(at, fanouts.last(), prev, t, o) && fans_out_again(
                start,
                at,
                fanouts.drop_last(),
                prev,
            );
        lemma_fanouts_keep_latest(start, at, fanouts.drop_last(), prev);
    }
}

proof fn lemma_reacting_keeps_latest(
    before: CoreModel,
    after: CoreModel,
    at: Moment,
    r: Result<Seq<EffectModel>, Error>,
)
    requires
        reacts(before, after, at, r),
    ensures
        after.state.latest == before.state.latest,
        r matches Ok(effects) ==> effects.len() > 0 && effects[0] == persist(before.state),
{
    let (mid, first, second) = choose|
        mid: CoreModel,
        first: Seq<EffectModel>,
        second: Result<Seq<EffectModel>, Error>,
    | #[trigger]
        reacts_by(before, mid, after, at, first, second) && r == match second {
            Ok(more) => Ok::<Seq<EffectModel>, Error>(seq![persist(before.state)] + first + more),
            Err(e) => Err(e),
        };
    let t = choose|t: RetryTrace| #[trigger]
        retries(without_outbound(before), at, before.state.outbound, t) && mid == with_failed(t)
            && first == t.effects.push(persist(mid.state));
    lemma_retries_keep_latest(without_outbound(before), at, before.state.outbound, t);
    if mid.state.fanouts.len() > 0 {
        match second {
            Ok(effects) => {
                let f = choose|f: FanoutTrace| #[trigger]
                    fans_out_again(without_fanouts(mid), at, mid.state.fanouts, f) && after
                        == sync_core(with_failed_fanouts(f)) && effects == fanout_effects(f);
                lemma_fanouts_keep_latest(without_fanouts(mid), at, mid.state.fanouts, f);
            },
            Err(_) => {
                let (n, f, sent) = choose|n: int, f: FanoutTrace, sent: PreparedSend| #[trigger]
                    breaks_at(mid, after, at, n, f, sent);
                lemma_fanouts_keep_latest(without_fanouts(mid), at, mid.state.fanouts.take(n), f);
            },
        }
    }
}

/// A device list that is older than the latest of its owner changes nothing and
/// asks for nothing. Any other is stored before anything else is done, its time
/// is the latest of its owner from then on, also after all that waits was tried
/// again, and older ones are refused.
pub proof fn device_lists_are_taken_in_by_their_time(
    before: CoreModel,
    after: CoreModel,
    at: Moment,
    owner: OwnerPubkey,
    keys: AppKeysModel,
    created_at: u64,
    r: Result<Seq<EffectModel>, Error>,
)
    requires
        ingests(before, after, at, owner, keys, created_at, r),
    ensures
        outdated(before.state, owner, created_at) ==> after == before && r == Ok::<
            Seq<EffectModel>,
            Error,
        >(Seq::empty()),
        !outdated(before.state, owner, created_at) ==> {
            &&& after.state.latest == before.state.latest.insert(owner, created_at)
            &&& forall|older: u64|
                #![trigger outdated(after.state, owner, older)]
                older < created_at ==> outdated(after.state, owner, older)
            &&& r matches Ok(effects) ==> effects.len() > 0 && effects[0] == persist(
                with_keys(before, owner, keys, created_at).state,
            )
        },
{
    if !outdated(before.state, owner, created_at) {
        let start = with_keys(before, owner, keys, created_at);
        let (mid, first) = choose|mid: CoreModel, first: Result<Seq<EffectModel>, Error>| #[trigger]
            reacts(start, mid, at, first) && match first {
                Ok(effects) => after == sync_core(mid) && r == Ok::<Seq<EffectModel>, Error>(
                    effects.push(refresh_core(mid)) + sync_effects(mid),
                ),
                Err(e) => after == mid && r == Err::<Seq<EffectModel>, Error>(e),
            };
        lemma_reacting_keeps_latest(start, mid, at, first);
    }
}

// ---------------------------------------------------------------------------
// Sending and starting again
// ---------------------------------------------------------------------------

/// The event that is to be published.
pub open spec fn to_publish(effect: EffectModel) -> Option<SignedBody> {
    match effect {
        EffectModel::PublishSigned(event) => Some(event),
        EffectModel::PublishFor { event, .. } => Some(event),
        _ => None,
    }
}

/// Whether an event of an identifier is to be published.
pub open spec fn asks_to_publish(effects: Seq<EffectModel>, id: Seq<char>) -> bool {
    exists|i: int|
        0 <= i < effects.len() && (#[trigger] to_publish(effects[i]) matches Some(event)
            && event.id == id)
}

proof fn lemma_staged_waits(known: Seq<PublishModel>, pending: Seq<PublishModel>, i: int)
    requires
        0 <= i < pending.len(),
    ensures
        waits(staged(known, pending), pending[i].event.id),
    decreases pending.len(),
{
    let fewer = pending.drop_last();
    let rest = staged(known, fewer);
    let all = staged(known, pending);
    let next = pending.last();
    if i < fewer.len() {
        lemma_staged_waits(known, fewer, i);
        assert(fewer[i] == pending[i]);
        let k = choose|k: int| 0 <= k < rest.len() && (#[trigger] rest[k]).event.id
            == pending[i].event.id;
        assert(all[k] == rest[k]);
    } else if !waits(rest, next.event.id) {
        assert(all[rest.len() as int] == next);
    }
}

/// What was stored when a message was sent brings it back: where the device
/// starts again from it, the events of the message are to be published once
/// more, or the message waits as before. The state is stored before any event is
/// published.
pub proof fn sent_messages_survive_a_restart(
    before: CoreModel,
    after: CoreModel,
    at: Moment,
    letter: Letter,
    r: Result<RuntimePublishResult, Error>,
    owner: OwnerPubkey,
    secret: [u8; 32],
)
    requires
        dispatches(before, after, at, letter, r),
        r is Ok,
    ensures
        ({
            let effects = r->Ok_0@.effects;
            let again = loaded_state(stored_of(after.state), owner, secret);
            &&& forall|i: int|
                0 <= i < effects.len() && #[trigger] to_publish(effects[i]) is Some ==> effects[0]
                    == persist(after.state) && asks_to_publish(
                    replays(again),
                    to_publish(effects[i])->Some_0.id,
                )
            &&& again.outbound == after.state.outbound
            &&& (effects.len() > 0 && effects[0] == persist(after.state)) || (after.state
                == with_core(before, after.state.core).state && forall|i: int|
                0 <= i < effects.len() ==> #[trigger] to_publish(effects[i]) is None)
        }),
{
    let a = choose|a: Attempt| #[trigger] dispatched(before, after, at, letter, a, r);
    let effects = r->Ok_0@.effects;
    let again = loaded_state(stored_of(after.state), owner, secret);
    let (remote, local) = outcome(a)->Ok_0;
    let mid = with_core(before, after.state.core);
    if remote.relay_gaps@.len() == 0 && local_gaps(local).len() == 0 {
        let p = choose|p: Published| #[trigger]
            publishes_letter(remote, local, letter.inner, p) && super::outbox::publishing(mid, p)
                == (after, r->Ok_0@);
        let pending = p.remote + p.local;
        let first = staging(mid.state, pending);
        let synced = CoreModel { state: with_staged(mid.state, pending), ..mid };
        assert(effects == first + sync_effects(synced));
        assert forall|i: int| first.len() <= i < effects.len() implies #[trigger] to_publish(
            effects[i],
        ) is None by {
            assert(effects[i] == sync_effects(synced)[i - first.len()]);
        }
        assert forall|i: int|
            0 <= i < effects.len() && #[trigger] to_publish(effects[i]) is Some implies effects[0]
            == persist(after.state) && asks_to_publish(
            replays(again),
            to_publish(effects[i])->Some_0.id,
        ) by {
            assert(i < first.len());
            assert(effects[i] == first[i]);
            assert(effects[0] == first[0]);
            assert(i > 0);
            assert(first[i] == publish_all(pending)[i - 1]);
            lemma_staged_waits(mid.state.publishes, pending, i - 1);
            let id = pending[i - 1].event.id;
            let k = choose|k: int|
                0 <= k < again.publishes.len() && (#[trigger] again.publishes[k]).event.id == id;
            let replayed = replays(again);
            assert(replayed[again.deliveries.len() + k] == publish(again.publishes[k]));
            assert(to_publish(replayed[again.deliveries.len() + k]) == Some(
                again.publishes[k].event,
            ));
        }
        if pending.len() > 0 {
            assert(effects[0] == first[0]);
        } else {
            assert(staged(mid.state.publishes, pending) == mid.state.publishes);
        }
    }
}

} // verus!
