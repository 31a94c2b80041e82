//! What becomes of a message that cannot be sent yet: it waits, word for word,
//! until it is sent.
use vstd::prelude::*;
use super::effects::{publish, publish_all, staging, EffectModel, RuntimePublishResult};
use super::outbox::{
    dispatched, dispatches, letter_of, local_gaps, outcome, publishes_delivery, publishes_letter,
    publishing, queued, same_message, waiting, waits_for, with_core, Attempt, CoreModel, Letter,
    Moment, Published,
};
use super::properties::all_in;
use super::retry::{
    retries, retries_outbound, retry_step, with_failed, without_outbound, RetryTrace,
};
use super::store::{OutboundModel, PublishModel};
use crate::encoding::hex_text;
use crate::error::Error;
use crate::session_manager::{Delivery, PreparedSend};

verus! {

/// Whether a waiting message is one with these contents.
pub open spec fn reads(o: OutboundModel, letter: Letter) -> bool {
    &&& o.recipient == letter.recipient
    &&& o.remote == letter.remote
    &&& o.local == letter.local
    &&& o.inner == letter.inner
}

/// Whether a message with these contents waits.
pub open spec fn waits_as(outbound: Seq<OutboundModel>, letter: Letter) -> bool {
    exists|i: int| 0 <= i < outbound.len() && reads(#[trigger] outbound[i], letter)
}

/// Whether two messages are told apart by nothing: they go to one owner, and
/// have one identifier, or have none and say one thing.
pub open spec fn alike(o: OutboundModel, letter: Letter) -> bool {
    &&& o.recipient == letter.recipient
    &&& o.inner == letter.inner
    &&& letter.inner is Some || (o.remote == letter.remote && o.local == letter.local)
}

/// Whether a message waits that is told apart by nothing.
pub open spec fn waits_already(outbound: Seq<OutboundModel>, letter: Letter) -> bool {
    exists|i: int| 0 <= i < outbound.len() && alike(#[trigger] outbound[i], letter)
}

/// Whether a waiting message is as before, whatever it waits for now.
pub open spec fn is_kept(before: OutboundModel, after: OutboundModel) -> bool {
    &&& after.recipient == before.recipient
    &&& after.remote == before.remote
    &&& after.local == before.local
    &&& after.inner == before.inner
    &&& after.created_at_ms == before.created_at_ms
}

/// Whether something is missing to send a message.
pub open spec fn misses(remote: PreparedSend, local: Option<PreparedSend>) -> bool {
    remote.relay_gaps@.len() > 0 || (local matches Some(own) && own.relay_gaps@.len() > 0)
}

/// Whether a roster is missing to send a message.
pub open spec fn misses_roster(remote: PreparedSend, local: Option<PreparedSend>) -> bool {
    ||| exists|i: int|
        0 <= i < remote.relay_gaps@.len() && (#[trigger] remote.relay_gaps@[i]) is MissingRoster
    ||| local matches Some(own) && exists|i: int|
        0 <= i < own.relay_gaps@.len() && (#[trigger] own.relay_gaps@[i]) is MissingRoster
}

proof fn lemma_queue(outbound: Seq<OutboundModel>, next: OutboundModel)
    ensures
        ({
            let all = queued(outbound, next);
            let known = waits_already(outbound, letter_of(next));
            &&& all.len() == outbound.len() + if known {
                0int
            } else {
                1int
            }
            &&& !known ==> all == outbound.push(next)
            &&& forall|i: int|
                0 <= i < outbound.len() ==> is_kept(outbound[i], #[trigger] all[i]) && (
                all[i].reason == outbound[i].reason || (alike(outbound[i], letter_of(next))
                    && all[i].reason == next.reason))
            &&& known ==> exists|i: int|
                0 <= i < outbound.len() && alike(#[trigger] all[i], letter_of(next))
                    && all[i].reason == next.reason
        }),
    decreases outbound.len(),
{
    let letter = letter_of(next);
    let all = queued(outbound, next);
    if outbound.len() == 0 {
        assert(all =~= outbound.push(next));
    } else {
        let rest = outbound.drop_first();
        assert(same_message(outbound[0], next) == alike(outbound[0], letter));
        if same_message(outbound[0], next) {
            assert(alike(outbound[0], letter));
            assert(alike(all[0], letter));
        } else {
            lemma_queue(rest, next);
            let more = queued(rest, next);
            assert(all =~= seq![outbound[0]] + more);
            assert(waits_already(outbound, letter) == waits_already(rest, letter)) by {
                if waits_already(outbound, letter) {
                    let i = choose|i: int|
                        0 <= i < outbound.len() && alike(#[trigger] outbound[i], letter);
                    assert(rest[i - 1] == outbound[i]);
                }
                if waits_already(rest, letter) {
                    let i = choose|i: int| 0 <= i < rest.len() && alike(#[trigger] rest[i], letter);
                    assert(outbound[i + 1] == rest[i]);
                }
            }
            assert forall|i: int| 0 <= i < outbound.len() implies is_kept(
                outbound[i],
                #[trigger] all[i],
            ) && (all[i].reason == outbound[i].reason || (alike(outbound[i], letter)
                && all[i].reason == next.reason)) by {
                if i > 0 {
                    assert(all[i] == more[i - 1]);
                    assert(rest[i - 1] == outbound[i]);
                }
            }
            if !waits_already(rest, letter) {
                assert(all =~= outbound.push(next));
            } else {
                let i = choose|i: int|
                    0 <= i < rest.len() && alike(#[trigger] more[i], letter) && more[i].reason
                        == next.reason;
                assert(all[i + 1] == more[i]);
            }
        }
    }
}

/// What becomes of the waiting messages when one more is sent. All that waited
/// still wait, each with its own recipient, payloads, identifier and time. If
/// something is missing to send the message, it waits too: with exactly its
/// recipient, its payloads, its identifier and the time, unless one of the same
/// recipient and identifier waits already, or one without an identifier that
/// says the same. It waits for a roster if one is missing, else for a device.
/// If nothing is missing, or sending fails, no message is added.
pub proof fn waiting_messages_are_kept_word_for_word(
    before: CoreModel,
    after: CoreModel,
    at: Moment,
    letter: Letter,
    a: Attempt,
    r: Result<RuntimePublishResult, Error>,
)
    requires
        dispatched(before, after, at, letter, a, r),
    ensures
        ({
            let old_ones = before.state.outbound;
            let new_ones = after.state.outbound;
            &&& forall|i: int|
                0 <= i < old_ones.len() ==> i < new_ones.len() && is_kept(
                    #[trigger] old_ones[i],
                    new_ones[i],
                )
            &&& outcome(a) is Ok && misses(outcome(a)->Ok_0.0, outcome(a)->Ok_0.1) ==> {
                let (remote, local) = outcome(a)->Ok_0;
                &&& r is Ok
                &&& waits_already(old_ones, letter) ==> new_ones.len() == old_ones.len()
                &&& !waits_already(old_ones, letter) ==> {
                    &&& new_ones.len() == old_ones.len() + 1
                    &&& new_ones.take(old_ones.len() as int) == old_ones
                    &&& reads(new_ones.last(), letter)
                    &&& new_ones.last().created_at_ms == at.millis.0
                    &&& new_ones.last().reason is Discovery <==> misses_roster(remote, local)
                }
            }
            &&& !(outcome(a) is Ok && misses(outcome(a)->Ok_0.0, outcome(a)->Ok_0.1))
                ==> new_ones == old_ones
        }),
{
    if outcome(a) is Ok {
        let (remote, local) = outcome(a)->Ok_0;
        let gaps = local_gaps(local);
        if remote.relay_gaps@.len() > 0 || gaps.len() > 0 {
            let next = waiting(letter, at, waits_for(remote.relay_gaps@, gaps));
            lemma_queue(before.state.outbound, next);
            assert(letter_of(next) =~= letter);
            assert(after.state.outbound == queued(before.state.outbound, next));
            if !waits_already(before.state.outbound, letter) {
                assert(after.state.outbound.take(before.state.outbound.len() as int)
                    =~= before.state.outbound);
            }
        }
    }
}

/// Two messages with identifiers of their own to an owner that cannot be
/// reached both wait, each word for word.
pub proof fn messages_with_identifiers_of_their_own_both_wait(
    start: CoreModel,
    mid: CoreModel,
    end: CoreModel,
    at: Moment,
    later: Moment,
    one: Letter,
    two: Letter,
    a: Attempt,
    b: Attempt,
    r: Result<RuntimePublishResult, Error>,
    s: Result<RuntimePublishResult, Error>,
)
    requires
        dispatched(start, mid, at, one, a, r),
        dispatched(mid, end, later, two, b, s),
        outcome(a) matches Ok((remote, local)) && misses(remote, local),
        outcome(b) matches Ok((remote, local)) && misses(remote, local),
        one.inner is Some,
        two.inner is Some,
        one.inner != two.inner,
        !waits_already(start.state.outbound, one),
        !waits_already(start.state.outbound, two),
    ensures
        end.state.outbound.len() == start.state.outbound.len() + 2,
        waits_as(end.state.outbound, one),
        waits_as(end.state.outbound, two),
        forall|i: int|
            0 <= i < start.state.outbound.len() ==> is_kept(
                #[trigger] start.state.outbound[i],
                end.state.outbound[i],
            ),
{
    waiting_messages_are_kept_word_for_word(start, mid, at, one, a, r);
    waiting_messages_are_kept_word_for_word(mid, end, later, two, b, s);
    let n = start.state.outbound.len() as int;
    assert(mid.state.outbound.last() == mid.state.outbound[n]);
    if waits_already(mid.state.outbound, two) {
        let i = choose|i: int|
            0 <= i < mid.state.outbound.len() && alike(#[trigger] mid.state.outbound[i], two);
        if i < n {
            assert(mid.state.outbound.take(n)[i] == start.state.outbound[i]);
            assert(alike(start.state.outbound[i], two));
        }
    }
    assert(is_kept(mid.state.outbound[n], end.state.outbound[n]));
    assert(reads(end.state.outbound[n], one));
    assert(reads(end.state.outbound[n + 1], two));
    assert forall|i: int| 0 <= i < n implies is_kept(
        #[trigger] start.state.outbound[i],
        end.state.outbound[i],
    ) by {
        assert(is_kept(start.state.outbound[i], mid.state.outbound[i]));
        assert(is_kept(mid.state.outbound[i], end.state.outbound[i]));
    }
}

// ---------------------------------------------------------------------------
// Sending what waits
// ---------------------------------------------------------------------------

/// Whether the event of a message for a device is to be published, for the
/// message and that device.
pub open spec fn publishes_to(
    effects: Seq<EffectModel>,
    delivery: Delivery,
    inner: Option<Seq<char>>,
) -> bool {
    exists|p: PublishModel, id: Seq<char>|
        effects.contains(publish(p)) && #[trigger] publishes_delivery(delivery, inner, p, id)
}

/// Whether a message was encrypted for its recipient, and for the own devices
/// where they get a copy, nothing was missing, and each event is to be
/// published.
pub open spec fn sent_in_full(
    letter: Letter,
    effects: Seq<EffectModel>,
    remote: PreparedSend,
    local: Option<PreparedSend>,
) -> bool {
    &&& remote.recipient_owner == letter.recipient
    &&& remote.payload@ == letter.remote
    &&& remote.relay_gaps@.len() == 0
    &&& forall|i: int|
        0 <= i < remote.deliveries@.len() ==> publishes_to(
            effects,
            #[trigger] remote.deliveries@[i],
            letter.inner,
        )
    &&& match letter.local {
        None => local is None,
        Some(copy) => local matches Some(own) && own.payload@ == copy && own.relay_gaps@.len() == 0
            && forall|i: int|
            0 <= i < own.deliveries@.len() ==> publishes_to(
                effects,
                #[trigger] own.deliveries@[i],
                letter.inner,
            ),
    }
}

pub open spec fn sent_whole(letter: Letter, effects: Seq<EffectModel>) -> bool {
    exists|remote: PreparedSend, local: Option<PreparedSend>| #[trigger]
        sent_in_full(letter, effects, remote, local)
}

proof fn lemma_published(
    deliveries: Seq<Delivery>,
    inner: Option<Seq<char>>,
    pending: Seq<PublishModel>,
    ids: Seq<Seq<char>>,
    effects: Seq<EffectModel>,
    skip: int,
)
    requires
        0 <= skip,
        pending.len() >= skip + deliveries.len(),
        ids.len() == deliveries.len(),
        forall|i: int|
            0 <= i < deliveries.len() ==> publishes_delivery(
                #[trigger] deliveries[i],
                inner,
                pending[skip + i],
                ids[i],
            ),
        all_in(publish_all(pending), effects),
    ensures
        forall|i: int|
            0 <= i < deliveries.len() ==> publishes_to(effects, #[trigger] deliveries[i], inner),
{
    assert forall|i: int| 0 <= i < deliveries.len() implies publishes_to(
        effects,
        #[trigger] deliveries[i],
        inner,
    ) by {
        let p = pending[skip + i];
        assert(publish_all(pending)[skip + i] == publish(p));
        assert(effects.contains(publish(p)));
        assert(publishes_delivery(deliveries[i], inner, p, ids[i]));
    }
}

/// A message that is accepted waits word for word, or is sent in full: to every
/// device for which it was encrypted. One that is told apart by nothing from
/// another that waits may stand for that one.
pub proof fn accepted_messages_wait_or_are_sent_in_full(
    before: CoreModel,
    after: CoreModel,
    at: Moment,
    letter: Letter,
    r: Result<RuntimePublishResult, Error>,
)
    requires
        dispatches(before, after, at, letter, r),
        r is Ok,
    ensures
        waits_as(after.state.outbound, letter) || waits_already(before.state.outbound, letter)
            || sent_whole(letter, r->Ok_0@.effects),
{
    let a = choose|a: Attempt| #[trigger] dispatched(before, after, at, letter, a, r);
    waiting_messages_are_kept_word_for_word(before, after, at, letter, a, r);
    assert(outcome(a) is Ok);
    let (remote, local) = outcome(a)->Ok_0;
    if misses(remote, local) {
        if !waits_already(before.state.outbound, letter) {
            let n = before.state.outbound.len() as int;
            assert(reads(after.state.outbound[n], letter));
        }
    } else {
        lemma_sent(before, after, at, letter, a, r);
    }
}

/// What was encrypted with nothing missing is sent in full.
pub proof fn lemma_sent(
    before: CoreModel,
    after: CoreModel,
    at: Moment,
    letter: Letter,
    a: Attempt,
    r: Result<RuntimePublishResult, Error>,
)
    requires
        dispatched(before, after, at, letter, a, r),
        r is Ok,
        outcome(a) is Ok,
        !misses(outcome(a)->Ok_0.0, outcome(a)->Ok_0.1),
    ensures
        sent_whole(letter, r->Ok_0@.effects),
{
    let (remote, local) = outcome(a)->Ok_0;
    let mid = with_core(before, after.state.core);
    let p = choose|p: Published| #[trigger]
        publishes_letter(remote, local, letter.inner, p) && publishing(mid, p) == (
            after,
            r->Ok_0@,
        );
    let pending = p.remote + p.local;
    let effects = r->Ok_0@.effects;
    let wanted = publish_all(pending);
    assert forall|i: int| 0 <= i < wanted.len() implies effects.contains(
        #[trigger] wanted[i],
    ) by {
        assert(staging(mid.state, pending)[i + 1] == wanted[i]);
        assert(effects[i + 1] == wanted[i]);
    }
    assert(all_in(publish_all(p.remote), effects)) by {
        assert forall|i: int| 0 <= i < p.remote.len() implies effects.contains(
            #[trigger] publish_all(p.remote)[i],
        ) by {
            assert(wanted[i] == publish(p.remote[i]));
        }
    }
    assert(all_in(publish_all(p.local), effects)) by {
        assert forall|i: int| 0 <= i < p.local.len() implies effects.contains(
            #[trigger] publish_all(p.local)[i],
        ) by {
            assert(wanted[p.remote.len() + i] == publish(p.local[i]));
        }
    }
    lemma_published(
        remote.deliveries@,
        letter.inner,
        p.remote,
        p.remote_ids,
        effects,
        remote.invite_responses@.len() as int,
    );
    if let Some(own) = local {
        lemma_published(
            own.deliveries@,
            letter.inner,
            p.local,
            p.local_ids,
            effects,
            own.invite_responses@.len() as int,
        );
    }
    assert(sent_in_full(letter, effects, remote, local));
}

pub proof fn lemma_sent_stays_whole(letter: Letter, few: Seq<EffectModel>, many: Seq<EffectModel>)
    requires
        sent_whole(letter, few),
        forall|i: int| 0 <= i < few.len() ==> many.contains(#[trigger] few[i]),
    ensures
        sent_whole(letter, many),
{
    let (remote, local) = choose|remote: PreparedSend, local: Option<PreparedSend>| #[trigger]
        sent_in_full(letter, few, remote, local);
    assert forall|d: Delivery| #[trigger] publishes_to(few, d, letter.inner) implies publishes_to(
        many,
        d,
        letter.inner,
    ) by {
        let (p, id) = choose|p: PublishModel, id: Seq<char>|
            few.contains(publish(p)) && #[trigger] publishes_delivery(d, letter.inner, p, id);
        let k = choose|k: int| 0 <= k < few.len() && few[k] == publish(p);
        assert(many.contains(few[k]));
        assert(publishes_delivery(d, letter.inner, p, id));
    }
    assert(sent_in_full(letter, many, remote, local));
}

/// Whether no two waiting messages are told apart by nothing.
pub open spec fn told_apart(outbound: Seq<OutboundModel>) -> bool {
    forall|i: int, j: int|
        0 <= i < j < outbound.len() ==> !alike(
            #[trigger] outbound[i],
            letter_of(#[trigger] outbound[j]),
        )
}

/// Sending keeps the waiting messages apart.
pub proof fn waiting_messages_stay_apart(
    before: CoreModel,
    after: CoreModel,
    at: Moment,
    letter: Letter,
    r: Result<RuntimePublishResult, Error>,
)
    requires
        dispatches(before, after, at, letter, r),
        told_apart(before.state.outbound),
    ensures
        told_apart(after.state.outbound),
{
    let a = choose|a: Attempt| #[trigger] dispatched(before, after, at, letter, a, r);
    waiting_messages_are_kept_word_for_word(before, after, at, letter, a, r);
    let x = before.state.outbound;
    let y = after.state.outbound;
    assert forall|i: int, j: int| 0 <= i < j < y.len() implies !alike(
        #[trigger] y[i],
        letter_of(#[trigger] y[j]),
    ) by {
        assert(i < x.len());
        assert(is_kept(x[i], y[i]));
        if j < x.len() {
            assert(is_kept(x[j], y[j]));
            assert(!alike(x[i], letter_of(x[j])));
        } else {
            assert(!alike(x[i], letter));
            assert(y[j] == y.last());
        }
    }
}

proof fn lemma_retried(
    start: CoreModel,
    at: Moment,
    messages: Seq<OutboundModel>,
    t: RetryTrace,
)
    requires
        retries(start, at, messages, t),
        start.state.outbound.len() == 0,
        told_apart(messages),
    ensures
        forall|i: int|
            0 <= i < messages.len() ==> waits_as(
                t.core.state.outbound,
                letter_of(#[trigger] messages[i]),
            ) || t.failed.contains(messages[i]) || sent_whole(letter_of(messages[i]), t.effects),
        forall|k: int|
            0 <= k < t.core.state.outbound.len() ==> exists|i: int|
                0 <= i < messages.len() && reads(
                    #[trigger] t.core.state.outbound[k],
                    letter_of(#[trigger] messages[i]),
                ),
    decreases messages.len(),
{
    if messages.len() > 0 {
        let n = messages.len() - 1;
        let fewer = messages.drop_last();
        let (prev, r) = choose|prev: RetryTrace, r: Result<RuntimePublishResult, Error>| #[trigger]
            retry_step(at, messages.last(), prev, t, r) && retries(start, at, fewer, prev);
        assert forall|i: int, j: int| 0 <= i < j < fewer.len() implies !alike(
            #[trigger] fewer[i],
            letter_of(#[trigger] fewer[j]),
        ) by {
            assert(fewer[i] == messages[i] && fewer[j] == messages[j]);
        }
        lemma_retried(start, at, fewer, prev);
        let message = messages.last();
        let letter = letter_of(message);
        let a = choose|a: Attempt| #[trigger] dispatched(prev.core, t.core, at, letter, a, r);
        waiting_messages_are_kept_word_for_word(prev.core, t.core, at, letter, a, r);
        let x = prev.core.state.outbound;
        let y = t.core.state.outbound;
        assert(!waits_already(x, letter)) by {
            if waits_already(x, letter) {
                let k = choose|k: int| 0 <= k < x.len() && alike(#[trigger] x[k], letter);
                let i = choose|i: int|
                    0 <= i < fewer.len() && reads(x[k], letter_of(#[trigger] fewer[i]));
                assert(fewer[i] == messages[i]);
                assert(!alike(messages[i], letter_of(messages[n])));
            }
        }
        assert forall|i: int| 0 <= i < messages.len() implies waits_as(
            y,
            letter_of(#[trigger] messages[i]),
        ) || t.failed.contains(messages[i]) || sent_whole(letter_of(messages[i]), t.effects) by {
            let l = letter_of(messages[i]);
            if i == n {
                if r is Ok {
                    accepted_messages_wait_or_are_sent_in_full(prev.core, t.core, at, letter, r);
                    if sent_whole(letter, r->Ok_0@.effects) {
                        let few = r->Ok_0@.effects;
                        assert forall|j: int| 0 <= j < few.len() implies t.effects.contains(
                            #[trigger] few[j],
                        ) by {
                            assert(t.effects[prev.effects.len() + j] == few[j]);
                        }
                        lemma_sent_stays_whole(letter, few, t.effects);
                    }
                } else {
                    assert(t.failed[prev.failed.len() as int] == message);
                }
            } else {
                assert(fewer[i] == messages[i]);
                if waits_as(x, l) {
                    let k = choose|k: int| 0 <= k < x.len() && reads(#[trigger] x[k], l);
                    assert(is_kept(x[k], y[k]));
                    assert(reads(y[k], l));
                } else if prev.failed.contains(messages[i]) {
                    let j = choose|j: int|
                        0 <= j < prev.failed.len() && prev.failed[j] == messages[i];
                    assert(t.failed[j] == messages[i]);
                } else {
                    assert forall|j: int| 0 <= j < prev.effects.len() implies t.effects.contains(
                        #[trigger] prev.effects[j],
                    ) by {
                        assert(t.effects[j] == prev.effects[j]);
                    }
                    lemma_sent_stays_whole(l, prev.effects, t.effects);
                }
            }
        }
        assert forall|k: int| 0 <= k < y.len() implies exists|i: int|
            0 <= i < messages.len() && reads(#[trigger] y[k], letter_of(#[trigger] messages[i])) by {
            if k < x.len() {
                assert(is_kept(x[k], y[k]));
                let i = choose|i: int|
                    0 <= i < fewer.len() && reads(x[k], letter_of(#[trigger] fewer[i]));
                assert(fewer[i] == messages[i]);
                assert(reads(y[k], letter_of(messages[i])));
            } else {
                assert(y[k] == y.last());
                assert(reads(y[k], letter_of(messages[n])));
            }
        }
    }
}

/// When all waiting messages are tried again, each of them waits on word for
/// word, or is sent in full.
pub proof fn retried_messages_wait_or_are_sent_in_full(
    before: CoreModel,
    after: CoreModel,
    at: Moment,
    effects: Seq<EffectModel>,
)
    requires
        retries_outbound(before, after, at, effects),
        told_apart(before.state.outbound),
    ensures
        forall|i: int|
            0 <= i < before.state.outbound.len() ==> waits_as(
                after.state.outbound,
                letter_of(#[trigger] before.state.outbound[i]),
            ) || sent_whole(letter_of(before.state.outbound[i]), effects),
        forall|k: int|
            0 <= k < after.state.outbound.len() ==> exists|i: int|
                0 <= i < before.state.outbound.len() && reads(
                    #[trigger] after.state.outbound[k],
                    letter_of(#[trigger] before.state.outbound[i]),
                ),
{
    let messages = before.state.outbound;
    let t = choose|t: RetryTrace| #[trigger]
        retries(without_outbound(before), at, messages, t) && after == with_failed(t) && effects
            == t.effects.push(super::effects::persist(after.state));
    lemma_retried(without_outbound(before), at, messages, t);
    lemma_failed(without_outbound(before), at, messages, t);
    let all = after.state.outbound;
    let n = t.core.state.outbound.len() as int;
    assert forall|i: int| 0 <= i < messages.len() implies waits_as(
        all,
        letter_of(#[trigger] messages[i]),
    ) || sent_whole(letter_of(messages[i]), effects) by {
        let l = letter_of(messages[i]);
        if waits_as(t.core.state.outbound, l) {
            let k = choose|k: int|
                0 <= k < n && reads(#[trigger] t.core.state.outbound[k], l);
            assert(all[k] == t.core.state.outbound[k]);
        } else if t.failed.contains(messages[i]) {
            let k = choose|k: int| 0 <= k < t.failed.len() && t.failed[k] == messages[i];
            assert(all[n + k] == messages[i]);
            assert(reads(all[n + k], l));
        } else {
            assert forall|j: int| 0 <= j < t.effects.len() implies effects.contains(
                #[trigger] t.effects[j],
            ) by {
                assert(effects[j] == t.effects[j]);
            }
            lemma_sent_stays_whole(l, t.effects, effects);
        }
    }
    assert forall|k: int| 0 <= k < all.len() implies exists|i: int|
        0 <= i < messages.len() && reads(#[trigger] all[k], letter_of(#[trigger] messages[i])) by {
        if k < n {
            assert(all[k] == t.core.state.outbound[k]);
        } else {
            assert(all[k] == t.failed[k - n]);
            assert(messages.contains(t.failed[k - n]));
            let i = choose|i: int| 0 <= i < messages.len() && messages[i] == t.failed[k - n];
            assert(reads(all[k], letter_of(messages[i])));
        }
    }
}

proof fn lemma_failed(start: CoreModel, at: Moment, messages: Seq<OutboundModel>, t: RetryTrace)
    requires
        retries(start, at, messages, t),
    ensures
        forall|k: int| 0 <= k < t.failed.len() ==> messages.contains(#[trigger] t.failed[k]),
    decreases messages.len(),
{
    if messages.len() > 0 {
        let fewer = messages.drop_last();
        let (prev, r) = choose|prev: RetryTrace, r: Result<RuntimePublishResult, Error>| #[trigger]
            retry_step(at, messages.last(), prev, t, r) && retries(start, at, fewer, prev);
        lemma_failed(start, at, fewer, prev);
        assert forall|k: int| 0 <= k < t.failed.len() implies messages.contains(
            #[trigger] t.failed[k],
        ) by {
            if k < prev.failed.len() {
                assert(t.failed[k] == prev.failed[k]);
                let i = choose|i: int| 0 <= i < fewer.len() && fewer[i] == prev.failed[k];
                assert(messages[i] == t.failed[k]);
            } else {
                assert(messages[messages.len() - 1] == t.failed[k]);
            }
        }
    }
}

/// An event for a device carries the message that was encrypted for it: its
/// sender, its time, its header and its text, and it is published for that
/// device and for the message.
pub proof fn events_carry_what_was_encrypted(
    delivery: Delivery,
    inner: Option<Seq<char>>,
    p: PublishModel,
    id: Seq<char>,
)
    requires
        publishes_delivery(delivery, inner, p, id),
    ensures
        p.event.id == id,
        p.inner == inner,
        p.target == Some(hex_text(delivery.device_pubkey.0@)),
        p.event.body.pubkey == delivery.envelope.sender,
        p.event.body.created_at == delivery.envelope.created_at,
        p.event.body.kind == 1060,
        p.event.body.content == delivery.envelope.ciphertext@,
        p.event.body.tags == seq![seq!["header"@, delivery.envelope.encrypted_header@]],
        publish(p) == (EffectModel::PublishFor { event: p.event, inner, target: p.target }),
{
}

} // verus!
