//! What is shown of messages that came, what is sent of those that are written,
//! and what waits of those that cannot be read or told yet.
use vstd::prelude::*;
use vstd::utf8::encode_utf8;
use super::effects::{
    delivery_waits, persist, without_delivery, without_event, EffectModel, RuntimePublishResult,
};
use super::groups::{
    fanned, fanout_to, gap_owner, goal_for, goals, hearing, incoming, resumed, retold, told,
    told_by, Hearing, SenderKeyOutcomeModel,
};
use super::inbox::{decrypts, hears_event, message_owner, processes_event, shown_message, unwrapped};
use super::letters::{expiration, letter, letter_bytes, sibling_of, SendOptions};
use super::outbox::{dispatches, sync_core, sync_effects, CoreModel, Letter, Moment};
use super::store::{
    DecryptedModel, FanoutGoal, FanoutModel, OutboundModel, PairwiseModel, PublishModel,
    SenderKeyModel, StateModel,
};
use super::{
    diagnostics, event_letter, inviting_owner, replays, sends_text, with_accepted,
    RuntimeTextSendResult,
};
use crate::error::{Error, Fault};
use crate::event::SignedBody;
use crate::group::GroupEventModel;
use crate::group_manager::{heard, GroupsModel};
use crate::group_wire::payload_of_bytes;
use crate::ids::{DevicePubkey, OwnerPubkey, UnixMillis, UnixSeconds};
use crate::invite::InviteModel;
use crate::keeping::awaits;
use crate::rumor::{rumor_id, RumorModel};
use crate::session::EnvelopeModel;
use crate::session_manager::properties::{is_held, sessions_are_all_listed};
use crate::session_manager::queries::{all_sessions, first_owner, HeldModel, Which};
use crate::session_manager::{finite, user_or_fresh, GapModel, ManagerModel, ReceivedMessage};
use crate::text::decimal;

verus! {

// ---------------------------------------------------------------------------
// Messages that came
// ---------------------------------------------------------------------------

proof fn lemma_first_owner(held: Seq<HeldModel>, sender: DevicePubkey)
    ensures
        first_owner(held, sender) is Some <==> exists|i: int|
            0 <= i < held.len() && awaits((#[trigger] held[i]).state, sender),
        first_owner(held, sender) matches Some(owner) ==> exists|i: int|
            0 <= i < held.len() && awaits((#[trigger] held[i]).state, sender) && held[i].owner
                == owner,
    decreases held.len(),
{
    if held.len() > 0 {
        let fewer = held.drop_last();
        lemma_first_owner(fewer, sender);
        let n = held.len() - 1;
        assert forall|i: int| 0 <= i < n implies #[trigger] fewer[i] == held[i] by {}
        if let Some(owner) = first_owner(fewer, sender) {
            let i = choose|i: int|
                0 <= i < fewer.len() && awaits((#[trigger] fewer[i]).state, sender)
                    && fewer[i].owner == owner;
            assert(awaits(held[i].state, sender) && held[i].owner == owner);
        } else {
            assert forall|i: int| 0 <= i < n implies !awaits((#[trigger] held[i]).state, sender) by {
                assert(fewer[i] == held[i]);
            }
            if awaits(held.last().state, sender) {
                assert(awaits(held[n].state, sender));
            }
        }
    }
}

/// A message is that of the owner with whose device a session awaits its
/// sender; where no session does, it is that of the sender.
pub proof fn messages_belong_to_who_is_awaited(m: ManagerModel, sender: DevicePubkey)
    requires
        finite(m),
    ensures
        ({
            let owner = message_owner(m, sender);
            ||| exists|held: HeldModel| #[trigger]
                is_held(m, held, Which::All) && awaits(held.state, sender) && held.owner == owner
            ||| owner == sender.owner() && forall|held: HeldModel| #[trigger]
                is_held(m, held, Which::All) ==> !awaits(held.state, sender)
        }),
{
    let all = all_sessions(m);
    lemma_first_owner(all, sender);
    match first_owner(all, sender) {
        Some(owner) => {
            let i = choose|i: int|
                0 <= i < all.len() && awaits((#[trigger] all[i]).state, sender) && all[i].owner
                    == owner;
            assert(all.contains(all[i]));
            sessions_are_all_listed(m, all[i]);
            assert(is_held(m, all[i], Which::All));
        },
        None => {
            assert forall|held: HeldModel| #[trigger] is_held(m, held, Which::All) implies !awaits(
                held.state,
                sender,
            ) by {
                sessions_are_all_listed(m, held);
                let i = choose|i: int| 0 <= i < all.len() && all[i] == held;
                assert(!awaits(all[i].state, sender));
            }
        },
    }
}

/// A message that was decrypted is stored and shown, in this order and nothing
/// else: as that of the owner and device whose session decrypted it, under the
/// event that brought it. If it is the copy of a message of an own device, the
/// message in it is shown in the conversation to which it went; else what was
/// decrypted is shown as it is. It waits to be acknowledged, and no other
/// waiting message is touched.
pub proof fn decrypted_messages_are_shown_as_they_are(
    before: CoreModel,
    after: CoreModel,
    at: Moment,
    envelope: EnvelopeModel,
    id: Seq<char>,
    mid: ManagerModel,
    message: ReceivedMessage,
    effects: Seq<EffectModel>,
)
    requires
        decrypts(
            before,
            after,
            at,
            envelope,
            id,
            mid,
            Ok(Some(message)),
            Ok::<Option<Seq<EffectModel>>, Error>(Some(effects)),
        ),
    ensures
        effects.len() == 2,
        effects[0] == persist(after.state),
        effects[1] matches EffectModel::Emit { sender, device, conversation, content, event_id } && {
            &&& sender == message.owner_pubkey
            &&& device == Some(message.device_pubkey)
            &&& event_id == Some(id)
            &&& match sibling_of(message.payload@) {
                Some((owner, inner)) => conversation == Some(owner) && encode_utf8(content)
                    == inner,
                None => conversation is None && encode_utf8(content) == message.payload@,
            }
        },
        exists|i: int|
            0 <= i < after.state.deliveries.len() && (#[trigger] after.state.deliveries[i]).event_id
                == Some(id),
        forall|i: int|
            0 <= i < before.state.deliveries.len() ==> i < after.state.deliveries.len()
                && #[trigger] after.state.deliveries[i] == before.state.deliveries[i],
        after.state.outbound == before.state.outbound,
        after.state.inbound == before.state.inbound,
        after.state.publishes == before.state.publishes,
        after.state.groups == before.state.groups,
{
    let inner = unwrapped(message.payload@).1;
    vstd::utf8::decode_utf8_encode_utf8(inner);
    let d = shown_message(message, id, at);
    if delivery_waits(before.state.deliveries, id) {
        let i = choose|i: int|
            0 <= i < before.state.deliveries.len() && (
            #[trigger] before.state.deliveries[i]).event_id == Some(id);
        assert(after.state.deliveries[i].event_id == Some(id));
    } else {
        assert(after.state.deliveries[before.state.deliveries.len() as int] == d);
    }
}

/// An event of a kind that is not one of those that the runtime knows changes
/// nothing of the state, and an event is only ever taken for what its kind
/// says.
pub proof fn other_events_change_nothing(
    before: CoreModel,
    after: CoreModel,
    at: Moment,
    event: SignedBody,
    r: Result<Seq<EffectModel>, Error>,
)
    requires
        processes_event(before, after, at, event, r),
        event.body.kind != 30078 && event.body.kind != 1059 && event.body.kind != 1060,
    ensures
        after.state == before.state,
        r == Ok::<Seq<EffectModel>, Error>(sync_effects(before)),
{
    let (mid, first) = choose|mid: CoreModel, first: Result<Seq<EffectModel>, Error>| #[trigger]
        hears_event(before, mid, at, event, first) && match first {
            Ok(effects) => after == sync_core(mid) && r == Ok::<Seq<EffectModel>, Error>(
                effects + sync_effects(mid),
            ),
            Err(e) => after == mid && r == Err::<Seq<EffectModel>, Error>(e),
        };
    assert(Seq::<EffectModel>::empty() + sync_effects(mid) =~= sync_effects(mid));
}

// ---------------------------------------------------------------------------
// Acknowledging
// ---------------------------------------------------------------------------

/// Acknowledging an event takes it off those that are to be published, and no
/// other; each of the others stays as it is, in its order.
pub proof fn acknowledging_takes_off_just_that_event(known: Seq<PublishModel>, id: Seq<char>)
    ensures
        ({
            let after = without_event(known, id);
            &&& forall|p: PublishModel| #[trigger]
                after.contains(p) <==> known.contains(p) && p.event.id != id
            &&& (forall|i: int| 0 <= i < known.len() ==> (#[trigger] known[i]).event.id != id)
                ==> after == known
        }),
    decreases known.len(),
{
    if known.len() > 0 {
        let fewer = known.drop_last();
        let last = known.last();
        acknowledging_takes_off_just_that_event(fewer, id);
        let rest = without_event(fewer, id);
        let after = without_event(known, id);
        assert forall|p: PublishModel| #[trigger] after.contains(p) <==> known.contains(p)
            && p.event.id != id by {
            if known.contains(p) && p != last {
                let i = choose|i: int| 0 <= i < known.len() && known[i] == p;
                assert(fewer[i] == p);
            }
            if fewer.contains(p) {
                let i = choose|i: int| 0 <= i < fewer.len() && fewer[i] == p;
                assert(known[i] == p);
            }
            if p == last {
                assert(known[known.len() - 1] == p);
            }
            if after.contains(p) && !rest.contains(p) {
                let i = choose|i: int| 0 <= i < after.len() && after[i] == p;
                if i < rest.len() {
                    assert(rest[i] == p);
                }
            }
            if rest.contains(p) {
                let i = choose|i: int| 0 <= i < rest.len() && rest[i] == p;
                assert(after[i] == p);
            }
            if p == last && last.event.id != id {
                assert(after[rest.len() as int] == p);
            }
        }
        if forall|i: int| 0 <= i < known.len() ==> (#[trigger] known[i]).event.id != id {
            assert forall|i: int| 0 <= i < fewer.len() implies (#[trigger] fewer[i]).event.id
                != id by {
                assert(known[i] == fewer[i]);
            }
            assert(known[known.len() - 1] == last);
            assert(after =~= known);
        }
    }
}

/// Acknowledging a message takes it off those that are to be shown, and no
/// other; each of the others stays as it is, in its order.
pub proof fn acknowledging_takes_off_just_that_message(known: Seq<DecryptedModel>, id: Seq<char>)
    ensures
        ({
            let after = without_delivery(known, id);
            &&& forall|d: DecryptedModel| #[trigger]
                after.contains(d) <==> known.contains(d) && d.event_id != Some(id)
            &&& (forall|i: int| 0 <= i < known.len() ==> (#[trigger] known[i]).event_id != Some(id))
                ==> after == known
        }),
    decreases known.len(),
{
    if known.len() > 0 {
        let fewer = known.drop_last();
        let last = known.last();
        acknowledging_takes_off_just_that_message(fewer, id);
        let rest = without_delivery(fewer, id);
        let after = without_delivery(known, id);
        assert forall|d: DecryptedModel| #[trigger] after.contains(d) <==> known.contains(d)
            && d.event_id != Some(id) by {
            if known.contains(d) && d != last {
                let i = choose|i: int| 0 <= i < known.len() && known[i] == d;
                assert(fewer[i] == d);
            }
            if fewer.contains(d) {
                let i = choose|i: int| 0 <= i < fewer.len() && fewer[i] == d;
                assert(known[i] == d);
            }
            if d == last {
                assert(known[known.len() - 1] == d);
            }
            if after.contains(d) && !rest.contains(d) {
                let i = choose|i: int| 0 <= i < after.len() && after[i] == d;
                if i < rest.len() {
                    assert(rest[i] == d);
                }
            }
            if rest.contains(d) {
                let i = choose|i: int| 0 <= i < rest.len() && rest[i] == d;
                assert(after[i] == d);
            }
            if d == last && last.event_id != Some(id) {
                assert(after[rest.len() as int] == d);
            }
        }
        if forall|i: int| 0 <= i < known.len() ==> (#[trigger] known[i]).event_id != Some(id) {
            assert forall|i: int| 0 <= i < fewer.len() implies (#[trigger] fewer[i]).event_id
                != Some(id) by {
                assert(known[i] == fewer[i]);
            }
            assert(known[known.len() - 1] == last);
            assert(after =~= known);
        }
    }
}

/// What waits is asked for once more at a start: each message that waits to be
/// acknowledged is shown, and each event that waits is published, in their
/// order and nothing else.
pub proof fn all_that_waits_is_asked_for_again(m: StateModel)
    ensures
        ({
            let again = replays(m);
            &&& again.len() == m.deliveries.len() + m.publishes.len()
            &&& forall|i: int|
                0 <= i < m.deliveries.len() ==> #[trigger] again[i] == (EffectModel::Emit {
                    sender: m.deliveries[i].sender,
                    device: m.deliveries[i].device,
                    conversation: m.deliveries[i].conversation,
                    content: m.deliveries[i].content,
                    event_id: m.deliveries[i].event_id,
                })
            &&& forall|i: int|
                0 <= i < m.publishes.len() ==> {
                    let p = m.publishes[i];
                    #[trigger] again[m.deliveries.len() + i] == if p.inner is Some
                        || p.target is Some {
                        EffectModel::PublishFor { event: p.event, inner: p.inner, target: p.target }
                    } else {
                        EffectModel::PublishSigned(p.event)
                    }
                }
        }),
{
}

// ---------------------------------------------------------------------------
// Messages that are written
// ---------------------------------------------------------------------------

/// A message says what it was given: its kind, its text and its tags, to which
/// the millisecond is added and when it expires, if it does. It is by its
/// author at the time, and under the identifier of all that.
pub proof fn letters_say_what_they_were_given(
    author: OwnerPubkey,
    now_secs: UnixSeconds,
    now_millis: UnixMillis,
    kind: u32,
    tags: Seq<Seq<Seq<char>>>,
    content: Seq<char>,
    expires: Option<u64>,
)
    ensures
        ({
            let m = letter(author, now_secs, now_millis, kind, tags, content, expires);
            &&& m.kind == kind
            &&& m.content == content
            &&& m.pubkey == author.device()
            &&& m.created_at == now_secs
            &&& m.id == Some(rumor_id(RumorModel { id: None, ..m }))
            &&& m.tags.len() == tags.len() + if expires is Some {
                2int
            } else {
                1int
            }
            &&& forall|i: int| 0 <= i < tags.len() ==> #[trigger] m.tags[i] == tags[i]
            &&& m.tags[tags.len() as int] == seq!["ms"@, decimal(now_millis.0 as nat)]
            &&& expires matches Some(at) ==> m.tags[tags.len() as int + 1] == seq![
                "expiration"@,
                decimal(at as nat),
            ]
        }),
{
}

/// A message expires at the time that it is given, or so long after now as it
/// is given; without either it does not. With both, or at a time that no clock
/// shows, it is refused.
pub proof fn messages_expire_when_they_are_to(options: Option<SendOptions>, now: u64)
    ensures
        options is None ==> expiration(options, now) == Ok::<Option<u64>, Fault>(None),
        options matches Some(o) ==> {
            &&& o.expires_at is None && o.ttl_seconds is None ==> expiration(options, now) == Ok::<
                Option<u64>,
                Fault,
            >(None)
            &&& o.expires_at is Some && o.ttl_seconds is None ==> expiration(options, now) == Ok::<
                Option<u64>,
                Fault,
            >(o.expires_at)
            &&& o.expires_at is None && o.ttl_seconds is Some && now + o.ttl_seconds->Some_0
                <= u64::MAX ==> (expiration(options, now) matches Ok(Some(at)) && at == now
                + o.ttl_seconds->Some_0)
            &&& o.expires_at is None && o.ttl_seconds is Some && now + o.ttl_seconds->Some_0
                > u64::MAX ==> expiration(options, now) is Err
            &&& o.expires_at is Some && o.ttl_seconds is Some ==> expiration(options, now) is Err
        },
{
}

/// A text that is not blank is sent to its recipient as a chat message: the
/// recipient's devices get the message, the own devices the same message as a
/// copy that says to whom it went, both under the message's identifier, which
/// is given back.
pub proof fn texts_are_sent_as_they_are(
    before: CoreModel,
    after: CoreModel,
    at: Moment,
    recipient: OwnerPubkey,
    text: Seq<char>,
    options: Option<SendOptions>,
    r: Result<RuntimeTextSendResult, Error>,
)
    requires
        sends_text(before, after, at, recipient, text, options, r),
        !crate::text::is_blank(text),
        expiration(options, at.secs.0) is Ok,
    ensures
        exists|m: RumorModel, l: Letter, p: Result<RuntimePublishResult, Error>|
            {
                &&& #[trigger] dispatches(before, after, at, l, p)
                &&& l.recipient == recipient
                &&& #[trigger] letter_bytes(m) == l.remote
                &&& l.local == Some(super::letters::sibling_bytes(recipient, l.remote))
                &&& l.inner == m.id
                &&& m.content == text
                &&& m.kind == 14
                &&& m.pubkey == before.owner.device()
                &&& m.created_at == at.secs
                &&& r is Ok == p is Ok
                &&& r matches Ok(result) ==> m.id == Some(result.inner_event_id@)
            },
{
    let expires = expiration(options, at.secs.0)->Ok_0;
    let m = letter(before.owner, at.secs, at.millis, 14, Seq::empty(), text, expires);
    let l = event_letter(recipient, m);
    let p = choose|p: Result<RuntimePublishResult, Error>| #[trigger]
        dispatches(before, after, at, event_letter(recipient, m), p) && match p {
            Err(e) => r == Err::<RuntimeTextSendResult, Error>(e),
            Ok(published) => r matches Ok(result) && Some(result.inner_event_id@) == m.id,
        };
    assert(dispatches(before, after, at, l, p));
    assert(letter_bytes(m) == l.remote);
}

/// What is shown of waiting messages: of each its recipient, its identifier,
/// its time and what it waits for, in their order; or of just those with an
/// identifier.
pub proof fn diagnostics_show_what_waits(outbound: Seq<OutboundModel>, inner: Option<Seq<char>>)
    ensures
        ({
            let all = diagnostics(outbound, inner);
            &&& inner is None ==> all.len() == outbound.len()
            &&& inner is None ==> forall|i: int|
                0 <= i < outbound.len() ==> (#[trigger] all[i]).owner == Some(outbound[i].recipient)
                    && all[i].inner == outbound[i].inner && all[i].stage == outbound[i].reason
                    && all[i].created_at_ms == outbound[i].created_at_ms && all[i].target_key
                    == crate::encoding::hex_text(outbound[i].recipient.0@)
            &&& inner is Some ==> forall|i: int|
                0 <= i < all.len() ==> (#[trigger] all[i]).inner == inner
            &&& forall|i: int|
                0 <= i < outbound.len() && (inner is None || (#[trigger] outbound[i]).inner
                    == inner) ==> exists|k: int|
                    0 <= k < all.len() && (#[trigger] all[k]).owner == Some(outbound[i].recipient)
                        && all[k].inner == outbound[i].inner && all[k].stage == outbound[i].reason
                        && all[k].created_at_ms == outbound[i].created_at_ms
        }),
    decreases outbound.len(),
{
    if outbound.len() > 0 {
        let fewer = outbound.drop_last();
        let n = outbound.len() - 1;
        diagnostics_show_what_waits(fewer, inner);
        let rest = diagnostics(fewer, inner);
        let all = diagnostics(outbound, inner);
        assert forall|i: int|
            0 <= i < outbound.len() && (inner is None || (#[trigger] outbound[i]).inner
                == inner) implies exists|k: int|
            0 <= k < all.len() && (#[trigger] all[k]).owner == Some(outbound[i].recipient)
                && all[k].inner == outbound[i].inner && all[k].stage == outbound[i].reason
                && all[k].created_at_ms == outbound[i].created_at_ms by {
            if i < n {
                assert(fewer[i] == outbound[i]);
                let k = choose|k: int|
                    0 <= k < rest.len() && (#[trigger] rest[k]).owner == Some(fewer[i].recipient)
                        && rest[k].inner == fewer[i].inner && rest[k].stage == fewer[i].reason
                        && rest[k].created_at_ms == fewer[i].created_at_ms;
                assert(all[k] == rest[k]);
            } else {
                assert(all[rest.len() as int].owner == Some(outbound[i].recipient));
            }
        }
        assert forall|i: int| 0 <= i < n implies #[trigger] fewer[i] == outbound[i] by {}
        if inner is None {
            assert forall|i: int| 0 <= i < outbound.len() implies (#[trigger] all[i]).owner == Some(
                outbound[i].recipient,
            ) && all[i].inner == outbound[i].inner && all[i].stage == outbound[i].reason
                && all[i].created_at_ms == outbound[i].created_at_ms && all[i].target_key
                == crate::encoding::hex_text(outbound[i].recipient.0@) by {
                if i < n {
                    assert(all[i] == rest[i]);
                    assert(fewer[i] == outbound[i]);
                }
            }
        }
    }
}

// ---------------------------------------------------------------------------
// What groups have still to be told
// ---------------------------------------------------------------------------

proof fn lemma_goals(
    gaps: Seq<GapModel>,
    own: OwnerPubkey,
    newcomers: Set<OwnerPubkey>,
    to_newcomers: Seq<u8>,
    to_others: Seq<u8>,
)
    ensures
        ({
            let all = goals(gaps, own, newcomers, to_newcomers, to_others);
            &&& forall|i: int|
                0 <= i < gaps.len() ==> all.contains(
                    goal_for(
                        gap_owner(#[trigger] gaps[i]),
                        own,
                        newcomers,
                        to_newcomers,
                        to_others,
                    ),
                )
            &&& all.no_duplicates()
            &&& forall|k: int|
                0 <= k < all.len() ==> exists|i: int|
                    0 <= i < gaps.len() && #[trigger] all[k] == goal_for(
                        gap_owner(#[trigger] gaps[i]),
                        own,
                        newcomers,
                        to_newcomers,
                        to_others,
                    )
        }),
    decreases gaps.len(),
{
    if gaps.len() > 0 {
        let fewer = gaps.drop_last();
        let n = gaps.len() - 1;
        lemma_goals(fewer, own, newcomers, to_newcomers, to_others);
        let rest = goals(fewer, own, newcomers, to_newcomers, to_others);
        let all = goals(gaps, own, newcomers, to_newcomers, to_others);
        let next = goal_for(gap_owner(gaps.last()), own, newcomers, to_newcomers, to_others);
        assert(gaps[n] == gaps.last());
        assert forall|i: int| 0 <= i < gaps.len() implies all.contains(
            goal_for(gap_owner(#[trigger] gaps[i]), own, newcomers, to_newcomers, to_others),
        ) by {
            if i < n {
                assert(fewer[i] == gaps[i]);
                let g = goal_for(gap_owner(fewer[i]), own, newcomers, to_newcomers, to_others);
                let k = choose|k: int| 0 <= k < rest.len() && rest[k] == g;
                assert(all[k] == g);
            } else if !rest.contains(next) {
                assert(all[rest.len() as int] == next);
            }
        }
        assert forall|k: int| 0 <= k < all.len() implies exists|i: int|
            0 <= i < gaps.len() && #[trigger] all[k] == goal_for(
                gap_owner(#[trigger] gaps[i]),
                own,
                newcomers,
                to_newcomers,
                to_others,
            ) by {
            if k < rest.len() {
                assert(all[k] == rest[k]);
                let i = choose|i: int|
                    0 <= i < fewer.len() && rest[k] == goal_for(
                        gap_owner(#[trigger] fewer[i]),
                        own,
                        newcomers,
                        to_newcomers,
                        to_others,
                    );
                assert(gaps[i] == fewer[i]);
            } else {
                assert(all[k] == goal_for(
                    gap_owner(gaps[n]),
                    own,
                    newcomers,
                    to_newcomers,
                    to_others,
                ));
            }
        }
        assert forall|i: int, j: int|
            0 <= i < all.len() && 0 <= j < all.len() && i != j implies all[i] != all[j] by {
            if i >= rest.len() {
                assert(rest.contains(rest[j]));
            } else if j >= rest.len() {
                assert(rest.contains(rest[i]));
            } else {
                assert(rest[i] != rest[j]);
            }
        }
    }
}

/// Each owner of whom something is missing has still to be told, once: a
/// newcomer the group as a whole, the own devices and every other owner what
/// was told. Nobody else has.
pub proof fn who_was_missed_has_still_to_be_told(
    gaps: Seq<GapModel>,
    own: OwnerPubkey,
    newcomers: Set<OwnerPubkey>,
    to_newcomers: Seq<u8>,
    to_others: Seq<u8>,
    owner: OwnerPubkey,
)
    ensures
        ({
            let all = goals(gaps, own, newcomers, to_newcomers, to_others);
            let missed = exists|i: int|
                0 <= i < gaps.len() && match #[trigger] gaps[i] {
                    GapModel::Roster(o) => o == owner,
                    GapModel::DeviceInvite(o, _, _) => o == owner,
                };
            &&& all.no_duplicates()
            &&& owner != own ==> (all.contains(
                FanoutGoal::Remote(
                    owner,
                    if newcomers.contains(owner) {
                        to_newcomers
                    } else {
                        to_others
                    },
                ),
            ) <==> missed)
            &&& owner == own ==> (all.contains(FanoutGoal::LocalSiblings(to_others)) <==> missed)
            &&& forall|payload: Seq<u8>| #[trigger]
                all.contains(FanoutGoal::Remote(owner, payload)) ==> owner != own && missed
                    && payload == if newcomers.contains(owner) {
                    to_newcomers
                } else {
                    to_others
                }
        }),
{
    lemma_goals(gaps, own, newcomers, to_newcomers, to_others);
    let all = goals(gaps, own, newcomers, to_newcomers, to_others);
    if exists|i: int|
        0 <= i < gaps.len() && match #[trigger] gaps[i] {
            GapModel::Roster(o) => o == owner,
            GapModel::DeviceInvite(o, _, _) => o == owner,
        } {
        let i = choose|i: int|
            0 <= i < gaps.len() && match #[trigger] gaps[i] {
                GapModel::Roster(o) => o == owner,
                GapModel::DeviceInvite(o, _, _) => o == owner,
            };
        assert(gap_owner(gaps[i]) == owner);
        assert(all.contains(
            goal_for(gap_owner(gaps[i]), own, newcomers, to_newcomers, to_others),
        ));
    }
    assert forall|payload: Seq<u8>| #[trigger]
        all.contains(FanoutGoal::Remote(owner, payload)) implies owner != own && payload == (
    if newcomers.contains(owner) {
        to_newcomers
    } else {
        to_others
    }) && (exists|i: int|
        0 <= i < gaps.len() && match #[trigger] gaps[i] {
            GapModel::Roster(o) => o == owner,
            GapModel::DeviceInvite(o, _, _) => o == owner,
        }) by {
        let k = choose|k: int|
            0 <= k < all.len() && all[k] == FanoutGoal::Remote(owner, payload);
        let i = choose|i: int|
            0 <= i < gaps.len() && all[k] == goal_for(
                gap_owner(#[trigger] gaps[i]),
                own,
                newcomers,
                to_newcomers,
                to_others,
            );
        assert(gap_owner(gaps[i]) == owner);
    }
    if owner == own && all.contains(FanoutGoal::LocalSiblings(to_others)) {
        let k = choose|k: int|
            0 <= k < all.len() && all[k] == FanoutGoal::LocalSiblings(to_others);
        let i = choose|i: int|
            0 <= i < gaps.len() && all[k] == goal_for(
                gap_owner(#[trigger] gaps[i]),
                own,
                newcomers,
                to_newcomers,
                to_others,
            );
        assert(gap_owner(gaps[i]) == own);
    }
}

/// What has still to be told is kept with its group, its identifier and its
/// time, beside all that was kept before; nothing is kept twice.
pub proof fn what_has_still_to_be_told_is_kept(
    known: Seq<FanoutModel>,
    group_id: Seq<char>,
    goals: Seq<FanoutGoal>,
    inner: Option<Seq<char>>,
    at: UnixMillis,
)
    ensures
        ({
            let all = fanned(known, group_id, goals, inner, at);
            &&& all.len() >= known.len()
            &&& forall|i: int| 0 <= i < known.len() ==> #[trigger] all[i] == known[i]
            &&& forall|i: int|
                0 <= i < goals.len() ==> all.contains(
                    FanoutModel { group_id, goal: #[trigger] goals[i], inner, created_at_ms: at.0 },
                )
            &&& forall|k: int|
                known.len() <= k < all.len() ==> goals.contains((#[trigger] all[k]).goal)
                    && all[k].group_id == group_id && all[k].inner == inner
                    && all[k].created_at_ms == at.0
        }),
    decreases goals.len(),
{
    if goals.len() > 0 {
        let fewer = goals.drop_last();
        let n = goals.len() - 1;
        what_has_still_to_be_told_is_kept(known, group_id, fewer, inner, at);
        let rest = fanned(known, group_id, fewer, inner, at);
        let all = fanned(known, group_id, goals, inner, at);
        let next = fanout_to(group_id, goals.last(), inner, at);
        assert(goals[n] == goals.last());
        assert forall|i: int| 0 <= i < goals.len() implies all.contains(
            FanoutModel { group_id, goal: #[trigger] goals[i], inner, created_at_ms: at.0 },
        ) by {
            if i < n {
                assert(fewer[i] == goals[i]);
                let f = FanoutModel { group_id, goal: goals[i], inner, created_at_ms: at.0 };
                let k = choose|k: int| 0 <= k < rest.len() && rest[k] == f;
                assert(all[k] == f);
            } else if !rest.contains(next) {
                assert(all[rest.len() as int] == next);
            }
        }
        assert forall|k: int| known.len() <= k < all.len() implies goals.contains(
            (#[trigger] all[k]).goal,
        ) && all[k].group_id == group_id && all[k].inner == inner && all[k].created_at_ms
            == at.0 by {
            if k < rest.len() {
                assert(all[k] == rest[k]);
                let i = choose|i: int| 0 <= i < fewer.len() && fewer[i] == rest[k].goal;
                assert(goals[i] == all[k].goal);
            } else {
                assert(goals[n] == all[k].goal);
            }
        }
    }
}

// ---------------------------------------------------------------------------
// Hearing of groups
// ---------------------------------------------------------------------------

/// What is heard of a group takes effect at once: the groups are then as what
/// was heard makes them before what waits is heard, and it is the first that is
/// shown. The state is stored.
pub proof fn group_news_take_effect(
    c: CoreModel,
    sender: OwnerPubkey,
    device: Option<DevicePubkey>,
    payload: Seq<u8>,
    at: UnixMillis,
    outcomes: Seq<SenderKeyOutcomeModel>,
)
    ensures
        ({
            let (after, result) = incoming(c, sender, device, payload, at, outcomes);
            let p = payload_of_bytes(payload);
            &&& p is None ==> after == c && result.events.len() == 0 && result.effects.len() == 0
            &&& p matches Some(told) ==> match heard(c.state.groups.groups, sender, told) {
                Ok((groups, event)) => {
                    &&& result.events.len() > 0 && result.events[0] == event
                    &&& result.effects.len() > 0 && result.effects[0] == persist(after.state)
                    &&& c.state.payloads.len() == 0 ==> after.state.groups.groups == groups
                    &&& after.state.core == c.state.core
                    &&& after.state.outbound == c.state.outbound
                    &&& after.state.publishes == c.state.publishes
                    &&& after.state.deliveries == c.state.deliveries
                    &&& after.state.fanouts == c.state.fanouts
                },
                Err(_) => after.state.groups == c.state.groups && result.events.len() == 0,
            }
            &&& forall|i: int|
                0 <= i < after.state.payloads.len() ==> c.state.payloads.contains(
                    #[trigger] after.state.payloads[i],
                ) || after.state.payloads[i] == (PairwiseModel {
                    sender,
                    device,
                    payload,
                    created_at_ms: at.0,
                })
        }),
{
    let (after, result) = incoming(c, sender, device, payload, at, outcomes);
    if let Hearing::Event(groups, event) = hearing(c.state.groups, sender, payload) {
        lemma_retold(groups, c.state.payloads);
    }
    assert forall|i: int| 0 <= i < after.state.payloads.len() implies c.state.payloads.contains(
        #[trigger] after.state.payloads[i],
    ) || after.state.payloads[i] == (PairwiseModel {
        sender,
        device,
        payload,
        created_at_ms: at.0,
    }) by {
        if i < c.state.payloads.len() && after.state.payloads[i] == c.state.payloads[i] {
            assert(c.state.payloads.contains(c.state.payloads[i]));
        }
    }
}

proof fn lemma_retold(m: GroupsModel, pending: Seq<PairwiseModel>)
    ensures
        forall|i: int|
            0 <= i < retold(m, pending).waiting.len() ==> pending.contains(
                #[trigger] retold(m, pending).waiting[i],
            ),
        retold(m, pending).waiting.len() + retold(m, pending).events.len() <= pending.len(),
    decreases pending.len(),
{
    if pending.len() > 0 {
        let fewer = pending.drop_last();
        lemma_retold(m, fewer);
        let rest = retold(m, fewer);
        let all = retold(m, pending);
        assert forall|i: int| 0 <= i < all.waiting.len() implies pending.contains(
            #[trigger] all.waiting[i],
        ) by {
            if i < rest.waiting.len() {
                assert(all.waiting[i] == rest.waiting[i]);
                let k = choose|k: int| 0 <= k < fewer.len() && fewer[k] == rest.waiting[i];
                assert(pending[k] == all.waiting[i]);
            } else {
                assert(pending[pending.len() - 1] == all.waiting[i]);
            }
        }
    }
}

/// What comes of a group that is not known waits, word for word, until the group
/// is; it is stored, and nothing else changes.
pub proof fn news_of_unknown_groups_wait(
    c: CoreModel,
    sender: OwnerPubkey,
    device: Option<DevicePubkey>,
    payload: Seq<u8>,
    at: UnixMillis,
    outcomes: Seq<SenderKeyOutcomeModel>,
    id: Seq<char>,
    revision: u64,
    body: Seq<u8>,
)
    requires
        payload_of_bytes(payload) == Some(
            crate::group_wire::GroupPayloadModel::Message { group_id: id, revision, body },
        ),
        !c.state.groups.groups.contains_key(id),
    ensures
        ({
            let (after, result) = incoming(c, sender, device, payload, at, outcomes);
            &&& after.state.payloads.contains(
                PairwiseModel { sender, device, payload, created_at_ms: at.0 },
            )
            &&& forall|i: int|
                0 <= i < c.state.payloads.len() ==> #[trigger] after.state.payloads[i]
                    == c.state.payloads[i]
            &&& after.state.groups == c.state.groups
            &&& result.events.len() == 0
            &&& after != c ==> result.effects == seq![persist(after.state)]
        }),
{
    let start = "unknown group `"@;
    let text = start + id + "`"@;
    assert(text.take(start.len() as int) =~= start);
    assert(super::groups::of_unknown_group(text));
    let next = told_by(sender, device, payload, at);
    let after = incoming(c, sender, device, payload, at, outcomes).0;
    if !c.state.payloads.contains(next) {
        assert(after.state.payloads[c.state.payloads.len() as int] == next);
    }
}

// ---------------------------------------------------------------------------
// Accepting an invite
// ---------------------------------------------------------------------------

/// Once an invite is accepted its device acts for its owner and can be written
/// to: it is authorized and its invite is known. The owner is the one that the
/// caller names, else the one that the invite names, else the inviter. No other
/// owner is touched.
pub proof fn accepted_inviters_can_be_written_to(
    m: ManagerModel,
    invite: InviteModel,
    hint: Option<OwnerPubkey>,
    now: UnixSeconds,
)
    requires
        ({
            let roster = user_or_fresh(m, inviting_owner(invite, hint)).roster;
            roster is None || roster->Some_0.created_at.0 <= now.0
        }),
    ensures
        hint matches Some(owner) ==> inviting_owner(invite, hint) == owner,
        hint is None && invite.owner is Some ==> Some(inviting_owner(invite, hint))
            == invite.owner,
        hint is None && invite.owner is None ==> inviting_owner(invite, hint) == invite.inviter,
        ({
            let owner = inviting_owner(invite, hint);
            let device = invite.inviter.device();
            let after = with_accepted(m, invite, owner, now);
            &&& after.users.contains_key(owner)
            &&& after.users[owner].roster matches Some(roster) && roster.devices.contains_key(
                device,
            )
            &&& after.users[owner].devices.contains_key(device)
            &&& after.users[owner].devices[device].authorized
            &&& !after.users[owner].devices[device].is_stale
            &&& after.users[owner].devices[device].public_invite is Some
            &&& forall|other: OwnerPubkey|
                other != owner ==> after.users.contains_key(other) == m.users.contains_key(other)
                    && #[trigger] after.users[other] == m.users[other]
        }),
{
    let owner = inviting_owner(invite, hint);
    let device = invite.inviter.device();
    let list = seq![
        crate::roster::AuthorizedDevice { device_pubkey: device, created_at: invite.created_at },
    ];
    crate::device_properties::rosters_have_what_they_are_made_of(list);
    assert(list[0].device_pubkey == device);
    assert(crate::roster::device_times(list).contains_key(device));
}

/// When all that waits of groups is heard once more, one after the other, each
/// piece of news takes effect and is shown, or waits on where the group is still
/// not known; it is gone only if it is no news at all or is refused for good.
/// Nothing waits then that did not wait before.
pub proof fn what_waits_is_heard_once_more(m: GroupsModel, pending: Seq<PairwiseModel>)
    ensures
        ({
            let r = retold(m, pending);
            &&& r.waiting.len() + r.events.len() <= pending.len()
            &&& forall|i: int|
                0 <= i < pending.len() ==> {
                    let was = retold(m, #[trigger] pending.take(i)).groups;
                    let is_now = retold(m, pending.take(i + 1)).groups;
                    match hearing(was, pending[i].sender, pending[i].payload) {
                        Hearing::Event(next, event) => is_now == next && r.events.contains(event),
                        Hearing::Later => is_now == was && r.waiting.contains(pending[i]),
                        _ => is_now == was,
                    }
                }
            &&& forall|k: int|
                0 <= k < r.waiting.len() ==> pending.contains(#[trigger] r.waiting[k])
            &&& pending.len() == 0 ==> r.groups == m
            &&& pending.len() > 0 ==> r.groups == retold(m, pending.take(pending.len() as int)).groups
        }),
    decreases pending.len(),
{
    let r = retold(m, pending);
    assert(pending.take(pending.len() as int) =~= pending);
    if pending.len() > 0 {
        let n = pending.len() - 1;
        let fewer = pending.drop_last();
        let rest = retold(m, fewer);
        what_waits_is_heard_once_more(m, fewer);
        assert(pending.take(n) =~= fewer);
        assert forall|i: int| 0 <= i < pending.len() implies {
            let was = retold(m, #[trigger] pending.take(i)).groups;
            let is_now = retold(m, pending.take(i + 1)).groups;
            match hearing(was, pending[i].sender, pending[i].payload) {
                Hearing::Event(next, event) => is_now == next && r.events.contains(event),
                Hearing::Later => is_now == was && r.waiting.contains(pending[i]),
                _ => is_now == was,
            }
        } by {
            if i < n {
                assert(pending.take(i) =~= fewer.take(i));
                assert(pending.take(i + 1) =~= fewer.take(i + 1));
                assert(fewer[i] == pending[i]);
                match hearing(
                    retold(m, fewer.take(i)).groups,
                    pending[i].sender,
                    pending[i].payload,
                ) {
                    Hearing::Event(_, event) => {
                        let k = choose|k: int| 0 <= k < rest.events.len() && rest.events[k] == event;
                        assert(r.events[k] == event);
                    },
                    Hearing::Later => {
                        let k = choose|k: int|
                            0 <= k < rest.waiting.len() && rest.waiting[k] == pending[i];
                        assert(r.waiting[k] == pending[i]);
                    },
                    _ => {},
                }
            } else {
                match hearing(rest.groups, pending[n].sender, pending[n].payload) {
                    Hearing::Event(_, event) => {
                        assert(r.events[r.events.len() - 1] == event);
                    },
                    Hearing::Later => {
                        assert(r.waiting[r.waiting.len() - 1] == pending[n]);
                    },
                    _ => {},
                }
            }
        }
        assert forall|k: int| 0 <= k < r.waiting.len() implies pending.contains(
            #[trigger] r.waiting[k],
        ) by {
            if k < rest.waiting.len() {
                assert(rest.waiting[k] == r.waiting[k]);
                let j = choose|j: int| 0 <= j < fewer.len() && fewer[j] == rest.waiting[k];
                assert(pending[j] == r.waiting[k]);
            } else {
                assert(pending[n] == r.waiting[k]);
            }
        }
    }
}

/// A message that waited for its sender's key waits on as long as the sender is
/// not known or more is missing; what it says is shown once it can be read.
pub proof fn messages_wait_on_until_they_can_be_read(
    senders: Map<DevicePubkey, Seq<char>>,
    pending: Seq<SenderKeyModel>,
    outcomes: Seq<SenderKeyOutcomeModel>,
)
    ensures
        ({
            let r = resumed(senders, pending, outcomes);
            &&& r.waiting.len() + r.events.len() <= pending.len()
            &&& forall|i: int|
                0 <= i < pending.len() && (!senders.contains_key((#[trigger] pending[i]).sender)
                    || i >= outcomes.len() || outcomes[i] is Pending) ==> r.waiting.contains(
                    pending[i],
                )
            &&& forall|i: int|
                0 <= i < pending.len() && senders.contains_key((#[trigger] pending[i]).sender) && i
                    < outcomes.len() && outcomes[i] is Event ==> r.events.contains(
                    outcomes[i]->Event_0,
                )
            &&& forall|k: int|
                0 <= k < r.waiting.len() ==> pending.contains(#[trigger] r.waiting[k])
        }),
    decreases pending.len(),
{
    if pending.len() > 0 {
        let n = pending.len() - 1;
        let fewer = pending.drop_last();
        let r = resumed(senders, pending, outcomes);
        let rest = resumed(senders, fewer, outcomes);
        messages_wait_on_until_they_can_be_read(senders, fewer, outcomes);
        assert forall|i: int|
            0 <= i < pending.len() && (!senders.contains_key((#[trigger] pending[i]).sender) || i
                >= outcomes.len() || outcomes[i] is Pending) implies r.waiting.contains(
            pending[i],
        ) by {
            if i < n {
                assert(fewer[i] == pending[i]);
                let k = choose|k: int|
                    0 <= k < rest.waiting.len() && rest.waiting[k] == pending[i];
                assert(r.waiting[k] == pending[i]);
            } else {
                assert(r.waiting[r.waiting.len() - 1] == pending[i]);
            }
        }
        assert forall|i: int|
            0 <= i < pending.len() && senders.contains_key((#[trigger] pending[i]).sender) && i
                < outcomes.len() && outcomes[i] is Event implies r.events.contains(
            outcomes[i]->Event_0,
        ) by {
            if i < n {
                assert(fewer[i] == pending[i]);
                let k = choose|k: int|
                    0 <= k < rest.events.len() && rest.events[k] == outcomes[i]->Event_0;
                assert(r.events[k] == outcomes[i]->Event_0);
            } else {
                assert(r.events[r.events.len() - 1] == outcomes[i]->Event_0);
            }
        }
        assert forall|k: int| 0 <= k < r.waiting.len() implies pending.contains(
            #[trigger] r.waiting[k],
        ) by {
            if k < rest.waiting.len() {
                assert(rest.waiting[k] == r.waiting[k]);
                let j = choose|j: int| 0 <= j < fewer.len() && fewer[j] == rest.waiting[k];
                assert(pending[j] == r.waiting[k]);
            } else {
                assert(pending[n] == r.waiting[k]);
            }
        }
    }
}

/// When news of a group takes effect, all that waits is heard once more after
/// it, and the news is shown first and the rest behind it.
pub proof fn news_make_all_that_waits_be_heard(
    c: CoreModel,
    sender: OwnerPubkey,
    device: Option<DevicePubkey>,
    payload: Seq<u8>,
    at: UnixMillis,
    outcomes: Seq<SenderKeyOutcomeModel>,
    groups: GroupsModel,
    event: GroupEventModel,
)
    requires
        hearing(c.state.groups, sender, payload) == Hearing::Event(groups, event),
    ensures
        ({
            let (after, result) = incoming(c, sender, device, payload, at, outcomes);
            let again = retold(groups, c.state.payloads);
            let more = resumed(c.state.senders, c.state.sender_keys, outcomes);
            &&& after.state.groups == again.groups
            &&& after.state.payloads == again.waiting
            &&& after.state.sender_keys == more.waiting
            &&& after.state.core == c.state.core
            &&& after.state.outbound == c.state.outbound
            &&& after.state.inbound == c.state.inbound
            &&& after.state.fanouts == c.state.fanouts
            &&& after.state.publishes == c.state.publishes
            &&& result.events.len() > 0
            &&& result.events[0] == event
            &&& forall|k: int|
                0 <= k < again.events.len() ==> result.events.contains(#[trigger] again.events[k])
            &&& forall|k: int|
                0 <= k < more.events.len() ==> result.events.contains(#[trigger] more.events[k])
            &&& result.effects.contains(persist(after.state))
        }),
{
    let (after, result) = incoming(c, sender, device, payload, at, outcomes);
    let again = retold(groups, c.state.payloads);
    let more = resumed(c.state.senders, c.state.sender_keys, outcomes);
    assert forall|k: int| 0 <= k < again.events.len() implies result.events.contains(
        #[trigger] again.events[k],
    ) by {
        assert(result.events[k + 1] == again.events[k]);
    }
    assert forall|k: int| 0 <= k < more.events.len() implies result.events.contains(
        #[trigger] more.events[k],
    ) by {
        assert(result.events[again.events.len() + 1 + k] == more.events[k]);
    }
    assert(result.effects[0] == persist(after.state));
}

} // verus!
