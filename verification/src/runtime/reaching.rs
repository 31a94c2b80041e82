//! What waits is sent once those it is for can be reached.
use vstd::prelude::*;
use super::effects::{persist, publish_all, staging, EffectModel, RuntimePublishResult};
use super::inbox::{hears_invite, ingests, outdated, with_keys};
use super::outbox::{
    attempted, dispatched, letter_of, outcome, refresh_core, sync_core, sync_effects, unsignable,
    with_core, Attempt, CoreModel, Letter, Moment,
};
use super::properties::told_with;
use super::retry::{
    fanout_effects, fanout_step, fans_out_again, reaches_out, reacts, reacts_by, retries,
    retries_fanouts, retries_outbound, retry_step, with_failed, with_failed_fanouts,
    without_fanouts, without_outbound, FanoutOutcome, FanoutTrace, RetryTrace,
};
use super::store::{FanoutGoal, FanoutModel, OutboundModel, PublishModel};
use super::waiting::{lemma_sent, lemma_sent_stays_whole, misses, sent_whole};
use crate::app_keys::AppKeysModel;
use crate::codec::nostr::invite_of_event;
use crate::error::Error;
use crate::event::SignedBody;
use crate::ids::{DevicePubkey, OwnerPubkey, UnixSeconds};
use crate::invite::InviteModel;
use crate::keeping::{acts_for, lemma_gaps, remote_and_own_devices_get_their_part};
use crate::session_manager::{
    finite, gap_models, invite_owner, outcome_fits, prepares, prepares_with, record_of,
    remote_audience, sibling_audience, with_invite, Audience, DeviceOutcome, GapModel, ManagerModel,
    PreparedSend,
};

verus! {

/// Whether the invite of every device that acts for an owner is known, but for
/// the own one.
pub open spec fn devices_can_be_reached(m: ManagerModel, owner: OwnerPubkey) -> bool {
    forall|d: DevicePubkey| #[trigger]
        acts_for(m, owner, d) && d != m.device ==> m.users[owner].devices[d].public_invite is Some
}

/// Whether an owner can be reached: its roster is known, and the invites of all
/// its devices are.
pub open spec fn owner_can_be_reached(m: ManagerModel, owner: OwnerPubkey) -> bool {
    &&& m.users.contains_key(owner)
    &&& m.users[owner].roster is Some
    &&& devices_can_be_reached(m, owner)
}

/// Whether nothing is missing to send a message: its recipient can be reached,
/// and the own devices if they get a copy.
pub open spec fn can_go_out(m: ManagerModel, letter: Letter) -> bool {
    &&& owner_can_be_reached(m, letter.recipient)
    &&& letter.local is Some ==> devices_can_be_reached(m, m.owner)
}

/// Whether two states have the same rosters and the same devices with the same
/// rights and invites.
pub open spec fn same_reach(a: ManagerModel, b: ManagerModel) -> bool {
    &&& a.owner == b.owner
    &&& a.device == b.device
    &&& a.users.dom() == b.users.dom()
    &&& forall|o: OwnerPubkey| #[trigger]
        a.users.contains_key(o) ==> a.users[o].roster == b.users[o].roster
            && a.users[o].devices.dom() == b.users[o].devices.dom()
    &&& forall|o: OwnerPubkey, d: DevicePubkey|
        a.users.contains_key(o) && #[trigger] a.users[o].devices.contains_key(d) ==> {
            &&& a.users[o].devices[d].authorized == b.users[o].devices[d].authorized
            &&& a.users[o].devices[d].is_stale == b.users[o].devices[d].is_stale
            &&& a.users[o].devices[d].public_invite == b.users[o].devices[d].public_invite
        }
}

proof fn lemma_same_reach(a: ManagerModel, b: ManagerModel, letter: Letter)
    requires
        same_reach(a, b),
    ensures
        finite(a) ==> finite(b),
        can_go_out(a, letter) ==> can_go_out(b, letter),
{
    assert forall|o: OwnerPubkey, d: DevicePubkey| #[trigger] acts_for(b, o, d) implies acts_for(
        a,
        o,
        d,
    ) && a.users[o].devices[d].public_invite == b.users[o].devices[d].public_invite by {
        assert(b.users.dom().contains(o));
        assert(a.users.dom().contains(o));
        assert(a.users.contains_key(o));
        assert(b.users[o].devices.dom().contains(d));
        assert(a.users[o].devices.dom().contains(d));
        assert(a.users[o].devices.contains_key(d));
    }
    if can_go_out(a, letter) {
        assert(a.users.dom().contains(letter.recipient));
        assert(b.users.dom().contains(letter.recipient));
    }
    if finite(a) {
        assert forall|o: OwnerPubkey| #[trigger] b.users.contains_key(o) implies b.users[o].devices.dom().finite() by {
            assert(b.users.dom().contains(o));
            assert(a.users.dom().contains(o));
            assert(a.users.contains_key(o));
        }
    }
}

proof fn lemma_reach_joins(a: ManagerModel, b: ManagerModel, c: ManagerModel)
    requires
        same_reach(a, b),
        same_reach(b, c),
    ensures
        same_reach(a, c),
{
    assert forall|o: OwnerPubkey| #[trigger] a.users.contains_key(o) implies a.users[o].roster
        == c.users[o].roster && a.users[o].devices.dom() == c.users[o].devices.dom() by {
        assert(a.users.dom().contains(o));
        assert(b.users.dom().contains(o));
        assert(b.users.contains_key(o));
    }
    assert forall|o: OwnerPubkey, d: DevicePubkey|
        a.users.contains_key(o) && #[trigger] a.users[o].devices.contains_key(d) implies {
        &&& a.users[o].devices[d].authorized == c.users[o].devices[d].authorized
        &&& a.users[o].devices[d].is_stale == c.users[o].devices[d].is_stale
        &&& a.users[o].devices[d].public_invite == c.users[o].devices[d].public_invite
    } by {
        assert(a.users.dom().contains(o));
        assert(b.users.dom().contains(o));
        assert(b.users.contains_key(o));
        assert(a.users[o].devices.dom().contains(d));
        assert(b.users[o].devices.dom().contains(d));
        assert(b.users[o].devices.contains_key(d));
    }
}

/// Sending changes nothing of who can be reached.
proof fn lemma_preparing_keeps_reach(
    before: ManagerModel,
    after: ManagerModel,
    now: UnixSeconds,
    recipient: OwnerPubkey,
    to: Audience,
    payload: Seq<u8>,
    r: Result<PreparedSend, Error>,
)
    requires
        prepares(before, after, now, recipient, to, payload, r),
    ensures
        same_reach(before, after),
{
    if let Ok(prepared) = r {
        let outcomes = choose|outcomes: Seq<DeviceOutcome>| #[trigger]
            prepares_with(before, after, now, recipient, to, payload, outcomes, prepared);
        assert forall|o: OwnerPubkey, d: DevicePubkey|
            before.users.contains_key(o) && #[trigger] before.users[o].devices.contains_key(
                d,
            ) implies {
            &&& before.users[o].devices[d].authorized == after.users[o].devices[d].authorized
            &&& before.users[o].devices[d].is_stale == after.users[o].devices[d].is_stale
            &&& before.users[o].devices[d].public_invite == after.users[o].devices[d].public_invite
        } by {
            let t = (o, d);
            if to.devices.contains(t) {
                let i = choose|i: int| 0 <= i < to.devices.len() && to.devices[i] == t;
                assert(outcome_fits(before, after, now, payload, to.devices, outcomes, i));
                assert(record_of(before, t) == before.users[o].devices[d]);
                assert(record_of(after, t) == after.users[o].devices[d]);
            } else {
                assert(record_of(after, t) == record_of(before, t));
            }
        }
    }
}

proof fn lemma_nothing_missing(
    before: ManagerModel,
    after: ManagerModel,
    now: UnixSeconds,
    recipient: OwnerPubkey,
    payload: Seq<u8>,
    prepared: PreparedSend,
    own: bool,
)
    requires
        finite(before),
        prepares(
            before,
            after,
            now,
            recipient,
            if own {
                sibling_audience(before)
            } else {
                remote_audience(before, recipient)
            },
            payload,
            Ok(prepared),
        ),
        own ==> recipient == before.owner,
        !own ==> owner_can_be_reached(before, recipient),
        devices_can_be_reached(before, recipient),
    ensures
        prepared.relay_gaps@.len() == 0,
{
    let gaps = gap_models(prepared.relay_gaps@);
    if prepared.relay_gaps@.len() > 0 {
        let gap = gaps[0];
        assert(gaps.contains(gap));
        match gap {
            GapModel::Roster(o) => {
                remote_and_own_devices_get_their_part(
                    before,
                    after,
                    now,
                    recipient,
                    payload,
                    prepared,
                    o,
                    before.device,
                );
                if own {
                    lemma_own_gaps(before, after, now, recipient, payload, prepared, o);
                }
            },
            GapModel::DeviceInvite(o, d, name) => {
                remote_and_own_devices_get_their_part(
                    before,
                    after,
                    now,
                    recipient,
                    payload,
                    prepared,
                    o,
                    d,
                );
                assert(acts_for(before, o, d));
            },
        }
    }
}

proof fn lemma_own_gaps(
    before: ManagerModel,
    after: ManagerModel,
    now: UnixSeconds,
    recipient: OwnerPubkey,
    payload: Seq<u8>,
    prepared: PreparedSend,
    o: OwnerPubkey,
)
    requires
        finite(before),
        prepares(before, after, now, recipient, sibling_audience(before), payload, Ok(prepared)),
        recipient == before.owner,
    ensures
        !gap_models(prepared.relay_gaps@).contains(GapModel::Roster(o)),
{
    let to = sibling_audience(before);
    let outcomes = choose|outcomes: Seq<DeviceOutcome>| #[trigger]
        prepares_with(before, after, now, recipient, to, payload, outcomes, prepared);
    lemma_gaps(before, to.gaps, to.devices, outcomes, GapModel::Roster(o));
}

/// Whether what was encrypted of a message cannot be signed.
pub open spec fn cannot_be_signed(remote: PreparedSend, local: Option<PreparedSend>) -> bool {
    ||| unsignable(remote.deliveries@, remote.invite_responses@)
    ||| local matches Some(own) && unsignable(own.deliveries@, own.invite_responses@)
}

/// Whether encrypting or signing a message failed, with the rosters and invites
/// of a state.
pub open spec fn sending_fails(m: ManagerModel, at: Moment, letter: Letter) -> bool {
    exists|x: ManagerModel, y: ManagerModel, a: Attempt|
        same_reach(m, x) && #[trigger] attempted(x, y, at, letter, a) && match outcome(a) {
            Ok((remote, local)) => cannot_be_signed(remote, local),
            Err(_) => true,
        }
}

proof fn lemma_goes_out(
    before: CoreModel,
    after: CoreModel,
    at: Moment,
    letter: Letter,
    a: Attempt,
    r: Result<RuntimePublishResult, Error>,
)
    requires
        finite(before.state.core),
        dispatched(before, after, at, letter, a, r),
    ensures
        same_reach(before.state.core, after.state.core),
        can_go_out(before.state.core, letter) ==> {
            ||| r is Ok && sent_whole(letter, r->Ok_0@.effects)
            ||| sending_fails(before.state.core, at, letter)
        },
{
    let m = before.state.core;
    lemma_preparing_keeps_reach(
        m,
        a.mid,
        at.secs,
        letter.recipient,
        remote_audience(m, letter.recipient),
        letter.remote,
        a.remote,
    );
    if a.remote is Ok && letter.local is Some {
        lemma_preparing_keeps_reach(
            a.mid,
            after.state.core,
            at.secs,
            a.mid.owner,
            sibling_audience(a.mid),
            letter.local->Some_0,
            a.local->Some_0,
        );
        lemma_reach_joins(m, a.mid, after.state.core);
    }
    if can_go_out(m, letter) && outcome(a) is Ok {
        let (remote, local) = outcome(a)->Ok_0;
        lemma_nothing_missing(
            m,
            a.mid,
            at.secs,
            letter.recipient,
            letter.remote,
            remote,
            false,
        );
        if letter.local is Some {
            lemma_same_reach(m, a.mid, letter);
            assert(a.mid.owner == m.owner);
            lemma_nothing_missing(
                a.mid,
                after.state.core,
                at.secs,
                a.mid.owner,
                letter.local->Some_0,
                local->Some_0,
                true,
            );
        }
        assert(!misses(remote, local));
        if r is Ok {
            lemma_sent(before, after, at, letter, a, r);
        }
    }
    assert(same_reach(m, m));
    assert(attempted(m, after.state.core, at, letter, a));
}

/// What fails with the rosters and invites of a state, fails with those of one
/// like it.
proof fn lemma_fails_alike(a: ManagerModel, b: ManagerModel, at: Moment, letter: Letter)
    requires
        same_reach(a, b),
        sending_fails(b, at, letter),
    ensures
        sending_fails(a, at, letter),
{
    let (x, y, t) = choose|x: ManagerModel, y: ManagerModel, t: Attempt|
        same_reach(b, x) && #[trigger] attempted(x, y, at, letter, t) && match outcome(t) {
            Ok((remote, local)) => cannot_be_signed(remote, local),
            Err(_) => true,
        };
    lemma_reach_joins(a, b, x);
    assert(attempted(x, y, at, letter, t));
}

proof fn lemma_retries_reach(
    start: CoreModel,
    at: Moment,
    messages: Seq<OutboundModel>,
    t: RetryTrace,
)
    requires
        retries(start, at, messages, t),
        finite(start.state.core),
    ensures
        same_reach(start.state.core, t.core.state.core),
        finite(t.core.state.core),
        forall|i: int|
            0 <= i < messages.len() && can_go_out(
                start.state.core,
                letter_of(#[trigger] messages[i]),
            ) ==> sent_whole(letter_of(messages[i]), t.effects) || sending_fails(
                start.state.core,
                at,
                letter_of(messages[i]),
            ),
    decreases messages.len(),
{
    if messages.len() == 0 {
        assert(same_reach(start.state.core, start.state.core));
    } else {
        let n = messages.len() - 1;
        let fewer = messages.drop_last();
        let (prev, r) = choose|prev: RetryTrace, r: Result<RuntimePublishResult, Error>| #[trigger]
            retry_step(at, messages.last(), prev, t, r) && retries(start, at, fewer, prev);
        lemma_retries_reach(start, at, fewer, prev);
        let letter = letter_of(messages.last());
        let a = choose|a: Attempt| #[trigger] dispatched(prev.core, t.core, at, letter, a, r);
        lemma_goes_out(prev.core, t.core, at, letter, a, r);
        lemma_reach_joins(start.state.core, prev.core.state.core, t.core.state.core);
        lemma_same_reach(start.state.core, prev.core.state.core, letter);
        lemma_same_reach(start.state.core, t.core.state.core, letter);
        assert forall|i: int|
            0 <= i < messages.len() && can_go_out(
                start.state.core,
                letter_of(#[trigger] messages[i]),
            ) implies sent_whole(letter_of(messages[i]), t.effects) || sending_fails(
            start.state.core,
            at,
            letter_of(messages[i]),
        ) by {
            let l = letter_of(messages[i]);
            if i < n {
                assert(fewer[i] == messages[i]);
                if sent_whole(l, prev.effects) {
                    assert forall|j: int| 0 <= j < prev.effects.len() implies t.effects.contains(
                        #[trigger] prev.effects[j],
                    ) by {
                        assert(t.effects[j] == prev.effects[j]);
                    }
                    lemma_sent_stays_whole(l, prev.effects, t.effects);
                }
            } else {
                if r is Ok && sent_whole(l, r->Ok_0@.effects) {
                    let few = r->Ok_0@.effects;
                    assert forall|j: int| 0 <= j < few.len() implies t.effects.contains(
                        #[trigger] few[j],
                    ) by {
                        assert(t.effects[prev.effects.len() + j] == few[j]);
                    }
                    lemma_sent_stays_whole(l, few, t.effects);
                } else {
                    lemma_fails_alike(start.state.core, prev.core.state.core, at, l);
                }
            }
        }
    }
}

/// When all waiting messages are tried again, each of them for which nothing is
/// missing is sent in full; nothing but encrypting or signing it can fail.
pub proof fn messages_that_can_go_out_do(
    before: CoreModel,
    after: CoreModel,
    at: Moment,
    effects: Seq<EffectModel>,
)
    requires
        retries_outbound(before, after, at, effects),
        finite(before.state.core),
    ensures
        forall|i: int|
            0 <= i < before.state.outbound.len() && can_go_out(
                before.state.core,
                letter_of(#[trigger] before.state.outbound[i]),
            ) ==> sent_whole(letter_of(before.state.outbound[i]), effects) || sending_fails(
                before.state.core,
                at,
                letter_of(before.state.outbound[i]),
            ),
{
    let messages = before.state.outbound;
    let t = choose|t: RetryTrace| #[trigger]
        retries(without_outbound(before), at, messages, t) && after == with_failed(t) && effects
            == t.effects.push(persist(after.state));
    lemma_retries_reach(without_outbound(before), at, messages, t);
    assert forall|i: int|
        0 <= i < messages.len() && can_go_out(
            before.state.core,
            letter_of(#[trigger] messages[i]),
        ) implies sent_whole(letter_of(messages[i]), effects) || sending_fails(
        before.state.core,
        at,
        letter_of(messages[i]),
    ) by {
        let l = letter_of(messages[i]);
        if sent_whole(l, t.effects) {
            assert forall|j: int| 0 <= j < t.effects.len() implies effects.contains(
                #[trigger] t.effects[j],
            ) by {
                assert(effects[j] == t.effects[j]);
            }
            lemma_sent_stays_whole(l, t.effects, effects);
        }
    }
}

proof fn lemma_reacting_sends(
    before: CoreModel,
    after: CoreModel,
    at: Moment,
    effects: Seq<EffectModel>,
)
    requires
        reacts(before, after, at, Ok::<Seq<EffectModel>, Error>(effects)),
        finite(before.state.core),
    ensures
        forall|i: int|
            0 <= i < before.state.outbound.len() && can_go_out(
                before.state.core,
                letter_of(#[trigger] before.state.outbound[i]),
            ) ==> sent_whole(letter_of(before.state.outbound[i]), effects) || sending_fails(
                before.state.core,
                at,
                letter_of(before.state.outbound[i]),
            ),
{
    let r = Ok::<Seq<EffectModel>, Error>(effects);
    let (mid, first, second) = choose|
        mid: CoreModel,
        first: Seq<EffectModel>,
        second: Result<Seq<EffectModel>, Error>,
    | #[trigger]
        reacts_by(before, mid, after, at, first, second) && r == match second {
            Ok(more) => Ok::<Seq<EffectModel>, Error>(seq![persist(before.state)] + first + more),
            Err(e) => Err(e),
        };
    messages_that_can_go_out_do(before, mid, at, first);
    let messages = before.state.outbound;
    assert forall|i: int|
        0 <= i < messages.len() && can_go_out(
            before.state.core,
            letter_of(#[trigger] messages[i]),
        ) implies sent_whole(letter_of(messages[i]), effects) || sending_fails(
        before.state.core,
        at,
        letter_of(messages[i]),
    ) by {
        let l = letter_of(messages[i]);
        if sent_whole(l, first) {
            assert forall|j: int| 0 <= j < first.len() implies effects.contains(
                #[trigger] first[j],
            ) by {
                assert(effects[j + 1] == first[j]);
            }
            lemma_sent_stays_whole(l, first, effects);
        }
    }
}

/// When the invite of a device comes, each waiting message for which nothing is
/// missing then is sent in full.
pub proof fn invites_send_what_waits_for_them(
    before: CoreModel,
    after: CoreModel,
    at: Moment,
    event: SignedBody,
    effects: Seq<EffectModel>,
)
    requires
        hears_invite(before, after, at, event, Ok::<Seq<EffectModel>, Error>(effects)),
        finite(before.state.core),
    ensures
        invite_of_event(event) matches Ok(invite) && {
            let known = with_invite(before.state.core, invite_owner(invite), invite);
            forall|i: int|
                0 <= i < before.state.outbound.len() && can_go_out(
                    known,
                    letter_of(#[trigger] before.state.outbound[i]),
                ) ==> sent_whole(letter_of(before.state.outbound[i]), effects) || sending_fails(
                    known,
                    at,
                    letter_of(before.state.outbound[i]),
                )
        },
{
    let invite = invite_of_event(event)->Ok_0;
    let owner = invite_owner(invite);
    let known = with_invite(before.state.core, owner, invite);
    lemma_invite_finite(before.state.core, owner, invite);
    lemma_reacting_sends(with_core(before, known), after, at, effects);
}

proof fn lemma_invite_finite(m: ManagerModel, owner: OwnerPubkey, invite: InviteModel)
    requires
        finite(m),
    ensures
        finite(with_invite(m, owner, invite)),
{
    let after = with_invite(m, owner, invite);
    assert forall|o: OwnerPubkey| #[trigger] after.users.contains_key(o) implies after.users[o].devices.dom().finite() by {
        if o != owner {
            assert(m.users.contains_key(o));
        } else if m.users.contains_key(o) {
            assert(m.users[o].devices.dom().finite());
        }
    }
}

/// When a device list comes that is not outdated, each waiting message for which
/// nothing is missing then is sent in full.
pub proof fn device_lists_send_what_waits_for_them(
    before: CoreModel,
    after: CoreModel,
    at: Moment,
    owner: OwnerPubkey,
    keys: AppKeysModel,
    created_at: u64,
    effects: Seq<EffectModel>,
)
    requires
        ingests(
            before,
            after,
            at,
            owner,
            keys,
            created_at,
            Ok::<Seq<EffectModel>, Error>(effects),
        ),
        !outdated(before.state, owner, created_at),
        finite(with_keys(before, owner, keys, created_at).state.core),
    ensures
        ({
            let known = with_keys(before, owner, keys, created_at).state.core;
            forall|i: int|
                0 <= i < before.state.outbound.len() && can_go_out(
                    known,
                    letter_of(#[trigger] before.state.outbound[i]),
                ) ==> sent_whole(letter_of(before.state.outbound[i]), effects) || sending_fails(
                    known,
                    at,
                    letter_of(before.state.outbound[i]),
                )
        }),
{
    let start = with_keys(before, owner, keys, created_at);
    let r = Ok::<Seq<EffectModel>, Error>(effects);
    let (mid, first) = choose|mid: CoreModel, first: Result<Seq<EffectModel>, Error>| #[trigger]
        reacts(start, mid, at, first) && match first {
            Ok(all) => after == sync_core(mid) && r == Ok::<Seq<EffectModel>, Error>(
                all.push(refresh_core(mid)) + sync_effects(mid),
            ),
            Err(e) => after == mid && r == Err::<Seq<EffectModel>, Error>(e),
        };
    let few = first->Ok_0;
    lemma_reacting_sends(start, mid, at, few);
    let messages = before.state.outbound;
    assert forall|i: int|
        0 <= i < messages.len() && can_go_out(
            start.state.core,
            letter_of(#[trigger] messages[i]),
        ) implies sent_whole(letter_of(messages[i]), effects) || sending_fails(
        start.state.core,
        at,
        letter_of(messages[i]),
    ) by {
        let l = letter_of(messages[i]);
        assert(start.state.outbound[i] == messages[i]);
        if sent_whole(l, few) {
            assert forall|j: int| 0 <= j < few.len() implies effects.contains(
                #[trigger] few[j],
            ) by {
                assert(effects[j] == few[j]);
            }
            lemma_sent_stays_whole(l, few, effects);
        }
    }
}

// ---------------------------------------------------------------------------
// What groups have still to be told
// ---------------------------------------------------------------------------

/// Whom something of a group has to reach.
pub open spec fn meant_owner(goal: FanoutGoal, own: OwnerPubkey) -> OwnerPubkey {
    match goal {
        FanoutGoal::Remote(owner, _) => owner,
        FanoutGoal::LocalSiblings(_) => own,
    }
}

/// Whether nothing is missing to tell those something of a group who have still
/// to be told.
pub open spec fn can_be_told(m: ManagerModel, goal: FanoutGoal) -> bool {
    match goal {
        FanoutGoal::Remote(owner, _) => owner_can_be_reached(m, owner),
        FanoutGoal::LocalSiblings(_) => devices_can_be_reached(m, m.owner),
    }
}

/// Whether something of a group was encrypted for those it has to reach, nothing
/// was missing, and all its events are to be published.
pub open spec fn is_told(f: FanoutModel, own: OwnerPubkey, effects: Seq<EffectModel>) -> bool {
    exists|sent: PreparedSend, pending: Seq<PublishModel>, ids: Seq<Seq<char>>| #[trigger]
        told_with(f, effects, sent, pending, ids) && sent.recipient_owner == meant_owner(
            f.goal,
            own,
        )
}

/// Whether encrypting it failed, with the rosters and invites of a state.
pub open spec fn telling_fails(m: ManagerModel, at: Moment, goal: FanoutGoal) -> bool {
    exists|x: ManagerModel, y: ManagerModel, e: Error|
        same_reach(m, x) && #[trigger] reaches_out(x, y, at, goal, Err::<PreparedSend, Error>(e))
}

proof fn lemma_told_stays_told(
    f: FanoutModel,
    own: OwnerPubkey,
    few: Seq<EffectModel>,
    many: Seq<EffectModel>,
)
    requires
        is_told(f, own, few),
        forall|j: int| 0 <= j < few.len() ==> many.contains(#[trigger] few[j]),
    ensures
        is_told(f, own, many),
{
    let (sent, pending, ids) = choose|
        sent: PreparedSend,
        pending: Seq<PublishModel>,
        ids: Seq<Seq<char>>,
    | #[trigger]
        told_with(f, few, sent, pending, ids) && sent.recipient_owner == meant_owner(f.goal, own);
    let wanted = publish_all(pending);
    assert forall|i: int| 0 <= i < wanted.len() implies many.contains(#[trigger] wanted[i]) by {
        assert(few.contains(wanted[i]));
        let j = choose|j: int| 0 <= j < few.len() && few[j] == wanted[i];
        assert(many.contains(few[j]));
    }
    assert(told_with(f, many, sent, pending, ids));
}

proof fn lemma_reach_of_goal(a: ManagerModel, b: ManagerModel, goal: FanoutGoal)
    requires
        same_reach(a, b),
        can_be_told(a, goal),
    ensures
        can_be_told(b, goal),
{
    let letter = Letter {
        recipient: meant_owner(goal, a.owner),
        remote: Seq::empty(),
        local: None,
        inner: None,
    };
    lemma_same_reach(a, b, letter);
    assert forall|d: DevicePubkey| #[trigger]
        acts_for(b, b.owner, d) && d != b.device && goal is LocalSiblings implies b.users[b.owner].devices[d].public_invite is Some by {
        assert(b.users.dom().contains(b.owner));
        assert(a.users.dom().contains(b.owner));
        assert(a.users.contains_key(a.owner));
        assert(b.users[b.owner].devices.dom().contains(d));
        assert(a.users[a.owner].devices.dom().contains(d));
        assert(a.users[a.owner].devices.contains_key(d));
        assert(acts_for(a, a.owner, d));
    }
}

proof fn lemma_tells(
    start: CoreModel,
    at: Moment,
    fanouts: Seq<FanoutModel>,
    t: FanoutTrace,
    i: int,
)
    requires
        fans_out_again(start, at, fanouts, t),
        finite(start.state.core),
    ensures
        same_reach(start.state.core, t.core.state.core),
        finite(t.core.state.core),
        0 <= i < fanouts.len() && can_be_told(start.state.core, fanouts[i].goal) ==> is_told(
            fanouts[i],
            start.state.core.owner,
            t.effects,
        ) || telling_fails(start.state.core, at, fanouts[i].goal),
    decreases fanouts.len(),
{
    if fanouts.len() == 0 {
        assert(same_reach(start.state.core, start.state.core));
    } else {
        let fewer = fanouts.drop_last();
        let (prev, o) = choose|prev: FanoutTrace, o: FanoutOutcome| #[trigger]
            fanout_step(at, fanouts.last(), prev, t, o) && fans_out_again(start, at, fewer, prev);
        lemma_tells(start, at, fewer, prev, i);
        let last = fanouts.last();
        let m = prev.core.state.core;
        let own = last.goal is LocalSiblings;
        let owner = meant_owner(last.goal, m.owner);
        let payload = match last.goal {
            FanoutGoal::Remote(_, payload) => payload,
            FanoutGoal::LocalSiblings(payload) => payload,
        };
        let to = if own {
            sibling_audience(m)
        } else {
            remote_audience(m, owner)
        };
        let n = t.core.state.core;
        lemma_preparing_keeps_reach(m, n, at.secs, owner, to, payload, o.sent);
        lemma_reach_joins(start.state.core, m, n);
        let any = Letter { recipient: owner, remote: payload, local: None, inner: None };
        lemma_same_reach(start.state.core, n, any);
        if 0 <= i < fewer.len() {
            assert(fewer[i] == fanouts[i]);
            if is_told(fanouts[i], start.state.core.owner, prev.effects) {
                assert forall|j: int| 0 <= j < prev.effects.len() implies t.effects.contains(
                    #[trigger] prev.effects[j],
                ) by {
                    assert(t.effects[j] == prev.effects[j]);
                }
                lemma_told_stays_told(
                    fanouts[i],
                    start.state.core.owner,
                    prev.effects,
                    t.effects,
                );
            }
        } else if i == fewer.len() && can_be_told(start.state.core, last.goal) {
            assert(fanouts[i] == last);
            lemma_reach_of_goal(start.state.core, m, last.goal);
            match o.sent {
                Err(e) => {
                    assert(reaches_out(m, n, at, last.goal, Err::<PreparedSend, Error>(e)));
                },
                Ok(sent) => {
                    lemma_nothing_missing(m, n, at.secs, owner, payload, sent, own);
                    remote_and_own_devices_get_their_part(
                        m,
                        n,
                        at.secs,
                        owner,
                        payload,
                        sent,
                        owner,
                        m.device,
                    );
                    let mid = with_core(prev.core, n);
                    let wanted = publish_all(o.pending);
                    assert forall|j: int| 0 <= j < wanted.len() implies t.effects.contains(
                        #[trigger] wanted[j],
                    ) by {
                        assert(staging(mid.state, o.pending)[j + 1] == wanted[j]);
                        assert(t.effects[prev.effects.len() + j + 1] == wanted[j]);
                    }
                    assert(told_with(last, t.effects, sent, o.pending, o.ids));
                },
            }
        }
    }
}

/// When all that groups have still to be told is tried again, each piece of it
/// for which nothing is missing is told to the owner that it is meant for, unless
/// encrypting it fails.
pub proof fn news_that_can_be_told_are(
    before: CoreModel,
    after: CoreModel,
    at: Moment,
    effects: Seq<EffectModel>,
    i: int,
)
    requires
        retries_fanouts(before, after, at, Ok::<Seq<EffectModel>, Error>(effects)),
        finite(before.state.core),
        0 <= i < before.state.fanouts.len(),
        can_be_told(before.state.core, before.state.fanouts[i].goal),
    ensures
        is_told(before.state.fanouts[i], before.state.core.owner, effects) || telling_fails(
            before.state.core,
            at,
            before.state.fanouts[i].goal,
        ),
{
    let t = choose|t: FanoutTrace| #[trigger]
        fans_out_again(without_fanouts(before), at, before.state.fanouts, t) && after == sync_core(
            with_failed_fanouts(t),
        ) && effects == fanout_effects(t);
    lemma_tells(without_fanouts(before), at, before.state.fanouts, t, i);
    let f = before.state.fanouts[i];
    if is_told(f, before.state.core.owner, t.effects) {
        assert forall|j: int| 0 <= j < t.effects.len() implies effects.contains(
            #[trigger] t.effects[j],
        ) by {
            assert(effects[j] == t.effects[j]);
        }
        lemma_told_stays_told(f, before.state.core.owner, t.effects, effects);
    }
}

} // verus!
