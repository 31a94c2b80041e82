//! To whom the runtime listens, and what relays are asked for.
use vstd::prelude::*;
use super::effects::EffectModel;
use super::outbox::{sync_core, sync_effects, CoreModel};
use super::store::{FanoutGoal, StateModel};
use super::subscriptions::{message_authors, protocol_filters, protocol_owners, refresh, synced};
use crate::collections::ordered;
use crate::ids::{DevicePubkey, OwnerPubkey};
use crate::invite::domain::FilterModel;
use crate::session_manager::queries::{all_sessions, senders, HeldModel};
use crate::session_manager::properties::sessions_are_all_listed;
use crate::session_manager::{finite, ManagerModel};

verus! {

/// What a relay sends of a subscription, after it was asked for things: what
/// the last request for it says, if it was not ended since.
pub open spec fn relay_holds(
    subid: Seq<char>,
    held: Option<Seq<FilterModel>>,
    effects: Seq<EffectModel>,
) -> Option<Seq<FilterModel>>
    decreases effects.len(),
{
    if effects.len() == 0 {
        held
    } else {
        match effects.last() {
            EffectModel::Subscribe { subid: id, filters } if id == subid => Some(filters),
            EffectModel::Unsubscribe(id) if id == subid => None,
            _ => relay_holds(subid, held, effects.drop_last()),
        }
    }
}

/// Whether what a relay sends are just the messages of some senders, or none
/// where there are no senders.
pub open spec fn hears_just(
    held: Option<Seq<FilterModel>>,
    authors: Option<Seq<DevicePubkey>>,
) -> bool {
    match authors {
        None => held is None,
        Some(authors) => held matches Some(filters) && filters.len() == 1 && filters[0].kinds
            == seq![1060u16] && filters[0].authors == authors && filters[0].pubkeys.len() == 0
            && filters[0].labels.len() == 0,
    }
}

/// Where senders are expected other than those listened to, the last thing that
/// is asked for is the messages of all of them and of nobody else. Where those
/// listened to are expected, nothing is asked for. Where nobody is expected any
/// more, the subscription ends.
pub proof fn syncing_asks_for_all_expected_senders(
    current: Option<Seq<DevicePubkey>>,
    next: Seq<DevicePubkey>,
)
    ensures
        ({
            let (listening, effects) = synced(current, next);
            &&& current == Some(next) ==> effects.len() == 0 && listening == current
            &&& current != Some(next) && next.len() > 0 ==> {
                &&& listening == Some(next)
                &&& effects.len() > 0
                &&& (effects.last() matches EffectModel::Subscribe { subid, filters } && subid
                    == "ndr-runtime-messages"@ && hears_just(Some(filters), Some(next)))
                &&& forall|i: int|
                    0 <= i < effects.len() - 1 ==> #[trigger] effects[i]
                        == EffectModel::Unsubscribe("ndr-runtime-messages"@)
            }
            &&& current != Some(next) && next.len() == 0 ==> {
                &&& listening is None
                &&& effects == if current is Some {
                    seq![EffectModel::Unsubscribe("ndr-runtime-messages"@)]
                } else {
                    Seq::empty()
                }
            }
        }),
{
    let (listening, effects) = synced(current, next);
    if current != Some(next) && next.len() > 0 {
        let filters = effects.last()->Subscribe_filters;
        assert(filters[0].kinds =~= seq![1060u16]);
    }
}

/// Where a relay sends the messages of the senders that are listened to, it
/// sends those of the senders that are expected once it was asked, however
/// often these change.
pub proof fn relays_send_what_is_listened_to(
    current: Option<Seq<DevicePubkey>>,
    next: Seq<DevicePubkey>,
    held: Option<Seq<FilterModel>>,
)
    requires
        hears_just(held, current),
    ensures
        hears_just(
            relay_holds("ndr-runtime-messages"@, held, synced(current, next).1),
            synced(current, next).0,
        ),
        next.len() > 0 ==> synced(current, next).0 == Some(next),
{
    syncing_asks_for_all_expected_senders(current, next);
    let effects = synced(current, next).1;
    reveal_with_fuel(relay_holds, 3);
    if effects.len() == 1 {
        assert(effects.drop_last() =~= Seq::empty());
    }
}

/// Senders that are expected one after the other: who is listened to in the
/// end, and all that was asked for.
pub open spec fn synced_all(
    current: Option<Seq<DevicePubkey>>,
    expected: Seq<Seq<DevicePubkey>>,
) -> (Option<Seq<DevicePubkey>>, Seq<EffectModel>)
    decreases expected.len(),
{
    if expected.len() == 0 {
        (current, Seq::empty())
    } else {
        let (mid, effects) = synced_all(current, expected.drop_last());
        (synced(mid, expected.last()).0, effects + synced(mid, expected.last()).1)
    }
}

proof fn lemma_relay_holds(
    subid: Seq<char>,
    held: Option<Seq<FilterModel>>,
    a: Seq<EffectModel>,
    b: Seq<EffectModel>,
)
    ensures
        relay_holds(subid, held, a + b) == relay_holds(subid, relay_holds(subid, held, a), b),
    decreases b.len(),
{
    if b.len() == 0 {
        assert(a + b =~= a);
    } else {
        assert((a + b).drop_last() =~= a + b.drop_last());
        assert((a + b).last() == b.last());
        lemma_relay_holds(subid, held, a, b.drop_last());
    }
}

/// After any number of changes a relay sends the messages of just those who are
/// listened to.
pub proof fn relays_stay_in_step(
    current: Option<Seq<DevicePubkey>>,
    expected: Seq<Seq<DevicePubkey>>,
    held: Option<Seq<FilterModel>>,
)
    requires
        hears_just(held, current),
    ensures
        hears_just(
            relay_holds("ndr-runtime-messages"@, held, synced_all(current, expected).1),
            synced_all(current, expected).0,
        ),
        expected.len() > 0 && expected.last().len() > 0 ==> synced_all(current, expected).0 == Some(
            expected.last(),
        ),
    decreases expected.len(),
{
    if expected.len() > 0 {
        let (mid, effects) = synced_all(current, expected.drop_last());
        relays_stay_in_step(current, expected.drop_last(), held);
        let id = "ndr-runtime-messages"@;
        lemma_relay_holds(id, held, effects, synced(mid, expected.last()).1);
        relays_send_what_is_listened_to(mid, expected.last(), relay_holds(id, held, effects));
    }
}

/// When the runtime syncs, a relay then sends the messages of exactly the
/// senders that some session expects; nothing but whom it listens to changes.
pub proof fn syncing_listens_to_every_session(c: CoreModel, held: Option<Seq<FilterModel>>)
    requires
        finite(c.state.core),
        senders(all_sessions(c.state.core)).finite(),
        hears_just(held, c.authors),
    ensures
        hears_just(
            relay_holds("ndr-runtime-messages"@, held, sync_effects(c)),
            sync_core(c).authors,
        ),
        sync_core(c).state == c.state,
        sync_core(c).owner == c.owner,
        sync_core(c).device == c.device,
        forall|sender: DevicePubkey|
            (sync_core(c).authors matches Some(authors) && authors.contains(sender))
                <==> #[trigger] some_session_expects(c.state.core, sender),
{
    let next = message_authors(c.state.core);
    relays_send_what_is_listened_to(c.authors, next, held);
    assert forall|sender: DevicePubkey|
        (sync_core(c).authors matches Some(authors) && authors.contains(sender))
            <==> #[trigger] some_session_expects(c.state.core, sender) by {
        expected_senders_are_those_of_the_sessions(c.state.core, sender);
    }
}

/// Whether a session with a device expects a message of a sender: it is the key
/// that the other side uses or the one it uses next.
pub open spec fn session_expects(
    m: ManagerModel,
    owner: OwnerPubkey,
    device: DevicePubkey,
    sender: DevicePubkey,
) -> bool {
    let shelf = m.users[owner].devices[device].sessions;
    &&& m.users.contains_key(owner)
    &&& m.users[owner].devices.contains_key(device)
    &&& (shelf.active matches Some(s) && is_awaited(s, sender)) || exists|i: int|
        0 <= i < shelf.inactive.len() && is_awaited(#[trigger] shelf.inactive[i], sender)
}

/// Whether a session awaits a sender.
pub open spec fn is_awaited(s: crate::session::SessionModel, sender: DevicePubkey) -> bool {
    s.their_current == Some(sender) || s.their_next == Some(sender) || s.skipped.contains_key(
        sender,
    )
}

pub open spec fn some_session_expects(m: ManagerModel, sender: DevicePubkey) -> bool {
    exists|owner: OwnerPubkey, device: DevicePubkey| #[trigger]
        session_expects(m, owner, device, sender)
}

/// The senders whose messages are expected are those that some session awaits,
/// whether it is active or not, each once.
pub proof fn expected_senders_are_those_of_the_sessions(m: ManagerModel, sender: DevicePubkey)
    requires
        finite(m),
        senders(all_sessions(m)).finite(),
    ensures
        message_authors(m).contains(sender) <==> some_session_expects(m, sender),
        message_authors(m).no_duplicates(),
{
    let held = all_sessions(m);
    let all = senders(held);
    crate::collections::ordered_lists::<DevicePubkey>(all);
    let order = ordered::<DevicePubkey>(all);
    assert(order.contains(sender) <==> all.contains(sender));
    assert forall|i: int, j: int| 0 <= i < order.len() && 0 <= j < order.len() && i != j implies
        order[i] != order[j] by {
        if i < j {
            crate::collections::lists_distinct::<DevicePubkey>(order, all, i, j);
        } else {
            crate::collections::lists_distinct::<DevicePubkey>(order, all, j, i);
        }
    }
    if all.contains(sender) {
        let i = choose|i: int|
            0 <= i < held.len() && crate::session::domain::expects(
                (#[trigger] held[i]).state,
                sender,
            );
        assert(held.contains(held[i]));
        sessions_are_all_listed(m, held[i]);
        let shelf = m.users[held[i].owner].devices[held[i].device].sessions;
        if shelf.active != Some(held[i].state) {
            let k = choose|k: int|
                0 <= k < shelf.inactive.len() && shelf.inactive[k] == held[i].state;
            assert(is_awaited(shelf.inactive[k], sender));
        }
        assert(session_expects(m, held[i].owner, held[i].device, sender));
    }
    if some_session_expects(m, sender) {
        let (owner, device) = choose|owner: OwnerPubkey, device: DevicePubkey| #[trigger]
            session_expects(m, owner, device, sender);
        let shelf = m.users[owner].devices[device].sessions;
        let state = if shelf.active is Some && is_awaited(shelf.active->Some_0, sender) {
            shelf.active->Some_0
        } else {
            let k = choose|k: int|
                0 <= k < shelf.inactive.len() && is_awaited(#[trigger] shelf.inactive[k], sender);
            shelf.inactive[k]
        };
        let h = HeldModel { owner, device, state };
        assert(shelf.active == Some(state) || shelf.inactive.contains(state));
        sessions_are_all_listed(m, h);
        let i = choose|i: int| 0 <= i < held.len() && held[i] == h;
        assert(crate::session::domain::expects(held[i].state, sender));
    }
}

/// What relays are asked for so that sessions can be made: the device lists of
/// the own owner, of all that are known, of all that were asked for and of all
/// for whom a message or something of a group waits; the invites of all devices
/// that their owners trust; and the responses to the own invite.
pub proof fn relays_are_asked_for_all_that_matters(
    m: StateModel,
    own: OwnerPubkey,
    owner: OwnerPubkey,
    device: DevicePubkey,
)
    requires
        protocol_owners(m, own).finite(),
    ensures
        refresh(m, own) == (EffectModel::Subscribe {
            subid: "ndr-runtime-protocol"@,
            filters: protocol_filters(m, own),
        }),
        ({
            let lists = protocol_filters(m, own)[0];
            &&& protocol_filters(m, own).len() > 0
            &&& lists.kinds == seq![30078u16]
            &&& lists.pubkeys.len() == 0 && lists.labels.len() == 0
            &&& owner == own || m.core.users.contains_key(owner) || m.watched.contains(owner) || (
            exists|i: int|
                0 <= i < m.outbound.len() && (#[trigger] m.outbound[i]).recipient == owner) || (
            exists|i: int|
                0 <= i < m.fanouts.len() && ((#[trigger] m.fanouts[i]).goal
                    matches FanoutGoal::Remote(recipient, _) && recipient == owner))
                ==> lists.authors.contains(owner.device())
        }),
        m.core.local_invite matches Some(invite) ==> {
            let filters = protocol_filters(m, own);
            &&& filters.last().kinds == seq![1059u16]
            &&& filters.last().pubkeys == seq![invite.ephemeral_key]
            &&& filters.last().authors.len() == 0
            &&& filters.last().labels.len() == 0
        },
{
    let owners = protocol_owners(m, own);
    let order = ordered::<OwnerPubkey>(owners);
    crate::collections::ordered_lists::<OwnerPubkey>(owners);
    let filters = protocol_filters(m, own);
    assert(filters[0].kinds =~= seq![30078u16]);
    if let Some(invite) = m.core.local_invite {
        assert(filters.last().kinds =~= seq![1059u16]);
    }
    if exists|i: int|
        0 <= i < m.fanouts.len() && ((#[trigger] m.fanouts[i]).goal matches FanoutGoal::Remote(
            recipient,
            _,
        ) && recipient == owner) {
        let i = choose|i: int|
            0 <= i < m.fanouts.len() && ((#[trigger] m.fanouts[i]).goal
                matches FanoutGoal::Remote(recipient, _) && recipient == owner);
        assert(super::subscriptions::meant_for(m.fanouts[i].goal, owner));
    }
    if owners.contains(owner) {
        assert(order.contains(owner));
        let i = choose|i: int| 0 <= i < order.len() && order[i] == owner;
        assert(filters[0].authors[i] == owner.device());
    }
}

} // verus!
