//! Which sessions with a device are kept, which of them is written to, and
//! which of them hears a message.
use vstd::prelude::*;
use crate::collections::{ordered, OrderedKey};
use crate::error::Error;
use crate::ids::{DevicePubkey, OwnerPubkey, UnixSeconds};
use crate::peer_book::{
    below, distinct, lemma_distinct, priority, received, upserted, PeerDeviceModel,
};
use crate::session::domain::{after_send, expects, may_send, receive};
use crate::session::{EnvelopeModel, SessionModel, SessionState};
use crate::session_manager::{
    audience, deliveries_of, devices_of, finite, first_listening, gap_models, gaps_of,
    listening_device, outcome_fits, prepares, prepares_with, receives, remote_audience, roster_gaps,
    sibling_audience, takes_message, target_set, Audience, Delivery, DeviceModel, DeviceOutcome,
    GapModel, ManagerModel, PreparedSend, ReceivedMessage, TargetDevice, UserModel,
};
use crate::shelf::{
    best_place, cut, listening_place, occupied, place_before, received_shelf, send_place,
    sent_shelf, shelf_session, stocked, tidied, upserted_shelf, ShelfModel,
};

verus! {

// ---------------------------------------------------------------------------
// Which session is better
// ---------------------------------------------------------------------------

/// Whether a session can send: it knows the key to write to and has one of its
/// own.
pub open spec fn can_send(s: SessionModel) -> bool {
    s.their_next is Some && s.our_current is Some
}

/// Whether a session can hear: it has a chain to hear on, or has heard before.
pub open spec fn can_hear(s: SessionModel) -> bool {
    s.receiving_chain_key is Some || s.their_current is Some || s.receiving_number > 0
}

/// Whether a session is better than another. One that can send is better than
/// one that cannot; of two that are alike in that, one that can hear is better
/// than one that cannot; then the one that has heard more, then the one that
/// has sent more.
pub open spec fn is_better(a: SessionModel, b: SessionModel) -> bool {
    if can_send(a) != can_send(b) {
        can_send(a)
    } else if can_hear(a) != can_hear(b) {
        can_hear(a)
    } else if a.receiving_number != b.receiving_number {
        a.receiving_number > b.receiving_number
    } else {
        a.sending_number > b.sending_number
    }
}

proof fn lemma_better(a: SessionModel, b: SessionModel)
    ensures
        below(priority(b), priority(a)) == is_better(a, b),
{
}

// ---------------------------------------------------------------------------
// Shelves
// ---------------------------------------------------------------------------

/// Whether a session is among those of a device.
pub open spec fn is_among(active: Option<SessionModel>, inactive: Seq<SessionModel>, s: SessionModel) -> bool {
    active == Some(s) || inactive.contains(s)
}

/// Whether no session is there twice, and at most ten are beside the active
/// one.
pub open spec fn in_good_order(active: Option<SessionModel>, inactive: Seq<SessionModel>) -> bool {
    &&& inactive.no_duplicates()
    &&& active matches Some(s) ==> !inactive.contains(s)
    &&& inactive.len() <= 10
}

proof fn lemma_pushed(all: Seq<SessionModel>, s: SessionModel)
    ensures
        forall|x: SessionModel| #[trigger] all.push(s).contains(x) <==> all.contains(x) || x == s,
{
    assert forall|x: SessionModel| #[trigger] all.push(s).contains(x) <==> all.contains(x) || x
        == s by {
        if all.push(s).contains(x) {
            let i = choose|i: int| 0 <= i < all.push(s).len() && all.push(s)[i] == x;
            if i < all.len() {
                assert(all[i] == x);
            }
        }
        if all.contains(x) {
            let i = choose|i: int| 0 <= i < all.len() && all[i] == x;
            assert(all.push(s)[i] == x);
        }
        if x == s {
            assert(all.push(s)[all.len() as int] == x);
        }
    }
}

proof fn lemma_taken(all: Seq<SessionModel>, n: int)
    requires
        0 <= n <= all.len(),
        all.no_duplicates(),
    ensures
        all.take(n).no_duplicates(),
        forall|x: SessionModel| #[trigger] all.take(n).contains(x) ==> all.contains(x),
{
    assert forall|x: SessionModel| #[trigger] all.take(n).contains(x) implies all.contains(x) by {
        let i = choose|i: int| 0 <= i < n && all.take(n)[i] == x;
        assert(all[i] == x);
    }
}

proof fn lemma_removed(all: Seq<SessionModel>, i: int)
    requires
        0 <= i < all.len(),
    ensures
        forall|x: SessionModel|
            x != all[i] ==> (#[trigger] all.remove(i).contains(x) <==> all.contains(x)),
        forall|x: SessionModel| #[trigger] all.remove(i).contains(x) ==> all.contains(x),
{
    let rest = all.remove(i);
    assert forall|x: SessionModel| #[trigger] rest.contains(x) implies all.contains(x) by {
        let k = choose|k: int| 0 <= k < rest.len() && rest[k] == x;
        if k < i {
            assert(all[k] == x);
        } else {
            assert(all[k + 1] == x);
        }
    }
    assert forall|x: SessionModel| x != all[i] && all.contains(x) implies #[trigger] rest.contains(
        x,
    ) by {
        let k = choose|k: int| 0 <= k < all.len() && all[k] == x;
        if k < i {
            assert(rest[k] == x);
        } else {
            assert(rest[k - 1] == x);
        }
    }
}

proof fn lemma_stocked(m: ShelfModel, session: SessionModel)
    ensures
        ({
            let after = cut(tidied(stocked(m, session)));
            &&& in_good_order(after.active, after.inactive)
            &&& after.active is Some
            &&& m.active is None || is_better(session, m.active->Some_0) ==> after.active == Some(
                session,
            )
            &&& m.active is Some && !is_better(session, m.active->Some_0) ==> after.active
                == m.active
            &&& forall|x: SessionModel| #[trigger]
                is_among(after.active, after.inactive, x) ==> x == session || is_among(
                    m.active,
                    m.inactive,
                    x,
                )
            &&& m.inactive.len() < 10 ==> forall|x: SessionModel| #[trigger]
                is_among(after.active, after.inactive, x) <==> x == session || is_among(
                    m.active,
                    m.inactive,
                    x,
                )
        }),
{
    let more = stocked(m, session);
    if m.active is Some {
        lemma_better(session, m.active->Some_0);
        lemma_pushed(m.inactive, m.active->Some_0);
        lemma_pushed(m.inactive, session);
    }
    lemma_distinct(more.inactive, more.active);
    let tidy = distinct(more.inactive, more.active);
    if tidy.len() > 10 {
        lemma_taken(tidy, 10);
    }
}

/// When a device gets a session, it has it among its sessions, and keeps those
/// that it had, none twice, as long as at most ten are beside the active one.
/// The new one is active if it is better than the active one; no other becomes
/// active.
pub proof fn new_sessions_are_kept(m: ShelfModel, session: SessionModel)
    ensures
        ({
            let after = upserted_shelf(m, session);
            &&& m.inactive.len() <= 10 ==> in_good_order(after.active, after.inactive)
            &&& is_among(m.active, m.inactive, session) ==> {
                &&& after.active == m.active
                &&& forall|x: SessionModel| #[trigger]
                    is_among(after.active, after.inactive, x) <==> is_among(
                        m.active,
                        m.inactive,
                        x,
                    )
            }
            &&& !is_among(m.active, m.inactive, session) ==> {
                &&& after.active == Some(
                    if m.active is None || is_better(session, m.active->Some_0) {
                        session
                    } else {
                        m.active->Some_0
                    },
                )
                &&& m.inactive.len() < 10 ==> is_among(after.active, after.inactive, session)
                &&& m.inactive.len() < 10 ==> forall|x: SessionModel| #[trigger]
                    is_among(m.active, m.inactive, x) ==> is_among(after.active, after.inactive, x)
                &&& forall|x: SessionModel| #[trigger]
                    is_among(after.active, after.inactive, x) ==> x == session || is_among(
                        m.active,
                        m.inactive,
                        x,
                    )
            }
        }),
{
    lemma_stocked(m, session);
    lemma_distinct(m.inactive, m.active);
}

/// When a session has received, its new state takes the place of its old one,
/// and the other sessions stay. One that was not active becomes active if it is
/// better than the active one then.
pub proof fn sessions_move_on_when_they_receive(
    m: ShelfModel,
    place: Option<int>,
    next: SessionModel,
)
    requires
        occupied(m, place),
        m.inactive.len() <= 10,
    ensures
        ({
            let after = received_shelf(m, place, next);
            let was = shelf_session(m, place);
            &&& is_among(after.active, after.inactive, next)
            &&& forall|x: SessionModel|
                x != was && is_among(m.active, m.inactive, x) ==> #[trigger] is_among(
                    after.active,
                    after.inactive,
                    x,
                )
            &&& forall|x: SessionModel| #[trigger]
                is_among(after.active, after.inactive, x) ==> x == next || is_among(
                    m.active,
                    m.inactive,
                    x,
                )
            &&& place is None ==> after.active == Some(next) && after.inactive == m.inactive
            &&& place is Some && m.active is Some ==> after.active == Some(
                if is_better(next, m.active->Some_0) {
                    next
                } else {
                    m.active->Some_0
                },
            )
            &&& place is Some && m.active is None ==> after.active == Some(next)
        }),
{
    if let Some(i) = place {
        let rest = ShelfModel { active: m.active, inactive: m.inactive.remove(i) };
        lemma_removed(m.inactive, i);
        lemma_stocked(rest, next);
        let after = received_shelf(m, place, next);
        assert(is_among(after.active, after.inactive, next));
        assert forall|x: SessionModel|
            x != m.inactive[i] && is_among(m.active, m.inactive, x) implies #[trigger] is_among(
            after.active,
            after.inactive,
            x,
        ) by {
            assert(is_among(rest.active, rest.inactive, x));
        }
        assert forall|x: SessionModel| #[trigger]
            is_among(after.active, after.inactive, x) implies x == next || is_among(
            m.active,
            m.inactive,
            x,
        ) by {
            if x != next {
                assert(is_among(rest.active, rest.inactive, x));
            }
        }
    }
}

proof fn lemma_best_among(m: ShelfModel, n: int)
    requires
        0 <= n <= m.inactive.len(),
    ensures
        (m.active is Some && may_send(m.active->Some_0)) || (exists|i: int|
            0 <= i < n && may_send(#[trigger] m.inactive[i])) ==> exists|place: Option<int>| #[trigger]
            best_of(m, n, place),
    decreases n,
{
    if n == 0 {
        if m.active is Some && may_send(m.active->Some_0) {
            assert(best_of(m, n, None));
        }
    } else {
        lemma_best_among(m, n - 1);
        let last = Some(n - 1);
        if exists|place: Option<int>| #[trigger] best_of(m, n - 1, place) {
            let known = choose|place: Option<int>| #[trigger] best_of(m, n - 1, place);
            if may_send(m.inactive[n - 1]) && below(
                priority(shelf_session(m, known)),
                priority(m.inactive[n - 1]),
            ) {
                assert(best_of(m, n, last));
            } else {
                assert(best_of(m, n, known));
            }
        } else if may_send(m.inactive[n - 1]) {
            assert(best_of(m, n, last));
        }
    }
}

/// Whether a place is the best of the active one and the first of the others.
spec fn best_of(m: ShelfModel, n: int, place: Option<int>) -> bool {
    &&& occupied(m, place)
    &&& place matches Some(i) ==> i < n
    &&& may_send(shelf_session(m, place))
    &&& forall|other: Option<int>| #[trigger]
        occupied(m, other) && (other matches Some(i) ==> i < n) && may_send(
            shelf_session(m, other),
        ) ==> {
            ||| other == place
            ||| below(priority(shelf_session(m, other)), priority(shelf_session(m, place)))
            ||| priority(shelf_session(m, other)) == priority(shelf_session(m, place))
                && place_before(place, other)
        }
}

/// A device is written to as long as one of its sessions can send: on one than
/// which no other that can send is better.
pub proof fn the_best_session_is_written_to(m: ShelfModel)
    ensures
        send_place(m) is Some <==> exists|s: SessionModel| #[trigger]
            is_among(m.active, m.inactive, s) && can_send(s),
        send_place(m) matches Some(place) ==> {
            &&& occupied(m, place)
            &&& is_among(m.active, m.inactive, shelf_session(m, place))
            &&& can_send(shelf_session(m, place))
            &&& forall|s: SessionModel| #[trigger]
                is_among(m.active, m.inactive, s) && can_send(s) ==> !is_better(
                    s,
                    shelf_session(m, place),
                )
        },
{
    if exists|s: SessionModel| #[trigger] is_among(m.active, m.inactive, s) && can_send(s) {
        let s = choose|s: SessionModel| #[trigger]
            is_among(m.active, m.inactive, s) && can_send(s);
        assert(may_send(s));
        if m.active != Some(s) {
            let i = choose|i: int| 0 <= i < m.inactive.len() && m.inactive[i] == s;
            assert(may_send(m.inactive[i]));
        }
        let n = m.inactive.len() as int;
        lemma_best_among(m, n);
        let place = choose|place: Option<int>| #[trigger] best_of(m, n, place);
        assert(best_place(m, place)) by {
            assert forall|other: Option<int>| #[trigger]
                occupied(m, other) && may_send(shelf_session(m, other)) implies {
                ||| other == place
                ||| below(priority(shelf_session(m, other)), priority(shelf_session(m, place)))
                ||| priority(shelf_session(m, other)) == priority(shelf_session(m, place))
                    && place_before(place, other)
            } by {}
        }
    }
    if let Some(place) = send_place(m) {
        assert(best_place(m, place));
        let chosen = shelf_session(m, place);
        if let Some(i) = place {
            assert(m.inactive[i] == chosen);
        }
        assert(is_among(m.active, m.inactive, chosen));
        assert forall|s: SessionModel| #[trigger]
            is_among(m.active, m.inactive, s) && can_send(s) implies !is_better(s, chosen) by {
            lemma_better(s, chosen);
            if m.active == Some(s) {
                assert(occupied(m, None));
                assert(shelf_session(m, None) == s);
            } else {
                let i = choose|i: int| 0 <= i < m.inactive.len() && m.inactive[i] == s;
                assert(occupied(m, Some(i)));
                assert(shelf_session(m, Some(i)) == s);
            }
        }
    }
}

/// After a message was sent the session on which it was sent has moved on and
/// is kept, and the other sessions stay.
pub proof fn sessions_move_on_when_they_send(m: ShelfModel, place: Option<int>)
    requires
        occupied(m, place),
        m.inactive.len() <= 10,
        !is_among(m.active, m.inactive, after_send(shelf_session(m, place))),
    ensures
        ({
            let after = sent_shelf(m, place);
            let was = shelf_session(m, place);
            &&& is_among(after.active, after.inactive, after_send(was))
            &&& forall|x: SessionModel|
                x != was && is_among(m.active, m.inactive, x) ==> #[trigger] is_among(
                    after.active,
                    after.inactive,
                    x,
                )
        }),
{
    if let Some(i) = place {
        let rest = ShelfModel { active: m.active, inactive: m.inactive.remove(i) };
        let next = after_send(m.inactive[i]);
        lemma_removed(m.inactive, i);
        assert(!is_among(rest.active, rest.inactive, next));
        new_sessions_are_kept(rest, next);
        let after = sent_shelf(m, place);
        assert forall|x: SessionModel|
            x != m.inactive[i] && is_among(m.active, m.inactive, x) implies #[trigger] is_among(
            after.active,
            after.inactive,
            x,
        ) by {
            assert(is_among(rest.active, rest.inactive, x));
        }
    }
}

/// Whether a session awaits a message of a sender.
pub open spec fn awaits(s: SessionModel, sender: DevicePubkey) -> bool {
    s.their_current == Some(sender) || s.their_next == Some(sender) || s.skipped.contains_key(
        sender,
    )
}

/// A message is heard as long as a session awaits its sender, by one that does,
/// and by the active one if it does.
pub proof fn messages_are_heard_by_who_awaits_them(m: ShelfModel, sender: DevicePubkey)
    ensures
        listening_place(m, sender) is Some <==> exists|s: SessionModel| #[trigger]
            is_among(m.active, m.inactive, s) && awaits(s, sender),
        listening_place(m, sender) matches Some(place) ==> {
            &&& occupied(m, place)
            &&& is_among(m.active, m.inactive, shelf_session(m, place))
            &&& awaits(shelf_session(m, place), sender)
            &&& m.active is Some && awaits(m.active->Some_0, sender) ==> place is None
        },
{
    if exists|s: SessionModel| #[trigger] is_among(m.active, m.inactive, s) && awaits(s, sender) {
        let s = choose|s: SessionModel| #[trigger]
            is_among(m.active, m.inactive, s) && awaits(s, sender);
        if m.active != Some(s) {
            let i = choose|i: int| 0 <= i < m.inactive.len() && m.inactive[i] == s;
            assert(expects(m.inactive[i], sender));
        }
    }
    if !(m.active is Some && expects(m.active->Some_0, sender)) {
        if exists|i: int| 0 <= i < m.inactive.len() && expects(#[trigger] m.inactive[i], sender) {
            let i = choose|i: int| 0 <= i < m.inactive.len() && expects(#[trigger] m.inactive[i], sender);
            let first = lemma_first(m.inactive, sender, i);
            crate::peer_book::lemma_first_expecting(m.inactive, sender, first);
            assert(m.inactive[first] == shelf_session(m, Some(first)));
            assert(is_among(m.active, m.inactive, m.inactive[first]));
        }
    } else {
        assert(is_among(m.active, m.inactive, m.active->Some_0));
    }
}

proof fn lemma_first(sessions: Seq<SessionModel>, sender: DevicePubkey, i: int) -> (first: int)
    requires
        0 <= i < sessions.len(),
        expects(sessions[i], sender),
    ensures
        0 <= first <= i,
        expects(sessions[first], sender),
        forall|j: int| 0 <= j < first ==> !expects(#[trigger] sessions[j], sender),
    decreases i,
{
    if exists|j: int| 0 <= j < i && expects(#[trigger] sessions[j], sender) {
        let j = choose|j: int| 0 <= j < i && expects(#[trigger] sessions[j], sender);
        lemma_first(sessions, sender, j)
    } else {
        i
    }
}

// ---------------------------------------------------------------------------
// Devices of peers
// ---------------------------------------------------------------------------

/// When a device of a peer gets a session, it has it among its sessions, and
/// keeps those that it had, none twice, as long as at most ten are beside the
/// active one. The new one is active if it is better than the active one; no
/// other becomes active. The device is in use at that time, and nothing else is
/// touched.
pub proof fn new_sessions_of_peers_are_kept(
    device: PeerDeviceModel,
    session: SessionModel,
    now: UnixSeconds,
)
    ensures
        ({
            let after = upserted(device, session, now);
            &&& after.device_id == device.device_id
            &&& after.created_at == device.created_at
            &&& after.is_stale == device.is_stale
            &&& after.stale_timestamp == device.stale_timestamp
            &&& after.last_activity == Some(now)
            &&& device.inactive.len() <= 10 ==> in_good_order(after.active, after.inactive)
            &&& is_among(device.active, device.inactive, session) ==> {
                &&& after.active == device.active
                &&& forall|x: SessionModel| #[trigger]
                    is_among(after.active, after.inactive, x) <==> is_among(
                        device.active,
                        device.inactive,
                        x,
                    )
            }
            &&& !is_among(device.active, device.inactive, session) ==> {
                &&& after.active == Some(
                    if device.active is None || is_better(session, device.active->Some_0) {
                        session
                    } else {
                        device.active->Some_0
                    },
                )
                &&& device.inactive.len() < 10 ==> is_among(after.active, after.inactive, session)
                &&& device.inactive.len() < 10 ==> forall|x: SessionModel| #[trigger]
                    is_among(device.active, device.inactive, x) ==> is_among(
                        after.active,
                        after.inactive,
                        x,
                    )
            }
        }),
{
    let shelf = ShelfModel { active: device.active, inactive: device.inactive };
    new_sessions_are_kept(shelf, session);
    let after = upserted(device, session, now);
    let other = upserted_shelf(shelf, session);
    assert(after.active == other.active && after.inactive == other.inactive);
}

/// When a session with a device of a peer has received, its new state takes the
/// place of its old one, and the other sessions stay. One that was not active
/// becomes active unless it is worse than the active one then.
pub proof fn sessions_of_peers_move_on(
    device: PeerDeviceModel,
    active_match: bool,
    index: Option<usize>,
    next: SessionModel,
    now: UnixSeconds,
)
    requires
        active_match ==> device.active is Some,
        !active_match ==> index is Some && index->Some_0 < device.inactive.len(),
    ensures
        ({
            let after = received(device, active_match, index, next, now);
            let was = if active_match {
                device.active->Some_0
            } else {
                device.inactive[index->Some_0 as int]
            };
            &&& is_among(after.active, after.inactive, next)
            &&& forall|x: SessionModel|
                x != was && is_among(device.active, device.inactive, x) ==> #[trigger] is_among(
                    after.active,
                    after.inactive,
                    x,
                )
            &&& active_match ==> after.active == Some(next) && after.inactive == device.inactive
            &&& !active_match && device.active is Some && is_better(
                device.active->Some_0,
                next,
            ) ==> after.active == device.active
            &&& !active_match && (device.active is None || !is_better(
                device.active->Some_0,
                next,
            )) ==> after.active == Some(next)
            &&& after.last_activity == Some(now)
            &&& after.device_id == device.device_id
            &&& after.created_at == device.created_at
        }),
{
    if !active_match {
        let i = index->Some_0 as int;
        let others = device.inactive.remove(i);
        lemma_removed(device.inactive, i);
        lemma_distinct(others, Some(next));
        if device.active is Some {
            let active = device.active->Some_0;
            lemma_better(active, next);
            lemma_pushed(others, next);
            lemma_pushed(others, active);
            lemma_distinct(others.push(next), device.active);
            lemma_distinct(others.push(active), Some(next));
        }
    }
}

// ---------------------------------------------------------------------------
// Who hears a message
// ---------------------------------------------------------------------------

/// Whether a device of an owner has a session that awaits a sender.
pub open spec fn device_awaits(user: UserModel, device: DevicePubkey, sender: DevicePubkey) -> bool {
    user.devices.contains_key(device) && exists|s: SessionModel| #[trigger]
        is_among(
            user.devices[device].sessions.active,
            user.devices[device].sessions.inactive,
            s,
        ) && awaits(s, sender)
}

proof fn lemma_first_listening(
    devices: Map<DevicePubkey, DeviceModel>,
    order: Seq<DevicePubkey>,
    sender: DevicePubkey,
)
    ensures
        first_listening(devices, order, sender) is Some <==> exists|i: int|
            0 <= i < order.len() && listening_place(
                devices[#[trigger] order[i]].sessions,
                sender,
            ) is Some,
        first_listening(devices, order, sender) matches Some((d, place)) ==> order.contains(d)
            && listening_place(devices[d].sessions, sender) == Some(place),
    decreases order.len(),
{
    if order.len() > 0 {
        let rest = order.drop_first();
        lemma_first_listening(devices, rest, sender);
        if listening_place(devices[order[0]].sessions, sender) is Some {
            assert(order.contains(order[0]));
        } else {
            if exists|i: int|
                0 <= i < order.len() && listening_place(
                    devices[#[trigger] order[i]].sessions,
                    sender,
                ) is Some {
                let i = choose|i: int|
                    0 <= i < order.len() && listening_place(
                        devices[#[trigger] order[i]].sessions,
                        sender,
                    ) is Some;
                assert(rest[i - 1] == order[i]);
            }
            if let Some((d, _)) = first_listening(devices, rest, sender) {
                let k = choose|k: int| 0 <= k < rest.len() && rest[k] == d;
                assert(order[k + 1] == d);
            }
        }
    }
}

/// Whether the payload is what a session makes of a message, which then is in a
/// state.
pub open spec fn decrypted_by(
    s: SessionModel,
    envelope: EnvelopeModel,
    payload: Seq<u8>,
    next: SessionModel,
) -> bool {
    exists|secret: [u8; 32]| #[trigger]
        receive(s, envelope.sender, envelope.encrypted_header, envelope.ciphertext, secret) == Ok::<
            (SessionModel, Seq<u8>),
            crate::error::Fault,
        >((next, payload))
}

/// A message of an owner is heard if and only if a session with one of its
/// devices awaits the sender. What comes out is what that session decrypts,
/// named after that owner and that device. Only that session moves on: no other
/// device, no other owner and no roster is touched, and nothing at all if
/// decrypting fails.
pub proof fn messages_are_heard_for_the_right_device(
    before: ManagerModel,
    after: ManagerModel,
    now: UnixSeconds,
    owner: OwnerPubkey,
    envelope: EnvelopeModel,
    r: Result<Option<ReceivedMessage>, Error>,
)
    requires
        finite(before),
        receives(before, after, now, owner, envelope, r),
    ensures
        (r matches Ok(found) && found is None) <==> !(before.users.contains_key(owner) && exists|
            device: DevicePubkey,
        | #[trigger]
            device_awaits(before.users[owner], device, envelope.sender)),
        !(r matches Ok(found) && found is Some) ==> after == before,
        r matches Ok(Some(message)) ==> {
            let d = message.device_pubkey;
            let was = before.users[owner].devices[d];
            let is_now = after.users[owner].devices[d];
            &&& message.owner_pubkey == owner
            &&& device_awaits(before.users[owner], d, envelope.sender)
            &&& exists|s: SessionModel, next: SessionModel|
                is_among(was.sessions.active, was.sessions.inactive, s) && awaits(
                    s,
                    envelope.sender,
                ) && #[trigger] decrypted_by(s, envelope, message.payload@, next)
                    && is_now.sessions.inactive.len() <= was.sessions.inactive.len() + 1
            &&& is_now.last_activity == Some(now)
            &&& is_now.authorized == was.authorized
            &&& is_now.is_stale == was.is_stale
            &&& is_now.public_invite == was.public_invite
            &&& is_now.device_id == was.device_id
            &&& after.users[owner].roster == before.users[owner].roster
            &&& forall|other: DevicePubkey|
                other != d ==> after.users[owner].devices.contains_key(other)
                    == before.users[owner].devices.contains_key(other)
                    && #[trigger] after.users[owner].devices[other]
                    == before.users[owner].devices[other]
            &&& forall|other: OwnerPubkey|
                other != owner ==> after.users.contains_key(other) == before.users.contains_key(
                    other,
                ) && #[trigger] after.users[other] == before.users[other]
            &&& after.local_invite == before.local_invite
        },
{
    if before.users.contains_key(owner) {
        let user = before.users[owner];
        let order = ordered::<DevicePubkey>(user.devices.dom());
        crate::collections::ordered_lists::<DevicePubkey>(user.devices.dom());
        lemma_first_listening(user.devices, order, envelope.sender);
        if exists|device: DevicePubkey| #[trigger] device_awaits(user, device, envelope.sender) {
            let device = choose|device: DevicePubkey| #[trigger]
                device_awaits(user, device, envelope.sender);
            messages_are_heard_by_who_awaits_them(user.devices[device].sessions, envelope.sender);
            assert(user.devices.dom().contains(device));
            assert(order.contains(device));
            let i = choose|i: int| 0 <= i < order.len() && order[i] == device;
            assert(listening_place(user.devices[order[i]].sessions, envelope.sender) is Some);
        }
        if let Some((d, place)) = listening_device(user, envelope.sender) {
            assert(user.devices.dom().contains(d));
            let shelf = user.devices[d].sessions;
            messages_are_heard_by_who_awaits_them(shelf, envelope.sender);
            let s = shelf_session(shelf, place);
            assert(is_among(shelf.active, shelf.inactive, s) && awaits(s, envelope.sender));
            assert(device_awaits(user, d, envelope.sender));
            if r is Ok && r->Ok_0 is Some {
                let message = r->Ok_0->Some_0;
                let state = choose|state: SessionState| #[trigger]
                    takes_message(before, after, now, owner, envelope, (d, place), state, message);
                let secret = choose|secret: [u8; 32]|
                    crate::session::plans_payload(
                        #[trigger] receive(
                            s,
                            envelope.sender,
                            envelope.encrypted_header,
                            envelope.ciphertext,
                            secret,
                        ),
                        Ok::<_, Error>((state, message.payload)),
                    );
                assert(receive(
                    s,
                    envelope.sender,
                    envelope.encrypted_header,
                    envelope.ciphertext,
                    secret,
                ) == Ok::<_, crate::error::Fault>((state@, message.payload@)));
                assert(decrypted_by(s, envelope, message.payload@, state@));
                lemma_received_len(shelf, place, state@);
            }
        }
    }
}

proof fn lemma_received_len(m: ShelfModel, place: Option<int>, next: SessionModel)
    requires
        occupied(m, place),
    ensures
        received_shelf(m, place, next).inactive.len() <= m.inactive.len() + 1,
{
    if let Some(i) = place {
        let rest = ShelfModel { active: m.active, inactive: m.inactive.remove(i) };
        let more = stocked(rest, next);
        lemma_distinct(more.inactive, more.active);
    }
}

// ---------------------------------------------------------------------------
// Who gets a message
// ---------------------------------------------------------------------------

/// Whether a device acts for an owner: the owner has a roster, and the device
/// is authorized and not stale.
pub open spec fn acts_for(m: ManagerModel, owner: OwnerPubkey, device: DevicePubkey) -> bool {
    &&& m.users.contains_key(owner)
    &&& m.users[owner].roster is Some
    &&& m.users[owner].devices.contains_key(device)
    &&& m.users[owner].devices[device].authorized
    &&& !m.users[owner].devices[device].is_stale
}

/// Whether a device can be reached: one of its sessions can send, or its invite
/// is known.
pub open spec fn can_be_reached(record: DeviceModel) -> bool {
    record.public_invite is Some || exists|s: SessionModel| #[trigger]
        is_among(record.sessions.active, record.sessions.inactive, s) && can_send(s)
}

/// How often a device gets a message.
pub open spec fn times_delivered(
    deliveries: Seq<Delivery>,
    owner: OwnerPubkey,
    device: DevicePubkey,
) -> nat
    decreases deliveries.len(),
{
    if deliveries.len() == 0 {
        0
    } else {
        times_delivered(deliveries.drop_last(), owner, device) + if deliveries.last().owner_pubkey
            == owner && deliveries.last().device_pubkey == device {
            1nat
        } else {
            0nat
        }
    }
}

proof fn lemma_delivered(
    before: ManagerModel,
    after: ManagerModel,
    now: UnixSeconds,
    payload: Seq<u8>,
    some: Seq<(OwnerPubkey, DevicePubkey)>,
    outcomes: Seq<DeviceOutcome>,
    owner: OwnerPubkey,
    device: DevicePubkey,
)
    requires
        outcomes.len() <= some.len(),
        some.no_duplicates(),
        forall|i: int|
            0 <= i < outcomes.len() ==> #[trigger] outcome_fits(
                before,
                after,
                now,
                payload,
                some,
                outcomes,
                i,
            ),
    ensures
        times_delivered(deliveries_of(outcomes), owner, device) == (if exists|i: int|
            0 <= i < outcomes.len() && #[trigger] some[i] == (owner, device) && outcomes[i]
                is Some {
            1nat
        } else {
            0nat
        }),
    decreases outcomes.len(),
{
    if outcomes.len() > 0 {
        let fewer = outcomes.drop_last();
        let n = outcomes.len() - 1;
        assert forall|i: int| 0 <= i < fewer.len() implies #[trigger] outcome_fits(
            before,
            after,
            now,
            payload,
            some,
            fewer,
            i,
        ) by {
            assert(outcome_fits(before, after, now, payload, some, outcomes, i));
            assert(fewer[i] == outcomes[i]);
        }
        lemma_delivered(before, after, now, payload, some, fewer, owner, device);
        assert(outcome_fits(before, after, now, payload, some, outcomes, n));
        let rest = deliveries_of(fewer);
        if exists|i: int|
            0 <= i < fewer.len() && #[trigger] some[i] == (owner, device) && fewer[i] is Some {
            let i = choose|i: int|
                0 <= i < fewer.len() && #[trigger] some[i] == (owner, device) && fewer[i] is Some;
            assert(fewer[i] == outcomes[i]);
            assert(some[i] == (owner, device));
            assert(some[n] != some[i]);
        } else {
            assert forall|i: int|
                0 <= i < n && #[trigger] some[i] == (owner, device) implies outcomes[i]
                is None by {
                assert(fewer[i] == outcomes[i]);
            }
        }
        if let Some((delivery, _)) = outcomes.last() {
            assert(rest.push(delivery).drop_last() =~= rest);
            assert(some[n] == (delivery.owner_pubkey, delivery.device_pubkey));
        }
    }
}

pub proof fn lemma_gaps(
    m: ManagerModel,
    first: Seq<GapModel>,
    some: Seq<(OwnerPubkey, DevicePubkey)>,
    outcomes: Seq<DeviceOutcome>,
    gap: GapModel,
)
    requires
        outcomes.len() <= some.len(),
    ensures
        gaps_of(m, first, some, outcomes).contains(gap) <==> first.contains(gap) || exists|i: int|
            0 <= i < outcomes.len() && (#[trigger] outcomes[i]) is None && gap
                == GapModel::DeviceInvite(
                some[i].0,
                some[i].1,
                m.users[some[i].0].devices[some[i].1].device_id,
            ),
    decreases outcomes.len(),
{
    if outcomes.len() > 0 {
        let fewer = outcomes.drop_last();
        let n = outcomes.len() - 1;
        lemma_gaps(m, first, some, fewer, gap);
        let rest = gaps_of(m, first, some, fewer);
        let all = gaps_of(m, first, some, outcomes);
        assert forall|i: int| 0 <= i < n implies #[trigger] fewer[i] == outcomes[i] by {}
        if all.contains(gap) {
            let k = choose|k: int| 0 <= k < all.len() && all[k] == gap;
            if k < rest.len() {
                assert(rest[k] == gap);
                if !first.contains(gap) {
                    let i = choose|i: int|
                        0 <= i < fewer.len() && (#[trigger] fewer[i]) is None && gap
                            == GapModel::DeviceInvite(
                            some[i].0,
                            some[i].1,
                            m.users[some[i].0].devices[some[i].1].device_id,
                        );
                    assert(outcomes[i] is None);
                }
            } else {
                assert(outcomes[n] is None);
            }
        }
        if rest.contains(gap) {
            let k = choose|k: int| 0 <= k < rest.len() && rest[k] == gap;
            assert(all[k] == gap);
        }
        if exists|i: int|
            0 <= i < outcomes.len() && (#[trigger] outcomes[i]) is None && gap
                == GapModel::DeviceInvite(
                some[i].0,
                some[i].1,
                m.users[some[i].0].devices[some[i].1].device_id,
            ) {
            let i = choose|i: int|
                0 <= i < outcomes.len() && (#[trigger] outcomes[i]) is None && gap
                    == GapModel::DeviceInvite(
                    some[i].0,
                    some[i].1,
                    m.users[some[i].0].devices[some[i].1].device_id,
                );
            if i < n {
                assert(fewer[i] is None);
            } else {
                assert(all[all.len() - 1] == gap);
            }
        }
    }
}

proof fn lemma_served(
    before: ManagerModel,
    after: ManagerModel,
    now: UnixSeconds,
    recipient: OwnerPubkey,
    to: Audience,
    set: Set<(OwnerPubkey, DevicePubkey)>,
    payload: Seq<u8>,
    prepared: PreparedSend,
    owner: OwnerPubkey,
    device: DevicePubkey,
)
    requires
        prepares(before, after, now, recipient, to, payload, Ok(prepared)),
        set.finite(),
        to.devices == ordered::<TargetDevice>(set),
        forall|t: (OwnerPubkey, DevicePubkey)| #[trigger]
            set.contains(t) ==> acts_for(before, t.0, t.1),
        forall|g: GapModel| #[trigger] to.gaps.contains(g) ==> g is Roster,
    ensures
        prepared.recipient_owner == recipient,
        prepared.payload@ == payload,
        times_delivered(prepared.deliveries@, owner, device) == (if set.contains((owner, device))
            && can_be_reached(before.users[owner].devices[device]) {
            1nat
        } else {
            0nat
        }),
        forall|name: Option<Seq<char>>|
            #[trigger] gap_models(prepared.relay_gaps@).contains(
                GapModel::DeviceInvite(owner, device, name),
            ) <==> set.contains((owner, device)) && !can_be_reached(
                before.users[owner].devices[device],
            ) && name == before.users[owner].devices[device].device_id,
        forall|o: OwnerPubkey|
            #[trigger] gap_models(prepared.relay_gaps@).contains(GapModel::Roster(o))
                <==> to.gaps.contains(GapModel::Roster(o)),
{
    let outcomes = choose|outcomes: Seq<DeviceOutcome>| #[trigger]
        prepares_with(before, after, now, recipient, to, payload, outcomes, prepared);
    crate::collections::ordered_lists::<TargetDevice>(set);
    let some = to.devices;
    assert forall|i: int, j: int| 0 <= i < some.len() && 0 <= j < some.len() && i != j implies
        some[i] != some[j] by {
        if i < j {
            crate::collections::lists_distinct::<TargetDevice>(some, set, i, j);
        } else {
            crate::collections::lists_distinct::<TargetDevice>(some, set, j, i);
        }
    }
    lemma_delivered(before, after, now, payload, some, outcomes, owner, device);
    let t = (owner, device);
    assert(some.contains(t) <==> set.contains(t));
    assert forall|i: int| 0 <= i < outcomes.len() implies (#[trigger] outcomes[i] is Some
        <==> can_be_reached(before.users[some[i].0].devices[some[i].1])) by {
        assert(outcome_fits(before, after, now, payload, some, outcomes, i));
        assert(some.contains(some[i]));
        assert(set.contains(some[i]));
        the_best_session_is_written_to(before.users[some[i].0].devices[some[i].1].sessions);
    }
    if set.contains(t) {
        let i = choose|i: int| 0 <= i < some.len() && some[i] == t;
        assert(some[i] == t);
        assert(outcomes[i] is Some <==> can_be_reached(before.users[owner].devices[device]));
    } else {
        assert forall|i: int| 0 <= i < some.len() implies #[trigger] some[i] != t by {
            assert(some.contains(some[i]));
        }
    }
    let gaps = gap_models(prepared.relay_gaps@);
    assert forall|name: Option<Seq<char>>|
        #[trigger] gaps.contains(GapModel::DeviceInvite(owner, device, name)) <==> set.contains(t)
            && !can_be_reached(before.users[owner].devices[device]) && name
            == before.users[owner].devices[device].device_id by {
        let gap = GapModel::DeviceInvite(owner, device, name);
        lemma_gaps(before, to.gaps, some, outcomes, gap);
        if set.contains(t) {
            let i = choose|i: int| 0 <= i < some.len() && some[i] == t;
            assert(outcomes[i] is Some <==> can_be_reached(before.users[owner].devices[device]));
        }
        if gaps.contains(gap) {
            let i = choose|i: int|
                0 <= i < outcomes.len() && (#[trigger] outcomes[i]) is None && gap
                    == GapModel::DeviceInvite(
                    some[i].0,
                    some[i].1,
                    before.users[some[i].0].devices[some[i].1].device_id,
                );
            assert(some.contains(some[i]));
        }
    }
    assert forall|o: OwnerPubkey|
        #[trigger] gaps.contains(GapModel::Roster(o)) <==> to.gaps.contains(
            GapModel::Roster(o),
        ) by {
        lemma_gaps(before, to.gaps, some, outcomes, GapModel::Roster(o));
    }
}

proof fn lemma_acting_finite(m: ManagerModel, set: Set<(OwnerPubkey, DevicePubkey)>)
    requires
        finite(m),
        forall|t: (OwnerPubkey, DevicePubkey)| #[trigger]
            set.contains(t) ==> acts_for(m, t.0, t.1),
    ensures
        set.finite(),
{
    let owners = ordered::<OwnerPubkey>(m.users.dom());
    crate::collections::ordered_lists::<OwnerPubkey>(m.users.dom());
    let all = devices_of_some(m, owners);
    lemma_devices_finite(m, owners);
    assert forall|t: (OwnerPubkey, DevicePubkey)| #[trigger] set.contains(t) implies all.contains(
        t,
    ) by {
        assert(m.users.dom().contains(t.0));
        assert(owners.contains(t.0));
    }
    vstd::set_lib::lemma_set_subset_finite(all, set);
}

spec fn devices_of_some(m: ManagerModel, owners: Seq<OwnerPubkey>) -> Set<
    (OwnerPubkey, DevicePubkey),
> {
    Set::new(
        |t: (OwnerPubkey, DevicePubkey)|
            owners.contains(t.0) && m.users.contains_key(t.0) && m.users[t.0].devices.contains_key(
                t.1,
            ),
    )
}

proof fn lemma_devices_finite(m: ManagerModel, owners: Seq<OwnerPubkey>)
    requires
        finite(m),
    ensures
        devices_of_some(m, owners).finite(),
    decreases owners.len(),
{
    let all = devices_of_some(m, owners);
    if owners.len() == 0 {
        assert(all =~= Set::empty());
    } else {
        let fewer = owners.drop_last();
        let last = owners.last();
        lemma_devices_finite(m, fewer);
        let own = if m.users.contains_key(last) {
            m.users[last].devices.dom()
        } else {
            Set::empty()
        };
        let paired = own.map(|d: DevicePubkey| (last, d));
        own.lemma_map_finite(|d: DevicePubkey| (last, d));
        let both = devices_of_some(m, fewer).union(paired);
        assert forall|t: (OwnerPubkey, DevicePubkey)| #[trigger] all.contains(t) implies both.contains(
            t,
        ) by {
            if t.0 == last {
                assert(own.contains(t.1));
                assert(paired.contains((last, t.1)));
            } else {
                let i = choose|i: int| 0 <= i < owners.len() && owners[i] == t.0;
                assert(fewer[i] == t.0);
            }
        }
        vstd::set_lib::lemma_set_subset_finite(both, all);
    }
}

/// What is sent to an owner goes to each of its devices that act for it, and to
/// each of the sender's own others, once to each that can be reached and to no
/// other device. Each that cannot be reached is named, with its name, and so is
/// the owner if its roster is not known.
pub proof fn everyone_gets_what_is_sent(
    before: ManagerModel,
    after: ManagerModel,
    now: UnixSeconds,
    recipient: OwnerPubkey,
    payload: Seq<u8>,
    prepared: PreparedSend,
    owner: OwnerPubkey,
    device: DevicePubkey,
)
    requires
        finite(before),
        prepares(
            before,
            after,
            now,
            recipient,
            audience(before, recipient),
            payload,
            Ok(prepared),
        ),
    ensures
        ({
            let meant = acts_for(before, owner, device) && (owner == recipient || (owner
                == before.owner && device != before.device));
            let reached = can_be_reached(before.users[owner].devices[device]);
            let gaps = gap_models(prepared.relay_gaps@);
            &&& prepared.recipient_owner == recipient
            &&& prepared.payload@ == payload
            &&& times_delivered(prepared.deliveries@, owner, device) == (if meant && reached {
                1nat
            } else {
                0nat
            })
            &&& forall|name: Option<Seq<char>>|
                #[trigger] gaps.contains(GapModel::DeviceInvite(owner, device, name)) <==> meant
                    && !reached && name == before.users[owner].devices[device].device_id
            &&& gaps.contains(GapModel::Roster(owner)) <==> owner == recipient && !(
            before.users.contains_key(recipient) && before.users[recipient].roster is Some)
        }),
{
    let set = target_set(before, recipient);
    assert forall|t: (OwnerPubkey, DevicePubkey)| #[trigger] set.contains(t) implies acts_for(
        before,
        t.0,
        t.1,
    ) by {}
    lemma_acting_finite(before, set);
    let to = audience(before, recipient);
    lemma_roster_gaps(before, recipient);
    lemma_served(before, after, now, recipient, to, set, payload, prepared, owner, device);
}

proof fn lemma_roster_gaps(m: ManagerModel, recipient: OwnerPubkey)
    ensures
        forall|g: GapModel| #[trigger]
            roster_gaps(m, recipient).contains(g) <==> g == GapModel::Roster(recipient) && !(
            m.users.contains_key(recipient) && m.users[recipient].roster is Some),
{
    let gaps = roster_gaps(m, recipient);
    if gaps.len() > 0 {
        assert(gaps[0] == GapModel::Roster(recipient));
    }
}

/// What is sent to the devices of another owner goes to each that acts for it
/// but the sender itself, and what is sent to the sender's own devices to each
/// of them but itself: once to each that can be reached and to no other device.
/// Each that cannot be reached is named.
pub proof fn remote_and_own_devices_get_their_part(
    before: ManagerModel,
    after: ManagerModel,
    now: UnixSeconds,
    recipient: OwnerPubkey,
    payload: Seq<u8>,
    prepared: PreparedSend,
    owner: OwnerPubkey,
    device: DevicePubkey,
)
    requires
        finite(before),
        prepares(
            before,
            after,
            now,
            recipient,
            remote_audience(before, recipient),
            payload,
            Ok(prepared),
        ) || (recipient == before.owner && prepares(
            before,
            after,
            now,
            recipient,
            sibling_audience(before),
            payload,
            Ok(prepared),
        )),
    ensures
        ({
            let meant = acts_for(before, owner, device) && owner == recipient && device
                != before.device;
            let reached = can_be_reached(before.users[owner].devices[device]);
            let gaps = gap_models(prepared.relay_gaps@);
            &&& prepared.recipient_owner == recipient
            &&& prepared.payload@ == payload
            &&& times_delivered(prepared.deliveries@, owner, device) == (if meant && reached {
                1nat
            } else {
                0nat
            })
            &&& forall|name: Option<Seq<char>>|
                #[trigger] gaps.contains(GapModel::DeviceInvite(owner, device, name)) <==> meant
                    && !reached && name == before.users[owner].devices[device].device_id
            &&& gaps.contains(GapModel::Roster(owner)) ==> owner == recipient && !(
            before.users.contains_key(recipient) && before.users[recipient].roster is Some)
            &&& prepares(
                before,
                after,
                now,
                recipient,
                remote_audience(before, recipient),
                payload,
                Ok(prepared),
            ) && owner == recipient && !(before.users.contains_key(recipient)
                && before.users[recipient].roster is Some) ==> gaps.contains(
                GapModel::Roster(owner),
            )
        }),
{
    let set = devices_of(before, recipient);
    assert forall|t: (OwnerPubkey, DevicePubkey)| #[trigger] set.contains(t) implies acts_for(
        before,
        t.0,
        t.1,
    ) by {}
    lemma_acting_finite(before, set);
    lemma_roster_gaps(before, recipient);
    let to = remote_audience(before, recipient);
    if prepares(before, after, now, recipient, to, payload, Ok(prepared)) {
        lemma_served(before, after, now, recipient, to, set, payload, prepared, owner, device);
    } else {
        let own = sibling_audience(before);
        lemma_served(before, after, now, recipient, own, set, payload, prepared, owner, device);
    }
}

} // verus!
