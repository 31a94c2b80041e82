//! What a device keeps of its peers, to which of their devices it writes, and
//! whom it hears.
use vstd::prelude::*;
use crate::app_keys::{AppKeysModel, DeviceEntry};
use crate::collections::{lists_len, ordered, ordered_lists};
use crate::error::{fault, Error, Fault};
use crate::ids::{DeviceId, DevicePubkey, OwnerPubkey, UnixSeconds};
use crate::invite::{accepted, device_name, InviteModel, InviteResponse};
use crate::keeping::{awaits, can_send, is_among, is_better, new_sessions_of_peers_are_kept};
use crate::peer_book::{
    active_priority, device_or_fresh, listener, live, preferred_first, priority, ranked,
    receive_choice, session_at, PeerBookReceivePlan, PeerDeviceModel, ScoredDevice,
};
use crate::rumor::RumorModel;
use crate::session::domain::after_send;
use crate::session::{EnvelopeModel, Session, SessionModel};
use crate::state::{
    accepts, accepts_with, claimed_owner_of, peer_or_fresh, receives_from_peer, sends_to_peer,
    shown, shown_devices, shown_peer, takes_over, takes_response, with_peer_session,
    DeviceSnapshotModel, InviteAcceptance, NdrModel, PeerModel, PeerSnapshotModel,
    PreparedDirectMessage, ProcessedInviteResponse, ReceivedDirectMessage,
};

verus! {

/// A session with a device of a peer is kept with that peer under the name of
/// the device, and no other device, no other peer and nothing of the device
/// lists is touched.
pub proof fn sessions_are_kept_with_their_peer(
    m: NdrModel,
    owner: OwnerPubkey,
    name: Seq<char>,
    session: SessionModel,
    now: UnixSeconds,
)
    ensures
        ({
            let after = with_peer_session(m, owner, name, session, now);
            let known = if m.peers.contains_key(owner) {
                m.peers[owner]
            } else {
                PeerModel {
                    owner,
                    sessions: Map::empty(),
                    app_keys: None,
                    app_keys_created_at: UnixSeconds(0),
                }
            };
            let peer = after.peers[owner];
            let device = peer.sessions[name];
            &&& after.peers.contains_key(owner)
            &&& device.last_activity == Some(now)
            &&& !known.sessions.contains_key(name) ==> device.created_at == now && !device.is_stale
                && device.stale_timestamp is None
            &&& known.sessions.contains_key(name) ==> device.device_id
                == known.sessions[name].device_id && device.created_at
                == known.sessions[name].created_at && device.is_stale
                == known.sessions[name].is_stale
            &&& peer.owner == known.owner
            &&& peer.app_keys == known.app_keys
            &&& peer.app_keys_created_at == known.app_keys_created_at
            &&& peer.sessions.contains_key(name)
            &&& !known.sessions.contains_key(name) ==> device.active == Some(session)
                && device.inactive.len() == 0 && device.device_id == name
            &&& known.sessions.contains_key(name) && known.sessions[name].inactive.len() < 10
                ==> is_among(device.active, device.inactive, session)
            &&& known.sessions.contains_key(name) && known.sessions[name].inactive.len() < 10
                ==> forall|x: SessionModel| #[trigger]
                is_among(
                    known.sessions[name].active,
                    known.sessions[name].inactive,
                    x,
                ) ==> is_among(device.active, device.inactive, x)
            &&& forall|other: Seq<char>|
                other != name ==> peer.sessions.contains_key(other) == known.sessions.contains_key(
                    other,
                ) && #[trigger] peer.sessions[other] == known.sessions[other]
            &&& forall|other: OwnerPubkey|
                other != owner ==> after.peers.contains_key(other) == m.peers.contains_key(other)
                    && #[trigger] after.peers[other] == m.peers[other]
            &&& after.owner == m.owner
            &&& after.device == m.device
            &&& after.device_id == m.device_id
            &&& after.app_keys == m.app_keys
            &&& after.app_keys_created_at == m.app_keys_created_at
        }),
{
    let known = peer_or_fresh(m, owner);
    let device = device_or_fresh(known.sessions, name, now);
    new_sessions_of_peers_are_kept(device, session, now);
    crate::peer_book::lemma_distinct(Seq::empty(), Some(session));
}

/// What is sent to a peer goes to a device of it that is not stale and whose
/// active session can send; no other such device has a better session. The
/// message carries the rumor that was given. Just that session moves on, and
/// nothing changes if sending fails. It fails for a peer that is not known, and
/// for one that has no such device.
pub proof fn peers_get_what_is_sent(
    before: NdrModel,
    after: NdrModel,
    now: UnixSeconds,
    owner: OwnerPubkey,
    rumor: RumorModel,
    r: Result<PreparedDirectMessage, Error>,
)
    requires
        sends_to_peer(before, after, now, owner, rumor, r),
    ensures
        r is Err ==> after == before,
        !before.peers.contains_key(owner) ==> (r matches Err(e) && fault(e) == Fault::UnknownPeer),
        before.peers.contains_key(owner) && (forall|name: Seq<char>| #[trigger]
            before.peers[owner].sessions.contains_key(name) ==> before.peers[owner].sessions[name].is_stale
                || before.peers[owner].sessions[name].active is None || !can_send(
                before.peers[owner].sessions[name].active->Some_0,
            )) ==> (r matches Err(e) && fault(e) == Fault::NoSendableSession),
        r matches Ok(message) ==> {
            let name = message.peer_device_id@;
            let was = before.peers[owner].sessions;
            let is_now = after.peers[owner].sessions;
            &&& before.peers.contains_key(owner)
            &&& message.peer_owner_pubkey == owner
            &&& message.rumor@ == rumor
            &&& was.contains_key(name)
            &&& !was[name].is_stale
            &&& was[name].active is Some
            &&& can_send(was[name].active->Some_0)
            &&& forall|other: Seq<char>| #[trigger]
                was.contains_key(other) && !was[other].is_stale && was[other].active is Some
                    && can_send(was[other].active->Some_0) ==> !is_better(
                    was[other].active->Some_0,
                    was[name].active->Some_0,
                )
            &&& message.envelope.created_at == now
            &&& crate::session::domain::carries(
                was[name].active->Some_0,
                message.envelope.encrypted_header@,
                message.envelope.ciphertext@,
                crate::session::rumor_bytes(rumor),
            )
            &&& is_now.contains_key(name)
            &&& is_now[name].active == Some(after_send(was[name].active->Some_0))
            &&& is_now[name].inactive == was[name].inactive
            &&& is_now[name].last_activity == Some(now)
            &&& is_now[name].device_id == was[name].device_id
            &&& !is_now[name].is_stale
            &&& after.peers[owner].owner == before.peers[owner].owner
            &&& after.peers[owner].app_keys == before.peers[owner].app_keys
            &&& after.app_keys == before.app_keys
            &&& forall|other: Seq<char>|
                other != name ==> is_now.contains_key(other) == was.contains_key(other)
                    && #[trigger] is_now[other] == was[other]
            &&& forall|other: OwnerPubkey|
                other != owner ==> after.peers.contains_key(other) == before.peers.contains_key(
                    other,
                ) && #[trigger] after.peers[other] == before.peers[other]
        },
{
    if r is Ok {
        let message = r->Ok_0;
        let name = message.peer_device_id@;
        let was = before.peers[owner].sessions;
        assert forall|other: Seq<char>| #[trigger]
            was.contains_key(other) && !was[other].is_stale && was[other].active is Some
                && can_send(was[other].active->Some_0) implies !is_better(
            was[other].active->Some_0,
            was[name].active->Some_0,
        ) by {
            assert(crate::peer_book::sendable_to(was[other]));
            assert(active_priority(was[other].active) == priority(was[other].active->Some_0));
            assert(active_priority(was[name].active) == priority(was[name].active->Some_0));
        }
    } else if before.peers.contains_key(owner) {
        let book = before.peers[owner].sessions;
        if forall|name: Seq<char>| #[trigger]
            book.contains_key(name) ==> book[name].is_stale || book[name].active is None
                || !can_send(book[name].active->Some_0) {
            assert forall|name: Seq<char>| #[trigger]
                book.contains_key(name) implies !crate::peer_book::sendable_to(book[name]) by {}
        }
    }
}

/// Whether a device that is not stale has a session that awaits a sender.
pub open spec fn listens_for(device: PeerDeviceModel, sender: DevicePubkey) -> bool {
    !device.is_stale && exists|s: SessionModel| #[trigger]
        is_among(device.active, device.inactive, s) && awaits(s, sender)
}

proof fn lemma_listener(device: PeerDeviceModel, sender: DevicePubkey)
    ensures
        listener(device, sender) is Some <==> exists|s: SessionModel| #[trigger]
            is_among(device.active, device.inactive, s) && awaits(s, sender),
        listener(device, sender) matches Some(at) ==> {
            &&& is_among(device.active, device.inactive, session_at(device, at))
            &&& awaits(session_at(device, at), sender)
            &&& at matches Some(i) ==> 0 <= i < device.inactive.len()
            &&& at is None ==> device.active is Some
        },
{
    let shelf = crate::shelf::ShelfModel { active: device.active, inactive: device.inactive };
    crate::keeping::messages_are_heard_by_who_awaits_them(shelf, sender);
    assert(crate::shelf::listening_place(shelf, sender) == listener(device, sender));
    if let Some(at) = listener(device, sender) {
        assert(crate::shelf::shelf_session(shelf, at) == session_at(device, at));
    }
}

proof fn lemma_choice(
    book: Map<Seq<char>, PeerDeviceModel>,
    names: Seq<Seq<char>>,
    sender: DevicePubkey,
)
    ensures
        receive_choice(book, names, sender) is Some <==> exists|i: int|
            0 <= i < names.len() && listener(book[#[trigger] names[i]], sender) is Some,
        receive_choice(book, names, sender) matches Some((name, at)) ==> names.contains(name)
            && listener(book[name], sender) == Some(at),
    decreases names.len(),
{
    if names.len() > 0 {
        let rest = names.drop_first();
        lemma_choice(book, rest, sender);
        if listener(book[names[0]], sender) is Some {
            assert(names.contains(names[0]));
        } else {
            if exists|i: int|
                0 <= i < names.len() && listener(book[#[trigger] names[i]], sender) is Some {
                let i = choose|i: int|
                    0 <= i < names.len() && listener(book[#[trigger] names[i]], sender) is Some;
                assert(rest[i - 1] == names[i]);
            }
            if let Some((name, _)) = receive_choice(book, rest, sender) {
                let k = choose|k: int| 0 <= k < rest.len() && rest[k] == name;
                assert(names[k + 1] == name);
            }
        }
    }
}

proof fn lemma_preferred(names: Seq<Seq<char>>, preferred: Option<Seq<char>>, name: Seq<char>)
    ensures
        preferred_first(names, preferred).contains(name) <==> names.contains(name),
{
    if let Some(first) = preferred {
        if names.contains(first) {
            let at = names.index_of_first(first)->Some_0;
            names.index_of_first_ensures(first);
            let rest = names.remove(at);
            let all = seq![first] + rest;
            if all.contains(name) {
                let k = choose|k: int| 0 <= k < all.len() && all[k] == name;
                if k > 0 {
                    assert(rest[k - 1] == name);
                    if k - 1 < at {
                        assert(names[k - 1] == name);
                    } else {
                        assert(names[k] == name);
                    }
                }
            }
            if names.contains(name) {
                let k = choose|k: int| 0 <= k < names.len() && names[k] == name;
                if name == first {
                    assert(all[0] == name);
                } else if k < at {
                    assert(all[k + 1] == name);
                } else {
                    assert(all[k] == name);
                }
            }
        }
    }
}

/// A message of a peer is heard if and only if a session with one of its
/// devices that is not stale awaits the sender; the rumor that comes out is
/// what that session reads. Just that device is touched, and nothing if reading
/// fails or nobody listens.
pub proof fn peers_are_heard(
    before: NdrModel,
    after: NdrModel,
    now: UnixSeconds,
    owner: OwnerPubkey,
    preferred: Option<Seq<char>>,
    envelope: EnvelopeModel,
    r: Result<Option<ReceivedDirectMessage>, Error>,
)
    requires
        receives_from_peer(before, after, now, owner, preferred, envelope, r),
        before.peers.contains_key(owner),
        live(before.peers[owner].sessions).finite(),
    ensures
        (r matches Ok(found) && found is None) <==> !(exists|name: Seq<char>|
            before.peers[owner].sessions.contains_key(name) && #[trigger] listens_for(
                before.peers[owner].sessions[name],
                envelope.sender,
            )),
        !(r matches Ok(found) && found is Some) ==> after == before,
        r matches Ok(Some(message)) ==> {
            let name = message.peer_device_id@;
            let was = before.peers[owner].sessions;
            let is_now = after.peers[owner].sessions;
            &&& message.peer_owner_pubkey == owner
            &&& was.contains_key(name)
            &&& listens_for(was[name], envelope.sender)
            &&& exists|s: SessionModel, plan: crate::session::ReceivePlan|
                is_among(was[name].active, was[name].inactive, s) && awaits(s, envelope.sender)
                    && #[trigger] crate::session::drawn_receive(s, envelope, Ok(plan))
                    && message.rumor == plan.rumor && is_among(
                    is_now[name].active,
                    is_now[name].inactive,
                    plan.next_state@,
                )
            &&& is_now.contains_key(name)
            &&& forall|other: Seq<char>|
                other != name ==> is_now.contains_key(other) == was.contains_key(other)
                    && #[trigger] is_now[other] == was[other]
            &&& forall|other: OwnerPubkey|
                other != owner ==> after.peers.contains_key(other) == before.peers.contains_key(
                    other,
                ) && #[trigger] after.peers[other] == before.peers[other]
        },
{
    let book = before.peers[owner].sessions;
    let sender = envelope.sender;
    let ranks = ordered::<ScoredDevice>(live(book));
    let names = ranked(book);
    let order = preferred_first(names, preferred);
    ordered_lists::<ScoredDevice>(live(book));
    lemma_choice(book, order, sender);
    assert forall|name: Seq<char>| #[trigger] names.contains(name) <==> book.contains_key(name)
        && !book[name].is_stale by {
        if names.contains(name) {
            let i = choose|i: int| 0 <= i < names.len() && names[i] == name;
            assert(ranks.contains(ranks[i]));
            assert(live(book).contains(ranks[i]));
        }
        if book.contains_key(name) && !book[name].is_stale {
            let x = (active_priority(book[name].active), name);
            assert(live(book).contains(x));
            assert(ranks.contains(x));
            let i = choose|i: int| 0 <= i < ranks.len() && ranks[i] == x;
            assert(names[i] == name);
        }
    }
    if exists|name: Seq<char>|
        book.contains_key(name) && #[trigger] listens_for(book[name], sender) {
        let name = choose|name: Seq<char>|
            book.contains_key(name) && #[trigger] listens_for(book[name], sender);
        lemma_listener(book[name], sender);
        assert(names.contains(name));
        lemma_preferred(names, preferred, name);
        let i = choose|i: int| 0 <= i < order.len() && order[i] == name;
        assert(listener(book[order[i]], sender) is Some);
    }
    if let Some((name, at)) = receive_choice(book, order, sender) {
        lemma_preferred(names, preferred, name);
        lemma_listener(book[name], sender);
        assert(names.contains(name));
        assert(listens_for(book[name], sender));
        if r is Ok && r->Ok_0 is Some {
            let message = r->Ok_0->Some_0;
            let plan = choose|plan: PeerBookReceivePlan| #[trigger]
                takes_over(before, after, now, owner, preferred, envelope, plan, message);
            let s = session_at(book[name], at);
            crate::keeping::sessions_of_peers_move_on(
                book[name],
                plan.active_match,
                plan.inactive_index,
                plan.session_plan.next_state@,
                now,
            );
            assert(crate::session::drawn_receive(s, envelope, Ok(plan.session_plan)));
        }
    }
}

/// Where a session with the device that is to be tried first awaits the sender,
/// it is that device whose message is heard.
pub proof fn preferred_devices_are_heard_first(
    before: NdrModel,
    after: NdrModel,
    now: UnixSeconds,
    owner: OwnerPubkey,
    preferred: Seq<char>,
    envelope: EnvelopeModel,
    r: Result<Option<ReceivedDirectMessage>, Error>,
)
    requires
        receives_from_peer(before, after, now, owner, Some(preferred), envelope, r),
        before.peers.contains_key(owner),
        live(before.peers[owner].sessions).finite(),
        before.peers[owner].sessions.contains_key(preferred),
        listens_for(before.peers[owner].sessions[preferred], envelope.sender),
    ensures
        !(r matches Ok(found) && found is None),
        r matches Ok(Some(message)) ==> message.peer_device_id@ == preferred,
{
    let book = before.peers[owner].sessions;
    let ranks = ordered::<ScoredDevice>(live(book));
    let names = ranked(book);
    ordered_lists::<ScoredDevice>(live(book));
    let x = (active_priority(book[preferred].active), preferred);
    assert(live(book).contains(x));
    assert(ranks.contains(x));
    let i = choose|i: int| 0 <= i < ranks.len() && ranks[i] == x;
    assert(names[i] == preferred);
    lemma_listener(book[preferred], envelope.sender);
    let order = preferred_first(names, Some(preferred));
    assert(order[0] == preferred);
    assert(receive_choice(book, order, envelope.sender)->Some_0.0 == preferred);
    if r is Ok && r->Ok_0 is Some {
        let message = r->Ok_0->Some_0;
        let plan = choose|plan: PeerBookReceivePlan| #[trigger]
            takes_over(before, after, now, owner, Some(preferred), envelope, plan, message);
        assert(message.peer_device_id@ == preferred);
    }
}

/// Whether a value stands in a map.
pub open spec fn has_value<K, V>(map: Map<K, V>, value: V) -> bool {
    exists|k: K| #[trigger] map.contains_key(k) && map[k] == value
}

/// Whether a list shows an entry for each device of a device list, with the
/// labels that it has, and nothing else.
pub open spec fn shows_devices(
    shown: Seq<DeviceSnapshotModel>,
    devices: Map<DevicePubkey, DeviceEntry>,
    keys: AppKeysModel,
) -> bool {
    &&& shown.len() == devices.dom().len()
    &&& forall|i: int|
        0 <= i < shown.len() ==> has_value(devices, (#[trigger] shown[i]).device) && is_labelled(
            shown[i],
            keys,
        )
    &&& forall|d: DevicePubkey| #[trigger]
        devices.contains_key(d) ==> exists|i: int|
            0 <= i < shown.len() && (#[trigger] shown[i]).device == devices[d]
}

/// Whether a device is shown with the labels that a list has for it.
pub open spec fn is_labelled(x: DeviceSnapshotModel, keys: AppKeysModel) -> bool {
    let d = x.device.identity_pubkey;
    if keys.labels.contains_key(d) {
        &&& x.device_label == keys.labels[d].device_label
        &&& x.client_label == keys.labels[d].client_label
        &&& x.labels_updated_at == Some(keys.labels[d].updated_at)
    } else {
        x.device_label is None && x.client_label is None && x.labels_updated_at is None
    }
}

proof fn lemma_shows_devices(keys: AppKeysModel)
    requires
        keys.devices.dom().finite(),
    ensures
        shows_devices(shown_devices(Some(keys)), keys.devices, keys),
{
    let order = ordered::<DevicePubkey>(keys.devices.dom());
    let all = shown_devices(Some(keys));
    ordered_lists::<DevicePubkey>(keys.devices.dom());
    lists_len::<DevicePubkey>(order, keys.devices.dom());
    assert(all.len() == keys.devices.dom().len());
    assert forall|i: int| 0 <= i < all.len() implies has_value(
        keys.devices,
        (#[trigger] all[i]).device,
    ) && is_labelled(all[i], keys) by {
        assert(order.contains(order[i]));
        assert(keys.devices.contains_key(order[i]));
    }
    assert forall|d: DevicePubkey| #[trigger] keys.devices.contains_key(d) implies exists|i: int|
        0 <= i < all.len() && (#[trigger] all[i]).device == keys.devices[d] by {
        assert(keys.devices.dom().contains(d));
        assert(order.contains(d));
        let i = choose|i: int| 0 <= i < order.len() && order[i] == d;
        assert(all[i].device == keys.devices[d]);
    }
}

/// A snapshot shows who the device is, each device of its own list, and each
/// peer with each device of its list and each device that there are sessions
/// with, and nothing else.
pub proof fn snapshots_show_what_is_kept(m: NdrModel)
    requires
        m.peers.dom().finite(),
        m.app_keys matches Some(keys) ==> keys.devices.dom().finite(),
        forall|o: OwnerPubkey| #[trigger]
            m.peers.contains_key(o) ==> m.peers[o].sessions.dom().finite() && (
            m.peers[o].app_keys matches Some(keys) ==> keys.devices.dom().finite()),
    ensures
        ({
            let s = shown(m);
            &&& s.owner == m.owner
            &&& s.device == m.device
            &&& s.device_id == m.device_id
            &&& s.app_keys_created_at == m.app_keys_created_at
            &&& m.app_keys is None ==> s.devices.len() == 0
            &&& m.app_keys matches Some(keys) ==> shows_devices(s.devices, keys.devices, keys)
            &&& s.peers.len() == m.peers.dom().len()
            &&& forall|o: OwnerPubkey| #[trigger]
                m.peers.contains_key(o) ==> exists|i: int|
                    0 <= i < s.peers.len() && #[trigger] shows_peer(s.peers[i], m.peers[o])
            &&& forall|i: int|
                0 <= i < s.peers.len() ==> shows_a_peer(#[trigger] s.peers[i], m)
        }),
{
    let s = shown(m);
    let order = ordered::<OwnerPubkey>(m.peers.dom());
    ordered_lists::<OwnerPubkey>(m.peers.dom());
    lists_len::<OwnerPubkey>(order, m.peers.dom());
    if let Some(keys) = m.app_keys {
        lemma_shows_devices(keys);
    }
    assert forall|i: int| 0 <= i < order.len() implies #[trigger] m.peers.contains_key(order[i])
        && shows_peer(s.peers[i], m.peers[order[i]]) by {
        assert(order.contains(order[i]));
        assert(m.peers.contains_key(order[i]));
        lemma_shows_peer(m.peers[order[i]]);
    }
    assert forall|o: OwnerPubkey| #[trigger] m.peers.contains_key(o) implies exists|i: int|
        0 <= i < s.peers.len() && #[trigger] shows_peer(s.peers[i], m.peers[o]) by {
        assert(m.peers.dom().contains(o));
        assert(order.contains(o));
        let i = choose|i: int| 0 <= i < order.len() && order[i] == o;
        assert(m.peers.contains_key(order[i]));
        assert(shows_peer(s.peers[i], m.peers[o]));
    }
    assert forall|i: int| 0 <= i < s.peers.len() implies shows_a_peer(
        #[trigger] s.peers[i],
        m,
    ) by {
        assert(m.peers.contains_key(order[i]));
    }
}

/// Whether a peer is shown as it is kept.
pub open spec fn shows_peer(x: PeerSnapshotModel, peer: PeerModel) -> bool {
    &&& x.owner == peer.owner
    &&& x.app_keys_created_at == peer.app_keys_created_at
    &&& peer.app_keys is None ==> x.devices.len() == 0
    &&& peer.app_keys matches Some(keys) ==> shows_devices(x.devices, keys.devices, keys)
    &&& x.sessions.len() == peer.sessions.dom().len()
    &&& forall|name: Seq<char>| #[trigger]
        peer.sessions.contains_key(name) ==> x.sessions.contains(peer.sessions[name])
    &&& forall|i: int|
        0 <= i < x.sessions.len() ==> has_value(peer.sessions, #[trigger] x.sessions[i])
}

pub open spec fn shows_a_peer(x: PeerSnapshotModel, m: NdrModel) -> bool {
    exists|o: OwnerPubkey| #[trigger] m.peers.contains_key(o) && shows_peer(x, m.peers[o])
}

proof fn lemma_shows_peer(peer: PeerModel)
    requires
        peer.sessions.dom().finite(),
        peer.app_keys matches Some(keys) ==> keys.devices.dom().finite(),
    ensures
        shows_peer(shown_peer(peer), peer),
{
    let x = shown_peer(peer);
    let order = ordered::<DeviceId>(peer.sessions.dom());
    ordered_lists::<DeviceId>(peer.sessions.dom());
    lists_len::<DeviceId>(order, peer.sessions.dom());
    if let Some(keys) = peer.app_keys {
        lemma_shows_devices(keys);
    }
    assert forall|name: Seq<char>| #[trigger]
        peer.sessions.contains_key(name) implies x.sessions.contains(peer.sessions[name]) by {
        assert(peer.sessions.dom().contains(name));
        assert(order.contains(name));
        let i = choose|i: int| 0 <= i < order.len() && order[i] == name;
        assert(x.sessions[i] == peer.sessions[name]);
    }
    assert forall|i: int| 0 <= i < x.sessions.len() implies has_value(
        peer.sessions,
        #[trigger] x.sessions[i],
    ) by {
        assert(order.contains(order[i]));
        assert(peer.sessions.contains_key(order[i]));
    }
}

/// Who accepts an invite keeps a session with the device that offered it, under
/// the name of that device, and tells it who answers: a device that acts for
/// another owner names that owner.
pub proof fn inviters_are_kept(
    before: NdrModel,
    after: NdrModel,
    now: UnixSeconds,
    invite: InviteModel,
    secret: [u8; 32],
    r: Result<InviteAcceptance, Error>,
)
    requires
        accepts(before, after, now, invite, secret, r),
    ensures
        r is Err ==> after == before,
        r matches Ok(acceptance) ==> {
            let name = match invite.device_id {
                Some(id) => id,
                None => "unknown"@,
            };
            let claimed = if before.owner.0 == before.device.0 {
                None
            } else {
                Some(before.owner)
            };
            &&& acceptance.inviter_pubkey == invite.inviter
            &&& device_name(acceptance.inviter_device_id) == invite.device_id
            &&& exists|session: Session|
                accepted(
                    invite,
                    now,
                    before.device,
                    secret,
                    before.device_id,
                    claimed,
                    Ok((session, acceptance.response)),
                ) && after == with_peer_session(
                    before,
                    invite.inviter,
                    name,
                    #[trigger] session@,
                    now,
                )
        },
{
    if r is Ok {
        let acceptance = r->Ok_0;
        let session = choose|session: Session| #[trigger]
            accepts_with(before, after, now, invite, secret, session, acceptance);
        assert(accepted(
            invite,
            now,
            before.device,
            secret,
            before.device_id,
            claimed_owner_of(before),
            Ok((session, acceptance.response)),
        ));
    }
}

/// Who takes in a response keeps the session with the owner that was named, or
/// with the device itself if none was, under the name of the device.
pub proof fn invitees_are_kept(
    before: NdrModel,
    after: NdrModel,
    invite: InviteModel,
    next_invite: InviteModel,
    now: UnixSeconds,
    sender: DevicePubkey,
    content: Seq<char>,
    secret: [u8; 32],
    response: InviteResponse,
    done: ProcessedInviteResponse,
)
    requires
        takes_response(
            before,
            after,
            invite,
            next_invite,
            now,
            sender,
            content,
            secret,
            response,
            done,
        ),
    ensures
        ({
            let owner = match response.owner_public_key {
                Some(owner) => owner,
                None => response.invitee_identity.owner(),
            };
            let name = match device_name(response.device_id) {
                Some(id) => id,
                None => "unknown"@,
            };
            &&& done.peer_owner_pubkey == owner
            &&& done.invitee_identity == response.invitee_identity
            &&& device_name(done.peer_device_id) == device_name(response.device_id)
            &&& after == with_peer_session(before, owner, name, response.session@, now)
        }),
{
}

} // verus!
