//! What holds of what one session manager sends and another takes in.
use vstd::prelude::*;
use super::queries::{
    active_sessions, all_sessions, device_sessions, owner_sessions, user_sessions, HeldModel, Which,
};
use super::{
    delivers, finite, listening_device, receives, DeviceModel, DeviceOutcome, ManagerModel,
    ReceivedMessage, SenderModel, UserModel,
};
use crate::collections::{ordered, OrderedKey};
use crate::error::Error;
use crate::ids::{DevicePubkey, OwnerPubkey, UnixSeconds};
use crate::session::properties::{follows_chain, in_time, message_of_the_chain_opens};
use crate::session::SessionModel;
use crate::shelf::{send_place, shelf_session, ShelfModel};

verus! {

/// The session on which a device is written to.
pub open spec fn speaking_session(record: DeviceModel) -> SessionModel {
    shelf_session(record.sessions, send_place(record.sessions)->Some_0)
}

/// The session of an owner's devices that listens to a sender.
pub open spec fn hearing_session(
    m: ManagerModel,
    owner: OwnerPubkey,
    sender: DevicePubkey,
) -> SessionModel {
    let at = listening_device(m.users[owner], sender)->Some_0;
    shelf_session(m.users[owner].devices[at.0].sessions, at.1)
}

/// A message that was prepared for a device is received there: where the
/// session that listens to its sender is on the chain on which it was sent, and
/// not too many messages are missing, the payload comes out as it went in.
pub proof fn sent_messages_are_received(
    sender: SenderModel,
    record: DeviceModel,
    record_after: DeviceModel,
    sent_at: UnixSeconds,
    payload: Seq<u8>,
    sent: Result<DeviceOutcome, Error>,
    m: ManagerModel,
    after: ManagerModel,
    now: UnixSeconds,
    owner: OwnerPubkey,
    r: Result<Option<ReceivedMessage>, Error>,
)
    requires
        delivers(sender, record, record_after, sent_at, payload, sent),
        send_place(record.sessions) is Some,
        sent is Ok,
        sent->Ok_0 is Some,
        m.users.contains_key(owner),
        ({
            let envelope = sent->Ok_0->Some_0.0.envelope;
            let s = speaking_session(record);
            &&& listening_device(m.users[owner], envelope.sender) is Some
            &&& follows_chain(s, hearing_session(m, owner, envelope.sender))
            &&& in_time(s, hearing_session(m, owner, envelope.sender))
            &&& receives(m, after, now, owner, envelope@, r)
        }),
    ensures
        r is Ok,
        r->Ok_0 is Some,
        r->Ok_0->Some_0.payload@ == payload,
        r->Ok_0->Some_0.owner_pubkey == owner,
{
    let envelope = sent->Ok_0->Some_0.0.envelope;
    let s = speaking_session(record);
    let h = hearing_session(m, owner, envelope.sender);
    assert forall|secret: [u8; 32]| #[trigger]
        crate::session::domain::receive(
            h,
            envelope.sender,
            envelope.encrypted_header@,
            envelope.ciphertext@,
            secret,
        ) is Ok && crate::session::domain::receive(
        h,
        envelope.sender,
        envelope.encrypted_header@,
        envelope.ciphertext@,
        secret,
    )->Ok_0.1 == payload by {
        message_of_the_chain_opens(
            s,
            h,
            envelope.encrypted_header@,
            envelope.ciphertext@,
            payload,
            secret,
        );
    }
    crate::session::properties::following_messages_do_not_turn(
        s,
        h,
        envelope.encrypted_header@,
        envelope.ciphertext@,
        payload,
    );
}

/// A device gets nothing just if it is not authorized, is stale, or has neither
/// a session that can send nor an invite. A response goes with a message just
/// if no session could send, and it goes to the key of the invite.
pub proof fn devices_get_what_they_can_read(
    sender: SenderModel,
    before: DeviceModel,
    after: DeviceModel,
    now: UnixSeconds,
    payload: Seq<u8>,
    outcome: DeviceOutcome,
)
    requires
        delivers(sender, before, after, now, payload, Ok(outcome)),
    ensures
        outcome is None <==> !before.authorized || before.is_stale || (send_place(
            before.sessions,
        ) is None && before.public_invite is None),
        outcome matches Some((_, response)) ==> {
            &&& response is Some <==> send_place(before.sessions) is None
            &&& response matches Some(response) ==> response.recipient
                == before.public_invite->Some_0.ephemeral_key
        },
        outcome is None ==> after == before,
{
}

// ---------------------------------------------------------------------------
// Which sessions there are
// ---------------------------------------------------------------------------

/// Whether a state is that of a session with a device.
pub open spec fn is_held(m: ManagerModel, held: HeldModel, which: Which) -> bool {
    let shelf = m.users[held.owner].devices[held.device].sessions;
    &&& m.users.contains_key(held.owner)
    &&& m.users[held.owner].devices.contains_key(held.device)
    &&& shelf.active == Some(held.state) || (which is All && shelf.inactive.contains(held.state))
}

proof fn lemma_device_sessions(
    owner: OwnerPubkey,
    device: DevicePubkey,
    shelf: ShelfModel,
    which: Which,
    held: HeldModel,
)
    ensures
        device_sessions(owner, device, shelf, which).contains(held) <==> held.owner == owner
            && held.device == device && (shelf.active == Some(held.state) || (which is All
            && shelf.inactive.contains(held.state))),
{
    let all = device_sessions(owner, device, shelf, which);
    let n: int = if shelf.active is Some {
        1
    } else {
        0
    };
    if all.contains(held) {
        let i = choose|i: int| 0 <= i < all.len() && all[i] == held;
        if i >= n {
            assert(shelf.inactive[i - n] == held.state);
        }
    }
    if held.owner == owner && held.device == device {
        if shelf.active == Some(held.state) {
            assert(all[0] == held);
        } else if which is All && shelf.inactive.contains(held.state) {
            let i = choose|i: int| 0 <= i < shelf.inactive.len() && shelf.inactive[i] == held.state;
            assert(all[n + i] == held);
        }
    }
}

proof fn lemma_concat_contains(a: Seq<HeldModel>, b: Seq<HeldModel>, held: HeldModel)
    ensures
        (a + b).contains(held) <==> a.contains(held) || b.contains(held),
{
    if (a + b).contains(held) {
        let i = choose|i: int| 0 <= i < (a + b).len() && (a + b)[i] == held;
        if i < a.len() {
            assert(a[i] == held);
        } else {
            assert(b[i - a.len()] == held);
        }
    }
    if a.contains(held) {
        let i = choose|i: int| 0 <= i < a.len() && a[i] == held;
        assert((a + b)[i] == held);
    }
    if b.contains(held) {
        let i = choose|i: int| 0 <= i < b.len() && b[i] == held;
        assert((a + b)[a.len() + i] == held);
    }
}

proof fn lemma_user_sessions(
    owner: OwnerPubkey,
    user: UserModel,
    devices: Seq<DevicePubkey>,
    which: Which,
    held: HeldModel,
)
    ensures
        user_sessions(owner, user, devices, which).contains(held) <==> held.owner == owner
            && devices.contains(held.device) && device_sessions(
            owner,
            held.device,
            user.devices[held.device].sessions,
            which,
        ).contains(held),
    decreases devices.len(),
{
    if devices.len() > 0 {
        let fewer = devices.drop_last();
        let last = devices.last();
        lemma_user_sessions(owner, user, fewer, which, held);
        lemma_device_sessions(owner, last, user.devices[last].sessions, which, held);
        lemma_device_sessions(
            owner,
            held.device,
            user.devices[held.device].sessions,
            which,
            held,
        );
        lemma_concat_contains(
            user_sessions(owner, user, fewer, which),
            device_sessions(owner, last, user.devices[last].sessions, which),
            held,
        );
        lemma_last_or_before(devices, held.device);
    }
}

proof fn lemma_last_or_before<T>(all: Seq<T>, x: T)
    requires
        all.len() > 0,
    ensures
        all.contains(x) <==> all.drop_last().contains(x) || all.last() == x,
{
    if all.contains(x) {
        let i = choose|i: int| 0 <= i < all.len() && all[i] == x;
        if i < all.len() - 1 {
            assert(all.drop_last()[i] == x);
        }
    }
    if all.drop_last().contains(x) {
        let i = choose|i: int| 0 <= i < all.len() - 1 && all.drop_last()[i] == x;
        assert(all[i] == x);
    }
    if all.last() == x {
        assert(all[all.len() - 1] == x);
    }
}

proof fn lemma_owner_sessions(
    m: ManagerModel,
    owners: Seq<OwnerPubkey>,
    which: Which,
    held: HeldModel,
)
    ensures
        owner_sessions(m, owners, which).contains(held) <==> owners.contains(held.owner)
            && user_sessions(
            held.owner,
            m.users[held.owner],
            ordered::<DevicePubkey>(m.users[held.owner].devices.dom()),
            which,
        ).contains(held),
    decreases owners.len(),
{
    if owners.len() > 0 {
        let fewer = owners.drop_last();
        let last = owners.last();
        let devices = ordered::<DevicePubkey>(m.users[last].devices.dom());
        lemma_owner_sessions(m, fewer, which, held);
        lemma_user_sessions(last, m.users[last], devices, which, held);
        lemma_concat_contains(
            owner_sessions(m, fewer, which),
            user_sessions(last, m.users[last], devices, which),
            held,
        );
        lemma_last_or_before(owners, held.owner);
    }
}

/// The sessions that a manager lists are those it has: the active one of each
/// device of each owner, and with all of them the inactive ones.
pub proof fn sessions_are_all_listed(m: ManagerModel, held: HeldModel)
    requires
        finite(m),
    ensures
        all_sessions(m).contains(held) <==> is_held(m, held, Which::All),
        active_sessions(m).contains(held) <==> is_held(m, held, Which::Active),
{
    let owners = ordered::<OwnerPubkey>(m.users.dom());
    crate::collections::ordered_lists::<OwnerPubkey>(m.users.dom());
    assert(owners.contains(held.owner) <==> m.users.dom().contains(held.owner));
    lemma_owner_sessions(m, owners, Which::All, held);
    lemma_owner_sessions(m, owners, Which::Active, held);
    if m.users.contains_key(held.owner) {
        let user = m.users[held.owner];
        let devices = ordered::<DevicePubkey>(user.devices.dom());
        crate::collections::ordered_lists::<DevicePubkey>(user.devices.dom());
        assert(devices.contains(held.device) <==> user.devices.dom().contains(held.device));
        lemma_user_sessions(held.owner, user, devices, Which::All, held);
        lemma_user_sessions(held.owner, user, devices, Which::Active, held);
        let shelf = user.devices[held.device].sessions;
        lemma_device_sessions(held.owner, held.device, shelf, Which::All, held);
        lemma_device_sessions(held.owner, held.device, shelf, Which::Active, held);
    }
}

} // verus!
