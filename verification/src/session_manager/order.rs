//! What every manager keeps that began without knowing anyone: the rosters
//! decide who acts for an owner.
use vstd::prelude::*;
use super::{
    delivers, differs_in, fans_out, finite, first_listening, invited, listening_device, merged_created_at,
    observes_response, outcome_fits, prepares, prepares_with, previous_devices, pruned,
    received_record, receives, record_of, record_or_fresh, rostered_to, sender_of, takes_message,
    takes_response, takes_roster, user_or_fresh, with_import, with_new_invite, with_record,
    Audience, DeviceModel, DeviceOutcome, ManagerModel, PreparedSend, ProcessedInviteResponse,
    ReceivedMessage, SenderModel, UserModel,
};
use crate::collections::{ordered, ordered_lists};
use crate::error::Error;
use crate::ids::{device_key_of, DevicePubkey, OwnerPubkey, UnixSeconds};
use crate::invite::{resolved_owner, InviteModel, InviteResponse};
use crate::roster::{merged_rosters, next_roster, RosterModel, RosterSnapshotDecision};
use crate::session::{EnvelopeModel, SessionModel, SessionState};
use crate::shelf::upserted_shelf;

verus! {

/// Whether the record of a device says what the roster of its owner says: it is
/// authorized just if it is listed, and one that is listed is not stale and not
/// younger than the roster has it.
pub open spec fn follows_roster(user: UserModel, device: DevicePubkey) -> bool {
    let record = user.devices[device];
    &&& record.authorized == previous_devices(user).contains(device)
    &&& record.authorized ==> {
        &&& !record.is_stale
        &&& record.stale_since is None
        &&& merged_created_at(record.created_at, user.roster->Some_0.devices[device])
            == record.created_at
    }
}

/// Whether all devices on the roster of an owner are known, and all that are
/// known follow it.
pub open spec fn orderly_user(user: UserModel) -> bool {
    &&& forall|d: DevicePubkey| #[trigger]
        previous_devices(user).contains(d) ==> user.devices.contains_key(d)
    &&& forall|d: DevicePubkey| #[trigger]
        user.devices.contains_key(d) ==> follows_roster(user, d)
}

/// Whether a manager has its own key, and all owners that it knows follow their
/// rosters.
pub open spec fn orderly(m: ManagerModel) -> bool {
    &&& device_key_of(m.secret) == Some(m.device)
    &&& forall|o: OwnerPubkey| #[trigger] m.users.contains_key(o) ==> orderly_user(m.users[o])
}

/// Whether two records agree on what a roster says, and the one is no younger
/// than the other.
pub open spec fn as_rostered(before: DeviceModel, after: DeviceModel) -> bool {
    &&& after.authorized == before.authorized
    &&& after.is_stale == before.is_stale
    &&& after.stale_since == before.stale_since
    &&& after.created_at == before.created_at || exists|at: UnixSeconds|
        after.created_at == #[trigger] merged_created_at(before.created_at, at)
}

proof fn lemma_user_or_fresh(m: ManagerModel, owner: OwnerPubkey)
    requires
        orderly(m),
    ensures
        orderly_user(user_or_fresh(m, owner)),
{
}

pub proof fn lemma_with_record(
    m: ManagerModel,
    owner: OwnerPubkey,
    device: DevicePubkey,
    at: UnixSeconds,
    record: DeviceModel,
)
    requires
        orderly(m),
        as_rostered(record_or_fresh(user_or_fresh(m, owner).devices, device, at), record),
    ensures
        orderly(with_record(m, owner, device, record)),
{
    let user = user_or_fresh(m, owner);
    let next = with_record(m, owner, device, record).users[owner];
    assert(previous_devices(next) == previous_devices(user));
    assert(orderly_user(next)) by {
        assert forall|d: DevicePubkey| #[trigger] next.devices.contains_key(d) implies follows_roster(
            next,
            d,
        ) by {
            if d == device {
                if user.devices.contains_key(d) {
                    assert(follows_roster(user, d));
                }
            } else {
                assert(user.devices.contains_key(d));
                assert(follows_roster(user, d));
            }
        }
    }
}

pub proof fn lemma_rostered_to(user: UserModel, next: RosterModel)
    requires
        orderly_user(user),
    ensures
        orderly_user(rostered_to(user, next)),
{
    let after = rostered_to(user, next);
    assert forall|d: DevicePubkey| #[trigger] after.devices.contains_key(d) implies follows_roster(
        after,
        d,
    ) by {
        if user.devices.contains_key(d) {
            assert(follows_roster(user, d));
        }
        assert(previous_devices(user).contains(d) ==> user.devices.contains_key(d));
    }
}

/// A roster decides who acts for an owner, in every manager that began without
/// knowing anyone. The later one counts, two of the same time are put together,
/// and one that comes too late changes nothing. Afterwards the devices on it,
/// and no others, are authorized, and those that it dropped are stale since its
/// time.
pub proof fn rosters_decide(
    before: ManagerModel,
    after: ManagerModel,
    owner: OwnerPubkey,
    roster: RosterModel,
    decision: RosterSnapshotDecision,
)
    requires
        orderly(before),
        takes_roster(before, after, owner, roster, decision),
    ensures
        orderly(after),
        match user_or_fresh(before, owner).roster {
            None => decision == RosterSnapshotDecision::Advanced && after.users[owner].roster == Some(
                roster,
            ),
            Some(known) => if roster.created_at.0 > known.created_at.0 {
                decision == RosterSnapshotDecision::Advanced && after.users[owner].roster == Some(
                    roster,
                )
            } else if roster.created_at.0 < known.created_at.0 {
                decision == RosterSnapshotDecision::Stale && after == before
            } else {
                decision == RosterSnapshotDecision::MergedEqualTimestamp
                    && after.users[owner].roster == Some(merged_rosters(known, roster))
            },
        },
        forall|d: DevicePubkey|
            previous_devices(after.users[owner]).contains(d) <==> (
            #[trigger] after.users[owner].devices.contains_key(d)
                && after.users[owner].devices[d].authorized),
        forall|d: DevicePubkey| #[trigger]
            previous_devices(user_or_fresh(before, owner)).contains(d) && !previous_devices(
                after.users[owner],
            ).contains(d) ==> after.users[owner].devices.contains_key(d)
                && after.users[owner].devices[d].is_stale
                && after.users[owner].devices[d].stale_since == Some(
                after.users[owner].roster->Some_0.created_at,
            ),
{
    let user = user_or_fresh(before, owner);
    let next = next_roster(user.roster, roster).1;
    lemma_user_or_fresh(before, owner);
    lemma_rostered_to(user, next);
    let done = after.users[owner];
    assert(done == rostered_to(user, next));
    assert forall|d: DevicePubkey|
        previous_devices(done).contains(d) <==> (#[trigger] done.devices.contains_key(d)
            && done.devices[d].authorized) by {
        if done.devices.contains_key(d) {
            assert(follows_roster(done, d));
        }
    }
    assert forall|d: DevicePubkey| #[trigger]
        previous_devices(user).contains(d) && !previous_devices(done).contains(d) implies {
        &&& done.devices.contains_key(d)
        &&& done.devices[d].is_stale
        &&& done.devices[d].stale_since == Some(next.created_at)
    } by {
        assert(user.devices.contains_key(d));
        assert(follows_roster(user, d));
    }
    if user.roster is Some && roster.created_at.0 < user.roster->Some_0.created_at.0 {
        assert(done.devices =~= user.devices) by {
            assert forall|d: DevicePubkey| #[trigger]
                user.devices.contains_key(d) implies done.devices[d] == user.devices[d] by {
                assert(follows_roster(user, d));
            }
        }
        assert(before.users.contains_key(owner));
        assert(after.users =~= before.users);
    }
}

pub proof fn lemma_invite(m: ManagerModel, owner: OwnerPubkey, invite: InviteModel)
    requires
        orderly(m),
    ensures
        orderly(with_new_invite(m, owner, invite)),
{
    let device = invite.inviter.device();
    let record = record_or_fresh(user_or_fresh(m, owner).devices, device, invite.created_at);
    lemma_with_record(m, owner, device, invite.created_at, invited(record, invite));
}

pub proof fn lemma_import(
    m: ManagerModel,
    owner: OwnerPubkey,
    device: DevicePubkey,
    session: SessionModel,
    now: UnixSeconds,
)
    requires
        orderly(m),
    ensures
        orderly(with_import(m, owner, device, session, now)),
{
    let record = record_or_fresh(user_or_fresh(m, owner).devices, device, now);
    lemma_with_record(
        m,
        owner,
        device,
        now,
        DeviceModel {
            sessions: upserted_shelf(record.sessions, session),
            last_activity: Some(now),
            ..record
        },
    );
}

pub proof fn lemma_response(
    before: ManagerModel,
    after: ManagerModel,
    now: UnixSeconds,
    sender: DevicePubkey,
    content: Seq<char>,
    r: Result<Option<ProcessedInviteResponse>, Error>,
)
    requires
        orderly(before),
        observes_response(before, after, now, sender, content, r),
    ensures
        orderly(after),
{
    if let Ok(Some(done)) = r {
        if before.local_invite is Some {
            let response = choose|response: InviteResponse| #[trigger]
                takes_response(before, after, now, sender, content, response, done);
            let m = ManagerModel { local_invite: after.local_invite, ..before };
            let owner = resolved_owner(response.invitee_identity, response.owner_public_key);
            let device = response.invitee_identity;
            lemma_with_record(m, owner, device, now, after.users[owner].devices[device]);
            assert(after == with_record(
                m,
                owner,
                device,
                after.users[owner].devices[device],
            ));
        }
    }
}

pub proof fn lemma_message(
    before: ManagerModel,
    after: ManagerModel,
    now: UnixSeconds,
    owner: OwnerPubkey,
    envelope: EnvelopeModel,
    r: Result<Option<ReceivedMessage>, Error>,
)
    requires
        finite(before),
        orderly(before),
        receives(before, after, now, owner, envelope, r),
    ensures
        orderly(after),
{
    if before.users.contains_key(owner) {
        if let Some(at) = listening_device(before.users[owner], envelope.sender) {
            if let Ok(Some(message)) = r {
                let state = choose|state: SessionState| #[trigger]
                    takes_message(before, after, now, owner, envelope, at, state, message);
                let record = before.users[owner].devices[at.0];
                lemma_listening(before.users[owner], envelope.sender);
                lemma_with_record(
                    before,
                    owner,
                    at.0,
                    now,
                    received_record(record, at.1, state@, now),
                );
            }
        }
    }
}

/// A device that listens to a sender is known.
proof fn lemma_listening(user: UserModel, sender: DevicePubkey)
    requires
        user.devices.dom().finite(),
    ensures
        listening_device(user, sender) matches Some(at) ==> user.devices.contains_key(at.0),
{
    let order = ordered::<DevicePubkey>(user.devices.dom());
    ordered_lists::<DevicePubkey>(user.devices.dom());
    lemma_first_listening(user.devices, order, sender);
    if let Some(at) = listening_device(user, sender) {
        assert(user.devices.dom().contains(at.0));
    }
}

proof fn lemma_first_listening(
    devices: Map<DevicePubkey, DeviceModel>,
    order: Seq<DevicePubkey>,
    sender: DevicePubkey,
)
    ensures
        first_listening(devices, order, sender) matches Some(at) ==> order.contains(at.0),
    decreases order.len(),
{
    if order.len() > 0 {
        let rest = order.drop_first();
        lemma_first_listening(devices, rest, sender);
        assert(order[0] == order.first());
        if let Some(at) = first_listening(devices, rest, sender) {
            let i = choose|i: int| 0 <= i < rest.len() && rest[i] == at.0;
            assert(order[i + 1] == at.0);
        }
    }
}

pub proof fn lemma_sending(
    before: ManagerModel,
    after: ManagerModel,
    now: UnixSeconds,
    recipient: OwnerPubkey,
    to: Audience,
    payload: Seq<u8>,
    r: Result<PreparedSend, Error>,
)
    requires
        orderly(before),
        prepares(before, after, now, recipient, to, payload, r),
    ensures
        orderly(after),
{
    if let Ok(prepared) = r {
        let outcomes = choose|outcomes: Seq<DeviceOutcome>| #[trigger]
            prepares_with(before, after, now, recipient, to, payload, outcomes, prepared);
        assert(fans_out(before, after, now, payload, to.devices, outcomes));
        assert(differs_in(before, after, to.devices));
        assert forall|o: OwnerPubkey| #[trigger] after.users.contains_key(o) implies orderly_user(
            after.users[o],
        ) by {
            assert(after.users.dom().contains(o));
            assert(before.users.contains_key(o));
            let user = before.users[o];
            let done = after.users[o];
            assert forall|d: DevicePubkey| #[trigger] done.devices.contains_key(d) implies follows_roster(
                done,
                d,
            ) by {
                assert(done.devices.dom().contains(d));
                assert(user.devices.contains_key(d));
                assert(follows_roster(user, d));
                if to.devices.contains((o, d)) {
                    let i = choose|i: int| 0 <= i < to.devices.len() && to.devices[i] == (o, d);
                    assert(outcome_fits(before, after, now, payload, to.devices, outcomes, i));
                    lemma_delivers(
                        sender_of(before),
                        record_of(before, (o, d)),
                        record_of(after, (o, d)),
                        now,
                        payload,
                        Ok(outcomes[i]),
                    );
                } else {
                    assert(record_of(after, (o, d)) == record_of(before, (o, d)));
                }
            }
            assert forall|d: DevicePubkey| #[trigger]
                previous_devices(done).contains(d) implies done.devices.contains_key(d) by {
                assert(previous_devices(user).contains(d));
                assert(user.devices.dom().contains(d));
            }
        }
    }
}

proof fn lemma_delivers(
    sender: SenderModel,
    before: DeviceModel,
    after: DeviceModel,
    now: UnixSeconds,
    payload: Seq<u8>,
    r: Result<DeviceOutcome, Error>,
)
    requires
        delivers(sender, before, after, now, payload, r),
    ensures
        as_rostered(before, after),
        after.created_at == before.created_at,
{
}

pub proof fn lemma_pruning(m: ManagerModel, now: UnixSeconds)
    requires
        orderly(m),
    ensures
        orderly(pruned(m, now)),
{
    let after = pruned(m, now);
    assert forall|o: OwnerPubkey| #[trigger] after.users.contains_key(o) implies orderly_user(
        after.users[o],
    ) by {
        let user = m.users[o];
        assert(m.users.contains_key(o));
        assert forall|d: DevicePubkey| #[trigger]
            after.users[o].devices.contains_key(d) implies follows_roster(after.users[o], d) by {
            assert(follows_roster(user, d));
        }
        assert forall|d: DevicePubkey| #[trigger]
            previous_devices(after.users[o]).contains(d) implies after.users[o].devices.contains_key(
            d,
        ) by {
            assert(previous_devices(user).contains(d));
            assert(follows_roster(user, d));
        }
    }
}

} // verus!
