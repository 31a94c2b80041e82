//! What lists of devices and rosters come to, when newer, older and equally old
//! ones follow each other.
use vstd::prelude::*;
use crate::app_keys::{listed, merged, merged_devices_are_earliest, AppKeysModel, DeviceEntry};
use crate::collections::{ordered, ordered_values};
use crate::ids::{DevicePubkey, OwnerPubkey, UnixSeconds};
use crate::invite::InviteModel;
use crate::roster::{
    device_times, next_roster, AuthorizedDevice, RosterModel, RosterSnapshotDecision,
};
use crate::runtime::inbox::{authorized, roster_of_keys, with_keys, with_roster};
use crate::runtime::outbox::CoreModel;
use crate::session_manager::{
    invited, pruned, takes_roster, user_or_fresh, with_invite, DeviceModel, ManagerModel,
};
use crate::state::{decided, with_own_devices, AppKeysSnapshotDecision, NdrModel};

verus! {

// ---------------------------------------------------------------------------
// Lists of devices
// ---------------------------------------------------------------------------

/// A list of devices has just the devices that it names; of one that it names
/// twice the last entry counts.
pub proof fn lists_have_what_they_name(list: Seq<DeviceEntry>)
    ensures
        forall|k: DevicePubkey| #[trigger]
            listed(list).contains_key(k) <==> exists|i: int|
                0 <= i < list.len() && (#[trigger] list[i]).identity_pubkey == k,
        forall|i: int|
            0 <= i < list.len() && (forall|j: int|
                i < j < list.len() ==> (#[trigger] list[j]).identity_pubkey
                    != list[i].identity_pubkey) ==> listed(
                list,
            )[(#[trigger] list[i]).identity_pubkey] == list[i],
    decreases list.len(),
{
    if list.len() > 0 {
        let fewer = list.drop_last();
        lists_have_what_they_name(fewer);
        let n = list.len() - 1;
        assert forall|k: DevicePubkey| #[trigger] listed(list).contains_key(k) <==> exists|i: int|
            0 <= i < list.len() && (#[trigger] list[i]).identity_pubkey == k by {
            if listed(fewer).contains_key(k) {
                let i = choose|i: int|
                    0 <= i < fewer.len() && (#[trigger] fewer[i]).identity_pubkey == k;
                assert(list[i].identity_pubkey == k);
            }
            if k == list.last().identity_pubkey {
                assert(list[n].identity_pubkey == k);
            }
            if exists|i: int| 0 <= i < list.len() && (#[trigger] list[i]).identity_pubkey == k {
                let i = choose|i: int|
                    0 <= i < list.len() && (#[trigger] list[i]).identity_pubkey == k;
                if i < n {
                    assert(fewer[i].identity_pubkey == k);
                    assert(listed(fewer).contains_key(k));
                }
            }
        }
        assert forall|i: int|
            0 <= i < list.len() && (forall|j: int|
                i < j < list.len() ==> (#[trigger] list[j]).identity_pubkey
                    != list[i].identity_pubkey) implies listed(
            list,
        )[(#[trigger] list[i]).identity_pubkey] == list[i] by {
            if i < n {
                assert(list[n].identity_pubkey != list[i].identity_pubkey);
                assert forall|j: int| i < j < fewer.len() implies (
                #[trigger] fewer[j]).identity_pubkey != fewer[i].identity_pubkey by {
                    assert(fewer[j] == list[j]);
                }
                assert(fewer[i] == list[i]);
            }
        }
    }
}

/// Two lists put together have the devices of both, each since the earlier of
/// its times, and the labels of both for devices that are there, of two the
/// newer ones and the first ones of two that are equally old.
pub proof fn merged_lists_have_both(a: AppKeysModel, b: AppKeysModel, k: DevicePubkey)
    requires
        a.devices.dom().finite(),
        b.devices.dom().finite(),
        a.keyed(),
        b.keyed(),
    ensures
        ({
            let m = merged(a, b);
            &&& m.devices.contains_key(k) <==> a.devices.contains_key(k) || b.devices.contains_key(
                k,
            )
            &&& m.devices.contains_key(k) ==> m.devices[k].identity_pubkey == k
            &&& a.devices.contains_key(k) ==> m.devices[k].created_at.0
                <= a.devices[k].created_at.0
            &&& b.devices.contains_key(k) ==> m.devices[k].created_at.0
                <= b.devices[k].created_at.0
            &&& m.devices.contains_key(k) ==> (a.devices.contains_key(k) && m.devices[k]
                == a.devices[k]) || (b.devices.contains_key(k) && m.devices[k] == b.devices[k])
            &&& m.labels.contains_key(k) <==> (a.labels.contains_key(k) || b.labels.contains_key(
                k,
            )) && m.devices.contains_key(k)
            &&& m.labels.contains_key(k) ==> (a.labels.contains_key(k) && m.labels[k]
                == a.labels[k]) || (b.labels.contains_key(k) && m.labels[k] == b.labels[k])
            &&& m.labels.contains_key(k) && a.labels.contains_key(k) && (!b.labels.contains_key(k)
                || b.labels[k].updated_at.0 <= a.labels[k].updated_at.0) ==> m.labels[k]
                == a.labels[k]
            &&& m.labels.contains_key(k) && b.labels.contains_key(k) && (!a.labels.contains_key(k)
                || a.labels[k].updated_at.0 < b.labels[k].updated_at.0) ==> m.labels[k]
                == b.labels[k]
        }),
{
    merged_devices_are_earliest(a.devices, b.devices);
    let devices = crate::app_keys::merged_devices(a.devices, b.devices);
    assert(merged(a, b).devices == devices);
    assert(devices.contains_key(k) <==> a.devices.contains_key(k) || b.devices.contains_key(k));
    if devices.contains_key(k) {
        assert(devices[k] == crate::app_keys::earliest(a.devices, b.devices, k));
    }
    assert(merged(a, b).labels.contains_key(k) <==> (a.labels.contains_key(k)
        || b.labels.contains_key(k)) && devices.contains_key(k));
    if merged(a, b).labels.contains_key(k) {
        assert(merged(a, b).labels[k] == crate::app_keys::newer_labels(a.labels, b.labels, k));
    }
}

/// A list of devices that is older than the one that is kept leaves the kept
/// devices, labels and time as they are. One that is newer takes their place
/// with just its devices, its labels and its time, and so does the first one.
/// One of the same time is put together with the kept one.
pub proof fn newer_device_lists_count(
    current: Option<AppKeysModel>,
    current_at: UnixSeconds,
    incoming: AppKeysModel,
    incoming_at: UnixSeconds,
)
    ensures
        ({
            let (decision, keys, at) = decided(current, current_at, incoming, incoming_at);
            &&& current is None || incoming_at.0 > current_at.0 ==> {
                &&& decision == AppKeysSnapshotDecision::Advanced
                &&& keys.devices == incoming.devices
                &&& keys.labels == incoming.labels
                &&& at == incoming_at
            }
            &&& current is Some && incoming_at.0 < current_at.0 ==> {
                &&& decision == AppKeysSnapshotDecision::Stale
                &&& keys.devices == current->Some_0.devices
                &&& keys.labels == current->Some_0.labels
                &&& at == current_at
            }
            &&& current is Some && incoming_at.0 == current_at.0 ==> {
                &&& decision == AppKeysSnapshotDecision::MergedEqualTimestamp
                &&& keys == merged(current->Some_0, incoming)
                &&& at == current_at
            }
        }),
{
}

/// Whichever of two lists of different times comes first, the newer one is kept
/// in the end.
pub proof fn the_newer_of_two_lists_is_kept(
    m: NdrModel,
    older: AppKeysModel,
    older_at: UnixSeconds,
    newer: AppKeysModel,
    newer_at: UnixSeconds,
)
    requires
        older_at.0 < newer_at.0,
        m.app_keys is None || m.app_keys_created_at.0 < newer_at.0,
    ensures
        ({
            let one = with_own_devices(with_own_devices(m, older, older_at), newer, newer_at);
            let two = with_own_devices(with_own_devices(m, newer, newer_at), older, older_at);
            &&& one.app_keys == Some(newer) && one.app_keys_created_at == newer_at
            &&& two.app_keys == Some(newer) && two.app_keys_created_at == newer_at
            &&& one.owner == m.owner && one.device == m.device && one.peers == m.peers
            &&& two.owner == m.owner && two.device == m.device && two.peers == m.peers
        }),
{
}

// ---------------------------------------------------------------------------
// Rosters
// ---------------------------------------------------------------------------

/// A roster has just the devices that it was made of, each since the earliest
/// of its times.
pub proof fn rosters_have_what_they_are_made_of(list: Seq<AuthorizedDevice>)
    ensures
        forall|k: DevicePubkey| #[trigger]
            device_times(list).contains_key(k) <==> exists|i: int|
                0 <= i < list.len() && (#[trigger] list[i]).device_pubkey == k,
        forall|i: int|
            0 <= i < list.len() ==> device_times(list)[(#[trigger] list[i]).device_pubkey].0
                <= list[i].created_at.0,
        forall|k: DevicePubkey| #[trigger]
            device_times(list).contains_key(k) ==> exists|i: int|
                0 <= i < list.len() && (#[trigger] list[i]).device_pubkey == k
                    && list[i].created_at == device_times(list)[k],
    decreases list.len(),
{
    if list.len() > 0 {
        let fewer = list.drop_last();
        let n = list.len() - 1;
        let last = list.last();
        rosters_have_what_they_are_made_of(fewer);
        assert(list[n] == last);
        assert forall|k: DevicePubkey| #[trigger] device_times(list).contains_key(k) implies exists|
            i: int,
        |
            0 <= i < list.len() && (#[trigger] list[i]).device_pubkey == k && list[i].created_at
                == device_times(list)[k] by {
            if device_times(fewer).contains_key(k) && device_times(list)[k] == device_times(
                fewer,
            )[k] {
                let i = choose|i: int|
                    0 <= i < fewer.len() && (#[trigger] fewer[i]).device_pubkey == k
                        && fewer[i].created_at == device_times(fewer)[k];
                assert(list[i] == fewer[i]);
            } else {
                assert(list[n].device_pubkey == k);
            }
        }
        assert forall|k: DevicePubkey|
            (exists|i: int| 0 <= i < list.len() && (#[trigger] list[i]).device_pubkey == k)
                implies #[trigger] device_times(list).contains_key(k) by {
            let i = choose|i: int| 0 <= i < list.len() && (#[trigger] list[i]).device_pubkey == k;
            if i < n {
                assert(fewer[i].device_pubkey == k);
                assert(device_times(fewer).contains_key(k));
            }
        }
        assert forall|i: int| 0 <= i < list.len() implies device_times(
            list,
        )[(#[trigger] list[i]).device_pubkey].0 <= list[i].created_at.0 by {
            if i < n {
                assert(fewer[i] == list[i]);
                assert(device_times(fewer).contains_key(fewer[i].device_pubkey));
            }
        }
    }
}

/// A roster that is older than the one that is kept leaves it as it is, one
/// that is newer takes its place with just its devices, and so does the first
/// one. Two of the same time are put together: the devices of both, each since
/// the earlier of its times.
pub proof fn newer_rosters_count(current: Option<RosterModel>, incoming: RosterModel)
    ensures
        ({
            let (decision, next) = next_roster(current, incoming);
            &&& current is None || incoming.created_at.0 > current->Some_0.created_at.0 ==> {
                &&& decision == RosterSnapshotDecision::Advanced
                &&& next.created_at == incoming.created_at
                &&& next.devices == incoming.devices
            }
            &&& current is Some && incoming.created_at.0 < current->Some_0.created_at.0 ==> {
                &&& decision == RosterSnapshotDecision::Stale
                &&& next.created_at == current->Some_0.created_at
                &&& next.devices == current->Some_0.devices
            }
            &&& current is Some && incoming.created_at.0 == current->Some_0.created_at.0 ==> {
                &&& decision == RosterSnapshotDecision::MergedEqualTimestamp
                &&& next.created_at.0 == incoming.created_at.0
                &&& forall|k: DevicePubkey| #[trigger]
                    next.devices.contains_key(k) <==> current->Some_0.devices.contains_key(k)
                        || incoming.devices.contains_key(k)
                &&& forall|k: DevicePubkey| #[trigger]
                    current->Some_0.devices.contains_key(k) ==> next.devices[k].0
                        <= current->Some_0.devices[k].0
                &&& forall|k: DevicePubkey| #[trigger]
                    incoming.devices.contains_key(k) ==> next.devices[k].0
                        <= incoming.devices[k].0
                &&& forall|k: DevicePubkey| #[trigger]
                    next.devices.contains_key(k) ==> (current->Some_0.devices.contains_key(k)
                        && next.devices[k] == current->Some_0.devices[k]) || (
                    incoming.devices.contains_key(k) && next.devices[k] == incoming.devices[k])
            }
        }),
{
}

/// Whether all but what a roster decides of a device is as before.
pub open spec fn keeps_the_rest(before: DeviceModel, after: DeviceModel) -> bool {
    &&& after.device_id == before.device_id
    &&& after.public_invite == before.public_invite
    &&& after.sessions == before.sessions
    &&& after.last_activity == before.last_activity
}

/// When a roster of an owner was taken in, the devices on the kept roster are
/// authorized and not stale, and those that were on the last one and are not on
/// it are neither authorized nor in use; they are stale since the time of the
/// roster, or since they were stale. No session, invite or name of a device is
/// touched, no other device and no other owner.
pub proof fn rosters_touch_nothing_else(
    before: ManagerModel,
    after: ManagerModel,
    owner: OwnerPubkey,
    roster: RosterModel,
    decision: RosterSnapshotDecision,
    d: DevicePubkey,
)
    requires
        takes_roster(before, after, owner, roster, decision),
    ensures
        after.owner == before.owner,
        after.device == before.device,
        after.secret == before.secret,
        after.device_id == before.device_id,
        after.local_invite == before.local_invite,
        after.users.dom() == before.users.dom().insert(owner),
        forall|other: OwnerPubkey|
            other != owner && before.users.contains_key(other) ==> #[trigger] after.users[other]
                == before.users[other],
        ({
            let known = user_or_fresh(before, owner);
            let next = after.users[owner].roster->Some_0;
            let now = after.users[owner].devices;
            &&& after.users[owner].roster is Some
            &&& next.devices.contains_key(d) ==> now.contains_key(d) && now[d].authorized
                && !now[d].is_stale && now[d].stale_since is None
            &&& known.devices.contains_key(d) ==> now.contains_key(d) && keeps_the_rest(
                known.devices[d],
                now[d],
            )
            &&& known.roster is Some && known.roster->Some_0.devices.contains_key(d)
                && !next.devices.contains_key(d) ==> now.contains_key(d) && !now[d].authorized
                && now[d].is_stale && now[d].stale_since is Some && (
            known.devices.contains_key(d) && known.devices[d].stale_since is None
                ==> now[d].stale_since == Some(next.created_at)) && (known.devices.contains_key(d)
                && known.devices[d].stale_since is Some ==> now[d].stale_since
                == known.devices[d].stale_since)
            &&& !next.devices.contains_key(d) && !(known.roster is Some
                && known.roster->Some_0.devices.contains_key(d)) ==> now.contains_key(d)
                == known.devices.contains_key(d) && (known.devices.contains_key(d) ==> now[d]
                == known.devices[d])
        }),
{
    assert(after.users.dom() =~= before.users.dom().insert(owner));
}

// ---------------------------------------------------------------------------
// Device lists that the runtime hears of
// ---------------------------------------------------------------------------

/// The roster that a device list is has just its devices, each since its time,
/// and the time of the list.
pub proof fn lists_are_rosters(keys: AppKeysModel, created_at: u64)
    requires
        keys.devices.dom().finite(),
        keys.keyed(),
    ensures
        roster_of_keys(keys, created_at).created_at.0 == created_at,
        forall|k: DevicePubkey| #[trigger]
            roster_of_keys(keys, created_at).devices.contains_key(k)
                <==> keys.devices.contains_key(k),
        forall|k: DevicePubkey| #[trigger]
            keys.devices.contains_key(k) ==> roster_of_keys(keys, created_at).devices[k]
                == keys.devices[k].created_at,
{
    let entries = ordered_values::<DevicePubkey, DeviceEntry>(keys.devices);
    let list = authorized(entries);
    let order = ordered::<DevicePubkey>(keys.devices.dom());
    let times = device_times(list);
    crate::collections::ordered_lists::<DevicePubkey>(keys.devices.dom());
    rosters_have_what_they_are_made_of(list);
    assert forall|i: int| 0 <= i < list.len() implies (#[trigger] list[i]).device_pubkey == order[i]
        && keys.devices.contains_key(order[i]) && list[i].created_at
        == keys.devices[order[i]].created_at by {
        assert(order.contains(order[i]));
        assert(keys.devices.dom().contains(order[i]));
        assert(keys.devices.contains_key(order[i]));
    }
    assert forall|k: DevicePubkey| #[trigger] times.contains_key(k) <==> keys.devices.contains_key(
        k,
    ) by {
        if times.contains_key(k) {
            let i = choose|i: int| 0 <= i < list.len() && (#[trigger] list[i]).device_pubkey == k;
            assert(keys.devices.contains_key(order[i]));
        }
        if keys.devices.contains_key(k) {
            assert(keys.devices.dom().contains(k));
            assert(order.contains(k));
            let i = choose|i: int| 0 <= i < order.len() && order[i] == k;
            assert(list[i].device_pubkey == k);
        }
    }
    assert forall|k: DevicePubkey| #[trigger] keys.devices.contains_key(k) implies times[k]
        == keys.devices[k].created_at by {
        assert(times.contains_key(k));
        let i = choose|i: int|
            0 <= i < list.len() && (#[trigger] list[i]).device_pubkey == k && list[i].created_at
                == times[k];
        assert(list[i].device_pubkey == order[i]);
    }
}

/// A device list of another owner that is newer than what is known of it makes
/// just its devices those that act for the owner; an older one changes nothing
/// of it. Nothing is changed of any other owner.
pub proof fn newer_device_lists_decide_who_acts(
    c: CoreModel,
    owner: OwnerPubkey,
    keys: AppKeysModel,
    created_at: u64,
    d: DevicePubkey,
)
    requires
        owner != c.owner,
        keys.devices.dom().finite(),
        keys.keyed(),
    ensures
        ({
            let after = with_keys(c, owner, keys, created_at);
            let known = user_or_fresh(c.state.core, owner).roster;
            let roster = after.state.core.users[owner].roster;
            &&& after.state.core.users.contains_key(owner)
            &&& roster is Some
            &&& known is None || known->Some_0.created_at.0 < created_at ==> {
                &&& roster->Some_0.created_at.0 == created_at
                &&& roster->Some_0.devices.contains_key(d) <==> keys.devices.contains_key(d)
                &&& keys.devices.contains_key(d)
                    ==> after.state.core.users[owner].devices.contains_key(d)
                    && after.state.core.users[owner].devices[d].authorized
                    && !after.state.core.users[owner].devices[d].is_stale
            }
            &&& known is Some && known->Some_0.created_at.0 > created_at ==> roster == known
            &&& forall|other: OwnerPubkey|
                other != owner && c.state.core.users.contains_key(other)
                    ==> #[trigger] after.state.core.users[other] == c.state.core.users[other]
            &&& after.state.outbound == c.state.outbound
            &&& after.state.inbound == c.state.inbound
            &&& after.state.publishes == c.state.publishes
            &&& after.state.deliveries == c.state.deliveries
            &&& after.state.groups == c.state.groups
            &&& after.state.fanouts == c.state.fanouts
        }),
{
    lists_are_rosters(keys, created_at);
}

/// A list of the own devices replaces the roster that this device made up for
/// itself, though it is older, if it names this device and another; otherwise
/// it counts as any other list does.
pub proof fn own_lists_replace_a_made_up_roster(
    m: ManagerModel,
    own: OwnerPubkey,
    device: DevicePubkey,
    roster: RosterModel,
)
    requires
        m.owner == own,
    ensures
        ({
            let after = with_roster(m, own, device, own, roster);
            let known = user_or_fresh(m, own).roster;
            let kept = after.users[own].roster->Some_0;
            &&& after.users.contains_key(own) && after.users[own].roster is Some
            &&& known is None || known->Some_0.created_at.0 < roster.created_at.0 ==> kept == roster
            &&& known is Some && known->Some_0.created_at.0 > roster.created_at.0 ==> kept == (if (
            known->Some_0.devices.dom() == set![device] && roster.devices.contains_key(device)
                && roster.devices.dom().len() > 1) {
                roster
            } else {
                known->Some_0
            })
        }),
{
}

// ---------------------------------------------------------------------------
// Invites of devices
// ---------------------------------------------------------------------------

/// Of two invites of a device the newer one is kept, and of two that are
/// equally old the later; its ephemeral secret is not. Sessions and what the
/// roster says of the device stay as they are.
pub proof fn newer_invites_count(record: DeviceModel, invite: InviteModel)
    ensures
        ({
            let after = invited(record, invite);
            &&& record.public_invite is None || record.public_invite->Some_0.created_at.0
                <= invite.created_at.0 ==> after.public_invite is Some && {
                let kept = after.public_invite->Some_0;
                &&& kept.ephemeral_key == invite.ephemeral_key
                &&& kept.shared_secret == invite.shared_secret
                &&& kept.inviter == invite.inviter
                &&& kept.created_at == invite.created_at
                &&& kept.device_id == invite.device_id
                &&& kept.owner == invite.owner
                &&& kept.ephemeral_secret is None
            }
            &&& record.public_invite is Some && record.public_invite->Some_0.created_at.0
                > invite.created_at.0 ==> after.public_invite == record.public_invite
            &&& after.sessions == record.sessions
            &&& after.authorized == record.authorized
            &&& after.is_stale == record.is_stale
            &&& after.stale_since == record.stale_since
            &&& after.last_activity == record.last_activity
        }),
{
}

/// An invite of a device of which nothing is known changes nothing if a newer
/// roster does not name the device; any other is kept with its device.
pub proof fn invites_stand_with_their_device(
    m: ManagerModel,
    owner: OwnerPubkey,
    invite: InviteModel,
)
    ensures
        ({
            let device = invite.inviter.device();
            let user = user_or_fresh(m, owner);
            let after = with_invite(m, owner, invite);
            let late = !user.devices.contains_key(device) && user.roster is Some
                && !user.roster->Some_0.devices.contains_key(device) && invite.created_at.0
                < user.roster->Some_0.created_at.0;
            &&& late ==> after == m
            &&& !late ==> {
                &&& after.users.contains_key(owner)
                &&& after.users[owner].roster == user.roster
                &&& after.users[owner].devices.contains_key(device)
                &&& after.users[owner].devices[device].public_invite is Some
                &&& after.users[owner].devices[device].public_invite->Some_0.created_at.0
                    >= invite.created_at.0
                &&& forall|d: DevicePubkey|
                    d != device ==> after.users[owner].devices.contains_key(d)
                        == user.devices.contains_key(d)
                        && #[trigger] after.users[owner].devices[d] == user.devices[d]
                &&& forall|o: OwnerPubkey|
                    o != owner ==> after.users.contains_key(o) == m.users.contains_key(o)
                        && #[trigger] after.users[o] == m.users[o]
            }
        }),
{
}

// ---------------------------------------------------------------------------
// Forgetting
// ---------------------------------------------------------------------------

/// Only devices are forgotten that have been stale for more than a week, and
/// all of them are; what is known of the others stays. Only owners without a
/// roster and without a device left are forgotten.
pub proof fn only_the_long_stale_are_forgotten(
    m: ManagerModel,
    now: UnixSeconds,
    owner: OwnerPubkey,
    d: DevicePubkey,
)
    requires
        m.users.contains_key(owner),
    ensures
        ({
            let after = pruned(m, now);
            let user = m.users[owner];
            let long_stale = user.devices[d].is_stale && user.devices[d].stale_since is Some
                && user.devices[d].stale_since->Some_0.0 + 604800 < now.0;
            &&& user.devices.contains_key(d) && !long_stale ==> after.users.contains_key(owner)
                && after.users[owner].devices.contains_key(d) && after.users[owner].devices[d]
                == user.devices[d]
            &&& user.devices.contains_key(d) && long_stale && after.users.contains_key(owner)
                ==> !after.users[owner].devices.contains_key(d)
            &&& user.roster is Some ==> after.users.contains_key(owner)
            &&& after.users.contains_key(owner) ==> after.users[owner].roster == user.roster
            &&& after.local_invite == m.local_invite
            &&& after.owner == m.owner && after.device == m.device && after.secret == m.secret
        }),
{
    let kept = crate::session_manager::pruned_user(m.users[owner], now);
    if m.users[owner].devices.contains_key(d) && crate::session_manager::remembered(
        m.users[owner].devices[d],
        now,
    ) {
        assert(kept.devices.contains_key(d));
    }
}

} // verus!
