//! How the runtime starts, whom it gets to know, and what becomes of groups
//! that it makes and changes.
use vstd::prelude::*;
use super::effects::{persist, EffectModel, RuntimePublishResult};
use super::group_ops::{
    carries_out, changes_owners, made_as, makes_group, renames, told_of_change, told_of_group,
    writes_to_group,
};
use super::groups::{
    outer, tells, RuntimeGroupCreateResult, RuntimeGroupSnapshotResult, SenderKeyOutcomeModel,
};
use super::inbox::{hears_response, outdated, with_processed};
use super::letters::message_tags;
use super::outbox::{CoreModel, Moment};
use super::store::{loaded_state, SenderKeyModel, StateModel, StoredModel};
use super::subscriptions::{has_owner, protocol_devices, protocol_filters, protocol_owners};
use super::{begins, exported, first_with, import_device, started, RuntimeModel};
use crate::collections::ordered;
use crate::crypto::public_key_parsed;
use crate::encoding::hex_text;
use crate::error::Error;
use crate::group::{GroupCreateResult, GroupPreparedSend};
use crate::group_manager::properties::{
    changed_groups_have_the_owners, is_shown_by, messages_go_to_every_other_member,
    new_groups_are_as_they_were_asked_for, plans_are_carried_out_in_full,
    renamed_groups_have_the_name, snapshots_show_the_group,
};
use crate::group_manager::{all_well_formed, change_plan, message_plan, new_group, rename_plan};
use crate::group_wire::OwnersChange;
use crate::ids::{device_key_of, DevicePubkey, OwnerPubkey, UnixSeconds};
use crate::invite::{InviteModel, InviteResponse};
use crate::keeping::is_among;
use crate::session::SessionModel;
use crate::session_manager::queries::HeldModel;
use crate::session_manager::{
    fresh_invite, invite_owner, record_or_fresh, sender_of, user_or_fresh, with_import,
    with_response, ManagerModel,
};

verus! {

// ---------------------------------------------------------------------------
// Starting
// ---------------------------------------------------------------------------

/// A runtime that starts with what the same device stored has all of it; one
/// that starts without, or with what another device stored, knows nobody and
/// has nothing that waits. It is the device and the owner that it is told to
/// be, and listens to nobody yet. An invite that it is given is the own one.
pub proof fn runtimes_start_with_what_was_stored(
    key: DevicePubkey,
    secret: [u8; 32],
    device_id: Seq<char>,
    owner: OwnerPubkey,
    stored: Option<StoredModel>,
    invite: Option<InviteModel>,
)
    ensures
        ({
            let m = started(key, secret, device_id, owner, stored, invite);
            let same = stored matches Some(s) && device_key_of(secret) == Some(s.core.device);
            &&& m.secret == secret && m.device_id == device_id
            &&& m.core.owner == owner && m.core.device == key && m.core.authors is None
            &&& same && invite is None ==> m.core.state == loaded_state(
                stored->Some_0,
                owner,
                secret,
            )
            &&& same ==> {
                let s = stored->Some_0;
                &&& m.core.state.outbound == s.outbound
                &&& m.core.state.inbound == s.inbound
                &&& m.core.state.deliveries == s.deliveries
                &&& m.core.state.publishes == s.publishes
                &&& m.core.state.fanouts == s.fanouts
                &&& m.core.state.payloads == s.payloads
                &&& m.core.state.sender_keys == s.sender_keys
            }
            &&& !same ==> {
                &&& m.core.state.core.owner == owner
                &&& m.core.state.core.secret == secret
                &&& m.core.state.core.device_id == Some(device_id)
                &&& m.core.state.core.users == Map::<
                    OwnerPubkey,
                    crate::session_manager::UserModel,
                >::empty()
                &&& m.core.state.outbound.len() == 0
                &&& m.core.state.inbound.len() == 0
                &&& m.core.state.deliveries.len() == 0
                &&& m.core.state.publishes.len() == 0
                &&& m.core.state.fanouts.len() == 0
            }
            &&& invite is Some ==> m.core.state.core.local_invite == invite
            &&& !same && invite is None ==> m.core.state.core.local_invite is None
        }),
{
}

/// Once the runtime has begun it has an invite of its own, which is the one
/// that it had if it had one, and a roster of its own owner. Where it knew of
/// none, the roster names just this device. The invite is announced, and the
/// state stored, before what waits is asked for again; all of that is asked
/// for.
pub proof fn beginning_announces_the_invite(
    before: RuntimeModel,
    after: CoreModel,
    at: Moment,
    core: ManagerModel,
    invite: InviteModel,
    effects: Seq<EffectModel>,
)
    requires
        begins(before, after, at, core, Ok(invite), Ok::<Seq<EffectModel>, Error>(effects)),
        before.core.owner == before.core.state.core.owner,
        before.core.device == before.core.state.core.device,
    ensures
        after.state.core.local_invite == Some(invite),
        before.core.state.core.local_invite matches Some(known) ==> invite == known,
        after.state.core.users.contains_key(before.core.owner),
        !(before.core.state.core.users.contains_key(before.core.owner)
            && before.core.state.core.users[before.core.owner].roster is Some) ==> (
        after.state.core.users[before.core.owner].roster matches Some(roster)
            && roster.devices.contains_key(before.core.device) && roster.created_at
            == invite.created_at && forall|d: DevicePubkey| #[trigger]
            roster.devices.contains_key(d) ==> d == before.core.device),
        after.state.outbound == before.core.state.outbound,
        after.state.inbound == before.core.state.inbound,
        after.state.deliveries == before.core.state.deliveries,
        after.state.publishes == before.core.state.publishes,
        after.state.groups == before.core.state.groups,
        effects.len() >= 2,
        effects[0] matches EffectModel::PublishSigned(event) && event.body.pubkey
            == invite.inviter.device() && event.body.kind == 30078,
        effects[1] == persist(after.state),
        forall|i: int|
            0 <= i < before.core.state.deliveries.len() ==> effects.contains(
                super::effects::emit(#[trigger] before.core.state.deliveries[i]),
            ),
        forall|i: int|
            0 <= i < before.core.state.publishes.len() ==> effects.contains(
                super::effects::publish(#[trigger] before.core.state.publishes[i]),
            ),
{
    let own = before.core.owner;
    let device = before.core.device;
    let since = invite.created_at;
    let list = seq![
        crate::roster::AuthorizedDevice { device_pubkey: device, created_at: since },
    ];
    crate::device_properties::rosters_have_what_they_are_made_of(list);
    let devices = crate::roster::device_times(list);
    assert(list[0].device_pubkey == device);
    assert(devices.contains_key(device));
    assert forall|d: DevicePubkey| #[trigger] devices.contains_key(d) implies d == device by {
        let i = choose|i: int| 0 <= i < list.len() && (#[trigger] list[i]).device_pubkey == d;
    }
    let n = before.core.state.deliveries.len() as int;
    let event = effects[0]->PublishSigned_0;
    let all = super::replays(after.state);
    assert forall|i: int| 0 <= i < all.len() implies #[trigger] effects[i + 2] == all[i] by {}
    assert forall|i: int| 0 <= i < n implies effects.contains(
        super::effects::emit(#[trigger] before.core.state.deliveries[i]),
    ) by {
        assert(effects[i + 2] == all[i]);
    }
    assert forall|i: int| 0 <= i < before.core.state.publishes.len() implies effects.contains(
        super::effects::publish(#[trigger] before.core.state.publishes[i]),
    ) by {
        assert(effects[n + i + 2] == all[n + i]);
    }
}

/// A new invite of a device is by that device and names its device and, if it
/// is another's, its owner. It can be used as often as one likes and has not
/// been used.
pub proof fn new_invites_are_the_devices_own(m: ManagerModel, now: UnixSeconds, invite: InviteModel)
    requires
        fresh_invite(m, now, invite),
    ensures
        invite.inviter == m.device.owner(),
        invite.device_id == m.device_id,
        invite.max_uses is None,
        invite.used_by.len() == 0,
        invite.created_at == now,
        invite.ephemeral_secret is Some,
        device_key_of(invite.ephemeral_secret->Some_0) == Some(invite.ephemeral_key),
        m.owner == m.device.owner() ==> invite.owner is None,
        m.owner != m.device.owner() ==> invite.owner == Some(m.owner),
        m.owner != m.device.owner() ==> invite_owner(invite) == m.owner,
        m.owner == m.device.owner() ==> invite_owner(invite) == invite.inviter,
        sender_of(m).device == m.device,
        sender_of(m).secret == m.secret,
        sender_of(m).device_id == m.device_id,
        sender_of(m).owner == invite.owner,
{
}

// ---------------------------------------------------------------------------
// Getting to know others
// ---------------------------------------------------------------------------

/// A device list is outdated if one of the same owner that is newer came
/// before, and only then.
pub proof fn lists_are_outdated_by_newer_ones(m: StateModel, owner: OwnerPubkey, created_at: u64)
    ensures
        outdated(m, owner, created_at) <==> m.latest.contains_key(owner) && m.latest[owner]
            > created_at,
{
}

/// A response is taken in once: one that was taken in is remembered, and
/// changes nothing when it comes again.
pub proof fn responses_are_taken_in_once(
    before: CoreModel,
    after: CoreModel,
    at: Moment,
    event: crate::event::SignedBody,
    r: Result<Seq<EffectModel>, Error>,
    core: ManagerModel,
)
    requires
        hears_response(before, after, at, event, r),
    ensures
        before.state.processed.contains(event.id) ==> after == before && r == Ok::<
            Seq<EffectModel>,
            Error,
        >(Seq::empty()),
        with_processed(before, core, event.id).state.processed.contains(event.id),
        with_processed(before, core, event.id).state.core == core,
        forall|id: Seq<char>| #[trigger]
            before.state.processed.contains(id) ==> with_processed(
                before,
                core,
                event.id,
            ).state.processed.contains(id),
        with_processed(before, core, event.id).state.outbound == before.state.outbound,
        with_processed(before, core, event.id).state.inbound == before.state.inbound,
        with_processed(before, core, event.id).state.deliveries == before.state.deliveries,
{
}

/// The session that a response starts is kept with the device that sent it,
/// under the owner that it names or itself. No other device and no other owner
/// is touched.
pub proof fn responders_are_known(
    m: ManagerModel,
    now: UnixSeconds,
    invite: InviteModel,
    response: InviteResponse,
)
    ensures
        ({
            let owner = match response.owner_public_key {
                Some(owner) => owner,
                None => response.invitee_identity.owner(),
            };
            let d = response.invitee_identity;
            let known = user_or_fresh(m, owner);
            let after = with_response(m, now, invite, response);
            let record = after.users[owner].devices[d];
            &&& after.local_invite == Some(invite)
            &&& after.users.contains_key(owner)
            &&& after.users[owner].roster == known.roster
            &&& after.users[owner].devices.contains_key(d)
            &&& !known.devices.contains_key(d) ==> record.sessions.active == Some(
                response.session@,
            )
            &&& known.devices.contains_key(d) && known.devices[d].sessions.inactive.len() < 10
                ==> is_among(record.sessions.active, record.sessions.inactive, response.session@)
            &&& known.devices.contains_key(d) ==> record.authorized == known.devices[d].authorized
                && record.is_stale == known.devices[d].is_stale && record.public_invite
                == known.devices[d].public_invite
            &&& record.last_activity == Some(now)
            &&& forall|other: DevicePubkey|
                other != d ==> after.users[owner].devices.contains_key(other)
                    == known.devices.contains_key(other)
                    && #[trigger] after.users[owner].devices[other] == known.devices[other]
            &&& forall|other: OwnerPubkey|
                other != owner ==> after.users.contains_key(other) == m.users.contains_key(other)
                    && #[trigger] after.users[other] == m.users[other]
        }),
{
    let owner = crate::invite::resolved_owner(response.invitee_identity, response.owner_public_key);
    let record = record_or_fresh(user_or_fresh(m, owner).devices, response.invitee_identity, now);
    crate::keeping::new_sessions_are_kept(record.sessions, response.session@);
}

/// A session that comes from elsewhere is kept with the device and the owner
/// that it is with, and no other device and no other owner is touched.
pub proof fn imported_sessions_are_kept(
    m: ManagerModel,
    owner: OwnerPubkey,
    d: DevicePubkey,
    session: SessionModel,
    now: UnixSeconds,
)
    ensures
        ({
            let known = user_or_fresh(m, owner);
            let after = with_import(m, owner, d, session, now);
            let record = after.users[owner].devices[d];
            &&& after.users.contains_key(owner)
            &&& after.users[owner].roster == known.roster
            &&& after.users[owner].devices.contains_key(d)
            &&& !known.devices.contains_key(d) ==> record.sessions.active == Some(session)
            &&& known.devices.contains_key(d) && known.devices[d].sessions.inactive.len() < 10
                ==> is_among(record.sessions.active, record.sessions.inactive, session)
            &&& forall|other: DevicePubkey|
                other != d ==> after.users[owner].devices.contains_key(other)
                    == known.devices.contains_key(other)
                    && #[trigger] after.users[owner].devices[other] == known.devices[other]
            &&& forall|other: OwnerPubkey|
                other != owner ==> after.users.contains_key(other) == m.users.contains_key(other)
                    && #[trigger] after.users[other] == m.users[other]
            &&& after.local_invite == m.local_invite
        }),
{
    let record = record_or_fresh(user_or_fresh(m, owner).devices, d, now);
    crate::keeping::new_sessions_are_kept(record.sessions, session);
}

/// What is exported of sessions is each of them, with its owner, its device's
/// key in digits and its state; and the device is found again by those digits
/// where they are read as a key.
pub proof fn exported_sessions_are_all_there(
    held: Seq<HeldModel>,
    i: int,
    peer: OwnerPubkey,
    text: Seq<char>,
)
    requires
        0 <= i < held.len(),
    ensures
        exported(held).len() == held.len(),
        exported(held)[i].0 == held[i].owner,
        exported(held)[i].1 == hex_text(held[i].device.0@),
        exported(held)[i].2 == held[i].state,
        public_key_parsed(text) matches Some(key) ==> import_device(peer, Some(text))
            == DevicePubkey(key),
        public_key_parsed(text) is None ==> import_device(peer, Some(text)) == peer.device(),
        import_device(peer, None) == peer.device(),
{
}

/// The session that is found for an owner is one with that owner, as long as
/// there is one.
pub proof fn sessions_are_found_by_owner(held: Seq<HeldModel>, owner: OwnerPubkey)
    ensures
        first_with(held, owner) is Some <==> exists|i: int|
            0 <= i < held.len() && (#[trigger] held[i]).owner == owner,
        first_with(held, owner) matches Some(state) ==> exists|i: int|
            0 <= i < held.len() && (#[trigger] held[i]).owner == owner && held[i].state == state,
    decreases held.len(),
{
    if held.len() > 0 {
        let fewer = held.drop_last();
        let n = held.len() - 1;
        sessions_are_found_by_owner(fewer, owner);
        assert forall|i: int| 0 <= i < n implies #[trigger] fewer[i] == held[i] by {}
        if let Some(state) = first_with(fewer, owner) {
            let i = choose|i: int|
                0 <= i < fewer.len() && (#[trigger] fewer[i]).owner == owner && fewer[i].state
                    == state;
            assert(held[i].owner == owner && held[i].state == state);
        } else {
            assert forall|i: int| 0 <= i < n implies (#[trigger] held[i]).owner != owner by {
                assert(fewer[i] == held[i]);
            }
            if held.last().owner == owner {
                assert(held[n].owner == owner);
            }
        }
    }
}

/// Relays are asked for the invites of every device that is authorized, not
/// stale, and of an owner that matters.
pub proof fn invites_of_trusted_devices_are_asked_for(
    m: StateModel,
    own: OwnerPubkey,
    owner: OwnerPubkey,
    d: DevicePubkey,
)
    requires
        protocol_devices(m.core, protocol_owners(m, own)).finite(),
        m.core.users.contains_key(owner),
        m.core.users[owner].devices.contains_key(d),
        m.core.users[owner].devices[d].authorized,
        !m.core.users[owner].devices[d].is_stale,
    ensures
        protocol_filters(m, own).len() >= 2,
        protocol_filters(m, own)[1].kinds == seq![30078u16],
        protocol_filters(m, own)[1].authors.contains(d),
{
    let owners = protocol_owners(m, own);
    let devices = protocol_devices(m.core, owners);
    let order = ordered::<DevicePubkey>(devices);
    crate::collections::ordered_lists::<DevicePubkey>(devices);
    assert(crate::session_manager::queries::trusts(m.core, owner, d));
    assert(owners.contains(owner));
    assert(has_owner(m.core, owners, d));
    assert(devices.contains(d));
    assert(order.contains(d));
    assert(protocol_filters(m, own)[1].kinds =~= seq![30078u16]);
}

/// The tags that refer to messages refer to each of them, in order.
pub proof fn tags_refer_to_each_message(ids: Seq<Seq<char>>)
    ensures
        message_tags(ids).len() == ids.len(),
        forall|i: int| 0 <= i < ids.len() ==> #[trigger] message_tags(ids)[i] == seq!["e"@, ids[i]],
{
}

// ---------------------------------------------------------------------------
// Messages under their senders' own keys
// ---------------------------------------------------------------------------

/// A message that was encrypted with its sender's own key waits, and is stored,
/// as long as its sender is not known or it cannot be read yet; one that was
/// read is shown. Nothing else changes.
pub proof fn messages_wait_for_their_senders_keys(
    c: CoreModel,
    message: SenderKeyModel,
    outcome: SenderKeyOutcomeModel,
)
    ensures
        ({
            let (after, result) = outer(c, Some(message), outcome);
            let read = c.state.senders.contains_key(message.sender)
                && outcome is Event;
            let gone = c.state.senders.contains_key(message.sender) && outcome is Gone;
            &&& read ==> after == c && result.events.len() == 1 && (outcome
                matches SenderKeyOutcomeModel::Event(event) && result.events[0] == event)
            &&& gone ==> after == c && result.events.len() == 0
            &&& !read && !gone ==> {
                &&& after.state.sender_keys.contains(message)
                &&& result.events.len() == 0
                &&& result.effects == seq![persist(after.state)]
            }
            &&& forall|i: int|
                0 <= i < c.state.sender_keys.len() ==> #[trigger] after.state.sender_keys[i]
                    == c.state.sender_keys[i]
            &&& after.state.groups == c.state.groups
            &&& after.state.core == c.state.core
            &&& after.state.outbound == c.state.outbound
            &&& after.state.payloads == c.state.payloads
        }),
        outer(c, None, outcome).0 == c,
        outer(c, None, outcome).1.events.len() == 0,
{
    let kept = super::groups::with_sender_key(c, message);
    if !c.state.sender_keys.contains(message) {
        assert(kept.state.sender_keys[c.state.sender_keys.len() as int] == message);
    }
    assert(kept.state.sender_keys.contains(message));
}

// ---------------------------------------------------------------------------
// Groups
// ---------------------------------------------------------------------------

/// A group that was renamed has the name then, at the next revision, and is
/// shown so; no other group is touched. Where renaming fails before the members
/// are told, no group is.
pub proof fn renamed_groups_are_shown_with_their_name(
    before: CoreModel,
    after: CoreModel,
    at: Moment,
    id: Seq<char>,
    name: Seq<char>,
    r: Result<RuntimeGroupSnapshotResult, Error>,
)
    requires
        renames(before, after, at, id, name, r),
        all_well_formed(before.state.groups.groups),
    ensures
        r matches Ok(result) ==> {
            let g = before.state.groups.groups[id];
            let now = after.state.groups.groups;
            &&& before.state.groups.groups.contains_key(id)
            &&& now.contains_key(id)
            &&& now[id].name == name
            &&& now[id].revision == g.revision + 1
            &&& now[id].members == g.members
            &&& now[id].admins == g.admins
            &&& is_shown_by(now[id], result.snapshot@)
            &&& forall|other: Seq<char>|
                other != id ==> now.contains_key(other) == before.state.groups.groups.contains_key(
                    other,
                ) && #[trigger] now[other] == before.state.groups.groups[other]
        },
{
    let groups = before.state.groups;
    let plan = rename_plan(groups, id, name, at.secs);
    let (mid, sent) = choose|mid: CoreModel, sent: Result<GroupPreparedSend, Error>| #[trigger]
        carries_out(before, mid, at, rename_plan(before.state.groups, id, name, at.secs), sent)
            && match sent {
            Err(e) => after == mid && r == Err::<RuntimeGroupSnapshotResult, Error>(e),
            Ok(prepared) => told_of_change(
                mid,
                after,
                at,
                id,
                prepared,
                super::group_ops::same_for_all(
                    mid,
                    prepared,
                    super::group_ops::name_payload(before.state.groups.groups[id], name),
                ),
                false,
                r,
            ),
        };
    if r is Ok {
        plans_are_carried_out_in_full(
            groups,
            mid.state.groups,
            before.state.core,
            mid.state.core,
            at.secs,
            plan,
            sent,
        );
        renamed_groups_have_the_name(groups, id, name, at.secs);
        crate::group_manager::making_keeps_groups_well_formed(
            groups,
            id,
            name,
            Seq::empty(),
            at.secs,
        );
        snapshots_show_the_group(mid.state.groups.groups[id]);
    }
}

/// A group whose members or admins were changed has just the named ones more or
/// less, at the next revision, and is shown so; no other group is touched.
pub proof fn changed_groups_are_shown_with_their_owners(
    before: CoreModel,
    after: CoreModel,
    at: Moment,
    id: Seq<char>,
    change: OwnersChange,
    owners: Seq<OwnerPubkey>,
    r: Result<RuntimeGroupSnapshotResult, Error>,
)
    requires
        changes_owners(before, after, at, id, change, owners, r),
        all_well_formed(before.state.groups.groups),
    ensures
        r matches Ok(result) ==> {
            let g = before.state.groups.groups[id];
            let now = after.state.groups.groups;
            &&& before.state.groups.groups.contains_key(id)
            &&& now.contains_key(id)
            &&& now[id].name == g.name
            &&& now[id].revision == g.revision + 1
            &&& forall|o: OwnerPubkey| #[trigger]
                now[id].members.contains(o) <==> match change {
                    OwnersChange::AddMembers => g.members.contains(o) || owners.contains(o),
                    OwnersChange::RemoveMembers => g.members.contains(o) && !owners.contains(o),
                    _ => g.members.contains(o),
                }
            &&& forall|o: OwnerPubkey| #[trigger]
                now[id].admins.contains(o) <==> match change {
                    OwnersChange::AddMembers => g.admins.contains(o),
                    OwnersChange::AddAdmins => g.admins.contains(o) || owners.contains(o),
                    _ => g.admins.contains(o) && !owners.contains(o),
                }
            &&& is_shown_by(now[id], result.snapshot@)
            &&& forall|other: Seq<char>|
                other != id ==> now.contains_key(other) == before.state.groups.groups.contains_key(
                    other,
                ) && #[trigger] now[other] == before.state.groups.groups[other]
        },
{
    let groups = before.state.groups;
    let plan = change_plan(groups, id, change, owners, at.secs);
    let (mid, sent) = choose|mid: CoreModel, sent: Result<GroupPreparedSend, Error>| #[trigger]
        carries_out(
            before,
            mid,
            at,
            change_plan(before.state.groups, id, change, owners, at.secs),
            sent,
        ) && match sent {
            Err(e) => after == mid && r == Err::<RuntimeGroupSnapshotResult, Error>(e),
            Ok(prepared) => told_of_change(
                mid,
                after,
                at,
                id,
                prepared,
                super::group_ops::change_goals(before, mid, at, id, change, owners, prepared),
                change is AddMembers,
                r,
            ),
        };
    if r is Ok {
        plans_are_carried_out_in_full(
            groups,
            mid.state.groups,
            before.state.core,
            mid.state.core,
            at.secs,
            plan,
            sent,
        );
        changed_groups_have_the_owners(groups, id, change, owners, at.secs);
        crate::group_manager::changing_keeps_groups_well_formed(
            groups,
            id,
            change,
            owners,
            at.secs,
        );
        snapshots_show_the_group(mid.state.groups.groups[id]);
    }
}

/// Writing to a group changes no group, and is refused only if the group is not
/// known or the own owner is no member, or something fails on the way.
pub proof fn writing_to_a_group_changes_none(
    before: CoreModel,
    after: CoreModel,
    at: Moment,
    id: Seq<char>,
    body: Seq<u8>,
    inner: Option<Seq<char>>,
    r: Result<RuntimePublishResult, Error>,
)
    requires
        writes_to_group(before, after, at, id, body, inner, r),
        all_well_formed(before.state.groups.groups),
    ensures
        after.state.groups == before.state.groups,
        r is Ok ==> before.state.groups.groups.contains_key(id)
            && before.state.groups.groups[id].members.contains(before.state.groups.owner),
        after.state.outbound == before.state.outbound,
        after.state.inbound == before.state.inbound,
{
    let groups = before.state.groups;
    let plan = message_plan(groups, id, body);
    messages_go_to_every_other_member(groups, id, body);
    let (mid, sent) = choose|mid: CoreModel, sent: Result<GroupPreparedSend, Error>| #[trigger]
        carries_out(before, mid, at, message_plan(before.state.groups, id, body), sent)
            && match sent {
            Err(e) => after == mid && r == Err::<RuntimePublishResult, Error>(e),
            Ok(prepared) => {
                let g = before.state.groups.groups[id];
                tells(
                    mid,
                    after,
                    at.millis,
                    prepared,
                    super::group_ops::same_for_all(
                        mid,
                        prepared,
                        crate::group_wire::GroupPayloadModel::Message {
                            group_id: g.group_id,
                            revision: g.revision,
                            body,
                        },
                    ),
                    inner,
                    true,
                    r,
                )
            },
        };
    plans_are_carried_out_in_full(
        groups,
        mid.state.groups,
        before.state.core,
        mid.state.core,
        at.secs,
        plan,
        sent,
    );
}

/// A group that was made has the name and the members that were asked for, its
/// maker as its only admin, and is shown so; no other group is touched.
pub proof fn made_groups_are_shown_as_asked_for(
    before: CoreModel,
    after: CoreModel,
    at: Moment,
    name: Seq<char>,
    members: Seq<OwnerPubkey>,
    r: Result<RuntimeGroupCreateResult, Error>,
)
    requires
        makes_group(before, after, at, name, members, r),
    ensures
        r matches Ok(result) ==> {
            let id = result.outcome.group@.group_id;
            let now = after.state.groups.groups;
            let owner = before.state.groups.owner;
            &&& now.contains_key(id)
            &&& now[id].name == name
            &&& now[id].created_by == owner
            &&& now[id].revision == 1
            &&& forall|o: OwnerPubkey| #[trigger]
                now[id].members.contains(o) <==> members.contains(o) || o == owner
            &&& forall|o: OwnerPubkey| #[trigger] now[id].admins.contains(o) <==> o == owner
            &&& is_shown_by(now[id], result.outcome.group@)
            &&& forall|other: Seq<char>|
                other != id ==> now.contains_key(other) == before.state.groups.groups.contains_key(
                    other,
                ) && #[trigger] now[other] == before.state.groups.groups[other]
        },
{
    let groups = before.state.groups;
    let (mid, bytes, made) = choose|
        mid: CoreModel,
        bytes: [u8; 16],
        made: Result<GroupCreateResult, Error>,
    | #[trigger]
        made_as(before, mid, at, hex_text(bytes@), name, members, made) && match made {
            Err(e) => after == mid && r == Err::<RuntimeGroupCreateResult, Error>(e),
            Ok(outcome) => told_of_group(
                mid,
                after,
                at,
                new_group(before.state.groups, hex_text(bytes@), name, members, at.secs),
                outcome,
                r,
            ),
        };
    if r is Ok {
        let id = hex_text(bytes@);
        let prepared = Ok::<GroupPreparedSend, Error>(made->Ok_0.prepared);
        plans_are_carried_out_in_full(
            groups,
            mid.state.groups,
            before.state.core,
            mid.state.core,
            at.secs,
            crate::group_manager::create_plan(groups, id, name, members, at.secs),
            prepared,
        );
        new_groups_are_as_they_were_asked_for(groups, id, name, members, at.secs);
        let g = new_group(groups, id, name, members, at.secs);
        vstd::seq_lib::seq_to_set_is_finite(members);
        assert(g.members.contains(groups.owner) && g.admins.contains(groups.owner));
        assert(g.admins.subset_of(g.members));
        snapshots_show_the_group(g);
    }
}

} // verus!
