//! What accepting an invite and writing to an owner come to, and what others are
//! told of the sessions there are.
use vstd::prelude::*;
use super::effects::{persist, RuntimePublishResult};
use super::hearing::letters_say_what_they_were_given;
use super::letters::{expiration, letter, letter_bytes, SendOptions};
use super::outbox::{dispatches, refresh_core, with_core, CoreModel, Letter, Moment};
use super::{
    accepts_invite, bootstrap_expiration, event_letter, inviting_owner, push_states, sends_letter,
    with_accepted, RuntimeAcceptInviteResult,
};
use crate::collections::{ordered_lists, views};
use crate::encoding::hex_text;
use crate::error::{fault, Error, Fault};
use crate::ids::{DevicePubkey, OwnerPubkey, UnixSeconds};
use crate::invite::{Invite, InviteModel};
use crate::keeping::awaits;
use crate::rumor::RumorModel;
use crate::session_manager::queries::{sessions_with, trusted_devices, HeldModel};
use crate::session_manager::{has_invite, observes_invite, with_invite, ManagerModel};
use crate::text::decimal;

verus! {

/// When an invite is accepted, the answer names its owner and the device that
/// offered it, and what is known with the invite is stored. An invite that links
/// a device is answered at once, with a sign of life that expires in a minute;
/// with any other nothing is sent.
pub proof fn accepting_an_invite_makes_it_known(
    before: CoreModel,
    after: CoreModel,
    at: Moment,
    invite: InviteModel,
    hint: Option<OwnerPubkey>,
    r: Result<RuntimeAcceptInviteResult, Error>,
)
    requires
        accepts_invite(before, after, at, invite, hint, r),
    ensures
        ({
            let owner = inviting_owner(invite, hint);
            let mid = with_core(before, with_accepted(before.state.core, invite, owner, at.secs));
            &&& r matches Ok(result) ==> {
                &&& result.outcome.owner_pubkey == owner
                &&& result.outcome.inviter_device_pubkey.0 == invite.inviter.0
                &&& result.outcome.device_id@ == hex_text(invite.inviter.0@)
                &&& !result.outcome.created_new_session
                &&& views(result.effects@).contains(persist(mid.state))
                &&& views(result.effects@).contains(refresh_core(mid))
            }
            &&& invite.purpose != Some("link"@) ==> r is Ok && after == mid && views(
                r->Ok_0.effects@,
            ).len() == 2
            &&& invite.purpose == Some("link"@) ==> exists|
                m: RumorModel,
                p: Result<RuntimePublishResult, Error>,
            | #[trigger]
                dispatches(mid, after, at, event_letter(owner, m), p) && opens_a_link(
                    m,
                    before.owner,
                    at,
                ) && p is Ok == r is Ok
        }),
{
    let owner = inviting_owner(invite, hint);
    let mid = with_core(before, with_accepted(before.state.core, invite, owner, at.secs));
    if invite.purpose == Some("link"@) {
        let expires = Some(bootstrap_expiration(at.secs.0));
        letters_say_what_they_were_given(
            before.owner,
            at.secs,
            at.millis,
            25,
            Seq::empty(),
            "typing"@,
            expires,
        );
        let m = letter(before.owner, at.secs, at.millis, 25, Seq::empty(), "typing"@, expires);
        let p = choose|p: Result<RuntimePublishResult, Error>| #[trigger]
            dispatches(mid, after, at, event_letter(owner, m), p) && match p {
                Err(e) => r == Err::<RuntimeAcceptInviteResult, Error>(e),
                Ok(published) => r matches Ok(result) && super::accept_outcome(
                    result.outcome,
                    invite,
                    owner,
                ) && views(result.effects@) == seq![persist(mid.state), refresh_core(mid)]
                    + published@.effects,
            };
        assert(dispatches(mid, after, at, event_letter(owner, m), p));
        assert(opens_a_link(m, before.owner, at));
    }
    if r is Ok {
        let effects = views(r->Ok_0.effects@);
        assert(effects[0] == persist(mid.state));
        assert(effects[1] == refresh_core(mid));
    }
}

/// Whether a message is a sign of life that expires in a minute.
pub open spec fn opens_a_link(m: RumorModel, author: OwnerPubkey, at: Moment) -> bool {
    &&& m.kind == 25
    &&& m.content == "typing"@
    &&& m.pubkey.0 == author.0
    &&& m.created_at == at.secs
    &&& m.tags.len() == 2
    &&& at.secs.0 + 60 <= u64::MAX ==> m.tags[1] == seq![
        "expiration"@,
        decimal((at.secs.0 + 60) as nat),
    ]
}

/// Whether a letter carries a message to an owner under its identifier, with a
/// copy for the own devices.
pub open spec fn is_letter_of(l: Letter, recipient: OwnerPubkey, m: RumorModel) -> bool {
    &&& l.recipient == recipient
    &&& l.remote == letter_bytes(m)
    &&& l.local is Some
    &&& l.inner == m.id
}

/// What is written to an owner goes out as a message of the kind, the tags and
/// the text that were given. With options that contradict each other, or a time
/// that no clock shows, nothing happens.
pub proof fn what_is_written_goes_out(
    before: CoreModel,
    after: CoreModel,
    at: Moment,
    recipient: OwnerPubkey,
    kind: u32,
    tags: Seq<Seq<Seq<char>>>,
    content: Seq<char>,
    options: Option<SendOptions>,
    r: Result<RuntimePublishResult, Error>,
)
    requires
        sends_letter(before, after, at, recipient, kind, tags, content, options, r),
    ensures
        expiration(options, at.secs.0) is Err ==> r is Err && after == before,
        expiration(options, at.secs.0) matches Ok(expires) ==> exists|m: RumorModel, l: Letter|
            #[trigger] is_letter_of(l, recipient, m) && dispatches(before, after, at, l, r)
                && m.kind == kind && m.content == content && m.pubkey.0 == before.owner.0
                && m.created_at == at.secs && m.tags.len() == tags.len() + (if expires is Some {
                2int
            } else {
                1int
            }) && m.tags.take(tags.len() as int) == tags && (expires is Some ==> m.tags.last()
                == seq!["expiration"@, decimal(expires->Some_0 as nat)]),
{
    if let Ok(expires) = expiration(options, at.secs.0) {
        let m = letter(before.owner, at.secs, at.millis, kind, tags, content, expires);
        letters_say_what_they_were_given(
            before.owner,
            at.secs,
            at.millis,
            kind,
            tags,
            content,
            expires,
        );
        assert(m.tags.take(tags.len() as int) =~= tags);
        assert(is_letter_of(event_letter(recipient, m), recipient, m));
    }
}

/// Who receives for this device is told of each session: its state, exactly the
/// senders that it awaits, and whether it has a chain to receive on.
pub proof fn who_receives_knows_whom_to_await(held: Seq<HeldModel>, i: int)
    requires
        0 <= i < held.len(),
        Set::new(|d: DevicePubkey| awaits(held[i].state, d)).finite(),
    ensures
        push_states(held).len() == held.len(),
        push_states(held)[i].state == held[i].state,
        forall|d: DevicePubkey| #[trigger]
            push_states(held)[i].senders.contains(d) <==> awaits(held[i].state, d),
        push_states(held)[i].receives <==> held[i].state.receiving_chain_key is Some
            || held[i].state.their_current is Some,
{
    let state = held[i].state;
    let listened = Set::new(|d: DevicePubkey| super::listener(state, d));
    assert(listened =~= Set::new(|d: DevicePubkey| awaits(state, d)));
    ordered_lists::<DevicePubkey>(listened);
    assert forall|d: DevicePubkey| #[trigger]
        push_states(held)[i].senders.contains(d) <==> awaits(state, d) by {
        assert(listened.contains(d) <==> awaits(state, d));
    }
}

/// The sessions with an owner are those among all that are with it, in their
/// order.
pub proof fn sessions_with_an_owner_are_all_there(held: Seq<HeldModel>, owner: OwnerPubkey)
    ensures
        forall|x: HeldModel| #[trigger]
            sessions_with(held, owner).contains(x) <==> held.contains(x) && x.owner == owner,
        sessions_with(held, owner).len() <= held.len(),
        (forall|i: int| 0 <= i < held.len() ==> (#[trigger] held[i]).owner == owner)
            ==> sessions_with(held, owner) == held,
    decreases held.len(),
{
    let all = sessions_with(held, owner);
    if held.len() > 0 {
        let fewer = held.drop_last();
        let rest = sessions_with(fewer, owner);
        sessions_with_an_owner_are_all_there(fewer, owner);
        assert forall|x: HeldModel| #[trigger]
            all.contains(x) <==> held.contains(x) && x.owner == owner by {
            if held.contains(x) {
                let k = choose|k: int| 0 <= k < held.len() && held[k] == x;
                if k < fewer.len() {
                    assert(fewer[k] == x);
                }
            }
            if fewer.contains(x) {
                let k = choose|k: int| 0 <= k < fewer.len() && fewer[k] == x;
                assert(held[k] == x);
            }
            assert(held[held.len() - 1] == held.last());
            if all.contains(x) {
                let k = choose|k: int| 0 <= k < all.len() && all[k] == x;
                if k < rest.len() {
                    assert(rest[k] == x);
                }
            }
            if rest.contains(x) {
                let k = choose|k: int| 0 <= k < rest.len() && rest[k] == x;
                assert(all[k] == x);
            }
            if held.last().owner == owner {
                assert(all[all.len() - 1] == held.last());
            }
        }
        if forall|i: int| 0 <= i < held.len() ==> (#[trigger] held[i]).owner == owner {
            assert forall|i: int| 0 <= i < fewer.len() implies (#[trigger] fewer[i]).owner
                == owner by {
                assert(fewer[i] == held[i]);
            }
            assert(held[held.len() - 1].owner == owner);
            assert(all =~= held);
        }
    } else {
        assert(all =~= held);
    }
}

/// A device is trusted by an owner if it is authorized and not stale, and only
/// then.
pub proof fn trusted_devices_are_those_that_may_act(
    m: ManagerModel,
    owner: OwnerPubkey,
    device: DevicePubkey,
)
    ensures
        trusted_devices(m, owner).contains(device) <==> m.users.contains_key(owner)
            && m.users[owner].devices.contains_key(device)
            && m.users[owner].devices[device].authorized
            && !m.users[owner].devices[device].is_stale,
{
}

/// The device keeps the invite that it has. Only where it has none a new one is
/// made, which it then keeps and knows as its own; if none can be made nothing
/// changes.
pub proof fn the_own_invite_is_made_once(
    before: ManagerModel,
    after: ManagerModel,
    now: UnixSeconds,
    r: Result<&Invite, Error>,
)
    requires
        has_invite(before, after, now, r),
    ensures
        before.local_invite matches Some(known) ==> after == before && r is Ok && r->Ok_0@ == known,
        r matches Ok(invite) ==> after.local_invite == Some(invite@),
        r matches Ok(invite) ==> (before.local_invite is None ==> invite@.created_at == now
            && invite@.inviter.0 == before.device.0 && invite@.device_id == before.device_id
            && invite@.used_by.len() == 0 && after.users.contains_key(before.owner)
            && after.users[before.owner].devices.contains_key(before.device)
            && after.users[before.owner].devices[before.device].public_invite is Some),
        r matches Ok(invite) ==> (before.local_invite is None && !before.users.contains_key(
            before.owner,
        ) ==> {
            let known = after.users[before.owner].devices[before.device].public_invite->Some_0;
            &&& known.ephemeral_key == invite@.ephemeral_key
            &&& known.shared_secret == invite@.shared_secret
            &&& known.ephemeral_secret is None
        }),
        r is Err ==> after == before,
{
}

/// An invite that says whose it is is taken in for that owner only.
pub proof fn invites_speak_for_their_owner(
    before: ManagerModel,
    after: ManagerModel,
    owner: OwnerPubkey,
    invite: InviteModel,
    r: Result<(), Error>,
)
    requires
        observes_invite(before, after, owner, invite, r),
    ensures
        r is Ok <==> owner == (match invite.owner {
            Some(named) => named,
            None => invite.inviter,
        }),
        r is Ok ==> after == with_invite(before, owner, invite),
        r matches Err(e) ==> after == before && fault(e) == Fault::InvalidState,
{
}

} // verus!
