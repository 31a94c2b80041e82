//! What holds of invites and their responses.
use vstd::prelude::*;
use crate::codec::nostr::{
    announced, invite_address, invite_base_tags, invite_event_body, invite_json, lemma_address_part,
    lemma_shows, offered, survives, INVITE_D_PREFIX,
};
use crate::crypto::{conversation_key_of, decrypted, ends_of, kdf_output, public_key_of};
use crate::encoding::hex_key_round_trip;
use crate::error::{Error, Fault};
use crate::ids::{device_key_of, DevicePubkey, OwnerPubkey, UnixSeconds};
use crate::event::{tag_value, Event, EventBody};
use crate::invite::domain::{
    invite_at, invite_in, lenient_response, new_invite, process_leniently, InviteCreateRuntime,
};
use crate::invite::{
    accepted, arranges, claim_holds, inner_of_json, inner_text, process, processes, read_response,
    resolved_owner, response_time, tells_inviter, use_refusal, InviteModel, InviteResponse,
    InviteResponseEnvelope, ResponseModel, ResponseParts,
};
use crate::invite_actor::{answers, answers_with, unused};
use crate::json::{json_parsed, json_text, record_parsed, JsonValue};
use crate::session::domain::{agrees_with, first_state};
use crate::session::properties::{awaits_chain, ends_in_time, first_states_meet};
use crate::session::{Session, SessionModel};
use crate::text::{lemma_first_of_is, part};

verus! {

/// An invite that is written as an address under a root without a hash is read
/// back, but for what only the inviter keeps, its time and its device.
pub proof fn address_is_read_back(invite: InviteModel, root: Seq<char>)
    requires
        survives(invite, false),
        !root.contains('#'),
    ensures
        invite_at(invite_address(invite, root, false)) == Ok::<InviteModel, Fault>(
            InviteModel { device_id: None, ..offered(invite) },
        ),
{
    lemma_address_part(invite, root, false);
    lemma_shows(json_parsed(json_text(invite_json(invite, false)))->Some_0, invite, false);
    assert(invite_at(invite_address(invite, root, false))->Ok_0.used_by =~= Seq::empty());
}

/// The third part of the name under which the invite of a device is published
/// is that device.
proof fn lemma_named(device_id: Seq<char>)
    requires
        !device_id.contains('/'),
    ensures
        part(INVITE_D_PREFIX@ + device_id, '/', 2) == Some(device_id),
{
    reveal_strlit("double-ratchet/invites/");
    let name = INVITE_D_PREFIX@ + device_id;
    let second = name.skip(15);
    let third = second.skip(8);
    assert(INVITE_D_PREFIX@.len() == 23);
    lemma_first_of_is(name, '/', 14);
    lemma_first_of_is(second, '/', 7);
    assert(third =~= device_id);
    assert forall|i: int| 0 <= i < device_id.len() implies device_id[i] != '/' by {
        assert(device_id.contains(device_id[i]));
    }
    lemma_first_of_is(third, '/', third.len() as int);
    assert(third.take(third.len() as int) =~= third);
    reveal_with_fuel(part, 3);
}

/// An invite of a device that is published is read back, but for what only the
/// inviter keeps, its purpose and its owner. The name of the device has no
/// slash in it and is not `public`.
pub proof fn published_invite_is_read_back(invite: InviteModel)
    requires
        invite.device_id is Some,
        !invite.device_id->Some_0.contains('/'),
        invite.device_id->Some_0 != "public"@,
    ensures
        invite_in(
            invite_event_body(invite, invite_base_tags(invite, invite.device_id->Some_0)),
        ) == Ok::<InviteModel, Fault>(
            InviteModel {
                created_at: invite.created_at,
                device_id: invite.device_id,
                purpose: None,
                owner: None,
                ..offered(invite)
            },
        ),
{
    let id = invite.device_id->Some_0;
    let tags = invite_base_tags(invite, id);
    reveal_strlit("ephemeralKey");
    reveal_strlit("sharedSecret");
    reveal_strlit("d");
    assert("ephemeralKey"@.len() == 12 && "ephemeralKey"@[0] == 'e');
    assert("sharedSecret"@.len() == 12 && "sharedSecret"@[0] == 's');
    assert("d"@.len() == 1);
    hex_key_round_trip(invite.ephemeral_key.0);
    hex_key_round_trip(invite.shared_secret);
    lemma_named(id);
    reveal_with_fuel(tag_value, 4);
    assert(tags.drop_first()[0] == tags[1]);
    assert(tags.drop_first().drop_first()[0] == tags[2]);
    assert(invite.inviter.device().owner() == invite.inviter);
}

/// Whether an invite is another's offer, as the inviter keeps it: with the
/// ephemeral secret.
pub open spec fn keeps_offer(kept: InviteModel, offer: InviteModel) -> bool {
    &&& kept.ephemeral_key == offer.ephemeral_key
    &&& kept.shared_secret == offer.shared_secret
    &&& kept.inviter == offer.inviter
    &&& kept.ephemeral_secret is Some
    &&& device_key_of(kept.ephemeral_secret->Some_0) == Some(kept.ephemeral_key)
}

/// The response to an invite tells the inviter who accepted it, and the two
/// sessions that come of it meet: the inviter's waits for the chain on which
/// the other sends.
pub proof fn accepted_invite_leads_to_a_session(
    offer: InviteModel,
    kept: InviteModel,
    now: UnixSeconds,
    invitee: DevicePubkey,
    invitee_secret: [u8; 32],
    inviter_secret: [u8; 32],
    device_id: Option<Seq<char>>,
    owner: Option<OwnerPubkey>,
    r: Result<(Session, InviteResponseEnvelope), Error>,
)
    requires
        r is Ok,
        accepted(offer, now, invitee, invitee_secret, device_id, owner, r),
        keeps_offer(kept, offer),
        use_refusal(kept, invitee) is None,
        public_key_of(invitee_secret) == Some(invitee.0),
        public_key_of(inviter_secret) == Some(offer.inviter.0),
        r->Ok_0.0@.our_next.public_key != r->Ok_0.0@.our_current->Some_0.public_key,
    ensures
        ({
            let (session, envelope) = r->Ok_0;
            let processed = process(kept, envelope.sender, envelope.content@, inviter_secret);
            &&& processed is Ok
            &&& processed->Ok_0.0 == (ResponseModel {
                invitee,
                session_key: session@.our_current->Some_0.public_key,
                device_id,
                owner,
            })
            &&& awaits_chain(session@, processed->Ok_0.1)
            &&& ends_in_time(session@, processed->Ok_0.1)
        }),
{
    let (session, envelope) = r->Ok_0;
    let ephemeral = kept.ephemeral_secret->Some_0;
    let ours = session@.our_current->Some_0;
    assert(DevicePubkey(envelope.sender.0) == envelope.sender);
    let told = ResponseModel { invitee, session_key: ours.public_key, device_id, owner };
    let parts = ResponseParts {
        response: told,
        invitee_secret,
        sender_secret: envelope.signer_secret_key,
        created_at: now,
        by_name: false,
    };
    assert(tells_inviter(offer, parts, envelope.content@));
    assert(ends_of(
        parts.sender_secret,
        offer.ephemeral_key.0,
        ephemeral,
        envelope.sender.0,
    ));
    assert(ends_of(
        parts.invitee_secret,
        offer.inviter.0,
        inviter_secret,
        parts.response.invitee.0,
    ));
    assert(read_response(
        ephemeral,
        offer.shared_secret,
        inviter_secret,
        DevicePubkey(envelope.sender.0),
        envelope.content@,
    ) == Ok::<ResponseModel, Fault>(told));
    let answer = first_state(ours.public_key, ephemeral, false, kept.shared_secret, None);
    assert(answer is Ok);
    assert(agrees_with(session@, ephemeral));
    first_states_meet(
        session@,
        answer->Ok_0,
        ours.private_key,
        ephemeral,
        offer.shared_secret,
        session@.our_next.private_key,
    );
}

/// A device uses an invite once: the invite that has taken in its response
/// refuses the next.
pub proof fn device_uses_an_invite_once(
    before: InviteModel,
    after: InviteModel,
    invitee: DevicePubkey,
)
    requires
        arranges(after.used_by, before.used_by.push(invitee)),
    ensures
        use_refusal(after, invitee) == Some(Fault::InviteAlreadyUsed),
        forall|other: DevicePubkey| #[trigger]
            after.used_by.contains(other) <==> before.used_by.contains(other) || other == invitee,
{
    broadcast use vstd::seq_lib::group_to_multiset_ensures;

    let pushed = before.used_by.push(invitee);
    assert forall|other: DevicePubkey| #[trigger] after.used_by.contains(other)
        <==> before.used_by.contains(other) || other == invitee by {
        assert(after.used_by.contains(other) <==> after.used_by.to_multiset().contains(other));
        assert(pushed.contains(other) <==> pushed.to_multiset().contains(other));
        if before.used_by.contains(other) {
            let i = choose|i: int| 0 <= i < before.used_by.len() && before.used_by[i] == other;
            assert(pushed[i] == other);
        }
        if other == invitee {
            assert(pushed[before.used_by.len() as int] == other);
        }
        if pushed.contains(other) && other != invitee {
            let i = choose|i: int| 0 <= i < pushed.len() && pushed[i] == other;
            assert(before.used_by[i] == other);
        }
    }
}

/// However many respond, an invite is used no more often than it may be.
pub proof fn invite_is_used_at_most_so_often(
    before: InviteModel,
    after: InviteModel,
    invitee: DevicePubkey,
)
    requires
        use_refusal(before, invitee) is None,
        arranges(after.used_by, before.used_by.push(invitee)),
    ensures
        after.used_by.len() == before.used_by.len() + 1,
        before.max_uses matches Some(max) ==> after.used_by.len() <= max,
{
    broadcast use vstd::seq_lib::group_to_multiset_ensures;

    assert(after.used_by.len() == after.used_by.to_multiset().len());
    assert(before.used_by.push(invitee).len() == before.used_by.push(
        invitee,
    ).to_multiset().len());
}

/// An invite can be used by a device that has not used it, as long as it has
/// not been used as often as it may be, and only then.
pub proof fn invites_can_be_used_as_often_as_they_say(invite: InviteModel, invitee: DevicePubkey)
    ensures
        use_refusal(invite, invitee) is None <==> !invite.used_by.contains(invitee) && (
        invite.max_uses is None || invite.used_by.len() < invite.max_uses->Some_0),
        invite.used_by.contains(invitee) ==> use_refusal(invite, invitee) == Some(
            Fault::InviteAlreadyUsed,
        ),
        !invite.used_by.contains(invitee) && invite.max_uses is Some && invite.used_by.len()
            >= invite.max_uses->Some_0 ==> use_refusal(invite, invitee) == Some(
            Fault::InviteExhausted,
        ),
{
}

/// A response is dated back by what a random number leaves over of two days,
/// but not before the beginning of time.
pub proof fn responses_are_dated_back_by_less_than_two_days(now: UnixSeconds, random: u64)
    ensures
        response_time(now, random).0 <= now.0,
        now.0 >= random % 172800 ==> response_time(now, random).0 == now.0 - random % 172800,
        now.0 < random % 172800 ==> response_time(now, random).0 == 0,
        now.0 - response_time(now, random).0 < 172800,
{
}

/// When a response was taken in, the device that answered is the one that has
/// used the invite, and nothing else of the invite changes. The session is with
/// that device, and the owner is the one that it named. Where a response is
/// refused the invite stays as it is.
pub proof fn responses_are_taken_in_as_they_were_told(
    before: InviteModel,
    after: InviteModel,
    sender: DevicePubkey,
    content: Seq<char>,
    inviter_secret: [u8; 32],
    r: Result<InviteResponse, Error>,
)
    requires
        processes(before, after, sender, content, inviter_secret, r),
    ensures
        r is Err ==> after == before,
        r matches Ok(response) ==> {
            let told = read_response(
                before.ephemeral_secret->Some_0,
                before.shared_secret,
                inviter_secret,
                sender,
                content,
            );
            &&& before.ephemeral_secret is Some
            &&& told is Ok
            &&& response.invitee_identity == told->Ok_0.invitee
            &&& response.owner_public_key == told->Ok_0.owner
            &&& first_state(
                told->Ok_0.session_key,
                before.ephemeral_secret->Some_0,
                false,
                before.shared_secret,
                None,
            ) == Ok::<SessionModel, Fault>(response.session@)
            &&& !before.used_by.contains(response.invitee_identity)
            &&& before.max_uses is Some ==> before.used_by.len() < before.max_uses->Some_0
            &&& forall|other: DevicePubkey| #[trigger]
                after.used_by.contains(other) <==> before.used_by.contains(other) || other
                    == response.invitee_identity
            &&& after.used_by.len() == before.used_by.len() + 1
            &&& after.ephemeral_key == before.ephemeral_key
            &&& after.shared_secret == before.shared_secret
            &&& after.inviter == before.inviter
            &&& after.ephemeral_secret == before.ephemeral_secret
            &&& after.max_uses == before.max_uses
            &&& after.created_at == before.created_at
            &&& after.owner == before.owner
        },
{
    if let Ok(response) = r {
        device_uses_an_invite_once(before, after, response.invitee_identity);
        invite_is_used_at_most_so_often(before, after, response.invitee_identity);
    }
}

/// A device belongs to the owner that it names, or to itself if it names none;
/// its claim to another owner holds only if that owner's devices have it.
pub proof fn claims_hold_for_known_devices(
    invitee: DevicePubkey,
    owner: Option<OwnerPubkey>,
    devices: Option<Set<DevicePubkey>>,
)
    ensures
        owner matches Some(named) ==> resolved_owner(invitee, owner) == named,
        owner is None ==> resolved_owner(invitee, owner) == invitee.owner(),
        claim_holds(invitee, owner, devices) <==> owner is None || owner == Some(invitee.owner())
            || (devices is Some && devices->Some_0.contains(invitee)),
{
}

/// What an invite offers to others is whom it is from, its keys and its device;
/// what only its maker knows is left out.
pub proof fn offers_keep_what_is_to_be_known(invite: InviteModel)
    ensures
        offered(invite).inviter == invite.inviter,
        offered(invite).ephemeral_key == invite.ephemeral_key,
        offered(invite).shared_secret == invite.shared_secret,
        offered(invite).device_id == invite.device_id,
        offered(invite).purpose == invite.purpose,
        offered(invite).owner == invite.owner,
        offered(invite).ephemeral_secret is None,
        offered(invite).max_uses is None,
        offered(invite).used_by.len() == 0,
{
}

/// Who accepts an invite can write at once: the session is with the key of the
/// invite and begins with its secret, and the response goes to that key.
pub proof fn those_who_accept_can_write(
    invite: InviteModel,
    now: UnixSeconds,
    invitee: DevicePubkey,
    secret: [u8; 32],
    device_id: Option<Seq<char>>,
    owner: Option<OwnerPubkey>,
    r: Result<(Session, InviteResponseEnvelope), Error>,
)
    requires
        accepted(invite, now, invitee, secret, device_id, owner, r),
    ensures
        r matches Ok((session, envelope)) ==> {
            let s = session@;
            let shared = conversation_key_of(s.our_next.private_key, invite.ephemeral_key.0);
            &&& !invite.used_by.contains(invitee)
            &&& invite.max_uses matches Some(max) ==> invite.used_by.len() < max
            &&& s.their_next == Some(invite.ephemeral_key)
            &&& s.our_current is Some
            &&& shared is Some
            &&& s.root_key == kdf_output(invite.shared_secret@, shared->Some_0@, 1)
            &&& s.sending_chain_key == Some(
                kdf_output(invite.shared_secret@, shared->Some_0@, 2),
            )
            &&& s.receiving_chain_key is None
            &&& s.sending_number == 0
            &&& envelope.recipient == invite.ephemeral_key
            &&& envelope.created_at.0 <= now.0
            &&& now.0 - envelope.created_at.0 < 172800
        },
{
    if let Ok((session, envelope)) = r {
        let random = choose|random: u64| envelope.created_at == #[trigger] response_time(now, random);
        responses_are_dated_back_by_less_than_two_days(now, random);
    }
}

/// What the event of an invite tells others is all of it but what only its maker
/// knows.
pub proof fn events_keep_what_is_to_be_known(invite: InviteModel)
    ensures
        announced(invite).inviter == invite.inviter,
        announced(invite).ephemeral_key == invite.ephemeral_key,
        announced(invite).shared_secret == invite.shared_secret,
        announced(invite).device_id == invite.device_id,
        announced(invite).created_at == invite.created_at,
        announced(invite).purpose == invite.purpose,
        announced(invite).owner == invite.owner,
        announced(invite).ephemeral_secret is None,
        announced(invite).max_uses is None,
        announced(invite).used_by.len() == 0,
{
}

/// Who answers an invite that is passed around may do so whoever has used it;
/// the session and the response are those of accepting it, and the event that
/// is sent carries that response to the key of the invite.
pub proof fn answers_carry_the_response(
    invite: InviteModel,
    now: UnixSeconds,
    invitee: DevicePubkey,
    secret: [u8; 32],
    device_id: Option<Seq<char>>,
    owner: Option<OwnerPubkey>,
    r: Result<(Session, Event), Error>,
)
    requires
        answers(invite, now, invitee, secret, device_id, owner, r),
    ensures
        r matches Ok((session, event)) ==> {
            &&& session@.their_next == Some(invite.ephemeral_key)
            &&& session@.our_current is Some
            &&& session@.sending_chain_key is Some
            &&& event@.body.created_at.0 <= now.0
            &&& exists|envelope: InviteResponseEnvelope| #[trigger]
                accepted(
                    InviteModel { max_uses: None, used_by: Seq::empty(), ..invite },
                    now,
                    invitee,
                    secret,
                    device_id,
                    owner,
                    Ok((session, envelope)),
                ) && event@.body.pubkey == envelope.sender && event@.body.content
                    == envelope.content@ && envelope.recipient == invite.ephemeral_key
        },
{
    if let Ok((session, event)) = r {
        let envelope = choose|envelope: InviteResponseEnvelope| #[trigger]
            answers_with(
                invite,
                now,
                invitee,
                secret,
                device_id,
                owner,
                session,
                envelope,
                event,
            );
        those_who_accept_can_write(
            unused(invite),
            now,
            invitee,
            secret,
            device_id,
            owner,
            Ok((session, envelope)),
        );
        assert(accepted(
            InviteModel { max_uses: None, used_by: Seq::empty(), ..invite },
            now,
            invitee,
            secret,
            device_id,
            owner,
            Ok((session, envelope)),
        ));
    }
}

/// A new invite is its maker's own, with the keys that it was given, and nobody
/// has used it.
pub proof fn new_invites_have_what_they_were_given(
    inviter: OwnerPubkey,
    device_id: Option<Seq<char>>,
    max_uses: Option<usize>,
    runtime: InviteCreateRuntime,
    key: DevicePubkey,
)
    ensures
        ({
            let invite = new_invite(inviter, device_id, max_uses, runtime, key);
            &&& invite.inviter == inviter
            &&& invite.device_id == device_id
            &&& invite.max_uses == max_uses
            &&& invite.ephemeral_key == key
            &&& invite.ephemeral_secret == Some(runtime.inviter_ephemeral_private_key)
            &&& invite.shared_secret == runtime.shared_secret
            &&& invite.created_at.0 == runtime.created_at
            &&& invite.used_by.len() == 0
            &&& invite.purpose is None
            &&& invite.owner is None
        }),
{
}

/// Whether a text is an object that is read alike by those who want no member
/// twice and by those who do not care.
pub open spec fn read_alike(text: Seq<char>) -> bool {
    json_parsed(text) matches Some(JsonValue::Object(_)) && record_parsed(text) == json_parsed(text)
}

/// A response whose layers are objects is read alike by the two ways of reading
/// it, and the session that it starts is the same.
pub proof fn both_ways_of_reading_a_response_agree(
    invite: InviteModel,
    event: EventBody,
    inviter_secret: [u8; 32],
    outer: Seq<char>,
    sealed: Seq<char>,
    payload: Seq<char>,
    told: ResponseModel,
)
    requires
        invite.ephemeral_secret is Some,
        read_response(
            invite.ephemeral_secret->Some_0,
            invite.shared_secret,
            inviter_secret,
            event.pubkey,
            event.content,
        ) == Ok::<ResponseModel, Fault>(told),
        decrypted(invite.ephemeral_secret->Some_0, event.pubkey.0, event.content) == Some(outer),
        read_alike(outer),
        inner_of_json(record_parsed(outer)->Some_0) matches Some((_, content)) && inner_text(
            invite.shared_secret,
            content,
        ) == Ok::<Seq<char>, Fault>(sealed),
        decrypted(inviter_secret, told.invitee.0, sealed) == Some(payload),
        read_alike(payload),
    ensures
        lenient_response(
            invite.ephemeral_secret->Some_0,
            invite.shared_secret,
            inviter_secret,
            event.pubkey,
            event.content,
        ) == Ok::<ResponseModel, Fault>(told),
        process_leniently(invite, event, inviter_secret) matches Ok((response, state)) ==> response
            == told && first_state(
            told.session_key,
            invite.ephemeral_secret->Some_0,
            false,
            invite.shared_secret,
            None,
        ) == Ok::<SessionModel, Fault>(state),
        first_state(
            told.session_key,
            invite.ephemeral_secret->Some_0,
            false,
            invite.shared_secret,
            None,
        ) is Ok ==> process_leniently(invite, event, inviter_secret) is Ok,
{
}

} // verus!
