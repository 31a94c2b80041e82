//! Invites for those who keep one and answer one.
use vstd::prelude::*;
use crate::app_keys::AppKeys;
use crate::codec::nostr::{
    invite_address, invite_base_tags, invite_event_body, invite_response_event, response_event_body,
    signer_fault, signs, survives,
};
use crate::error::{fault, Error, Fault};
use crate::event::{Event, UnsignedEvent};
use crate::ids::{device_key_of, DeviceId, DevicePubkey, OwnerPubkey, UnixSeconds};
use crate::invite::domain::{
    create_invite, from_user_filter, invite_at, invite_in, listen_filter, new_invite,
    process_invite_response, process_leniently, Filter, InviteCreateRuntime,
};
use crate::invite::stored::{stored_json, stored_of};
use crate::invite::{
    accept_fails, accepted, claim_holds, copy_keys, device_name, known_devices, resolved_owner,
    use_refusal,
    Invite, InviteModel, InviteResponseEnvelope, ResponseModel,
};
use crate::json::json_text;
use crate::rumor::text_of;
use crate::session::{Session, SessionModel};
use crate::types::{ProtocolContext, INVITE_EVENT_KIND, INVITE_RESPONSE_KIND};

verus! {

/// A session that an invite led to, and who is at its other end.
#[derive(Debug)]
pub struct InviteResponse {
    pub session: Session,
    pub invitee_identity: DevicePubkey,
    pub device_id: Option<String>,
    pub owner_public_key: Option<OwnerPubkey>,
}

impl InviteResponse {
    pub fn resolved_owner_pubkey(&self) -> (r: OwnerPubkey)
        ensures
            r == resolved_owner(self.invitee_identity, self.owner_public_key),
    {
        match self.owner_public_key {
            Some(owner) => owner,
            None => self.invitee_identity.as_owner(),
        }
    }

    pub fn has_verified_owner_claim(&self, app_keys: Option<&AppKeys>) -> (r: bool)
        ensures
            r == claim_holds(
                self.invitee_identity,
                self.owner_public_key,
                known_devices(app_keys),
            ),
    {
        let owner = self.resolved_owner_pubkey();
        if owner == self.invitee_identity.as_owner() {
            return true;
        }
        match app_keys {
            Some(keys) => keys.get_device(&self.invitee_identity).is_some(),
            None => false,
        }
    }
}

/// An invite with the device named by a plain text.
#[derive(Debug)]
pub struct InviteActor {
    pub inviter_ephemeral_public_key: DevicePubkey,
    pub shared_secret: [u8; 32],
    pub inviter: OwnerPubkey,
    pub inviter_ephemeral_private_key: Option<[u8; 32]>,
    pub device_id: Option<String>,
    pub max_uses: Option<usize>,
    pub used_by: Vec<DevicePubkey>,
    pub created_at: u64,
    pub purpose: Option<String>,
    pub owner_public_key: Option<OwnerPubkey>,
}

impl View for InviteActor {
    type V = InviteModel;

    open spec fn view(&self) -> InviteModel {
        InviteModel {
            ephemeral_key: self.inviter_ephemeral_public_key,
            shared_secret: self.shared_secret,
            inviter: self.inviter,
            ephemeral_secret: self.inviter_ephemeral_private_key,
            device_id: text_of(self.device_id),
            max_uses: self.max_uses,
            used_by: self.used_by@,
            created_at: UnixSeconds(self.created_at),
            purpose: text_of(self.purpose),
            owner: self.owner_public_key,
        }
    }
}

/// An invite as an actor.
pub open spec fn actor_of(invite: Invite) -> InviteActor {
    InviteActor {
        inviter_ephemeral_public_key: invite.inviter_ephemeral_public_key,
        shared_secret: invite.shared_secret,
        inviter: invite.inviter,
        inviter_ephemeral_private_key: invite.inviter_ephemeral_private_key,
        device_id: match invite.device_id {
            Some(id) => Some(id.0),
            None => None,
        },
        max_uses: invite.max_uses,
        used_by: invite.used_by,
        created_at: invite.created_at.0,
        purpose: invite.purpose,
        owner_public_key: invite.owner_public_key,
    }
}

/// An actor as an invite.
pub open spec fn invite_of(actor: InviteActor) -> Invite {
    Invite {
        inviter_ephemeral_public_key: actor.inviter_ephemeral_public_key,
        shared_secret: actor.shared_secret,
        inviter: actor.inviter,
        inviter_ephemeral_private_key: actor.inviter_ephemeral_private_key,
        device_id: match actor.device_id {
            Some(id) => Some(DeviceId(id)),
            None => None,
        },
        max_uses: actor.max_uses,
        used_by: actor.used_by,
        created_at: UnixSeconds(actor.created_at),
        purpose: actor.purpose,
        owner_public_key: actor.owner_public_key,
    }
}

/// An invite and its actor say the same, and each is made from the other
/// without loss.
pub proof fn actor_and_invite_are_one(invite: Invite, actor: InviteActor)
    ensures
        invite_of(actor_of(invite)) == invite,
        actor_of(invite_of(actor)) == actor,
        actor_of(invite)@ == invite@,
        invite_of(actor)@ == actor@,
{
}

/// What an actor is created from: the values that chance and the clock give.
#[derive(Debug)]
pub struct InviteCreateInput {
    pub inviter: OwnerPubkey,
    pub device_id: Option<String>,
    pub max_uses: Option<usize>,
    pub inviter_ephemeral_private_key: [u8; 32],
    pub shared_secret: [u8; 32],
    pub created_at: u64,
}

impl InviteActor {
    pub fn new(invite: Invite) -> (r: Self)
        ensures
            r == actor_of(invite),
    {
        Self::from_invite(invite)
    }

    pub fn create(input: InviteCreateInput) -> (r: Result<Self, Error>)
        ensures
            match r {
                Ok(actor) => device_key_of(input.inviter_ephemeral_private_key) is Some && actor@
                    == new_invite(
                    input.inviter,
                    text_of(input.device_id),
                    input.max_uses,
                    InviteCreateRuntime {
                        inviter_ephemeral_private_key: input.inviter_ephemeral_private_key,
                        shared_secret: input.shared_secret,
                        created_at: input.created_at,
                    },
                    device_key_of(input.inviter_ephemeral_private_key)->Some_0,
                ),
                Err(e) => fault(e) == Fault::NostrKey && device_key_of(
                    input.inviter_ephemeral_private_key,
                ) is None,
            },
    {
        let runtime = InviteCreateRuntime {
            inviter_ephemeral_private_key: input.inviter_ephemeral_private_key,
            shared_secret: input.shared_secret,
            created_at: input.created_at,
        };
        let device_id = match input.device_id {
            Some(id) => Some(DeviceId(id)),
            None => None,
        };
        match create_invite(input.inviter, device_id, input.max_uses, runtime) {
            Ok(invite) => Ok(Self::from_invite(invite)),
            Err(e) => Err(e),
        }
    }

    pub fn create_new(
        ctx: &mut ProtocolContext<'_>,
        inviter: OwnerPubkey,
        device_id: Option<String>,
        max_uses: Option<usize>,
    ) -> (r: Result<Self, Error>)
        ensures
            final(ctx).now_secs == old(ctx).now_secs,
            final(ctx).now_millis == old(ctx).now_millis,
            match r {
                Ok(actor) => {
                    &&& actor@.ephemeral_secret is Some
                    &&& device_key_of(actor@.ephemeral_secret->Some_0) == Some(actor@.ephemeral_key)
                    &&& actor@ == (InviteModel {
                        ephemeral_key: actor@.ephemeral_key,
                        shared_secret: actor@.shared_secret,
                        inviter,
                        ephemeral_secret: actor@.ephemeral_secret,
                        device_id: text_of(device_id),
                        max_uses,
                        used_by: Seq::empty(),
                        created_at: old(ctx).now_secs,
                        purpose: None,
                        owner: None,
                    })
                },
                Err(e) => fault(e) == Fault::NostrKey && crate::types::chance_fails(),
            },
    {
        let device_id = match device_id {
            Some(id) => Some(DeviceId(id)),
            None => None,
        };
        match Invite::create_new(ctx, inviter, device_id, max_uses) {
            Ok(invite) => Ok(Self::from_invite(invite)),
            Err(e) => Err(e),
        }
    }

    pub fn from_invite(invite: Invite) -> (r: Self)
        ensures
            r == actor_of(invite),
    {
        InviteActor {
            inviter_ephemeral_public_key: invite.inviter_ephemeral_public_key,
            shared_secret: invite.shared_secret,
            inviter: invite.inviter,
            inviter_ephemeral_private_key: invite.inviter_ephemeral_private_key,
            device_id: match invite.device_id {
                Some(id) => Some(id.0),
                None => None,
            },
            max_uses: invite.max_uses,
            used_by: invite.used_by,
            created_at: invite.created_at.0,
            purpose: invite.purpose,
            owner_public_key: invite.owner_public_key,
        }
    }

    pub fn into_invite(self) -> (r: Invite)
        ensures
            r == invite_of(self),
    {
        Invite {
            inviter_ephemeral_public_key: self.inviter_ephemeral_public_key,
            shared_secret: self.shared_secret,
            inviter: self.inviter,
            inviter_ephemeral_private_key: self.inviter_ephemeral_private_key,
            device_id: match self.device_id {
                Some(id) => Some(DeviceId(id)),
                None => None,
            },
            max_uses: self.max_uses,
            used_by: self.used_by,
            created_at: UnixSeconds(self.created_at),
            purpose: self.purpose,
            owner_public_key: self.owner_public_key,
        }
    }

    fn as_invite(&self) -> (r: Invite)
        ensures
            r@ == self@,
    {
        Invite {
            inviter_ephemeral_public_key: self.inviter_ephemeral_public_key,
            shared_secret: self.shared_secret,
            inviter: self.inviter,
            inviter_ephemeral_private_key: self.inviter_ephemeral_private_key,
            device_id: match &self.device_id {
                Some(id) => Some(DeviceId(id.clone())),
                None => None,
            },
            max_uses: self.max_uses,
            used_by: copy_keys(&self.used_by),
            created_at: UnixSeconds(self.created_at),
            purpose: self.purpose.clone(),
            owner_public_key: self.owner_public_key,
        }
    }

    pub fn get_url(&self, root: &str) -> (r: Result<String, Error>)
        ensures
            r matches Ok(url) && url@ == invite_address(self@, root@, false),
            survives(self@, false),
    {
        self.as_invite().get_url(root)
    }

    pub fn from_url(url: &str) -> (r: Result<Self, Error>)
        ensures
            match r {
                Ok(actor) => invite_at(url@) == Ok::<InviteModel, Fault>(actor@),
                Err(e) => invite_at(url@) == Err::<InviteModel, Fault>(fault(e)),
            },
    {
        match Invite::from_url(url) {
            Ok(invite) => Ok(Self::from_invite(invite)),
            Err(e) => Err(e),
        }
    }

    pub fn get_event(&self) -> (r: Result<UnsignedEvent, Error>)
        ensures
            match r {
                Ok(event) => self@.device_id is Some && event@ == invite_event_body(
                    self@,
                    invite_base_tags(self@, self@.device_id->Some_0),
                ),
                Err(e) => self@.device_id is None && fault(e) == Fault::DeviceIdRequired,
            },
    {
        self.as_invite().get_event()
    }

    pub fn from_event(event: &Event) -> (r: Result<Self, Error>)
        ensures
            match r {
                Ok(actor) => invite_in(event@.body) == Ok::<InviteModel, Fault>(actor@),
                Err(e) => invite_in(event@.body) == Err::<InviteModel, Fault>(fault(e)),
            },
    {
        match Invite::from_event(event) {
            Ok(invite) => Ok(Self::from_invite(invite)),
            Err(e) => Err(e),
        }
    }

    pub fn serialize(&self) -> (r: Result<String, Error>)
        ensures
            r matches Ok(text) && text@ == json_text(stored_json(self@)) && stored_of(text@) == Some(
                self@,
            ),
    {
        self.as_invite().serialize()
    }

    pub fn deserialize(json: &str) -> (r: Result<Self, Error>)
        ensures
            r is Ok == stored_of(json@) is Some,
            r matches Ok(actor) ==> stored_of(json@) == Some(actor@),
            r matches Err(e) ==> fault(e) == Fault::Parse,
    {
        match Invite::deserialize(json) {
            Ok(invite) => Ok(Self::from_invite(invite)),
            Err(e) => Err(e),
        }
    }

    pub fn accept(
        &self,
        ctx: &mut ProtocolContext<'_>,
        invitee_public_key: DevicePubkey,
        invitee_private_key: [u8; 32],
        device_id: Option<String>,
    ) -> (r: Result<(Session, Event), Error>)
        ensures
            final(ctx).now_secs == old(ctx).now_secs,
            final(ctx).now_millis == old(ctx).now_millis,
            answers(
                self@,
                old(ctx).now_secs,
                invitee_public_key,
                invitee_private_key,
                text_of(device_id),
                None,
                r,
            ),
    {
        self.accept_with_owner(ctx, invitee_public_key, invitee_private_key, device_id, None)
    }

    /// Accepts the invite and signs the event that answers it. How often the
    /// invite has been used is for the inviter to see.
    pub fn accept_with_owner(
        &self,
        ctx: &mut ProtocolContext<'_>,
        invitee_public_key: DevicePubkey,
        invitee_private_key: [u8; 32],
        device_id: Option<String>,
        owner_public_key: Option<OwnerPubkey>,
    ) -> (r: Result<(Session, Event), Error>)
        ensures
            final(ctx).now_secs == old(ctx).now_secs,
            final(ctx).now_millis == old(ctx).now_millis,
            answers(
                self@,
                old(ctx).now_secs,
                invitee_public_key,
                invitee_private_key,
                text_of(device_id),
                owner_public_key,
                r,
            ),
    {
        let mut invite = self.as_invite();
        invite.max_uses = None;
        invite.used_by = Vec::new();
        assert(invite@ == unused(self@)) by {
            assert(invite@.used_by =~= Seq::empty());
        }
        let ghost name = text_of(device_id);
        let id = match device_id {
            Some(id) => Some(DeviceId(id)),
            None => None,
        };
        assert(device_name(id) == name);
        let (session, envelope) = match invite.accept_with_owner(
            ctx,
            invitee_public_key,
            invitee_private_key,
            id,
            owner_public_key,
        ) {
            Ok(answer) => answer,
            Err(e) => {
                assert(use_refusal(unused(self@), invitee_public_key) is None);
                return Err(e);
            },
        };
        assert(signer_fault(envelope.sender, envelope.signer_secret_key) is None);
        let event = match invite_response_event(&envelope) {
            Ok(event) => event,
            Err(e) => {
                return Err(e);
            },
        };
        let r: Result<(Session, Event), Error> = Ok((session, event));
        assert(answers_with(
            self@,
            old(ctx).now_secs,
            invitee_public_key,
            invitee_private_key,
            name,
            owner_public_key,
            r->Ok_0.0,
            envelope,
            r->Ok_0.1,
        ));
        r
    }

    /// Which events the answers to the invite are among.
    pub fn listen_filter(&self) -> (r: Filter)
        ensures
            r.kinds@ == seq![INVITE_RESPONSE_KIND as u16],
            r.authors@.len() == 0,
            r.pubkeys@ == seq![self.inviter_ephemeral_public_key],
            r.labels@.len() == 0,
    {
        listen_filter(&self.as_invite())
    }

    /// Which events the invites of a user are among.
    pub fn from_user_filter(user_pubkey: OwnerPubkey) -> (r: Filter)
        ensures
            r.kinds@ == seq![INVITE_EVENT_KIND as u16],
            r.authors@ == seq![user_pubkey.device()],
            r.pubkeys@.len() == 0,
            r.labels@.len() == 1,
            r.labels@[0]@ == crate::codec::nostr::INVITE_LIST_LABEL@,
    {
        from_user_filter(user_pubkey)
    }

    pub fn process_invite_response(&self, event: &Event, inviter_private_key: [u8; 32]) -> (r: Result<
        Option<InviteResponse>,
        Error,
    >)
        ensures
            match r {
                Ok(found) => {
                    let response = found->Some_0;
                    let told = process_leniently(self@, event@.body, inviter_private_key);
                    &&& found is Some
                    &&& told is Ok
                    &&& response.session@ == told->Ok_0.1
                    &&& response.session.name@ == event.id@
                    &&& response.invitee_identity == told->Ok_0.0.invitee
                    &&& text_of(response.device_id) == told->Ok_0.0.device_id
                    &&& response.owner_public_key == told->Ok_0.0.owner
                },
                Err(e) => process_leniently(self@, event@.body, inviter_private_key) == Err::<
                    (ResponseModel, SessionModel),
                    Fault,
                >(fault(e)),
            },
    {
        match process_invite_response(&self.as_invite(), event, inviter_private_key) {
            Err(e) => Err(e),
            Ok(None) => Ok(None),
            Ok(Some(processing)) => {
                let response = processing.response;
                Ok(
                    Some(
                        InviteResponse {
                            session: Session::new(response.session_state, event.id.clone()),
                            invitee_identity: response.invitee_identity,
                            device_id: match response.device_id {
                                Some(id) => Some(id.0),
                                None => None,
                            },
                            owner_public_key: response.owner_public_key,
                        },
                    ),
                )
            },
        }
    }
}

/// An invite that nobody has used and that has no limit.
pub open spec fn unused(invite: InviteModel) -> InviteModel {
    InviteModel { max_uses: None, used_by: Seq::empty(), ..invite }
}

/// Whether a session and a signed event answer an invite.
pub open spec fn answers_with(
    invite: InviteModel,
    now: UnixSeconds,
    invitee: DevicePubkey,
    invitee_secret: [u8; 32],
    device_id: Option<Seq<char>>,
    owner: Option<OwnerPubkey>,
    session: Session,
    envelope: InviteResponseEnvelope,
    event: Event,
) -> bool {
    &&& accepted(
        unused(invite),
        now,
        invitee,
        invitee_secret,
        device_id,
        owner,
        Ok((session, envelope)),
    )
    &&& signs(
        event@,
        response_event_body(
            envelope.sender,
            envelope.recipient,
            envelope.created_at,
            envelope.content@,
        ),
    )
}

/// Whether a result is that of answering an invite.
pub open spec fn answers(
    invite: InviteModel,
    now: UnixSeconds,
    invitee: DevicePubkey,
    invitee_secret: [u8; 32],
    device_id: Option<Seq<char>>,
    owner: Option<OwnerPubkey>,
    r: Result<(Session, Event), Error>,
) -> bool {
    if r is Ok {
        exists|envelope: InviteResponseEnvelope| #[trigger]
            answers_with(
                invite,
                now,
                invitee,
                invitee_secret,
                device_id,
                owner,
                r->Ok_0.0,
                envelope,
                r->Ok_0.1,
            )
    } else {
        accept_fails(
            unused(invite),
            now,
            invitee,
            invitee_secret,
            device_id,
            owner,
            fault(r->Err_0),
        )
    }
}

impl From<Invite> for InviteActor {
    fn from(invite: Invite) -> (r: Self) {
        Self::from_invite(invite)
    }
}

impl vstd::std_specs::convert::FromSpecImpl<Invite> for InviteActor {
    open spec fn obeys_from_spec() -> bool {
        true
    }

    open spec fn from_spec(invite: Invite) -> Self {
        actor_of(invite)
    }
}

impl From<InviteActor> for Invite {
    fn from(actor: InviteActor) -> (r: Self) {
        actor.into_invite()
    }
}

impl vstd::std_specs::convert::FromSpecImpl<InviteActor> for Invite {
    open spec fn obeys_from_spec() -> bool {
        true
    }

    open spec fn from_spec(actor: InviteActor) -> Self {
        invite_of(actor)
    }
}

} // verus!
