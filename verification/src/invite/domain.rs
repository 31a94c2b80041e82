//! Invites as functions of what chance and the clock give.
use vstd::prelude::*;
use vstd::utf8::{decode_utf8, valid_utf8};
use crate::codec::nostr::{
    address_json, base_tags, either_text, invite_address, invite_base_tags, invite_event_body,
    invite_response_event, response_event_body, signs, survives, write_invite_url, INVITE_LIST_LABEL,
};
use crate::crypto::{
    check_secret_key, decrypt, decrypted, open, opened, public_key_of,
};
use crate::encoding::{base64_bytes, base64_decode, hex_key, percent_decoded, utf8_decode};
use crate::error::{fault, CodecError, DomainError, Error, Fault};
use crate::event::{optional_tag_value, tag_value, Event, EventBody, UnsignedEvent};
use crate::ids::{device_key_of, DeviceId, DevicePubkey, OwnerPubkey, UnixSeconds};
use crate::invite::{
    contains_pubkey, device_name, outgrows, response_refusal, seal_response, tells_inviter, Invite,
    InviteModel, InviteResponseEnvelope, ResponseContent, ResponseInput, ResponseModel,
    ResponseParts,
};
use crate::json::{
    json_parsed, parse_json, text_field, Json, JsonValue,
};
use crate::session::domain::{first_state, init_state, SessionInitRuntime};
use crate::session::{SessionModel, SessionState};
use crate::text::{nth_part, part};
use crate::types::{INVITE_EVENT_KIND, INVITE_RESPONSE_KIND};

verus! {

#[derive(Debug, Clone, Copy)]
pub struct InviteCreateRuntime {
    pub inviter_ephemeral_private_key: [u8; 32],
    pub shared_secret: [u8; 32],
    pub created_at: u64,
}

/// A new invite.
pub open spec fn new_invite(
    inviter: OwnerPubkey,
    device_id: Option<Seq<char>>,
    max_uses: Option<usize>,
    runtime: InviteCreateRuntime,
    ephemeral_key: DevicePubkey,
) -> InviteModel {
    InviteModel {
        ephemeral_key,
        shared_secret: runtime.shared_secret,
        inviter,
        ephemeral_secret: Some(runtime.inviter_ephemeral_private_key),
        device_id,
        max_uses,
        used_by: Seq::empty(),
        created_at: UnixSeconds(runtime.created_at),
        purpose: None,
        owner: None,
    }
}

pub fn create_invite(
    inviter: OwnerPubkey,
    device_id: Option<DeviceId>,
    max_uses: Option<usize>,
    runtime: InviteCreateRuntime,
) -> (r: Result<Invite, Error>)
    ensures
        match r {
            Ok(invite) => device_key_of(runtime.inviter_ephemeral_private_key) is Some && invite@
                == new_invite(
                inviter,
                device_name(device_id),
                max_uses,
                runtime,
                device_key_of(runtime.inviter_ephemeral_private_key)->Some_0,
            ),
            Err(e) => fault(e) == Fault::NostrKey && device_key_of(
                runtime.inviter_ephemeral_private_key,
            ) is None,
        },
{
    let inviter_ephemeral_public_key = match DevicePubkey::from_secret_bytes(
        &runtime.inviter_ephemeral_private_key,
    ) {
        Ok(key) => key,
        Err(e) => {
            return Err(e);
        },
    };
    let invite = Invite {
        inviter_ephemeral_public_key,
        shared_secret: runtime.shared_secret,
        inviter,
        inviter_ephemeral_private_key: Some(runtime.inviter_ephemeral_private_key),
        device_id,
        max_uses,
        used_by: Vec::new(),
        created_at: UnixSeconds(runtime.created_at),
        purpose: None,
        owner_public_key: None,
    };
    assert(invite@.used_by =~= Seq::empty());
    Ok(invite)
}

// ---------------------------------------------------------------------------
// Addresses and events
// ---------------------------------------------------------------------------

pub fn invite_url(invite: &Invite, root: &str) -> (r: Result<String, Error>)
    ensures
        r matches Ok(url) && url@ == invite_address(invite@, root@, false),
        survives(invite@, false),
{
    Ok(write_invite_url(invite, root, false))
}

fn invite_error(text: &str) -> (r: Error)
    ensures
        fault(r) == Fault::InvalidInvite,
{
    Error::Codec(CodecError::Invite(text.to_string()))
}

fn hex_pubkey(text: &str) -> (r: Result<DevicePubkey, Error>)
    ensures
        match r {
            Ok(key) => hex_key(text@) == Some(key.0),
            Err(e) => hex_key(text@) is None && fault(e) == Fault::Parse,
        },
{
    match DevicePubkey::parse_hex(text) {
        Ok(key) => Ok(key),
        Err(e) => Err(Error::Parse(e)),
    }
}

/// An owner that is named in hexadecimal; a name that is no key is passed over.
pub open spec fn lenient_owner(name: Option<Seq<char>>) -> Option<OwnerPubkey> {
    match name {
        Some(text) => match hex_key(text) {
            Some(key) => Some(OwnerPubkey(key)),
            None => None,
        },
        None => None,
    }
}

fn read_owner(name: Option<&String>) -> (r: Option<OwnerPubkey>)
    ensures
        r == lenient_owner(
            match name {
                Some(text) => Some(text@),
                None => None,
            },
        ),
{
    match name {
        Some(text) => match OwnerPubkey::parse_hex(text.as_str()) {
            Ok(key) => Some(key),
            Err(_) => None,
        },
        None => None,
    }
}

/// The invite that a JSON value is.
pub open spec fn url_invite(value: JsonValue) -> Result<InviteModel, Fault> {
    match text_field(value, "inviter"@) {
        None => Err(Fault::InvalidInvite),
        Some(inviter) => match hex_key(inviter) {
            None => Err(Fault::Parse),
            Some(inviter) => match either_text(
                value,
                "ephemeralKey"@,
                "inviterEphemeralPublicKey"@,
            ) {
                None => Err(Fault::InvalidInvite),
                Some(key) => match hex_key(key) {
                    None => Err(Fault::Parse),
                    Some(key) => match text_field(value, "sharedSecret"@) {
                        None => Err(Fault::InvalidInvite),
                        Some(secret) => match hex_key(secret) {
                            None => Err(Fault::Parse),
                            Some(secret) => Ok(
                                InviteModel {
                                    ephemeral_key: DevicePubkey(key),
                                    shared_secret: secret,
                                    inviter: OwnerPubkey(inviter),
                                    ephemeral_secret: None,
                                    device_id: None,
                                    max_uses: None,
                                    used_by: Seq::empty(),
                                    created_at: UnixSeconds(0),
                                    purpose: text_field(value, "purpose"@),
                                    owner: lenient_owner(
                                        either_text(value, "owner"@, "ownerPubkey"@),
                                    ),
                                },
                            ),
                        },
                    },
                },
            },
        },
    }
}

/// The invite that an address is.
pub open spec fn invite_at(url: Seq<char>) -> Result<InviteModel, Fault> {
    match part(url, '#', 1) {
        None => Err(Fault::InvalidInvite),
        Some(hash) => match percent_decoded(hash) {
            None => Err(Fault::InvalidInvite),
            Some(text) => match json_parsed(text) {
                None => Err(Fault::Parse),
                Some(value) => url_invite(value),
            },
        },
    }
}

pub fn invite_from_url(url: &str) -> (r: Result<Invite, Error>)
    ensures
        match r {
            Ok(invite) => invite_at(url@) == Ok::<InviteModel, Fault>(invite@),
            Err(e) => invite_at(url@) == Err::<InviteModel, Fault>(fault(e)),
        },
{
    let data = match address_json(url) {
        Ok(json) => json,
        Err(e) => {
            return Err(e);
        },
    };
    let inviter = match data.text_field("inviter") {
        Some(text) => match hex_pubkey(text.as_str()) {
            Ok(key) => key,
            Err(e) => {
                return Err(e);
            },
        },
        None => {
            return Err(invite_error("Missing inviter"));
        },
    };
    let ephemeral_text = match data.text_field("ephemeralKey") {
        Some(text) => Some(text),
        None => data.text_field("inviterEphemeralPublicKey"),
    };
    let ephemeral = match ephemeral_text {
        Some(text) => match hex_pubkey(text.as_str()) {
            Ok(key) => key,
            Err(e) => {
                return Err(e);
            },
        },
        None => {
            return Err(invite_error("Missing ephemeralKey"));
        },
    };
    let shared_secret = match data.text_field("sharedSecret") {
        Some(text) => match hex_pubkey(text.as_str()) {
            Ok(bytes) => bytes,
            Err(e) => {
                return Err(e);
            },
        },
        None => {
            return Err(invite_error("Missing sharedSecret"));
        },
    };
    let owner_text = match data.text_field("owner") {
        Some(text) => Some(text),
        None => data.text_field("ownerPubkey"),
    };
    let purpose = match data.text_field("purpose") {
        Some(text) => Some(text.clone()),
        None => None,
    };
    let invite = Invite {
        inviter_ephemeral_public_key: ephemeral,
        shared_secret: shared_secret.0,
        inviter: inviter.as_owner(),
        inviter_ephemeral_private_key: None,
        device_id: None,
        max_uses: None,
        used_by: Vec::new(),
        created_at: UnixSeconds(0),
        purpose,
        owner_public_key: read_owner(owner_text),
    };
    assert(invite@.used_by =~= Seq::empty());
    Ok(invite)
}

pub fn invite_event(invite: &Invite) -> (r: Result<UnsignedEvent, Error>)
    ensures
        match r {
            Ok(event) => invite@.device_id is Some && event@ == invite_event_body(
                invite@,
                invite_base_tags(invite@, invite@.device_id->Some_0),
            ),
            Err(e) => invite@.device_id is None && fault(e) == Fault::DeviceIdRequired,
        },
{
    let device_id = match &invite.device_id {
        Some(id) => id,
        None => {
            return Err(Error::Domain(DomainError::DeviceIdRequired));
        },
    };
    let event = UnsignedEvent {
        pubkey: invite.inviter.as_device(),
        created_at: invite.created_at,
        kind: INVITE_EVENT_KIND as u16,
        tags: base_tags(invite, device_id),
        content: String::new(),
    };
    assert(event@.content =~= Seq::empty());
    Ok(event)
}

/// The device that the name of an invite gives: its third part, unless that is
/// `public`.
pub open spec fn named_device(name: Option<Seq<char>>) -> Option<Seq<char>> {
    match name {
        Some(name) => match part(name, '/', 2) {
            Some(id) if id != "public"@ => Some(id),
            _ => None,
        },
        None => None,
    }
}

/// The invite that an event carries, its signature taken on trust.
pub open spec fn invite_in(event: EventBody) -> Result<InviteModel, Fault> {
    match (tag_value(event.tags, "ephemeralKey"@), tag_value(event.tags, "sharedSecret"@)) {
        (Some(key), Some(secret)) => match (hex_key(key), hex_key(secret)) {
            (Some(key), Some(secret)) => Ok(
                InviteModel {
                    ephemeral_key: DevicePubkey(key),
                    shared_secret: secret,
                    inviter: event.pubkey.owner(),
                    ephemeral_secret: None,
                    device_id: named_device(tag_value(event.tags, "d"@)),
                    max_uses: None,
                    used_by: Seq::empty(),
                    created_at: event.created_at,
                    purpose: None,
                    owner: None,
                },
            ),
            _ => Err(Fault::Parse),
        },
        _ => Err(Fault::InvalidInvite),
    }
}

pub fn invite_from_event(event: &Event) -> (r: Result<Invite, Error>)
    ensures
        match r {
            Ok(invite) => invite_in(event@.body) == Ok::<InviteModel, Fault>(invite@),
            Err(e) => invite_in(event@.body) == Err::<InviteModel, Fault>(fault(e)),
        },
{
    let ephemeral_text = match optional_tag_value(&event.tags, "ephemeralKey") {
        Some(text) => text,
        None => {
            return Err(invite_error("Missing ephemeralKey tag"));
        },
    };
    let secret_text = match optional_tag_value(&event.tags, "sharedSecret") {
        Some(text) => text,
        None => {
            return Err(invite_error("Missing sharedSecret tag"));
        },
    };
    let device_id = match optional_tag_value(&event.tags, "d") {
        Some(name) => match nth_part(name.as_str(), '/', 2) {
            Some(id) => if crate::order::same_str(id.as_str(), "public") {
                None
            } else {
                Some(DeviceId(id))
            },
            None => None,
        },
        None => None,
    };
    let ephemeral = match hex_pubkey(ephemeral_text.as_str()) {
        Ok(key) => key,
        Err(e) => {
            return Err(e);
        },
    };
    let secret = match hex_pubkey(secret_text.as_str()) {
        Ok(bytes) => bytes,
        Err(e) => {
            return Err(e);
        },
    };
    let invite = Invite {
        inviter_ephemeral_public_key: ephemeral,
        shared_secret: secret.0,
        inviter: event.pubkey.as_owner(),
        inviter_ephemeral_private_key: None,
        device_id,
        max_uses: None,
        used_by: Vec::new(),
        created_at: event.created_at,
        purpose: None,
        owner_public_key: None,
    };
    assert(invite@.used_by =~= Seq::empty());
    Ok(invite)
}

// ---------------------------------------------------------------------------
// Accepting
// ---------------------------------------------------------------------------

#[derive(Debug, Clone, Copy)]
pub struct InviteAcceptRuntime {
    pub invitee_session_private_key: [u8; 32],
    pub random_sender_private_key: [u8; 32],
    pub inner_created_at: u64,
    pub envelope_created_at: u64,
    pub session_init: SessionInitRuntime,
}

#[derive(Debug)]
pub struct InviteAcceptResult {
    pub next_invite: Invite,
    pub session_state: SessionState,
    pub response_event: Event,
}

/// What the response to an invite is made from.
pub open spec fn accept_parts(
    invitee: DevicePubkey,
    invitee_secret: [u8; 32],
    device_id: Option<Seq<char>>,
    owner: Option<OwnerPubkey>,
    runtime: InviteAcceptRuntime,
    session_key: DevicePubkey,
) -> ResponseParts {
    ResponseParts {
        response: ResponseModel { invitee, session_key, device_id, owner },
        invitee_secret,
        sender_secret: runtime.random_sender_private_key,
        created_at: UnixSeconds(runtime.inner_created_at),
        by_name: true,
    }
}

/// The state in which the session of one who accepts starts.
pub open spec fn accept_state(invite: InviteModel, runtime: InviteAcceptRuntime) -> Result<
    SessionModel,
    Fault,
> {
    first_state(
        invite.ephemeral_key,
        runtime.invitee_session_private_key,
        true,
        invite.shared_secret,
        runtime.session_init.our_next_private_key,
    )
}

pub fn accept_invite(
    invite: &Invite,
    invitee_public_key: DevicePubkey,
    invitee_private_key: [u8; 32],
    device_id: Option<DeviceId>,
    owner_public_key: Option<OwnerPubkey>,
    runtime: InviteAcceptRuntime,
) -> (r: Result<InviteAcceptResult, Error>)
    ensures
        ({
            let parts = accept_parts(
                invitee_public_key,
                invitee_private_key,
                device_name(device_id),
                owner_public_key,
                runtime,
                device_key_of(runtime.invitee_session_private_key)->Some_0,
            );
            match r {
                Ok(accepted) => {
                    let event = accepted.response_event@;
                    &&& accept_state(invite@, runtime) == Ok::<SessionModel, Fault>(
                        accepted.session_state@,
                    )
                    &&& response_refusal(invite@, parts) is None
                    &&& accepted.next_invite@ == invite@
                    &&& device_key_of(runtime.random_sender_private_key) == Some(event.body.pubkey)
                    &&& signs(
                        event,
                        response_event_body(
                            event.body.pubkey,
                            invite@.ephemeral_key,
                            UnixSeconds(runtime.envelope_created_at),
                            event.body.content,
                        ),
                    )
                    &&& tells_inviter(invite@, parts, event.body.content)
                },
                Err(e) => match accept_state(invite@, runtime) {
                    Err(f) => fault(e) == f,
                    Ok(_) => response_refusal(invite@, parts) == Some(fault(e)) || (fault(e)
                        == Fault::Nip44 && outgrows(invite@, parts)),
                },
            }
        }),
{
    let session_state = match init_state(
        invite.inviter_ephemeral_public_key,
        runtime.invitee_session_private_key,
        true,
        invite.shared_secret,
        runtime.session_init,
    ) {
        Ok(state) => state,
        Err(e) => {
            return Err(e);
        },
    };
    let session_key = match DevicePubkey::from_secret_bytes(&runtime.invitee_session_private_key) {
        Ok(key) => key,
        Err(e) => {
            return Err(e);
        },
    };
    let input = ResponseInput {
        invitee_public_key,
        invitee_private_key,
        session_key,
        device_id,
        owner_public_key,
        sender_private_key: runtime.random_sender_private_key,
        created_at: UnixSeconds(runtime.inner_created_at),
        by_name: true,
    };
    let content = match seal_response(invite, &input) {
        Ok(content) => content,
        Err(e) => {
            return Err(e);
        },
    };
    let sender = match DevicePubkey::from_secret_bytes(&runtime.random_sender_private_key) {
        Ok(key) => key,
        Err(e) => {
            return Err(e);
        },
    };
    let envelope = InviteResponseEnvelope {
        sender,
        signer_secret_key: runtime.random_sender_private_key,
        recipient: invite.inviter_ephemeral_public_key,
        created_at: UnixSeconds(runtime.envelope_created_at),
        content,
    };
    match invite_response_event(&envelope) {
        Ok(response_event) => Ok(
            InviteAcceptResult { next_invite: invite.clone(), session_state, response_event },
        ),
        Err(e) => Err(e),
    }
}

// ---------------------------------------------------------------------------
// Processing
// ---------------------------------------------------------------------------

#[derive(Debug)]
pub struct InviteResponseState {
    pub session_state: SessionState,
    pub invitee_identity: DevicePubkey,
    pub device_id: Option<DeviceId>,
    pub owner_public_key: Option<OwnerPubkey>,
}

#[derive(Debug)]
pub struct InviteResponseProcessing {
    pub next_invite: Invite,
    pub response: InviteResponseState,
}

/// The session key, device and owner that a payload gives: a JSON object, or
/// the session key alone.
pub open spec fn lenient_payload(text: Seq<char>, invitee: DevicePubkey) -> Result<
    ResponseModel,
    Fault,
> {
    match json_parsed(text) {
        Some(payload) => match text_field(payload, "sessionKey"@) {
            None => Err(Fault::InvalidInvite),
            Some(key) => match hex_key(key) {
                None => Err(Fault::Parse),
                Some(key) => Ok(
                    ResponseModel {
                        invitee,
                        session_key: DevicePubkey(key),
                        device_id: text_field(payload, "deviceId"@),
                        owner: lenient_owner(text_field(payload, "ownerPublicKey"@)),
                    },
                ),
            },
        },
        None => match hex_key(text) {
            None => Err(Fault::Parse),
            Some(key) => Ok(
                ResponseModel {
                    invitee,
                    session_key: DevicePubkey(key),
                    device_id: None,
                    owner: None,
                },
            ),
        },
    }
}

/// What the middle layer's content tells the inviter.
pub open spec fn lenient_content(
    shared_secret: [u8; 32],
    inviter_secret: [u8; 32],
    invitee: DevicePubkey,
    content: Seq<char>,
) -> Result<ResponseModel, Fault> {
    match base64_bytes(content) {
        None => Err(Fault::Parse),
        Some(payload) => match opened(shared_secret, payload) {
            None => Err(Fault::Nip44),
            Some(bytes) => if !valid_utf8(bytes) {
                Err(Fault::Parse)
            } else if public_key_of(inviter_secret) is None {
                Err(Fault::NostrKey)
            } else {
                match decrypted(inviter_secret, invitee.0, decode_utf8(bytes)) {
                    None => Err(Fault::Nip44),
                    Some(text) => lenient_payload(text, invitee),
                }
            },
        },
    }
}

/// What a response tells the inviter.
pub open spec fn lenient_response(
    ephemeral_secret: [u8; 32],
    shared_secret: [u8; 32],
    inviter_secret: [u8; 32],
    sender: DevicePubkey,
    content: Seq<char>,
) -> Result<ResponseModel, Fault> {
    if public_key_of(ephemeral_secret) is None {
        Err(Fault::NostrKey)
    } else {
        match decrypted(ephemeral_secret, sender.0, content) {
            None => Err(Fault::Nip44),
            Some(text) => match json_parsed(text) {
                None => Err(Fault::Parse),
                Some(inner) => match text_field(inner, "pubkey"@) {
                    None => Err(Fault::InvalidInvite),
                    Some(key) => match hex_key(key) {
                        None => Err(Fault::Parse),
                        Some(key) => match text_field(inner, "content"@) {
                            None => Err(Fault::InvalidInvite),
                            Some(inner_content) => lenient_content(
                                shared_secret,
                                inviter_secret,
                                DevicePubkey(key),
                                inner_content,
                            ),
                        },
                    },
                },
            },
        }
    }
}

/// Processing a response: what it tells and the session that it starts.
pub open spec fn process_leniently(
    invite: InviteModel,
    event: EventBody,
    inviter_secret: [u8; 32],
) -> Result<(ResponseModel, SessionModel), Fault> {
    match invite.ephemeral_secret {
        None => Err(Fault::InvalidInvite),
        Some(ephemeral) => match lenient_response(
            ephemeral,
            invite.shared_secret,
            inviter_secret,
            event.pubkey,
            event.content,
        ) {
            Err(f) => Err(f),
            Ok(response) => match first_state(
                response.session_key,
                ephemeral,
                false,
                invite.shared_secret,
                None,
            ) {
                Err(f) => Err(f),
                Ok(state) => Ok((response, state)),
            },
        },
    }
}

fn read_payload(text: &str, invitee: DevicePubkey) -> (r: Result<ResponseContent, Error>)
    ensures
        match r {
            Ok(response) => lenient_payload(text@, invitee) == Ok::<ResponseModel, Fault>(
                response@,
            ),
            Err(e) => lenient_payload(text@, invitee) == Err::<ResponseModel, Fault>(fault(e)),
        },
{
    match parse_json(text) {
        Ok(payload) => {
            let session_key = match payload.text_field("sessionKey") {
                Some(text) => match hex_pubkey(text.as_str()) {
                    Ok(key) => key,
                    Err(e) => {
                        return Err(e);
                    },
                },
                None => {
                    return Err(invite_error("Missing sessionKey"));
                },
            };
            let device_id = match payload.text_field("deviceId") {
                Some(text) => Some(DeviceId::new(text.as_str())),
                None => None,
            };
            let owner = read_owner(payload.text_field("ownerPublicKey"));
            Ok(ResponseContent { invitee, session_key, device_id, owner })
        },
        Err(_) => match hex_pubkey(text) {
            Ok(session_key) => Ok(
                ResponseContent { invitee, session_key, device_id: None, owner: None },
            ),
            Err(e) => Err(e),
        },
    }
}

fn read_content(
    shared_secret: &[u8; 32],
    inviter_private_key: &[u8; 32],
    invitee: DevicePubkey,
    content: &str,
) -> (r: Result<ResponseContent, Error>)
    ensures
        match r {
            Ok(response) => lenient_content(
                *shared_secret,
                *inviter_private_key,
                invitee,
                content@,
            ) == Ok::<ResponseModel, Fault>(response@),
            Err(e) => lenient_content(
                *shared_secret,
                *inviter_private_key,
                invitee,
                content@,
            ) == Err::<ResponseModel, Fault>(fault(e)),
        },
{
    let payload = match base64_decode(content) {
        Ok(bytes) => bytes,
        Err(e) => {
            return Err(Error::Parse(e));
        },
    };
    let bytes = match open(shared_secret, &payload) {
        Ok(bytes) => bytes,
        Err(e) => {
            return Err(Error::Nip44(e));
        },
    };
    let sealed = match utf8_decode(bytes) {
        Ok(text) => text,
        Err(e) => {
            return Err(Error::Parse(e));
        },
    };
    match check_secret_key(inviter_private_key) {
        Ok(()) => {},
        Err(e) => {
            return Err(Error::NostrKey(e));
        },
    }
    match decrypt(inviter_private_key, &invitee.0, sealed.as_str()) {
        Ok(text) => read_payload(text.as_str(), invitee),
        Err(e) => Err(Error::Nip44(e)),
    }
}

fn read_response_event(
    ephemeral_private_key: &[u8; 32],
    shared_secret: &[u8; 32],
    inviter_private_key: &[u8; 32],
    event: &Event,
) -> (r: Result<ResponseContent, Error>)
    ensures
        match r {
            Ok(response) => lenient_response(
                *ephemeral_private_key,
                *shared_secret,
                *inviter_private_key,
                event.pubkey,
                event.content@,
            ) == Ok::<ResponseModel, Fault>(response@),
            Err(e) => lenient_response(
                *ephemeral_private_key,
                *shared_secret,
                *inviter_private_key,
                event.pubkey,
                event.content@,
            ) == Err::<ResponseModel, Fault>(fault(e)),
        },
{
    match check_secret_key(ephemeral_private_key) {
        Ok(()) => {},
        Err(e) => {
            return Err(Error::NostrKey(e));
        },
    }
    let text = match decrypt(ephemeral_private_key, &event.pubkey.0, event.content.as_str()) {
        Ok(text) => text,
        Err(e) => {
            return Err(Error::Nip44(e));
        },
    };
    let inner: Json = match parse_json(text.as_str()) {
        Ok(json) => json,
        Err(e) => {
            return Err(Error::Parse(e));
        },
    };
    let invitee = match inner.text_field("pubkey") {
        Some(text) => match hex_pubkey(text.as_str()) {
            Ok(key) => key,
            Err(e) => {
                return Err(e);
            },
        },
        None => {
            return Err(invite_error("Missing pubkey"));
        },
    };
    match inner.text_field("content") {
        Some(content) => read_content(
            shared_secret,
            inviter_private_key,
            invitee,
            content.as_str(),
        ),
        None => Err(invite_error("Missing content")),
    }
}

pub fn process_invite_response(invite: &Invite, event: &Event, inviter_private_key: [u8; 32]) -> (r:
    Result<Option<InviteResponseProcessing>, Error>)
    ensures
        match r {
            Ok(found) => {
                let processing = found->Some_0;
                let told = process_leniently(invite@, event@.body, inviter_private_key);
                &&& found is Some
                &&& told is Ok
                &&& processing.response.session_state@ == told->Ok_0.1
                &&& processing.response.invitee_identity == told->Ok_0.0.invitee
                &&& device_name(processing.response.device_id) == told->Ok_0.0.device_id
                &&& processing.response.owner_public_key == told->Ok_0.0.owner
                &&& processing.next_invite@ == (InviteModel {
                    used_by: if invite@.used_by.contains(told->Ok_0.0.invitee) {
                        invite@.used_by
                    } else {
                        invite@.used_by.push(told->Ok_0.0.invitee)
                    },
                    ..invite@
                })
            },
            Err(e) => process_leniently(invite@, event@.body, inviter_private_key) == Err::<
                (ResponseModel, SessionModel),
                Fault,
            >(fault(e)),
        },
{
    let ephemeral: [u8; 32] = match invite.inviter_ephemeral_private_key {
        Some(key) => key,
        None => {
            return Err(invite_error("Ephemeral key not available"));
        },
    };
    let response = match read_response_event(
        &ephemeral,
        &invite.shared_secret,
        &inviter_private_key,
        event,
    ) {
        Ok(response) => response,
        Err(e) => {
            return Err(e);
        },
    };
    let session_state = match init_state(
        response.session_key,
        ephemeral,
        false,
        invite.shared_secret,
        SessionInitRuntime { our_next_private_key: None },
    ) {
        Ok(state) => state,
        Err(e) => {
            return Err(e);
        },
    };
    let mut next_invite = invite.clone();
    if !contains_pubkey(&next_invite.used_by, &response.invitee) {
        next_invite.used_by.push(response.invitee);
    }
    Ok(
        Some(
            InviteResponseProcessing {
                next_invite,
                response: InviteResponseState {
                    session_state,
                    invitee_identity: response.invitee,
                    device_id: response.device_id,
                    owner_public_key: response.owner,
                },
            },
        ),
    )
}

// ---------------------------------------------------------------------------
// What to listen to
// ---------------------------------------------------------------------------

/// Which events are asked for: those of one of the kinds, by one of the
/// authors, that name one of the keys and carry one of the labels. An empty
/// list asks for nothing in particular.
#[derive(Debug)]
pub struct Filter {
    pub kinds: Vec<u16>,
    pub authors: Vec<DevicePubkey>,
    pub pubkeys: Vec<DevicePubkey>,
    pub labels: Vec<String>,
}

/// What a filter asks for.
#[verifier::ext_equal]
pub struct FilterModel {
    pub kinds: Seq<u16>,
    pub authors: Seq<DevicePubkey>,
    pub pubkeys: Seq<DevicePubkey>,
    pub labels: Seq<Seq<char>>,
}

impl View for Filter {
    type V = FilterModel;

    open spec fn view(&self) -> FilterModel {
        FilterModel {
            kinds: self.kinds@,
            authors: self.authors@,
            pubkeys: self.pubkeys@,
            labels: crate::event::texts(self.labels@),
        }
    }
}

pub fn listen_filter(invite: &Invite) -> (r: Filter)
    ensures
        r.kinds@ == seq![INVITE_RESPONSE_KIND as u16],
        r.authors@.len() == 0,
        r.pubkeys@ == seq![invite.inviter_ephemeral_public_key],
        r.labels@.len() == 0,
{
    let mut kinds: Vec<u16> = Vec::new();
    kinds.push(INVITE_RESPONSE_KIND as u16);
    let mut pubkeys: Vec<DevicePubkey> = Vec::new();
    pubkeys.push(invite.inviter_ephemeral_public_key);
    assert(kinds@ =~= seq![INVITE_RESPONSE_KIND as u16]);
    assert(pubkeys@ =~= seq![invite.inviter_ephemeral_public_key]);
    Filter { kinds, authors: Vec::new(), pubkeys, labels: Vec::new() }
}

pub fn from_user_filter(user_pubkey: OwnerPubkey) -> (r: Filter)
    ensures
        r.kinds@ == seq![INVITE_EVENT_KIND as u16],
        r.authors@ == seq![user_pubkey.device()],
        r.pubkeys@.len() == 0,
        r.labels@.len() == 1,
        r.labels@[0]@ == INVITE_LIST_LABEL@,
{
    let mut kinds: Vec<u16> = Vec::new();
    kinds.push(INVITE_EVENT_KIND as u16);
    let mut authors: Vec<DevicePubkey> = Vec::new();
    authors.push(user_pubkey.as_device());
    let mut labels: Vec<String> = Vec::new();
    labels.push(INVITE_LIST_LABEL.to_string());
    assert(kinds@ =~= seq![INVITE_EVENT_KIND as u16]);
    assert(authors@ =~= seq![user_pubkey.device()]);
    Filter { kinds, authors, pubkeys: Vec::new(), labels }
}

} // verus!
