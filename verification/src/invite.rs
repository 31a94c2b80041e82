//! Invites, and the responses that start a session from them.
use vstd::prelude::*;
use vstd::utf8::{decode_utf8, encode_utf8, valid_utf8};
use crate::app_keys::AppKeys;
use crate::crypto::{
    check_secret_key, conversation_key_of, decrypt, decrypted, encrypt, ends_of, open, opened,
    public_key_of, seal, sealable,
};
use crate::encoding::{
    base64_bytes, base64_decode, base64_encode, hex_key, hex_key_round_trip, hex_text, utf8_decode,
};
use crate::error::{fault, DomainError, Error, Fault};
use crate::ids::{device_key_of, DeviceId, DevicePubkey, OwnerPubkey, UnixSeconds};
use crate::json::{
    as_record, field_absent, json_text, lemma_members, maybe_member, parse_record, plain, print_json, push_field,
    record_parsed, strs, text_field, uint_field, Json, JsonValue,
};
use crate::rumor::text_of;
use crate::session::domain::{agrees_with, first_state};
use crate::session::{init_fails, Session, SessionModel};
use crate::types::{chance_fails, random_secret_key_bytes, random_u64, ProtocolContext};

pub mod domain;
pub mod properties;
pub mod stored;

verus! {

/// An offer to start a session. The inviter's own copy holds the ephemeral
/// private key.
#[derive(Debug)]
pub struct Invite {
    pub inviter_ephemeral_public_key: DevicePubkey,
    pub shared_secret: [u8; 32],
    pub inviter: OwnerPubkey,
    pub inviter_ephemeral_private_key: Option<[u8; 32]>,
    pub device_id: Option<DeviceId>,
    pub max_uses: Option<usize>,
    pub used_by: Vec<DevicePubkey>,
    pub created_at: UnixSeconds,
    pub purpose: Option<String>,
    pub owner_public_key: Option<OwnerPubkey>,
}

/// What an invite says.
#[verifier::ext_equal]
pub struct InviteModel {
    pub ephemeral_key: DevicePubkey,
    pub shared_secret: [u8; 32],
    pub inviter: OwnerPubkey,
    pub ephemeral_secret: Option<[u8; 32]>,
    pub device_id: Option<Seq<char>>,
    pub max_uses: Option<usize>,
    pub used_by: Seq<DevicePubkey>,
    pub created_at: UnixSeconds,
    pub purpose: Option<Seq<char>>,
    pub owner: Option<OwnerPubkey>,
}

/// The name that an optional device id holds.
pub open spec fn device_name(device_id: Option<DeviceId>) -> Option<Seq<char>> {
    match device_id {
        Some(id) => Some(id@),
        None => None,
    }
}

impl View for Invite {
    type V = InviteModel;

    open spec fn view(&self) -> InviteModel {
        InviteModel {
            ephemeral_key: self.inviter_ephemeral_public_key,
            shared_secret: self.shared_secret,
            inviter: self.inviter,
            ephemeral_secret: self.inviter_ephemeral_private_key,
            device_id: device_name(self.device_id),
            max_uses: self.max_uses,
            used_by: self.used_by@,
            created_at: self.created_at,
            purpose: text_of(self.purpose),
            owner: self.owner_public_key,
        }
    }
}

/// The same keys once more.
pub fn copy_keys(keys: &Vec<DevicePubkey>) -> (r: Vec<DevicePubkey>)
    ensures
        r@ == keys@,
{
    let r = keys.clone();
    assert(r@ =~= keys@);
    r
}

impl Clone for Invite {
    fn clone(&self) -> (r: Self)
        ensures
            r@ == self@,
    {
        Invite {
            inviter_ephemeral_public_key: self.inviter_ephemeral_public_key,
            shared_secret: self.shared_secret,
            inviter: self.inviter,
            inviter_ephemeral_private_key: self.inviter_ephemeral_private_key,
            device_id: self.device_id.clone(),
            max_uses: self.max_uses,
            used_by: copy_keys(&self.used_by),
            created_at: self.created_at,
            purpose: self.purpose.clone(),
            owner_public_key: self.owner_public_key,
        }
    }
}

/// A response on its way out, with the key that its event is signed with.
#[derive(Debug)]
pub struct InviteResponseEnvelope {
    pub sender: DevicePubkey,
    pub signer_secret_key: [u8; 32],
    pub recipient: DevicePubkey,
    pub created_at: UnixSeconds,
    pub content: String,
}

pub type OutgoingInviteResponseEnvelope = InviteResponseEnvelope;

#[derive(Debug)]
pub struct IncomingInviteResponseEnvelope {
    pub sender: DevicePubkey,
    pub created_at: UnixSeconds,
    pub content: String,
}

impl Clone for InviteResponseEnvelope {
    fn clone(&self) -> (r: Self)
        ensures
            r == *self,
    {
        InviteResponseEnvelope {
            sender: self.sender,
            signer_secret_key: self.signer_secret_key,
            recipient: self.recipient,
            created_at: self.created_at,
            content: self.content.clone(),
        }
    }
}

impl Clone for IncomingInviteResponseEnvelope {
    fn clone(&self) -> (r: Self)
        ensures
            r == *self,
    {
        IncomingInviteResponseEnvelope {
            sender: self.sender,
            created_at: self.created_at,
            content: self.content.clone(),
        }
    }
}

/// A session that an invite led to, and who is at its other end.
#[derive(Debug)]
pub struct InviteResponse {
    pub session: Session,
    pub invitee_identity: DevicePubkey,
    pub device_id: Option<DeviceId>,
    pub owner_public_key: Option<OwnerPubkey>,
}

/// The owner of a device: the one that it claims, or else itself.
pub open spec fn resolved_owner(invitee: DevicePubkey, owner: Option<OwnerPubkey>) -> OwnerPubkey {
    match owner {
        Some(owner) => owner,
        None => invitee.owner(),
    }
}

/// Whether a device's claim to an owner holds: it is its own, or the owner's
/// devices have it.
pub open spec fn claim_holds(
    invitee: DevicePubkey,
    owner: Option<OwnerPubkey>,
    devices: Option<Set<DevicePubkey>>,
) -> bool {
    resolved_owner(invitee, owner) == invitee.owner() || (devices is Some
        && devices->Some_0.contains(invitee))
}

/// The devices of an owner whose devices are known.
pub open spec fn known_devices(app_keys: Option<&AppKeys>) -> Option<Set<DevicePubkey>> {
    match app_keys {
        Some(keys) => Some(keys@.devices.dom()),
        None => None,
    }
}

impl InviteResponse {
    pub fn resolved_owner_pubkey(&self) -> (r: OwnerPubkey)
        ensures
            r == resolved_owner(self.invitee_identity, self.owner_public_key),
    {
        match self.owner_public_key {
            Some(owner) => owner,
            None => self.invitee_identity.as_owner(),
        }
    }

    pub fn has_verified_owner_claim(&self, app_keys: Option<&AppKeys>) -> (r: bool)
        ensures
            r == claim_holds(
                self.invitee_identity,
                self.owner_public_key,
                known_devices(app_keys),
            ),
    {
        let owner = self.resolved_owner_pubkey();
        if owner == self.invitee_identity.as_owner() {
            return true;
        }
        match app_keys {
            Some(keys) => keys.get_device(&self.invitee_identity).is_some(),
            None => false,
        }
    }
}

// ---------------------------------------------------------------------------
// What a response holds
// ---------------------------------------------------------------------------

/// What a response tells the inviter.
#[verifier::ext_equal]
pub struct ResponseModel {
    pub invitee: DevicePubkey,
    pub session_key: DevicePubkey,
    pub device_id: Option<Seq<char>>,
    pub owner: Option<OwnerPubkey>,
}

/// The innermost layer of a response, the members in the order of their names
/// or the session key first.
pub open spec fn payload_json(
    session_key: DevicePubkey,
    device_id: Option<Seq<char>>,
    owner: Option<OwnerPubkey>,
    by_name: bool,
) -> JsonValue {
    let key = seq![("sessionKey"@, JsonValue::Str(hex_text(session_key.0@)))];
    let rest = maybe_member("deviceId"@, device_id) + maybe_member(
        "ownerPublicKey"@,
        match owner {
            Some(owner) => Some(hex_text(owner.0@)),
            None => None,
        },
    );
    JsonValue::Object(
        if by_name {
            rest + key
        } else {
            key + rest
        },
    )
}

/// The middle layer of a response, the members in the order of their names or
/// the invitee first.
pub open spec fn inner_json(
    invitee: DevicePubkey,
    content: Seq<char>,
    created_at: UnixSeconds,
    by_name: bool,
) -> JsonValue {
    let key = seq![("pubkey"@, JsonValue::Str(hex_text(invitee.0@)))];
    let rest = seq![
        ("content"@, JsonValue::Str(content)),
        ("created_at"@, JsonValue::Uint(created_at.0)),
    ];
    JsonValue::Object(
        if by_name {
            rest + key
        } else {
            key + rest
        },
    )
}

/// The members of the middle layer.
pub open spec fn inner_names() -> Seq<Seq<char>> {
    seq!["pubkey"@, "content"@, "created_at"@]
}

/// The members of the innermost layer.
pub open spec fn payload_names() -> Seq<Seq<char>> {
    seq!["sessionKey"@, "ownerPublicKey"@]
}

/// The invitee and the content of the middle layer: an object, or a list of the
/// members.
pub open spec fn inner_of_json(value: JsonValue) -> Option<(DevicePubkey, Seq<char>)> {
    let value = as_record(value, inner_names());
    match (
        text_field(value, "pubkey"@),
        text_field(value, "content"@),
        uint_field(value, "created_at"@),
    ) {
        (Some(key), Some(content), Some(_)) => match hex_key(key) {
            Some(key) => Some((DevicePubkey(key), content)),
            None => None,
        },
        _ => None,
    }
}

/// Whether a field that may be left out is left out or names a key.
pub open spec fn optional_key(value: JsonValue, name: Seq<char>) -> bool {
    field_absent(value, name) || (text_field(value, name) matches Some(text) && hex_key(
        text,
    ) is Some)
}

/// The session key, device and owner of the innermost layer: an object, or a
/// list of the key and the owner.
pub open spec fn payload_of_json(value: JsonValue) -> Option<
    (DevicePubkey, Option<Seq<char>>, Option<OwnerPubkey>),
> {
    let value = as_record(value, payload_names());
    let device_fits = field_absent(value, "deviceId"@) || text_field(value, "deviceId"@) is Some;
    let owner = match text_field(value, "ownerPublicKey"@) {
        Some(text) => match hex_key(text) {
            Some(key) => Some(OwnerPubkey(key)),
            None => None,
        },
        None => None,
    };
    match text_field(value, "sessionKey"@) {
        Some(text) => match hex_key(text) {
            Some(key) if device_fits && optional_key(value, "ownerPublicKey"@) => Some(
                (DevicePubkey(key), text_field(value, "deviceId"@), owner),
            ),
            _ => None,
        },
        None => None,
    }
}

/// What the middle layer's content holds for those who share the secret.
pub open spec fn inner_text(shared_secret: [u8; 32], content: Seq<char>) -> Result<Seq<char>, Fault> {
    match base64_bytes(content) {
        None => Err(Fault::Decryption),
        Some(payload) => match opened(shared_secret, payload) {
            None => Err(Fault::Nip44),
            Some(bytes) => if valid_utf8(bytes) {
                Ok(decode_utf8(bytes))
            } else {
                Err(Fault::Decryption)
            },
        },
    }
}

/// What a response tells one who holds the invite's ephemeral secret, the
/// shared secret and the inviter's own secret.
pub open spec fn read_response(
    ephemeral_secret: [u8; 32],
    shared_secret: [u8; 32],
    inviter_secret: [u8; 32],
    sender: DevicePubkey,
    content: Seq<char>,
) -> Result<ResponseModel, Fault> {
    if public_key_of(ephemeral_secret) is None {
        Err(Fault::NostrKey)
    } else {
        match decrypted(ephemeral_secret, sender.0, content) {
            None => Err(Fault::Nip44),
            Some(text) => match record_parsed(text) {
                None => Err(Fault::Parse),
                Some(inner) => match inner_of_json(inner) {
                    None => Err(Fault::Parse),
                    Some((invitee, inner_content)) => match inner_text(
                        shared_secret,
                        inner_content,
                    ) {
                        Err(f) => Err(f),
                        Ok(sealed) => read_payload(inviter_secret, invitee, sealed),
                    },
                },
            },
        }
    }
}

/// What the innermost layer tells the inviter.
pub open spec fn read_payload(
    inviter_secret: [u8; 32],
    invitee: DevicePubkey,
    sealed: Seq<char>,
) -> Result<ResponseModel, Fault> {
    if public_key_of(inviter_secret) is None {
        Err(Fault::NostrKey)
    } else {
        match decrypted(inviter_secret, invitee.0, sealed) {
            None => Err(Fault::Nip44),
            Some(text) => match record_parsed(text) {
                None => Err(Fault::Parse),
                Some(payload) => match payload_of_json(payload) {
                    None => Err(Fault::Parse),
                    Some((session_key, device_id, owner)) => Ok(
                        ResponseModel { invitee, session_key, device_id, owner },
                    ),
                },
            },
        }
    }
}

proof fn lemma_response_names()
    ensures
        "sessionKey"@ != "deviceId"@,
        "sessionKey"@ != "ownerPublicKey"@,
        "deviceId"@ != "ownerPublicKey"@,
        "pubkey"@ != "content"@,
        "pubkey"@ != "created_at"@,
        "content"@ != "created_at"@,
{
    reveal_strlit("sessionKey");
    reveal_strlit("deviceId");
    reveal_strlit("ownerPublicKey");
    reveal_strlit("pubkey");
    reveal_strlit("content");
    reveal_strlit("created_at");
    assert("sessionKey"@.len() == 10);
    assert("deviceId"@.len() == 8);
    assert("ownerPublicKey"@.len() == 14);
    assert("pubkey"@.len() == 6);
    assert("content"@.len() == 7);
    assert("created_at"@.len() == 10);
}

/// The layers of a response are read back.
pub proof fn response_layers_round_trip(
    response: ResponseModel,
    content: Seq<char>,
    created_at: UnixSeconds,
    by_name: bool,
)
    ensures
        payload_of_json(
            payload_json(response.session_key, response.device_id, response.owner, by_name),
        ) == Some((response.session_key, response.device_id, response.owner)),
        inner_of_json(inner_json(response.invitee, content, created_at, by_name)) == Some(
            (response.invitee, content),
        ),
{
    lemma_response_names();
    hex_key_round_trip(response.session_key.0);
    hex_key_round_trip(response.invitee.0);
    if response.owner is Some {
        hex_key_round_trip(response.owner->Some_0.0);
    }
    let payload = payload_json(
        response.session_key,
        response.device_id,
        response.owner,
        by_name,
    )->Object_0;
    lemma_members(payload);
    if by_name {
        assert(payload.last().0 == "sessionKey"@);
    } else {
        assert(payload[0].0 == "sessionKey"@);
    }
    let first: int = if by_name {
        0
    } else {
        1
    };
    if response.device_id is Some {
        assert(payload[first].0 == "deviceId"@);
        if response.owner is Some {
            assert(payload[first + 1].0 == "ownerPublicKey"@);
        }
    } else if response.owner is Some {
        assert(payload[first].0 == "ownerPublicKey"@);
    }
    let inner = inner_json(response.invitee, content, created_at, by_name)->Object_0;
    lemma_members(inner);
    if by_name {
        assert(inner[0].0 == "content"@);
        assert(inner[1].0 == "created_at"@);
        assert(inner[2].0 == "pubkey"@);
    } else {
        assert(inner[0].0 == "pubkey"@);
        assert(inner[1].0 == "content"@);
        assert(inner[2].0 == "created_at"@);
    }
}

fn payload_text(
    session_key: DevicePubkey,
    device_id: &Option<DeviceId>,
    owner: Option<OwnerPubkey>,
    by_name: bool,
) -> (r: String)
    ensures
        r@ == json_text(payload_json(session_key, device_name(*device_id), owner, by_name)),
        record_parsed(r@) == Some(
            payload_json(session_key, device_name(*device_id), owner, by_name),
        ),
{
    let mut fields: Vec<(String, Json)> = Vec::new();
    if !by_name {
        push_field(&mut fields, "sessionKey", Json::Str(session_key.to_hex()));
    }
    if let Some(id) = device_id {
        push_field(&mut fields, "deviceId", Json::Str(id.as_str().to_string()));
    }
    if let Some(owner) = owner {
        push_field(&mut fields, "ownerPublicKey", Json::Str(owner.to_hex()));
    }
    if by_name {
        push_field(&mut fields, "sessionKey", Json::Str(session_key.to_hex()));
    }
    let json = Json::Object(fields);
    proof {
        let target = payload_json(session_key, device_name(*device_id), owner, by_name);
        assert(json@->Object_0 =~= target->Object_0);
        reveal_with_fuel(plain, 2);
        assert(plain(json@, 127));
    }
    print_json(&json)
}

fn inner_event_text(
    invitee: DevicePubkey,
    content: String,
    created_at: UnixSeconds,
    by_name: bool,
) -> (r: String)
    ensures
        r@ == json_text(inner_json(invitee, content@, created_at, by_name)),
        record_parsed(r@) == Some(inner_json(invitee, content@, created_at, by_name)),
{
    let ghost said = content@;
    let mut fields: Vec<(String, Json)> = Vec::new();
    if !by_name {
        push_field(&mut fields, "pubkey", Json::Str(invitee.to_hex()));
    }
    push_field(&mut fields, "content", Json::Str(content));
    push_field(&mut fields, "created_at", Json::Uint(created_at.0));
    if by_name {
        push_field(&mut fields, "pubkey", Json::Str(invitee.to_hex()));
    }
    let json = Json::Object(fields);
    proof {
        assert(json@->Object_0 =~= inner_json(invitee, said, created_at, by_name)->Object_0);
        reveal_with_fuel(plain, 2);
        assert(plain(json@, 127));
    }
    print_json(&json)
}

// ---------------------------------------------------------------------------
// Sealing a response
// ---------------------------------------------------------------------------

/// What a response is made from.
#[verifier::ext_equal]
pub struct ResponseParts {
    pub response: ResponseModel,
    pub invitee_secret: [u8; 32],
    pub sender_secret: [u8; 32],
    pub created_at: UnixSeconds,
    /// Whether the layers name their members in the order of the names.
    pub by_name: bool,
}

pub open spec fn payload_of(parts: ResponseParts) -> Seq<char> {
    json_text(
        payload_json(
            parts.response.session_key,
            parts.response.device_id,
            parts.response.owner,
            parts.by_name,
        ),
    )
}

/// Why a response cannot be made, if the keys and the payload do not allow it.
pub open spec fn response_refusal(invite: InviteModel, parts: ResponseParts) -> Option<Fault> {
    if public_key_of(parts.invitee_secret) is None {
        Some(Fault::NostrKey)
    } else if conversation_key_of(parts.invitee_secret, invite.inviter.0) is None || !sealable(
        encode_utf8(payload_of(parts)).len() as int,
    ) {
        Some(Fault::Nip44)
    } else if public_key_of(parts.sender_secret) is None {
        Some(Fault::NostrKey)
    } else if conversation_key_of(parts.sender_secret, invite.ephemeral_key.0) is None {
        Some(Fault::Nip44)
    } else {
        None
    }
}

/// Whether a text is the payload encrypted for the inviter.
pub open spec fn hides_payload(invite: InviteModel, parts: ResponseParts, text: Seq<char>) -> bool {
    forall|other: [u8; 32], own: [u8; 32]| #[trigger]
        ends_of(parts.invitee_secret, invite.inviter.0, other, own) ==> decrypted(other, own, text)
            == Some(payload_of(parts))
}

/// Whether a text is such a text once more encrypted with the shared secret.
pub open spec fn hides_text(invite: InviteModel, content: Seq<char>, text: Seq<char>) -> bool {
    inner_text(invite.shared_secret, content) == Ok::<Seq<char>, Fault>(text)
}

/// Whether an encrypted layer can come out too long for the next one.
pub open spec fn outgrows(invite: InviteModel, parts: ResponseParts) -> bool {
    ||| exists|text: Seq<char>| #[trigger]
        hides_payload(invite, parts, text) && !sealable(encode_utf8(text).len() as int)
    ||| exists|text: Seq<char>, content: Seq<char>| #[trigger]
        hides_payload(invite, parts, text) && #[trigger] hides_text(invite, content, text)
            && !sealable(
            encode_utf8(
                json_text(
                    inner_json(parts.response.invitee, content, parts.created_at, parts.by_name),
                ),
            ).len() as int,
        )
}

/// Whether a response tells its tale to the inviter.
pub open spec fn tells_inviter(invite: InviteModel, parts: ResponseParts, content: Seq<char>) -> bool {
    forall|ephemeral: [u8; 32], sender: [u8; 32], inviter: [u8; 32]|
        #![trigger ends_of(
            parts.sender_secret,
            invite.ephemeral_key.0,
            ephemeral,
            sender,
        ), ends_of(
            parts.invitee_secret,
            invite.inviter.0,
            inviter,
            parts.response.invitee.0,
        )]
        ends_of(parts.sender_secret, invite.ephemeral_key.0, ephemeral, sender) && ends_of(
            parts.invitee_secret,
            invite.inviter.0,
            inviter,
            parts.response.invitee.0,
        ) ==> read_response(
            ephemeral,
            invite.shared_secret,
            inviter,
            DevicePubkey(sender),
            content,
        ) == Ok::<ResponseModel, Fault>(parts.response)
}

/// The parts of a response as values.
pub struct ResponseInput {
    pub invitee_public_key: DevicePubkey,
    pub invitee_private_key: [u8; 32],
    pub session_key: DevicePubkey,
    pub device_id: Option<DeviceId>,
    pub owner_public_key: Option<OwnerPubkey>,
    pub sender_private_key: [u8; 32],
    pub created_at: UnixSeconds,
    /// Whether the layers name their members in the order of the names.
    pub by_name: bool,
}

impl View for ResponseInput {
    type V = ResponseParts;

    open spec fn view(&self) -> ResponseParts {
        ResponseParts {
            response: ResponseModel {
                invitee: self.invitee_public_key,
                session_key: self.session_key,
                device_id: device_name(self.device_id),
                owner: self.owner_public_key,
            },
            invitee_secret: self.invitee_private_key,
            sender_secret: self.sender_private_key,
            created_at: self.created_at,
            by_name: self.by_name,
        }
    }
}

/// Encrypts a response for the inviter: the payload to the inviter's own key,
/// that with the shared secret, and that to the ephemeral key.
pub fn seal_response(invite: &Invite, input: &ResponseInput) -> (r: Result<String, Error>)
    ensures
        match r {
            Ok(content) => response_refusal(invite@, input@) is None && tells_inviter(
                invite@,
                input@,
                content@,
            ),
            Err(e) => response_refusal(invite@, input@) == Some(fault(e)) || (fault(e)
                == Fault::Nip44 && outgrows(invite@, input@)),
        },
{
    let ghost parts = input@;
    match check_secret_key(&input.invitee_private_key) {
        Ok(()) => {},
        Err(e) => {
            return Err(Error::NostrKey(e));
        },
    }
    let payload = payload_text(
        input.session_key,
        &input.device_id,
        input.owner_public_key,
        input.by_name,
    );
    let dh_encrypted = match encrypt(
        &input.invitee_private_key,
        &invite.inviter.0,
        payload.as_str(),
    ) {
        Ok(text) => text,
        Err(e) => {
            return Err(Error::Nip44(e));
        },
    };
    assert(hides_payload(invite@, parts, dh_encrypted@));
    let sealed = match seal(&invite.shared_secret, dh_encrypted.as_str().as_bytes()) {
        Ok(bytes) => bytes,
        Err(e) => {
            return Err(Error::Nip44(e));
        },
    };
    let inner_content = base64_encode(&sealed);
    let ghost said = inner_content@;
    proof {
        vstd::utf8::encode_utf8_valid_utf8(dh_encrypted@);
        vstd::utf8::encode_utf8_decode_utf8(dh_encrypted@);
        assert(hides_text(invite@, said, dh_encrypted@));
    }
    let inner = inner_event_text(
        input.invitee_public_key,
        inner_content,
        input.created_at,
        input.by_name,
    );
    match check_secret_key(&input.sender_private_key) {
        Ok(()) => {},
        Err(e) => {
            return Err(Error::NostrKey(e));
        },
    }
    match encrypt(
        &input.sender_private_key,
        &invite.inviter_ephemeral_public_key.0,
        inner.as_str(),
    ) {
        Ok(content) => {
            proof {
                response_layers_round_trip(
                    parts.response,
                    said,
                    parts.created_at,
                    parts.by_name,
                );
                assert(tells_inviter(invite@, parts, content@));
            }
            Ok(content)
        },
        Err(e) => Err(Error::Nip44(e)),
    }
}

// ---------------------------------------------------------------------------
// Reading a response
// ---------------------------------------------------------------------------

/// What a response told, as values.
#[derive(Debug)]
pub struct ResponseContent {
    pub invitee: DevicePubkey,
    pub session_key: DevicePubkey,
    pub device_id: Option<DeviceId>,
    pub owner: Option<OwnerPubkey>,
}

impl View for ResponseContent {
    type V = ResponseModel;

    open spec fn view(&self) -> ResponseModel {
        ResponseModel {
            invitee: self.invitee,
            session_key: self.session_key,
            device_id: device_name(self.device_id),
            owner: self.owner,
        }
    }
}

fn read_inner(text: &str) -> (r: Result<(DevicePubkey, String), Error>)
    ensures
        match r {
            Ok((invitee, content)) => record_parsed(text@) is Some && inner_of_json(
                record_parsed(text@)->Some_0,
            ) == Some((invitee, content@)),
            Err(e) => fault(e) == Fault::Parse && (record_parsed(text@) is None || inner_of_json(
                record_parsed(text@)->Some_0,
            ) is None),
        },
{
    let names: [&str; 3] = ["pubkey", "content", "created_at"];
    assert(strs(names@) =~= inner_names());
    let json = match parse_record(text) {
        Ok(json) => json.into_record(&names),
        Err(e) => {
            return Err(Error::Parse(e));
        },
    };
    let key = match json.text_field("pubkey") {
        Some(text) => match DevicePubkey::parse_hex(text.as_str()) {
            Ok(key) => key,
            Err(e) => {
                return Err(Error::Parse(e));
            },
        },
        None => {
            return Err(Error::Parse("missing field `pubkey`".to_string()));
        },
    };
    let content = match json.text_field("content") {
        Some(text) => text.clone(),
        None => {
            return Err(Error::Parse("missing field `content`".to_string()));
        },
    };
    match json.uint_field("created_at") {
        Some(_) => Ok((key, content)),
        None => Err(Error::Parse("missing field `created_at`".to_string())),
    }
}

fn read_payload_text(text: &str) -> (r: Result<
    (DevicePubkey, Option<DeviceId>, Option<OwnerPubkey>),
    Error,
>)
    ensures
        match r {
            Ok((key, device_id, owner)) => record_parsed(text@) is Some && payload_of_json(
                record_parsed(text@)->Some_0,
            ) == Some((key, device_name(device_id), owner)),
            Err(e) => fault(e) == Fault::Parse && (record_parsed(text@) is None || payload_of_json(
                record_parsed(text@)->Some_0,
            ) is None),
        },
{
    let names: [&str; 2] = ["sessionKey", "ownerPublicKey"];
    assert(strs(names@) =~= payload_names());
    let json = match parse_record(text) {
        Ok(json) => json.into_record(&names),
        Err(e) => {
            return Err(Error::Parse(e));
        },
    };
    let session_key = match json.text_field("sessionKey") {
        Some(text) => match DevicePubkey::parse_hex(text.as_str()) {
            Ok(key) => key,
            Err(e) => {
                return Err(Error::Parse(e));
            },
        },
        None => {
            return Err(Error::Parse("missing field `sessionKey`".to_string()));
        },
    };
    let device_id = match json.text_field("deviceId") {
        Some(text) => Some(DeviceId::new(text.as_str())),
        None => {
            if !json.field_absent("deviceId") {
                return Err(Error::Parse("deviceId is no text".to_string()));
            }
            None
        },
    };
    let owner = match json.text_field("ownerPublicKey") {
        Some(text) => match OwnerPubkey::parse_hex(text.as_str()) {
            Ok(key) => Some(key),
            Err(e) => {
                return Err(Error::Parse(e));
            },
        },
        None => {
            if !json.field_absent("ownerPublicKey") {
                return Err(Error::Parse("ownerPublicKey is no text".to_string()));
            }
            None
        },
    };
    Ok((session_key, device_id, owner))
}

/// Decrypts the middle layer's content with the shared secret.
fn open_inner(shared_secret: &[u8; 32], content: &str) -> (r: Result<String, Error>)
    ensures
        match r {
            Ok(text) => inner_text(*shared_secret, content@) == Ok::<Seq<char>, Fault>(text@),
            Err(e) => inner_text(*shared_secret, content@) == Err::<Seq<char>, Fault>(fault(e)),
        },
{
    let payload = match base64_decode(content) {
        Ok(bytes) => bytes,
        Err(e) => {
            return Err(Error::Decryption(e));
        },
    };
    let bytes = match open(shared_secret, &payload) {
        Ok(bytes) => bytes,
        Err(e) => {
            return Err(Error::Nip44(e));
        },
    };
    match utf8_decode(bytes) {
        Ok(text) => Ok(text),
        Err(e) => Err(Error::Decryption(e)),
    }
}

/// Decrypts a response.
pub fn open_response(
    ephemeral_private_key: &[u8; 32],
    shared_secret: &[u8; 32],
    inviter_private_key: &[u8; 32],
    sender: DevicePubkey,
    content: &str,
) -> (r: Result<ResponseContent, Error>)
    ensures
        match r {
            Ok(response) => read_response(
                *ephemeral_private_key,
                *shared_secret,
                *inviter_private_key,
                sender,
                content@,
            ) == Ok::<ResponseModel, Fault>(response@),
            Err(e) => read_response(
                *ephemeral_private_key,
                *shared_secret,
                *inviter_private_key,
                sender,
                content@,
            ) == Err::<ResponseModel, Fault>(fault(e)),
        },
{
    match check_secret_key(ephemeral_private_key) {
        Ok(()) => {},
        Err(e) => {
            return Err(Error::NostrKey(e));
        },
    }
    let inner = match decrypt(ephemeral_private_key, &sender.0, content) {
        Ok(text) => text,
        Err(e) => {
            return Err(Error::Nip44(e));
        },
    };
    let (invitee, inner_content) = match read_inner(inner.as_str()) {
        Ok(parts) => parts,
        Err(e) => {
            return Err(e);
        },
    };
    let sealed = match open_inner(shared_secret, inner_content.as_str()) {
        Ok(text) => text,
        Err(e) => {
            return Err(e);
        },
    };
    match check_secret_key(inviter_private_key) {
        Ok(()) => {},
        Err(e) => {
            return Err(Error::NostrKey(e));
        },
    }
    let payload = match decrypt(inviter_private_key, &invitee.0, sealed.as_str()) {
        Ok(text) => text,
        Err(e) => {
            return Err(Error::Nip44(e));
        },
    };
    match read_payload_text(payload.as_str()) {
        Ok((session_key, device_id, owner)) => Ok(
            ResponseContent { invitee, session_key, device_id, owner },
        ),
        Err(e) => Err(e),
    }
}

// ---------------------------------------------------------------------------
// Invites
// ---------------------------------------------------------------------------

/// Why a device may not use an invite, if it may not: it has used it already,
/// or no use is left.
pub open spec fn use_refusal(invite: InviteModel, invitee: DevicePubkey) -> Option<Fault> {
    if invite.used_by.contains(invitee) {
        Some(Fault::InviteAlreadyUsed)
    } else if invite.max_uses is Some && invite.used_by.len() >= invite.max_uses->Some_0 {
        Some(Fault::InviteExhausted)
    } else {
        None
    }
}

/// Whether keys are in order.
pub open spec fn in_order(keys: Seq<DevicePubkey>) -> bool {
    forall|i: int, j: int|
        0 <= i < j < keys.len() ==> !crate::ids::key_before(
            (#[trigger] keys[j]).0,
            (#[trigger] keys[i]).0,
        )
}

/// Whether keys are others put in order.
pub open spec fn arranges(keys: Seq<DevicePubkey>, others: Seq<DevicePubkey>) -> bool {
    in_order(keys) && keys.to_multiset() == others.to_multiset()
}

/// Processing a response: what it tells and the session that it starts.
pub open spec fn process(
    invite: InviteModel,
    sender: DevicePubkey,
    content: Seq<char>,
    inviter_secret: [u8; 32],
) -> Result<(ResponseModel, SessionModel), Fault> {
    match invite.ephemeral_secret {
        None => Err(Fault::Parse),
        Some(ephemeral) => match read_response(
            ephemeral,
            invite.shared_secret,
            inviter_secret,
            sender,
            content,
        ) {
            Err(f) => Err(f),
            Ok(response) => match use_refusal(invite, response.invitee) {
                Some(f) => Err(f),
                None => match first_state(
                    response.session_key,
                    ephemeral,
                    false,
                    invite.shared_secret,
                    None,
                ) {
                    Err(f) => Err(f),
                    Ok(state) => Ok((response, state)),
                },
            },
        },
    }
}

/// How far back a response may be dated, in seconds.
pub const RESPONSE_JITTER: u64 = 172_800;

/// When a response that is made at a time is dated, for a random number.
pub open spec fn response_time(now: UnixSeconds, random: u64) -> UnixSeconds {
    let back = random % RESPONSE_JITTER;
    UnixSeconds(
        if now.0 >= back {
            (now.0 - back) as u64
        } else {
            0
        },
    )
}

/// Dates a response back by a random number.
pub fn jittered_time(now: UnixSeconds, random: u64) -> (r: UnixSeconds)
    ensures
        r == response_time(now, random),
{
    UnixSeconds(now.0.saturating_sub(random % RESPONSE_JITTER))
}

impl Invite {
    pub fn create_new(
        ctx: &mut ProtocolContext<'_>,
        inviter: OwnerPubkey,
        device_id: Option<DeviceId>,
        max_uses: Option<usize>,
    ) -> (r: Result<Self, Error>)
        ensures
            final(ctx).now_secs == old(ctx).now_secs,
            final(ctx).now_millis == old(ctx).now_millis,
            match r {
                Ok(invite) => {
                    &&& invite@.ephemeral_secret is Some
                    &&& device_key_of(invite@.ephemeral_secret->Some_0) == Some(
                        invite@.ephemeral_key,
                    )
                    &&& invite@ == (InviteModel {
                        ephemeral_key: invite@.ephemeral_key,
                        shared_secret: invite@.shared_secret,
                        inviter,
                        ephemeral_secret: invite@.ephemeral_secret,
                        device_id: device_name(device_id),
                        max_uses,
                        used_by: Seq::empty(),
                        created_at: old(ctx).now_secs,
                        purpose: None,
                        owner: None,
                    })
                },
                Err(e) => fault(e) == Fault::NostrKey && chance_fails(),
            },
    {
        let inviter_ephemeral_private_key: [u8; 32] = match random_secret_key_bytes(ctx.rng) {
            Ok(secret) => secret,
            Err(e) => {
                return Err(e);
            },
        };
        let shared_secret: [u8; 32] = match random_secret_key_bytes(ctx.rng) {
            Ok(secret) => secret,
            Err(e) => {
                return Err(e);
            },
        };
        domain::create_invite(
            inviter,
            device_id,
            max_uses,
            domain::InviteCreateRuntime {
                inviter_ephemeral_private_key,
                shared_secret,
                created_at: ctx.now_secs.0,
            },
        )
    }

    pub fn accept(
        &self,
        ctx: &mut ProtocolContext<'_>,
        invitee_public_key: DevicePubkey,
        invitee_private_key: [u8; 32],
        device_id: Option<DeviceId>,
    ) -> (r: Result<(Session, InviteResponseEnvelope), Error>)
        ensures
            final(ctx).now_secs == old(ctx).now_secs,
            final(ctx).now_millis == old(ctx).now_millis,
            accepted(
                self@,
                old(ctx).now_secs,
                invitee_public_key,
                invitee_private_key,
                device_name(device_id),
                None,
                r,
            ),
    {
        self.accept_with_owner(ctx, invitee_public_key, invitee_private_key, device_id, None)
    }

    /// Accepts an invite. The keys of the session and of the response's sender
    /// are left to chance.
    pub fn accept_with_owner(
        &self,
        ctx: &mut ProtocolContext<'_>,
        invitee_public_key: DevicePubkey,
        invitee_private_key: [u8; 32],
        device_id: Option<DeviceId>,
        owner_public_key: Option<OwnerPubkey>,
    ) -> (r: Result<(Session, InviteResponseEnvelope), Error>)
        ensures
            final(ctx).now_secs == old(ctx).now_secs,
            final(ctx).now_millis == old(ctx).now_millis,
            accepted(
                self@,
                old(ctx).now_secs,
                invitee_public_key,
                invitee_private_key,
                device_name(device_id),
                owner_public_key,
                r,
            ),
    {
        match self.ensure_accept_allowed(invitee_public_key) {
            Ok(()) => {},
            Err(e) => {
                return Err(e);
            },
        }
        let session_private_key: [u8; 32] = match random_secret_key_bytes(ctx.rng) {
            Ok(secret) => secret,
            Err(e) => {
                return Err(e);
            },
        };
        let session_key = match DevicePubkey::from_secret_bytes(&session_private_key) {
            Ok(key) => key,
            Err(e) => {
                return Err(e);
            },
        };
        let session = match Session::init(
            ctx,
            self.inviter_ephemeral_public_key,
            session_private_key,
            true,
            self.shared_secret,
            None,
        ) {
            Ok(session) => session,
            Err(e) => {
                return Err(e);
            },
        };
        let sender_private_key: [u8; 32] = match random_secret_key_bytes(ctx.rng) {
            Ok(secret) => secret,
            Err(e) => {
                return Err(e);
            },
        };
        let sender = match DevicePubkey::from_secret_bytes(&sender_private_key) {
            Ok(key) => key,
            Err(e) => {
                return Err(e);
            },
        };
        let input = ResponseInput {
            invitee_public_key,
            invitee_private_key,
            session_key,
            device_id,
            owner_public_key,
            sender_private_key,
            created_at: ctx.now_secs,
            by_name: false,
        };
        let content = match seal_response(self, &input) {
            Ok(content) => content,
            Err(e) => {
                assert(response_fails(self@, input@, fault(e)));
                return Err(e);
            },
        };
        let jitter: u64 = if ctx.now_secs.0 == 0 {
            0
        } else {
            random_u64(ctx.rng)
        };
        let envelope = InviteResponseEnvelope {
            sender,
            signer_secret_key: sender_private_key,
            recipient: self.inviter_ephemeral_public_key,
            created_at: jittered_time(ctx.now_secs, jitter),
            content,
        };
        proof {
            assert(envelope.created_at == response_time(ctx.now_secs, jitter));
        }
        Ok((session, envelope))
    }

    /// Takes in a response: the session that it starts, and who started it.
    /// Where the response is refused the invite stays as it is.
    pub fn process_response(
        &mut self,
        envelope: &InviteResponseEnvelope,
        inviter_private_key: [u8; 32],
    ) -> (r: Result<InviteResponse, Error>)
        ensures
            processes(
                old(self)@,
                final(self)@,
                envelope.sender,
                envelope.content@,
                inviter_private_key,
                r,
            ),
            r is Err ==> *final(self) == *old(self),
    {
        self.process_content(envelope.sender, envelope.content.as_str(), inviter_private_key)
    }

    /// Takes in a response as it came.
    pub fn process_invite_response(
        &mut self,
        ctx: &mut ProtocolContext<'_>,
        envelope: &IncomingInviteResponseEnvelope,
        inviter_private_key: [u8; 32],
    ) -> (r: Result<Option<InviteResponse>, Error>)
        ensures
            final(ctx).now_secs == old(ctx).now_secs,
            final(ctx).now_millis == old(ctx).now_millis,
            r matches Ok(found) ==> found is Some,
            processes(
                old(self)@,
                final(self)@,
                envelope.sender,
                envelope.content@,
                inviter_private_key,
                match r {
                    Ok(found) => Ok(found->Some_0),
                    Err(e) => Err(e),
                },
            ),
            r is Err ==> *final(self) == *old(self),
    {
        match self.process_content(
            envelope.sender,
            envelope.content.as_str(),
            inviter_private_key,
        ) {
            Ok(response) => Ok(Some(response)),
            Err(e) => Err(e),
        }
    }

    pub(crate) fn process_content(
        &mut self,
        sender: DevicePubkey,
        content: &str,
        inviter_private_key: [u8; 32],
    ) -> (r: Result<InviteResponse, Error>)
        ensures
            processes(old(self)@, final(self)@, sender, content@, inviter_private_key, r),
            r is Err ==> *final(self) == *old(self),
    {
        let ephemeral: [u8; 32] = match self.inviter_ephemeral_private_key {
            Some(key) => key,
            None => {
                return Err(Error::Parse("ephemeral key not available".to_string()));
            },
        };
        let response = match open_response(
            &ephemeral,
            &self.shared_secret,
            &inviter_private_key,
            sender,
            content,
        ) {
            Ok(response) => response,
            Err(e) => {
                return Err(e);
            },
        };
        match self.ensure_accept_allowed(response.invitee) {
            Ok(()) => {},
            Err(e) => {
                return Err(e);
            },
        }
        let session = match Session::new_responder(
            response.session_key,
            ephemeral,
            self.shared_secret,
        ) {
            Ok(session) => session,
            Err(e) => {
                return Err(e);
            },
        };
        self.record_use(response.invitee);
        Ok(
            InviteResponse {
                session,
                invitee_identity: response.invitee,
                device_id: response.device_id,
                owner_public_key: response.owner,
            },
        )
    }

    fn ensure_accept_allowed(&self, invitee_public_key: DevicePubkey) -> (r: Result<(), Error>)
        ensures
            match r {
                Ok(_) => use_refusal(self@, invitee_public_key) is None,
                Err(e) => use_refusal(self@, invitee_public_key) == Some(fault(e)),
            },
    {
        if contains_pubkey(&self.used_by, &invitee_public_key) {
            return Err(Error::Domain(DomainError::InviteAlreadyUsed));
        }
        if let Some(max_uses) = self.max_uses {
            if self.used_by.len() >= max_uses {
                return Err(Error::Domain(DomainError::InviteExhausted));
            }
        }
        Ok(())
    }

    fn record_use(&mut self, invitee_public_key: DevicePubkey)
        requires
            !old(self)@.used_by.contains(invitee_public_key),
        ensures
            final(self)@ == (InviteModel { used_by: final(self)@.used_by, ..old(self)@ }),
            arranges(final(self)@.used_by, old(self)@.used_by.push(invitee_public_key)),
    {
        self.used_by.push(invitee_public_key);
        self.used_by = sort_pubkeys(&self.used_by);
    }
}

/// Whether a result is that of accepting an invite at a time: a session that
/// starts as the initiator's and a response that tells the inviter of it.
pub open spec fn accepted(
    invite: InviteModel,
    now: UnixSeconds,
    invitee: DevicePubkey,
    invitee_secret: [u8; 32],
    device_id: Option<Seq<char>>,
    owner: Option<OwnerPubkey>,
    r: Result<(Session, InviteResponseEnvelope), Error>,
) -> bool {
    match r {
        Ok((session, envelope)) => {
            let ours = session@.our_current->Some_0;
            &&& use_refusal(invite, invitee) is None
            &&& session@.our_current is Some
            &&& first_state(
                invite.ephemeral_key,
                ours.private_key,
                true,
                invite.shared_secret,
                Some(session@.our_next.private_key),
            ) == Ok::<SessionModel, Fault>(session@)
            &&& forall|their_secret: [u8; 32]| #[trigger] agrees_with(session@, their_secret)
            &&& session.name@ == "session"@
            &&& envelope.recipient == invite.ephemeral_key
            &&& device_key_of(envelope.signer_secret_key) == Some(envelope.sender)
            &&& exists|random: u64| envelope.created_at == #[trigger] response_time(now, random)
            &&& tells_inviter(
                invite,
                ResponseParts {
                    response: ResponseModel {
                        invitee,
                        session_key: ours.public_key,
                        device_id,
                        owner,
                    },
                    invitee_secret,
                    sender_secret: envelope.signer_secret_key,
                    created_at: now,
                    by_name: false,
                },
                envelope.content@,
            )
        },
        Err(e) => match use_refusal(invite, invitee) {
            Some(f) => fault(e) == f,
            None => accept_fails(
                invite,
                now,
                invitee,
                invitee_secret,
                device_id,
                owner,
                fault(e),
            ),
        },
    }
}

/// Whether a response cannot be made.
pub open spec fn response_fails(invite: InviteModel, parts: ResponseParts, f: Fault) -> bool {
    response_refusal(invite, parts) == Some(f) || (f == Fault::Nip44 && outgrows(invite, parts))
}

/// Whether an invite that may be used cannot be accepted with some keys, or
/// chance gives none.
pub open spec fn accept_fails(
    invite: InviteModel,
    now: UnixSeconds,
    invitee: DevicePubkey,
    invitee_secret: [u8; 32],
    device_id: Option<Seq<char>>,
    owner: Option<OwnerPubkey>,
    f: Fault,
) -> bool {
    ||| f == Fault::NostrKey && chance_fails()
    ||| exists|ours: [u8; 32]|
        public_key_of(ours) is Some && #[trigger] init_fails(
            invite.ephemeral_key,
            ours,
            true,
            invite.shared_secret,
            f,
        )
    ||| exists|parts: ResponseParts|
        parts.response.invitee == invitee && parts.response.device_id == device_id
            && parts.response.owner == owner && parts.invitee_secret == invitee_secret
            && parts.created_at == now && #[trigger] response_fails(invite, parts, f)
}

/// Whether a result is that of processing a response, and an invite what it
/// comes to.
pub open spec fn processes(
    before: InviteModel,
    after: InviteModel,
    sender: DevicePubkey,
    content: Seq<char>,
    inviter_secret: [u8; 32],
    r: Result<InviteResponse, Error>,
) -> bool {
    match r {
        Ok(response) => {
            let told = process(before, sender, content, inviter_secret);
            &&& told is Ok
            &&& response.session@ == told->Ok_0.1
            &&& response.session.name@ == "session"@
            &&& response.invitee_identity == told->Ok_0.0.invitee
            &&& device_name(response.device_id) == told->Ok_0.0.device_id
            &&& response.owner_public_key == told->Ok_0.0.owner
            &&& after == (InviteModel { used_by: after.used_by, ..before })
            &&& arranges(after.used_by, before.used_by.push(response.invitee_identity))
        },
        Err(e) => process(before, sender, content, inviter_secret) == Err::<
            (ResponseModel, SessionModel),
            Fault,
        >(fault(e)) && after == before,
    }
}

/// Whether a key is among keys.
pub fn contains_pubkey(keys: &Vec<DevicePubkey>, key: &DevicePubkey) -> (r: bool)
    ensures
        r == keys@.contains(*key),
{
    let mut i: usize = 0;
    while i < keys.len()
        invariant
            i <= keys@.len(),
            forall|j: int| 0 <= j < i ==> keys@[j] != *key,
        decreases keys@.len() - i,
    {
        if keys[i] == *key {
            assert(keys@[i as int] == *key);
            return true;
        }
        i = i + 1;
    }
    false
}

/// Puts keys in order.
pub fn sort_pubkeys(keys: &Vec<DevicePubkey>) -> (r: Vec<DevicePubkey>)
    ensures
        arranges(r@, keys@),
{
    let mut r: Vec<DevicePubkey> = Vec::new();
    let mut i: usize = 0;
    assert(keys@.take(0) =~= r@);
    while i < keys.len()
        invariant
            i <= keys@.len(),
            in_order(r@),
            r@.to_multiset() == keys@.take(i as int).to_multiset(),
        decreases keys@.len() - i,
    {
        let key: DevicePubkey = keys[i];
        let ghost before = r@;
        insert_sorted(&mut r, key);
        proof {
            broadcast use vstd::seq_lib::group_to_multiset_ensures;

            assert(keys@.take(i + 1) =~= keys@.take(i as int).push(key));
        }
        i = i + 1;
    }
    assert(keys@.take(i as int) =~= keys@);
    r
}

fn insert_sorted(keys: &mut Vec<DevicePubkey>, key: DevicePubkey)
    requires
        in_order(old(keys)@),
    ensures
        in_order(final(keys)@),
        final(keys)@.to_multiset() == old(keys)@.to_multiset().insert(key),
{
    let ghost before = keys@;
    let mut i: usize = keys.len();
    while i > 0 && crate::order::bytes_before(&key.0, &keys[i - 1].0)
        invariant
            i <= keys@.len(),
            keys@ == before,
            in_order(before),
            forall|j: int|
                i <= j < before.len() ==> crate::ids::key_before(key.0, (#[trigger] before[j]).0),
        decreases i,
    {
        i = i - 1;
    }
    keys.insert(i, key);
    proof {
        let after = keys@;
        assert(after =~= before.insert(i as int, key));
        assert forall|a: int, b: int| 0 <= a < b < after.len() implies !crate::ids::key_before(
            (#[trigger] after[b]).0,
            (#[trigger] after[a]).0,
        ) by {
            let pa = if a < i { a } else { a - 1 };
            let pb = if b < i { b } else { b - 1 };
            if a != i && b != i {
                assert(!crate::ids::key_before(before[pb].0, before[pa].0));
            } else if a == i {
                assert(crate::ids::key_before(key.0, before[pb].0));
                lemma_no_cycle(key, before[pb]);
            } else if a < i - 1 {
                assert(!crate::ids::key_before(before[i - 1].0, before[a].0));
                lemma_not_before(key, before[a], before[i - 1]);
            }
        }
        broadcast use vstd::seq_lib::group_to_multiset_ensures;

        before.insert_ensures(i as int, key);
        lemma_insert_multiset(before, i as int, key);
    }
}

proof fn lemma_insert_multiset(keys: Seq<DevicePubkey>, i: int, key: DevicePubkey)
    requires
        0 <= i <= keys.len(),
    ensures
        keys.insert(i, key).to_multiset() == keys.to_multiset().insert(key),
{
    broadcast use vstd::seq_lib::group_to_multiset_ensures;

    let after = keys.insert(i, key);
    assert(after.remove(i) =~= keys);
    assert(after[i] == key);
    assert(after.remove(i).to_multiset() =~= after.to_multiset().remove(key));
    assert(after.to_multiset().contains(key));
    assert(after.to_multiset() =~= keys.to_multiset().insert(key));
}

proof fn lemma_no_cycle(a: DevicePubkey, b: DevicePubkey)
    requires
        crate::ids::key_before(a.0, b.0),
    ensures
        !crate::ids::key_before(b.0, a.0),
{
    if crate::ids::key_before(b.0, a.0) {
        <DevicePubkey as crate::collections::OrderedKey>::before_transitive(a, b, a);
        <DevicePubkey as crate::collections::OrderedKey>::before_irreflexive(a);
    }
}

proof fn lemma_not_before(key: DevicePubkey, a: DevicePubkey, b: DevicePubkey)
    requires
        !crate::ids::key_before(b.0, a.0),
        !crate::ids::key_before(key.0, b.0),
    ensures
        !crate::ids::key_before(key.0, a.0),
{
    if crate::ids::key_before(key.0, a.0) {
        <DevicePubkey as crate::collections::OrderedKey>::before_total(key, b);
        if crate::ids::key_before(b.0, key.0) {
            <DevicePubkey as crate::collections::OrderedKey>::before_transitive(b, key, a);
        }
    }
}

} // verus!
