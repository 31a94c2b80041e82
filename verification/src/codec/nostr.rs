//! Messages, invites and device lists as events, and invites as addresses.
use vstd::prelude::*;
use vstd::utf8::{decode_utf8, encode_utf8, valid_utf8};
use crate::app_keys::{
    label_members, labels_in, listed, push_labels, read_labels, AppKeys, AppKeysModel, DeviceEntry,
    DeviceLabels, LabelsModel,
};
use crate::collections::{lists, ordered, ordered_values};
use crate::crypto::{
    conversation_key_of, derive_conversation_key, open, opened, parse_public_key, public_key_of,
    public_key_parsed, seal, sealable,
};
use crate::encoding::{
    base64_bytes, base64_decode, base64_encode, decode_hex_32, hex_bytes, hex_encode, hex_key,
    hex_key_round_trip, hex_text, percent_decode, percent_decoded, percent_encode, percent_encoded,
    utf8_decode, HexError,
};
use crate::error::{fault, CodecError, DomainError, Error, Fault};
use crate::event::{
    body_id, drop_mentions, event_verifies, optional_tag_value, tag_texts, tag_value, texts,
    without_mentions, Event, EventBody, SignedBody, UnsignedEvent,
};
use crate::ids::{device_key_of, DeviceId, DevicePubkey, OwnerPubkey, UnixSeconds};
use crate::invite::{
    IncomingInviteResponseEnvelope, Invite, InviteModel, OutgoingInviteResponseEnvelope,
};
use crate::json::{
    as_record, each_once, field_of, flat, item_values, json_parsed, json_text, lemma_flat, lemma_item_values,
    lemma_members, maybe_member, parse_json, parse_record, plain, print_json, push_field,
    push_item, record_parsed, says_the_same, strs, text_field, uint_field, Json, JsonValue,
};
use crate::rumor::pair_of;
use crate::session::domain::message_event;
use crate::session::{
    EnvelopeModel, IncomingDirectMessageEnvelope, OutgoingDirectMessageEnvelope,
};
use crate::text::{
    after_prefix, concat, concat3, decimal, decimal_round_trip, decimal_text, lemma_first_of_is,
    nth_part, number_value, parse_number, part, without_prefix,
};
use crate::types::{
    APP_KEYS_EVENT_KIND, INVITE_EVENT_KIND, INVITE_RESPONSE_KIND, MESSAGE_EVENT_KIND,
};

verus! {

pub const APP_KEYS_D_TAG: &'static str = "double-ratchet/app-keys";

pub const APP_KEYS_LABELS_TYPE: &'static str = "app-keys-labels";

pub const APP_KEYS_VERSION: &'static str = "1";

pub const INVITE_LIST_LABEL: &'static str = "double-ratchet/invites";

pub const INVITE_D_PREFIX: &'static str = "double-ratchet/invites/";

fn invalid_event(text: &str) -> (r: Error)
    ensures
        fault(r) == Fault::InvalidEvent,
{
    Error::Codec(CodecError::InvalidEvent(text.to_string()))
}

fn invalid_invite(text: &str) -> (r: Error)
    ensures
        fault(r) == Fault::InvalidInvite,
{
    Error::Codec(CodecError::Invite(text.to_string()))
}

// ---------------------------------------------------------------------------
// Messages
// ---------------------------------------------------------------------------

/// Why an event cannot be signed for a sender, if it cannot: the secret key is
/// none, or not the sender's.
pub open spec fn signer_fault(sender: DevicePubkey, secret: [u8; 32]) -> Option<Fault> {
    match device_key_of(secret) {
        None => Some(Fault::NostrKey),
        Some(key) => if key == sender {
            None
        } else {
            Some(Fault::InvalidEvent)
        },
    }
}

/// Whether a signed event says something, under its own identifier and with a
/// right signature.
pub open spec fn signs(event: SignedBody, body: EventBody) -> bool {
    event.body == body && event.id == body_id(body) && event_verifies(event)
}

fn check_signer(sender: DevicePubkey, secret: &[u8; 32]) -> (r: Result<(), Error>)
    ensures
        match r {
            Ok(_) => signer_fault(sender, *secret) is None,
            Err(e) => signer_fault(sender, *secret) == Some(fault(e)),
        },
{
    match DevicePubkey::from_secret_bytes(secret) {
        Err(e) => Err(e),
        Ok(key) => if key == sender {
            Ok(())
        } else {
            Err(invalid_event("sender does not match signer secret"))
        },
    }
}

pub fn direct_message_event(envelope: &OutgoingDirectMessageEnvelope) -> (r: Result<Event, Error>)
    ensures
        match r {
            Ok(event) => signer_fault(envelope.sender, envelope.signer_secret_key) is None && signs(
                event@,
                message_event(
                    envelope.sender,
                    envelope.created_at.0,
                    envelope.encrypted_header@,
                    envelope.ciphertext@,
                ),
            ),
            Err(e) => signer_fault(envelope.sender, envelope.signer_secret_key) == Some(fault(e)),
        },
{
    match check_signer(envelope.sender, &envelope.signer_secret_key) {
        Ok(()) => {},
        Err(e) => {
            return Err(e);
        },
    }
    let mut tags: Vec<Vec<String>> = Vec::new();
    tags.push(pair_of("header", envelope.encrypted_header.as_str()));
    assert(tag_texts(tags@) =~= seq![seq!["header"@, envelope.encrypted_header@]]);
    let unsigned = UnsignedEvent {
        pubkey: envelope.sender,
        created_at: envelope.created_at,
        kind: MESSAGE_EVENT_KIND as u16,
        tags,
        content: envelope.ciphertext.clone(),
    };
    unsigned.sign_with_secret(&envelope.signer_secret_key)
}

/// The message that an event carries.
pub open spec fn message_of_event(event: SignedBody) -> Option<EnvelopeModel> {
    if event.body.kind == MESSAGE_EVENT_KIND && event_verifies(event) {
        match tag_value(event.body.tags, "header"@) {
            Some(header) if header.len() > 0 => Some(
                EnvelopeModel {
                    sender: event.body.pubkey,
                    created_at: event.body.created_at,
                    encrypted_header: header,
                    ciphertext: event.body.content,
                },
            ),
            _ => None,
        }
    } else {
        None
    }
}

fn check_event(event: &Event, kind: u16) -> (r: Result<(), Error>)
    ensures
        r is Ok == (event.kind == kind && event_verifies(event@)),
        r matches Err(e) ==> fault(e) == Fault::InvalidEvent,
{
    if event.kind != kind {
        let found = decimal_text(event.kind as u128);
        let expected = decimal_text(kind as u128);
        let text = concat3("unexpected kind ", found.as_str(), ", expected ");
        return Err(invalid_event(concat(text.as_str(), expected.as_str()).as_str()));
    }
    if !event.verifies() {
        return Err(invalid_event("event does not verify"));
    }
    Ok(())
}

fn required_tag_value(event: &Event, key: &str) -> (r: Result<String, Error>)
    ensures
        match r {
            Ok(text) => tag_value(event@.body.tags, key@) == Some(text@),
            Err(e) => fault(e) == Fault::InvalidEvent && tag_value(event@.body.tags, key@) is None,
        },
{
    match optional_tag_value(&event.tags, key) {
        Some(text) => Ok(text),
        None => Err(invalid_event(concat3("missing `", key, "` tag").as_str())),
    }
}

pub fn parse_direct_message_event(event: &Event) -> (r: Result<IncomingDirectMessageEnvelope, Error>)
    ensures
        match r {
            Ok(envelope) => message_of_event(event@) == Some(envelope@),
            Err(e) => message_of_event(event@) is None && fault(e) == Fault::InvalidEvent,
        },
{
    match check_event(event, MESSAGE_EVENT_KIND as u16) {
        Ok(()) => {},
        Err(e) => {
            return Err(e);
        },
    }
    let encrypted_header = match required_tag_value(event, "header") {
        Ok(text) => text,
        Err(e) => {
            return Err(e);
        },
    };
    if encrypted_header.as_str().unicode_len() == 0 {
        return Err(invalid_event("empty `header` tag"));
    }
    Ok(
        IncomingDirectMessageEnvelope {
            sender: event.pubkey,
            created_at: event.created_at,
            encrypted_header,
            ciphertext: event.content.clone(),
        },
    )
}

/// A message that was put in an event is taken out again, unless its header is
/// empty.
pub proof fn message_event_round_trip(
    sender: DevicePubkey,
    created_at: u64,
    encrypted_header: Seq<char>,
    ciphertext: Seq<char>,
    event: SignedBody,
)
    requires
        signs(event, message_event(sender, created_at, encrypted_header, ciphertext)),
        encrypted_header.len() > 0,
    ensures
        message_of_event(event) == Some(
            EnvelopeModel {
                sender,
                created_at: UnixSeconds(created_at),
                encrypted_header,
                ciphertext,
            },
        ),
{
}

// ---------------------------------------------------------------------------
// Invites as addresses
// ---------------------------------------------------------------------------

/// An invite as a JSON object: what one needs to accept it. The members stand in
/// the order of their names.
pub open spec fn invite_json(invite: InviteModel, with_device: bool) -> JsonValue {
    let device_id = if with_device {
        invite.device_id
    } else {
        None
    };
    let owner = match invite.owner {
        Some(owner) => Some(hex_text(owner.0@)),
        None => None,
    };
    JsonValue::Object(
        maybe_member("deviceId"@, device_id) + seq![
            ("ephemeralKey"@, JsonValue::Str(hex_text(invite.ephemeral_key.0@))),
            ("inviter"@, JsonValue::Str(hex_text(invite.inviter.0@))),
        ] + maybe_member("owner"@, owner) + maybe_member("purpose"@, invite.purpose) + seq![
            ("sharedSecret"@, JsonValue::Str(hex_text(invite.shared_secret@))),
        ],
    )
}

/// An invite as an address.
pub open spec fn invite_address(invite: InviteModel, root: Seq<char>, with_device: bool) -> Seq<char> {
    root + seq!['#'] + percent_encoded(json_text(invite_json(invite, with_device)))
}

/// Writes an invite as an address, with its device or without.
pub fn write_invite_url(invite: &Invite, root: &str, with_device: bool) -> (r: String)
    ensures
        r@ == invite_address(invite@, root@, with_device),
        survives(invite@, with_device),
{
    let mut fields: Vec<(String, Json)> = Vec::new();
    if let Some(id) = &invite.device_id {
        if with_device {
            push_field(&mut fields, "deviceId", Json::Str(id.as_str().to_string()));
        }
    }
    push_field(
        &mut fields,
        "ephemeralKey",
        Json::Str(invite.inviter_ephemeral_public_key.to_hex()),
    );
    push_field(&mut fields, "inviter", Json::Str(invite.inviter.to_hex()));
    if let Some(owner) = invite.owner_public_key {
        push_field(&mut fields, "owner", Json::Str(owner.to_hex()));
    }
    if let Some(purpose) = &invite.purpose {
        push_field(&mut fields, "purpose", Json::Str(purpose.clone()));
    }
    push_field(&mut fields, "sharedSecret", Json::Str(hex_encode(&invite.shared_secret)));
    let json = Json::Object(fields);
    proof {
        assert(json@->Object_0 =~= invite_json(invite@, with_device)->Object_0);
        lemma_invite_names();
        assert(flat(json@));
        lemma_flat(json@);
        reveal_strlit("#");
    }
    let text = print_json(&json);
    let encoded = percent_encode(text.as_str());
    let r = concat3(root, "#", encoded.as_str());
    assert("#"@ =~= seq!['#']);
    r
}

/// Whether the text of an invite survives its encoding.
pub open spec fn survives(invite: InviteModel, with_device: bool) -> bool {
    let text = json_text(invite_json(invite, with_device));
    &&& percent_decoded(percent_encoded(text)) == Some(text)
    &&& !percent_encoded(text).contains('#')
    &&& says_the_same(json_parsed(text), invite_json(invite, with_device))
}

/// Whether an address is that of an invite under a root without a hash.
pub open spec fn addresses(url: Seq<char>, invite: InviteModel, root: Seq<char>) -> bool {
    url == invite_address(invite, root, true) && survives(invite, true) && !root.contains('#')
}

pub fn invite_url(invite: &Invite, root: &str) -> (r: Result<String, Error>)
    ensures
        r matches Ok(url) && url@ == invite_address(invite@, root@, true) && (!root@.contains('#')
            ==> addresses(url@, invite@, root@)),
{
    Ok(write_invite_url(invite, root, true))
}

/// The first of two fields that holds a text.
pub open spec fn either_text(value: JsonValue, a: Seq<char>, b: Seq<char>) -> Option<Seq<char>> {
    match text_field(value, a) {
        Some(text) => Some(text),
        None => text_field(value, b),
    }
}

fn either_field<'a>(json: &'a Json, a: &str, b: &str) -> (r: Option<&'a String>)
    ensures
        r is Some == either_text(json@, a@, b@) is Some,
        r matches Some(text) ==> either_text(json@, a@, b@) == Some(text@),
{
    match json.text_field(a) {
        Some(text) => Some(text),
        None => json.text_field(b),
    }
}

/// The thirty-two bytes that a text of hexadecimal digits stands for.
pub open spec fn secret_of_hex(text: Seq<char>) -> Result<[u8; 32], Fault> {
    match hex_key(text) {
        Some(bytes) => Ok(bytes),
        None => if hex_bytes(text) is Some {
            Err(Fault::CodecParse)
        } else {
            Err(Fault::Parse)
        },
    }
}

pub(crate) fn parse_hex_32(value: &str) -> (r: Result<[u8; 32], Error>)
    ensures
        match r {
            Ok(bytes) => secret_of_hex(value@) == Ok::<[u8; 32], Fault>(bytes),
            Err(e) => secret_of_hex(value@) == Err::<[u8; 32], Fault>(fault(e)),
        },
{
    match decode_hex_32(value) {
        Ok(bytes) => Ok(bytes),
        Err(HexError::Digits(e)) => Err(Error::Parse(e)),
        Err(HexError::Length) => Err(
            Error::Codec(CodecError::Parse("expected 32-byte hex".to_string())),
        ),
    }
}

/// The invite that a JSON value is.
pub open spec fn invite_of_json(value: JsonValue) -> Result<InviteModel, Fault> {
    match text_field(value, "inviter"@) {
        None => Err(Fault::InvalidInvite),
        Some(inviter) => match public_key_parsed(inviter) {
            None => Err(Fault::NostrKey),
            Some(inviter) => match either_text(
                value,
                "ephemeralKey"@,
                "inviterEphemeralPublicKey"@,
            ) {
                None => Err(Fault::InvalidInvite),
                Some(key) => match public_key_parsed(key) {
                    None => Err(Fault::NostrKey),
                    Some(key) => match text_field(value, "sharedSecret"@) {
                        None => Err(Fault::InvalidInvite),
                        Some(secret) => match secret_of_hex(secret) {
                            Err(f) => Err(f),
                            Ok(secret) => invite_with_owner(
                                value,
                                OwnerPubkey(inviter),
                                DevicePubkey(key),
                                secret,
                            ),
                        },
                    },
                },
            },
        },
    }
}

pub open spec fn invite_with_owner(
    value: JsonValue,
    inviter: OwnerPubkey,
    ephemeral_key: DevicePubkey,
    shared_secret: [u8; 32],
) -> Result<InviteModel, Fault> {
    let invite = InviteModel {
        ephemeral_key,
        shared_secret,
        inviter,
        ephemeral_secret: None,
        device_id: text_field(value, "deviceId"@),
        max_uses: None,
        used_by: Seq::empty(),
        created_at: UnixSeconds(0),
        purpose: text_field(value, "purpose"@),
        owner: None,
    };
    match either_text(value, "owner"@, "ownerPubkey"@) {
        None => Ok(invite),
        Some(owner) => match public_key_parsed(owner) {
            None => Err(Fault::NostrKey),
            Some(owner) => Ok(InviteModel { owner: Some(OwnerPubkey(owner)), ..invite }),
        },
    }
}

/// The invite that an address is.
pub open spec fn invite_of_address(url: Seq<char>) -> Result<InviteModel, Fault> {
    match part(url, '#', 1) {
        None => Err(Fault::InvalidInvite),
        Some(hash) => match percent_decoded(hash) {
            None => Err(Fault::InvalidInvite),
            Some(text) => match json_parsed(text) {
                None => Err(Fault::Parse),
                Some(value) => invite_of_json(value),
            },
        },
    }
}

/// The JSON value behind the hash of an address.
pub(crate) fn address_json(url: &str) -> (r: Result<Json, Error>)
    ensures
        match r {
            Ok(json) => part(url@, '#', 1) is Some && percent_decoded(
                part(url@, '#', 1)->Some_0,
            ) is Some && json_parsed(percent_decoded(part(url@, '#', 1)->Some_0)->Some_0) == Some(
                json@,
            ),
            Err(e) => match part(url@, '#', 1) {
                None => fault(e) == Fault::InvalidInvite,
                Some(hash) => match percent_decoded(hash) {
                    None => fault(e) == Fault::InvalidInvite,
                    Some(text) => json_parsed(text) is None && fault(e) == Fault::Parse,
                },
            },
        },
{
    let hash = match nth_part(url, '#', 1) {
        Some(hash) => hash,
        None => {
            return Err(invalid_invite("no hash in invite URL"));
        },
    };
    let decoded = match percent_decode(hash.as_str()) {
        Ok(text) => text,
        Err(e) => {
            return Err(Error::Codec(CodecError::Invite(e)));
        },
    };
    match parse_json(decoded.as_str()) {
        Ok(json) => Ok(json),
        Err(e) => Err(Error::Parse(e)),
    }
}

fn parse_key(text: &str) -> (r: Result<[u8; 32], Error>)
    ensures
        match r {
            Ok(key) => public_key_parsed(text@) == Some(key),
            Err(e) => public_key_parsed(text@) is None && fault(e) == Fault::NostrKey,
        },
        hex_key(text@) is Some ==> r == Ok::<[u8; 32], Error>(hex_key(text@)->Some_0),
{
    match parse_public_key(text) {
        Ok(key) => Ok(key),
        Err(e) => Err(Error::NostrKey(e)),
    }
}

pub fn parse_invite_url(url: &str) -> (r: Result<Invite, Error>)
    ensures
        match r {
            Ok(invite) => invite_of_address(url@) == Ok::<InviteModel, Fault>(invite@),
            Err(e) => invite_of_address(url@) == Err::<InviteModel, Fault>(fault(e)),
        },
        forall|invite: InviteModel, root: Seq<char>| #[trigger]
            addresses(url@, invite, root) ==> (r matches Ok(found) && found@ == offered(invite)),
{
    proof {
        assert forall|invite: InviteModel, root: Seq<char>| #[trigger]
            addresses(url@, invite, root) implies part(url@, '#', 1) == Some(
            percent_encoded(json_text(invite_json(invite, true))),
        ) && shows(
            json_parsed(json_text(invite_json(invite, true)))->Some_0,
            invite,
            true,
        ) by {
            lemma_address_part(invite, root, true);
            lemma_shows(json_parsed(json_text(invite_json(invite, true)))->Some_0, invite, true);
        }
    }
    let data = match address_json(url) {
        Ok(json) => json,
        Err(e) => {
            return Err(e);
        },
    };
    let inviter: [u8; 32] = match data.text_field("inviter") {
        Some(text) => match parse_key(text.as_str()) {
            Ok(key) => key,
            Err(e) => {
                return Err(e);
            },
        },
        None => {
            return Err(invalid_invite("missing inviter"));
        },
    };
    let ephemeral: [u8; 32] = match either_field(
        &data,
        "ephemeralKey",
        "inviterEphemeralPublicKey",
    ) {
        Some(text) => match parse_key(text.as_str()) {
            Ok(key) => key,
            Err(e) => {
                return Err(e);
            },
        },
        None => {
            return Err(invalid_invite("missing ephemeralKey"));
        },
    };
    let shared_secret: [u8; 32] = match data.text_field("sharedSecret") {
        Some(text) => match parse_hex_32(text.as_str()) {
            Ok(bytes) => bytes,
            Err(e) => {
                return Err(e);
            },
        },
        None => {
            return Err(invalid_invite("missing sharedSecret"));
        },
    };
    let owner_public_key: Option<OwnerPubkey> = match either_field(&data, "owner", "ownerPubkey") {
        Some(text) => match parse_key(text.as_str()) {
            Ok(key) => Some(OwnerPubkey(key)),
            Err(e) => {
                return Err(e);
            },
        },
        None => None,
    };
    let device_id = match data.text_field("deviceId") {
        Some(text) => Some(DeviceId::new(text.as_str())),
        None => None,
    };
    let purpose = match data.text_field("purpose") {
        Some(text) => Some(text.clone()),
        None => None,
    };
    let invite = Invite {
        inviter_ephemeral_public_key: DevicePubkey(ephemeral),
        shared_secret,
        inviter: OwnerPubkey(inviter),
        inviter_ephemeral_private_key: None,
        device_id,
        max_uses: None,
        used_by: Vec::new(),
        created_at: UnixSeconds(0),
        purpose,
        owner_public_key,
    };
    assert(invite@.used_by =~= Seq::empty());
    Ok(invite)
}

/// What of an invite an address carries.
pub open spec fn offered(invite: InviteModel) -> InviteModel {
    InviteModel {
        ephemeral_secret: None,
        max_uses: None,
        used_by: Seq::empty(),
        created_at: UnixSeconds(0),
        ..invite
    }
}

proof fn lemma_invite_names()
    ensures
        "inviter"@ != "ephemeralKey"@ && "inviter"@ != "sharedSecret"@ && "inviter"@ != "deviceId"@
            && "inviter"@ != "purpose"@ && "inviter"@ != "owner"@,
        "ephemeralKey"@ != "sharedSecret"@ && "ephemeralKey"@ != "deviceId"@ && "ephemeralKey"@
            != "purpose"@ && "ephemeralKey"@ != "owner"@,
        "sharedSecret"@ != "deviceId"@ && "sharedSecret"@ != "purpose"@ && "sharedSecret"@
            != "owner"@,
        "deviceId"@ != "purpose"@ && "deviceId"@ != "owner"@ && "purpose"@ != "owner"@,
        "ownerPubkey"@ != "inviter"@ && "ownerPubkey"@ != "ephemeralKey"@ && "ownerPubkey"@
            != "sharedSecret"@ && "ownerPubkey"@ != "deviceId"@ && "ownerPubkey"@ != "purpose"@
            && "ownerPubkey"@ != "owner"@,
{
    reveal_strlit("inviter");
    reveal_strlit("ephemeralKey");
    reveal_strlit("sharedSecret");
    reveal_strlit("deviceId");
    reveal_strlit("purpose");
    reveal_strlit("owner");
    reveal_strlit("ownerPubkey");
    assert("inviter"@.len() == 7 && "inviter"@[0] == 'i');
    assert("ephemeralKey"@.len() == 12 && "ephemeralKey"@[0] == 'e');
    assert("sharedSecret"@.len() == 12 && "sharedSecret"@[0] == 's');
    assert("deviceId"@.len() == 8);
    assert("purpose"@.len() == 7 && "purpose"@[0] == 'p');
    assert("owner"@.len() == 5);
    assert("ownerPubkey"@.len() == 11);
}

/// Whether a JSON value shows what an invite offers.
pub open spec fn shows(value: JsonValue, invite: InviteModel, with_device: bool) -> bool {
    &&& text_field(value, "inviter"@) == Some(hex_text(invite.inviter.0@))
    &&& text_field(value, "ephemeralKey"@) == Some(hex_text(invite.ephemeral_key.0@))
    &&& text_field(value, "sharedSecret"@) == Some(hex_text(invite.shared_secret@))
    &&& with_device ==> text_field(value, "deviceId"@) == invite.device_id
    &&& text_field(value, "purpose"@) == invite.purpose
    &&& either_text(value, "owner"@, "ownerPubkey"@) == match invite.owner {
        Some(owner) => Some(hex_text(owner.0@)),
        None => None,
    }
    &&& hex_key(hex_text(invite.inviter.0@)) == Some(invite.inviter.0)
    &&& hex_key(hex_text(invite.ephemeral_key.0@)) == Some(invite.ephemeral_key.0)
    &&& hex_key(hex_text(invite.shared_secret@)) == Some(invite.shared_secret)
    &&& invite.owner matches Some(owner) ==> hex_key(hex_text(owner.0@)) == Some(owner.0)
}

pub proof fn lemma_shows(found: JsonValue, invite: InviteModel, with_device: bool)
    requires
        says_the_same(Some(found), invite_json(invite, with_device)),
    ensures
        shows(found, invite, with_device),
{
    lemma_invite_names();
    hex_key_round_trip(invite.inviter.0);
    hex_key_round_trip(invite.ephemeral_key.0);
    hex_key_round_trip(invite.shared_secret);
    if invite.owner is Some {
        hex_key_round_trip(invite.owner->Some_0.0);
    }
    let value = invite_json(invite, with_device);
    let fields = value->Object_0;
    assert(each_once(fields));
    lemma_members(fields);
    let key: int = if with_device && invite.device_id is Some {
        assert(fields[0].0 == "deviceId"@);
        1
    } else {
        0
    };
    assert(fields[key].0 == "ephemeralKey"@);
    assert(fields[key + 1].0 == "inviter"@);
    let purpose: int = if invite.owner is Some {
        assert(fields[key + 2].0 == "owner"@);
        key + 3
    } else {
        key + 2
    };
    if invite.purpose is Some {
        assert(fields[purpose].0 == "purpose"@);
    }
    assert(fields.last().0 == "sharedSecret"@);
    assert(field_of(found, "inviter"@) == field_of(value, "inviter"@));
    assert(field_of(found, "ephemeralKey"@) == field_of(value, "ephemeralKey"@));
    assert(field_of(found, "sharedSecret"@) == field_of(value, "sharedSecret"@));
    assert(field_of(found, "deviceId"@) == field_of(value, "deviceId"@));
    assert(field_of(found, "purpose"@) == field_of(value, "purpose"@));
    assert(field_of(found, "owner"@) == field_of(value, "owner"@));
    assert(field_of(found, "ownerPubkey"@) == field_of(value, "ownerPubkey"@));
}

pub proof fn lemma_address_part(invite: InviteModel, root: Seq<char>, with_device: bool)
    requires
        !root.contains('#'),
        survives(invite, with_device),
    ensures
        part(invite_address(invite, root, with_device), '#', 1) == Some(
            percent_encoded(json_text(invite_json(invite, with_device))),
        ),
{
    let url = invite_address(invite, root, with_device);
    let encoded = percent_encoded(json_text(invite_json(invite, with_device)));
    let n = root.len() as int;
    assert forall|i: int| 0 <= i < n implies url[i] != '#' by {
        assert(root[i] != '#') by {
            if root[i] == '#' {
                assert(root.contains('#'));
            }
        }
    }
    lemma_first_of_is(url, '#', n);
    assert(url.skip(n + 1) =~= encoded);
    assert forall|i: int| 0 <= i < encoded.len() implies encoded[i] != '#' by {
        if encoded[i] == '#' {
            assert(encoded.contains('#'));
        }
    }
    lemma_first_of_is(encoded, '#', encoded.len() as int);
    assert(encoded.take(encoded.len() as int) =~= encoded);
    reveal_with_fuel(part, 2);
}

// ---------------------------------------------------------------------------
// Invites as events
// ---------------------------------------------------------------------------

/// Adds a tag of two texts.
pub(crate) fn push_pair(tags: &mut Vec<Vec<String>>, name: &str, value: &str)
    ensures
        tag_texts(final(tags)@) == tag_texts(old(tags)@).push(seq![name@, value@]),
{
    let ghost before = tag_texts(tags@);
    tags.push(pair_of(name, value));
    assert(tag_texts(tags@) =~= before.push(seq![name@, value@]));
}

/// The tags that every invite of a device has.
pub open spec fn invite_base_tags(invite: InviteModel, device_id: Seq<char>) -> Seq<Seq<Seq<char>>> {
    seq![
        seq!["ephemeralKey"@, hex_text(invite.ephemeral_key.0@)],
        seq!["sharedSecret"@, hex_text(invite.shared_secret@)],
        seq!["d"@, INVITE_D_PREFIX@ + device_id],
        seq!["l"@, INVITE_LIST_LABEL@],
    ]
}

/// The tags of an invite of a device.
pub open spec fn invite_tags(invite: InviteModel, device_id: Seq<char>) -> Seq<Seq<Seq<char>>> {
    let tags = invite_base_tags(invite, device_id);
    let tags = match invite.purpose {
        Some(purpose) => tags.push(seq!["purpose"@, purpose]),
        None => tags,
    };
    match invite.owner {
        Some(owner) => tags.push(seq!["ownerPublicKey"@, hex_text(owner.0@)]),
        None => tags,
    }
}

/// The event that an invite is published in.
pub open spec fn invite_event_body(invite: InviteModel, tags: Seq<Seq<Seq<char>>>) -> EventBody {
    EventBody {
        pubkey: invite.inviter.device(),
        created_at: invite.created_at,
        kind: INVITE_EVENT_KIND as u16,
        tags,
        content: Seq::empty(),
    }
}

/// The tags that every invite of a device has.
pub(crate) fn base_tags(invite: &Invite, device_id: &DeviceId) -> (r: Vec<Vec<String>>)
    ensures
        tag_texts(r@) == invite_base_tags(invite@, device_id@),
{
    let mut tags: Vec<Vec<String>> = Vec::new();
    push_pair(&mut tags, "ephemeralKey", invite.inviter_ephemeral_public_key.to_hex().as_str());
    push_pair(&mut tags, "sharedSecret", hex_encode(&invite.shared_secret).as_str());
    push_pair(&mut tags, "d", concat(INVITE_D_PREFIX, device_id.as_str()).as_str());
    push_pair(&mut tags, "l", INVITE_LIST_LABEL);
    assert(tag_texts(tags@) =~= invite_base_tags(invite@, device_id@));
    tags
}

pub fn invite_unsigned_event(invite: &Invite) -> (r: Result<UnsignedEvent, Error>)
    ensures
        match r {
            Ok(event) => invite@.device_id is Some && event@ == invite_event_body(
                invite@,
                invite_tags(invite@, invite@.device_id->Some_0),
            ),
            Err(e) => invite@.device_id is None && fault(e) == Fault::DeviceIdRequired,
        },
{
    let device_id = match &invite.device_id {
        Some(id) => id,
        None => {
            return Err(Error::Domain(DomainError::DeviceIdRequired));
        },
    };
    let mut tags = base_tags(invite, device_id);
    if let Some(purpose) = &invite.purpose {
        push_pair(&mut tags, "purpose", purpose.as_str());
    }
    if let Some(owner) = invite.owner_public_key {
        push_pair(&mut tags, "ownerPublicKey", owner.to_hex().as_str());
    }
    let event = UnsignedEvent {
        pubkey: invite.inviter.as_device(),
        created_at: invite.created_at,
        kind: INVITE_EVENT_KIND as u16,
        tags,
        content: String::new(),
    };
    assert(event@.content =~= Seq::empty());
    Ok(event)
}

/// The invite that an event carries.
pub open spec fn invite_of_event(event: SignedBody) -> Result<InviteModel, Fault> {
    let tags = event.body.tags;
    if event.body.kind != INVITE_EVENT_KIND || !event_verifies(event) {
        Err(Fault::InvalidEvent)
    } else {
        match (tag_value(tags, "d"@), tag_value(tags, "ephemeralKey"@)) {
            (Some(name), Some(key)) => match public_key_parsed(key) {
                None => Err(Fault::NostrKey),
                Some(key) => match tag_value(tags, "sharedSecret"@) {
                    None => Err(Fault::InvalidEvent),
                    Some(secret) => match secret_of_hex(secret) {
                        Err(f) => Err(f),
                        Ok(secret) => {
                            let invite = InviteModel {
                                ephemeral_key: DevicePubkey(key),
                                shared_secret: secret,
                                inviter: event.body.pubkey.owner(),
                                ephemeral_secret: None,
                                device_id: after_prefix(name, INVITE_D_PREFIX@),
                                max_uses: None,
                                used_by: Seq::empty(),
                                created_at: event.body.created_at,
                                purpose: tag_value(tags, "purpose"@),
                                owner: None,
                            };
                            match tag_value(tags, "ownerPublicKey"@) {
                                None => Ok(invite),
                                Some(owner) => match public_key_parsed(owner) {
                                    None => Err(Fault::NostrKey),
                                    Some(owner) => Ok(
                                        InviteModel { owner: Some(OwnerPubkey(owner)), ..invite },
                                    ),
                                },
                            }
                        },
                    },
                },
            },
            _ => Err(Fault::InvalidEvent),
        }
    }
}

/// What of an invite an event carries.
pub open spec fn announced(invite: InviteModel) -> InviteModel {
    InviteModel { ephemeral_secret: None, max_uses: None, used_by: Seq::empty(), ..invite }
}

/// Whether a signed event is that of an invite of a device.
pub open spec fn announces(event: SignedBody, invite: InviteModel) -> bool {
    &&& invite.device_id is Some
    &&& signs(
        event,
        invite_event_body(invite, invite_tags(invite, invite.device_id->Some_0)),
    )
}

/// Whether tags show what an invite says.
pub open spec fn tags_show(tags: Seq<Seq<Seq<char>>>, invite: InviteModel) -> bool {
    &&& tag_value(tags, "d"@) is Some
    &&& after_prefix(tag_value(tags, "d"@)->Some_0, INVITE_D_PREFIX@) == invite.device_id
    &&& tag_value(tags, "ephemeralKey"@) == Some(hex_text(invite.ephemeral_key.0@))
    &&& tag_value(tags, "sharedSecret"@) == Some(hex_text(invite.shared_secret@))
    &&& tag_value(tags, "purpose"@) == invite.purpose
    &&& tag_value(tags, "ownerPublicKey"@) == match invite.owner {
        Some(owner) => Some(hex_text(owner.0@)),
        None => None,
    }
    &&& hex_key(hex_text(invite.ephemeral_key.0@)) == Some(invite.ephemeral_key.0)
    &&& hex_key(hex_text(invite.shared_secret@)) == Some(invite.shared_secret)
    &&& invite.owner matches Some(owner) ==> hex_key(hex_text(owner.0@)) == Some(owner.0)
}

proof fn lemma_tags_show(invite: InviteModel)
    requires
        invite.device_id is Some,
    ensures
        tags_show(invite_tags(invite, invite.device_id->Some_0), invite),
{
    let id = invite.device_id->Some_0;
    let tags = invite_tags(invite, id);
    lemma_tag_names();
    hex_key_round_trip(invite.ephemeral_key.0);
    hex_key_round_trip(invite.shared_secret);
    if invite.owner is Some {
        hex_key_round_trip(invite.owner->Some_0.0);
    }
    let name = INVITE_D_PREFIX@ + id;
    assert(name.take(INVITE_D_PREFIX@.len() as int) =~= INVITE_D_PREFIX@);
    assert(name.skip(INVITE_D_PREFIX@.len() as int) =~= id);
    reveal_with_fuel(tag_value, 7);
    let t1 = tags.drop_first();
    let t2 = t1.drop_first();
    let t3 = t2.drop_first();
    let t4 = t3.drop_first();
    let t5 = t4.drop_first();
    assert(t1 =~= tags.skip(1) && t2 =~= tags.skip(2) && t3 =~= tags.skip(3));
    assert(t1[0] == tags[1] && t2[0] == tags[2] && t3[0] == tags[3]);
    if t4.len() > 0 {
        assert(t4[0] == tags[4]);
    }
    if t4.len() > 1 {
        assert(t5[0] == tags[5]);
    }
}

proof fn lemma_tag_names()
    ensures
        "ephemeralKey"@ != "sharedSecret"@ && "ephemeralKey"@ != "d"@ && "ephemeralKey"@ != "l"@
            && "ephemeralKey"@ != "purpose"@ && "ephemeralKey"@ != "ownerPublicKey"@,
        "sharedSecret"@ != "d"@ && "sharedSecret"@ != "l"@ && "sharedSecret"@ != "purpose"@
            && "sharedSecret"@ != "ownerPublicKey"@,
        "d"@ != "l"@ && "d"@ != "purpose"@ && "d"@ != "ownerPublicKey"@,
        "l"@ != "purpose"@ && "l"@ != "ownerPublicKey"@ && "purpose"@ != "ownerPublicKey"@,
{
    reveal_strlit("ephemeralKey");
    reveal_strlit("sharedSecret");
    reveal_strlit("d");
    reveal_strlit("l");
    reveal_strlit("purpose");
    reveal_strlit("ownerPublicKey");
    assert("ephemeralKey"@.len() == 12 && "ephemeralKey"@[0] == 'e');
    assert("sharedSecret"@.len() == 12 && "sharedSecret"@[0] == 's');
    assert("d"@.len() == 1 && "d"@[0] == 'd');
    assert("l"@.len() == 1 && "l"@[0] == 'l');
    assert("purpose"@.len() == 7);
    assert("ownerPublicKey"@.len() == 14);
}

pub fn parse_invite_event(event: &Event) -> (r: Result<Invite, Error>)
    ensures
        match r {
            Ok(invite) => invite_of_event(event@) == Ok::<InviteModel, Fault>(invite@),
            Err(e) => invite_of_event(event@) == Err::<InviteModel, Fault>(fault(e)),
        },
        forall|invite: InviteModel| #[trigger]
            announces(event@, invite) ==> (r matches Ok(found) && found@ == announced(invite)),
{
    proof {
        assert forall|invite: InviteModel| #[trigger] announces(event@, invite) implies tags_show(
            event@.body.tags,
            invite,
        ) by {
            lemma_tags_show(invite);
        }
    }
    match check_event(event, INVITE_EVENT_KIND as u16) {
        Ok(()) => {},
        Err(e) => {
            return Err(e);
        },
    }
    let name = match required_tag_value(event, "d") {
        Ok(text) => text,
        Err(e) => {
            return Err(e);
        },
    };
    let device_id = match without_prefix(name.as_str(), INVITE_D_PREFIX) {
        Some(id) => Some(DeviceId(id)),
        None => None,
    };
    let ephemeral: [u8; 32] = match required_tag_value(event, "ephemeralKey") {
        Ok(text) => match parse_key(text.as_str()) {
            Ok(key) => key,
            Err(e) => {
                return Err(e);
            },
        },
        Err(e) => {
            return Err(e);
        },
    };
    let shared_secret: [u8; 32] = match required_tag_value(event, "sharedSecret") {
        Ok(text) => match parse_hex_32(text.as_str()) {
            Ok(bytes) => bytes,
            Err(e) => {
                return Err(e);
            },
        },
        Err(e) => {
            return Err(e);
        },
    };
    let owner_public_key: Option<OwnerPubkey> = match optional_tag_value(
        &event.tags,
        "ownerPublicKey",
    ) {
        Some(text) => match parse_key(text.as_str()) {
            Ok(key) => Some(OwnerPubkey(key)),
            Err(e) => {
                return Err(e);
            },
        },
        None => None,
    };
    let invite = Invite {
        inviter_ephemeral_public_key: DevicePubkey(ephemeral),
        shared_secret,
        inviter: event.pubkey.as_owner(),
        inviter_ephemeral_private_key: None,
        device_id,
        max_uses: None,
        used_by: Vec::new(),
        created_at: event.created_at,
        purpose: optional_tag_value(&event.tags, "purpose"),
        owner_public_key,
    };
    assert(invite@.used_by =~= Seq::empty());
    Ok(invite)
}

// ---------------------------------------------------------------------------
// Invite responses
// ---------------------------------------------------------------------------

/// The event that an invite response is published in. The recipient is named,
/// unless it is the sender itself.
pub open spec fn response_event_body(
    sender: DevicePubkey,
    recipient: DevicePubkey,
    created_at: UnixSeconds,
    content: Seq<char>,
) -> EventBody {
    EventBody {
        pubkey: sender,
        created_at,
        kind: INVITE_RESPONSE_KIND as u16,
        tags: without_mentions(
            seq![seq!["p"@, hex_text(recipient.0@)]],
            hex_text(sender.0@),
        ),
        content,
    }
}

proof fn lemma_mention_tags(sender: DevicePubkey, recipient: DevicePubkey)
    ensures
        ({
            let tags = seq![seq!["p"@, hex_text(recipient.0@)]];
            let kept = without_mentions(tags, hex_text(sender.0@));
            &&& forall|i: int| 0 <= i < kept.len() ==> (#[trigger] kept[i]).len() > 0
            &&& recipient != sender ==> kept == tags
            &&& recipient == sender ==> kept.len() == 0
        }),
{
    let tags = seq![seq!["p"@, hex_text(recipient.0@)]];
    reveal_with_fuel(without_mentions, 2);
    assert(tags.drop_last() =~= Seq::empty());
    if recipient != sender {
        hex_key_round_trip(recipient.0);
        hex_key_round_trip(sender.0);
        assert(hex_text(recipient.0@) != hex_text(sender.0@));
        assert(without_mentions(tags, hex_text(sender.0@)) =~= tags);
    }
}

pub fn invite_response_event(envelope: &OutgoingInviteResponseEnvelope) -> (r: Result<Event, Error>)
    ensures
        match r {
            Ok(event) => signer_fault(envelope.sender, envelope.signer_secret_key) is None && signs(
                event@,
                response_event_body(
                    envelope.sender,
                    envelope.recipient,
                    envelope.created_at,
                    envelope.content@,
                ),
            ),
            Err(e) => signer_fault(envelope.sender, envelope.signer_secret_key) == Some(fault(e)),
        },
{
    match check_signer(envelope.sender, &envelope.signer_secret_key) {
        Ok(()) => {},
        Err(e) => {
            return Err(e);
        },
    }
    let mut named: Vec<Vec<String>> = Vec::new();
    push_pair(&mut named, "p", envelope.recipient.to_hex().as_str());
    assert(tag_texts(named@) =~= seq![seq!["p"@, hex_text(envelope.recipient.0@)]]);
    let tags = drop_mentions(named, envelope.sender.to_hex().as_str());
    proof {
        lemma_mention_tags(envelope.sender, envelope.recipient);
    }
    let unsigned = UnsignedEvent {
        pubkey: envelope.sender,
        created_at: envelope.created_at,
        kind: INVITE_RESPONSE_KIND as u16,
        tags,
        content: envelope.content.clone(),
    };
    unsigned.sign_with_secret(&envelope.signer_secret_key)
}

/// Why an event is no invite response, if it is none.
pub open spec fn response_event_fault(event: SignedBody) -> Option<Fault> {
    if event.body.kind != INVITE_RESPONSE_KIND || !event_verifies(event) {
        Some(Fault::InvalidEvent)
    } else {
        match tag_value(event.body.tags, "p"@) {
            None => Some(Fault::InvalidEvent),
            Some(key) => if public_key_parsed(key) is None {
                Some(Fault::NostrKey)
            } else {
                None
            },
        }
    }
}

pub fn parse_invite_response_event(event: &Event) -> (r: Result<
    IncomingInviteResponseEnvelope,
    Error,
>)
    ensures
        match r {
            Ok(envelope) => response_event_fault(event@) is None && envelope.sender == event.pubkey
                && envelope.created_at == event.created_at && envelope.content@ == event.content@,
            Err(e) => response_event_fault(event@) == Some(fault(e)),
        },
        forall|recipient: DevicePubkey|
            recipient != event.pubkey && signs(
                event@,
                #[trigger] response_event_body(
                    event.pubkey,
                    recipient,
                    event.created_at,
                    event.content@,
                ),
            ) ==> r is Ok,
{
    proof {
        assert forall|recipient: DevicePubkey|
            recipient != event.pubkey && signs(
                event@,
                #[trigger] response_event_body(
                    event.pubkey,
                    recipient,
                    event.created_at,
                    event.content@,
                ),
            ) implies tag_value(event@.body.tags, "p"@) == Some(hex_text(recipient.0@)) && hex_key(
            hex_text(recipient.0@),
        ) is Some by {
            lemma_mention_tags(event.pubkey, recipient);
            hex_key_round_trip(recipient.0);
        }
    }
    match check_event(event, INVITE_RESPONSE_KIND as u16) {
        Ok(()) => {},
        Err(e) => {
            return Err(e);
        },
    }
    match required_tag_value(event, "p") {
        Ok(text) => match parse_key(text.as_str()) {
            Ok(_) => {},
            Err(e) => {
                return Err(e);
            },
        },
        Err(e) => {
            return Err(e);
        },
    }
    Ok(
        IncomingInviteResponseEnvelope {
            sender: event.pubkey,
            created_at: event.created_at,
            content: event.content.clone(),
        },
    )
}

// ---------------------------------------------------------------------------
// Device lists
// ---------------------------------------------------------------------------

/// The devices that an event lists, and whose they are.
#[derive(Debug)]
pub struct DecodedAppKeysEvent {
    pub owner_pubkey: OwnerPubkey,
    pub created_at: UnixSeconds,
    pub app_keys: AppKeys,
}

/// Whether an event is a list of devices.
pub open spec fn lists_devices(body: EventBody) -> bool {
    body.kind == APP_KEYS_EVENT_KIND && tag_value(body.tags, "d"@) == Some(APP_KEYS_D_TAG@)
}

pub fn is_app_keys_event(event: &Event) -> (r: bool)
    ensures
        r == lists_devices(event@.body),
{
    if event.kind != APP_KEYS_EVENT_KIND as u16 {
        return false;
    }
    match optional_tag_value(&event.tags, "d") {
        Some(text) => crate::order::same_str(text.as_str(), APP_KEYS_D_TAG),
        None => false,
    }
}

/// The tag of a device.
pub open spec fn device_tag(device: DeviceEntry) -> Seq<Seq<char>> {
    seq![
        "device"@,
        hex_text(device.identity_pubkey.0@),
        decimal(device.created_at.0 as nat),
    ]
}

/// The tags of a list of devices.
pub open spec fn device_list_tags(list: Seq<DeviceEntry>) -> Seq<Seq<Seq<char>>> {
    seq![seq!["d"@, APP_KEYS_D_TAG@], seq!["version"@, APP_KEYS_VERSION@]] + Seq::new(
        list.len(),
        |i: int| device_tag(list[i]),
    )
}

/// The event that a list of devices is published in.
pub open spec fn device_list_event(
    owner: DevicePubkey,
    created_at: UnixSeconds,
    devices: Map<DevicePubkey, DeviceEntry>,
    content: Seq<char>,
) -> EventBody {
    EventBody {
        pubkey: owner,
        created_at,
        kind: APP_KEYS_EVENT_KIND as u16,
        tags: device_list_tags(ordered_values::<DevicePubkey, DeviceEntry>(devices)),
        content,
    }
}

fn build_app_keys_unsigned_event(
    owner: DevicePubkey,
    created_at: UnixSeconds,
    app_keys: &AppKeys,
    content: String,
) -> (r: UnsignedEvent)
    ensures
        r@ == device_list_event(owner, created_at, app_keys@.devices, content@),
{
    let mut tags: Vec<Vec<String>> = Vec::new();
    push_pair(&mut tags, "d", APP_KEYS_D_TAG);
    push_pair(&mut tags, "version", APP_KEYS_VERSION);
    let devices = app_keys.get_all_devices();
    let ghost list = devices@;
    assert(tag_texts(tags@) =~= device_list_tags(list.take(0)));
    let mut i: usize = 0;
    while i < devices.len()
        invariant
            i <= devices@.len(),
            list == devices@,
            tag_texts(tags@) == device_list_tags(list.take(i as int)),
        decreases devices@.len() - i,
    {
        let ghost before = tag_texts(tags@);
        let mut tag: Vec<String> = pair_of(
            "device",
            devices[i].identity_pubkey.to_hex().as_str(),
        );
        let ghost pair = texts(tag@);
        tag.push(decimal_text(devices[i].created_at.0 as u128));
        assert(texts(tag@) =~= pair.push(decimal(list[i as int].created_at.0 as nat)));
        assert(texts(tag@) =~= device_tag(list[i as int]));
        tags.push(tag);
        assert(tag_texts(tags@) =~= before.push(device_tag(list[i as int])));
        assert(device_list_tags(list.take(i + 1)) =~= device_list_tags(list.take(i as int)).push(
            device_tag(list[i as int]),
        ));
        i = i + 1;
    }
    assert(list.take(i as int) =~= list);
    UnsignedEvent { pubkey: owner, created_at, kind: APP_KEYS_EVENT_KIND as u16, tags, content }
}

pub fn app_keys_unsigned_event(
    owner_pubkey: OwnerPubkey,
    created_at: UnixSeconds,
    app_keys: &AppKeys,
) -> (r: Result<UnsignedEvent, Error>)
    ensures
        r matches Ok(event) && event@ == device_list_event(
            owner_pubkey.device(),
            created_at,
            app_keys@.devices,
            Seq::empty(),
        ),
{
    let content = String::new();
    assert(content@ =~= Seq::empty());
    Ok(build_app_keys_unsigned_event(owner_pubkey.as_device(), created_at, app_keys, content))
}

/// The device that a tag lists, if it is the tag of one.
pub open spec fn device_of_tag(tag: Seq<Seq<char>>) -> Option<Result<DeviceEntry, Fault>> {
    if tag.len() == 0 || tag[0] != "device"@ {
        None
    } else if tag.len() < 2 {
        Some(Err(Fault::InvalidEvent))
    } else {
        Some(
            match public_key_parsed(tag[1]) {
                None => Err(Fault::NostrKey),
                Some(key) => if tag.len() < 3 {
                    Err(Fault::InvalidEvent)
                } else {
                    match number_value(tag[2]) {
                        None => Err(Fault::CodecParse),
                        Some(n) => Ok(
                            DeviceEntry {
                                identity_pubkey: DevicePubkey(key),
                                created_at: UnixSeconds(n as u64),
                            },
                        ),
                    }
                },
            },
        )
    }
}

/// The devices that tags list.
pub open spec fn devices_of_tags(tags: Seq<Seq<Seq<char>>>) -> Result<Seq<DeviceEntry>, Fault>
    decreases tags.len(),
{
    if tags.len() == 0 {
        Ok(Seq::empty())
    } else {
        match devices_of_tags(tags.drop_last()) {
            Err(f) => Err(f),
            Ok(list) => match device_of_tag(tags.last()) {
                None => Ok(list),
                Some(Err(f)) => Err(f),
                Some(Ok(device)) => Ok(list.push(device)),
            },
        }
    }
}

proof fn lemma_devices_fault(tags: Seq<Seq<Seq<char>>>, n: int, f: Fault)
    requires
        0 <= n <= tags.len(),
        devices_of_tags(tags.take(n)) == Err::<Seq<DeviceEntry>, Fault>(f),
    ensures
        devices_of_tags(tags) == Err::<Seq<DeviceEntry>, Fault>(f),
    decreases tags.len() - n,
{
    if n == tags.len() {
        assert(tags.take(n) =~= tags);
    } else {
        assert(tags.take(n + 1).drop_last() =~= tags.take(n));
        lemma_devices_fault(tags, n + 1, f);
    }
}

fn read_device_tag(tag: &Vec<String>) -> (r: Result<Option<DeviceEntry>, Error>)
    ensures
        match r {
            Ok(None) => device_of_tag(texts(tag@)) is None,
            Ok(Some(device)) => device_of_tag(texts(tag@)) == Some(
                Ok::<DeviceEntry, Fault>(device),
            ),
            Err(e) => device_of_tag(texts(tag@)) == Some(Err::<DeviceEntry, Fault>(fault(e))),
        },
        forall|device: DeviceEntry| #[trigger]
            device_tag(device) == texts(tag@) ==> r == Ok::<Option<DeviceEntry>, Error>(
                Some(device),
            ),
{
    proof {
        assert forall|device: DeviceEntry| #[trigger] device_tag(device) == texts(tag@) implies {
            &&& texts(tag@).len() == 3
            &&& texts(tag@)[0] == "device"@
            &&& hex_key(texts(tag@)[1]) == Some(device.identity_pubkey.0)
            &&& number_value(texts(tag@)[2]) == Some(device.created_at.0 as nat)
        } by {
            hex_key_round_trip(device.identity_pubkey.0);
            decimal_round_trip(device.created_at.0 as nat);
        }
    }
    if tag.len() == 0 || !crate::order::same_str(tag[0].as_str(), "device") {
        return Ok(None);
    }
    if tag.len() < 2 {
        return Err(invalid_event("device tag missing pubkey"));
    }
    let key: [u8; 32] = match parse_key(tag[1].as_str()) {
        Ok(key) => key,
        Err(e) => {
            return Err(e);
        },
    };
    if tag.len() < 3 {
        return Err(invalid_event("device tag missing created_at"));
    }
    match parse_number(tag[2].as_str()) {
        Some(n) => Ok(
            Some(
                DeviceEntry { identity_pubkey: DevicePubkey(key), created_at: UnixSeconds(n) },
            ),
        ),
        None => Err(Error::Codec(CodecError::Parse("invalid number".to_string()))),
    }
}

/// The devices that an event lists.
pub open spec fn device_list_of(event: SignedBody) -> Result<Seq<DeviceEntry>, Fault> {
    if !event_verifies(event) || !lists_devices(event.body) {
        Err(Fault::InvalidEvent)
    } else {
        devices_of_tags(event.body.tags)
    }
}

/// Whether a signed event lists devices in their order.
pub open spec fn publishes(event: SignedBody, list: Seq<DeviceEntry>) -> bool {
    &&& event_verifies(event)
    &&& event.body.kind == APP_KEYS_EVENT_KIND
    &&& event.body.tags == device_list_tags(list)
}

proof fn lemma_publishes(event: SignedBody, list: Seq<DeviceEntry>)
    requires
        publishes(event, list),
    ensures
        lists_devices(event.body),
        event.body.tags.len() == list.len() + 2,
        device_of_tag(event.body.tags[0]) is None,
        device_of_tag(event.body.tags[1]) is None,
        forall|i: int|
            2 <= i < event.body.tags.len() ==> #[trigger] event.body.tags[i] == device_tag(
                list[i - 2],
            ),
{
    reveal_strlit("d");
    reveal_strlit("device");
    reveal_strlit("version");
    assert("d"@.len() == 1);
    assert("device"@.len() == 6);
    assert("version"@.len() == 7);
}

pub fn parse_app_keys_event(event: &Event) -> (r: Result<DecodedAppKeysEvent, Error>)
    ensures
        match r {
            Ok(decoded) => {
                let list = device_list_of(event@);
                &&& list is Ok
                &&& decoded.owner_pubkey == event.pubkey.owner()
                &&& decoded.created_at == event.created_at
                &&& decoded.app_keys@ == (AppKeysModel {
                    devices: listed(list->Ok_0),
                    labels: Map::empty(),
                })
                &&& decoded.app_keys@.keyed()
            },
            Err(e) => device_list_of(event@) == Err::<Seq<DeviceEntry>, Fault>(fault(e)),
        },
        forall|list: Seq<DeviceEntry>| #[trigger]
            publishes(event@, list) ==> device_list_of(event@) == Ok::<Seq<DeviceEntry>, Fault>(
                list,
            ) && r is Ok,
{
    let ghost tags = event@.body.tags;
    proof {
        assert forall|list: Seq<DeviceEntry>| #[trigger] publishes(event@, list) implies {
            &&& lists_devices(event@.body)
            &&& tags.len() == list.len() + 2
            &&& device_of_tag(tags[0]) is None
            &&& device_of_tag(tags[1]) is None
            &&& forall|i: int|
                2 <= i < tags.len() ==> #[trigger] tags[i] == device_tag(list[i - 2])
        } by {
            lemma_publishes(event@, list);
        }
    }
    match check_event(event, APP_KEYS_EVENT_KIND as u16) {
        Ok(()) => {},
        Err(e) => {
            return Err(e);
        },
    }
    if !is_app_keys_event(event) {
        return Err(invalid_event("missing app-keys d tag"));
    }
    let mut devices: Vec<DeviceEntry> = Vec::new();
    let mut i: usize = 0;
    assert(tags.take(0) =~= Seq::empty());
    assert(devices@ =~= Seq::empty());
    while i < event.tags.len()
        invariant
            i <= event.tags@.len(),
            tags == event@.body.tags,
            tags == tag_texts(event.tags@),
            event_verifies(event@),
            lists_devices(event@.body),
            devices_of_tags(tags.take(i as int)) == Ok::<Seq<DeviceEntry>, Fault>(devices@),
            forall|list: Seq<DeviceEntry>| #[trigger]
                publishes(event@, list) ==> tags.len() == list.len() + 2 && device_of_tag(
                    tags[0],
                ) is None && device_of_tag(tags[1]) is None && (forall|j: int|
                    2 <= j < tags.len() ==> #[trigger] tags[j] == device_tag(list[j - 2])),
            forall|list: Seq<DeviceEntry>| #[trigger]
                publishes(event@, list) ==> devices@ == list.take(
                    if i <= 2 {
                        0
                    } else {
                        i - 2
                    },
                ),
        decreases event.tags@.len() - i,
    {
        let ghost before = devices@;
        assert(tags[i as int] == texts(event.tags@[i as int]@));
        assert(tags.take(i + 1).drop_last() =~= tags.take(i as int));
        assert(tags.take(i + 1).last() == tags[i as int]);
        match read_device_tag(&event.tags[i]) {
            Err(e) => {
                proof {
                    lemma_devices_fault(tags, i + 1, fault(e));
                    assert forall|list: Seq<DeviceEntry>| #[trigger]
                        publishes(event@, list) implies false by {
                        if i >= 2 {
                            assert(tags[i as int] == device_tag(list[i - 2]));
                        }
                    }
                }
                return Err(e);
            },
            Ok(None) => {},
            Ok(Some(device)) => {
                devices.push(device);
            },
        }
        proof {
            assert forall|list: Seq<DeviceEntry>| #[trigger] publishes(event@, list) implies devices@
                == list.take(
                if i + 1 <= 2 {
                    0
                } else {
                    i + 1 - 2
                },
            ) by {
                if i >= 2 {
                    assert(tags[i as int] == device_tag(list[i - 2]));
                    assert(devices@ =~= list.take(i - 1));
                }
            }
        }
        i = i + 1;
    }
    proof {
        assert(tags.take(i as int) =~= tags);
        assert forall|list: Seq<DeviceEntry>| #[trigger] publishes(event@, list) implies devices@
            == list by {
            assert(list.take(list.len() as int) =~= list);
        }
    }
    Ok(
        DecodedAppKeysEvent {
            owner_pubkey: event.pubkey.as_owner(),
            created_at: event.created_at,
            app_keys: AppKeys::new(devices),
        },
    )
}

/// The labels of a device as they are published.
pub open spec fn stored_labels_json(key: DevicePubkey, labels: LabelsModel) -> JsonValue {
    JsonValue::Object(
        seq![("identity_pubkey"@, JsonValue::Str(hex_text(key.0@)))] + label_members(labels),
    )
}

/// The members of the labels of a device as they are published.
pub open spec fn stored_labels_names() -> Seq<Seq<char>> {
    seq!["identity_pubkey"@, "device_label"@, "client_label"@, "updated_at"@]
}

/// The labels of a device that a JSON value is: an object, or a list of the
/// members.
pub open spec fn stored_labels_of_json(value: JsonValue) -> Option<(DevicePubkey, LabelsModel)> {
    let value = as_record(value, stored_labels_names());
    match (text_field(value, "identity_pubkey"@), labels_in(value)) {
        (Some(key), Some(labels)) => match hex_key(key) {
            Some(key) => Some((DevicePubkey(key), labels)),
            None => None,
        },
        _ => None,
    }
}

/// The labels of devices, in the order of the devices' keys.
pub open spec fn label_list(labels: Map<DevicePubkey, LabelsModel>) -> Seq<
    (DevicePubkey, LabelsModel),
> {
    Seq::new(
        ordered::<DevicePubkey>(labels.dom()).len(),
        |i: int|
            (
                ordered::<DevicePubkey>(labels.dom())[i],
                labels[ordered::<DevicePubkey>(labels.dom())[i]],
            ),
    )
}

/// What is encrypted of labels.
pub open spec fn labels_json(list: Seq<(DevicePubkey, LabelsModel)>) -> JsonValue {
    JsonValue::Object(
        seq![
            ("type"@, JsonValue::Str(APP_KEYS_LABELS_TYPE@)),
            ("v"@, JsonValue::Uint(1)),
            (
                "device_labels"@,
                JsonValue::Array(
                    Seq::new(list.len(), |i: int| stored_labels_json(list[i].0, list[i].1)),
                ),
            ),
        ],
    )
}

/// The labels that a JSON value lists.
pub open spec fn label_list_of(items: Seq<JsonValue>) -> Option<Seq<(DevicePubkey, LabelsModel)>> {
    if forall|i: int| 0 <= i < items.len() ==> stored_labels_of_json(#[trigger] items[i]) is Some {
        Some(Seq::new(items.len(), |i: int| stored_labels_of_json(items[i])->Some_0))
    } else {
        None
    }
}

/// The members of what is encrypted of labels.
pub open spec fn labels_names() -> Seq<Seq<char>> {
    seq!["type"@, "v"@, "device_labels"@]
}

/// The type, the version and the labels that a JSON value gives: an object, or
/// a list of the members.
pub open spec fn labels_of_json(value: JsonValue) -> Option<
    (Seq<char>, u64, Seq<(DevicePubkey, LabelsModel)>),
> {
    let value = as_record(value, labels_names());
    match (
        text_field(value, "type"@),
        uint_field(value, "v"@),
        field_of(value, "device_labels"@),
    ) {
        (Some(name), Some(version), Some(JsonValue::Array(items))) => match label_list_of(items) {
            Some(list) if version <= u8::MAX => Some((name, version, list)),
            _ => None,
        },
        _ => None,
    }
}

/// Devices with labels. One that labels what is no device is refused.
pub open spec fn with_labels(m: AppKeysModel, list: Seq<(DevicePubkey, LabelsModel)>) -> Option<
    AppKeysModel,
>
    decreases list.len(),
{
    if list.len() == 0 {
        Some(m)
    } else {
        match with_labels(m, list.drop_last()) {
            None => None,
            Some(before) => if before.devices.contains_key(list.last().0) {
                Some(
                    AppKeysModel {
                        labels: before.labels.insert(list.last().0, list.last().1),
                        ..before
                    },
                )
            } else {
                None
            },
        }
    }
}

/// The key with which an owner encrypts for itself.
pub open spec fn own_conversation_key(owner_secret: [u8; 32]) -> Option<[u8; 32]> {
    match public_key_of(owner_secret) {
        Some(public) => conversation_key_of(owner_secret, public),
        None => None,
    }
}

/// The devices that an event lists, with the labels that its content holds for
/// the owner.
pub open spec fn labelled_list_of(event: SignedBody, owner_secret: [u8; 32]) -> Result<
    AppKeysModel,
    Fault,
> {
    match device_list_of(event) {
        Err(f) => Err(f),
        Ok(list) => {
            let m = AppKeysModel { devices: listed(list), labels: Map::empty() };
            if event.body.content.len() == 0 {
                Ok(m)
            } else {
                labelled(m, event.body.content, owner_secret)
            }
        },
    }
}

pub open spec fn labelled(m: AppKeysModel, content: Seq<char>, owner_secret: [u8; 32]) -> Result<
    AppKeysModel,
    Fault,
> {
    match base64_bytes(content) {
        None => Err(Fault::CodecParse),
        Some(payload) => match own_conversation_key(owner_secret) {
            None => Err(Fault::NostrKey),
            Some(key) => match opened(key, payload) {
                None => Err(Fault::Nip44),
                Some(bytes) => if !valid_utf8(bytes) {
                    Err(Fault::CodecParse)
                } else {
                    match record_parsed(decode_utf8(bytes)) {
                        None => Err(Fault::Parse),
                        Some(value) => match labels_of_json(value) {
                            None => Err(Fault::Parse),
                            Some((name, version, list)) => if name != APP_KEYS_LABELS_TYPE@
                                || version != 1 {
                                Err(Fault::InvalidEvent)
                            } else {
                                match with_labels(m, list) {
                                    None => Err(Fault::InvalidEvent),
                                    Some(m) => Ok(m),
                                }
                            },
                        },
                    }
                },
            },
        },
    }
}

/// Whether a text holds labels for an owner.
pub open spec fn holds_labels(
    content: Seq<char>,
    labels: Map<DevicePubkey, LabelsModel>,
    owner_secret: [u8; 32],
) -> bool {
    let text = json_text(labels_json(label_list(labels)));
    &&& content.len() > 0
    &&& base64_bytes(content) is Some
    &&& own_conversation_key(owner_secret) is Some
    &&& opened(own_conversation_key(owner_secret)->Some_0, base64_bytes(content)->Some_0) == Some(
        encode_utf8(text),
    )
    &&& record_parsed(text) == Some(labels_json(label_list(labels)))
}

proof fn lemma_stored_labels(key: DevicePubkey, labels: LabelsModel)
    ensures
        stored_labels_of_json(stored_labels_json(key, labels)) == Some((key, labels)),
{
    reveal_strlit("identity_pubkey");
    reveal_strlit("updated_at");
    reveal_strlit("device_label");
    reveal_strlit("client_label");
    assert("identity_pubkey"@.len() == 15);
    assert("updated_at"@.len() == 10);
    assert("device_label"@.len() == 12 && "device_label"@[0] == 'd');
    assert("client_label"@.len() == 12 && "client_label"@[0] == 'c');
    hex_key_round_trip(key.0);
    let fields = stored_labels_json(key, labels)->Object_0;
    assert(each_once(fields));
    lemma_members(fields);
    assert(fields[0].0 == "identity_pubkey"@);
    assert(fields.last().0 == "updated_at"@);
    if labels.device_label is Some {
        assert(fields[1].0 == "device_label"@);
        if labels.client_label is Some {
            assert(fields[2].0 == "client_label"@);
        }
    } else if labels.client_label is Some {
        assert(fields[1].0 == "client_label"@);
    }
}

proof fn lemma_labels_names()
    ensures
        "type"@ != "v"@,
        "type"@ != "device_labels"@,
        "v"@ != "device_labels"@,
{
    reveal_strlit("type");
    reveal_strlit("v");
    reveal_strlit("device_labels");
    assert("type"@.len() == 4);
    assert("v"@.len() == 1);
    assert("device_labels"@.len() == 13);
}

proof fn lemma_labels_round_trip(list: Seq<(DevicePubkey, LabelsModel)>)
    ensures
        labels_of_json(labels_json(list)) == Some((APP_KEYS_LABELS_TYPE@, 1u64, list)),
{
    lemma_labels_names();
    let fields = labels_json(list)->Object_0;
    lemma_members(fields);
    assert(fields[0].0 == "type"@);
    assert(fields[1].0 == "v"@);
    assert(fields[2].0 == "device_labels"@);
    let items = Seq::new(list.len(), |i: int| stored_labels_json(list[i].0, list[i].1));
    assert forall|i: int| 0 <= i < items.len() implies stored_labels_of_json(#[trigger] items[i])
        == Some(list[i]) by {
        lemma_stored_labels(list[i].0, list[i].1);
    }
    assert(label_list_of(items)->Some_0 =~= list);
}

proof fn lemma_with_labels(
    m: AppKeysModel,
    labels: Map<DevicePubkey, LabelsModel>,
    order: Seq<DevicePubkey>,
    n: int,
)
    requires
        lists::<DevicePubkey>(order, labels.dom()),
        labels.dom().subset_of(m.devices.dom()),
        m.labels == Map::<DevicePubkey, LabelsModel>::empty(),
        0 <= n <= order.len(),
    ensures
        ({
            let list = Seq::new(order.len(), |i: int| (order[i], labels[order[i]]));
            let r = with_labels(m, list.take(n));
            &&& r is Some
            &&& r->Some_0.devices == m.devices
            &&& forall|k: DevicePubkey| #[trigger]
                r->Some_0.labels.contains_key(k) <==> order.take(n).contains(k)
            &&& forall|k: DevicePubkey| #[trigger]
                r->Some_0.labels.contains_key(k) ==> r->Some_0.labels[k] == labels[k]
        }),
    decreases n,
{
    let list = Seq::new(order.len(), |i: int| (order[i], labels[order[i]]));
    if n == 0 {
        assert(list.take(0) =~= Seq::empty());
        assert(order.take(0) =~= Seq::empty());
    } else {
        lemma_with_labels(m, labels, order, n - 1);
        crate::app_keys::lemma_take_next(order, n - 1);
        assert(list.take(n).drop_last() =~= list.take(n - 1));
        assert(order.contains(order[n - 1]));
        assert(labels.dom().contains(order[n - 1]));
        assert(m.devices.dom().contains(order[n - 1]));
        assert(list.take(n).last() == (order[n - 1], labels[order[n - 1]]));
        assert(n - 1 + 1 == n);
    }
}

/// Labels that an owner publishes with its devices are read back by the owner.
pub proof fn labels_round_trip(m: AppKeysModel, content: Seq<char>, owner_secret: [u8; 32])
    requires
        m.labels.dom().finite(),
        m.labels_known(),
        holds_labels(content, m.labels, owner_secret),
    ensures
        labelled(
            AppKeysModel { labels: Map::empty(), ..m },
            content,
            owner_secret,
        ) == Ok::<AppKeysModel, Fault>(m),
{
    let bare = AppKeysModel { labels: Map::empty(), ..m };
    let list = label_list(m.labels);
    let order = ordered::<DevicePubkey>(m.labels.dom());
    crate::collections::ordered_lists::<DevicePubkey>(m.labels.dom());
    let text = json_text(labels_json(list));
    vstd::utf8::encode_utf8_valid_utf8(text);
    vstd::utf8::encode_utf8_decode_utf8(text);
    lemma_labels_round_trip(list);
    lemma_with_labels(bare, m.labels, order, order.len() as int);
    assert(list =~= Seq::new(order.len(), |i: int| (order[i], m.labels[order[i]])));
    assert(list.take(order.len() as int) =~= list);
    assert(order.take(order.len() as int) =~= order);
    let back = with_labels(bare, list)->Some_0;
    assert forall|k: DevicePubkey| #[trigger] back.labels.contains_key(k)
        <==> m.labels.contains_key(k) by {
        assert(m.labels.dom().contains(k) <==> order.contains(k));
    }
    assert(back.labels =~= m.labels);
}

fn labels_text(app_keys: &AppKeys) -> (r: String)
    ensures
        r@ == json_text(labels_json(label_list(app_keys@.labels))),
        record_parsed(r@) == Some(labels_json(label_list(app_keys@.labels))),
        app_keys@.labels.dom().finite(),
{
    let all = app_keys.get_all_device_labels();
    let ghost list = label_list(app_keys@.labels);
    let mut items: Vec<Json> = Vec::new();
    let mut i: usize = 0;
    while i < all.len()
        invariant
            i <= all@.len(),
            all@.len() == list.len(),
            forall|j: int|
                0 <= j < all@.len() ==> list[j] == ((#[trigger] all@[j]).0, all@[j].1@),
            item_values(items@).len() == i,
            forall|j: int|
                0 <= j < i ==> #[trigger] item_values(items@)[j] == stored_labels_json(
                    list[j].0,
                    list[j].1,
                ),
        decreases all@.len() - i,
    {
        assert(list[i as int] == (all@[i as int].0, all@[i as int].1@));
        let mut fields: Vec<(String, Json)> = Vec::new();
        push_field(&mut fields, "identity_pubkey", Json::Str(all[i].0.to_hex()));
        push_labels(&mut fields, &all[i].1);
        let json = Json::Object(fields);
        assert(json@->Object_0 =~= stored_labels_json(list[i as int].0, list[i as int].1)->Object_0);
        push_item(&mut items, json);
        i = i + 1;
    }
    let ghost stored = item_values(items@);
    let mut fields: Vec<(String, Json)> = Vec::new();
    push_field(&mut fields, "type", Json::Str(APP_KEYS_LABELS_TYPE.to_string()));
    push_field(&mut fields, "v", Json::Uint(1));
    push_field(&mut fields, "device_labels", Json::Array(items));
    let json = Json::Object(fields);
    proof {
        assert(stored =~= Seq::new(list.len(), |j: int| stored_labels_json(list[j].0, list[j].1)));
        assert(json@->Object_0 =~= labels_json(list)->Object_0);
        crate::collections::lists_len::<DevicePubkey>(
            ordered::<DevicePubkey>(app_keys@.labels.dom()),
            app_keys@.labels.dom(),
        );
        reveal_with_fuel(plain, 4);
        assert forall|j: int| 0 <= j < stored.len() implies plain(#[trigger] stored[j], 125) by {
            reveal_with_fuel(plain, 2);
        }
        assert(plain(JsonValue::Array(stored), 126));
        assert(plain(json@, 127));
    }
    print_json(&json)
}

/// The event that an owner publishes its devices in, the labels encrypted for
/// itself.
pub fn app_keys_encrypted_unsigned_event(
    owner_private_key: &[u8; 32],
    created_at: UnixSeconds,
    app_keys: &AppKeys,
) -> (r: Result<UnsignedEvent, Error>)
    ensures
        match r {
            Ok(event) => {
                &&& device_key_of(*owner_private_key) is Some
                &&& event@ == device_list_event(
                    device_key_of(*owner_private_key)->Some_0,
                    created_at,
                    app_keys@.devices,
                    event.content@,
                )
                &&& if app_keys@.labels.dom() =~= Set::empty() {
                    event.content@.len() == 0
                } else {
                    holds_labels(event.content@, app_keys@.labels, *owner_private_key)
                }
            },
            Err(e) => if device_key_of(*owner_private_key) is None {
                fault(e) == Fault::NostrKey
            } else {
                fault(e) == Fault::Nip44 && !(app_keys@.labels.dom() =~= Set::empty())
                    && !sealable(
                    encode_utf8(json_text(labels_json(label_list(app_keys@.labels)))).len() as int,
                )
            },
        },
{
    let owner = match DevicePubkey::from_secret_bytes(owner_private_key) {
        Ok(key) => key,
        Err(e) => {
            return Err(e);
        },
    };
    let labels = app_keys.get_all_device_labels();
    if labels.len() == 0 {
        proof {
            assert forall|k: DevicePubkey| !app_keys@.labels.dom().contains(k) by {
                assert(app_keys@.labels.dom().contains(k) <==> ordered::<DevicePubkey>(
                    app_keys@.labels.dom(),
                ).contains(k));
            }
            assert(app_keys@.labels.dom() =~= Set::empty());
        }
        return Ok(build_app_keys_unsigned_event(owner, created_at, app_keys, String::new()));
    }
    proof {
        let first = labels@[0].0;
        assert(ordered::<DevicePubkey>(app_keys@.labels.dom()).contains(first));
        assert(app_keys@.labels.dom().contains(first));
    }
    let key: [u8; 32] = match derive_conversation_key(owner_private_key, &owner.0) {
        Ok(key) => key,
        Err(e) => {
            return Err(Error::Nip44(e));
        },
    };
    let text = labels_text(app_keys);
    let payload = match seal(&key, text.as_str().as_bytes()) {
        Ok(bytes) => bytes,
        Err(e) => {
            return Err(Error::Nip44(e));
        },
    };
    let content = base64_encode(&payload);
    Ok(build_app_keys_unsigned_event(owner, created_at, app_keys, content))
}

fn read_labels_payload(text: &str) -> (r: Result<Vec<(DevicePubkey, DeviceLabels)>, Error>)
    ensures
        match r {
            Ok(list) => record_parsed(text@) is Some && labels_of_json(record_parsed(text@)->Some_0)
                == Some((APP_KEYS_LABELS_TYPE@, 1u64, label_models(list@))),
            Err(e) => match record_parsed(text@) {
                None => fault(e) == Fault::Parse,
                Some(value) => match labels_of_json(value) {
                    None => fault(e) == Fault::Parse,
                    Some((name, version, _)) => fault(e) == Fault::InvalidEvent && (name
                        != APP_KEYS_LABELS_TYPE@ || version != 1),
                },
            },
        },
{
    let names: [&str; 3] = ["type", "v", "device_labels"];
    assert(strs(names@) =~= labels_names());
    let json = match parse_record(text) {
        Ok(json) => json,
        Err(e) => {
            return Err(Error::Parse(e));
        },
    };
    let ghost whole = json@;
    let json = json.into_record(&names);
    let ghost record = json@;
    let name = match json.text_field("type") {
        Some(name) => name.clone(),
        None => {
            return Err(Error::Parse("missing field `type`".to_string()));
        },
    };
    let version: u64 = match json.uint_field("v") {
        Some(n) => n,
        None => {
            return Err(Error::Parse("missing field `v`".to_string()));
        },
    };
    if version > u8::MAX as u64 {
        return Err(Error::Parse("version out of range".to_string()));
    }
    let items = match json.into_field("device_labels") {
        Some(Json::Array(items)) => items,
        _ => {
            return Err(Error::Parse("missing field `device_labels`".to_string()));
        },
    };
    let ghost values = item_values(items@);
    proof {
        lemma_item_values(items@);
    }
    let stored_names: [&str; 4] = ["identity_pubkey", "device_label", "client_label", "updated_at"];
    assert(strs(stored_names@) =~= stored_labels_names());
    let ghost all = items@;
    let mut rest = items;
    let mut list: Vec<(DevicePubkey, DeviceLabels)> = Vec::new();
    while rest.len() > 0
        invariant
            list@.len() <= all.len(),
            rest@ == all.skip(list@.len() as int),
            strs(stored_names@) == stored_labels_names(),
            values.len() == all.len(),
            record == as_record(whole, labels_names()),
            field_of(record, "device_labels"@) == Some(JsonValue::Array(values)),
            record_parsed(text@) == Some(whole),
            forall|j: int| 0 <= j < all.len() ==> #[trigger] values[j] == all[j]@,
            forall|j: int|
                0 <= j < list@.len() ==> stored_labels_of_json(#[trigger] values[j]) == Some(
                    (list@[j].0, list@[j].1@),
                ),
        decreases rest@.len(),
    {
        let ghost i = list@.len() as int;
        let first = rest.remove(0);
        assert(first == all[i]);
        assert(rest@ =~= all.skip(i + 1));
        assert(values[i] == all[i]@);
        let item = first.into_record(&stored_names);
        let key = match item.text_field("identity_pubkey") {
            Some(text) => match DevicePubkey::parse_hex(text.as_str()) {
                Ok(key) => key,
                Err(e) => {
                    return Err(Error::Parse(e));
                },
            },
            None => {
                return Err(Error::Parse("missing field `identity_pubkey`".to_string()));
            },
        };
        let labels = match read_labels(&item) {
            Some(labels) => labels,
            None => {
                return Err(Error::Parse("labels are no labels".to_string()));
            },
        };
        list.push((key, labels));
    }
    assert(label_list_of(values)->Some_0 =~= label_models(list@));
    if !crate::order::same_str(name.as_str(), APP_KEYS_LABELS_TYPE) || version != 1 {
        return Err(invalid_event("unsupported app-keys labels payload"));
    }
    Ok(list)
}

/// What labels of devices say.
pub open spec fn label_models(list: Seq<(DevicePubkey, DeviceLabels)>) -> Seq<
    (DevicePubkey, LabelsModel),
> {
    Seq::new(list.len(), |i: int| (list[i].0, list[i].1@))
}

proof fn lemma_with_labels_none(m: AppKeysModel, list: Seq<(DevicePubkey, LabelsModel)>, n: int)
    requires
        0 <= n <= list.len(),
        with_labels(m, list.take(n)) is None,
    ensures
        with_labels(m, list) is None,
    decreases list.len() - n,
{
    if n == list.len() {
        assert(list.take(n) =~= list);
    } else {
        assert(list.take(n + 1).drop_last() =~= list.take(n));
        lemma_with_labels_none(m, list, n + 1);
    }
}

fn set_labels(app_keys: &mut AppKeys, list: Vec<(DevicePubkey, DeviceLabels)>) -> (r: Result<
    (),
    Error,
>)
    ensures
        match r {
            Ok(_) => with_labels(old(app_keys)@, label_models(list@)) == Some(final(app_keys)@),
            Err(e) => with_labels(old(app_keys)@, label_models(list@)) is None && fault(e)
                == Fault::InvalidEvent,
        },
{
    let ghost models = label_models(list@);
    let mut i: usize = 0;
    assert(models.take(0) =~= Seq::empty());
    while i < list.len()
        invariant
            i <= list@.len(),
            models == label_models(list@),
            with_labels(old(app_keys)@, models.take(i as int)) == Some(app_keys@),
        decreases list@.len() - i,
    {
        assert(models.take(i + 1).drop_last() =~= models.take(i as int));
        assert(models.take(i + 1).last() == (list@[i as int].0, list@[i as int].1@));
        let key: DevicePubkey = list[i].0;
        if app_keys.get_device(&key).is_none() {
            proof {
                lemma_with_labels_none(old(app_keys)@, models, i + 1);
            }
            return Err(invalid_event("device label references unknown device"));
        }
        let labels: DeviceLabels = list[i].1.clone();
        app_keys.set_device_labels(
            key,
            labels.device_label,
            labels.client_label,
            labels.updated_at,
        );
        i = i + 1;
    }
    assert(models.take(i as int) =~= models);
    Ok(())
}

pub fn parse_app_keys_event_with_labels(event: &Event, owner_private_key: &[u8; 32]) -> (r: Result<
    DecodedAppKeysEvent,
    Error,
>)
    ensures
        match r {
            Ok(decoded) => labelled_list_of(event@, *owner_private_key) == Ok::<
                AppKeysModel,
                Fault,
            >(decoded.app_keys@) && decoded.owner_pubkey == event.pubkey.owner()
                && decoded.created_at == event.created_at,
            Err(e) => labelled_list_of(event@, *owner_private_key) == Err::<AppKeysModel, Fault>(
                fault(e),
            ),
        },
        forall|list: Seq<DeviceEntry>| #[trigger]
            publishes(event@, list) ==> device_list_of(event@) == Ok::<Seq<DeviceEntry>, Fault>(
                list,
            ),
{
    let mut decoded = match parse_app_keys_event(event) {
        Ok(decoded) => decoded,
        Err(e) => {
            return Err(e);
        },
    };
    if event.content.as_str().unicode_len() == 0 {
        return Ok(decoded);
    }
    let payload = match base64_decode(event.content.as_str()) {
        Ok(bytes) => bytes,
        Err(e) => {
            return Err(Error::Codec(CodecError::Parse(e)));
        },
    };
    let owner = match DevicePubkey::from_secret_bytes(owner_private_key) {
        Ok(key) => key,
        Err(e) => {
            return Err(e);
        },
    };
    let key: [u8; 32] = match derive_conversation_key(owner_private_key, &owner.0) {
        Ok(key) => key,
        Err(e) => {
            return Err(Error::NostrKey(e));
        },
    };
    let bytes = match open(&key, &payload) {
        Ok(bytes) => bytes,
        Err(e) => {
            return Err(Error::Nip44(e));
        },
    };
    let plaintext = match utf8_decode(bytes) {
        Ok(text) => text,
        Err(e) => {
            return Err(Error::Codec(CodecError::Parse(e)));
        },
    };
    let list = match read_labels_payload(plaintext.as_str()) {
        Ok(list) => list,
        Err(e) => {
            return Err(e);
        },
    };
    match set_labels(&mut decoded.app_keys, list) {
        Ok(()) => Ok(decoded),
        Err(e) => Err(e),
    }
}

} // verus!
