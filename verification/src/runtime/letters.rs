//! What is written to an owner, and how the own devices get a copy of it.
use vstd::prelude::*;
use vstd::utf8::{decode_utf8, encode_utf8, valid_utf8};
use crate::crypto::{parse_public_key, public_key_parsed};
use crate::encoding::{
    base64_bytes, base64_decode, base64_encode, base64_text, hex_key, hex_key_round_trip,
    hex_text, utf8_decode,
};
use crate::error::{fault, CodecError, Error, Fault};
use crate::event::{tag_texts, texts};
use crate::ids::{OwnerPubkey, UnixMillis, UnixSeconds};
use crate::json::{
    as_record, each_once, json_text, lemma_members, parse_record, plain, print_json, push_field,
    record_parsed, strs, text_field, uint_field, Json, JsonValue,
};
use crate::order::same_str;
use crate::rumor::{identified, millis_tag, pair_of, rumor_json, Rumor, RumorModel};
use crate::text::{decimal, decimal_text};
use crate::types::EXPIRATION_TAG;

verus! {

// ---------------------------------------------------------------------------
// When a message expires
// ---------------------------------------------------------------------------

/// When a message expires: at a time, or so long after it was written.
#[derive(Debug, Clone, Copy)]
pub struct SendOptions {
    pub expires_at: Option<u64>,
    pub ttl_seconds: Option<u64>,
}

/// When a message expires, if it does. Two answers are none, and so is a time
/// that no clock shows.
pub open spec fn expiration(options: Option<SendOptions>, now: u64) -> Result<Option<u64>, Fault> {
    match options {
        None => Ok(None),
        Some(options) => match (options.expires_at, options.ttl_seconds) {
            (None, None) => Ok(None),
            (Some(at), None) => Ok(Some(at)),
            (None, Some(ttl)) => if now + ttl <= u64::MAX {
                Ok(Some((now + ttl) as u64))
            } else {
                Err(Fault::InvalidEvent)
            },
            (Some(_), Some(_)) => Err(Fault::InvalidEvent),
        },
    }
}

pub fn resolve_expiration_seconds(options: Option<SendOptions>, now: u64) -> (r: Result<
    Option<u64>,
    Error,
>)
    ensures
        match r {
            Ok(at) => expiration(options, now) == Ok::<Option<u64>, Fault>(at),
            Err(e) => expiration(options, now) == Err::<Option<u64>, Fault>(fault(e)),
        },
{
    match options {
        None => Ok(None),
        Some(options) => match (options.expires_at, options.ttl_seconds) {
            (None, None) => Ok(None),
            (Some(at), None) => Ok(Some(at)),
            (None, Some(ttl)) => match now.checked_add(ttl) {
                Some(at) => Ok(Some(at)),
                None => Err(
                    Error::Codec(CodecError::InvalidEvent("expiration out of range".to_string())),
                ),
            },
            (Some(_), Some(_)) => Err(
                Error::Codec(
                    CodecError::InvalidEvent(
                        "expires_at and ttl_seconds are mutually exclusive".to_string(),
                    ),
                ),
            ),
        },
    }
}

// ---------------------------------------------------------------------------
// Messages
// ---------------------------------------------------------------------------

/// The tag that says when a message expires.
pub open spec fn expiration_tag(at: u64) -> Seq<Seq<char>> {
    seq![EXPIRATION_TAG@, decimal(at as nat)]
}

/// A message of an owner.
pub open spec fn letter(
    author: OwnerPubkey,
    now_secs: UnixSeconds,
    now_millis: UnixMillis,
    kind: u32,
    tags: Seq<Seq<Seq<char>>>,
    content: Seq<char>,
    expires: Option<u64>,
) -> RumorModel {
    let dated = tags.push(millis_tag(now_millis));
    identified(
        RumorModel {
            id: None,
            pubkey: author.device(),
            created_at: now_secs,
            kind,
            tags: match expires {
                Some(at) => dated.push(expiration_tag(at)),
                None => dated,
            },
            content,
        },
    )
}

/// Writes a message.
pub fn write_letter(
    author: OwnerPubkey,
    now_secs: UnixSeconds,
    now_millis: UnixMillis,
    kind: u32,
    tags: Vec<Vec<String>>,
    content: String,
    expires: Option<u64>,
) -> (r: Result<Rumor, Error>)
    ensures
        r matches Ok(rumor) && rumor@ == letter(
            author,
            now_secs,
            now_millis,
            kind,
            tag_texts(tags@),
            content@,
            expires,
        ),
{
    let ghost start = tag_texts(tags@);
    let mut tags = tags;
    tags.push(pair_of("ms", decimal_text(now_millis.0 as u128).as_str()));
    assert(tag_texts(tags@) =~= start.push(millis_tag(now_millis)));
    if let Some(at) = expires {
        tags.push(pair_of(EXPIRATION_TAG, decimal_text(at as u128).as_str()));
        assert(tag_texts(tags@) =~= start.push(millis_tag(now_millis)).push(expiration_tag(at)));
    }
    Rumor::new(author.as_device(), now_secs, kind, tags, content)
}

/// The tags that refer to messages.
pub open spec fn message_tags(ids: Seq<Seq<char>>) -> Seq<Seq<Seq<char>>> {
    Seq::new(ids.len(), |i: int| crate::rumor::message_tag(ids[i]))
}

pub fn write_message_tags(ids: &Vec<String>) -> (r: Vec<Vec<String>>)
    ensures
        tag_texts(r@) == message_tags(texts(ids@)),
{
    let mut tags: Vec<Vec<String>> = Vec::new();
    let mut i: usize = 0;
    while i < ids.len()
        invariant
            i <= ids@.len(),
            tags@.len() == i,
            forall|j: int|
                0 <= j < i ==> texts((#[trigger] tags@[j])@) == crate::rumor::message_tag(ids@[j]@),
        decreases ids@.len() - i,
    {
        tags.push(pair_of("e", ids[i].as_str()));
        i = i + 1;
    }
    assert(tag_texts(tags@) =~= message_tags(texts(ids@)));
    tags
}

/// Whether a word says what became of a message.
pub open spec fn is_receipt(word: Seq<char>) -> bool {
    word == "delivered"@ || word == "seen"@
}

pub fn check_receipt_type(word: &str) -> (r: Result<(), Error>)
    ensures
        match r {
            Ok(_) => is_receipt(word@),
            Err(e) => !is_receipt(word@) && fault(e) == Fault::InvalidEvent,
        },
{
    if same_str(word, "delivered") || same_str(word, "seen") {
        Ok(())
    } else {
        Err(Error::Codec(CodecError::InvalidEvent("unknown receipt type".to_string())))
    }
}

/// What tells a peer how long messages last. Zero seconds: for ever.
pub open spec fn settings_json(ttl_seconds: u64) -> JsonValue {
    JsonValue::Object(
        seq![
            ("type"@, JsonValue::Str("chat-settings"@)),
            ("v"@, JsonValue::Uint(1)),
            ("messageTtlSeconds"@, JsonValue::Uint(ttl_seconds)),
        ],
    )
}

pub fn write_settings(ttl_seconds: u64) -> (r: String)
    ensures
        r@ == json_text(settings_json(ttl_seconds)),
        record_parsed(r@) == Some(settings_json(ttl_seconds)),
{
    let mut fields: Vec<(String, Json)> = Vec::new();
    push_field(&mut fields, "type", Json::Str("chat-settings".to_string()));
    push_field(&mut fields, "v", Json::Uint(1));
    push_field(&mut fields, "messageTtlSeconds", Json::Uint(ttl_seconds));
    let json = Json::Object(fields);
    proof {
        assert(json@->Object_0 =~= settings_json(ttl_seconds)->Object_0);
        reveal_with_fuel(plain, 2);
        assert(plain(json@, 127));
    }
    print_json(&json)
}

/// The bytes of a message.
pub open spec fn letter_bytes(m: RumorModel) -> Seq<u8> {
    encode_utf8(json_text(rumor_json(m)))
}

pub fn letter_to_bytes(rumor: &Rumor) -> (r: Result<Vec<u8>, Error>)
    ensures
        r matches Ok(bytes) && bytes@ == letter_bytes(rumor@),
{
    match rumor.to_json() {
        Ok(text) => Ok(vstd::slice::slice_to_vec(text.as_str().as_bytes())),
        Err(e) => Err(e),
    }
}

// ---------------------------------------------------------------------------
// Copies for the own devices
// ---------------------------------------------------------------------------

pub const SIBLING_PROTOCOL: &'static str = "ndr-local-sibling-copy";

/// A copy for the own devices: the message, and to whom it went.
pub open spec fn sibling_json(conversation: OwnerPubkey, payload: Seq<u8>) -> JsonValue {
    JsonValue::Object(
        seq![
            ("protocol"@, JsonValue::Str(SIBLING_PROTOCOL@)),
            ("version"@, JsonValue::Uint(1)),
            ("conversationOwner"@, JsonValue::Str(hex_text(conversation.0@))),
            ("payload"@, JsonValue::Str(base64_text(payload))),
        ],
    )
}

pub open spec fn sibling_bytes(conversation: OwnerPubkey, payload: Seq<u8>) -> Seq<u8> {
    encode_utf8(json_text(sibling_json(conversation, payload)))
}

/// The message that a copy holds, and to whom it went. Bytes that are no copy
/// hold none.
pub open spec fn sibling_of(bytes: Seq<u8>) -> Option<(OwnerPubkey, Seq<u8>)> {
    if !valid_utf8(bytes) {
        None
    } else {
        match record_parsed(decode_utf8(bytes)) {
            Some(value) => sibling_of_json(value),
            None => None,
        }
    }
}

/// The members of a copy.
pub open spec fn sibling_names() -> Seq<Seq<char>> {
    seq!["protocol"@, "version"@, "conversationOwner"@, "payload"@]
}

/// What a JSON value that is a copy holds: an object, or a list of the members.
pub open spec fn sibling_of_json(value: JsonValue) -> Option<(OwnerPubkey, Seq<u8>)> {
    let value = as_record(value, sibling_names());
    if text_field(value, "protocol"@) != Some(SIBLING_PROTOCOL@) || uint_field(
        value,
        "version"@,
    ) != Some(1u64) {
        None
    } else {
        match (text_field(value, "conversationOwner"@), text_field(value, "payload"@)) {
            (Some(owner), Some(payload)) => match (
                public_key_parsed(owner),
                base64_bytes(payload),
            ) {
                (Some(key), Some(bytes)) => Some((OwnerPubkey(key), bytes)),
                _ => None,
            },
            _ => None,
        }
    }
}

/// Whether bytes are a copy of a message to an owner.
pub open spec fn copies(bytes: Seq<u8>, conversation: OwnerPubkey, payload: Seq<u8>) -> bool {
    &&& valid_utf8(bytes)
    &&& record_parsed(decode_utf8(bytes)) == Some(sibling_json(conversation, payload))
    &&& base64_bytes(base64_text(payload)) == Some(payload)
}

proof fn lemma_sibling_names()
    ensures
        "protocol"@ != "version"@,
        "protocol"@ != "conversationOwner"@,
        "protocol"@ != "payload"@,
        "version"@ != "conversationOwner"@,
        "version"@ != "payload"@,
        "conversationOwner"@ != "payload"@,
{
    reveal_strlit("protocol");
    reveal_strlit("version");
    reveal_strlit("conversationOwner");
    reveal_strlit("payload");
    assert("protocol"@.len() == 8);
    assert("version"@.len() == 7 && "version"@[0] == 'v');
    assert("conversationOwner"@.len() == 17);
    assert("payload"@.len() == 7 && "payload"@[0] == 'p');
}

/// Whether a JSON value shows a message and to whom it went.
spec fn shows_copy(value: JsonValue, conversation: OwnerPubkey, payload: Seq<u8>) -> bool {
    &&& text_field(value, "protocol"@) == Some(SIBLING_PROTOCOL@)
    &&& uint_field(value, "version"@) == Some(1u64)
    &&& text_field(value, "conversationOwner"@) == Some(hex_text(conversation.0@))
    &&& text_field(value, "payload"@) == Some(base64_text(payload))
    &&& hex_key(hex_text(conversation.0@)) == Some(conversation.0)
}

proof fn lemma_shows_copy(conversation: OwnerPubkey, payload: Seq<u8>)
    ensures
        shows_copy(sibling_json(conversation, payload), conversation, payload),
{
    lemma_sibling_names();
    hex_key_round_trip(conversation.0);
    let fields = sibling_json(conversation, payload)->Object_0;
    assert(each_once(fields));
    lemma_members(fields);
    assert(fields[0].0 == "protocol"@);
    assert(fields[1].0 == "version"@);
    assert(fields[2].0 == "conversationOwner"@);
    assert(fields[3].0 == "payload"@);
}

/// A copy of a message for the own devices.
pub fn local_sibling_payload(conversation_owner: OwnerPubkey, payload: &Vec<u8>) -> (r: Vec<u8>)
    ensures
        r@ == sibling_bytes(conversation_owner, payload@),
        copies(r@, conversation_owner, payload@),
{
    let mut fields: Vec<(String, Json)> = Vec::new();
    push_field(&mut fields, "protocol", Json::Str(SIBLING_PROTOCOL.to_string()));
    push_field(&mut fields, "version", Json::Uint(1));
    push_field(&mut fields, "conversationOwner", Json::Str(conversation_owner.to_hex()));
    push_field(&mut fields, "payload", Json::Str(base64_encode(payload.as_slice())));
    let json = Json::Object(fields);
    proof {
        assert(json@->Object_0 =~= sibling_json(conversation_owner, payload@)->Object_0);
        reveal_with_fuel(plain, 2);
        assert(plain(json@, 127));
    }
    let text = print_json(&json);
    proof {
        vstd::utf8::encode_utf8_valid_utf8(text@);
        vstd::utf8::encode_utf8_decode_utf8(text@);
    }
    vstd::slice::slice_to_vec(text.as_str().as_bytes())
}

/// Reads a copy. What was written as one is read back.
pub fn decode_local_sibling_payload(payload: &Vec<u8>) -> (r: Option<(OwnerPubkey, Vec<u8>)>)
    ensures
        match r {
            Some((owner, bytes)) => sibling_of(payload@) == Some((owner, bytes@)),
            None => sibling_of(payload@) is None,
        },
        forall|owner: OwnerPubkey, bytes: Seq<u8>| #[trigger]
            copies(payload@, owner, bytes) ==> sibling_of(payload@) == Some((owner, bytes)),
{
    proof {
        assert forall|owner: OwnerPubkey, bytes: Seq<u8>| #[trigger]
            copies(payload@, owner, bytes) implies shows_copy(
            sibling_json(owner, bytes),
            owner,
            bytes,
        ) by {
            lemma_shows_copy(owner, bytes);
        }
    }
    let text = match utf8_decode(vstd::slice::slice_to_vec(payload.as_slice())) {
        Ok(text) => text,
        Err(_) => {
            return None;
        },
    };
    let names: [&str; 4] = ["protocol", "version", "conversationOwner", "payload"];
    assert(strs(names@) =~= sibling_names());
    let json = match parse_record(text.as_str()) {
        Ok(json) => json.into_record(&names),
        Err(_) => {
            return None;
        },
    };
    let protocol = match json.text_field("protocol") {
        Some(text) => text,
        None => {
            return None;
        },
    };
    let version: u64 = match json.uint_field("version") {
        Some(n) => n,
        None => {
            return None;
        },
    };
    if !same_str(protocol.as_str(), SIBLING_PROTOCOL) || version != 1 {
        return None;
    }
    let (owner_text, payload_text) = match (
        json.text_field("conversationOwner"),
        json.text_field("payload"),
    ) {
        (Some(owner), Some(payload)) => (owner, payload),
        _ => {
            return None;
        },
    };
    let owner = match parse_public_key(owner_text.as_str()) {
        Ok(key) => OwnerPubkey(key),
        Err(_) => {
            return None;
        },
    };
    match base64_decode(payload_text.as_str()) {
        Ok(bytes) => Some((owner, bytes)),
        Err(_) => None,
    }
}

} // verus!
