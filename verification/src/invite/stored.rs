//! Invites as they are kept.
use vstd::prelude::*;
use crate::codec::nostr::{invite_address, invite_base_tags, invite_event_body, survives};
use crate::encoding::{decode_hex_32, hex_encode, hex_key, hex_key_round_trip, hex_text};
use crate::error::{fault, Error, Fault};
use crate::event::{
    lemma_texts_round_trip, texts, texts_from_json, texts_json, texts_of_json, texts_to_json,
    Event, UnsignedEvent,
};
use crate::ids::{DeviceId, DevicePubkey, OwnerPubkey, UnixSeconds};
use crate::invite::domain::{
    invite_at, invite_event, invite_from_event, invite_from_url, invite_in, invite_url,
};
use crate::invite::{Invite, InviteModel};
use crate::json::{
    as_record, each_once, field_absent, field_of, json_text, lemma_members, maybe_member,
    parse_record, plain, print_json, push_field, record_parsed, strs, text_field, uint_field, Json,
    JsonValue,
};

verus! {

/// A text or nothing.
pub open spec fn optional_json(text: Option<Seq<char>>) -> JsonValue {
    match text {
        Some(text) => JsonValue::Str(text),
        None => JsonValue::Null,
    }
}

/// Keys in hexadecimal.
pub open spec fn hex_list(keys: Seq<DevicePubkey>) -> Seq<Seq<char>> {
    Seq::new(keys.len(), |i: int| hex_text(keys[i].0@))
}

/// An invite as a JSON object.
pub open spec fn stored_json(m: InviteModel) -> JsonValue {
    JsonValue::Object(
        seq![
            ("inviter_ephemeral_public_key"@, JsonValue::Str(hex_text(m.ephemeral_key.0@))),
            ("shared_secret"@, JsonValue::Str(hex_text(m.shared_secret@))),
            ("inviter"@, JsonValue::Str(hex_text(m.inviter.0@))),
        ] + maybe_member(
            "inviter_ephemeral_private_key"@,
            match m.ephemeral_secret {
                Some(secret) => Some(hex_text(secret@)),
                None => None,
            },
        ) + seq![
            ("device_id"@, optional_json(m.device_id)),
            (
                "max_uses"@,
                match m.max_uses {
                    Some(n) => JsonValue::Uint(n as u64),
                    None => JsonValue::Null,
                },
            ),
            ("used_by"@, texts_json(hex_list(m.used_by))),
            ("created_at"@, JsonValue::Uint(m.created_at.0)),
            ("purpose"@, optional_json(m.purpose)),
            (
                "owner_public_key"@,
                match m.owner {
                    Some(owner) => JsonValue::Str(hex_text(owner.0@)),
                    None => JsonValue::Null,
                },
            ),
        ],
    )
}

/// The members of an invite.
pub open spec fn stored_names() -> Seq<Seq<char>> {
    seq![
        "inviter_ephemeral_public_key"@,
        "shared_secret"@,
        "inviter"@,
        "inviter_ephemeral_private_key"@,
        "device_id"@,
        "max_uses"@,
        "used_by"@,
        "created_at"@,
        "purpose"@,
        "owner_public_key"@,
    ]
}

/// The key that a field names, if it names one.
pub open spec fn key_field(value: JsonValue, name: Seq<char>) -> Option<[u8; 32]> {
    match text_field(value, name) {
        Some(text) => hex_key(text),
        None => None,
    }
}

/// Whether a field that may be left out is left out or a key.
pub open spec fn maybe_key(value: JsonValue, name: Seq<char>) -> bool {
    field_absent(value, name) || key_field(value, name) is Some
}

/// The keys that a JSON value lists.
pub open spec fn keys_of_json(value: JsonValue) -> Option<Seq<DevicePubkey>> {
    match texts_of_json(value) {
        Some(list) => if forall|i: int|
            0 <= i < list.len() ==> hex_key(#[trigger] list[i]) is Some {
            Some(Seq::new(list.len(), |i: int| DevicePubkey(hex_key(list[i])->Some_0)))
        } else {
            None
        },
        None => None,
    }
}

/// Whether the fields of an invite that may be left out fit.
pub open spec fn options_fit(value: JsonValue) -> bool {
    &&& maybe_key(value, "inviter_ephemeral_private_key"@)
    &&& maybe_key(value, "owner_public_key"@)
    &&& field_absent(value, "device_id"@) || text_field(value, "device_id"@) is Some
    &&& field_absent(value, "purpose"@) || text_field(value, "purpose"@) is Some
    &&& field_absent(value, "max_uses"@) || (uint_field(value, "max_uses"@) matches Some(n) && n
        <= usize::MAX)
}

/// The invite that a JSON value is: an object, or a list of the members.
pub open spec fn stored_of_json(value: JsonValue) -> Option<InviteModel> {
    let value = as_record(value, stored_names());
    let used_by = match field_of(value, "used_by"@) {
        Some(list) => keys_of_json(list),
        None => None,
    };
    match (
        key_field(value, "inviter_ephemeral_public_key"@),
        key_field(value, "shared_secret"@),
        key_field(value, "inviter"@),
        used_by,
        uint_field(value, "created_at"@),
    ) {
        (Some(ephemeral), Some(secret), Some(inviter), Some(used_by), Some(created_at)) => if
        options_fit(value) {
            Some(
                InviteModel {
                    ephemeral_key: DevicePubkey(ephemeral),
                    shared_secret: secret,
                    inviter: OwnerPubkey(inviter),
                    ephemeral_secret: key_field(value, "inviter_ephemeral_private_key"@),
                    device_id: text_field(value, "device_id"@),
                    max_uses: match uint_field(value, "max_uses"@) {
                        Some(n) => Some(n as usize),
                        None => None,
                    },
                    used_by,
                    created_at: UnixSeconds(created_at),
                    purpose: text_field(value, "purpose"@),
                    owner: match key_field(value, "owner_public_key"@) {
                        Some(key) => Some(OwnerPubkey(key)),
                        None => None,
                    },
                },
            )
        } else {
            None
        },
        _ => None,
    }
}

/// The invite that a text is.
pub open spec fn stored_of(text: Seq<char>) -> Option<InviteModel> {
    match record_parsed(text) {
        Some(value) => stored_of_json(value),
        None => None,
    }
}

proof fn lemma_stored_names()
    ensures
        "inviter_ephemeral_public_key"@.len() == 28,
        "shared_secret"@.len() == 13,
        "inviter"@.len() == 7 && "inviter"@[0] == 'i',
        "device_id"@.len() == 9,
        "max_uses"@.len() == 8,
        "used_by"@.len() == 7 && "used_by"@[0] == 'u',
        "created_at"@.len() == 10,
        "purpose"@.len() == 7 && "purpose"@[0] == 'p',
        "owner_public_key"@.len() == 16,
        "inviter_ephemeral_private_key"@.len() == 29,
{
    reveal_strlit("inviter_ephemeral_public_key");
    reveal_strlit("shared_secret");
    reveal_strlit("inviter");
    reveal_strlit("device_id");
    reveal_strlit("max_uses");
    reveal_strlit("used_by");
    reveal_strlit("created_at");
    reveal_strlit("purpose");
    reveal_strlit("owner_public_key");
    reveal_strlit("inviter_ephemeral_private_key");
}

proof fn lemma_hex_list(keys: Seq<DevicePubkey>)
    ensures
        keys_of_json(texts_json(hex_list(keys))) == Some(keys),
{
    lemma_texts_round_trip(hex_list(keys));
    assert forall|i: int| 0 <= i < keys.len() implies hex_key(#[trigger] hex_list(keys)[i]) == Some(
        keys[i].0,
    ) by {
        hex_key_round_trip(keys[i].0);
    }
    assert(keys_of_json(texts_json(hex_list(keys)))->Some_0 =~= keys);
}

/// An invite that was kept is read back.
pub proof fn stored_round_trip(m: InviteModel)
    ensures
        stored_of_json(stored_json(m)) == Some(m),
{
    lemma_stored_names();
    lemma_hex_list(m.used_by);
    hex_key_round_trip(m.ephemeral_key.0);
    hex_key_round_trip(m.shared_secret);
    hex_key_round_trip(m.inviter.0);
    if m.owner is Some {
        hex_key_round_trip(m.owner->Some_0.0);
    }
    if m.ephemeral_secret is Some {
        hex_key_round_trip(m.ephemeral_secret->Some_0);
    }
    let value = stored_json(m);
    let fields = value->Object_0;
    assert(each_once(fields));
    lemma_members(fields);
    let at: int = if m.ephemeral_secret is Some {
        assert(fields[3].0 == "inviter_ephemeral_private_key"@);
        4
    } else {
        3
    };
    assert(fields[0].0 == "inviter_ephemeral_public_key"@);
    assert(fields[1].0 == "shared_secret"@);
    assert(fields[2].0 == "inviter"@);
    assert(fields[at].0 == "device_id"@);
    assert(fields[at + 1].0 == "max_uses"@);
    assert(fields[at + 2].0 == "used_by"@);
    assert(fields[at + 3].0 == "created_at"@);
    assert(fields[at + 4].0 == "purpose"@);
    assert(fields[at + 5].0 == "owner_public_key"@);
    assert(field_of(value, "used_by"@) == Some(texts_json(hex_list(m.used_by))));
    assert(uint_field(value, "created_at"@) == Some(m.created_at.0));
    assert(key_field(value, "inviter_ephemeral_public_key"@) == Some(m.ephemeral_key.0));
    assert(key_field(value, "shared_secret"@) == Some(m.shared_secret));
    assert(key_field(value, "inviter"@) == Some(m.inviter.0));
    assert(text_field(value, "device_id"@) == m.device_id);
    assert(text_field(value, "purpose"@) == m.purpose);
    assert(key_field(value, "inviter_ephemeral_private_key"@) == m.ephemeral_secret);
    assert(field_of(value, "max_uses"@) is Some);
    assert(options_fit(value));
}

fn optional_text_json(text: Option<&str>) -> (r: Json)
    ensures
        r@ == optional_json(
            match text {
                Some(text) => Some(text@),
                None => None,
            },
        ),
{
    match text {
        Some(text) => Json::Str(text.to_string()),
        None => Json::Null,
    }
}

fn hex_texts(keys: &Vec<DevicePubkey>) -> (r: Vec<String>)
    ensures
        texts(r@) == hex_list(keys@),
{
    let mut r: Vec<String> = Vec::new();
    let mut i: usize = 0;
    while i < keys.len()
        invariant
            i <= keys@.len(),
            r@.len() == i,
            forall|j: int| 0 <= j < i ==> (#[trigger] r@[j])@ == hex_text(keys@[j].0@),
        decreases keys@.len() - i,
    {
        r.push(keys[i].to_hex());
        i = i + 1;
    }
    assert(texts(r@) =~= hex_list(keys@));
    r
}

fn read_keys(json: &Json) -> (r: Option<Vec<DevicePubkey>>)
    ensures
        r is Some == keys_of_json(json@) is Some,
        r matches Some(keys) ==> keys_of_json(json@) == Some(keys@),
{
    let list = match texts_from_json(json) {
        Some(list) => list,
        None => {
            return None;
        },
    };
    let mut r: Vec<DevicePubkey> = Vec::new();
    let mut i: usize = 0;
    while i < list.len()
        invariant
            i <= list@.len(),
            texts_of_json(json@) == Some(texts(list@)),
            r@.len() == i,
            forall|j: int|
                0 <= j < i ==> hex_key(#[trigger] texts(list@)[j]) == Some(r@[j].0),
        decreases list@.len() - i,
    {
        assert(texts(list@)[i as int] == list@[i as int]@);
        match DevicePubkey::parse_hex(list[i].as_str()) {
            Ok(key) => {
                r.push(key);
            },
            Err(_) => {
                return None;
            },
        }
        i = i + 1;
    }
    proof {
        let target = keys_of_json(json@)->Some_0;
        assert forall|j: int| 0 <= j < r@.len() implies r@[j] == target[j] by {
            assert(hex_key(texts(list@)[j]) == Some(r@[j].0));
        }
        assert(target =~= r@);
    }
    Some(r)
}

fn read_key_field(json: &Json, name: &str) -> (r: Option<[u8; 32]>)
    ensures
        r == key_field(json@, name@),
{
    match json.text_field(name) {
        Some(text) => match decode_hex_32(text.as_str()) {
            Ok(key) => Some(key),
            Err(_) => None,
        },
        None => None,
    }
}

fn read_optional_text(json: &Json, name: &str) -> (r: Option<String>)
    ensures
        crate::rumor::text_of(r) == text_field(json@, name@),
{
    match json.text_field(name) {
        Some(text) => Some(text.clone()),
        None => None,
    }
}

fn malformed(name: &str) -> (r: Error)
    ensures
        fault(r) == Fault::Parse,
{
    Error::Parse(crate::text::concat3("missing or malformed field `", name, "`"))
}

impl Invite {
    /// Writes an invite down, secrets and all.
    pub fn serialize(&self) -> (r: Result<String, Error>)
        ensures
            r matches Ok(text) && text@ == json_text(stored_json(self@)) && stored_of(text@) == Some(
                self@,
            ),
    {
        let device_id = match &self.device_id {
            Some(id) => Some(id.as_str()),
            None => None,
        };
        let purpose = match &self.purpose {
            Some(text) => Some(text.as_str()),
            None => None,
        };
        let max_uses = match self.max_uses {
            Some(n) => Json::Uint(n as u64),
            None => Json::Null,
        };
        let owner = match self.owner_public_key {
            Some(owner) => Json::Str(owner.to_hex()),
            None => Json::Null,
        };
        let mut fields: Vec<(String, Json)> = Vec::new();
        push_field(
            &mut fields,
            "inviter_ephemeral_public_key",
            Json::Str(self.inviter_ephemeral_public_key.to_hex()),
        );
        push_field(&mut fields, "shared_secret", Json::Str(hex_encode(&self.shared_secret)));
        push_field(&mut fields, "inviter", Json::Str(self.inviter.to_hex()));
        if let Some(secret) = &self.inviter_ephemeral_private_key {
            push_field(&mut fields, "inviter_ephemeral_private_key", Json::Str(hex_encode(secret)));
        }
        push_field(&mut fields, "device_id", optional_text_json(device_id));
        push_field(&mut fields, "max_uses", max_uses);
        push_field(&mut fields, "used_by", texts_to_json(&hex_texts(&self.used_by)));
        push_field(&mut fields, "created_at", Json::Uint(self.created_at.0));
        push_field(&mut fields, "purpose", optional_text_json(purpose));
        push_field(&mut fields, "owner_public_key", owner);
        let json = Json::Object(fields);
        proof {
            assert(json@->Object_0 =~= stored_json(self@)->Object_0);
            reveal_with_fuel(plain, 3);
            assert(plain(texts_json(hex_list(self@.used_by)), 126));
            assert(plain(json@, 127));
            stored_round_trip(self@);
        }
        Ok(print_json(&json))
    }

    /// Reads an invite.
    pub fn deserialize(json: &str) -> (r: Result<Self, Error>)
        ensures
            r is Ok == stored_of(json@) is Some,
            r matches Ok(invite) ==> stored_of(json@) == Some(invite@),
            r matches Err(e) ==> fault(e) == Fault::Parse,
    {
        let names: [&str; 10] = [
            "inviter_ephemeral_public_key",
            "shared_secret",
            "inviter",
            "inviter_ephemeral_private_key",
            "device_id",
            "max_uses",
            "used_by",
            "created_at",
            "purpose",
            "owner_public_key",
        ];
        assert(strs(names@) =~= stored_names());
        let value = match parse_record(json) {
            Ok(value) => value.into_record(&names),
            Err(e) => {
                return Err(Error::Parse(e));
            },
        };
        let ephemeral: [u8; 32] = match read_key_field(&value, "inviter_ephemeral_public_key") {
            Some(key) => key,
            None => {
                return Err(malformed("inviter_ephemeral_public_key"));
            },
        };
        let shared_secret: [u8; 32] = match read_key_field(&value, "shared_secret") {
            Some(key) => key,
            None => {
                return Err(malformed("shared_secret"));
            },
        };
        let inviter: [u8; 32] = match read_key_field(&value, "inviter") {
            Some(key) => key,
            None => {
                return Err(malformed("inviter"));
            },
        };
        let used_by = match value.field("used_by") {
            Some(list) => match read_keys(list) {
                Some(keys) => keys,
                None => {
                    return Err(malformed("used_by"));
                },
            },
            None => {
                return Err(malformed("used_by"));
            },
        };
        let created_at: u64 = match value.uint_field("created_at") {
            Some(n) => n,
            None => {
                return Err(malformed("created_at"));
            },
        };
        let secret = read_key_field(&value, "inviter_ephemeral_private_key");
        if secret.is_none() && !value.field_absent("inviter_ephemeral_private_key") {
            return Err(malformed("inviter_ephemeral_private_key"));
        }
        let owner = read_key_field(&value, "owner_public_key");
        if owner.is_none() && !value.field_absent("owner_public_key") {
            return Err(malformed("owner_public_key"));
        }
        let device_id = read_optional_text(&value, "device_id");
        if device_id.is_none() && !value.field_absent("device_id") {
            return Err(malformed("device_id"));
        }
        let purpose = read_optional_text(&value, "purpose");
        if purpose.is_none() && !value.field_absent("purpose") {
            return Err(malformed("purpose"));
        }
        let max_uses: Option<usize> = match value.uint_field("max_uses") {
            Some(n) => {
                if n > usize::MAX as u64 {
                    return Err(malformed("max_uses"));
                }
                Some(n as usize)
            },
            None => {
                if !value.field_absent("max_uses") {
                    return Err(malformed("max_uses"));
                }
                None
            },
        };
        Ok(
            Invite {
                inviter_ephemeral_public_key: DevicePubkey(ephemeral),
                shared_secret,
                inviter: OwnerPubkey(inviter),
                inviter_ephemeral_private_key: secret,
                device_id: match device_id {
                    Some(id) => Some(DeviceId(id)),
                    None => None,
                },
                max_uses,
                used_by,
                created_at: UnixSeconds(created_at),
                purpose,
                owner_public_key: match owner {
                    Some(key) => Some(OwnerPubkey(key)),
                    None => None,
                },
            },
        )
    }

    pub fn get_url(&self, root: &str) -> (r: Result<String, Error>)
        ensures
            r matches Ok(url) && url@ == invite_address(self@, root@, false),
            survives(self@, false),
    {
        invite_url(self, root)
    }

    pub fn from_url(url: &str) -> (r: Result<Self, Error>)
        ensures
            match r {
                Ok(invite) => invite_at(url@) == Ok::<InviteModel, Fault>(invite@),
                Err(e) => invite_at(url@) == Err::<InviteModel, Fault>(fault(e)),
            },
    {
        invite_from_url(url)
    }

    pub fn get_event(&self) -> (r: Result<UnsignedEvent, Error>)
        ensures
            match r {
                Ok(event) => self@.device_id is Some && event@ == invite_event_body(
                    self@,
                    invite_base_tags(self@, self@.device_id->Some_0),
                ),
                Err(e) => self@.device_id is None && fault(e) == Fault::DeviceIdRequired,
            },
    {
        invite_event(self)
    }

    pub fn from_event(event: &Event) -> (r: Result<Self, Error>)
        ensures
            match r {
                Ok(invite) => invite_in(event@.body) == Ok::<InviteModel, Fault>(invite@),
                Err(e) => invite_in(event@.body) == Err::<InviteModel, Fault>(fault(e)),
            },
    {
        invite_from_event(event)
    }
}

} // verus!
