//! What members of a group tell each other, and how it is written down.
use vstd::prelude::*;
use vstd::utf8::{decode_utf8, encode_utf8, valid_utf8};
use crate::encoding::{hex_key, hex_key_round_trip, hex_text, utf8_decode};
use crate::group::{GroupSnapshot, GroupSnapshotModel};
use crate::ids::{OwnerPubkey, UnixSeconds};
use crate::json::{
    as_record, each_once, field_of, item_values, json_text, lemma_item_values, lemma_members,
    parse_record, plain, print_json, push_field, push_item, record_parsed, strs, text_field,
    uint_field, Json, JsonValue,
};

verus! {

/// A change to the owners of a group.
#[derive(Debug, Clone, Copy, PartialEq, Eq, Structural)]
pub enum OwnersChange {
    AddMembers,
    RemoveMembers,
    AddAdmins,
    RemoveAdmins,
}

/// What a member of a group tells another.
#[derive(Debug)]
pub enum GroupPayload {
    Create { base_revision: u64, group: GroupSnapshot },
    Rename { group_id: String, base_revision: u64, new_revision: u64, name: String },
    Owners {
        change: OwnersChange,
        group_id: String,
        base_revision: u64,
        new_revision: u64,
        owners: Vec<OwnerPubkey>,
    },
    Message { group_id: String, revision: u64, body: Vec<u8> },
}

/// What it says.
#[verifier::ext_equal]
pub enum GroupPayloadModel {
    Create { base_revision: u64, group: GroupSnapshotModel },
    Rename { group_id: Seq<char>, base_revision: u64, new_revision: u64, name: Seq<char> },
    Owners {
        change: OwnersChange,
        group_id: Seq<char>,
        base_revision: u64,
        new_revision: u64,
        owners: Seq<OwnerPubkey>,
    },
    Message { group_id: Seq<char>, revision: u64, body: Seq<u8> },
}

impl View for GroupPayload {
    type V = GroupPayloadModel;

    open spec fn view(&self) -> GroupPayloadModel {
        match *self {
            GroupPayload::Create { base_revision, group } => GroupPayloadModel::Create {
                base_revision,
                group: group@,
            },
            GroupPayload::Rename {
                group_id,
                base_revision,
                new_revision,
                name,
            } => GroupPayloadModel::Rename {
                group_id: group_id@,
                base_revision,
                new_revision,
                name: name@,
            },
            GroupPayload::Owners {
                change,
                group_id,
                base_revision,
                new_revision,
                owners,
            } => GroupPayloadModel::Owners {
                change,
                group_id: group_id@,
                base_revision,
                new_revision,
                owners: owners@,
            },
            GroupPayload::Message { group_id, revision, body } => GroupPayloadModel::Message {
                group_id: group_id@,
                revision,
                body: body@,
            },
        }
    }
}

/// The name of a change, and of the list of owners that it is about.
pub open spec fn change_names(change: OwnersChange) -> (Seq<char>, Seq<char>) {
    match change {
        OwnersChange::AddMembers => ("add_members"@, "members"@),
        OwnersChange::RemoveMembers => ("remove_members"@, "members"@),
        OwnersChange::AddAdmins => ("add_admins"@, "admins"@),
        OwnersChange::RemoveAdmins => ("remove_admins"@, "admins"@),
    }
}

pub open spec fn owners_json(owners: Seq<OwnerPubkey>) -> JsonValue {
    JsonValue::Array(Seq::new(owners.len(), |i: int| JsonValue::Str(hex_text(owners[i].0@))))
}

pub open spec fn bytes_json(bytes: Seq<u8>) -> JsonValue {
    JsonValue::Array(Seq::new(bytes.len(), |i: int| JsonValue::Uint(bytes[i] as u64)))
}

/// What is told, as a JSON value.
pub open spec fn payload_json(m: GroupPayloadModel) -> JsonValue {
    match m {
        GroupPayloadModel::Create { base_revision, group } => JsonValue::Object(
            seq![
                ("kind"@, JsonValue::Str("create_group"@)),
                ("group_id"@, JsonValue::Str(group.group_id)),
                ("base_revision"@, JsonValue::Uint(base_revision)),
                ("new_revision"@, JsonValue::Uint(group.revision)),
                ("name"@, JsonValue::Str(group.name)),
                ("created_by"@, JsonValue::Str(hex_text(group.created_by.0@))),
                ("members"@, owners_json(group.members)),
                ("admins"@, owners_json(group.admins)),
                ("created_at"@, JsonValue::Uint(group.created_at.0)),
                ("updated_at"@, JsonValue::Uint(group.updated_at.0)),
            ],
        ),
        GroupPayloadModel::Rename {
            group_id,
            base_revision,
            new_revision,
            name,
        } => JsonValue::Object(
            seq![
                ("kind"@, JsonValue::Str("rename_group"@)),
                ("group_id"@, JsonValue::Str(group_id)),
                ("base_revision"@, JsonValue::Uint(base_revision)),
                ("new_revision"@, JsonValue::Uint(new_revision)),
                ("name"@, JsonValue::Str(name)),
            ],
        ),
        GroupPayloadModel::Owners {
            change,
            group_id,
            base_revision,
            new_revision,
            owners,
        } => JsonValue::Object(
            seq![
                ("kind"@, JsonValue::Str(change_names(change).0)),
                ("group_id"@, JsonValue::Str(group_id)),
                ("base_revision"@, JsonValue::Uint(base_revision)),
                ("new_revision"@, JsonValue::Uint(new_revision)),
                (change_names(change).1, owners_json(owners)),
            ],
        ),
        GroupPayloadModel::Message { group_id, revision, body } => JsonValue::Object(
            seq![
                ("kind"@, JsonValue::Str("group_message"@)),
                ("group_id"@, JsonValue::Str(group_id)),
                ("revision"@, JsonValue::Uint(revision)),
                ("body"@, bytes_json(body)),
            ],
        ),
    }
}

pub open spec fn envelope_json(m: GroupPayloadModel) -> JsonValue {
    JsonValue::Object(seq![("version"@, JsonValue::Uint(1)), ("payload"@, payload_json(m))])
}

/// What is told, as the bytes that a message carries.
pub open spec fn payload_bytes(m: GroupPayloadModel) -> Seq<u8> {
    encode_utf8(json_text(envelope_json(m)))
}

/// The owner that a JSON value names.
pub open spec fn owner_of_json(value: JsonValue) -> Option<OwnerPubkey> {
    match value {
        JsonValue::Str(text) => match hex_key(text) {
            Some(key) => Some(OwnerPubkey(key)),
            None => None,
        },
        _ => None,
    }
}

/// The owners that a JSON value lists.
pub open spec fn owners_of_json(value: JsonValue) -> Option<Seq<OwnerPubkey>> {
    match value {
        JsonValue::Array(items) => if forall|i: int|
            0 <= i < items.len() ==> owner_of_json(#[trigger] items[i]) is Some {
            Some(Seq::new(items.len(), |i: int| owner_of_json(items[i])->Some_0))
        } else {
            None
        },
        _ => None,
    }
}

pub open spec fn byte_of_json(value: JsonValue) -> Option<u8> {
    match value {
        JsonValue::Uint(n) => if n <= 255 {
            Some(n as u8)
        } else {
            None
        },
        _ => None,
    }
}

/// The bytes that a JSON value lists.
pub open spec fn bytes_of_json(value: JsonValue) -> Option<Seq<u8>> {
    match value {
        JsonValue::Array(items) => if forall|i: int|
            0 <= i < items.len() ==> byte_of_json(#[trigger] items[i]) is Some {
            Some(Seq::new(items.len(), |i: int| byte_of_json(items[i])->Some_0))
        } else {
            None
        },
        _ => None,
    }
}

pub open spec fn owner_field(value: JsonValue, name: Seq<char>) -> Option<OwnerPubkey> {
    match field_of(value, name) {
        Some(field) => owner_of_json(field),
        None => None,
    }
}

pub open spec fn owners_field(value: JsonValue, name: Seq<char>) -> Option<Seq<OwnerPubkey>> {
    match field_of(value, name) {
        Some(field) => owners_of_json(field),
        None => None,
    }
}

pub open spec fn bytes_field(value: JsonValue, name: Seq<char>) -> Option<Seq<u8>> {
    match field_of(value, name) {
        Some(field) => bytes_of_json(field),
        None => None,
    }
}

/// Which change a name stands for.
pub open spec fn change_of_name(kind: Seq<char>) -> Option<OwnersChange> {
    if kind == "add_members"@ {
        Some(OwnersChange::AddMembers)
    } else if kind == "remove_members"@ {
        Some(OwnersChange::RemoveMembers)
    } else if kind == "add_admins"@ {
        Some(OwnersChange::AddAdmins)
    } else if kind == "remove_admins"@ {
        Some(OwnersChange::RemoveAdmins)
    } else {
        None
    }
}

/// The group that a JSON value tells of.
pub open spec fn group_of_json(value: JsonValue) -> Option<GroupSnapshotModel> {
    match (
        text_field(value, "group_id"@),
        uint_field(value, "new_revision"@),
        text_field(value, "name"@),
        owner_field(value, "created_by"@),
        owners_field(value, "members"@),
        owners_field(value, "admins"@),
        uint_field(value, "created_at"@),
        uint_field(value, "updated_at"@),
    ) {
        (
            Some(group_id),
            Some(revision),
            Some(name),
            Some(created_by),
            Some(members),
            Some(admins),
            Some(created_at),
            Some(updated_at),
        ) => Some(
            GroupSnapshotModel {
                group_id,
                name,
                created_by,
                members,
                admins,
                revision,
                created_at: UnixSeconds(created_at),
                updated_at: UnixSeconds(updated_at),
            },
        ),
        _ => None,
    }
}

/// The kind of what a JSON value tells: a member, or the first item of a list.
pub open spec fn kind_of_json(value: JsonValue) -> Option<Seq<char>> {
    match value {
        JsonValue::Array(items) => match items.first() {
            JsonValue::Str(kind) if items.len() > 0 => Some(kind),
            _ => None,
        },
        _ => text_field(value, "kind"@),
    }
}

/// The members of what is told.
pub open spec fn payload_names(kind: Seq<char>) -> Seq<Seq<char>> {
    if kind == "create_group"@ {
        seq![
            "kind"@,
            "group_id"@,
            "base_revision"@,
            "new_revision"@,
            "name"@,
            "created_by"@,
            "members"@,
            "admins"@,
            "created_at"@,
            "updated_at"@,
        ]
    } else if kind == "rename_group"@ {
        seq!["kind"@, "group_id"@, "base_revision"@, "new_revision"@, "name"@]
    } else if kind == "group_message"@ {
        seq!["kind"@, "group_id"@, "revision"@, "body"@]
    } else {
        match change_of_name(kind) {
            Some(change) => seq![
                "kind"@,
                "group_id"@,
                "base_revision"@,
                "new_revision"@,
                change_names(change).1,
            ],
            None => seq!["kind"@],
        }
    }
}

/// What a JSON value tells, if it tells of a group: an object, or a list of the
/// members.
pub open spec fn payload_of_json(value: JsonValue) -> Option<GroupPayloadModel> {
    match kind_of_json(value) {
        None => None,
        Some(kind) => payload_of_kind(kind, as_record(value, payload_names(kind))),
    }
}

/// What an object of a kind tells.
pub open spec fn payload_of_kind(kind: Seq<char>, value: JsonValue) -> Option<GroupPayloadModel> {
    if kind == "create_group"@ {
        match (uint_field(value, "base_revision"@), group_of_json(value)) {
            (Some(base_revision), Some(group)) => Some(
                GroupPayloadModel::Create { base_revision, group },
            ),
            _ => None,
        }
    } else if kind == "rename_group"@ {
        match (
            text_field(value, "group_id"@),
            uint_field(value, "base_revision"@),
            uint_field(value, "new_revision"@),
            text_field(value, "name"@),
        ) {
            (Some(group_id), Some(base_revision), Some(new_revision), Some(name)) => Some(
                GroupPayloadModel::Rename { group_id, base_revision, new_revision, name },
            ),
            _ => None,
        }
    } else if kind == "group_message"@ {
        match (
            text_field(value, "group_id"@),
            uint_field(value, "revision"@),
            bytes_field(value, "body"@),
        ) {
            (Some(group_id), Some(revision), Some(body)) => Some(
                GroupPayloadModel::Message { group_id, revision, body },
            ),
            _ => None,
        }
    } else {
        match change_of_name(kind) {
            None => None,
            Some(change) => match (
                text_field(value, "group_id"@),
                uint_field(value, "base_revision"@),
                uint_field(value, "new_revision"@),
                owners_field(value, change_names(change).1),
            ) {
                (Some(group_id), Some(base_revision), Some(new_revision), Some(owners)) => Some(
                    GroupPayloadModel::Owners {
                        change,
                        group_id,
                        base_revision,
                        new_revision,
                        owners,
                    },
                ),
                _ => None,
            },
        }
    }
}

/// The members of an envelope.
pub open spec fn envelope_names() -> Seq<Seq<char>> {
    seq!["version"@, "payload"@]
}

/// What an envelope tells: an object, or a list of the version and the payload.
pub open spec fn envelope_of_json(value: JsonValue) -> Option<GroupPayloadModel> {
    let value = as_record(value, envelope_names());
    if uint_field(value, "version"@) == Some(1u64) {
        match field_of(value, "payload"@) {
            Some(payload) => payload_of_json(payload),
            None => None,
        }
    } else {
        None
    }
}

/// What the bytes of a message tell, if they tell of a group.
pub open spec fn payload_of_bytes(bytes: Seq<u8>) -> Option<GroupPayloadModel> {
    if !valid_utf8(bytes) {
        None
    } else {
        match record_parsed(decode_utf8(bytes)) {
            None => None,
            Some(value) => envelope_of_json(value),
        }
    }
}

proof fn lemma_field_names()
    ensures
        "version"@ != "payload"@,
        "kind"@ != "group_id"@,
        "kind"@ != "base_revision"@,
        "kind"@ != "new_revision"@,
        "kind"@ != "name"@,
        "kind"@ != "created_by"@,
        "kind"@ != "members"@,
        "kind"@ != "admins"@,
        "kind"@ != "created_at"@,
        "kind"@ != "updated_at"@,
        "kind"@ != "revision"@,
        "kind"@ != "body"@,
        "group_id"@ != "base_revision"@,
        "group_id"@ != "new_revision"@,
        "group_id"@ != "name"@,
        "group_id"@ != "created_by"@,
        "group_id"@ != "members"@,
        "group_id"@ != "admins"@,
        "group_id"@ != "created_at"@,
        "group_id"@ != "updated_at"@,
        "group_id"@ != "revision"@,
        "group_id"@ != "body"@,
        "base_revision"@ != "new_revision"@,
        "base_revision"@ != "name"@,
        "base_revision"@ != "created_by"@,
        "base_revision"@ != "members"@,
        "base_revision"@ != "admins"@,
        "base_revision"@ != "created_at"@,
        "base_revision"@ != "updated_at"@,
        "new_revision"@ != "name"@,
        "new_revision"@ != "created_by"@,
        "new_revision"@ != "members"@,
        "new_revision"@ != "admins"@,
        "new_revision"@ != "created_at"@,
        "new_revision"@ != "updated_at"@,
        "name"@ != "created_by"@,
        "name"@ != "members"@,
        "name"@ != "admins"@,
        "name"@ != "created_at"@,
        "name"@ != "updated_at"@,
        "created_by"@ != "members"@,
        "created_by"@ != "admins"@,
        "created_by"@ != "created_at"@,
        "created_by"@ != "updated_at"@,
        "members"@ != "admins"@,
        "members"@ != "created_at"@,
        "members"@ != "updated_at"@,
        "admins"@ != "created_at"@,
        "admins"@ != "updated_at"@,
        "created_at"@ != "updated_at"@,
        "revision"@ != "body"@,
{
    reveal_strlit("version");
    reveal_strlit("payload");
    reveal_strlit("kind");
    reveal_strlit("group_id");
    reveal_strlit("base_revision");
    reveal_strlit("new_revision");
    reveal_strlit("name");
    reveal_strlit("created_by");
    reveal_strlit("members");
    reveal_strlit("admins");
    reveal_strlit("created_at");
    reveal_strlit("updated_at");
    reveal_strlit("revision");
    reveal_strlit("body");
    assert("version"@[0] == 'v' && "payload"@[0] == 'p');
    assert("kind"@.len() == 4 && "kind"@[0] == 'k');
    assert("name"@.len() == 4 && "name"@[0] == 'n');
    assert("body"@.len() == 4 && "body"@[0] == 'b');
    assert("group_id"@.len() == 8 && "group_id"@[0] == 'g');
    assert("revision"@.len() == 8 && "revision"@[0] == 'r');
    assert("base_revision"@.len() == 13);
    assert("new_revision"@.len() == 12);
    assert("members"@.len() == 7);
    assert("admins"@.len() == 6);
    assert("created_by"@.len() == 10 && "created_by"@[0] == 'c' && "created_by"@[8] == 'b');
    assert("created_at"@.len() == 10 && "created_at"@[0] == 'c' && "created_at"@[8] == 'a');
    assert("updated_at"@.len() == 10 && "updated_at"@[0] == 'u');
}

proof fn lemma_kinds()
    ensures
        "create_group"@ != "rename_group"@,
        "create_group"@ != "group_message"@,
        "rename_group"@ != "group_message"@,
        forall|change: OwnersChange| #[trigger] change_names(change).0 != "create_group"@,
        forall|change: OwnersChange| #[trigger] change_names(change).0 != "rename_group"@,
        forall|change: OwnersChange| #[trigger] change_names(change).0 != "group_message"@,
        forall|change: OwnersChange| change_of_name(#[trigger] change_names(change).0) == Some(
            change,
        ),
{
    reveal_strlit("create_group");
    reveal_strlit("rename_group");
    reveal_strlit("group_message");
    reveal_strlit("add_members");
    reveal_strlit("remove_members");
    reveal_strlit("add_admins");
    reveal_strlit("remove_admins");
    assert("create_group"@.len() == 12 && "create_group"@[0] == 'c');
    assert("rename_group"@.len() == 12 && "rename_group"@[0] == 'r');
    assert("group_message"@.len() == 13 && "group_message"@[0] == 'g');
    assert("add_members"@.len() == 11);
    assert("remove_members"@.len() == 14);
    assert("add_admins"@.len() == 10);
    assert("remove_admins"@.len() == 13 && "remove_admins"@[0] == 'r');
}

proof fn lemma_owners_read_back(owners: Seq<OwnerPubkey>)
    ensures
        owners_of_json(owners_json(owners)) == Some(owners),
        plain(owners_json(owners), 1),
{
    reveal_with_fuel(plain, 2);
    let items = owners_json(owners)->Array_0;
    assert forall|i: int| 0 <= i < items.len() implies owner_of_json(#[trigger] items[i]) == Some(
        owners[i],
    ) by {
        hex_key_round_trip(owners[i].0);
        assert(OwnerPubkey(owners[i].0) == owners[i]);
    }
    assert(Seq::new(items.len(), |i: int| owner_of_json(items[i])->Some_0) =~= owners);
}

proof fn lemma_bytes_read_back(bytes: Seq<u8>)
    ensures
        bytes_of_json(bytes_json(bytes)) == Some(bytes),
        plain(bytes_json(bytes), 1),
{
    reveal_with_fuel(plain, 2);
    let items = bytes_json(bytes)->Array_0;
    assert forall|i: int| 0 <= i < items.len() implies byte_of_json(#[trigger] items[i]) == Some(
        bytes[i],
    ) by {
        let b = bytes[i];
        assert((b as u64) as u8 == b);
    }
    assert(Seq::new(items.len(), |i: int| byte_of_json(items[i])->Some_0) =~= bytes);
}

/// What is told is what is understood.
pub proof fn payload_round_trip(m: GroupPayloadModel)
    ensures
        payload_of_json(payload_json(m)) == Some(m),
{
    lemma_field_names();
    lemma_kinds();
    let value = payload_json(m);
    let fields = value->Object_0;
    if let GroupPayloadModel::Owners { change, .. } = m {
        assert(change_names(change).1 == "members"@ || change_names(change).1 == "admins"@);
    }
    assert(each_once(fields));
    lemma_members(fields);
    assert(fields[0].0 == "kind"@);
    assert(fields[1].0 == "group_id"@);
    match m {
        GroupPayloadModel::Create { base_revision, group } => {
            assert(fields[2].0 == "base_revision"@);
            assert(fields[3].0 == "new_revision"@);
            assert(fields[4].0 == "name"@);
            assert(fields[5].0 == "created_by"@);
            assert(fields[6].0 == "members"@);
            assert(fields[7].0 == "admins"@);
            assert(fields[8].0 == "created_at"@);
            assert(fields[9].0 == "updated_at"@);
            lemma_owners_read_back(group.members);
            lemma_owners_read_back(group.admins);
            hex_key_round_trip(group.created_by.0);
            assert(OwnerPubkey(group.created_by.0) == group.created_by);
            assert(UnixSeconds(group.created_at.0) == group.created_at);
            assert(UnixSeconds(group.updated_at.0) == group.updated_at);
            assert(group_of_json(value) == Some(group));
        },
        GroupPayloadModel::Rename { .. } => {
            assert(fields[2].0 == "base_revision"@);
            assert(fields[3].0 == "new_revision"@);
            assert(fields[4].0 == "name"@);
        },
        GroupPayloadModel::Owners { change, owners, .. } => {
            assert(fields[2].0 == "base_revision"@);
            assert(fields[3].0 == "new_revision"@);
            assert(fields[4].0 == change_names(change).1);
            lemma_owners_read_back(owners);
            assert(change_names(change).0 != "create_group"@);
        },
        GroupPayloadModel::Message { body, .. } => {
            assert(fields[2].0 == "revision"@);
            assert(fields[3].0 == "body"@);
            lemma_bytes_read_back(body);
        },
    }
}

proof fn lemma_envelope(m: GroupPayloadModel)
    ensures
        envelope_of_json(envelope_json(m)) == Some(m),
{
    lemma_field_names();
    payload_round_trip(m);
    let fields = envelope_json(m)->Object_0;
    lemma_members(fields);
    assert(fields[0].0 == "version"@);
    assert(fields[1].0 == "payload"@);
}

proof fn lemma_payload_plain(m: GroupPayloadModel)
    ensures
        plain(envelope_json(m), 127),
{
    let value = payload_json(m);
    match m {
        GroupPayloadModel::Create { group, .. } => {
            lemma_owners_read_back(group.members);
            lemma_owners_read_back(group.admins);
        },
        GroupPayloadModel::Owners { owners, .. } => {
            lemma_owners_read_back(owners);
        },
        GroupPayloadModel::Message { body, .. } => {
            lemma_bytes_read_back(body);
        },
        _ => {},
    }
    let fields = value->Object_0;
    assert forall|i: int| 0 <= i < fields.len() implies plain((#[trigger] fields[i]).1, 1) by {}
    assert(plain(value, 2));
    crate::json::lemma_plain_deeper(value, 2, 126);
    let outer = envelope_json(m)->Object_0;
    assert forall|i: int| 0 <= i < outer.len() implies plain((#[trigger] outer[i]).1, 126) by {}
}

fn owners_to_json(owners: &Vec<OwnerPubkey>) -> (r: Json)
    ensures
        r@ == owners_json(owners@),
{
    let mut items: Vec<Json> = Vec::new();
    let mut i: usize = 0;
    let ghost target = owners_json(owners@)->Array_0;
    assert(item_values(items@) =~= target.take(0));
    while i < owners.len()
        invariant
            i <= owners@.len(),
            target == owners_json(owners@)->Array_0,
            item_values(items@) == target.take(i as int),
        decreases owners@.len() - i,
    {
        push_item(&mut items, Json::Str(owners[i].to_hex()));
        assert(item_values(items@) =~= target.take(i + 1));
        i = i + 1;
    }
    assert(target.take(i as int) =~= target);
    Json::Array(items)
}

fn bytes_to_json(bytes: &Vec<u8>) -> (r: Json)
    ensures
        r@ == bytes_json(bytes@),
{
    let mut items: Vec<Json> = Vec::new();
    let mut i: usize = 0;
    let ghost target = bytes_json(bytes@)->Array_0;
    assert(item_values(items@) =~= target.take(0));
    while i < bytes.len()
        invariant
            i <= bytes@.len(),
            target == bytes_json(bytes@)->Array_0,
            item_values(items@) == target.take(i as int),
        decreases bytes@.len() - i,
    {
        push_item(&mut items, Json::Uint(bytes[i] as u64));
        assert(item_values(items@) =~= target.take(i + 1));
        i = i + 1;
    }
    assert(target.take(i as int) =~= target);
    Json::Array(items)
}

fn owners_from_json(json: &Json) -> (r: Option<Vec<OwnerPubkey>>)
    ensures
        match r {
            Some(owners) => owners_of_json(json@) == Some(owners@),
            None => owners_of_json(json@) is None,
        },
{
    match json {
        Json::Array(items) => {
            proof {
                lemma_item_values(items@);
            }
            let ghost values = item_values(items@);
            let mut owners: Vec<OwnerPubkey> = Vec::new();
            let mut i: usize = 0;
            while i < items.len()
                invariant
                    i <= items@.len(),
                    values.len() == items@.len(),
                    json@ == JsonValue::Array(values),
                    forall|j: int| 0 <= j < items@.len() ==> #[trigger] values[j] == items@[j]@,
                    owners@.len() == i,
                    forall|j: int|
                        0 <= j < i ==> owner_of_json(#[trigger] values[j]) == Some(owners@[j]),
                decreases items@.len() - i,
            {
                assert(values[i as int] == items@[i as int]@);
                match &items[i] {
                    Json::Str(text) => match OwnerPubkey::parse_hex(text.as_str()) {
                        Ok(owner) => {
                            owners.push(owner);
                        },
                        Err(_) => {
                            assert(owner_of_json(values[i as int]) is None);
                            return None;
                        },
                    },
                    _ => {
                        assert(owner_of_json(values[i as int]) is None);
                        return None;
                    },
                }
                i = i + 1;
            }
            assert(owners_of_json(json@)->Some_0 =~= owners@);
            Some(owners)
        },
        _ => None,
    }
}

fn bytes_from_json(json: &Json) -> (r: Option<Vec<u8>>)
    ensures
        match r {
            Some(bytes) => bytes_of_json(json@) == Some(bytes@),
            None => bytes_of_json(json@) is None,
        },
{
    match json {
        Json::Array(items) => {
            proof {
                lemma_item_values(items@);
            }
            let ghost values = item_values(items@);
            let mut bytes: Vec<u8> = Vec::new();
            let mut i: usize = 0;
            while i < items.len()
                invariant
                    i <= items@.len(),
                    values.len() == items@.len(),
                    json@ == JsonValue::Array(values),
                    forall|j: int| 0 <= j < items@.len() ==> #[trigger] values[j] == items@[j]@,
                    bytes@.len() == i,
                    forall|j: int|
                        0 <= j < i ==> byte_of_json(#[trigger] values[j]) == Some(bytes@[j]),
                decreases items@.len() - i,
            {
                assert(values[i as int] == items@[i as int]@);
                match &items[i] {
                    Json::Uint(n) => {
                        if *n > 255 {
                            assert(byte_of_json(values[i as int]) is None);
                            return None;
                        }
                        bytes.push(*n as u8);
                    },
                    _ => {
                        assert(byte_of_json(values[i as int]) is None);
                        return None;
                    },
                }
                i = i + 1;
            }
            assert(bytes_of_json(json@)->Some_0 =~= bytes@);
            Some(bytes)
        },
        _ => None,
    }
}

fn read_owners(json: &Json, name: &str) -> (r: Option<Vec<OwnerPubkey>>)
    ensures
        match r {
            Some(owners) => owners_field(json@, name@) == Some(owners@),
            None => owners_field(json@, name@) is None,
        },
{
    match json.field(name) {
        Some(field) => owners_from_json(field),
        None => None,
    }
}

fn read_owner(json: &Json, name: &str) -> (r: Option<OwnerPubkey>)
    ensures
        r == owner_field(json@, name@),
{
    match json.field(name) {
        Some(Json::Str(text)) => match OwnerPubkey::parse_hex(text.as_str()) {
            Ok(owner) => Some(owner),
            Err(_) => None,
        },
        _ => None,
    }
}

fn read_bytes(json: &Json, name: &str) -> (r: Option<Vec<u8>>)
    ensures
        match r {
            Some(bytes) => bytes_field(json@, name@) == Some(bytes@),
            None => bytes_field(json@, name@) is None,
        },
{
    match json.field(name) {
        Some(field) => bytes_from_json(field),
        None => None,
    }
}

fn push_owners(fields: &mut Vec<(String, Json)>, change: OwnersChange, owners: &Vec<OwnerPubkey>)
    ensures
        crate::json::field_values(final(fields)@) == crate::json::field_values(
            old(fields)@,
        ).push((change_names(change).1, owners_json(owners@))),
{
    match change {
        OwnersChange::AddMembers | OwnersChange::RemoveMembers => {
            push_field(fields, "members", owners_to_json(owners));
        },
        OwnersChange::AddAdmins | OwnersChange::RemoveAdmins => {
            push_field(fields, "admins", owners_to_json(owners));
        },
    }
}

fn change_kind(change: OwnersChange) -> (r: &'static str)
    ensures
        r@ == change_names(change).0,
{
    match change {
        OwnersChange::AddMembers => "add_members",
        OwnersChange::RemoveMembers => "remove_members",
        OwnersChange::AddAdmins => "add_admins",
        OwnersChange::RemoveAdmins => "remove_admins",
    }
}

fn change_list(change: OwnersChange) -> (r: &'static str)
    ensures
        r@ == change_names(change).1,
{
    match change {
        OwnersChange::AddMembers | OwnersChange::RemoveMembers => "members",
        OwnersChange::AddAdmins | OwnersChange::RemoveAdmins => "admins",
    }
}

fn change_from_kind(kind: &str) -> (r: Option<OwnersChange>)
    ensures
        r == change_of_name(kind@),
{
    if crate::order::same_str(kind, "add_members") {
        Some(OwnersChange::AddMembers)
    } else if crate::order::same_str(kind, "remove_members") {
        Some(OwnersChange::RemoveMembers)
    } else if crate::order::same_str(kind, "add_admins") {
        Some(OwnersChange::AddAdmins)
    } else if crate::order::same_str(kind, "remove_admins") {
        Some(OwnersChange::RemoveAdmins)
    } else {
        None
    }
}

fn read_kind(json: &Json) -> (r: Option<String>)
    ensures
        match r {
            Some(kind) => kind_of_json(json@) == Some(kind@),
            None => kind_of_json(json@) is None,
        },
{
    match json {
        Json::Array(items) => {
            proof {
                lemma_item_values(items@);
            }
            if items.len() == 0 {
                return None;
            }
            assert(item_values(items@)[0] == items@[0]@);
            match &items[0] {
                Json::Str(kind) => Some(kind.clone()),
                _ => None,
            }
        },
        _ => match json.text_field("kind") {
            Some(kind) => Some(kind.clone()),
            None => None,
        },
    }
}

impl GroupPayload {
    fn to_json(&self) -> (r: Json)
        ensures
            r@ == payload_json(self@),
    {
        let mut fields: Vec<(String, Json)> = Vec::new();
        match self {
            GroupPayload::Create { base_revision, group } => {
                push_field(&mut fields, "kind", Json::Str("create_group".to_string()));
                push_field(&mut fields, "group_id", Json::Str(group.group_id.clone()));
                push_field(&mut fields, "base_revision", Json::Uint(*base_revision));
                push_field(&mut fields, "new_revision", Json::Uint(group.revision));
                push_field(&mut fields, "name", Json::Str(group.name.clone()));
                push_field(&mut fields, "created_by", Json::Str(group.created_by.to_hex()));
                push_field(&mut fields, "members", owners_to_json(&group.members));
                push_field(&mut fields, "admins", owners_to_json(&group.admins));
                push_field(&mut fields, "created_at", Json::Uint(group.created_at.0));
                push_field(&mut fields, "updated_at", Json::Uint(group.updated_at.0));
            },
            GroupPayload::Rename { group_id, base_revision, new_revision, name } => {
                push_field(&mut fields, "kind", Json::Str("rename_group".to_string()));
                push_field(&mut fields, "group_id", Json::Str(group_id.clone()));
                push_field(&mut fields, "base_revision", Json::Uint(*base_revision));
                push_field(&mut fields, "new_revision", Json::Uint(*new_revision));
                push_field(&mut fields, "name", Json::Str(name.clone()));
            },
            GroupPayload::Owners { change, group_id, base_revision, new_revision, owners } => {
                push_field(&mut fields, "kind", Json::Str(change_kind(*change).to_string()));
                push_field(&mut fields, "group_id", Json::Str(group_id.clone()));
                push_field(&mut fields, "base_revision", Json::Uint(*base_revision));
                push_field(&mut fields, "new_revision", Json::Uint(*new_revision));
                push_owners(&mut fields, *change, owners);
            },
            GroupPayload::Message { group_id, revision, body } => {
                push_field(&mut fields, "kind", Json::Str("group_message".to_string()));
                push_field(&mut fields, "group_id", Json::Str(group_id.clone()));
                push_field(&mut fields, "revision", Json::Uint(*revision));
                push_field(&mut fields, "body", bytes_to_json(body));
            },
        }
        let json = Json::Object(fields);
        assert(json@->Object_0 =~= payload_json(self@)->Object_0);
        json
    }

    fn read_group(json: &Json) -> (r: Option<GroupSnapshot>)
        ensures
            match r {
                Some(group) => group_of_json(json@) == Some(group@),
                None => group_of_json(json@) is None,
            },
    {
        match (
            json.text_field("group_id"),
            json.uint_field("new_revision"),
            json.text_field("name"),
            read_owner(json, "created_by"),
            read_owners(json, "members"),
            read_owners(json, "admins"),
            json.uint_field("created_at"),
            json.uint_field("updated_at"),
        ) {
            (
                Some(group_id),
                Some(revision),
                Some(name),
                Some(created_by),
                Some(members),
                Some(admins),
                Some(created_at),
                Some(updated_at),
            ) => Some(
                GroupSnapshot {
                    group_id: group_id.clone(),
                    name: name.clone(),
                    created_by,
                    members,
                    admins,
                    revision,
                    created_at: UnixSeconds(created_at),
                    updated_at: UnixSeconds(updated_at),
                },
            ),
            _ => None,
        }
    }

    fn from_json(json: Json) -> (r: Option<GroupPayload>)
        ensures
            match r {
                Some(payload) => payload_of_json(json@) == Some(payload@),
                None => payload_of_json(json@) is None,
            },
    {
        let kind = match read_kind(&json) {
            Some(kind) => kind,
            None => {
                return None;
            },
        };
        let kind = kind.as_str();
        if crate::order::same_str(kind, "create_group") {
            let names: [&str; 10] = [
                "kind",
                "group_id",
                "base_revision",
                "new_revision",
                "name",
                "created_by",
                "members",
                "admins",
                "created_at",
                "updated_at",
            ];
            assert(strs(names@) =~= payload_names(kind@));
            let json = json.into_record(&names);
            return match (json.uint_field("base_revision"), Self::read_group(&json)) {
                (Some(base_revision), Some(group)) => Some(
                    GroupPayload::Create { base_revision, group },
                ),
                _ => None,
            };
        }
        if crate::order::same_str(kind, "rename_group") {
            let names: [&str; 5] = ["kind", "group_id", "base_revision", "new_revision", "name"];
            assert(strs(names@) =~= payload_names(kind@));
            let json = json.into_record(&names);
            return match (
                json.text_field("group_id"),
                json.uint_field("base_revision"),
                json.uint_field("new_revision"),
                json.text_field("name"),
            ) {
                (Some(group_id), Some(base_revision), Some(new_revision), Some(name)) => Some(
                    GroupPayload::Rename {
                        group_id: group_id.clone(),
                        base_revision,
                        new_revision,
                        name: name.clone(),
                    },
                ),
                _ => None,
            };
        }
        if crate::order::same_str(kind, "group_message") {
            let names: [&str; 4] = ["kind", "group_id", "revision", "body"];
            assert(strs(names@) =~= payload_names(kind@));
            let json = json.into_record(&names);
            return match (
                json.text_field("group_id"),
                json.uint_field("revision"),
                read_bytes(&json, "body"),
            ) {
                (Some(group_id), Some(revision), Some(body)) => Some(
                    GroupPayload::Message { group_id: group_id.clone(), revision, body },
                ),
                _ => None,
            };
        }
        match change_from_kind(kind) {
            None => None,
            Some(change) => {
                let list = change_list(change);
                let names: [&str; 5] = ["kind", "group_id", "base_revision", "new_revision", list];
                assert(strs(names@) =~= payload_names(kind@));
                let json = json.into_record(&names);
                match (
                    json.text_field("group_id"),
                    json.uint_field("base_revision"),
                    json.uint_field("new_revision"),
                    read_owners(&json, list),
                ) {
                    (Some(group_id), Some(base_revision), Some(new_revision), Some(owners)) => Some(
                        GroupPayload::Owners {
                            change,
                            group_id: group_id.clone(),
                            base_revision,
                            new_revision,
                            owners,
                        },
                    ),
                    _ => None,
                }
            },
        }
    }

    /// The bytes that carry it.
    pub fn to_bytes(&self) -> (r: Vec<u8>)
        ensures
            r@ == payload_bytes(self@),
            payload_of_bytes(r@) == Some(self@),
    {
        let mut fields: Vec<(String, Json)> = Vec::new();
        push_field(&mut fields, "version", Json::Uint(1));
        push_field(&mut fields, "payload", self.to_json());
        let json = Json::Object(fields);
        proof {
            assert(json@->Object_0 =~= envelope_json(self@)->Object_0);
            lemma_payload_plain(self@);
            lemma_envelope(self@);
        }
        let text = print_json(&json);
        proof {
            vstd::utf8::encode_utf8_valid_utf8(text@);
            vstd::utf8::encode_utf8_decode_utf8(text@);
        }
        vstd::slice::slice_to_vec(text.as_str().as_bytes())
    }

    /// Reads the bytes of a message. Bytes that tell of no group are none.
    pub fn from_bytes(bytes: &[u8]) -> (r: Option<GroupPayload>)
        ensures
            match r {
                Some(payload) => payload_of_bytes(bytes@) == Some(payload@),
                None => payload_of_bytes(bytes@) is None,
            },
    {
        let text = match utf8_decode(vstd::slice::slice_to_vec(bytes)) {
            Ok(text) => text,
            Err(_) => {
                return None;
            },
        };
        let names: [&str; 2] = ["version", "payload"];
        assert(strs(names@) =~= envelope_names());
        let json = match parse_record(text.as_str()) {
            Ok(json) => json.into_record(&names),
            Err(_) => {
                return None;
            },
        };
        match json.uint_field("version") {
            Some(version) => if version != 1 {
                return None;
            },
            None => {
                return None;
            },
        }
        match json.into_field("payload") {
            Some(payload) => Self::from_json(payload),
            None => None,
        }
    }
}

} // verus!
