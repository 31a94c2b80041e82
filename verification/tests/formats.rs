//! The texts in which messages, devices and invites are written.
use nostr_double_ratchet::group::GroupSnapshot;
use nostr_double_ratchet::group_wire::{GroupPayload, OwnersChange};
use nostr_double_ratchet::rumor::Rumor;
use nostr_double_ratchet::runtime::letters::{
    decode_local_sibling_payload, local_sibling_payload,
};
use nostr_double_ratchet::session::domain::{
    header_from_text, header_to_text, normalize_inner_rumor_id,
};
use nostr_double_ratchet::session::Header;
use nostr_double_ratchet::{
    AppKeys, DeviceEntry, DevicePubkey, Error, Invite, OwnerPubkey, ProtocolContext, UnixMillis,
    UnixSeconds,
};
use rand::rngs::StdRng;
use rand::SeedableRng;

fn device(fill: u8) -> DevicePubkey {
    DevicePubkey::from_secret_bytes(&[fill; 32]).unwrap()
}

fn owner(fill: u8) -> OwnerPubkey {
    device(fill).as_owner()
}

fn text_of(bytes: Vec<u8>) -> String {
    String::from_utf8(bytes).unwrap()
}

#[test]
fn a_header_names_its_members_in_their_order() {
    let key = device(5);
    let header = Header { number: 7, previous_chain_length: 3, next_public_key: key };
    let hex = key.to_hex();
    assert_eq!(
        header_to_text(&header),
        format!("{{\"number\":7,\"previous_chain_length\":3,\"next_public_key\":\"{hex}\"}}"),
    );
    let list = header_from_text(&format!("[7,3,\"{hex}\"]")).unwrap();
    assert_eq!((list.number, list.previous_chain_length, list.next_public_key), (7, 3, key));
    let other_order = header_from_text(&format!(
        "{{\"next_public_key\":\"{hex}\",\"extra\":1,\"extra\":2,\"number\":7,\"previous_chain_length\":3}}",
    ))
    .unwrap();
    assert_eq!(other_order.number, 7);
}

#[test]
fn a_header_with_a_member_twice_or_a_short_list_is_refused() {
    let hex = device(5).to_hex();
    for text in [
        format!(
            "{{\"number\":7,\"number\":7,\"previous_chain_length\":3,\"next_public_key\":\"{hex}\"}}",
        ),
        "[7,3]".to_string(),
        format!("[7,3,\"{hex}\",0]"),
        format!("[3,\"{hex}\",7]"),
    ] {
        assert!(matches!(header_from_text(&text), Err(Error::Parse(_))));
    }
}

#[test]
fn a_rumor_names_its_members_in_their_order() {
    let mut rumor = Rumor::new(
        device(6),
        UnixSeconds(11),
        14,
        vec![vec!["p".to_string(), "x".to_string()]],
        "hi".to_string(),
    )
    .unwrap();
    let id = rumor.id.clone().unwrap();
    let key = device(6).to_hex();
    let rest = format!(
        "\"pubkey\":\"{key}\",\"created_at\":11,\"kind\":14,\"tags\":[[\"p\",\"x\"]],\"content\":\"hi\"}}",
    );
    assert_eq!(rumor.to_json().unwrap(), format!("{{\"id\":\"{id}\",{rest}"));
    rumor.id = None;
    assert_eq!(rumor.to_json().unwrap(), format!("{{{rest}"));
}

#[test]
fn a_rumor_is_read_from_a_list_and_refused_with_a_member_twice() {
    let key = device(6).to_hex();
    let list = Rumor::from_json(&format!("[null,\"{key}\",11,14,[[\"p\",\"x\"]],\"hi\"]")).unwrap();
    assert_eq!((list.kind, list.content.as_str(), list.created_at.0), (14, "hi", 11));
    assert!(Rumor::from_json(&format!("[\"{key}\",11,14,[],\"hi\"]")).is_err());
    for twice in ["\"content\":\"a\",\"content\":\"b\"", "\"content\":\"a\",\"id\":\"1\",\"id\":\"2\""]
    {
        let text =
            format!("{{\"pubkey\":\"{key}\",\"created_at\":11,\"kind\":14,\"tags\":[],{twice}}}");
        assert!(matches!(Rumor::from_json(&text), Err(Error::Parse(_))));
    }
}

#[test]
fn devices_and_labels_name_their_members_in_their_order() {
    let key = device(8);
    let mut keys = AppKeys::new(vec![DeviceEntry::new(key, 5)]);
    keys.set_device_labels(
        key,
        Some("phone".to_string()),
        Some("app".to_string()),
        UnixSeconds(9),
    );
    let hex = key.to_hex();
    let devices = format!("{{\"{hex}\":{{\"identity_pubkey\":\"{hex}\",\"created_at\":5}}}}");
    let labels = format!(
        "{{\"{hex}\":{{\"device_label\":\"phone\",\"client_label\":\"app\",\"updated_at\":9}}}}",
    );
    assert_eq!(
        keys.serialize().unwrap(),
        format!("{{\"devices\":{devices},\"device_labels\":{labels}}}"),
    );
}

#[test]
fn devices_are_read_from_lists_and_the_last_entry_of_a_device_counts() {
    let key = device(8);
    let hex = key.to_hex();
    let shouted = hex.to_uppercase();
    let list = AppKeys::deserialize(&format!(
        "[{{\"{hex}\":[\"{hex}\",5],\"{shouted}\":[\"{hex}\",6]}},{{\"{hex}\":[null,\"app\",9]}}]",
    ))
    .unwrap();
    assert_eq!(list.get_device(&key).unwrap().created_at, UnixSeconds(6));
    let labels = list.get_device_labels(&key).unwrap();
    assert_eq!(labels.client_label, Some("app".to_string()));
    assert_eq!(labels.device_label, None);
    for text in [
        "{\"devices\":{},\"devices\":{},\"device_labels\":{}}".to_string(),
        "[{}]".to_string(),
        format!("[{{\"{hex}\":[\"{hex}\"]}},{{}}]"),
        "{\"devices\":{}}".to_string(),
    ] {
        assert!(matches!(AppKeys::deserialize(&text), Err(Error::Parse(_))));
    }
}

#[test]
fn group_payloads_name_their_members_in_their_order() {
    let hex = owner(3).to_hex();
    let create = GroupPayload::Create {
        base_revision: 0,
        group: GroupSnapshot {
            group_id: "g".to_string(),
            name: "n".to_string(),
            created_by: owner(3),
            members: vec![owner(3)],
            admins: vec![],
            revision: 1,
            created_at: UnixSeconds(4),
            updated_at: UnixSeconds(5),
        },
    };
    assert_eq!(
        text_of(create.to_bytes()),
        format!(
            "{{\"version\":1,\"payload\":{{\"kind\":\"create_group\",\"group_id\":\"g\",\"base_revision\":0,\"new_revision\":1,\"name\":\"n\",\"created_by\":\"{hex}\",\"members\":[\"{hex}\"],\"admins\":[],\"created_at\":4,\"updated_at\":5}}}}",
        ),
    );
    let message = GroupPayload::Message {
        group_id: "g".to_string(),
        revision: 2,
        body: vec![0, 255],
    };
    assert_eq!(
        text_of(message.to_bytes()),
        "{\"version\":1,\"payload\":{\"kind\":\"group_message\",\"group_id\":\"g\",\"revision\":2,\"body\":[0,255]}}",
    );
    let owners = GroupPayload::Owners {
        change: OwnersChange::RemoveAdmins,
        group_id: "g".to_string(),
        base_revision: 2,
        new_revision: 3,
        owners: vec![owner(3)],
    };
    assert_eq!(
        text_of(owners.to_bytes()),
        format!(
            "{{\"version\":1,\"payload\":{{\"kind\":\"remove_admins\",\"group_id\":\"g\",\"base_revision\":2,\"new_revision\":3,\"admins\":[\"{hex}\"]}}}}",
        ),
    );
}

#[test]
fn group_payloads_are_read_from_lists_and_refused_with_a_member_twice() {
    assert!(matches!(
        GroupPayload::from_bytes(b"[1,[\"group_message\",\"g\",2,[7]]]"),
        Some(GroupPayload::Message { revision: 2, .. })
    ));
    assert!(matches!(
        GroupPayload::from_bytes(b"{\"version\":1,\"payload\":[\"rename_group\",\"g\",1,2,\"n\"]}"),
        Some(GroupPayload::Rename { new_revision: 2, .. })
    ));
    for bytes in [
        &b"[1,[\"group_message\",\"g\",2]]"[..],
        &b"[1,[]]"[..],
        &b"[1,[\"group_message\",\"g\",2,[256]]]"[..],
        &b"[2,[\"group_message\",\"g\",2,[7]]]"[..],
        &b"{\"version\":1,\"version\":1,\"payload\":[\"group_message\",\"g\",2,[7]]}"[..],
        &b"{\"version\":1,\"payload\":{\"kind\":\"group_message\",\"group_id\":\"g\",\"revision\":2,\"revision\":2,\"body\":[]}}"[..],
        &b"{\"version\":1,\"payload\":{\"kind\":\"group_message\",\"kind\":\"group_message\",\"group_id\":\"g\",\"revision\":2,\"body\":[]}}"[..],
    ] {
        assert!(GroupPayload::from_bytes(bytes).is_none());
    }
}

#[test]
fn copies_for_own_devices_name_their_members_in_their_order() {
    let hex = owner(3).to_hex();
    let bytes = local_sibling_payload(owner(3), &b"hi".to_vec());
    assert_eq!(
        text_of(bytes),
        format!(
            "{{\"protocol\":\"ndr-local-sibling-copy\",\"version\":1,\"conversationOwner\":\"{hex}\",\"payload\":\"aGk=\"}}",
        ),
    );
    let list = format!("[\"ndr-local-sibling-copy\",1,\"{hex}\",\"aGk=\"]");
    assert_eq!(
        decode_local_sibling_payload(&list.into_bytes()),
        Some((owner(3), b"hi".to_vec())),
    );
    let twice = format!(
        "{{\"protocol\":\"ndr-local-sibling-copy\",\"version\":1,\"version\":1,\"conversationOwner\":\"{hex}\",\"payload\":\"aGk=\"}}",
    );
    assert_eq!(decode_local_sibling_payload(&twice.into_bytes()), None);
}

#[test]
fn an_invite_is_kept_with_its_members_in_their_order() {
    let rng = Box::leak(Box::new(StdRng::seed_from_u64(1)));
    let mut ctx = ProtocolContext::new(UnixSeconds(5), UnixMillis(5000), rng);
    let invite = Invite::create_new(&mut ctx, owner(3), None, Some(2)).unwrap();
    let text = invite.serialize().unwrap();
    let names = [
        "inviter_ephemeral_public_key",
        "shared_secret",
        "inviter",
        "inviter_ephemeral_private_key",
        "device_id",
        "max_uses",
        "used_by",
        "created_at",
        "purpose",
        "owner_public_key",
    ];
    let mut last = 0;
    for name in names {
        let at = text.find(&format!("\"{name}\":")).unwrap();
        assert!(at > last);
        last = at;
    }
    let twice = text.replacen("{", "{\"used_by\":[],", 1);
    assert!(matches!(Invite::deserialize(&twice), Err(Error::Parse(_))));
    let back = Invite::deserialize(&text).unwrap();
    assert_eq!(back.serialize().unwrap(), text);
}

#[test]
fn an_inner_event_keeps_negative_numbers_and_gets_its_members_in_order() {
    let text = "{\"tags\":[],\"pubkey\":\"aa\",\"kind\":14,\"z\":{\"b\":-5,\"a\":-9223372036854775808},\"created_at\":1,\"content\":\"hi\"}";
    let once = normalize_inner_rumor_id(text);
    let at = once.find("\"id\":\"").unwrap() + 6;
    let id = &once[at..at + 64];
    assert_eq!(
        once,
        format!(
            "{{\"content\":\"hi\",\"created_at\":1,\"id\":\"{id}\",\"kind\":14,\"pubkey\":\"aa\",\"tags\":[],\"z\":{{\"a\":-9223372036854775808,\"b\":-5}}}}",
        ),
    );
    assert_eq!(normalize_inner_rumor_id(&once), once);
    let last_counts = "{\"tags\":[],\"pubkey\":\"aa\",\"kind\":14,\"created_at\":1,\"content\":\"no\",\"content\":\"hi\"}";
    assert!(normalize_inner_rumor_id(last_counts).contains(&format!("\"id\":\"{id}\"")));
    let odd = "{\"$serde_json::private::RawValue\":\"1\",\"tags\":[],\"pubkey\":\"aa\",\"kind\":14,\"created_at\":1,\"content\":\"hi\"}";
    let odd_once = normalize_inner_rumor_id(odd);
    assert!(odd_once.starts_with("{\"$serde_json::private::RawValue\":\"1\",\"content\":\"hi\""));
    assert_eq!(normalize_inner_rumor_id(&odd_once), odd_once);
}
