//! Events and addresses.
use nostr_double_ratchet::codec::nostr::{
    app_keys_encrypted_unsigned_event, direct_message_event, invite_response_event,
    invite_unsigned_event, invite_url, parse_app_keys_event, parse_app_keys_event_with_labels,
    parse_direct_message_event, parse_invite_event, parse_invite_response_event, parse_invite_url,
};
use nostr_double_ratchet::invite::OutgoingInviteResponseEnvelope;
use nostr_double_ratchet::session::OutgoingDirectMessageEnvelope;
use nostr_double_ratchet::{
    AppKeys, DeviceEntry, DeviceId, DevicePubkey, Invite, ProtocolContext, UnixMillis, UnixSeconds,
};
use rand::rngs::StdRng;
use rand::SeedableRng;

fn context(seed: u64) -> ProtocolContext<'static> {
    let rng = Box::leak(Box::new(StdRng::seed_from_u64(seed)));
    ProtocolContext::new(
        UnixSeconds(1_700_000_500),
        UnixMillis(1_700_000_500_123),
        rng,
    )
}

#[test]
fn direct_message_event_roundtrip() {
    let signer_secret = [21u8; 32];
    let sender = DevicePubkey::from_secret_bytes(&signer_secret).unwrap();
    let event = direct_message_event(&OutgoingDirectMessageEnvelope {
        sender,
        signer_secret_key: signer_secret,
        created_at: UnixSeconds(10),
        encrypted_header: "header".to_string(),
        ciphertext: "ciphertext".to_string(),
    })
    .unwrap();

    let parsed = parse_direct_message_event(&event).unwrap();
    assert_eq!(parsed.sender, sender);
    assert_eq!(parsed.encrypted_header, "header");
    assert_eq!(parsed.ciphertext, "ciphertext");
}

#[test]
fn invite_url_and_event_roundtrip() {
    let owner_secret = [23u8; 32];
    let owner_pubkey = DevicePubkey::from_secret_bytes(&owner_secret).unwrap().as_owner();
    let mut ctx = context(1);
    let invite = Invite::create_new(
        &mut ctx,
        owner_pubkey,
        Some(DeviceId::new("device-a")),
        None,
    )
    .unwrap();

    let url = invite_url(&invite, "https://chat.iris.to").unwrap();
    let parsed_from_url = parse_invite_url(&url).unwrap();
    assert_eq!(parsed_from_url.inviter, invite.inviter);
    assert_eq!(
        parsed_from_url.inviter_ephemeral_public_key,
        invite.inviter_ephemeral_public_key
    );

    let unsigned = invite_unsigned_event(&invite).unwrap();
    let signed = unsigned.sign_with_secret(&owner_secret).unwrap();
    let parsed_from_event = parse_invite_event(&signed).unwrap();
    assert_eq!(parsed_from_event.inviter, invite.inviter);
    assert_eq!(parsed_from_event.device_id, invite.device_id);
}

#[test]
fn app_keys_event_roundtrip_preserves_labels() {
    let owner_secret = [24u8; 32];
    let device = DevicePubkey::from_secret_bytes(&[25u8; 32]).unwrap();
    let mut app_keys = AppKeys::new(vec![DeviceEntry {
        identity_pubkey: device,
        created_at: UnixSeconds(100),
    }]);
    app_keys.set_device_labels(
        device,
        Some("Office Laptop".to_string()),
        Some("NDR Desktop".to_string()),
        UnixSeconds(200),
    );

    let unsigned =
        app_keys_encrypted_unsigned_event(&owner_secret, UnixSeconds(300), &app_keys).unwrap();
    let signed = unsigned.sign_with_secret(&owner_secret).unwrap();

    let public = parse_app_keys_event(&signed).unwrap();
    assert!(public.app_keys.get_device_labels(&device).is_none());

    let owner = parse_app_keys_event_with_labels(&signed, &owner_secret).unwrap();
    let labels = owner.app_keys.get_device_labels(&device).unwrap();
    assert_eq!(labels.device_label.as_deref(), Some("Office Laptop"));
    assert_eq!(labels.client_label.as_deref(), Some("NDR Desktop"));
    assert_eq!(labels.updated_at, UnixSeconds(200));
}

#[test]
fn invite_response_event_roundtrip() {
    let sender_secret = [22u8; 32];
    let sender = DevicePubkey::from_secret_bytes(&sender_secret).unwrap();
    let recipient = DevicePubkey::from_secret_bytes(&[25u8; 32]).unwrap();

    let event = invite_response_event(&OutgoingInviteResponseEnvelope {
        sender,
        signer_secret_key: sender_secret,
        recipient,
        created_at: UnixSeconds(25),
        content: "payload".to_string(),
    })
    .unwrap();

    let parsed = parse_invite_response_event(&event).unwrap();
    assert_eq!(parsed.sender, sender);
    assert_eq!(parsed.created_at, UnixSeconds(25));
    assert_eq!(parsed.content, "payload");
}
