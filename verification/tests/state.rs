//! The state of a device and its peers.
use nostr_double_ratchet::invite::IncomingInviteResponseEnvelope;
use nostr_double_ratchet::rumor::DirectMessageContent;
use nostr_double_ratchet::session::IncomingDirectMessageEnvelope;
use nostr_double_ratchet::state::{AppKeysSnapshotDecision, NdrState};
use nostr_double_ratchet::{
    AppKeys, DeviceEntry, DeviceId, DevicePubkey, ProtocolContext, UnixMillis, UnixSeconds,
};
use rand::rngs::StdRng;
use rand::SeedableRng;

fn context(seed: u64, now_secs: u64, now_millis: u64) -> ProtocolContext<'static> {
    let rng = Box::leak(Box::new(StdRng::seed_from_u64(seed)));
    ProtocolContext::new(UnixSeconds(now_secs), UnixMillis(now_millis), rng)
}

fn single_device_state(secret: [u8; 32], device_id: &str) -> NdrState {
    let device_pubkey = DevicePubkey::from_secret_bytes(&secret).unwrap();
    NdrState::single_device(device_pubkey, Some(DeviceId::new(device_id)))
}

#[test]
fn invite_bootstrap_and_dm_roundtrip() {
    let alice_secret = [31u8; 32];
    let bob_secret = [32u8; 32];
    let alice_owner = DevicePubkey::from_secret_bytes(&alice_secret)
        .unwrap()
        .as_owner();
    let bob_owner = DevicePubkey::from_secret_bytes(&bob_secret)
        .unwrap()
        .as_owner();

    let mut alice = single_device_state(alice_secret, "alice-device");
    let mut bob = single_device_state(bob_secret, "bob-device");

    let mut invite_ctx = context(1, 1_700_001_000, 1_700_001_000_000);
    let mut invite = alice.create_invite(&mut invite_ctx, None).unwrap();

    let mut accept_ctx = context(2, 1_700_001_005, 1_700_001_005_000);
    let acceptance = bob
        .accept_invite(&mut accept_ctx, &invite, bob_secret)
        .unwrap();

    let mut process_ctx = context(3, 1_700_001_010, 1_700_001_010_000);
    let processed = alice
        .process_invite_response(
            &mut process_ctx,
            &mut invite,
            &IncomingInviteResponseEnvelope {
                sender: acceptance.response.sender,
                created_at: acceptance.response.created_at,
                content: acceptance.response.content.clone(),
            },
            alice_secret,
        )
        .unwrap()
        .expect("processed invite response");
    assert_eq!(processed.peer_owner_pubkey, bob_owner);

    let mut send_ctx = context(4, 1_700_001_020, 1_700_001_020_000);
    let outbound = bob
        .send_text(&mut send_ctx, alice_owner, "hello alice".to_string())
        .unwrap();

    let mut receive_ctx = context(5, 1_700_001_021, 1_700_001_021_000);
    let received = alice
        .receive_direct_message(
            &mut receive_ctx,
            bob_owner,
            processed.peer_device_id.as_ref(),
            &IncomingDirectMessageEnvelope {
                sender: outbound.envelope.sender,
                created_at: outbound.envelope.created_at,
                encrypted_header: outbound.envelope.encrypted_header.clone(),
                ciphertext: outbound.envelope.ciphertext.clone(),
            },
        )
        .unwrap()
        .expect("received direct message");
    assert_eq!(received.rumor.content, "hello alice");
    assert_eq!(received.peer_owner_pubkey, bob_owner);

    let mut reply_ctx = context(6, 1_700_001_030, 1_700_001_030_000);
    let reply = alice
        .send_direct_message(
            &mut reply_ctx,
            bob_owner,
            DirectMessageContent::Reply {
                reply_to: received.rumor.id.clone().unwrap(),
                text: "hello bob".to_string(),
            },
        )
        .unwrap();
    assert_eq!(reply.peer_owner_pubkey, bob_owner);
    assert_eq!(reply.rumor.content, "hello bob");
}

#[test]
fn app_keys_convergence_is_explicit() {
    let secret = [33u8; 32];
    let peer_secret = [34u8; 32];
    let device = DevicePubkey::from_secret_bytes(&secret).unwrap();
    let peer_device = DevicePubkey::from_secret_bytes(&peer_secret).unwrap();
    let peer_owner = peer_device.as_owner();
    let mut state = single_device_state(secret, "local-device");

    let first = AppKeys::new(vec![DeviceEntry {
        identity_pubkey: device,
        created_at: UnixSeconds(10),
    }]);
    let newer = AppKeys::new(vec![
        DeviceEntry {
            identity_pubkey: device,
            created_at: UnixSeconds(10),
        },
        DeviceEntry {
            identity_pubkey: peer_device,
            created_at: UnixSeconds(20),
        },
    ]);
    let older = AppKeys::new(vec![DeviceEntry {
        identity_pubkey: device,
        created_at: UnixSeconds(5),
    }]);

    assert_eq!(
        state.apply_local_app_keys(first.clone(), UnixSeconds(100)),
        AppKeysSnapshotDecision::Advanced
    );
    assert_eq!(
        state.apply_local_app_keys(older, UnixSeconds(50)),
        AppKeysSnapshotDecision::Stale
    );
    assert_eq!(
        state.apply_local_app_keys(newer.clone(), UnixSeconds(100)),
        AppKeysSnapshotDecision::MergedEqualTimestamp
    );
    assert_eq!(
        state.apply_peer_app_keys(peer_owner, newer, UnixSeconds(200)),
        AppKeysSnapshotDecision::Advanced
    );

    let snapshot = state.snapshot();
    assert_eq!(snapshot.local.authorized_devices.len(), 2);
    assert_eq!(snapshot.peers.len(), 1);
}

#[test]
fn snapshot_is_deterministic() {
    let secret = [37u8; 32];
    let device_a = DevicePubkey::from_secret_bytes(&secret).unwrap();
    let device_b = DevicePubkey::from_secret_bytes(&[38u8; 32]).unwrap();

    let mut state_a = single_device_state(secret, "device");
    let mut state_b = single_device_state(secret, "device");

    let app_keys_ab = AppKeys::new(vec![
        DeviceEntry {
            identity_pubkey: device_a,
            created_at: UnixSeconds(10),
        },
        DeviceEntry {
            identity_pubkey: device_b,
            created_at: UnixSeconds(20),
        },
    ]);
    let app_keys_ba = AppKeys::new(vec![
        DeviceEntry {
            identity_pubkey: device_b,
            created_at: UnixSeconds(20),
        },
        DeviceEntry {
            identity_pubkey: device_a,
            created_at: UnixSeconds(10),
        },
    ]);

    state_a.apply_local_app_keys(app_keys_ab, UnixSeconds(100));
    state_b.apply_local_app_keys(app_keys_ba, UnixSeconds(100));
    assert_eq!(format!("{:?}", state_a.snapshot()), format!("{:?}", state_b.snapshot()));
}

#[test]
fn a_session_can_be_handed_over() {
    let alice_secret = [41u8; 32];
    let bob_secret = [42u8; 32];
    let alice_owner = DevicePubkey::from_secret_bytes(&alice_secret).unwrap().as_owner();
    let bob_owner = DevicePubkey::from_secret_bytes(&bob_secret).unwrap().as_owner();
    let mut alice = single_device_state(alice_secret, "alice-device");
    let mut bob = single_device_state(bob_secret, "bob-device");
    let mut invite = alice.create_invite(&mut context(1, 100, 100_000), None).unwrap();
    let acceptance = bob
        .accept_invite(&mut context(2, 101, 101_000), &invite, bob_secret)
        .unwrap();
    let response = invite.process_response(&acceptance.response, alice_secret).unwrap();
    let device_id = response.device_id.clone();
    assert_eq!(device_id, Some(DeviceId::new("bob-device")));
    alice.upsert_peer_session(bob_owner, device_id.clone(), response.session, UnixSeconds(102));

    let sent = bob
        .send_text(&mut context(3, 103, 103_000), alice_owner, "over".to_string())
        .unwrap();
    let received = alice
        .receive_direct_message(
            &mut context(4, 104, 104_000),
            bob_owner,
            device_id.as_ref(),
            &IncomingDirectMessageEnvelope {
                sender: sent.envelope.sender,
                created_at: sent.envelope.created_at,
                encrypted_header: sent.envelope.encrypted_header.clone(),
                ciphertext: sent.envelope.ciphertext.clone(),
            },
        )
        .unwrap()
        .expect("received direct message");
    assert_eq!(received.rumor.content, "over");
}

#[test]
fn a_device_without_labels_shows_none() {
    let secret = [43u8; 32];
    let device = DevicePubkey::from_secret_bytes(&secret).unwrap();
    let mut state = single_device_state(secret, "device");
    state.apply_local_app_keys(
        AppKeys::new(vec![DeviceEntry { identity_pubkey: device, created_at: UnixSeconds(7) }]),
        UnixSeconds(8),
    );
    let shown = state.snapshot().local.authorized_devices.remove(0);
    assert_eq!(shown.identity_pubkey, device);
    assert_eq!(shown.device_label, None);
    assert_eq!(shown.client_label, None);
    assert_eq!(shown.labels_updated_at, None);
}
