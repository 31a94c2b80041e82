//! The sessions with the devices of one peer.
use nostr_double_ratchet::peer_book::PeerBook;
use nostr_double_ratchet::rumor::{DirectMessageContent, Rumor};
use nostr_double_ratchet::session::IncomingDirectMessageEnvelope;
use nostr_double_ratchet::{
    DeviceId, DevicePubkey, ProtocolContext, Session, UnixMillis, UnixSeconds,
};
use rand::rngs::StdRng;
use rand::SeedableRng;

fn context(seed: u64) -> ProtocolContext<'static> {
    let rng = Box::leak(Box::new(StdRng::seed_from_u64(seed)));
    ProtocolContext::new(
        UnixSeconds(1_700_000_100),
        UnixMillis(1_700_000_100_000),
        rng,
    )
}

fn session_pair() -> (DeviceId, Session, Session, IncomingDirectMessageEnvelope) {
    let alice_secret = [11u8; 32];
    let bob_secret = [12u8; 32];
    let alice_pub = DevicePubkey::from_secret_bytes(&alice_secret).unwrap();
    let bob_pub = DevicePubkey::from_secret_bytes(&bob_secret).unwrap();
    let shared_secret = [13u8; 32];

    let mut alice_init = context(1);
    let alice = Session::init(
        &mut alice_init,
        bob_pub,
        alice_secret,
        true,
        shared_secret,
        None,
    )
    .unwrap();
    let mut bob_init = context(2);
    let bob = Session::init(
        &mut bob_init,
        alice_pub,
        bob_secret,
        false,
        shared_secret,
        None,
    )
    .unwrap();

    let mut send_ctx = context(3);
    let rumor =
        Rumor::from_content(&mut send_ctx, DirectMessageContent::Text("hi".to_string()))
            .unwrap();
    let send_plan = alice.plan_send(&rumor, send_ctx.now_secs).unwrap();
    let envelope = alice.clone().apply_send(send_plan).envelope;
    (
        DeviceId::new("device-a"),
        alice,
        bob,
        IncomingDirectMessageEnvelope {
            sender: envelope.sender,
            created_at: envelope.created_at,
            encrypted_header: envelope.encrypted_header,
            ciphertext: envelope.ciphertext,
        },
    )
}

#[test]
fn send_selection_is_deterministic() {
    let (device_id, alice, _, _) = session_pair();
    let mut book = PeerBook::new();
    book.upsert_session(
        Some(DeviceId::new("device-b")),
        alice.clone(),
        UnixSeconds(10),
    );
    book.upsert_session(Some(device_id.clone()), alice, UnixSeconds(10));

    let plan = book.plan_send().expect("send plan");
    assert_eq!(plan.device_id, DeviceId::new("device-b"));
}

#[test]
fn inactive_match_is_promoted_on_receive() {
    let (device_id, _alice, bob, incoming) = session_pair();
    let mut book = PeerBook::new();

    let unrelated_sender_secret = [99u8; 32];
    let unrelated_private_secret = [98u8; 32];
    let unrelated_sender = DevicePubkey::from_secret_bytes(&unrelated_sender_secret).unwrap();
    let mut init_ctx = context(40);
    let unrelated_session = Session::init(
        &mut init_ctx,
        unrelated_sender,
        unrelated_private_secret,
        false,
        [13u8; 32],
        None,
    )
    .unwrap();

    book.upsert_session(Some(device_id.clone()), unrelated_session, UnixSeconds(10));
    book.upsert_session(Some(device_id.clone()), bob, UnixSeconds(10));

    let mut recv_ctx = context(4);
    let plan = book
        .plan_receive(&mut recv_ctx, &incoming, Some(&device_id))
        .unwrap()
        .expect("receive plan");
    assert!(!plan.active_match);

    let _ = book.commit_receive(UnixSeconds(20), plan).unwrap();
    let stored = book.snapshot();
    let device = stored
        .devices
        .iter()
        .find(|device| device.device_id == device_id)
        .unwrap();
    assert!(device
        .active_session
        .as_ref()
        .unwrap()
        .receiving_chain_key
        .is_some());
}

#[test]
fn failed_plan_does_not_mutate_book() {
    let (device_id, _alice, bob, incoming) = session_pair();
    let mut book = PeerBook::new();
    book.upsert_session(Some(device_id.clone()), bob.clone(), UnixSeconds(10));
    let before = format!("{:?}", book.snapshot());

    let mut recv_ctx = context(5);
    let result = book.plan_receive(
        &mut recv_ctx,
        &IncomingDirectMessageEnvelope {
            sender: incoming.sender,
            created_at: incoming.created_at,
            encrypted_header: "bad".to_string(),
            ciphertext: "bad".to_string(),
        },
        Some(&device_id),
    );
    assert!(result.is_err());
    assert_eq!(format!("{:?}", book.snapshot()), before);
}
