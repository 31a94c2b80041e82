//! Sessions between two devices.
use nostr_double_ratchet::rumor::{DirectMessageContent, Rumor};
use nostr_double_ratchet::session::IncomingDirectMessageEnvelope;
use nostr_double_ratchet::{
    DevicePubkey, DomainError, Error, ProtocolContext, Session, UnixMillis, UnixSeconds,
};
use rand::rngs::StdRng;
use rand::SeedableRng;

fn context(seed: u64) -> ProtocolContext<'static> {
    let rng = Box::leak(Box::new(StdRng::seed_from_u64(seed)));
    ProtocolContext::new(
        UnixSeconds(1_700_000_000),
        UnixMillis(1_700_000_000_123),
        rng,
    )
}

#[test]
fn plan_send_and_apply_receive_roundtrip() {
    let alice_secret = [1u8; 32];
    let bob_secret = [2u8; 32];
    let alice_pub = DevicePubkey::from_secret_bytes(&alice_secret).unwrap();
    let bob_pub = DevicePubkey::from_secret_bytes(&bob_secret).unwrap();
    let shared_secret = [7u8; 32];

    let mut init_ctx_alice = context(1);
    let alice = Session::init(
        &mut init_ctx_alice,
        bob_pub,
        alice_secret,
        true,
        shared_secret,
        None,
    )
    .unwrap();
    let mut init_ctx_bob = context(2);
    let mut bob = Session::init(
        &mut init_ctx_bob,
        alice_pub,
        bob_secret,
        false,
        shared_secret,
        None,
    )
    .unwrap();

    let mut ctx = context(9);
    let rumor =
        Rumor::from_content(&mut ctx, DirectMessageContent::Text("hello".to_string())).unwrap();
    let send_plan = alice.plan_send(&rumor, ctx.now_secs).unwrap();
    let send_outcome = alice.clone().apply_send(send_plan);

    let mut recv_ctx = context(10);
    let receive_plan = bob
        .plan_receive(
            &mut recv_ctx,
            &IncomingDirectMessageEnvelope {
                sender: send_outcome.envelope.sender,
                created_at: send_outcome.envelope.created_at,
                encrypted_header: send_outcome.envelope.encrypted_header.clone(),
                ciphertext: send_outcome.envelope.ciphertext.clone(),
            },
        )
        .unwrap();
    let outcome = bob.apply_receive(receive_plan);
    assert_eq!(outcome.rumor.content, "hello");
}

#[test]
fn plan_receive_does_not_mutate_original_session() {
    let alice_secret = [3u8; 32];
    let bob_secret = [4u8; 32];
    let alice_pub = DevicePubkey::from_secret_bytes(&alice_secret).unwrap();
    let bob_pub = DevicePubkey::from_secret_bytes(&bob_secret).unwrap();
    let shared_secret = [8u8; 32];

    let mut init_ctx_alice = context(3);
    let alice = Session::init(
        &mut init_ctx_alice,
        bob_pub,
        alice_secret,
        true,
        shared_secret,
        None,
    )
    .unwrap();
    let mut init_ctx_bob = context(4);
    let bob = Session::init(
        &mut init_ctx_bob,
        alice_pub,
        bob_secret,
        false,
        shared_secret,
        None,
    )
    .unwrap();
    let bob_before = format!("{:?}", bob.state);

    let mut ctx = context(12);
    let rumor = Rumor::from_content(&mut ctx, DirectMessageContent::Typing).unwrap();
    let send_plan = alice.plan_send(&rumor, ctx.now_secs).unwrap();

    let mut recv_ctx = context(13);
    let _ = bob
        .plan_receive(
            &mut recv_ctx,
            &IncomingDirectMessageEnvelope {
                sender: send_plan.envelope.sender,
                created_at: send_plan.envelope.created_at,
                encrypted_header: send_plan.envelope.encrypted_header.clone(),
                ciphertext: send_plan.envelope.ciphertext.clone(),
            },
        )
        .unwrap();

    assert_eq!(format!("{:?}", bob.state), bob_before);
}

#[test]
fn duplicate_receive_fails_without_corrupting_state() {
    let alice_secret = [5u8; 32];
    let bob_secret = [6u8; 32];
    let alice_pub = DevicePubkey::from_secret_bytes(&alice_secret).unwrap();
    let bob_pub = DevicePubkey::from_secret_bytes(&bob_secret).unwrap();
    let shared_secret = [9u8; 32];

    let mut init_ctx_alice = context(5);
    let alice = Session::init(
        &mut init_ctx_alice,
        bob_pub,
        alice_secret,
        true,
        shared_secret,
        None,
    )
    .unwrap();
    let mut init_ctx_bob = context(6);
    let mut bob = Session::init(
        &mut init_ctx_bob,
        alice_pub,
        bob_secret,
        false,
        shared_secret,
        None,
    )
    .unwrap();

    let mut send_ctx = context(14);
    let rumor = Rumor::from_content(
        &mut send_ctx,
        DirectMessageContent::Text("hello".to_string()),
    )
    .unwrap();
    let send_plan = alice.plan_send(&rumor, send_ctx.now_secs).unwrap();
    let envelope = alice.clone().apply_send(send_plan).envelope;
    let incoming = IncomingDirectMessageEnvelope {
        sender: envelope.sender,
        created_at: envelope.created_at,
        encrypted_header: envelope.encrypted_header.clone(),
        ciphertext: envelope.ciphertext.clone(),
    };

    let mut recv_ctx = context(15);
    let first_plan = bob.plan_receive(&mut recv_ctx, &incoming).unwrap();
    let _ = bob.apply_receive(first_plan);
    let after_first = format!("{:?}", bob.state);

    let mut replay_ctx = context(16);
    let replay = bob.plan_receive(&mut replay_ctx, &incoming);
    assert!(replay.is_err());
    assert_eq!(format!("{:?}", bob.state), after_first);
}

#[test]
fn invalid_sender_is_rejected() {
    let alice_secret = [7u8; 32];
    let bob_secret = [8u8; 32];
    let alice_pub = DevicePubkey::from_secret_bytes(&alice_secret).unwrap();
    let bob_pub = DevicePubkey::from_secret_bytes(&bob_secret).unwrap();
    let shared_secret = [10u8; 32];

    let mut init_ctx_bob = context(7);
    let bob = Session::init(
        &mut init_ctx_bob,
        alice_pub,
        bob_secret,
        false,
        shared_secret,
        None,
    )
    .unwrap();

    let mut recv_ctx = context(17);
    let err = bob
        .plan_receive(
            &mut recv_ctx,
            &IncomingDirectMessageEnvelope {
                sender: bob_pub,
                created_at: UnixSeconds(1),
                encrypted_header: "bad".to_string(),
                ciphertext: "bad".to_string(),
            },
        )
        .unwrap_err();
    assert!(matches!(
        err,
        Error::Domain(DomainError::UnexpectedSender)
    ));
}
