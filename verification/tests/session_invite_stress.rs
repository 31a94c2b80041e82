//! Long and disordered conversations.
use nostr_double_ratchet::codec::nostr as codec;
use nostr_double_ratchet::event::Event;
use nostr_double_ratchet::rumor::{DirectMessageContent, Rumor};
use nostr_double_ratchet::session::IncomingDirectMessageEnvelope;
use nostr_double_ratchet::{
    CodecError,
    DeviceId,
    DevicePubkey,
    Error,
    MAX_SKIP,
    OwnerPubkey,
    ProtocolContext,
    Session,
    SessionState,
    UnixMillis,
    UnixSeconds,
};
use rand::SeedableRng;
use rand::rngs::StdRng;

fn context(seed: u64, now_secs: u64) -> ProtocolContext<'static> {
    let mixed_seed = seed.wrapping_mul(0x9E37_79B9_7F4A_7C15).rotate_left(17)
        ^ now_secs.wrapping_mul(0xBF58_476D_1CE4_E5B9);
    let rng = Box::leak(Box::new(StdRng::seed_from_u64(mixed_seed)));
    ProtocolContext::new(
        UnixSeconds(now_secs),
        UnixMillis(now_secs.saturating_mul(1000).saturating_add(seed % 997)),
        rng,
    )
}

struct SentMessage {
    rumor: Rumor,
    event: Event,
    incoming: IncomingDirectMessageEnvelope,
}

fn send_message(
    session: &mut Session,
    ctx: &mut ProtocolContext<'_>,
    content: DirectMessageContent,
) -> Result<SentMessage, Error> {
    let rumor = Rumor::from_content(ctx, content)?;
    let send_plan = session.plan_send(&rumor, ctx.now_secs)?;
    let sent = session.apply_send(send_plan);
    let event = codec::direct_message_event(&sent.envelope)?;
    let incoming = codec::parse_direct_message_event(&event)?;
    Ok(SentMessage { rumor: sent.rumor, event, incoming })
}

fn receive_message(
    session: &mut Session,
    ctx: &mut ProtocolContext<'_>,
    incoming: &IncomingDirectMessageEnvelope,
) -> Result<Rumor, Error> {
    let plan = session.plan_receive(ctx, incoming)?;
    Ok(session.apply_receive(plan).rumor)
}

fn receive_event(
    session: &mut Session,
    ctx: &mut ProtocolContext<'_>,
    event: &Event,
) -> Result<Rumor, Error> {
    let incoming = codec::parse_direct_message_event(event)?;
    receive_message(session, ctx, &incoming)
}

#[derive(Debug, Clone, Copy, PartialEq, Eq)]
enum Side {
    Alice,
    Bob,
}

struct HeldMessage {
    from: Side,
    sent: SentMessage,
}

struct DeliveryScript {
    next_seed: u64,
    next_secs: u64,
    held: Vec<HeldMessage>,
}

impl DeliveryScript {
    fn new(start_seed: u64, start_secs: u64) -> Self {
        Self { next_seed: start_seed, next_secs: start_secs, held: Vec::new() }
    }

    fn next_context(&mut self) -> ProtocolContext<'static> {
        let ctx = context(self.next_seed, self.next_secs);
        self.next_seed = self.next_seed.saturating_add(1);
        self.next_secs = self.next_secs.saturating_add(1);
        ctx
    }

    fn send_text(
        &mut self,
        from: Side,
        alice: &mut Session,
        bob: &mut Session,
        text: impl Into<String>,
    ) -> Result<usize, Error> {
        let mut ctx = self.next_context();
        let sent = match from {
            Side::Alice => send_message(alice, &mut ctx, DirectMessageContent::Text(text.into()))?,
            Side::Bob => send_message(bob, &mut ctx, DirectMessageContent::Text(text.into()))?,
        };
        let id = self.held.len();
        self.held.push(HeldMessage { from, sent });
        Ok(id)
    }

    fn deliver(
        &mut self,
        id: usize,
        alice: &mut Session,
        bob: &mut Session,
    ) -> Result<Rumor, Error> {
        let mut ctx = self.next_context();
        let held = self.held.get(id).expect("delivery script message id must exist");
        match held.from {
            Side::Alice => receive_event(bob, &mut ctx, &held.sent.event),
            Side::Bob => receive_event(alice, &mut ctx, &held.sent.event),
        }
    }

    fn replay(
        &mut self,
        id: usize,
        alice: &mut Session,
        bob: &mut Session,
    ) -> Result<Rumor, Error> {
        self.deliver(id, alice, bob)
    }

    fn sent(&self, id: usize) -> &SentMessage {
        &self.held[id].sent
    }
}

fn checkpoint_session(session: &Session) -> SessionState {
    session.state.clone()
}

struct Actor {
    secret_key: [u8; 32],
    device_pubkey: DevicePubkey,
    owner_pubkey: OwnerPubkey,
    device_id: DeviceId,
}

fn actor(secret_fill: u8, device_id: &str) -> Actor {
    let secret_key = [secret_fill; 32];
    let device_pubkey = DevicePubkey::from_secret_bytes(&secret_key).unwrap();
    Actor {
        secret_key,
        device_pubkey,
        owner_pubkey: device_pubkey.as_owner(),
        device_id: DeviceId::new(device_id),
    }
}

fn direct_session_pair(
    alice_fill: u8,
    bob_fill: u8,
    base_secs: u64,
) -> Result<(Actor, Actor, Session, Session), Error> {
    let alice = actor(alice_fill, "alice-device");
    let bob = actor(bob_fill, "bob-device");
    let shared_secret = [77u8; 32];

    let mut alice_init = context(10 + alice_fill as u64, base_secs);
    let alice_session = Session::init(
        &mut alice_init,
        bob.device_pubkey,
        alice.secret_key,
        true,
        shared_secret,
        Some("alice".to_string()),
    )?;

    let mut bob_init = context(20 + bob_fill as u64, base_secs);
    let bob_session = Session::init(
        &mut bob_init,
        alice.device_pubkey,
        bob.secret_key,
        false,
        shared_secret,
        Some("bob".to_string()),
    )?;

    Ok((alice, bob, alice_session, bob_session))
}

fn mutate_text(value: &str) -> String {
    let mut chars: Vec<char> = value.chars().collect();
    if chars.is_empty() {
        return "A".to_string();
    }
    let index = chars
        .iter()
        .rposition(|c| *c != '=')
        .unwrap_or(chars.len().saturating_sub(1));
    chars[index] = match chars[index] {
        'A' => 'B',
        'B' => 'C',
        _ => 'A',
    };
    chars.into_iter().collect()
}

fn restore_session(state: &SessionState, name: &str) -> Session {
    Session::new(state.clone(), name.to_string())
}

fn snapshot<T: std::fmt::Debug>(value: &T) -> String {
    format!("{value:?}")
}

fn assert_receive_plan_pure(
    session: &Session,
    incoming: &IncomingDirectMessageEnvelope,
    seed: u64,
    now_secs: u64,
) -> Result<(), Error> {
    let before = snapshot(&session.state);

    let mut ctx = context(seed, now_secs);
    let first = session.plan_receive(&mut ctx, incoming)?;

    let mut ctx = context(seed, now_secs);
    let second = session.plan_receive(&mut ctx, incoming)?;

    assert_eq!(snapshot(&session.state), before);
    assert_eq!(snapshot(&first.next_state), snapshot(&second.next_state));
    assert_eq!(first.sender, second.sender);
    assert_eq!(first.rumor.id, second.rumor.id);
    assert_eq!(first.rumor.content, second.rumor.content);
    Ok(())
}

#[test]
fn long_mixed_schedule_survives_many_ratchet_turns() -> Result<(), Error> {
    let (_alice, _bob, mut alice_session, mut bob_session) =
        direct_session_pair(61, 62, 1_700_300_000)?;
    let mut script = DeliveryScript::new(5_000, 1_700_300_010);

    let rounds: Vec<(Side, Vec<usize>)> = vec![
        (Side::Alice, vec![0, 3, 1, 2]),
        (Side::Bob, vec![2, 0, 1]),
        (Side::Alice, vec![4, 1, 3, 0, 2]),
        (Side::Bob, vec![1, 3, 0, 2]),
        (Side::Alice, vec![2, 0, 1]),
        (Side::Bob, vec![4, 2, 0, 3, 1]),
        (Side::Alice, vec![1, 3, 0, 2]),
        (Side::Bob, vec![2, 0, 1]),
        (Side::Alice, vec![4, 1, 3, 0, 2]),
        (Side::Bob, vec![1, 3, 0, 2]),
        (Side::Alice, vec![2, 0, 1]),
        (Side::Bob, vec![4, 2, 0, 3, 1]),
        (Side::Alice, vec![0, 3, 1, 2]),
        (Side::Bob, vec![2, 0, 1]),
    ];

    let mut expected_transcript = Vec::new();
    let mut received_transcript = Vec::new();

    for (round_index, (side, order)) in rounds.into_iter().enumerate() {
        let mut ids = Vec::new();
        for burst_index in 0..order.len() {
            let id = script.send_text(
                side,
                &mut alice_session,
                &mut bob_session,
                format!("round-{round_index}-{:?}-msg-{burst_index}", side),
            )?;
            ids.push(id);
        }

        for order_index in order {
            let id = ids[order_index];
            let expected_text = script.sent(id).rumor.content.clone();
            let received = script.deliver(id, &mut alice_session, &mut bob_session)?;
            expected_transcript.push(expected_text.clone());
            received_transcript.push(received.content.clone());
            assert_eq!(received.content, expected_text);
        }

        if round_index == 6 {
            let alice_checkpoint = checkpoint_session(&alice_session);
            let bob_checkpoint = checkpoint_session(&bob_session);
            alice_session = restore_session(&alice_checkpoint, "alice-stress-restored");
            bob_session = restore_session(&bob_checkpoint, "bob-stress-restored");
        }
    }

    assert_eq!(received_transcript.len(), 55);
    assert_eq!(received_transcript, expected_transcript);
    Ok(())
}

#[test]
fn exact_max_skip_boundary_is_accepted() -> Result<(), Error> {
    let (_alice, _bob, mut alice_session, mut bob_session) =
        direct_session_pair(63, 64, 1_700_301_000)?;
    let mut script = DeliveryScript::new(6_000, 1_700_301_010);

    let mut ids = Vec::new();
    for index in 0..=MAX_SKIP {
        ids.push(script.send_text(
            Side::Alice,
            &mut alice_session,
            &mut bob_session,
            format!("boundary-{index}"),
        )?);
    }

    let latest = script.deliver(ids[MAX_SKIP], &mut alice_session, &mut bob_session)?;
    assert_eq!(latest.content, format!("boundary-{MAX_SKIP}"));

    for index in (0..MAX_SKIP).rev() {
        let received = script.deliver(ids[index], &mut alice_session, &mut bob_session)?;
        assert_eq!(received.content, format!("boundary-{index}"));

        let replay = script.replay(ids[index], &mut alice_session, &mut bob_session);
        assert!(replay.is_err());
    }

    let replay_latest = script.replay(ids[MAX_SKIP], &mut alice_session, &mut bob_session);
    assert!(replay_latest.is_err());

    let reply_id = script.send_text(
        Side::Bob,
        &mut alice_session,
        &mut bob_session,
        "post-boundary",
    )?;
    let reply = script.deliver(reply_id, &mut alice_session, &mut bob_session)?;
    assert_eq!(reply.content, "post-boundary");
    Ok(())
}

#[test]
fn skipped_keys_are_single_use_under_multiple_late_deliveries() -> Result<(), Error> {
    let (_alice, _bob, mut alice_session, mut bob_session) =
        direct_session_pair(65, 66, 1_700_302_000)?;
    let mut script = DeliveryScript::new(7_000, 1_700_302_010);

    let mut ids = Vec::new();
    for index in 0..6 {
        ids.push(script.send_text(
            Side::Alice,
            &mut alice_session,
            &mut bob_session,
            format!("late-{index}"),
        )?);
    }

    let latest = script.deliver(ids[5], &mut alice_session, &mut bob_session)?;
    assert_eq!(latest.content, "late-5");

    for index in [2usize, 0, 4, 1, 3] {
        let received = script.deliver(ids[index], &mut alice_session, &mut bob_session)?;
        assert_eq!(received.content, format!("late-{index}"));

        let replay = script.replay(ids[index], &mut alice_session, &mut bob_session);
        assert!(replay.is_err());
    }

    let reply_id = script.send_text(
        Side::Bob,
        &mut alice_session,
        &mut bob_session,
        "late-reply",
    )?;
    let reply = script.deliver(reply_id, &mut alice_session, &mut bob_session)?;
    assert_eq!(reply.content, "late-reply");
    Ok(())
}

#[test]
fn previous_header_key_is_only_retained_one_ratchet_deep() -> Result<(), Error> {
    let (_alice, _bob, mut alice_session, mut bob_session) =
        direct_session_pair(67, 68, 1_700_303_000)?;
    let mut script = DeliveryScript::new(8_000, 1_700_303_010);

    let first = script.send_text(Side::Alice, &mut alice_session, &mut bob_session, "first")?;
    let delayed_one = script.send_text(
        Side::Alice,
        &mut alice_session,
        &mut bob_session,
        "delayed-one-ratchet",
    )?;
    let delayed_two = script.send_text(
        Side::Alice,
        &mut alice_session,
        &mut bob_session,
        "delayed-two-ratchets",
    )?;
    let _ = script.deliver(first, &mut alice_session, &mut bob_session)?;

    let bob_reply_one =
        script.send_text(Side::Bob, &mut alice_session, &mut bob_session, "reply-one")?;
    let _ = script.deliver(bob_reply_one, &mut alice_session, &mut bob_session)?;

    let chain_one = script.send_text(
        Side::Alice,
        &mut alice_session,
        &mut bob_session,
        "chain-one",
    )?;
    let _ = script.deliver(chain_one, &mut alice_session, &mut bob_session)?;

    let previous_ok = script.deliver(delayed_one, &mut alice_session, &mut bob_session)?;
    assert_eq!(previous_ok.content, "delayed-one-ratchet");

    let bob_reply_two =
        script.send_text(Side::Bob, &mut alice_session, &mut bob_session, "reply-two")?;
    let _ = script.deliver(bob_reply_two, &mut alice_session, &mut bob_session)?;

    let chain_two = script.send_text(
        Side::Alice,
        &mut alice_session,
        &mut bob_session,
        "chain-two",
    )?;
    let _ = script.deliver(chain_two, &mut alice_session, &mut bob_session)?;

    let two_deep = script.deliver(delayed_two, &mut alice_session, &mut bob_session);
    assert!(matches!(
        two_deep,
        Err(Error::Codec(CodecError::InvalidHeader))
    ));
    Ok(())
}

#[test]
fn invalid_previous_chain_message_does_not_poison_future_messages() -> Result<(), Error> {
    let (_alice, _bob, mut alice_session, mut bob_session) =
        direct_session_pair(69, 70, 1_700_304_000)?;
    let mut script = DeliveryScript::new(9_000, 1_700_304_010);

    let first = script.send_text(Side::Alice, &mut alice_session, &mut bob_session, "first")?;
    let delayed_previous = script.send_text(
        Side::Alice,
        &mut alice_session,
        &mut bob_session,
        "delayed-previous",
    )?;
    let _ = script.deliver(first, &mut alice_session, &mut bob_session)?;

    let bob_reply = script.send_text(Side::Bob, &mut alice_session, &mut bob_session, "reply")?;
    let _ = script.deliver(bob_reply, &mut alice_session, &mut bob_session)?;

    let current_chain = script.send_text(
        Side::Alice,
        &mut alice_session,
        &mut bob_session,
        "current-chain",
    )?;
    let _ = script.deliver(current_chain, &mut alice_session, &mut bob_session)?;

    let before = snapshot(&bob_session.state);
    let mut tampered = script.sent(delayed_previous).incoming.clone();
    tampered.encrypted_header = mutate_text(&tampered.encrypted_header);

    let mut recv_ctx = context(9_999, 1_700_304_999);
    let result = receive_message(&mut bob_session, &mut recv_ctx, &tampered);
    assert!(result.is_err());
    assert_eq!(snapshot(&bob_session.state), before);

    let follow_up = script.send_text(
        Side::Alice,
        &mut alice_session,
        &mut bob_session,
        "after-tamper",
    )?;
    let received = script.deliver(follow_up, &mut alice_session, &mut bob_session)?;
    assert_eq!(received.content, "after-tamper");
    Ok(())
}

#[test]
fn plan_receive_is_pure_across_current_next_and_previous_header_paths() -> Result<(), Error> {
    let (_alice, _bob, mut alice_session, mut bob_session) =
        direct_session_pair(71, 72, 1_700_305_000)?;
    let mut script = DeliveryScript::new(10_000, 1_700_305_010);

    let initial = script.send_text(Side::Alice, &mut alice_session, &mut bob_session, "initial")?;
    let _ = script.deliver(initial, &mut alice_session, &mut bob_session)?;

    let current = script.send_text(Side::Alice, &mut alice_session, &mut bob_session, "current")?;
    assert_receive_plan_pure(
        &bob_session,
        &script.sent(current).incoming,
        10_100,
        1_700_305_100,
    )?;

    let bob_reply = script.send_text(Side::Bob, &mut alice_session, &mut bob_session, "reply")?;
    let _ = script.deliver(bob_reply, &mut alice_session, &mut bob_session)?;

    let delayed_previous = script.send_text(
        Side::Alice,
        &mut alice_session,
        &mut bob_session,
        "previous",
    )?;
    let ratchet_trigger =
        script.send_text(Side::Alice, &mut alice_session, &mut bob_session, "next")?;

    assert_receive_plan_pure(
        &bob_session,
        &script.sent(ratchet_trigger).incoming,
        10_200,
        1_700_305_200,
    )?;

    let _ = script.deliver(ratchet_trigger, &mut alice_session, &mut bob_session)?;

    assert_receive_plan_pure(
        &bob_session,
        &script.sent(delayed_previous).incoming,
        10_300,
        1_700_305_300,
    )?;
    Ok(())
}
