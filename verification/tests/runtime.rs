//! The runtime: what is stored, published, shown and listened to.
use nostr_double_ratchet::codec::nostr::parse_direct_message_event;
use nostr_double_ratchet::event::{Event, UnsignedEvent};
use nostr_double_ratchet::group::GroupIncomingEvent;
use nostr_double_ratchet::rumor::Rumor;
use nostr_double_ratchet::runtime::effects::RuntimeEffect;
use nostr_double_ratchet::runtime::groups::SenderKeyOutcome;
use nostr_double_ratchet::runtime::letters::SendOptions;
use nostr_double_ratchet::runtime::store::{
    GroupSenderKeyMessage, QueuedMessageStage, StoredRuntimeState, RUNTIME_STATE_KEY,
};
use nostr_double_ratchet::types::{
    CHAT_SETTINGS_KIND, INVITE_EVENT_KIND, INVITE_RESPONSE_KIND, MESSAGE_EVENT_KIND, REACTION_KIND,
    RECEIPT_KIND, TYPING_KIND,
};
use nostr_double_ratchet::{
    AppKeys, AuthorizedDevice, CodecError, DeviceEntry, DeviceId, DevicePubkey, DeviceRoster,
    DomainError, Error, Invite, NdrRuntime, OwnerPubkey, ProtocolContext, UnixMillis, UnixSeconds,
};
use rand::rngs::StdRng;
use rand::SeedableRng;

const NOW: u64 = 1_900_000_000;

fn context(seed: u64) -> ProtocolContext<'static> {
    let rng = Box::leak(Box::new(StdRng::seed_from_u64(seed)));
    ProtocolContext::new(UnixSeconds(NOW + seed), UnixMillis((NOW + seed) * 1000), rng)
}

fn device_key(fill: u8) -> DevicePubkey {
    DevicePubkey::from_secret_bytes(&[fill; 32]).unwrap()
}

fn owner_key(fill: u8) -> OwnerPubkey {
    device_key(fill).as_owner()
}

fn restarted(device: u8, owner: OwnerPubkey, stored: Option<StoredRuntimeState>) -> NdrRuntime {
    let key = device_key(device);
    NdrRuntime::new(key, [device; 32], key.to_hex(), owner, stored, None)
}

fn runtime(device: u8, owner: OwnerPubkey) -> NdrRuntime {
    restarted(device, owner, None)
}

fn published_events(effects: &[RuntimeEffect]) -> Vec<Event> {
    effects
        .iter()
        .filter_map(|effect| match effect {
            RuntimeEffect::PublishSigned(event)
            | RuntimeEffect::PublishSignedForInnerEvent { event, .. } => Some(event.clone()),
            _ => None,
        })
        .collect()
}

fn published_event_ids(effects: &[RuntimeEffect]) -> Vec<String> {
    published_events(effects).into_iter().map(|event| event.id).collect()
}

fn first_invite(effects: &[RuntimeEffect]) -> Event {
    published_events(effects)
        .into_iter()
        .find(|event| event.kind as u32 == INVITE_EVENT_KIND)
        .expect("invite event")
}

fn last_stored(effects: Vec<RuntimeEffect>) -> Option<StoredRuntimeState> {
    effects
        .into_iter()
        .filter_map(|effect| match effect {
            RuntimeEffect::PersistRuntimeState { key, value } => {
                assert_eq!(key, RUNTIME_STATE_KEY);
                Some(value)
            }
            _ => None,
        })
        .last()
}

fn emit_decrypted(
    effects: &[RuntimeEffect],
) -> Vec<(OwnerPubkey, Option<OwnerPubkey>, String, String)> {
    effects
        .iter()
        .filter_map(|effect| match effect {
            RuntimeEffect::EmitDecrypted {
                sender, conversation_owner, content, event_id, ..
            } => Some((
                *sender,
                *conversation_owner,
                content.clone(),
                event_id.clone().unwrap_or_default(),
            )),
            _ => None,
        })
        .collect()
}

fn persists(effect: &RuntimeEffect) -> bool {
    matches!(effect, RuntimeEffect::PersistRuntimeState { .. })
}

fn publishes(effect: &RuntimeEffect) -> bool {
    matches!(
        effect,
        RuntimeEffect::PublishSigned(_) | RuntimeEffect::PublishSignedForInnerEvent { .. }
    )
}

fn emits(effect: &RuntimeEffect) -> bool {
    matches!(effect, RuntimeEffect::EmitDecrypted { .. })
}

fn device_list(devices: &[DevicePubkey]) -> AppKeys {
    AppKeys::new(
        devices
            .iter()
            .map(|device| DeviceEntry::new(*device, 1))
            .collect(),
    )
}

fn observe_app_keys(runtime: &mut NdrRuntime, owner: OwnerPubkey, device: DevicePubkey) {
    runtime
        .ingest_app_keys_snapshot(&mut context(500), owner, &device_list(&[device]), 1)
        .expect("ingest app keys");
}

fn prepare_alice_to_bob(alice: &mut NdrRuntime, bob: &mut NdrRuntime) {
    let bob_init = bob.init(&mut context(1)).expect("bob init");
    let bob_invite = first_invite(&bob_init);
    alice
        .process_received_event(&mut context(2), &bob_invite)
        .expect("alice observes bob invite");
    observe_app_keys(alice, bob.get_owner_pubkey(), bob.get_our_pubkey());
}

fn prepare_bidirectional_pairwise(alice: &mut NdrRuntime, bob: &mut NdrRuntime) {
    let alice_invite = first_invite(&alice.init(&mut context(3)).expect("alice init"));
    let bob_invite = first_invite(&bob.init(&mut context(4)).expect("bob init"));
    alice
        .process_received_event(&mut context(5), &bob_invite)
        .expect("alice observes bob invite");
    bob.process_received_event(&mut context(6), &alice_invite)
        .expect("bob observes alice invite");
    observe_app_keys(alice, bob.get_owner_pubkey(), bob.get_our_pubkey());
    observe_app_keys(bob, alice.get_owner_pubkey(), alice.get_our_pubkey());
}

fn process_setup_events_and_return_message(
    receiver: &mut NdrRuntime,
    effects: &[RuntimeEffect],
) -> Event {
    let mut message = None;
    for event in published_events(effects) {
        if parse_direct_message_event(&event).is_ok() {
            message = Some(event);
            continue;
        }
        let _ = receiver.process_received_event(&mut context(7), &event);
    }
    message.expect("message event")
}

/// Hands all events over and gives back what is shown.
fn deliver(
    effects: &[RuntimeEffect],
    to: &mut NdrRuntime,
) -> Vec<(OwnerPubkey, Option<OwnerPubkey>, String, String)> {
    let mut shown = Vec::new();
    for event in published_events(effects) {
        if let Ok(effects) = to.process_received_event(&mut context(8), &event) {
            shown.extend(emit_decrypted(&effects));
        }
    }
    shown
}

#[test]
fn prepared_direct_send_persists_before_publish_and_replays_same_event_after_restart() {
    let alice_owner = owner_key(1);
    let mut alice = runtime(2, alice_owner);
    let mut bob = runtime(4, owner_key(3));
    let _ = alice.init(&mut context(9)).expect("alice init");
    prepare_alice_to_bob(&mut alice, &mut bob);
    observe_app_keys(&mut bob, alice_owner, device_key(2));

    let send = alice
        .send_text(&mut context(10), owner_key(3), "crash replay".to_string(), None)
        .expect("send");
    let persist_index = send.effects.iter().position(persists).expect("persist effect");
    let publish_index = send.effects.iter().position(publishes).expect("publish effect");
    assert!(
        persist_index < publish_index,
        "runtime must persist prepared publish before asking the app to publish"
    );

    let sent_ids = published_event_ids(&send.effects);
    assert!(!sent_ids.is_empty(), "direct send should produce signed publish effects");
    let stored = last_stored(send.effects);

    let mut restarted = runtime(2, alice_owner);
    let replay = restarted
        .reload_from_storage(stored)
        .expect("reload after crash before publish");
    let replayed_ids = published_event_ids(&replay);
    assert!(
        sent_ids.iter().any(|id| replayed_ids.contains(id)),
        "restart should replay the exact prepared event id without advancing the ratchet; sent={sent_ids:?} replayed={replayed_ids:?}"
    );
}

#[test]
fn inbound_decrypt_persists_before_emitting_decrypted_payload() {
    let mut alice = runtime(2, owner_key(1));
    let mut bob = runtime(4, owner_key(3));
    let _ = alice.init(&mut context(9)).expect("alice init");
    prepare_alice_to_bob(&mut alice, &mut bob);

    let send = alice
        .send_text(&mut context(10), owner_key(3), "persist before emit".to_string(), None)
        .expect("send");
    let mut saw_decrypted = false;
    for event in published_events(&send.effects) {
        let effects = match bob.process_received_event(&mut context(11), &event) {
            Ok(effects) => effects,
            Err(_) => continue,
        };
        if !effects.iter().any(emits) {
            continue;
        }
        let persist_index = effects.iter().position(persists).expect("persist effect");
        let emit_index = effects.iter().position(emits).expect("decrypted effect");
        assert!(
            persist_index < emit_index,
            "receive state must be durable before app-visible decrypted delivery"
        );
        saw_decrypted = true;
    }
    assert!(saw_decrypted, "receiver should decrypt one message event");
}

fn sender_key_message(sender: DevicePubkey) -> GroupSenderKeyMessage {
    GroupSenderKeyMessage {
        sender_event_pubkey: sender,
        key_id: 1,
        message_number: 0,
        created_at: UnixSeconds(NOW),
        ciphertext: "pending outer".to_string(),
    }
}

#[test]
fn sender_key_outer_before_distribution_is_persisted_pending_work() {
    let mut bob = runtime(4, owner_key(3));
    let pending = bob.group_handle_outer_event(
        Some(sender_key_message(device_key(5))),
        SenderKeyOutcome::PendingDistribution,
    );
    assert!(pending.events.is_empty());
    assert!(
        pending.effects.iter().any(persists),
        "unknown sender-key outer event should be stored for retry after distribution"
    );
    let stored = last_stored(pending.effects).unwrap();
    assert_eq!(stored.pending_group_sender_key_messages.len(), 1);
}

#[test]
fn inbound_message_before_invite_response_is_persisted_and_drained_after_response() {
    let bob_owner = owner_key(3);
    let mut alice = runtime(2, owner_key(1));
    let mut bob = runtime(4, bob_owner);
    let _ = alice.init(&mut context(9)).expect("alice init");
    prepare_alice_to_bob(&mut alice, &mut bob);

    let send = alice
        .send_text(
            &mut context(10),
            bob_owner,
            "message before invite response".to_string(),
            None,
        )
        .expect("first-contact send");
    let events = published_events(&send.effects);
    let invite_response = events
        .iter()
        .find(|event| event.kind as u32 == INVITE_RESPONSE_KIND)
        .expect("invite response")
        .clone();
    let message = events
        .iter()
        .find(|event| event.kind as u32 == MESSAGE_EVENT_KIND)
        .expect("message")
        .clone();

    let pending = bob
        .process_received_event(&mut context(11), &message)
        .expect("message before invite response should fail closed");
    assert!(
        pending.iter().any(persists),
        "unknown first-contact message must be durably retained for retry"
    );
    assert!(
        !pending.iter().any(emits),
        "message must not be app-visible before the authenticated invite response is processed"
    );
    let stored = last_stored(pending);

    let mut restarted_bob = runtime(4, bob_owner);
    let startup = restarted_bob.reload_from_storage(stored).expect("reload pending message");
    assert!(
        !startup.iter().any(emits),
        "pending message should remain hidden until the invite response arrives"
    );

    let drained = restarted_bob
        .process_received_event(&mut context(12), &invite_response)
        .expect("invite response should drain pending message");
    assert!(
        drained.iter().any(emits),
        "processing the invite response must retry and decrypt the retained message"
    );
}

#[test]
fn inner_pubkey_p_and_recipient_owner_do_not_affect_runtime_sender_identity() {
    let mut alice = runtime(2, owner_key(1));
    let mut bob = runtime(4, owner_key(3));
    let forged_owner = device_key(6);
    prepare_bidirectional_pairwise(&mut alice, &mut bob);

    let pair = |name: &str| vec![name.to_string(), forged_owner.to_hex()];
    let forged_inner = Rumor {
        id: None,
        pubkey: forged_owner,
        created_at: UnixSeconds(1_900_100_000),
        kind: 14,
        tags: vec![pair("p"), pair("recipient-owner"), pair("pubkey")],
        content: "forged hints ignored".to_string(),
    };
    let send = bob
        .send_event(&mut context(10), owner_key(1), forged_inner)
        .expect("send forged inner hints");

    let (sender, conversation_owner, content, _) = deliver(&send.effects, &mut alice)
        .into_iter()
        .find(|(_, _, content, _)| content.contains("forged hints ignored"))
        .expect("decrypted forged-hint message");
    assert_eq!(sender, owner_key(3));
    assert_eq!(conversation_owner, None);
    assert!(content.contains(&forged_owner.to_hex()));
}

#[test]
fn duplicate_received_event_reemits_only_until_decrypted_delivery_is_acked() {
    let mut alice = runtime(2, owner_key(1));
    let mut bob = runtime(4, owner_key(3));
    prepare_bidirectional_pairwise(&mut alice, &mut bob);

    let send = bob
        .send_text(&mut context(10), owner_key(1), "dedupe delivery".to_string(), None)
        .expect("send");
    let message = process_setup_events_and_return_message(&mut alice, &send.effects);

    let first = alice
        .process_received_event(&mut context(11), &message)
        .expect("first receive");
    let first_emit = emit_decrypted(&first);
    assert_eq!(first_emit.len(), 1);

    let second = alice
        .process_received_event(&mut context(12), &message)
        .expect("duplicate receive while delivery is pending");
    let second_emit = emit_decrypted(&second);
    assert_eq!(second_emit.len(), 1);
    assert_eq!(second_emit[0].3, first_emit[0].3);

    alice.ack_decrypted_delivery(&first_emit[0].3).expect("ack decrypted");
    let after_ack = alice.process_received_event(&mut context(13), &message);
    assert!(
        after_ack
            .map(|effects| emit_decrypted(&effects).is_empty())
            .unwrap_or(true),
        "acked duplicate relay events must not produce another app-visible delivery"
    );
}

#[test]
fn persisted_inbound_decrypt_replays_after_restart_until_app_ack() {
    let mut alice = runtime(2, owner_key(1));
    let mut bob = runtime(4, owner_key(3));
    prepare_bidirectional_pairwise(&mut alice, &mut bob);

    let send = bob
        .send_text(&mut context(10), owner_key(1), "crash-safe inbound".to_string(), None)
        .expect("send");
    let message = process_setup_events_and_return_message(&mut alice, &send.effects);
    let first = alice
        .process_received_event(&mut context(11), &message)
        .expect("receive");
    let first_emit = emit_decrypted(&first);
    assert_eq!(first_emit.len(), 1);
    let stored = last_stored(first);
    drop(alice);

    let mut restarted = runtime(2, owner_key(1));
    let replay = restarted.reload_from_storage(stored).expect("reload");
    let replay_emit = emit_decrypted(&replay);
    assert_eq!(replay_emit.len(), 1);
    assert_eq!(replay_emit[0].3, first_emit[0].3);
    assert!(replay_emit[0].2.contains("crash-safe inbound"));

    let ack = restarted
        .ack_decrypted_delivery(&replay_emit[0].3)
        .expect("ack replayed decrypted delivery");
    let stored = last_stored(ack);
    drop(restarted);

    let mut acked_restart = runtime(2, owner_key(1));
    let after_ack = acked_restart.reload_from_storage(stored).expect("reload after ack");
    assert!(emit_decrypted(&after_ack).is_empty());
}

#[test]
fn malformed_outer_message_event_fails_closed_without_state_effects() {
    let mut alice = runtime(2, owner_key(1));
    let malformed = UnsignedEvent {
        pubkey: device_key(4),
        created_at: UnixSeconds(1_900_100_100),
        kind: MESSAGE_EVENT_KIND as u16,
        tags: Vec::new(),
        content: "not ndr".to_string(),
    }
    .sign_with_secret(&[4; 32])
    .expect("signed malformed event");

    let result = alice.process_received_event(&mut context(10), &malformed);

    assert!(matches!(result, Err(Error::Codec(CodecError::InvalidEvent(_)))));
}

#[test]
fn delayed_app_keys_and_invite_gap_survives_restart_and_drains_once() {
    let mut alice = runtime(2, owner_key(1));
    let mut bob = runtime(4, owner_key(3));
    let bob_invite = first_invite(&bob.init(&mut context(9)).expect("bob init"));

    let queued = alice
        .send_text(
            &mut context(10),
            owner_key(3),
            "queued until protocol data".to_string(),
            None,
        )
        .expect("queued send");
    assert!(published_events(&queued.effects).is_empty());
    let stored = last_stored(queued.effects);
    drop(alice);

    let mut restarted = runtime(2, owner_key(1));
    let reload = restarted.reload_from_storage(stored).expect("reload");
    assert!(published_events(&reload).is_empty());

    let after_app_keys = restarted
        .ingest_app_keys_snapshot(
            &mut context(11),
            owner_key(3),
            &device_list(&[device_key(4)]),
            1,
        )
        .expect("app keys");
    assert!(
        published_events(&after_app_keys).is_empty(),
        "invite is still missing, so the queued send must not publish"
    );

    let after_invite = restarted
        .process_received_event(&mut context(12), &bob_invite)
        .expect("invite drains queued send");
    let published = published_events(&after_invite);
    assert!(
        published.iter().any(|event| parse_direct_message_event(event).is_ok()),
        "valid invite and AppKeys should retry and publish the queued send"
    );
    let mut stored = last_stored(after_invite);
    for event in &published {
        let ack = restarted.ack_prepared_publish(&event.id).expect("ack prepared publish");
        if let Some(later) = last_stored(ack) {
            stored = Some(later);
        }
    }
    drop(restarted);

    let mut after_ack = runtime(2, owner_key(1));
    let replay = after_ack.reload_from_storage(stored).expect("reload after ack");
    assert!(
        published_events(&replay).is_empty(),
        "acked queued send must drain once and not replay"
    );
}

#[test]
fn a_queued_message_says_what_it_waits_for() {
    let mut alice = runtime(2, owner_key(1));
    let sent = alice
        .send_text_with_inner_id(&mut context(10), owner_key(3), "later".to_string(), None)
        .unwrap();
    let waiting = alice.queued_message_diagnostics(None).unwrap();
    assert_eq!(waiting.len(), 1);
    assert_eq!(waiting[0].stage, QueuedMessageStage::Discovery);
    assert_eq!(waiting[0].target_key, owner_key(3).to_hex());
    assert_eq!(waiting[0].owner_pubkey, Some(owner_key(3)));
    assert_eq!(waiting[0].inner_event_id, Some(sent.inner_event_id.clone()));
    assert_eq!(waiting[0].created_at_ms, (NOW + 10) * 1000);
    assert_eq!(alice.queued_message_diagnostics(Some("other")).unwrap().len(), 0);

    observe_app_keys(&mut alice, owner_key(3), device_key(4));
    let waiting = alice.queued_message_diagnostics(Some(&sent.inner_event_id)).unwrap();
    assert_eq!(waiting.len(), 1);
    assert_eq!(waiting[0].stage, QueuedMessageStage::Device);
    assert_eq!(alice.cleanup_discovery_queue(0), Ok(0));
}

#[test]
fn blank_texts_are_not_sent() {
    let mut alice = runtime(2, owner_key(1));
    let sent = alice
        .send_text(&mut context(10), owner_key(3), " \n\t\u{3000}".to_string(), None)
        .unwrap();
    assert!(sent.event_ids.is_empty() && sent.effects.is_empty());
    assert_eq!(alice.queued_message_diagnostics(None).unwrap().len(), 0);
    let none = alice
        .send_receipt(&mut context(11), owner_key(3), "nonsense", Vec::new(), None)
        .unwrap();
    assert!(none.effects.is_empty());
}

#[test]
fn messages_of_all_kinds_arrive() {
    let mut alice = runtime(2, owner_key(1));
    let mut bob = runtime(4, owner_key(3));
    prepare_bidirectional_pairwise(&mut alice, &mut bob);
    let expiring = Some(SendOptions { expires_at: None, ttl_seconds: Some(60) });

    let sent = alice
        .send_text(&mut context(10), owner_key(3), "hello".to_string(), expiring)
        .unwrap();
    let text = deliver(&sent.effects, &mut bob).remove(0).2;
    let text = Rumor::from_json(&text).unwrap();
    assert_eq!(text.kind, 14);
    assert_eq!(text.pubkey.as_owner(), owner_key(1));
    let expected = vec![
        vec!["ms".to_string(), ((NOW + 10) * 1000).to_string()],
        vec!["expiration".to_string(), (NOW + 10 + 60).to_string()],
    ];
    assert_eq!(text.tags, expected);
    let id = text.id.unwrap();

    let sent = alice
        .send_reaction(&mut context(11), owner_key(3), id.clone(), "+".to_string(), None)
        .unwrap();
    let reaction = Rumor::from_json(&deliver(&sent.effects, &mut bob)[0].2).unwrap();
    assert_eq!((reaction.kind, reaction.content.as_str()), (REACTION_KIND, "+"));
    assert_eq!(reaction.tags[0], vec!["e".to_string(), id.clone()]);

    let sent = alice
        .send_receipt(&mut context(12), owner_key(3), "seen", vec![id.clone()], None)
        .unwrap();
    let receipt = Rumor::from_json(&deliver(&sent.effects, &mut bob)[0].2).unwrap();
    assert_eq!((receipt.kind, receipt.content.as_str()), (RECEIPT_KIND, "seen"));
    assert_eq!(receipt.tags[0], vec!["e".to_string(), id]);

    let sent = alice.send_typing(&mut context(13), owner_key(3), None).unwrap();
    let typing = Rumor::from_json(&deliver(&sent.effects, &mut bob)[0].2).unwrap();
    assert_eq!((typing.kind, typing.content.as_str()), (TYPING_KIND, "typing"));

    let sent = alice.send_chat_settings(&mut context(14), owner_key(3), 90).unwrap();
    let settings = Rumor::from_json(&deliver(&sent.effects, &mut bob)[0].2).unwrap();
    assert_eq!(settings.kind, CHAT_SETTINGS_KIND);
    assert_eq!(
        settings.content,
        "{\"type\":\"chat-settings\",\"v\":1,\"messageTtlSeconds\":90}"
    );
}

#[test]
fn contradictory_options_and_unknown_receipts_are_refused() {
    let mut alice = runtime(2, owner_key(1));
    let both = Some(SendOptions { expires_at: Some(1), ttl_seconds: Some(1) });
    let refused = alice.send_text(&mut context(10), owner_key(3), "x".to_string(), both);
    assert!(matches!(refused, Err(Error::Codec(CodecError::InvalidEvent(_)))));
    let far = Some(SendOptions { expires_at: None, ttl_seconds: Some(u64::MAX) });
    assert!(alice.send_typing(&mut context(11), owner_key(3), far).is_err());
    let ids = vec!["id".to_string()];
    let refused = alice.send_receipt(&mut context(12), owner_key(3), "gone", ids, None);
    assert!(matches!(refused, Err(Error::Codec(CodecError::InvalidEvent(_)))));
}

#[test]
fn the_runtime_listens_to_those_it_expects() {
    let mut alice = runtime(2, owner_key(1));
    let mut bob = runtime(4, owner_key(3));
    prepare_bidirectional_pairwise(&mut alice, &mut bob);
    assert_eq!(bob.get_total_sessions(), 0);
    assert!(bob.sync_direct_message_subscriptions().unwrap().is_empty());

    let sent = alice
        .send_text(&mut context(10), owner_key(3), "hello".to_string(), None)
        .unwrap();
    deliver(&sent.effects, &mut bob);
    assert_eq!(bob.get_total_sessions(), 1);
    let authors = bob.get_all_message_push_author_pubkeys();
    assert!(!authors.is_empty());
    assert_eq!(authors, bob.get_message_push_author_pubkeys(owner_key(1)));
    assert!(bob.get_message_push_author_pubkeys(owner_key(9)).is_empty());
    let states = bob.get_message_push_session_states(owner_key(1));
    assert_eq!(states.len(), 1);
    assert!(states[0].has_receiving_capability);
    assert_eq!(states[0].tracked_sender_pubkeys, authors);
    assert!(bob.sync_direct_message_subscriptions().unwrap().is_empty());
    assert_eq!(bob.known_peer_owner_pubkeys(), vec![owner_key(1)]);
    assert_eq!(
        bob.known_device_identity_pubkeys_for_owner(owner_key(1)),
        vec![device_key(2)]
    );

    let effects = bob.delete_chat(owner_key(1)).unwrap();
    assert_eq!(bob.get_total_sessions(), 0);
    assert!(effects.iter().any(
        |effect| matches!(effect, RuntimeEffect::Unsubscribe(id) if id == "ndr-runtime-messages")
    ));
    assert!(bob.known_peer_owner_pubkeys().is_empty());
}

#[test]
fn asking_for_an_owner_asks_relays() {
    let mut alice = runtime(2, owner_key(1));
    let effects = alice.setup_user(owner_key(3)).unwrap();
    match &effects[0] {
        RuntimeEffect::Subscribe { subid, filters } => {
            assert_eq!(subid, "ndr-runtime-protocol");
            assert_eq!(filters.len(), 1);
            assert_eq!(filters[0].kinds, vec![30078]);
            let mut wanted = vec![device_key(1), device_key(3)];
            wanted.sort_by(|a, b| a.to_bytes().cmp(&b.to_bytes()));
            assert_eq!(filters[0].authors, wanted);
        }
        _ => panic!("expected a subscription"),
    }
    assert_eq!(effects.len(), 1);
}

#[test]
fn sessions_can_be_moved_to_another_runtime() {
    let mut alice = runtime(2, owner_key(1));
    let mut bob = runtime(4, owner_key(3));
    prepare_bidirectional_pairwise(&mut alice, &mut bob);
    let sent = alice
        .send_text(&mut context(10), owner_key(3), "one".to_string(), None)
        .unwrap();
    deliver(&sent.effects, &mut bob);
    let exported = bob.export_active_sessions();
    assert_eq!(exported.len(), 1);
    assert_eq!(exported[0].0, owner_key(1));
    assert_eq!(exported[0].1, device_key(2).to_hex());
    let state = bob.export_active_session_state(owner_key(1)).unwrap().unwrap();
    assert!(bob.export_active_session_state(owner_key(9)).unwrap().is_none());

    let mut other = runtime(7, owner_key(3));
    let effects = other
        .import_session_state(owner_key(1), Some(device_key(2).to_hex()), state, UnixSeconds(NOW))
        .unwrap();
    assert!(effects.iter().any(persists));
    let sent = alice
        .send_text(&mut context(12), owner_key(3), "two".to_string(), None)
        .unwrap();
    let shown = deliver(&sent.effects, &mut other);
    assert_eq!(shown.len(), 1);
    assert!(shown[0].2.contains("two"));
}

#[test]
fn own_devices_get_a_copy() {
    let alice_owner = owner_key(1);
    let mut alice = runtime(2, alice_owner);
    let mut sibling = runtime(8, alice_owner);
    let mut bob = runtime(4, owner_key(3));
    let _ = alice.init(&mut context(9)).unwrap();
    prepare_alice_to_bob(&mut alice, &mut bob);
    let invite = first_invite(&sibling.init(&mut context(10)).unwrap());
    alice
        .ingest_app_keys_snapshot(
            &mut context(11),
            alice_owner,
            &device_list(&[device_key(2), device_key(8)]),
            NOW + 20,
        )
        .unwrap();
    alice.process_received_event(&mut context(12), &invite).unwrap();

    let sent = alice
        .send_text(&mut context(13), owner_key(3), "copied".to_string(), None)
        .unwrap();
    assert_eq!(sent.event_ids.len(), 2);
    let shown = deliver(&sent.effects, &mut sibling);
    assert_eq!(shown.len(), 1);
    assert_eq!(shown[0].0, alice_owner);
    assert_eq!(shown[0].1, Some(owner_key(3)));
    assert!(shown[0].2.contains("copied"));
    let shown = deliver(&sent.effects, &mut bob);
    assert_eq!(shown.len(), 1);
    assert_eq!(shown[0].1, None);
}

#[test]
fn a_provisional_roster_gives_way_to_the_owners_list() {
    let owner = owner_key(1);
    let mut alice = runtime(2, owner);
    let _ = alice.init(&mut context(9)).unwrap();
    assert_eq!(alice.known_device_identity_pubkeys_for_owner(owner), vec![device_key(2)]);
    alice
        .ingest_app_keys_snapshot(
            &mut context(10),
            owner,
            &device_list(&[device_key(2), device_key(8)]),
            5,
        )
        .unwrap();
    assert_eq!(alice.known_device_identity_pubkeys_for_owner(owner).len(), 2);
    let stale = alice
        .ingest_app_keys_snapshot(&mut context(11), owner, &device_list(&[device_key(2)]), 4)
        .unwrap();
    assert!(stale.is_empty());
    assert_eq!(alice.known_device_identity_pubkeys_for_owner(owner).len(), 2);
}

#[test]
fn an_accepted_invite_can_be_answered() {
    let mut alice = runtime(2, owner_key(1));
    let mut bob = runtime(4, owner_key(3));
    bob.init(&mut context(9)).unwrap();
    let mut invite = bob.local_invite().unwrap();
    assert_eq!(
        bob.current_device_invite_response_pubkey(),
        Some(invite.inviter_ephemeral_public_key)
    );
    let accepted = alice.accept_invite(&mut context(10), &invite, None).unwrap();
    assert_eq!(accepted.outcome.owner_pubkey, owner_key(3));
    assert_eq!(accepted.outcome.inviter_device_pubkey, device_key(4));
    assert_eq!(accepted.outcome.device_id, device_key(4).to_hex());
    assert!(!accepted.outcome.created_new_session);
    assert!(published_events(&accepted.effects).is_empty());

    let mut carol = runtime(6, owner_key(5));
    invite.purpose = Some("link".to_string());
    let linked = carol.accept_invite(&mut context(11), &invite, None).unwrap();
    assert_eq!(published_events(&linked.effects).len(), 2);
    let shown = deliver(&linked.effects, &mut bob);
    assert_eq!(shown.len(), 1);
    assert_eq!(Rumor::from_json(&shown[0].2).unwrap().kind, TYPING_KIND);
}

#[test]
fn a_key_that_is_none_starts_nothing() {
    let key = device_key(2);
    let refused =
        NdrRuntime::with_identity_key(key, [0; 32], "x".to_string(), owner_key(1), None, None);
    assert!(matches!(refused, Err(Error::NostrKey(_))));
    let started =
        NdrRuntime::with_identity_key(key, [2; 32], "x".to_string(), owner_key(1), None, None)
            .unwrap();
    assert_eq!(started.get_device_id(), "x");
    assert_eq!(started.get_our_pubkey(), key);
}

#[test]
fn what_another_device_stored_is_not_read() {
    let mut alice = runtime(2, owner_key(1));
    alice.setup_user(owner_key(3)).unwrap();
    alice
        .send_text(&mut context(10), owner_key(3), "kept".to_string(), None)
        .unwrap();
    let same = restarted(2, owner_key(1), Some(alice.stored_state()));
    assert_eq!(same.queued_message_diagnostics(None).unwrap().len(), 1);
    let other = restarted(4, owner_key(1), Some(alice.stored_state()));
    assert_eq!(other.queued_message_diagnostics(None).unwrap().len(), 0);
}

fn hear(
    effects: &[RuntimeEffect],
    to: &mut NdrRuntime,
) -> (Vec<GroupIncomingEvent>, Vec<RuntimeEffect>) {
    let mut events = Vec::new();
    let mut more = Vec::new();
    for (sender, _, content, _) in deliver(effects, to) {
        let outcome = to.group_handle_incoming_payload_outcome(
            content.as_bytes(),
            sender,
            None,
            UnixMillis(NOW * 1000),
            Vec::new(),
        );
        assert!(outcome.consumed);
        events.extend(outcome.events);
        more.extend(outcome.effects);
    }
    (events, more)
}

#[test]
fn groups_are_made_changed_and_written_to() {
    let mut alice = runtime(2, owner_key(1));
    let mut bob = runtime(4, owner_key(3));
    prepare_bidirectional_pairwise(&mut alice, &mut bob);

    let made = alice
        .create_group(&mut context(10), "friends".to_string(), vec![owner_key(3)])
        .unwrap();
    let id = made.outcome.group.group_id.clone();
    let (heard, effects) = hear(&made.effects, &mut bob);
    assert_eq!(heard.len(), 1);
    assert!(effects.iter().any(persists));
    assert_eq!(bob.group_snapshots()[0].name, "friends");

    let renamed = alice
        .update_group_name(&mut context(11), &id, "old friends".to_string())
        .unwrap();
    assert_eq!(renamed.snapshot.revision, 2);
    hear(&renamed.effects, &mut bob);
    assert_eq!(bob.group_snapshots()[0].name, "old friends");

    let admin = alice.set_group_admin(&mut context(12), &id, owner_key(3), true).unwrap();
    hear(&admin.effects, &mut bob);
    assert_eq!(bob.group_snapshots()[0].admins.len(), 2);
    let admin = alice.set_group_admin(&mut context(13), &id, owner_key(3), false).unwrap();
    hear(&admin.effects, &mut bob);
    assert_eq!(bob.group_snapshots()[0].admins.len(), 1);

    let sent = alice
        .send_group_message(&mut context(14), &id, b"hello".to_vec(), Some("inner".to_string()))
        .unwrap();
    assert_eq!(sent.event_ids.len(), 1);
    let (heard, _) = hear(&sent.effects, &mut bob);
    match &heard[0] {
        GroupIncomingEvent::Message(message) => {
            assert_eq!(message.body, b"hello".to_vec());
            assert_eq!(message.sender_owner, owner_key(1));
        }
        _ => panic!("expected a message"),
    }

    let removed = alice.remove_group_member(&mut context(15), &id, owner_key(3)).unwrap();
    assert_eq!(removed.snapshot.members, vec![owner_key(1)]);
    let refused = alice.update_group_name(&mut context(16), "nowhere", "x".to_string());
    assert!(matches!(
        refused,
        Err(Error::Domain(DomainError::InvalidGroupOperation(_)))
    ));
}

#[test]
fn a_member_who_cannot_be_reached_is_told_later() {
    let mut alice = runtime(2, owner_key(1));
    let mut bob = runtime(4, owner_key(3));
    let _ = alice.init(&mut context(9)).unwrap();
    let bob_invite = first_invite(&bob.init(&mut context(10)).unwrap());
    let made = alice
        .create_group(&mut context(11), "later".to_string(), vec![owner_key(3)])
        .unwrap();
    assert!(published_events(&made.effects).is_empty());
    let stored = last_stored(made.effects).unwrap();
    assert_eq!(stored.pending_group_fanouts.len(), 1);

    observe_app_keys(&mut alice, owner_key(3), device_key(4));
    let effects = alice.process_received_event(&mut context(12), &bob_invite).unwrap();
    let (heard, _) = hear(&effects, &mut bob);
    assert_eq!(heard.len(), 1);
    assert_eq!(bob.group_snapshots()[0].name, "later");
    assert!(alice.stored_state().pending_group_fanouts.is_empty());
}

#[test]
fn what_is_told_of_an_unknown_group_waits() {
    let mut alice = runtime(2, owner_key(1));
    let mut bob = runtime(4, owner_key(3));
    prepare_bidirectional_pairwise(&mut alice, &mut bob);
    let made = alice
        .create_group(&mut context(10), "first".to_string(), vec![owner_key(3)])
        .unwrap();
    let id = made.outcome.group.group_id.clone();
    let renamed = alice
        .update_group_name(&mut context(11), &id, "second".to_string())
        .unwrap();

    let created = deliver(&made.effects, &mut bob);
    let later = deliver(&renamed.effects, &mut bob);
    let early = bob.group_handle_incoming_payload_outcome(
        later[0].2.as_bytes(),
        owner_key(1),
        Some(device_key(2)),
        UnixMillis(1),
        Vec::new(),
    );
    assert!(early.consumed && early.events.is_empty());
    assert!(early.effects.iter().any(persists));
    let again = bob.group_handle_incoming_payload_outcome(
        later[0].2.as_bytes(),
        owner_key(1),
        Some(device_key(2)),
        UnixMillis(1),
        Vec::new(),
    );
    assert!(again.effects.is_empty());

    let events = bob.group_handle_incoming_payload(
        created[0].2.as_bytes(),
        owner_key(1),
        Some(device_key(2)),
        UnixMillis(2),
        Vec::new(),
    );
    assert_eq!(events.len(), 2);
    assert_eq!(bob.group_snapshots()[0].name, "second");

    let other = bob.group_handle_incoming_payload_outcome(
        b"no group",
        owner_key(1),
        None,
        UnixMillis(3),
        Vec::new(),
    );
    assert!(!other.consumed && other.effects.is_empty());
}

#[test]
fn sender_key_messages_wait_for_their_sender() {
    let mut bob = runtime(4, owner_key(3));
    let sender = device_key(5);
    assert!(bob.group_id_for_sender_event_pubkey(sender).is_none());
    bob.group_handle_outer_event(Some(sender_key_message(sender)), SenderKeyOutcome::Ignored);
    assert_eq!(bob.stored_state().pending_group_sender_key_messages.len(), 1);
    bob.group_handle_outer_event(Some(sender_key_message(sender)), SenderKeyOutcome::Ignored);
    assert_eq!(bob.stored_state().pending_group_sender_key_messages.len(), 1);

    bob.learn_group_sender(sender, "g".to_string());
    assert_eq!(bob.group_id_for_sender_event_pubkey(sender).as_deref(), Some("g"));
    assert_eq!(bob.group_known_sender_event_pubkeys(), vec![sender]);
    let plan = bob.group_outer_subscription_plan();
    assert_eq!(plan.authors, vec![sender]);
    assert_eq!(plan.added_authors, vec![sender]);
    let nothing = bob.group_handle_outer_event(
        Some(sender_key_message(sender)),
        SenderKeyOutcome::Failed,
    );
    assert!(nothing.events.is_empty() && nothing.effects.is_empty());
    let nothing = bob.group_handle_outer_event(None, SenderKeyOutcome::Failed);
    assert!(nothing.effects.is_empty());
    assert!(bob.sync_groups(Vec::new()).is_ok());
    assert!(bob.pending_invite_response_owner_pubkeys().is_empty());
}

#[test]
fn the_group_context_is_that_of_the_runtime() {
    let mut alice = runtime(2, owner_key(1));
    let (sessions, groups) = alice.with_group_context();
    sessions.observe_peer_roster(
        owner_key(3),
        DeviceRoster::new(
            UnixSeconds(1),
            vec![AuthorizedDevice::new(device_key(4), UnixSeconds(1))],
        ),
    );
    groups
        .create_group(sessions, &mut context(10), "g".to_string(), vec![owner_key(3)])
        .unwrap();
    alice.set_auto_adopt_chat_settings(true);
    assert_eq!(alice.group_snapshots().len(), 1);
    assert_eq!(alice.known_peer_owner_pubkeys(), vec![owner_key(3)]);
}

#[test]
fn prepared_events_stay_until_they_are_acknowledged() {
    let mut alice = runtime(2, owner_key(1));
    let mut bob = runtime(4, owner_key(3));
    prepare_alice_to_bob(&mut alice, &mut bob);
    let sent = alice
        .send_text(&mut context(20), owner_key(3), "kept".to_string(), None)
        .unwrap();
    let ids = published_event_ids(&sent.effects);
    assert!(!ids.is_empty());
    assert_eq!(published_event_ids(&alice.prepared_publish_effects()), ids);
    let moved = NdrRuntime::new_with_group_storage(
        device_key(2),
        [2; 32],
        "device".to_string(),
        owner_key(1),
        Some(alice.stored_state()),
        None,
        None,
    );
    assert_eq!(published_event_ids(&moved.prepared_publish_effects()), ids);
    for id in &ids {
        assert_eq!(alice.ack_prepared_publish(id).unwrap().len(), 1);
        assert!(alice.ack_prepared_publish(id).unwrap().is_empty());
    }
    assert!(alice.prepared_publish_effects().is_empty());
}

#[test]
fn members_are_added_and_the_unreached_wait() {
    let mut alice = runtime(2, owner_key(1));
    let mut bob = runtime(4, owner_key(3));
    prepare_bidirectional_pairwise(&mut alice, &mut bob);
    let made = alice
        .create_group(&mut context(10), "two".to_string(), vec![owner_key(3)])
        .unwrap();
    let id = made.outcome.group.group_id.clone();
    hear(&made.effects, &mut bob);
    let added = alice
        .add_group_members(&mut context(11), &id, vec![owner_key(5)])
        .unwrap();
    assert_eq!(added.snapshot.members.len(), 3);
    hear(&added.effects, &mut bob);
    assert_eq!(bob.group_snapshots()[0].members.len(), 3);
    let waiting = alice.stored_state().pending_group_fanouts.len();
    assert!(waiting > 0);

    // Another event changes nothing for those who still cannot be reached.
    observe_app_keys(&mut alice, owner_key(7), device_key(8));
    assert_eq!(alice.stored_state().pending_group_fanouts.len(), waiting);
}

fn roster_of(device: u8, created_at: u64) -> DeviceRoster {
    DeviceRoster::new(
        UnixSeconds(created_at),
        vec![AuthorizedDevice::new(device_key(device), UnixSeconds(created_at))],
    )
}

fn started(device: u8, owner: u8) -> NdrRuntime {
    let key = device_key(device);
    let invite = Invite::create_new(
        &mut context(device as u64),
        key.as_owner(),
        Some(DeviceId::new(&key.to_hex())),
        None,
    )
    .expect("local invite");
    let mut runtime =
        NdrRuntime::new(key, [device; 32], key.to_hex(), owner_key(owner), None, Some(invite));
    runtime.init(&mut context(200 + device as u64)).expect("runtime init");
    runtime
}

fn observe(runtime: &mut NdrRuntime, owner: u8, roster: DeviceRoster, invite: Invite) {
    let (core, _) = runtime.with_group_context();
    core.observe_peer_roster(owner_key(owner), roster);
    let mut invite = invite;
    invite.owner_public_key = Some(owner_key(owner));
    core.observe_device_invite(owner_key(owner), invite).expect("observe invite");
}

#[test]
fn group_member_removal_reaches_existing_member_on_subscribed_pairwise_author() {
    let mut alice = started(2, 1);
    let mut bob = started(4, 3);
    let mut charlie = started(6, 5);

    let alice_invite = alice.local_invite().expect("alice invite");
    let bob_invite = bob.local_invite().expect("bob invite");
    let charlie_invite = charlie.local_invite().expect("charlie invite");
    observe(&mut alice, 3, roster_of(4, 3_200_000_010), bob_invite);
    observe(&mut alice, 5, roster_of(6, 3_200_000_011), charlie_invite);
    observe(&mut bob, 1, roster_of(2, 3_200_000_012), alice_invite.clone());
    observe(&mut charlie, 1, roster_of(2, 3_200_000_013), alice_invite);

    let created = alice
        .create_group(
            &mut context(30),
            "Alice Bob Charlie".to_string(),
            vec![owner_key(3), owner_key(5)],
        )
        .expect("create group");
    let group_id = created.outcome.group.group_id.clone();
    let _ = hear(&created.effects, &mut bob);
    let _ = hear(&created.effects, &mut charlie);

    let removal = alice
        .remove_group_member(&mut context(31), &group_id, owner_key(5))
        .expect("remove charlie");
    assert_eq!(removal.snapshot.members.len(), 2);

    let bob_device_hex = device_key(4).to_hex();
    let bob_subscribed_authors = bob.get_all_message_push_author_pubkeys();
    let bob_visible_removal_events = removal
        .effects
        .into_iter()
        .filter(|effect| match effect {
            RuntimeEffect::PublishSignedForInnerEvent { event, target_device_id, .. } => {
                target_device_id.as_deref() == Some(bob_device_hex.as_str())
                    && bob_subscribed_authors.contains(&event.pubkey)
            }
            _ => false,
        })
        .collect::<Vec<_>>();
    assert!(
        !bob_visible_removal_events.is_empty(),
        "removal metadata for Bob must be signed by a message author Bob already subscribes to"
    );

    let (bob_events, _) = hear(&bob_visible_removal_events, &mut bob);
    assert!(
        bob_events.iter().any(|event| match event {
            GroupIncomingEvent::MetadataUpdated(snapshot) => {
                snapshot.group_id == group_id
                    && snapshot.members.len() == 2
                    && !snapshot.members.contains(&owner_key(5))
            }
            _ => false,
        }),
        "Bob must apply Charlie's removal from Alice's metadata snapshot"
    );
}

#[test]
fn an_accepted_invite_is_kept_though_a_later_roster_leaves_its_device_out() {
    let mut alice = started(2, 1);
    let bob = started(4, 3);
    let mut invite = bob.local_invite().expect("bob invite");
    invite.owner_public_key = Some(owner_key(3));
    {
        let (core, _) = alice.with_group_context();
        core.observe_peer_roster(owner_key(3), roster_of(7, 3_200_000_000));
        core.observe_device_invite(owner_key(3), invite.clone()).unwrap();
        let known = core.snapshot().users.into_iter().find(|user| user.owner_pubkey == owner_key(3));
        assert!(known.unwrap().devices.iter().all(|record| record.device_pubkey != device_key(4)));
    }
    alice.accept_invite(&mut context(40), &invite, None).unwrap();
    let (core, _) = alice.with_group_context();
    let known = core
        .snapshot()
        .users
        .into_iter()
        .find(|user| user.owner_pubkey == owner_key(3))
        .unwrap();
    let record = known
        .devices
        .iter()
        .find(|record| record.device_pubkey == device_key(4))
        .expect("the accepted device");
    assert!(record.public_invite.is_some());
    assert!(!record.authorized);
}

#[test]
fn a_device_list_older_than_the_latest_is_not_taken_in() {
    let bob_owner = owner_key(3);
    let mut alice = runtime(2, owner_key(1));
    let _ = alice.init(&mut context(9)).expect("alice init");
    let newer = alice
        .ingest_app_keys_snapshot(&mut context(10), bob_owner, &device_list(&[device_key(4)]), 5)
        .unwrap();
    assert!(persists(&newer[0]));
    let older = alice
        .ingest_app_keys_snapshot(&mut context(11), bob_owner, &device_list(&[device_key(5)]), 4)
        .unwrap();
    assert!(older.is_empty());
    let same = alice
        .ingest_app_keys_snapshot(&mut context(12), bob_owner, &device_list(&[device_key(4)]), 5)
        .unwrap();
    assert!(persists(&same[0]));
}

#[test]
fn messages_that_were_not_tried_yet_are_still_stored() {
    let bob_owner = owner_key(3);
    let mut alice = runtime(2, owner_key(1));
    let mut bob = runtime(4, bob_owner);
    let _ = alice.init(&mut context(9)).expect("alice init");
    prepare_alice_to_bob(&mut alice, &mut bob);

    let mut response = None;
    for (seed, text) in [(10, "one"), (11, "two")] {
        let sent = alice
            .send_text(&mut context(seed), bob_owner, text.to_string(), None)
            .expect("send");
        for event in published_events(&sent.effects) {
            if event.kind as u32 == MESSAGE_EVENT_KIND {
                bob.process_received_event(&mut context(seed + 10), &event).expect("kept");
            } else {
                response = Some(event);
            }
        }
    }
    let drained = bob
        .process_received_event(&mut context(30), &response.expect("invite response"))
        .expect("drains");
    assert_eq!(drained.iter().filter(|effect| emits(effect)).count(), 2);

    let first_shown = drained.iter().position(emits).unwrap();
    let before_it = drained[..first_shown]
        .iter()
        .rev()
        .find_map(|effect| match effect {
            RuntimeEffect::PersistRuntimeState { value, .. } => Some(value.pending_inbound_messages.len()),
            _ => None,
        })
        .expect("stored before it is shown");
    assert_eq!(before_it, 1);
    let last = last_stored(drained).unwrap();
    assert_eq!(last.pending_inbound_messages.len(), 0);
}
