//! Message keys that are kept for later.
use nostr_double_ratchet::collections::VecMap;
use nostr_double_ratchet::event::compute_event_id;
use nostr_double_ratchet::session::domain::{normalize_inner_rumor_id, skip_message_keys};
use nostr_double_ratchet::{DevicePubkey, SerializableKeyPair, SessionState, MAX_SKIP};

#[test]
fn skip_message_keys_prunes_to_max_skip() {
    let our_secret = [41u8; 32];
    let mut state = SessionState {
        root_key: [0u8; 32],
        their_current_nostr_public_key: None,
        their_next_nostr_public_key: None,
        our_previous_nostr_key: None,
        our_current_nostr_key: None,
        our_next_nostr_key: SerializableKeyPair {
            public_key: DevicePubkey::from_secret_bytes(&our_secret).unwrap(),
            private_key: our_secret,
        },
        receiving_chain_key: Some([7u8; 32]),
        sending_chain_key: None,
        sending_chain_message_number: 0,
        receiving_chain_message_number: 0,
        previous_sending_chain_message_count: 0,
        skipped_keys: VecMap::new(),
    };

    let sender = DevicePubkey::from_secret_bytes(&[42u8; 32]).unwrap();

    skip_message_keys(&mut state, MAX_SKIP as u32, &sender).unwrap();
    skip_message_keys(&mut state, (MAX_SKIP * 2) as u32, &sender).unwrap();

    let entry = state.skipped_keys.get(&sender).unwrap();
    assert!(entry.message_keys.len() <= MAX_SKIP);
    assert!(!entry.message_keys.contains_key(&0));
    assert!(entry.message_keys.contains_key(&((MAX_SKIP * 2 - 1) as u32)));
}

#[test]
fn an_inner_event_gets_its_identifier_once() {
    let text = r#"{"pubkey":"aa","created_at":1,"kind":14,"tags":[["p","bb"]],"content":"hi","id":"wrong"}"#;
    let once = normalize_inner_rumor_id(text);
    assert!(!once.contains("wrong"));
    assert!(once.contains(&compute_event_id(
        "aa",
        1,
        14,
        &vec![vec!["p".to_string(), "bb".to_string()]],
        "hi",
    )));
    assert_eq!(normalize_inner_rumor_id(&once), once);
    for other in ["plain text", "[1]", r#"{"pubkey":"aa"}"#] {
        assert_eq!(normalize_inner_rumor_id(other), other);
    }
}
