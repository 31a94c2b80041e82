//! Invites as values, as text and as events, and what comes of them.
use nostr_double_ratchet::codec::nostr::parse_invite_event;
use nostr_double_ratchet::event::UnsignedEvent;
use nostr_double_ratchet::invite::domain::{
    accept_invite, create_invite, from_user_filter, invite_event, invite_from_event,
    invite_from_url, invite_url, listen_filter, process_invite_response, InviteAcceptRuntime,
    InviteCreateRuntime,
};
use nostr_double_ratchet::invite_actor::{InviteActor, InviteCreateInput};
use nostr_double_ratchet::rumor::{DirectMessageContent, Rumor};
use nostr_double_ratchet::session::domain::{
    desired_subscriptions, init_state, receive_event, send_event, SessionInitRuntime,
    SessionReceiveRuntime, SessionSendRuntime,
};
use nostr_double_ratchet::{
    DeviceId, DevicePubkey, DomainError, Error, Invite, ProtocolContext, UnixMillis, UnixSeconds,
};
use rand::rngs::StdRng;
use rand::SeedableRng;

fn context(seed: u64) -> ProtocolContext<'static> {
    let rng = Box::leak(Box::new(StdRng::seed_from_u64(seed)));
    ProtocolContext::new(UnixSeconds(1_000), UnixMillis(1_000_000), rng)
}

fn key(fill: u8) -> DevicePubkey {
    DevicePubkey::from_secret_bytes(&[fill; 32]).unwrap()
}

fn invite(max_uses: Option<usize>) -> Invite {
    create_invite(
        key(1).as_owner(),
        Some(DeviceId::new("desk")),
        max_uses,
        InviteCreateRuntime {
            inviter_ephemeral_private_key: [2; 32],
            shared_secret: [3; 32],
            created_at: 100,
        },
    )
    .unwrap()
}

#[test]
fn an_invite_is_made_of_what_is_given() {
    let invite = invite(Some(2));
    assert_eq!(invite.inviter_ephemeral_public_key, key(2));
    assert_eq!(invite.inviter_ephemeral_private_key, Some([2; 32]));
    assert_eq!(invite.created_at, UnixSeconds(100));
    assert_eq!(invite.max_uses, Some(2));
    assert!(invite.used_by.is_empty());
    let filter = listen_filter(&invite);
    assert_eq!(filter.kinds, vec![1059]);
    assert_eq!(filter.pubkeys, vec![key(2)]);
    let filter = from_user_filter(key(1).as_owner());
    assert_eq!(filter.kinds, vec![30078]);
    assert_eq!(filter.authors, vec![key(1)]);
    assert_eq!(filter.labels, vec!["double-ratchet/invites".to_string()]);
}

#[test]
fn an_invite_travels_as_address_and_event() {
    let invite = invite(None);
    let url = invite_url(&invite, "https://example.org").unwrap();
    assert!(url.starts_with("https://example.org#%7B"));
    let read = invite_from_url(&url).unwrap();
    assert_eq!(read.inviter, invite.inviter);
    assert_eq!(read.shared_secret, invite.shared_secret);
    assert_eq!(read.inviter_ephemeral_public_key, invite.inviter_ephemeral_public_key);
    assert_eq!(read.inviter_ephemeral_private_key, None);
    assert!(invite_from_url("https://example.org").is_err());

    let event = invite_event(&invite).unwrap().sign_with_secret(&[1; 32]).unwrap();
    assert!(event.verifies());
    let read = invite_from_event(&event).unwrap();
    assert_eq!(read.device_id, invite.device_id);
    let mut nameless = invite.clone();
    nameless.device_id = None;
    assert!(matches!(
        invite_event(&nameless),
        Err(Error::Domain(DomainError::DeviceIdRequired))
    ));
    let mut forged = event.clone();
    forged.content = "changed".to_string();
    assert!(!forged.verifies());
    assert!(parse_invite_event(&forged).is_err());
}

#[test]
fn an_accepted_invite_leads_to_a_conversation() {
    let owned = invite(None);
    let accepted = accept_invite(
        &owned,
        key(4),
        [4; 32],
        Some(DeviceId::new("phone")),
        None,
        InviteAcceptRuntime {
            invitee_session_private_key: [5; 32],
            random_sender_private_key: [6; 32],
            inner_created_at: 101,
            envelope_created_at: 102,
            session_init: SessionInitRuntime { our_next_private_key: Some([7; 32]) },
        },
    )
    .unwrap();
    let taken = process_invite_response(&owned, &accepted.response_event, [1; 32])
        .unwrap()
        .expect("a response");
    assert_eq!(taken.response.invitee_identity, key(4));
    assert_eq!(taken.response.device_id, Some(DeviceId::new("phone")));
    assert_eq!(taken.next_invite.used_by, vec![key(4)]);

    let note = UnsignedEvent {
        pubkey: key(4),
        created_at: UnixSeconds(103),
        kind: 14,
        tags: Vec::new(),
        content: "hello".to_string(),
    };
    let sent = send_event(
        &accepted.session_state,
        note,
        SessionSendRuntime { now_secs: 103, now_millis: 103_000 },
    )
    .unwrap();
    let wanted = desired_subscriptions(&taken.response.session_state);
    assert_eq!(wanted.next, Some(sent.event.pubkey));
    let received = receive_event(
        &taken.response.session_state,
        &sent.event,
        SessionReceiveRuntime { our_next_private_key: [8; 32] },
    )
    .unwrap();
    let rumor = Rumor::from_json(&received.plaintext.unwrap()).unwrap();
    assert_eq!(rumor.content, "hello");
    assert!(received.needs_subscription_update);
    let again = receive_event(
        &received.next_state,
        &sent.event,
        SessionReceiveRuntime { our_next_private_key: [9; 32] },
    );
    assert!(again.map(|result| result.plaintext.is_none()).unwrap_or(true));
}

#[test]
fn an_actor_is_its_invite() {
    let actor = InviteActor::create(InviteCreateInput {
        inviter: key(1).as_owner(),
        device_id: Some("desk".to_string()),
        max_uses: None,
        inviter_ephemeral_private_key: [2; 32],
        shared_secret: [3; 32],
        created_at: 100,
    })
    .unwrap();
    let same = InviteActor::from_invite(invite(None));
    assert_eq!(actor.serialize().unwrap(), same.serialize().unwrap());
    let read = InviteActor::deserialize(&actor.serialize().unwrap()).unwrap();
    assert_eq!(read.device_id, Some("desk".to_string()));
    let url = actor.get_url("https://example.org").unwrap();
    let public = InviteActor::from_url(&url).unwrap();
    let (mut session, event) = public
        .accept(&mut context(1), key(4), [4; 32], Some("phone".to_string()))
        .unwrap();
    let response = actor
        .process_invite_response(&event, [1; 32])
        .unwrap()
        .expect("a response");
    assert_eq!(response.invitee_identity, key(4));
    assert_eq!(response.resolved_owner_pubkey(), key(4).as_owner());
    let rumor =
        Rumor::from_content(&mut context(2), DirectMessageContent::Text("hi".to_string())).unwrap();
    let plan = session.plan_send(&rumor, UnixSeconds(5)).unwrap();
    assert!(session.can_send());
    assert!(response.session.matches_sender(session.apply_send(plan).envelope.sender));
    assert!(!response.session.can_send());
}

#[test]
fn an_invite_that_is_none_is_refused() {
    let bad = create_invite(
        key(1).as_owner(),
        None,
        None,
        InviteCreateRuntime {
            inviter_ephemeral_private_key: [0; 32],
            shared_secret: [3; 32],
            created_at: 100,
        },
    );
    assert!(matches!(bad, Err(Error::NostrKey(_))));
    assert!(matches!(Invite::deserialize("{}"), Err(Error::Parse(_))));
}

#[test]
fn an_actor_is_published_and_read_from_its_event() {
    let actor = InviteActor::from_invite(invite(Some(3)));
    let event = actor.get_event().unwrap().sign_with_secret(&[1; 32]).unwrap();
    let read = InviteActor::from_event(&event).unwrap().into_invite();
    assert_eq!(read.inviter, key(1).as_owner());
    assert_eq!(read.shared_secret, [3; 32]);
    assert_eq!(read.inviter_ephemeral_private_key, None);
    let nameless = create_invite(
        key(1).as_owner(),
        None,
        None,
        InviteCreateRuntime {
            inviter_ephemeral_private_key: [2; 32],
            shared_secret: [3; 32],
            created_at: 100,
        },
    )
    .unwrap();
    assert!(matches!(
        InviteActor::from_invite(nameless).get_event(),
        Err(Error::Domain(DomainError::DeviceIdRequired))
    ));
}

#[test]
fn first_states_follow_from_the_keys() {
    let secret = [3; 32];
    let initiator = init_state(
        key(2),
        [5; 32],
        true,
        secret,
        SessionInitRuntime { our_next_private_key: Some([7; 32]) },
    )
    .unwrap();
    assert_eq!(initiator.our_next_nostr_key.public_key, key(7));
    assert!(initiator.sending_chain_key.is_some());
    let responder =
        init_state(key(5), [2; 32], false, secret, SessionInitRuntime { our_next_private_key: None })
            .unwrap();
    assert!(responder.sending_chain_key.is_none());
    assert_eq!(responder.our_next_nostr_key.public_key, key(2));
}
