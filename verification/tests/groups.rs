//! Groups of owners.
use nostr_double_ratchet::group::GroupIncomingEvent;
use nostr_double_ratchet::group_wire::{GroupPayload, OwnersChange};
use nostr_double_ratchet::{
    AuthorizedDevice, DeviceId, DevicePubkey, DeviceRoster, DomainError, Error, GroupManager,
    GroupPreparedSend, OwnerPubkey, ProtocolContext, RelayGap, SessionManager, UnixMillis,
    UnixSeconds,
};
use rand::rngs::StdRng;
use rand::SeedableRng;

fn context(seed: u64) -> ProtocolContext<'static> {
    let rng = Box::leak(Box::new(StdRng::seed_from_u64(seed)));
    ProtocolContext::new(UnixSeconds(1_000 + seed), UnixMillis((1_000 + seed) * 1000), rng)
}

fn owner(fill: u8) -> OwnerPubkey {
    DevicePubkey::from_secret_bytes(&[fill; 32]).unwrap().as_owner()
}

struct Member {
    owner: OwnerPubkey,
    device: DevicePubkey,
    sessions: SessionManager,
    groups: GroupManager,
}

fn member(owner_fill: u8, device_fill: u8) -> Member {
    Member {
        owner: owner(owner_fill),
        device: DevicePubkey::from_secret_bytes(&[device_fill; 32]).unwrap(),
        sessions: SessionManager::new(
            owner(owner_fill),
            [device_fill; 32],
            Some(DeviceId::new("device")),
        ),
        groups: GroupManager::new(owner(owner_fill)),
    }
}

fn introduce(from: &mut Member, to: &mut Member) {
    let invite = from.sessions.ensure_local_invite(&mut context(1)).unwrap().clone();
    to.sessions.observe_device_invite(from.owner, invite).unwrap();
    to.sessions.observe_peer_roster(
        from.owner,
        DeviceRoster::new(
            UnixSeconds(1),
            vec![AuthorizedDevice::new(from.device, UnixSeconds(1))],
        ),
    );
}

fn hear(to: &mut Member, from: OwnerPubkey, sent: &GroupPreparedSend) -> Vec<GroupIncomingEvent> {
    for response in &sent.invite_responses {
        let _ = to.sessions.observe_invite_response(&mut context(2), response);
    }
    let mut events = Vec::new();
    for delivery in &sent.deliveries {
        if delivery.device_pubkey != to.device {
            continue;
        }
        let received = to
            .sessions
            .receive(&mut context(3), from, &delivery.envelope)
            .unwrap()
            .expect("a session listens");
        events.extend(to.groups.handle_incoming(from, &received.payload).unwrap());
    }
    events
}

fn refusal(error: Error) -> String {
    match error {
        Error::Domain(DomainError::InvalidGroupOperation(text)) => text,
        other => panic!("unexpected error {other:?}"),
    }
}

#[test]
fn members_hear_of_a_group_and_its_changes() {
    let mut alice = member(1, 11);
    let mut bob = member(2, 12);
    let mut carol = member(3, 13);
    introduce(&mut bob, &mut alice);
    introduce(&mut carol, &mut alice);

    let made = alice
        .groups
        .create_group(
            &mut alice.sessions,
            &mut context(10),
            "friends".to_string(),
            vec![owner(2)],
        )
        .unwrap();
    let id = made.group.group_id.clone();
    assert_eq!(made.group.revision, 1);
    assert_eq!(made.group.admins, vec![owner(1)]);
    assert_eq!(id.len(), 32);
    assert_eq!(hear(&mut bob, owner(1), &made.prepared).len(), 1);
    assert_eq!(format!("{:?}", bob.groups.group(&id)), format!("{:?}", alice.groups.group(&id)));

    let added = alice
        .groups
        .add_members(&mut alice.sessions, &mut context(11), &id, vec![owner(3)])
        .unwrap();
    hear(&mut bob, owner(1), &added);
    hear(&mut carol, owner(1), &added);
    assert_eq!(bob.groups.group(&id).unwrap().members.len(), 3);
    assert_eq!(carol.groups.group(&id).unwrap().revision, 2);

    let sent = alice
        .groups
        .send_message(&mut alice.sessions, &mut context(12), &id, b"hi".to_vec())
        .unwrap();
    for hearer in [&mut bob, &mut carol] {
        match &hear(hearer, owner(1), &sent)[0] {
            GroupIncomingEvent::Message(message) => {
                assert_eq!(message.body, b"hi".to_vec());
                assert_eq!(message.revision, 2);
            }
            _ => panic!("expected a message"),
        }
    }
}

#[test]
fn only_admins_change_a_group_here() {
    let mut alice = member(1, 11);
    let mut bob = member(2, 12);
    introduce(&mut bob, &mut alice);
    introduce(&mut alice, &mut bob);
    let made = alice
        .groups
        .create_group_with_id(
            &mut alice.sessions,
            &mut context(10),
            "g".to_string(),
            "friends".to_string(),
            vec![owner(2)],
        )
        .unwrap();
    hear(&mut bob, owner(1), &made.prepared);
    let refused = bob
        .groups
        .update_name(&mut bob.sessions, &mut context(11), "g", "mine".to_string())
        .unwrap_err();
    assert!(refusal(refused).contains("admin"));
    let forged = GroupPayload::Rename {
        group_id: "g".to_string(),
        base_revision: 1,
        new_revision: 2,
        name: "mine".to_string(),
    };
    assert!(alice.groups.handle_incoming(owner(2), &forged.to_bytes()).is_err());
    assert_eq!(alice.groups.group("g").unwrap().name, "friends");
    let stranger = GroupPayload::Message {
        group_id: "g".to_string(),
        revision: 1,
        body: b"spam".to_vec(),
    };
    assert!(alice.groups.handle_incoming(owner(9), &stranger.to_bytes()).is_err());
}

#[test]
fn refusals_say_why() {
    let mut alice = member(1, 11);
    let refused = alice
        .groups
        .create_group(
            &mut alice.sessions,
            &mut context(10),
            "g".to_string(),
            vec![owner(1)],
        )
        .unwrap_err();
    assert_eq!(refusal(refused), "local owner is added automatically");
    let refused = alice
        .groups
        .send_message(&mut alice.sessions, &mut context(11), "nowhere", Vec::new())
        .unwrap_err();
    assert_eq!(refusal(refused), "unknown group `nowhere`");
    let made = alice
        .groups
        .create_group(&mut alice.sessions, &mut context(12), "g".to_string(), vec![owner(2)])
        .unwrap();
    assert_eq!(
        made.prepared.relay_gaps,
        vec![RelayGap::MissingRoster { owner_pubkey: owner(2) }]
    );
    let id = made.group.group_id;
    let refused = alice
        .groups
        .remove_admins(&mut alice.sessions, &mut context(13), &id, vec![owner(1)])
        .unwrap_err();
    assert!(!refusal(refused).is_empty());
    assert_eq!(alice.groups.group(&id).unwrap().revision, 1);
}

#[test]
fn what_could_not_be_told_can_be_told_again() {
    let mut alice = member(1, 11);
    let mut bob = member(2, 12);
    let made = alice
        .groups
        .create_group(&mut alice.sessions, &mut context(10), "g".to_string(), vec![owner(2)])
        .unwrap();
    let id = made.group.group_id.clone();
    introduce(&mut bob, &mut alice);
    let again = alice
        .groups
        .retry_create_group(&mut alice.sessions, &mut context(11), &id, vec![owner(2)])
        .unwrap();
    assert_eq!(hear(&mut bob, owner(1), &again).len(), 1);

    let renamed = alice
        .groups
        .update_name(&mut alice.sessions, &mut context(12), &id, "h".to_string())
        .unwrap();
    assert_eq!(hear(&mut bob, owner(1), &renamed).len(), 1);
    let again = alice
        .groups
        .retry_update_name(&mut alice.sessions, &mut context(13), &id)
        .unwrap();
    assert_eq!(again.deliveries.len(), 1);
    assert_eq!(bob.groups.group(&id).unwrap().name, "h");
}

#[test]
fn groups_are_restored() {
    let mut alice = member(1, 11);
    alice
        .groups
        .create_group(&mut alice.sessions, &mut context(10), "g".to_string(), vec![owner(2)])
        .unwrap();
    let before = format!("{:?}", alice.groups.groups());
    let restored = GroupManager::from_snapshot(alice.groups.snapshot()).unwrap();
    assert_eq!(format!("{:?}", restored.groups()), before);
}

#[test]
fn payloads_are_read_back() {
    let payload = GroupPayload::Owners {
        change: OwnersChange::RemoveAdmins,
        group_id: "g".to_string(),
        base_revision: 3,
        new_revision: 4,
        owners: vec![owner(1)],
    };
    let bytes = payload.to_bytes();
    let read = GroupPayload::from_bytes(&bytes).unwrap();
    assert_eq!(format!("{read:?}"), format!("{payload:?}"));
    assert!(GroupPayload::from_bytes(b"{}").is_none());
    assert!(GroupPayload::from_bytes(&[0xff]).is_none());
}

#[test]
fn owners_come_and_go() {
    let mut alice = member(1, 11);
    let mut bob = member(2, 12);
    let mut carol = member(3, 13);
    introduce(&mut bob, &mut alice);
    let made = alice
        .groups
        .create_group(&mut alice.sessions, &mut context(10), "g".to_string(), vec![owner(2)])
        .unwrap();
    let id = made.group.group_id.clone();
    hear(&mut bob, owner(1), &made.prepared);

    let added = alice
        .groups
        .add_members(&mut alice.sessions, &mut context(11), &id, vec![owner(3)])
        .unwrap();
    assert_eq!(added.relay_gaps, vec![RelayGap::MissingRoster { owner_pubkey: owner(3) }]);
    assert_eq!(hear(&mut bob, owner(1), &added).len(), 1);
    introduce(&mut carol, &mut alice);
    let again = alice
        .groups
        .retry_add_members(&mut alice.sessions, &mut context(12), &id, vec![owner(3)])
        .unwrap();
    assert_eq!(hear(&mut carol, owner(1), &again).len(), 1);
    assert_eq!(carol.groups.group(&id).unwrap().members.len(), 3);

    let raised = alice
        .groups
        .add_admins(&mut alice.sessions, &mut context(13), &id, vec![owner(2)])
        .unwrap();
    hear(&mut bob, owner(1), &raised);
    hear(&mut carol, owner(1), &raised);
    assert_eq!(carol.groups.group(&id).unwrap().admins.len(), 2);

    let removed = alice
        .groups
        .remove_members(&mut alice.sessions, &mut context(14), &id, vec![owner(3)])
        .unwrap();
    hear(&mut bob, owner(1), &removed);
    assert_eq!(bob.groups.group(&id).unwrap().members, {
        let mut members = vec![owner(1), owner(2)];
        members.sort();
        members
    });
    let again = alice
        .groups
        .retry_remove_members(&mut alice.sessions, &mut context(15), &id, vec![owner(3)])
        .unwrap();
    assert!(again.deliveries.iter().all(|delivery| delivery.device_pubkey != alice.device));
    assert_eq!(alice.groups.group(&id).unwrap().revision, 4);
}
