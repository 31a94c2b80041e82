//! Session managers that are restored and told old things.
use nostr_double_ratchet::codec::nostr as codec;
use nostr_double_ratchet::event::Event;
use nostr_double_ratchet::invite::IncomingInviteResponseEnvelope;
use nostr_double_ratchet::rumor::{DirectMessageContent, Rumor};
use nostr_double_ratchet::session::IncomingDirectMessageEnvelope;
use nostr_double_ratchet::session_manager::MAX_RELAY_LATENCY_SECS;
use nostr_double_ratchet::{
    AuthorizedDevice,
    Delivery,
    DeviceId,
    DevicePubkey,
    DeviceRecordSnapshot,
    DeviceRoster,
    DomainError,
    Error,
    Invite,
    InviteResponseEnvelope,
    OwnerPubkey,
    PreparedSend,
    ProcessedInviteResponse,
    ProtocolContext,
    ReceivedMessage,
    RelayGap,
    RosterSnapshotDecision,
    Session,
    SessionManager,
    SessionManagerSnapshot,
    UnixMillis,
    UnixSeconds,
    UserRecordSnapshot,
};
use rand::SeedableRng;
use rand::rngs::StdRng;

/// A time that lies as far beyond the time for which a device is remembered as
/// it would if that time were so many seconds.
fn after_latency(at: u64, latency: u64) -> UnixSeconds {
    UnixSeconds(at + MAX_RELAY_LATENCY_SECS - latency)
}

fn context(seed: u64, now_secs: u64) -> ProtocolContext<'static> {
    let mixed_seed = seed.wrapping_mul(0x9E37_79B9_7F4A_7C15).rotate_left(17)
        ^ now_secs.wrapping_mul(0xBF58_476D_1CE4_E5B9);
    let rng = Box::leak(Box::new(StdRng::seed_from_u64(mixed_seed)));
    ProtocolContext::new(
        UnixSeconds(now_secs),
        UnixMillis(now_secs.saturating_mul(1000).saturating_add(seed % 997)),
        rng,
    )
}

struct ManagerDevice {
    secret_key: [u8; 32],
    owner_pubkey: OwnerPubkey,
    device_pubkey: DevicePubkey,
    device_id: DeviceId,
}

fn manager_device(owner_fill: u8, device_fill: u8, device_id: &str) -> ManagerDevice {
    let secret_key = [device_fill; 32];
    ManagerDevice {
        secret_key,
        owner_pubkey: DevicePubkey::from_secret_bytes(&[owner_fill; 32]).unwrap().as_owner(),
        device_pubkey: DevicePubkey::from_secret_bytes(&secret_key).unwrap(),
        device_id: DeviceId::new(device_id),
    }
}

fn custom_public_device_invite(
    device: &ManagerDevice,
    seed: u64,
    now_secs: u64,
    device_id: Option<DeviceId>,
) -> Result<Invite, Error> {
    let mut ctx = context(seed, now_secs);
    let mut invite =
        Invite::create_new(&mut ctx, device.device_pubkey.as_owner(), device_id, None)?;
    invite.owner_public_key = Some(device.owner_pubkey);
    invite.inviter_ephemeral_private_key = None;
    Ok(invite)
}

fn debug<T: std::fmt::Debug>(value: &T) -> String {
    format!("{value:?}")
}

fn incoming_invite_response(
    response: &InviteResponseEnvelope,
) -> Result<IncomingInviteResponseEnvelope, Error> {
    codec::parse_invite_response_event(&codec::invite_response_event(response)?)
}

fn manager_device_snapshot(
    user: &UserRecordSnapshot,
    device_pubkey: DevicePubkey,
) -> &DeviceRecordSnapshot {
    user.devices
        .iter()
        .find(|device| device.device_pubkey == device_pubkey)
        .expect("device snapshot must exist")
}

fn manager_observe_invite_response(
    manager: &mut SessionManager,
    ctx: &mut ProtocolContext<'_>,
    response: &InviteResponseEnvelope,
) -> Result<Option<ProcessedInviteResponse>, Error> {
    manager.observe_incoming_response(ctx, &incoming_invite_response(response)?)
}

fn public_invite_via_event(invite: &Invite, secret_key: [u8; 32]) -> Result<Invite, Error> {
    let signed = codec::invite_unsigned_event(invite)?.sign_with_secret(&secret_key)?;
    codec::parse_invite_event(&signed)
}

fn manager_public_device_invite(
    manager: &mut SessionManager,
    device: &ManagerDevice,
    seed: u64,
    now_secs: u64,
) -> Result<Invite, Error> {
    let mut ctx = context(seed, now_secs);
    let invite = manager.ensure_local_invite(&mut ctx)?.clone();
    public_invite_via_event(&invite, device.secret_key)
}

fn manager_receive_delivery(
    manager: &mut SessionManager,
    ctx: &mut ProtocolContext<'_>,
    sender_owner: OwnerPubkey,
    delivery: &Delivery,
) -> Result<Option<ReceivedMessage>, Error> {
    let event = codec::direct_message_event(&delivery.envelope)?;
    manager.receive_incoming(ctx, sender_owner, &codec::parse_direct_message_event(&event)?)
}

fn snapshot<T: std::fmt::Debug>(value: &T) -> String {
    format!("{value:?}")
}

fn manager_user_snapshot(
    snapshot: &SessionManagerSnapshot,
    owner_pubkey: OwnerPubkey,
) -> &UserRecordSnapshot {
    snapshot
        .users
        .iter()
        .find(|user| user.owner_pubkey == owner_pubkey)
        .expect("owner snapshot must exist")
}

fn observe_device_invites(
    manager: &mut SessionManager,
    owner_pubkey: OwnerPubkey,
    invites: &[Invite],
) -> Result<(), Error> {
    for invite in invites {
        manager.observe_device_invite(owner_pubkey, invite.clone())?;
    }
    Ok(())
}

fn restore_manager(
    snapshot: SessionManagerSnapshot,
    secret_key: [u8; 32],
) -> Result<SessionManager, Error> {
    SessionManager::from_snapshot(snapshot, secret_key)
}

fn roster_for(devices: &[&ManagerDevice], created_at: u64) -> DeviceRoster {
    let devices = devices
        .iter()
        .map(|device| AuthorizedDevice::new(device.device_pubkey, UnixSeconds(created_at)))
        .collect();
    DeviceRoster::new(UnixSeconds(created_at), devices)
}

struct SentMessage {
    rumor: Rumor,
    event: Event,
    incoming: IncomingDirectMessageEnvelope,
}

fn send_message(
    session: &mut Session,
    ctx: &mut ProtocolContext<'_>,
    content: DirectMessageContent,
) -> Result<SentMessage, Error> {
    let rumor = Rumor::from_content(ctx, content)?;
    let send_plan = session.plan_send(&rumor, ctx.now_secs)?;
    let sent = session.apply_send(send_plan);
    let event = codec::direct_message_event(&sent.envelope)?;
    let incoming = codec::parse_direct_message_event(&event)?;
    Ok(SentMessage { rumor: sent.rumor, event, incoming })
}

fn session_manager(device: &ManagerDevice) -> SessionManager {
    SessionManager::new(device.owner_pubkey, device.secret_key, Some(device.device_id.clone()))
}

fn text_of(received: &ReceivedMessage) -> String {
    let json = String::from_utf8(received.payload.clone()).unwrap();
    Rumor::from_json(&json).unwrap().content
}

trait SendText {
    fn prepare_send_text(
        &mut self,
        ctx: &mut ProtocolContext<'_>,
        recipient: OwnerPubkey,
        text: String,
    ) -> Result<PreparedSend, Error>;
}

impl SendText for SessionManager {
    fn prepare_send_text(
        &mut self,
        ctx: &mut ProtocolContext<'_>,
        recipient: OwnerPubkey,
        text: String,
    ) -> Result<PreparedSend, Error> {
        let rumor = Rumor::from_content(ctx, DirectMessageContent::Text(text))?;
        let payload = rumor.to_json()?.into_bytes();
        self.prepare_send(ctx, recipient, payload)
    }
}

fn public_local_invite(
    manager: &mut SessionManager,
    device: &ManagerDevice,
    seed: u64,
    now_secs: u64,
) -> Result<Invite, Error> {
    manager_public_device_invite(manager, device, seed, now_secs)
}

fn incoming_response_from_public_invite(
    public_invite: &Invite,
    invitee: &ManagerDevice,
    owner_pubkey: Option<OwnerPubkey>,
    seed: u64,
    now_secs: u64,
) -> Result<(
    Session,
    IncomingInviteResponseEnvelope,
), Error> {
    let mut accept_ctx = context(seed, now_secs);
    let (session, response) = public_invite.accept_with_owner(
        &mut accept_ctx,
        invitee.device_pubkey,
        invitee.secret_key,
        Some(invitee.device_id.clone()),
        owner_pubkey,
    )?;
    Ok((session, incoming_invite_response(&response)?))
}

#[test]
fn restore_rejects_mismatched_local_secret_key() -> Result<(), Error> {
    let alice = manager_device(61, 168, "alice-1");
    let bob = manager_device(62, 169, "bob-1");
    let manager = session_manager(&alice);
    let result = restore_manager(manager.snapshot(), bob.secret_key);
    assert!(matches!(
        result,
        Err(Error::Domain(DomainError::InvalidState(_)))
    ));
    Ok(())
}

#[test]
fn duplicate_public_invite_observation_is_idempotent_across_restore() -> Result<(), Error> {
    let alice = manager_device(63, 170, "alice-1");
    let bob = manager_device(64, 171, "bob-1");
    let mut alice_manager = session_manager(&alice);
    let mut bob_manager = session_manager(&bob);

    alice_manager.observe_peer_roster(
        bob.owner_pubkey,
        roster_for(&[&bob], 300));
    let bob_invite = manager_public_device_invite(&mut bob_manager, &bob, 301, 301)?;
    alice_manager.observe_device_invite(bob.owner_pubkey, bob_invite.clone())?;
    let after_first = debug(&alice_manager.snapshot());

    let mut restored = restore_manager(alice_manager.snapshot(), alice.secret_key)?;
    restored.observe_device_invite(bob.owner_pubkey, bob_invite)?;
    assert_eq!(debug(&restored.snapshot()), after_first);
    Ok(())
}

#[test]
fn older_public_invite_replay_after_newer_invite_is_ignored() -> Result<(), Error> {
    let alice = manager_device(65, 172, "alice-1");
    let bob = manager_device(66, 173, "bob-1");
    let mut alice_manager = session_manager(&alice);

    alice_manager.observe_peer_roster(
        bob.owner_pubkey,
        roster_for(&[&bob], 310));

    let older = custom_public_device_invite(&bob, 311, 311, Some(bob.device_id.clone()))?;
    let newer = custom_public_device_invite(&bob, 312, 312, Some(bob.device_id.clone()))?;
    alice_manager.observe_device_invite(bob.owner_pubkey, newer.clone())?;
    alice_manager.observe_device_invite(bob.owner_pubkey, older)?;

    let snapshot = alice_manager.snapshot();
    let bob_record = manager_device_snapshot(
        manager_user_snapshot(&snapshot, bob.owner_pubkey),
        bob.device_pubkey,
    );
    assert_eq!(
        bob_record
            .public_invite
            .as_ref()
            .expect("stored public invite")
            .created_at,
        newer.created_at
    );

    let mut send_ctx = context(313, 313);
    let prepared =
        alice_manager.prepare_send_text(&mut send_ctx, bob.owner_pubkey, "newer".into())?;
    assert_eq!(
        prepared.invite_responses[0].recipient,
        newer.inviter_ephemeral_public_key
    );
    Ok(())
}

#[test]
fn stale_appkeys_replay_after_restore_does_not_resurrect_removed_device() -> Result<(), Error> {
    let alice = manager_device(67, 174, "alice-1");
    let bob = manager_device(68, 175, "bob-1");
    let mut alice_manager = session_manager(&alice);

    alice_manager.observe_peer_roster(
        bob.owner_pubkey,
        roster_for(&[&bob], 320));
    alice_manager.observe_peer_roster(bob.owner_pubkey, roster_for(&[], 321));

    let mut restored = restore_manager(alice_manager.snapshot(), alice.secret_key)?;
    assert_eq!(
        restored.observe_peer_roster(
            bob.owner_pubkey,
            roster_for(&[&bob], 320)),
        RosterSnapshotDecision::Stale
    );

    let snapshot = restored.snapshot();
    let bob_record = manager_device_snapshot(
        manager_user_snapshot(&snapshot, bob.owner_pubkey),
        bob.device_pubkey,
    );
    assert!(!bob_record.authorized);
    assert!(bob_record.is_stale);
    Ok(())
}

#[test]
fn older_or_incomplete_invite_does_not_erase_known_device_metadata() -> Result<(), Error> {
    let alice = manager_device(69, 176, "alice-1");
    let bob = manager_device(70, 177, "bob-1");
    let mut alice_manager = session_manager(&alice);

    alice_manager.observe_peer_roster(
        bob.owner_pubkey,
        roster_for(&[&bob], 330));

    let complete = custom_public_device_invite(&bob, 331, 331, Some(bob.device_id.clone()))?;
    let incomplete = custom_public_device_invite(&bob, 332, 100, None)?;
    observe_device_invites(
        &mut alice_manager,
        bob.owner_pubkey,
        &[complete.clone(), incomplete],
    )?;

    let snapshot = alice_manager.snapshot();
    let bob_record = manager_device_snapshot(
        manager_user_snapshot(&snapshot, bob.owner_pubkey),
        bob.device_pubkey,
    );
    assert_eq!(bob_record.device_id.as_ref(), Some(&bob.device_id));
    assert_eq!(
        bob_record
            .public_invite
            .as_ref()
            .expect("stored invite")
            .inviter_ephemeral_public_key,
        complete.inviter_ephemeral_public_key
    );
    Ok(())
}

#[test]
fn delayed_invite_response_for_superseded_bootstrap_does_not_corrupt_active_session() -> Result<(), Error>
{
    let alice = manager_device(71, 178, "alice-1");
    let bob = manager_device(72, 179, "bob-1");
    let mut alice_manager = session_manager(&alice);
    let mut bob_manager = session_manager(&bob);

    let public_alice_invite = public_local_invite(&mut alice_manager, &alice, 340, 340)?;
    let (_old_bob_session, old_response) = incoming_response_from_public_invite(
        &public_alice_invite,
        &bob,
        Some(bob.owner_pubkey),
        341,
        341,
    )?;
    alice_manager.observe_peer_roster(
        bob.owner_pubkey,
        roster_for(&[&bob], 342));
    alice_manager.observe_incoming_response(&mut context(343, 343), &old_response)?;

    let bob_invite = manager_public_device_invite(&mut bob_manager, &bob, 344, 344)?;
    alice_manager.observe_device_invite(bob.owner_pubkey, bob_invite)?;
    let fresh = alice_manager.prepare_send_text(
        &mut context(345, 345),
        bob.owner_pubkey,
        "fresh".into(),
    )?;
    assert_eq!(fresh.invite_responses.len(), 1);

    let mut restored = restore_manager(alice_manager.snapshot(), alice.secret_key)?;
    let before = debug(&restored.snapshot());
    let replay = restored.observe_incoming_response(&mut context(346, 346), &old_response);
    assert!(matches!(
        replay,
        Err(Error::Domain(DomainError::InviteAlreadyUsed))
    ));
    assert_eq!(debug(&restored.snapshot()), before);
    Ok(())
}

#[test]
fn delayed_message_from_old_session_after_rebootstrap_does_not_take_over_newer_active_session(
) -> Result<(), Error> {
    let alice = manager_device(73, 180, "alice-1");
    let bob = manager_device(74, 181, "bob-1");
    let mut alice_manager = session_manager(&alice);
    let mut bob_manager = session_manager(&bob);

    let public_alice_invite = public_local_invite(&mut alice_manager, &alice, 350, 350)?;
    let (mut old_bob_session, old_response) = incoming_response_from_public_invite(
        &public_alice_invite,
        &bob,
        Some(bob.owner_pubkey),
        351,
        351,
    )?;
    alice_manager.observe_incoming_response(&mut context(352, 352), &old_response)?;

    alice_manager.observe_peer_roster(
        bob.owner_pubkey,
        roster_for(&[&bob], 353));
    bob_manager.observe_peer_roster(
        alice.owner_pubkey,
        roster_for(&[&alice], 353));
    let bob_invite = manager_public_device_invite(&mut bob_manager, &bob, 354, 354)?;
    alice_manager.observe_device_invite(bob.owner_pubkey, bob_invite)?;

    let fresh = alice_manager.prepare_send_text(
        &mut context(355, 355),
        bob.owner_pubkey,
        "fresh".into(),
    )?;
    manager_observe_invite_response(
        &mut bob_manager,
        &mut context(356, 356),
        &fresh.invite_responses[0],
    )?;
    manager_receive_delivery(
        &mut bob_manager,
        &mut context(357, 357),
        alice.owner_pubkey,
        &fresh.deliveries[0],
    )?;

    let new_reply = bob_manager.prepare_send_text(
        &mut context(358, 358),
        alice.owner_pubkey,
        "new-reply".into(),
    )?;
    manager_receive_delivery(
        &mut alice_manager,
        &mut context(359, 359),
        bob.owner_pubkey,
        &new_reply.deliveries[0],
    )?;

    let before = alice_manager.snapshot();
    let before_record = manager_device_snapshot(
        manager_user_snapshot(&before, bob.owner_pubkey),
        bob.device_pubkey,
    )
    .active_session
    .clone();

    let delayed = send_message(
        &mut old_bob_session,
        &mut context(360, 360),
        DirectMessageContent::Text("old-delayed".into()),
    )?;
    let received = alice_manager
        .receive_incoming(
            &mut context(361, 361),
            bob.owner_pubkey,
            &delayed.incoming,
        )?
        .expect("alice should still decrypt delayed old-session message");
    assert_eq!(text_of(&received), "old-delayed");

    let after = alice_manager.snapshot();
    let after_record = manager_device_snapshot(
        manager_user_snapshot(&after, bob.owner_pubkey),
        bob.device_pubkey,
    );
    assert_eq!(debug(&after_record.active_session), debug(&before_record));
    assert!(!after_record.inactive_sessions.is_empty());
    Ok(())
}

#[test]
fn partial_restore_with_cached_invite_but_no_appkeys_still_surfaces_missing_appkeys_gap(
) -> Result<(), Error> {
    let alice = manager_device(75, 182, "alice-1");
    let bob = manager_device(76, 183, "bob-1");
    let mut alice_manager = session_manager(&alice);
    let mut bob_manager = session_manager(&bob);

    let bob_invite = manager_public_device_invite(&mut bob_manager, &bob, 370, 370)?;
    alice_manager.observe_device_invite(bob.owner_pubkey, bob_invite)?;

    let mut restored = restore_manager(alice_manager.snapshot(), alice.secret_key)?;
    let prepared = restored.prepare_send_text(
        &mut context(371, 371),
        bob.owner_pubkey,
        "gap".into(),
    )?;
    assert_eq!(
        prepared.relay_gaps,
        vec![RelayGap::MissingRoster {
            owner_pubkey: bob.owner_pubkey,
        }]
    );
    Ok(())
}

#[test]
fn pruned_stale_device_is_not_recreated_by_late_old_invite_observation_without_new_appkeys(
) -> Result<(), Error> {
    let alice = manager_device(77, 184, "alice-1");
    let bob = manager_device(78, 185, "bob-1");
    let mut alice_manager = session_manager(&alice);
    let mut bob_manager = session_manager(&bob);

    alice_manager.observe_peer_roster(
        bob.owner_pubkey,
        roster_for(&[&bob], 380));
    let bob_invite = manager_public_device_invite(&mut bob_manager, &bob, 381, 381)?;
    alice_manager.observe_device_invite(bob.owner_pubkey, bob_invite.clone())?;
    alice_manager.observe_peer_roster(bob.owner_pubkey, roster_for(&[], 382));
    let prune = alice_manager.prune_stale(after_latency(393, 10));
    assert_eq!(
        prune.removed_devices,
        vec![(bob.owner_pubkey, bob.device_pubkey)]
    );

    let before = debug(&alice_manager.snapshot());
    alice_manager.observe_device_invite(bob.owner_pubkey, bob_invite)?;
    assert_eq!(debug(&alice_manager.snapshot()), before);
    Ok(())
}

#[test]
fn double_restore_with_replayed_artifacts_remains_deterministic() -> Result<(), Error> {
    let alice = manager_device(79, 186, "alice-1");
    let bob = manager_device(80, 187, "bob-1");
    let mut alice_manager = session_manager(&alice);
    let mut bob_manager = session_manager(&bob);

    alice_manager.observe_peer_roster(
        bob.owner_pubkey,
        roster_for(&[&bob], 390));
    let bob_invite = manager_public_device_invite(&mut bob_manager, &bob, 391, 391)?;
    alice_manager.observe_device_invite(bob.owner_pubkey, bob_invite.clone())?;

    let public_alice_invite = public_local_invite(&mut alice_manager, &alice, 392, 392)?;
    let (_bob_session, incoming_response) = incoming_response_from_public_invite(
        &public_alice_invite,
        &bob,
        Some(bob.owner_pubkey),
        393,
        393,
    )?;
    alice_manager.observe_incoming_response(&mut context(394, 394), &incoming_response)?;

    let base_snapshot = alice_manager.snapshot();

    let mut restored_once = restore_manager(base_snapshot, alice.secret_key)?;
    let stale_replay = restored_once.observe_peer_roster(
        bob.owner_pubkey,
        roster_for(&[&bob], 389));
    assert_eq!(stale_replay, RosterSnapshotDecision::Stale);
    restored_once.observe_device_invite(bob.owner_pubkey, bob_invite.clone())?;
    let response_replay =
        restored_once.observe_incoming_response(&mut context(395, 395), &incoming_response);
    assert!(matches!(
        response_replay,
        Err(Error::Domain(DomainError::InviteAlreadyUsed))
    ));
    let after_first = restored_once.snapshot();

    let first_state = debug(&after_first);
    let mut restored_twice = restore_manager(after_first, alice.secret_key)?;
    let stale_replay = restored_twice.observe_peer_roster(
        bob.owner_pubkey,
        roster_for(&[&bob], 389));
    assert_eq!(stale_replay, RosterSnapshotDecision::Stale);
    restored_twice.observe_device_invite(bob.owner_pubkey, bob_invite)?;
    let response_replay =
        restored_twice.observe_incoming_response(&mut context(396, 396), &incoming_response);
    assert!(matches!(
        response_replay,
        Err(Error::Domain(DomainError::InviteAlreadyUsed))
    ));

    assert_eq!(debug(&restored_twice.snapshot()), first_state);
    Ok(())
}
