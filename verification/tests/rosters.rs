//! Rosters, device lists and keys.
use nostr_double_ratchet::roster::apply_roster_snapshot;
use nostr_double_ratchet::{
    AppKeys, AuthorizedDevice, CodecError, DeviceEntry, DevicePubkey, DeviceRoster, DomainError,
    Error, OwnerPubkey, RosterEditor, RosterSnapshotDecision, SessionManager, UnixSeconds,
};

fn device(fill: u8) -> DevicePubkey {
    DevicePubkey::from_secret_bytes(&[fill; 32]).unwrap()
}

fn entry(fill: u8, at: u64) -> AuthorizedDevice {
    AuthorizedDevice::new(device(fill), UnixSeconds(at))
}

#[test]
fn an_editor_builds_rosters() {
    let mut editor = RosterEditor::new();
    editor.authorize_device(device(1), UnixSeconds(10));
    editor.authorize_device(device(2), UnixSeconds(20));
    editor.authorize_device(device(1), UnixSeconds(5));
    let roster = editor.build(UnixSeconds(30));
    assert_eq!(roster.created_at(), UnixSeconds(30));
    assert_eq!(roster.get_device(&device(1)).unwrap().created_at, UnixSeconds(5));
    let mut editor = RosterEditor::from_roster(&roster);
    editor.revoke_device(&device(1));
    let next = editor.build(UnixSeconds(31));
    assert_eq!(next.devices().len(), 1);
    assert!(next.get_device(&device(1)).is_none());
}

#[test]
fn rosters_never_go_back_here() {
    let current = Some(DeviceRoster::new(UnixSeconds(10), vec![entry(1, 1)]));
    let older = DeviceRoster::new(UnixSeconds(9), vec![entry(2, 2)]);
    let (decision, next) = apply_roster_snapshot(&current, &older);
    assert_eq!(decision, RosterSnapshotDecision::Stale);
    assert!(next.get_device(&device(1)).is_some());
    let same = DeviceRoster::new(UnixSeconds(10), vec![entry(2, 2)]);
    let (decision, next) = apply_roster_snapshot(&current, &same);
    assert_eq!(decision, RosterSnapshotDecision::MergedEqualTimestamp);
    assert_eq!(next.devices().len(), 2);
    let (decision, _) = apply_roster_snapshot(&None, &older);
    assert_eq!(decision, RosterSnapshotDecision::Advanced);
    let left = format!("{:?}", same.merge(&older).devices());
    assert_eq!(left, format!("{:?}", older.merge(&same).devices()));
}

#[test]
fn device_lists_are_merged_and_read_back() {
    let mut a = AppKeys::new(vec![DeviceEntry::new(device(1), 10)]);
    let b = AppKeys::new(vec![DeviceEntry::new(device(1), 5), DeviceEntry::new(device(2), 7)]);
    let merged = a.merge(&b);
    assert_eq!(merged.get_device(&device(1)).unwrap().created_at, UnixSeconds(5));
    assert!(merged.same(&b.merge(&a)));
    assert!(merged.merge(&merged).same(&merged));
    a.set_device_labels(device(1), Some("Desk".to_string()), None, UnixSeconds(3));
    let read = AppKeys::deserialize(&a.serialize().unwrap()).unwrap();
    assert!(read.same(&a));
    assert_eq!(
        read.get_device_labels(&device(1)).unwrap().device_label.as_deref(),
        Some("Desk")
    );
    assert!(matches!(AppKeys::deserialize("[]"), Err(Error::Parse(_))));
    a.remove_device(&device(1));
    assert!(a.get_device(&device(1)).is_none());
}

#[test]
fn keys_are_written_in_digits() {
    let key = device(1);
    assert_eq!(
        key.to_hex(),
        "1b84c5567b126440995d3ed5aaba0565d71e1834604819ff9c17f5e9d5dd078f"
    );
    assert_eq!(DevicePubkey::parse_hex(&key.to_hex()).unwrap(), key);
    assert_eq!(OwnerPubkey::parse_hex(&key.to_hex()).unwrap(), key.as_owner());
    assert_eq!(key.as_owner().as_device(), key);
    assert!(DevicePubkey::parse_hex("12").is_err());
    assert!(matches!(DevicePubkey::from_secret_bytes(&[0; 32]), Err(Error::NostrKey(_))));
}

#[test]
fn errors_say_what_is_wrong() {
    assert_eq!(
        Error::Domain(DomainError::TooManySkippedMessages).text(),
        "too many skipped messages"
    );
    assert_eq!(
        Error::Domain(DomainError::InvalidState("x".to_string())).text(),
        "invalid state: x"
    );
    assert_eq!(Error::Parse("x".to_string()).text(), "parse error: x");
    assert_eq!(Error::NostrKey("x".to_string()).text(), "x");
    assert_eq!(Error::Codec(CodecError::InvalidHeader).text(), "invalid header");
}

#[test]
fn a_roster_that_comes_too_late_changes_nothing() {
    let owner = device(1).as_owner();
    let mut manager = SessionManager::new(owner, [2; 32], None);
    let peer = device(3).as_owner();
    let newer = DeviceRoster::new(UnixSeconds(20), vec![entry(4, 5), entry(5, 6)]);
    assert_eq!(manager.observe_peer_roster(peer, newer), RosterSnapshotDecision::Advanced);
    let before = format!("{:?}", manager.snapshot());
    let older = DeviceRoster::new(UnixSeconds(10), vec![entry(6, 1)]);
    assert_eq!(manager.observe_peer_roster(peer, older), RosterSnapshotDecision::Stale);
    assert_eq!(format!("{:?}", manager.snapshot()), before);

    let next = DeviceRoster::new(UnixSeconds(30), vec![entry(5, 6)]);
    assert_eq!(manager.observe_peer_roster(peer, next), RosterSnapshotDecision::Advanced);
    let user = manager.snapshot().users.remove(0);
    for record in &user.devices {
        let listed = record.device_pubkey == device(5);
        assert_eq!(record.authorized, listed);
        assert_eq!(record.is_stale, !listed);
        assert_eq!(record.stale_since, if listed { None } else { Some(UnixSeconds(30)) });
    }
    let pruned = manager.prune_stale(UnixSeconds(30 + 604_800 + 1));
    assert_eq!(pruned.removed_devices, vec![(peer, device(4))]);
    assert!(manager.prune_stale(UnixSeconds(30 + 604_800 + 1)).removed_devices.is_empty());
}
