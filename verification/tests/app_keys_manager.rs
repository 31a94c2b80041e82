//! The devices of an owner, and which of them are trusted.
use nostr_double_ratchet::v2::app_keys_manager::{AppKeysManager, StorageWrite};
use nostr_double_ratchet::{AppKeys, DeviceEntry, DevicePubkey, UnixSeconds};
use std::collections::BTreeMap;

fn make_pubkey() -> DevicePubkey {
    DevicePubkey::from_secret_bytes(&[51u8; 32]).unwrap()
}

fn put(storage: &mut BTreeMap<String, String>, write: StorageWrite) {
    storage.insert(write.key, write.value);
}

fn start(storage: &BTreeMap<String, String>) -> AppKeysManager {
    let mut manager = AppKeysManager::new();
    manager.start(
        storage.get(nostr_double_ratchet::v2::app_keys_manager::APP_KEYS_KEY).cloned(),
        storage.get(nostr_double_ratchet::v2::app_keys_manager::TRUSTED_DEVICES_KEY).cloned(),
    );
    manager
}

#[test]
fn update_device_key_replaces_existing_entry() {
    let mut manager = start(&BTreeMap::new());

    let pk = make_pubkey();
    manager
        .add_device_key(DeviceEntry { identity_pubkey: pk, created_at: UnixSeconds(1) })
        .expect("initial add should succeed");
    manager
        .update_device_key(DeviceEntry { identity_pubkey: pk, created_at: UnixSeconds(2) })
        .expect("update should succeed");

    let entry = manager.get_device_key(&pk).expect("device should exist after update");
    assert_eq!(entry.created_at, UnixSeconds(2));
}

#[test]
fn trusted_state_persists_and_is_pruned_on_removal() {
    let mut storage = BTreeMap::new();
    let pk = make_pubkey();

    let mut manager = start(&storage);
    let write = manager
        .add_device_key(DeviceEntry { identity_pubkey: pk, created_at: UnixSeconds(42) })
        .expect("add should succeed");
    put(&mut storage, write);
    let write = manager.trust_device_key(&pk).expect("trust should succeed for existing key");
    put(&mut storage, write);

    let mut reloaded = start(&storage);
    assert!(reloaded.is_device_key_trusted(&pk));

    reloaded.remove_device_key(&pk).expect("remove should succeed");
    assert!(!reloaded.is_device_key_trusted(&pk));
    assert!(reloaded.get_device_key(&pk).is_none());
}

#[test]
fn trust_ends_with_revocation_and_with_the_device() {
    let mut manager = start(&BTreeMap::new());
    let first = make_pubkey();
    let second = DevicePubkey::from_secret_bytes(&[52u8; 32]).unwrap();
    for (pubkey, at) in [(first, 1), (second, 2)] {
        manager
            .add_device_key(DeviceEntry { identity_pubkey: pubkey, created_at: UnixSeconds(at) })
            .unwrap();
        manager.trust_device_key(&pubkey).unwrap();
    }
    assert_eq!(manager.list_device_keys().len(), 2);
    assert_eq!(manager.get_app_keys().get_all_devices().len(), 2);
    assert!(manager.get_app_keys().get_all_device_labels().is_empty());

    manager.revoke_device_key(&first).unwrap();
    assert!(!manager.is_device_key_trusted(&first));
    assert!(manager.is_device_key_trusted(&second));

    manager
        .set_app_keys(AppKeys::new(vec![DeviceEntry {
            identity_pubkey: first,
            created_at: UnixSeconds(3),
        }]))
        .unwrap();
    assert!(!manager.is_device_key_trusted(&second));
    assert_eq!(manager.get_device_key(&first).unwrap().created_at, UnixSeconds(3));
    assert!(manager.trust_device_key(&second).is_err());
    let event = manager.publish(first.as_owner(), UnixSeconds(4)).unwrap();
    assert_eq!(event.kind, 30078);
    manager.close();
    assert_eq!(manager.list_device_keys().len(), 1);
}
