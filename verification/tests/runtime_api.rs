//! The callbacks of a host, and the effects that it drains.
use nostr_double_ratchet::codec::nostr::app_keys_unsigned_event;
use nostr_double_ratchet::event::{Event, UnsignedEvent};
use nostr_double_ratchet::v2::app_keys_api::AppKeysApi;
use nostr_double_ratchet::v2::app_keys_flow::APP_KEYS_STORAGE_KEY;
use nostr_double_ratchet::v2::runtime_api::{FfiDeviceEntry, NdrError, RuntimeApi};
use nostr_double_ratchet::{AppKeys, DeviceEntry, DevicePubkey, UnixSeconds};
use serde_json::Value;

fn event_json(event: &Event) -> String {
    let mut fields = serde_json::Map::new();
    let tags = event
        .tags
        .iter()
        .map(|tag| Value::Array(tag.iter().map(|text| Value::String(text.clone())).collect()))
        .collect();
    fields.insert("id".to_string(), Value::String(event.id.clone()));
    fields.insert("pubkey".to_string(), Value::String(event.pubkey.to_hex()));
    fields.insert("created_at".to_string(), Value::from(event.created_at.0));
    fields.insert("kind".to_string(), Value::from(event.kind));
    fields.insert("tags".to_string(), Value::Array(tags));
    fields.insert("content".to_string(), Value::String(event.content.clone()));
    fields.insert("sig".to_string(), Value::String(event.sig.clone()));
    Value::Object(fields).to_string()
}

fn text_note() -> String {
    let secret = [61u8; 32];
    let unsigned = UnsignedEvent {
        pubkey: DevicePubkey::from_secret_bytes(&secret).unwrap(),
        created_at: UnixSeconds(1_700_000_000),
        kind: 1,
        tags: Vec::new(),
        content: "hello".to_string(),
    };
    event_json(&unsigned.sign_with_secret(&secret).expect("event signing should succeed"))
}

fn app_keys_note(owner_secret: [u8; 32], device: DevicePubkey, created_at: u64) -> String {
    let app_keys = AppKeys::new(vec![DeviceEntry {
        identity_pubkey: device,
        created_at: UnixSeconds(created_at),
    }]);
    let owner = DevicePubkey::from_secret_bytes(&owner_secret).unwrap().as_owner();
    let signed = app_keys_unsigned_event(owner, UnixSeconds(1_700_000_000), &app_keys)
        .unwrap()
        .sign_with_secret(&owner_secret)
        .expect("app-keys event signing should succeed");
    event_json(&signed)
}

#[test]
fn start_requires_runtime_start() {
    let runtime = RuntimeApi::new();
    let mut app_keys = AppKeysApi::new_with_runtime(runtime);
    let err = app_keys.start().expect_err("start should fail before RuntimeApi.start()");
    match err {
        NdrError::StateMismatch(msg) => {
            assert!(msg.contains("start"), "unexpected message: {msg}")
        }
        _ => panic!("unexpected error type"),
    }
}

#[test]
fn add_and_get_device_after_initialization() {
    let mut runtime = RuntimeApi::new();
    runtime.start();
    let mut app_keys = AppKeysApi::new_with_runtime(runtime);

    app_keys.start().expect("start should succeed");
    app_keys
        .runtime()
        .on_storage_read_result(
            "corr-read-0".to_string(),
            APP_KEYS_STORAGE_KEY.to_string(),
            None,
            None,
        )
        .expect("initialization callback should succeed");

    let device_hex = DevicePubkey::from_secret_bytes(&[62u8; 32]).unwrap().to_hex();
    app_keys.add_device(device_hex.clone(), 42).expect("add device should succeed");

    let loaded = app_keys
        .get_device(device_hex.clone())
        .expect("get should succeed")
        .expect("device should exist");
    assert_eq!(loaded.identity_pubkey_hex, device_hex);
    assert_eq!(loaded.created_at, 42);

    let listed = app_keys.list_devices().expect("list should succeed");
    assert_eq!(listed.len(), 1);
    assert_eq!(listed[0].identity_pubkey_hex, device_hex);

    let effects = app_keys.runtime().drain_effects();
    assert!(
        effects.iter().any(|effect| effect.kind == "runtime.storage.write_request"),
        "add should emit storage write request"
    );
    assert!(
        effects.iter().any(|effect| effect.kind == "runtime.app_keys.device_added"),
        "add should emit device-added notification"
    );
}

#[test]
fn merge_and_publish_unsigned_emit_expected_effects() {
    let mut runtime = RuntimeApi::new();
    runtime.start();
    let mut app_keys = AppKeysApi::new_with_runtime(runtime);

    app_keys.start().expect("start should succeed");
    app_keys
        .runtime()
        .on_storage_read_result(
            "corr-read-0".to_string(),
            APP_KEYS_STORAGE_KEY.to_string(),
            None,
            None,
        )
        .expect("initialization callback should succeed");

    let owner_secret = [63u8; 32];
    let device_pubkey = DevicePubkey::from_secret_bytes(&[64u8; 32]).unwrap();

    app_keys
        .merge_from_event_json(app_keys_note(owner_secret, device_pubkey, 7))
        .expect("merge should succeed");
    let owner_hex = DevicePubkey::from_secret_bytes(&owner_secret).unwrap().to_hex();
    app_keys
        .publish_unsigned(owner_hex, UnixSeconds(1_700_000_001))
        .expect("publish unsigned should succeed");

    let listed = app_keys.list_devices().expect("list should succeed");
    assert!(
        listed.iter().any(|entry| entry.identity_pubkey_hex == device_pubkey.to_hex()),
        "merged device should be visible through API"
    );

    let effects = app_keys.runtime().drain_effects();
    assert!(
        effects
            .iter()
            .any(|effect| effect.kind == "runtime.app_keys.app_keys_merged_from_event"),
        "merge should emit merged notification"
    );
    assert!(
        effects.iter().any(|effect| effect.kind == "runtime.nostr.publish_unsigned"),
        "publish should emit runtime publish effect"
    );
}

#[test]
fn callbacks_require_start() {
    let mut api = RuntimeApi::new();
    let err = api
        .on_subscription_opened("req-1".to_string(), "sub-1".to_string())
        .expect_err("callbacks should reject calls before start");
    match err {
        NdrError::StateMismatch(msg) => {
            assert!(msg.contains("start"), "unexpected message: {msg}")
        }
        _ => panic!("unexpected error type"),
    }
}

#[test]
fn drains_effects_in_fifo_order() {
    let mut api = RuntimeApi::new();
    api.start();
    api.on_subscription_opened("app_keys:req-1".to_string(), "sub-1".to_string())
        .expect("open callback should succeed");

    api.on_nostr_event("sub-1".to_string(), text_note())
        .expect("event callback should succeed");

    let effects = api.drain_effects();
    let kinds = effects.iter().map(|effect| effect.kind.as_str()).collect::<Vec<_>>();
    assert_eq!(
        kinds,
        vec![
            "runtime.started",
            "runtime.nostr.subscription_opened",
            "runtime.nostr.event_routed",
        ]
    );

    assert!(api.drain_effects().is_empty(), "drain should clear the queue");
}

#[test]
fn unrouted_sub_id_emits_unrouted_effect() {
    let mut api = RuntimeApi::new();
    api.start();

    api.on_nostr_event("sub-missing".to_string(), text_note())
        .expect("callback should not error for unrouted sub_id");

    let effects = api.drain_effects();
    let last = effects.last().expect("expected at least one effect after start + event");
    assert_eq!(last.kind, "runtime.nostr.unrouted_event");
    assert_eq!(last.success, Some(false));
}

#[test]
fn app_keys_start_emits_storage_read_request() {
    let mut api = RuntimeApi::new();
    api.start();

    api.app_keys_start().expect("app keys start should succeed");

    let effects = api.drain_effects();
    assert!(
        effects.iter().any(|effect| effect.kind == "runtime.storage.read_request"),
        "expected a storage read request effect"
    );
}

#[test]
fn routed_app_keys_event_updates_state_and_emits_storage_write_request() {
    let mut api = RuntimeApi::new();
    api.start();

    api.app_keys_start().expect("app keys start should succeed");
    api.on_storage_read_result(
        "corr-read-0".to_string(),
        APP_KEYS_STORAGE_KEY.to_string(),
        None,
        None,
    )
    .expect("app keys initialization read callback should succeed");

    api.on_subscription_opened("app_keys:req-1".to_string(), "sub-1".to_string())
        .expect("open callback should succeed");

    let device_pk = DevicePubkey::from_secret_bytes(&[65u8; 32]).unwrap();
    api.on_nostr_event("sub-1".to_string(), app_keys_note([66u8; 32], device_pk, 11))
        .expect("event callback should succeed");

    let loaded = api
        .app_keys_get_device(device_pk.to_hex())
        .expect("lookup should succeed");
    assert!(loaded.is_some(), "routed app-keys event should update state");

    let effects = api.drain_effects();
    assert!(
        effects.iter().any(|effect| effect.kind == "runtime.storage.write_request"),
        "expected storage write request from merged app-keys state"
    );
    assert!(
        effects
            .iter()
            .any(|effect| effect.kind == "runtime.app_keys.app_keys_merged_from_event"),
        "expected app-keys merge notification"
    );
}

#[test]
fn an_event_that_is_none_is_refused() {
    let mut api = RuntimeApi::new();
    api.start();
    let err = api.on_nostr_event("sub-1".to_string(), "{}".to_string()).unwrap_err();
    assert!(matches!(err, NdrError::InvalidEvent(_)));
    let err = api.app_keys_add_device("zz".to_string(), 1).unwrap_err();
    assert!(matches!(err, NdrError::InvalidKey(_)));
}

fn opened_app_keys() -> RuntimeApi {
    let mut api = RuntimeApi::new();
    api.start();
    api.app_keys_start().unwrap();
    api.on_storage_read_result(
        "corr".to_string(),
        APP_KEYS_STORAGE_KEY.to_string(),
        None,
        None,
    )
    .unwrap();
    api.drain_effects();
    api
}

#[test]
fn results_of_the_host_are_passed_on() {
    let mut api = opened_app_keys();
    api.on_publish_result("corr-1".to_string(), false, Some("no relay".to_string())).unwrap();
    api.on_storage_write_result("corr-2".to_string(), "elsewhere".to_string(), true, None)
        .unwrap();
    api.on_storage_delete_result("corr-3".to_string(), "elsewhere".to_string(), true, None)
        .unwrap();
    let effects = api.drain_effects();
    let published = effects
        .iter()
        .find(|effect| effect.kind == "runtime.nostr.publish_result")
        .unwrap();
    assert_eq!(published.correlation_id.as_deref(), Some("corr-1"));
    assert_eq!(published.success, Some(false));
    assert_eq!(published.error.as_deref(), Some("no relay"));
    let written = effects
        .iter()
        .find(|effect| effect.kind == "runtime.storage.write_result")
        .unwrap();
    assert_eq!(written.key.as_deref(), Some("elsewhere"));
    assert_eq!(written.success, Some(true));
    let acknowledged = effects
        .iter()
        .find(|effect| effect.kind == "runtime.app_keys.storage_write_acknowledged")
        .unwrap();
    assert_eq!(
        acknowledged.value.as_deref(),
        Some("StorageWriteAcknowledged { key: \"elsewhere\" }")
    );
    assert_eq!(effects.last().unwrap().kind, "runtime.storage.delete_result");
    assert_eq!(effects.last().unwrap().correlation_id.as_deref(), Some("corr-3"));
}

#[test]
fn a_closed_subscription_routes_nothing() {
    let mut api = opened_app_keys();
    api.on_subscription_opened("app_keys:req-1".to_string(), "sub-1".to_string()).unwrap();
    api.on_subscription_closed("sub-1".to_string()).unwrap();
    api.on_nostr_event("sub-1".to_string(), text_note()).unwrap();
    let kinds = api.drain_effects().into_iter().map(|effect| effect.kind).collect::<Vec<_>>();
    assert_eq!(
        kinds,
        vec![
            "runtime.nostr.subscription_opened",
            "runtime.nostr.subscription_closed",
            "runtime.nostr.unrouted_event",
        ]
    );
}

#[test]
fn device_lists_are_set_merged_and_published() {
    let mut api = opened_app_keys();
    let first = DevicePubkey::from_secret_bytes(&[71u8; 32]).unwrap();
    let second = DevicePubkey::from_secret_bytes(&[72u8; 32]).unwrap();
    api.app_keys_set_devices(vec![FfiDeviceEntry {
        identity_pubkey_hex: first.to_hex(),
        created_at: 5,
    }])
    .unwrap();
    api.app_keys_merge_from_event_json(app_keys_note([73u8; 32], second, 6)).unwrap();
    let mut listed = api
        .app_keys_list_devices()
        .unwrap()
        .into_iter()
        .map(|entry| (entry.identity_pubkey_hex, entry.created_at))
        .collect::<Vec<_>>();
    listed.sort();
    let mut expected = vec![(first.to_hex(), 5), (second.to_hex(), 6)];
    expected.sort();
    assert_eq!(listed, expected);

    api.app_keys_remove_device(first.to_hex()).unwrap();
    let told = api.drain_effects();
    let told = told
        .iter()
        .filter(|effect| effect.kind.starts_with("runtime.app_keys."))
        .map(|effect| effect.value.clone().unwrap())
        .collect::<Vec<_>>();
    assert_eq!(
        told,
        vec![
            "AppKeysSet".to_string(),
            "AppKeysMergedFromEvent".to_string(),
            format!("DeviceRemoved {{ identity_pubkey: PublicKey({}) }}", first.to_hex()),
        ]
    );
    assert!(api.app_keys_get_device(first.to_hex()).unwrap().is_none());
    let owner = DevicePubkey::from_secret_bytes(&[73u8; 32]).unwrap().to_hex();
    api.app_keys_publish_unsigned(owner, UnixSeconds(9)).unwrap();
    let effects = api.drain_effects();
    let published = effects
        .iter()
        .find(|effect| effect.kind == "runtime.nostr.publish_unsigned")
        .unwrap();
    let text = published.event_json.as_ref().unwrap();
    assert!(text.contains(&second.to_hex()));
    assert!(!text.contains(&first.to_hex()));
}

#[test]
fn device_lists_that_are_none_are_refused() {
    let mut api = opened_app_keys();
    let refused = api
        .app_keys_set_devices(vec![FfiDeviceEntry {
            identity_pubkey_hex: "zz".to_string(),
            created_at: 5,
        }])
        .unwrap_err();
    assert!(matches!(refused, NdrError::InvalidKey(_)));
    let refused = api.app_keys_remove_device("zz".to_string()).unwrap_err();
    assert!(matches!(refused, NdrError::InvalidKey(_)));
    let refused = api.app_keys_merge_from_event_json("{}".to_string()).unwrap_err();
    assert!(matches!(refused, NdrError::InvalidEvent(_)));
    let refused = api
        .app_keys_publish_unsigned("zz".to_string(), UnixSeconds(9))
        .unwrap_err();
    assert!(matches!(refused, NdrError::InvalidKey(_)));
    assert!(api.drain_effects().is_empty());
}
