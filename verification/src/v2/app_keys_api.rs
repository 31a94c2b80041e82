//! The devices of the local owner as the surroundings ask for them.
use vstd::prelude::*;
use crate::app_keys::{AppKeysModel, DeviceEntry};
use crate::collections::ordered_values;
use crate::encoding::hex_key;
use crate::event::event_parsed;
use crate::ids::{DevicePubkey, OwnerPubkey, UnixSeconds};
use crate::v2::app_keys_flow::InputModel;
use crate::v2::runtime_api::{
    entries_of, ffi_entries, ffi_entry, fresh_runtime, guarded, ndr_fault, not_started,
    FfiDeviceEntry, NdrError, NdrFault, RuntimeApi, RuntimeModel,
};

verus! {

/// The devices, with the service that keeps them.
pub struct AppKeysApi {
    runtime: RuntimeApi,
}

impl View for AppKeysApi {
    type V = RuntimeModel;

    closed spec fn view(&self) -> RuntimeModel {
        self.runtime@
    }
}

/// Whether a key that is none was refused.
pub open spec fn refuses_key(before: RuntimeModel, after: RuntimeModel, r: Result<(), NdrError>) -> bool {
    after == before && (r matches Err(e) && (if before.started {
        ndr_fault(e) == NdrFault::InvalidKey
    } else {
        not_started(e)
    }))
}

impl AppKeysApi {
    pub fn new() -> (r: Self)
        ensures
            r@ == fresh_runtime(),
    {
        AppKeysApi { runtime: RuntimeApi::new() }
    }

    pub fn new_with_runtime(runtime: RuntimeApi) -> (r: Self)
        ensures
            r@ == runtime@,
    {
        AppKeysApi { runtime }
    }

    /// The service.
    pub fn runtime(&mut self) -> (r: &mut RuntimeApi)
        ensures
            r@ == old(self)@,
            final(self)@ == final(r)@,
    {
        &mut self.runtime
    }

    pub fn start(&mut self) -> (r: Result<(), NdrError>)
        ensures
            guarded(old(self)@, final(self)@, InputModel::Start, r),
    {
        self.runtime.app_keys_start()
    }

    pub fn set_devices(&mut self, devices: Vec<FfiDeviceEntry>) -> (r: Result<(), NdrError>)
        ensures
            match entries_of(devices@) {
                Some(list) => guarded(
                    old(self)@,
                    final(self)@,
                    InputModel::SetKeys(
                        AppKeysModel { devices: crate::app_keys::listed(list), labels: Map::empty() },
                    ),
                    r,
                ),
                None => refuses_key(old(self)@, final(self)@, r),
            },
    {
        self.runtime.app_keys_set_devices(devices)
    }

    pub fn add_device(&mut self, identity_pubkey_hex: String, created_at: u64) -> (r: Result<
        (),
        NdrError,
    >)
        ensures
            match hex_key(identity_pubkey_hex@) {
                Some(key) => guarded(
                    old(self)@,
                    final(self)@,
                    InputModel::Add(
                        DeviceEntry {
                            identity_pubkey: DevicePubkey(key),
                            created_at: UnixSeconds(created_at),
                        },
                    ),
                    r,
                ),
                None => refuses_key(old(self)@, final(self)@, r),
            },
    {
        self.runtime.app_keys_add_device(identity_pubkey_hex, created_at)
    }

    pub fn remove_device(&mut self, identity_pubkey_hex: String) -> (r: Result<(), NdrError>)
        ensures
            match hex_key(identity_pubkey_hex@) {
                Some(key) => guarded(
                    old(self)@,
                    final(self)@,
                    InputModel::Remove(DevicePubkey(key)),
                    r,
                ),
                None => refuses_key(old(self)@, final(self)@, r),
            },
    {
        self.runtime.app_keys_remove_device(identity_pubkey_hex)
    }

    pub fn merge_from_event_json(&mut self, event_json: String) -> (r: Result<(), NdrError>)
        ensures
            match event_parsed(event_json@) {
                Some(event) => guarded(old(self)@, final(self)@, InputModel::Event(event), r),
                None => final(self)@ == old(self)@ && (r matches Err(e) && (if old(self)@.started {
                    ndr_fault(e) == NdrFault::InvalidEvent
                } else {
                    not_started(e)
                })),
            },
    {
        self.runtime.app_keys_merge_from_event_json(event_json)
    }

    pub fn publish_unsigned(&mut self, owner_pubkey_hex: String, now: UnixSeconds) -> (r: Result<
        (),
        NdrError,
    >)
        ensures
            match hex_key(owner_pubkey_hex@) {
                Some(key) => guarded(
                    old(self)@,
                    final(self)@,
                    InputModel::Publish(OwnerPubkey(key), now),
                    r,
                ),
                None => refuses_key(old(self)@, final(self)@, r),
            },
    {
        self.runtime.app_keys_publish_unsigned(owner_pubkey_hex, now)
    }

    pub fn list_devices(&self) -> (r: Result<Vec<FfiDeviceEntry>, NdrError>)
        ensures
            r is Ok == self@.started,
            r matches Err(e) ==> not_started(e),
            r matches Ok(devices) ==> ffi_entries(devices@) == ordered_values::<
                DevicePubkey,
                DeviceEntry,
            >(self@.flow.keys.devices).map_values(|d: DeviceEntry| ffi_entry(d)),
    {
        self.runtime.app_keys_list_devices()
    }

    pub fn get_device(&self, identity_pubkey_hex: String) -> (r: Result<
        Option<FfiDeviceEntry>,
        NdrError,
    >)
        ensures
            match r {
                Ok(found) => {
                    &&& self@.started
                    &&& hex_key(identity_pubkey_hex@) is Some
                    &&& match found {
                        Some(device) => {
                            let k = DevicePubkey(hex_key(identity_pubkey_hex@)->Some_0);
                            self@.flow.keys.devices.contains_key(k) && device@ == ffi_entry(
                                self@.flow.keys.devices[k],
                            )
                        },
                        None => !self@.flow.keys.devices.contains_key(
                            DevicePubkey(hex_key(identity_pubkey_hex@)->Some_0),
                        ),
                    }
                },
                Err(e) => if self@.started {
                    hex_key(identity_pubkey_hex@) is None && ndr_fault(e) == NdrFault::InvalidKey
                } else {
                    not_started(e)
                },
            },
    {
        self.runtime.app_keys_get_device(identity_pubkey_hex)
    }
}

} // verus!
