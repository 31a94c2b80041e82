//! The devices of the local owner as steps from inputs to effects: nothing is
//! stored or sent here, it is only asked for.
use vstd::prelude::*;
use crate::app_keys::{
    app_keys_json, app_keys_of, listed, merged, AppKeys, AppKeysModel, DeviceEntry,
};
use crate::codec::nostr::{
    app_keys_unsigned_event, device_list_event, device_list_of, parse_app_keys_event,
};
use crate::error::{fault, Error, Fault};
use crate::event::{Event, EventBody, SignedBody, UnsignedEvent};
use crate::ids::{DevicePubkey, OwnerPubkey, UnixSeconds};
use crate::json::json_text;
use crate::order::same_str;

verus! {

/// Where the devices are stored.
pub const APP_KEYS_STORAGE_KEY: &'static str = "v2/app-keys-manager/app-keys";

/// How far the devices are read from storage.
#[derive(Debug, Clone, Copy, PartialEq, Eq, Structural)]
pub enum AppKeysPhase {
    NotStarted,
    Initializing,
    Ready,
}

#[derive(Debug)]
pub enum AppKeysInput {
    Start,
    StorageReadResult { key: String, value: Option<String>, error: Option<String> },
    StorageWriteResult { key: String, success: bool, error: Option<String> },
    StorageDeleteResult { key: String, success: bool, error: Option<String> },
    SetAppKeys { app_keys: AppKeys },
    AddDeviceKey { device: DeviceEntry },
    RemoveDeviceKey { identity_pubkey: DevicePubkey },
    ApplyAppKeysEvent { event: Event },
    PublishAppKeys { owner_pubkey: OwnerPubkey, now: UnixSeconds },
}

#[derive(Debug)]
pub enum AppKeysNotification {
    Started,
    Initialized,
    StartIgnoredAlreadyInitializing,
    StartIgnoredAlreadyInitialized,
    InputIgnoredNotStarted,
    InputIgnoredStillInitializing,
    DeviceAdded { identity_pubkey: DevicePubkey },
    DeviceAddIgnoredAlreadyExists { identity_pubkey: DevicePubkey },
    DeviceRemoved { identity_pubkey: DevicePubkey },
    DeviceRemoveIgnoredMissing { identity_pubkey: DevicePubkey },
    AppKeysSet,
    AppKeysMergedFromEvent,
    AppKeysEventIgnoredNoStateChange,
    StorageReadApplied { key: String },
    StorageReadIgnoredUnknownKey { key: String },
    StorageReadFailed { key: String, error: String },
    StorageWriteAcknowledged { key: String },
    StorageDeleteAcknowledged { key: String },
    PublishRequested,
}

#[derive(Debug)]
pub enum AppKeysEffect {
    RequestStorageRead { key: String },
    RequestStorageWrite { key: String, value: String },
    RequestStorageDelete { key: String },
    RequestPublishUnsigned { event: UnsignedEvent },
    Notify(AppKeysNotification),
}

/// What a notification says.
#[verifier::ext_equal]
pub enum NotificationModel {
    Started,
    Initialized,
    StartIgnoredAlreadyInitializing,
    StartIgnoredAlreadyInitialized,
    InputIgnoredNotStarted,
    InputIgnoredStillInitializing,
    DeviceAdded(DevicePubkey),
    DeviceAddIgnoredAlreadyExists(DevicePubkey),
    DeviceRemoved(DevicePubkey),
    DeviceRemoveIgnoredMissing(DevicePubkey),
    AppKeysSet,
    AppKeysMergedFromEvent,
    AppKeysEventIgnoredNoStateChange,
    StorageReadApplied(Seq<char>),
    StorageReadIgnoredUnknownKey(Seq<char>),
    StorageReadFailed(Seq<char>, Seq<char>),
    StorageWriteAcknowledged(Seq<char>),
    StorageDeleteAcknowledged(Seq<char>),
    PublishRequested,
}

impl View for AppKeysNotification {
    type V = NotificationModel;

    open spec fn view(&self) -> NotificationModel {
        match *self {
            AppKeysNotification::Started => NotificationModel::Started,
            AppKeysNotification::Initialized => NotificationModel::Initialized,
            AppKeysNotification::StartIgnoredAlreadyInitializing =>
                NotificationModel::StartIgnoredAlreadyInitializing,
            AppKeysNotification::StartIgnoredAlreadyInitialized =>
                NotificationModel::StartIgnoredAlreadyInitialized,
            AppKeysNotification::InputIgnoredNotStarted => NotificationModel::InputIgnoredNotStarted,
            AppKeysNotification::InputIgnoredStillInitializing =>
                NotificationModel::InputIgnoredStillInitializing,
            AppKeysNotification::DeviceAdded { identity_pubkey } => NotificationModel::DeviceAdded(
                identity_pubkey,
            ),
            AppKeysNotification::DeviceAddIgnoredAlreadyExists { identity_pubkey } =>
                NotificationModel::DeviceAddIgnoredAlreadyExists(identity_pubkey),
            AppKeysNotification::DeviceRemoved { identity_pubkey } =>
                NotificationModel::DeviceRemoved(identity_pubkey),
            AppKeysNotification::DeviceRemoveIgnoredMissing { identity_pubkey } =>
                NotificationModel::DeviceRemoveIgnoredMissing(identity_pubkey),
            AppKeysNotification::AppKeysSet => NotificationModel::AppKeysSet,
            AppKeysNotification::AppKeysMergedFromEvent => NotificationModel::AppKeysMergedFromEvent,
            AppKeysNotification::AppKeysEventIgnoredNoStateChange =>
                NotificationModel::AppKeysEventIgnoredNoStateChange,
            AppKeysNotification::StorageReadApplied { key } =>
                NotificationModel::StorageReadApplied(key@),
            AppKeysNotification::StorageReadIgnoredUnknownKey { key } =>
                NotificationModel::StorageReadIgnoredUnknownKey(key@),
            AppKeysNotification::StorageReadFailed { key, error } =>
                NotificationModel::StorageReadFailed(key@, error@),
            AppKeysNotification::StorageWriteAcknowledged { key } =>
                NotificationModel::StorageWriteAcknowledged(key@),
            AppKeysNotification::StorageDeleteAcknowledged { key } =>
                NotificationModel::StorageDeleteAcknowledged(key@),
            AppKeysNotification::PublishRequested => NotificationModel::PublishRequested,
        }
    }
}

/// What an effect asks for.
#[verifier::ext_equal]
pub enum AppKeysEffectModel {
    Read(Seq<char>),
    Write(Seq<char>, Seq<char>),
    Delete(Seq<char>),
    Publish(EventBody),
    Notify(NotificationModel),
}

impl View for AppKeysEffect {
    type V = AppKeysEffectModel;

    open spec fn view(&self) -> AppKeysEffectModel {
        match *self {
            AppKeysEffect::RequestStorageRead { key } => AppKeysEffectModel::Read(key@),
            AppKeysEffect::RequestStorageWrite { key, value } => AppKeysEffectModel::Write(
                key@,
                value@,
            ),
            AppKeysEffect::RequestStorageDelete { key } => AppKeysEffectModel::Delete(key@),
            AppKeysEffect::RequestPublishUnsigned { event } => AppKeysEffectModel::Publish(event@),
            AppKeysEffect::Notify(notification) => AppKeysEffectModel::Notify(notification@),
        }
    }
}

pub open spec fn effect_models(effects: Seq<AppKeysEffect>) -> Seq<AppKeysEffectModel> {
    Seq::new(effects.len(), |i: int| effects[i]@)
}

/// What an input says.
#[verifier::ext_equal]
pub enum InputModel {
    Start,
    ReadResult(Seq<char>, Option<Seq<char>>, Option<Seq<char>>),
    WriteResult(Seq<char>),
    DeleteResult(Seq<char>),
    SetKeys(AppKeysModel),
    Add(DeviceEntry),
    Remove(DevicePubkey),
    Event(SignedBody),
    Publish(OwnerPubkey, UnixSeconds),
}

impl View for AppKeysInput {
    type V = InputModel;

    open spec fn view(&self) -> InputModel {
        match *self {
            AppKeysInput::Start => InputModel::Start,
            AppKeysInput::StorageReadResult { key, value, error } => InputModel::ReadResult(
                key@,
                crate::rumor::text_of(value),
                crate::rumor::text_of(error),
            ),
            AppKeysInput::StorageWriteResult { key, success, error } => InputModel::WriteResult(
                key@,
            ),
            AppKeysInput::StorageDeleteResult { key, success, error } => InputModel::DeleteResult(
                key@,
            ),
            AppKeysInput::SetAppKeys { app_keys } => InputModel::SetKeys(app_keys@),
            AppKeysInput::AddDeviceKey { device } => InputModel::Add(device),
            AppKeysInput::RemoveDeviceKey { identity_pubkey } => InputModel::Remove(
                identity_pubkey,
            ),
            AppKeysInput::ApplyAppKeysEvent { event } => InputModel::Event(event@),
            AppKeysInput::PublishAppKeys { owner_pubkey, now } => InputModel::Publish(
                owner_pubkey,
                now,
            ),
        }
    }
}

/// The devices of the local owner.
pub struct AppKeysFlow {
    phase: AppKeysPhase,
    app_keys: AppKeys,
}

#[verifier::ext_equal]
pub struct FlowModel {
    pub phase: AppKeysPhase,
    pub keys: AppKeysModel,
}

impl View for AppKeysFlow {
    type V = FlowModel;

    closed spec fn view(&self) -> FlowModel {
        FlowModel { phase: self.phase, keys: self.app_keys@ }
    }
}

pub open spec fn notify(n: NotificationModel) -> AppKeysEffectModel {
    AppKeysEffectModel::Notify(n)
}

/// The write that stores devices.
pub open spec fn store_keys(keys: AppKeysModel) -> AppKeysEffectModel {
    AppKeysEffectModel::Write(APP_KEYS_STORAGE_KEY@, json_text(app_keys_json(keys)))
}

/// Devices with a change that is stored and told of.
pub open spec fn stored(m: FlowModel, keys: AppKeysModel, n: NotificationModel) -> (
    FlowModel,
    Seq<AppKeysEffectModel>,
) {
    (FlowModel { keys, ..m }, seq![store_keys(keys), notify(n)])
}

/// What reading from storage comes to.
pub open spec fn read_step(
    m: FlowModel,
    key: Seq<char>,
    value: Option<Seq<char>>,
    error: Option<Seq<char>>,
) -> (FlowModel, Seq<AppKeysEffectModel>) {
    if key != APP_KEYS_STORAGE_KEY@ {
        (m, seq![notify(NotificationModel::StorageReadIgnoredUnknownKey(key))])
    } else {
        let told = match error {
            Some(text) => NotificationModel::StorageReadFailed(key, text),
            None => NotificationModel::StorageReadApplied(key),
        };
        let keys = match (error, value) {
            (None, Some(text)) => match app_keys_of(text) {
                Some(keys) => keys,
                None => m.keys,
            },
            _ => m.keys,
        };
        (
            FlowModel { phase: AppKeysPhase::Ready, keys },
            if m.phase is Initializing {
                seq![notify(told), notify(NotificationModel::Initialized)]
            } else {
                seq![notify(told)]
            },
        )
    }
}

/// What an input comes to once the devices are read.
pub open spec fn ready_step(m: FlowModel, input: InputModel) -> Result<
    (FlowModel, Seq<AppKeysEffectModel>),
    Fault,
> {
    match input {
        InputModel::SetKeys(keys) => Ok(stored(m, keys, NotificationModel::AppKeysSet)),
        InputModel::Add(device) => {
            let k = device.identity_pubkey;
            if m.keys.devices.contains_key(k) {
                Ok((m, seq![notify(NotificationModel::DeviceAddIgnoredAlreadyExists(k))]))
            } else {
                Ok(
                    stored(
                        m,
                        AppKeysModel { devices: m.keys.devices.insert(k, device), ..m.keys },
                        NotificationModel::DeviceAdded(k),
                    ),
                )
            }
        },
        InputModel::Remove(k) => if !m.keys.devices.contains_key(k) {
            Ok((m, seq![notify(NotificationModel::DeviceRemoveIgnoredMissing(k))]))
        } else {
            Ok(
                stored(
                    m,
                    AppKeysModel {
                        devices: m.keys.devices.remove(k),
                        labels: m.keys.labels.remove(k),
                    },
                    NotificationModel::DeviceRemoved(k),
                ),
            )
        },
        InputModel::Event(event) => match device_list_of(event) {
            Err(f) => Err(f),
            Ok(list) => {
                let keys = merged(
                    m.keys,
                    AppKeysModel { devices: listed(list), labels: Map::empty() },
                );
                if keys == m.keys {
                    Ok((m, seq![notify(NotificationModel::AppKeysEventIgnoredNoStateChange)]))
                } else {
                    Ok(stored(m, keys, NotificationModel::AppKeysMergedFromEvent))
                }
            },
        },
        InputModel::Publish(owner, now) => Ok(
            (
                m,
                seq![
                    AppKeysEffectModel::Publish(
                        device_list_event(owner.device(), now, m.keys.devices, Seq::empty()),
                    ),
                    notify(NotificationModel::PublishRequested),
                ],
            ),
        ),
        _ => Ok((m, Seq::empty())),
    }
}

/// What an input comes to: the devices then, and what is asked for.
pub open spec fn flow_step(m: FlowModel, input: InputModel) -> Result<
    (FlowModel, Seq<AppKeysEffectModel>),
    Fault,
> {
    match (m.phase, input) {
        (AppKeysPhase::NotStarted, InputModel::Start) => Ok(
            (
                FlowModel { phase: AppKeysPhase::Initializing, ..m },
                seq![
                    notify(NotificationModel::Started),
                    AppKeysEffectModel::Read(APP_KEYS_STORAGE_KEY@),
                ],
            ),
        ),
        (AppKeysPhase::Initializing, InputModel::Start) => Ok(
            (m, seq![notify(NotificationModel::StartIgnoredAlreadyInitializing)]),
        ),
        (AppKeysPhase::Ready, InputModel::Start) => Ok(
            (m, seq![notify(NotificationModel::StartIgnoredAlreadyInitialized)]),
        ),
        (AppKeysPhase::NotStarted, _) => Ok(
            (m, seq![notify(NotificationModel::InputIgnoredNotStarted)]),
        ),
        (_, InputModel::ReadResult(key, value, error)) => Ok(read_step(m, key, value, error)),
        (_, InputModel::WriteResult(key)) => Ok(
            (m, seq![notify(NotificationModel::StorageWriteAcknowledged(key))]),
        ),
        (_, InputModel::DeleteResult(key)) => Ok(
            (m, seq![notify(NotificationModel::StorageDeleteAcknowledged(key))]),
        ),
        (AppKeysPhase::Initializing, _) => Ok(
            (m, seq![notify(NotificationModel::InputIgnoredStillInitializing)]),
        ),
        (AppKeysPhase::Ready, _) => ready_step(m, input),
    }
}

/// Whether effects are those of a step.
pub open spec fn steps(
    m: FlowModel,
    after: FlowModel,
    input: InputModel,
    r: Result<Vec<AppKeysEffect>, Error>,
) -> bool {
    match r {
        Ok(effects) => flow_step(m, input) == Ok::<(FlowModel, Seq<AppKeysEffectModel>), Fault>(
            (after, effect_models(effects@)),
        ),
        Err(e) => after == m && flow_step(m, input) == Err::<
            (FlowModel, Seq<AppKeysEffectModel>),
            Fault,
        >(fault(e)),
    }
}

fn told(notification: AppKeysNotification) -> (r: Vec<AppKeysEffect>)
    ensures
        effect_models(r@) == seq![notify(notification@)],
{
    let mut r: Vec<AppKeysEffect> = Vec::new();
    r.push(AppKeysEffect::Notify(notification));
    assert(effect_models(r@) =~= seq![notify(notification@)]);
    r
}

fn both(first: AppKeysEffect, second: AppKeysEffect) -> (r: Vec<AppKeysEffect>)
    ensures
        effect_models(r@) == seq![first@, second@],
{
    let mut r: Vec<AppKeysEffect> = Vec::new();
    r.push(first);
    r.push(second);
    assert(effect_models(r@) =~= seq![first@, second@]);
    r
}

impl AppKeysFlow {
    pub fn new() -> (r: Self)
        ensures
            r@ == (FlowModel {
                phase: AppKeysPhase::NotStarted,
                keys: AppKeysModel { devices: Map::empty(), labels: Map::empty() },
            }),
    {
        AppKeysFlow { phase: AppKeysPhase::NotStarted, app_keys: AppKeys::new(Vec::new()) }
    }

    pub fn list_device_keys(&self) -> (r: Vec<DeviceEntry>)
        ensures
            r@ == crate::collections::ordered_values::<DevicePubkey, DeviceEntry>(
                self@.keys.devices,
            ),
    {
        self.app_keys.get_all_devices()
    }

    pub fn get_device_key(&self, identity_pubkey: &DevicePubkey) -> (r: Option<&DeviceEntry>)
        ensures
            r is Some == self@.keys.devices.contains_key(*identity_pubkey),
            r matches Some(device) ==> *device == self@.keys.devices[*identity_pubkey],
    {
        self.app_keys.get_device(identity_pubkey)
    }

    /// Takes an input.
    pub fn apply(&mut self, input: AppKeysInput) -> (r: Result<Vec<AppKeysEffect>, Error>)
        ensures
            steps(old(self)@, final(self)@, input@, r),
    {
        match (self.phase, input) {
            (AppKeysPhase::NotStarted, AppKeysInput::Start) => {
                self.phase = AppKeysPhase::Initializing;
                Ok(
                    both(
                        AppKeysEffect::Notify(AppKeysNotification::Started),
                        AppKeysEffect::RequestStorageRead { key: APP_KEYS_STORAGE_KEY.to_string() },
                    ),
                )
            },
            (AppKeysPhase::Initializing, AppKeysInput::Start) => Ok(
                told(AppKeysNotification::StartIgnoredAlreadyInitializing),
            ),
            (AppKeysPhase::Ready, AppKeysInput::Start) => Ok(
                told(AppKeysNotification::StartIgnoredAlreadyInitialized),
            ),
            (AppKeysPhase::NotStarted, _) => Ok(told(AppKeysNotification::InputIgnoredNotStarted)),
            (_, AppKeysInput::StorageReadResult { key, value, error }) => Ok(
                self.apply_read(key, value, error),
            ),
            (_, AppKeysInput::StorageWriteResult { key, .. }) => Ok(
                told(AppKeysNotification::StorageWriteAcknowledged { key }),
            ),
            (_, AppKeysInput::StorageDeleteResult { key, .. }) => Ok(
                told(AppKeysNotification::StorageDeleteAcknowledged { key }),
            ),
            (AppKeysPhase::Initializing, _) => Ok(
                told(AppKeysNotification::InputIgnoredStillInitializing),
            ),
            (AppKeysPhase::Ready, input) => self.apply_ready(input),
        }
    }

    fn apply_read(&mut self, key: String, value: Option<String>, error: Option<String>) -> (r: Vec<
        AppKeysEffect,
    >)
        ensures
            (final(self)@, effect_models(r@)) == read_step(
                old(self)@,
                key@,
                crate::rumor::text_of(value),
                crate::rumor::text_of(error),
            ),
    {
        if !same_str(key.as_str(), APP_KEYS_STORAGE_KEY) {
            return told(AppKeysNotification::StorageReadIgnoredUnknownKey { key });
        }
        let first = self.phase;
        if error.is_none() {
            if let Some(text) = &value {
                if let Ok(keys) = AppKeys::deserialize(text.as_str()) {
                    self.app_keys = keys;
                }
            }
        }
        self.phase = AppKeysPhase::Ready;
        let notification = match error {
            Some(error) => AppKeysNotification::StorageReadFailed { key, error },
            None => AppKeysNotification::StorageReadApplied { key },
        };
        match first {
            AppKeysPhase::Initializing => both(
                AppKeysEffect::Notify(notification),
                AppKeysEffect::Notify(AppKeysNotification::Initialized),
            ),
            _ => told(notification),
        }
    }

    /// The write that stores the devices, and what is told of it.
    fn store(&self, notification: AppKeysNotification) -> (r: Result<Vec<AppKeysEffect>, Error>)
        ensures
            r matches Ok(effects) && effect_models(effects@) == seq![
                store_keys(self@.keys),
                notify(notification@),
            ],
    {
        match self.app_keys.serialize() {
            Ok(value) => Ok(
                both(
                    AppKeysEffect::RequestStorageWrite {
                        key: APP_KEYS_STORAGE_KEY.to_string(),
                        value,
                    },
                    AppKeysEffect::Notify(notification),
                ),
            ),
            Err(e) => Err(e),
        }
    }

    fn apply_ready(&mut self, input: AppKeysInput) -> (r: Result<Vec<AppKeysEffect>, Error>)
        requires
            !(input is Start),
            !(input is StorageReadResult),
            !(input is StorageWriteResult),
            !(input is StorageDeleteResult),
        ensures
            match r {
                Ok(effects) => ready_step(old(self)@, input@) == Ok::<
                    (FlowModel, Seq<AppKeysEffectModel>),
                    Fault,
                >((final(self)@, effect_models(effects@))),
                Err(e) => final(self)@ == old(self)@ && ready_step(old(self)@, input@) == Err::<
                    (FlowModel, Seq<AppKeysEffectModel>),
                    Fault,
                >(fault(e)),
            },
    {
        match input {
            AppKeysInput::SetAppKeys { app_keys } => {
                self.app_keys = app_keys;
                self.store(AppKeysNotification::AppKeysSet)
            },
            AppKeysInput::AddDeviceKey { device } => {
                let identity_pubkey = device.identity_pubkey;
                if self.app_keys.get_device(&identity_pubkey).is_some() {
                    return Ok(
                        told(
                            AppKeysNotification::DeviceAddIgnoredAlreadyExists { identity_pubkey },
                        ),
                    );
                }
                self.app_keys.add_device(device);
                self.store(AppKeysNotification::DeviceAdded { identity_pubkey })
            },
            AppKeysInput::RemoveDeviceKey { identity_pubkey } => {
                if self.app_keys.get_device(&identity_pubkey).is_none() {
                    return Ok(
                        told(AppKeysNotification::DeviceRemoveIgnoredMissing { identity_pubkey }),
                    );
                }
                self.app_keys.remove_device(&identity_pubkey);
                self.store(AppKeysNotification::DeviceRemoved { identity_pubkey })
            },
            AppKeysInput::ApplyAppKeysEvent { event } => {
                let decoded = match parse_app_keys_event(&event) {
                    Ok(decoded) => decoded,
                    Err(e) => {
                        return Err(e);
                    },
                };
                let keys = self.app_keys.merge(&decoded.app_keys);
                if keys.same(&self.app_keys) {
                    return Ok(told(AppKeysNotification::AppKeysEventIgnoredNoStateChange));
                }
                self.app_keys = keys;
                self.store(AppKeysNotification::AppKeysMergedFromEvent)
            },
            AppKeysInput::PublishAppKeys { owner_pubkey, now } => {
                match app_keys_unsigned_event(owner_pubkey, now, &self.app_keys) {
                    Ok(event) => Ok(
                        both(
                            AppKeysEffect::RequestPublishUnsigned { event },
                            AppKeysEffect::Notify(AppKeysNotification::PublishRequested),
                        ),
                    ),
                    Err(e) => Err(e),
                }
            },
            _ => {
                assert(false);
                Ok(Vec::new())
            },
        }
    }
}

/// Whatever changes the devices asks to store them as they are then.
pub proof fn changes_are_stored(m: FlowModel, input: InputModel)
    requires
        flow_step(m, input) is Ok,
        !(input is ReadResult),
        flow_step(m, input)->Ok_0.0.keys != m.keys,
    ensures
        flow_step(m, input)->Ok_0.1.contains(store_keys(flow_step(m, input)->Ok_0.0.keys)),
{
    let effects = flow_step(m, input)->Ok_0.1;
    assert(effects[0] == store_keys(flow_step(m, input)->Ok_0.0.keys));
}

} // verus!
