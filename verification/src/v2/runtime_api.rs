//! The service around the devices of the local owner: what its surroundings
//! tell it, and what it asks of them, in order.
use vstd::prelude::*;
use crate::app_keys::{AppKeys, AppKeysModel, DeviceEntry};
use crate::codec::nostr::{is_app_keys_event, lists_devices};
use crate::collections::{lists, ordered_values, OrderedKey, VecMap, VecSet};
use crate::encoding::{hex_key, hex_text};
use crate::error::Fault;
use crate::event::{
    event_parsed, event_printed, parse_event, print_event, print_unsigned, tags_speak,
    unsigned_printed, Event, SignedBody,
};
use crate::ids::{DevicePubkey, OwnerPubkey, UnixSeconds};
use crate::rumor::text_of;
use crate::text::{concat, concat3, decimal, decimal_text, quote, quoted};
use crate::v2::app_keys_flow::{
    effect_models, flow_step, AppKeysEffect, AppKeysEffectModel, AppKeysFlow, AppKeysInput,
    AppKeysNotification, AppKeysPhase, FlowModel, InputModel, NotificationModel,
};

verus! {

/// Something that the surroundings are asked or told.
#[derive(Debug)]
pub struct RuntimeEffect {
    pub kind: String,
    pub request_id: Option<String>,
    pub sub_id: Option<String>,
    pub correlation_id: Option<String>,
    pub event_json: Option<String>,
    pub key: Option<String>,
    pub value: Option<String>,
    pub success: Option<bool>,
    pub error: Option<String>,
}

/// A device as the surroundings name it.
#[derive(Debug)]
pub struct FfiDeviceEntry {
    pub identity_pubkey_hex: String,
    pub created_at: u64,
}

#[derive(Debug, PartialEq, Eq)]
pub enum NdrError {
    InvalidKey(String),
    InvalidEvent(String),
    StateMismatch(String),
    Serialization(String),
}

/// What kind of error an error is.
#[derive(Debug, Clone, Copy, PartialEq, Eq, Structural)]
pub enum NdrFault {
    InvalidKey,
    InvalidEvent,
    StateMismatch,
    Serialization,
}

pub open spec fn ndr_fault(e: NdrError) -> NdrFault {
    match e {
        NdrError::InvalidKey(_) => NdrFault::InvalidKey,
        NdrError::InvalidEvent(_) => NdrFault::InvalidEvent,
        NdrError::StateMismatch(_) => NdrFault::StateMismatch,
        NdrError::Serialization(_) => NdrFault::Serialization,
    }
}

/// What an effect says.
#[verifier::ext_equal]
pub struct EffectModel {
    pub kind: Seq<char>,
    pub request_id: Option<Seq<char>>,
    pub sub_id: Option<Seq<char>>,
    pub correlation_id: Option<Seq<char>>,
    pub event_json: Option<Seq<char>>,
    pub key: Option<Seq<char>>,
    pub value: Option<Seq<char>>,
    pub success: Option<bool>,
    pub error: Option<Seq<char>>,
}

impl View for RuntimeEffect {
    type V = EffectModel;

    open spec fn view(&self) -> EffectModel {
        EffectModel {
            kind: self.kind@,
            request_id: text_of(self.request_id),
            sub_id: text_of(self.sub_id),
            correlation_id: text_of(self.correlation_id),
            event_json: text_of(self.event_json),
            key: text_of(self.key),
            value: text_of(self.value),
            success: self.success,
            error: text_of(self.error),
        }
    }
}

pub open spec fn runtime_effects(effects: Seq<RuntimeEffect>) -> Seq<EffectModel> {
    Seq::new(effects.len(), |i: int| effects[i]@)
}

/// An effect of which only the kind is known.
pub open spec fn bare(kind: Seq<char>) -> EffectModel {
    EffectModel {
        kind,
        request_id: None,
        sub_id: None,
        correlation_id: None,
        event_json: None,
        key: None,
        value: None,
        success: None,
        error: None,
    }
}

fn bare_effect(kind: &str) -> (r: RuntimeEffect)
    ensures
        r@ == bare(kind@),
{
    RuntimeEffect {
        kind: kind.to_string(),
        request_id: None,
        sub_id: None,
        correlation_id: None,
        event_json: None,
        key: None,
        value: None,
        success: None,
        error: None,
    }
}

/// Where an event of a subscription goes.
#[derive(Debug, Clone, Copy, PartialEq, Eq, Structural)]
pub enum Route {
    AppKeys,
    Sessions,
}

/// Whether a text begins with another.
pub open spec fn begins_with(text: Seq<char>, start: Seq<char>) -> bool {
    start.len() <= text.len() && text.take(start.len() as int) == start
}

/// The route that the name of a request stands for.
pub open spec fn route_of(request_id: Seq<char>) -> Option<Route> {
    if begins_with(request_id, "app_keys:"@) || begins_with(request_id, "app_keys/"@) {
        Some(Route::AppKeys)
    } else if begins_with(request_id, "sessions:"@) || begins_with(request_id, "sessions/"@) {
        Some(Route::Sessions)
    } else {
        None
    }
}

fn starts_with(text: &str, start: &str) -> (r: bool)
    ensures
        r == begins_with(text@, start@),
{
    let n: usize = start.unicode_len();
    if text.unicode_len() < n {
        return false;
    }
    let mut i: usize = 0;
    while i < n
        invariant
            i <= n,
            n == start@.len(),
            n <= text@.len(),
            forall|j: int| 0 <= j < i ==> text@[j] == start@[j],
        decreases n - i,
    {
        if text.get_char(i) != start.get_char(i) {
            assert(text@.take(n as int)[i as int] != start@[i as int]);
            return false;
        }
        i = i + 1;
    }
    assert(text@.take(n as int) =~= start@);
    true
}

impl Route {
    pub fn from_request_id(request_id: &str) -> (r: Option<Self>)
        ensures
            r == route_of(request_id@),
    {
        if starts_with(request_id, "app_keys:") || starts_with(request_id, "app_keys/") {
            Some(Route::AppKeys)
        } else if starts_with(request_id, "sessions:") || starts_with(request_id, "sessions/") {
            Some(Route::Sessions)
        } else {
            None
        }
    }
}

/// The service.
pub struct RuntimeApi {
    started: bool,
    effects: Vec<RuntimeEffect>,
    request_to_sub: VecMap<String, String>,
    active_subscriptions: VecSet<String>,
    router: VecMap<String, Route>,
    app_keys: AppKeysFlow,
    next_correlation_id: u64,
}

/// What the service knows, and what it has still to ask.
#[verifier::ext_equal]
pub struct RuntimeModel {
    pub started: bool,
    pub effects: Seq<EffectModel>,
    pub requests: Map<Seq<char>, Seq<char>>,
    pub subscriptions: Set<Seq<char>>,
    pub routes: Map<Seq<char>, Route>,
    pub flow: FlowModel,
    pub next_id: u64,
}

pub open spec fn text_map(map: Map<Seq<char>, String>) -> Map<Seq<char>, Seq<char>> {
    Map::new(|k: Seq<char>| map.contains_key(k), |k: Seq<char>| map[k]@)
}

impl View for RuntimeApi {
    type V = RuntimeModel;

    closed spec fn view(&self) -> RuntimeModel {
        RuntimeModel {
            started: self.started,
            effects: runtime_effects(self.effects@),
            requests: text_map(self.request_to_sub@),
            subscriptions: self.active_subscriptions@,
            routes: self.router@,
            flow: self.app_keys@,
            next_id: self.next_correlation_id,
        }
    }
}

/// What is known before anything happened.
pub open spec fn fresh_runtime() -> RuntimeModel {
    RuntimeModel {
        started: false,
        effects: Seq::empty(),
        requests: Map::empty(),
        subscriptions: Set::empty(),
        routes: Map::empty(),
        flow: FlowModel {
            phase: AppKeysPhase::NotStarted,
            keys: AppKeysModel { devices: Map::empty(), labels: Map::empty() },
        },
        next_id: 0,
    }
}

/// What is known with an effect more.
pub open spec fn with_effect(m: RuntimeModel, effect: EffectModel) -> RuntimeModel {
    RuntimeModel { effects: m.effects.push(effect), ..m }
}

/// Whether an error says that the service was not started.
pub open spec fn not_started(e: NdrError) -> bool {
    e matches NdrError::StateMismatch(text) && text@ == "RuntimeApi.start() must be called first"@
}

/// The name of a request, with a number that no other has.
pub open spec fn correlation(prefix: Seq<char>, id: u64) -> Seq<char> {
    prefix + ":"@ + decimal(id as nat)
}

/// The number after a number; the last one comes again.
pub open spec fn next_number(id: u64) -> u64 {
    if id == u64::MAX {
        id
    } else {
        (id + 1) as u64
    }
}

/// The kind of the effect that tells something.
pub open spec fn notification_kind_text(n: NotificationModel) -> Seq<char> {
    match n {
        NotificationModel::Started => "runtime.app_keys.started"@,
        NotificationModel::Initialized => "runtime.app_keys.initialized"@,
        NotificationModel::StartIgnoredAlreadyInitializing =>
            "runtime.app_keys.start_ignored_already_initializing"@,
        NotificationModel::StartIgnoredAlreadyInitialized =>
            "runtime.app_keys.start_ignored_already_initialized"@,
        NotificationModel::InputIgnoredNotStarted => "runtime.app_keys.input_ignored_not_started"@,
        NotificationModel::InputIgnoredStillInitializing =>
            "runtime.app_keys.input_ignored_still_initializing"@,
        NotificationModel::DeviceAdded(_) => "runtime.app_keys.device_added"@,
        NotificationModel::DeviceAddIgnoredAlreadyExists(_) =>
            "runtime.app_keys.device_add_ignored_already_exists"@,
        NotificationModel::DeviceRemoved(_) => "runtime.app_keys.device_removed"@,
        NotificationModel::DeviceRemoveIgnoredMissing(_) =>
            "runtime.app_keys.device_remove_ignored_missing"@,
        NotificationModel::AppKeysSet => "runtime.app_keys.app_keys_set"@,
        NotificationModel::AppKeysMergedFromEvent => "runtime.app_keys.app_keys_merged_from_event"@,
        NotificationModel::AppKeysEventIgnoredNoStateChange =>
            "runtime.app_keys.app_keys_event_ignored_no_state_change"@,
        NotificationModel::StorageReadApplied(_) => "runtime.app_keys.storage_read_applied"@,
        NotificationModel::StorageReadIgnoredUnknownKey(_) =>
            "runtime.app_keys.storage_read_ignored_unknown_key"@,
        NotificationModel::StorageReadFailed(_, _) => "runtime.app_keys.storage_read_failed"@,
        NotificationModel::StorageWriteAcknowledged(_) =>
            "runtime.app_keys.storage_write_acknowledged"@,
        NotificationModel::StorageDeleteAcknowledged(_) =>
            "runtime.app_keys.storage_delete_acknowledged"@,
        NotificationModel::PublishRequested => "runtime.app_keys.publish_requested"@,
    }
}

fn notification_kind(notification: &AppKeysNotification) -> (r: &'static str)
    ensures
        r@ == notification_kind_text(notification@),
{
    match notification {
        AppKeysNotification::Started => "runtime.app_keys.started",
        AppKeysNotification::Initialized => "runtime.app_keys.initialized",
        AppKeysNotification::StartIgnoredAlreadyInitializing =>
            "runtime.app_keys.start_ignored_already_initializing",
        AppKeysNotification::StartIgnoredAlreadyInitialized =>
            "runtime.app_keys.start_ignored_already_initialized",
        AppKeysNotification::InputIgnoredNotStarted => "runtime.app_keys.input_ignored_not_started",
        AppKeysNotification::InputIgnoredStillInitializing =>
            "runtime.app_keys.input_ignored_still_initializing",
        AppKeysNotification::DeviceAdded { .. } => "runtime.app_keys.device_added",
        AppKeysNotification::DeviceAddIgnoredAlreadyExists { .. } =>
            "runtime.app_keys.device_add_ignored_already_exists",
        AppKeysNotification::DeviceRemoved { .. } => "runtime.app_keys.device_removed",
        AppKeysNotification::DeviceRemoveIgnoredMissing { .. } =>
            "runtime.app_keys.device_remove_ignored_missing",
        AppKeysNotification::AppKeysSet => "runtime.app_keys.app_keys_set",
        AppKeysNotification::AppKeysMergedFromEvent => "runtime.app_keys.app_keys_merged_from_event",
        AppKeysNotification::AppKeysEventIgnoredNoStateChange =>
            "runtime.app_keys.app_keys_event_ignored_no_state_change",
        AppKeysNotification::StorageReadApplied { .. } => "runtime.app_keys.storage_read_applied",
        AppKeysNotification::StorageReadIgnoredUnknownKey { .. } =>
            "runtime.app_keys.storage_read_ignored_unknown_key",
        AppKeysNotification::StorageReadFailed { .. } => "runtime.app_keys.storage_read_failed",
        AppKeysNotification::StorageWriteAcknowledged { .. } =>
            "runtime.app_keys.storage_write_acknowledged",
        AppKeysNotification::StorageDeleteAcknowledged { .. } =>
            "runtime.app_keys.storage_delete_acknowledged",
        AppKeysNotification::PublishRequested => "runtime.app_keys.publish_requested",
    }
}

/// A notification about a device, in words.
pub open spec fn device_notice(name: Seq<char>, device: DevicePubkey) -> Seq<char> {
    name + " { identity_pubkey: PublicKey("@ + hex_text(device.0@) + ") }"@
}

/// A notification about a key of the storage, in words.
pub open spec fn key_notice(name: Seq<char>, key: Seq<char>) -> Seq<char> {
    name + " { key: "@ + quoted(key) + " }"@
}

/// A notification in words: its name, and what it is about.
pub open spec fn notification_text(n: NotificationModel) -> Seq<char> {
    match n {
        NotificationModel::Started => "Started"@,
        NotificationModel::Initialized => "Initialized"@,
        NotificationModel::StartIgnoredAlreadyInitializing => "StartIgnoredAlreadyInitializing"@,
        NotificationModel::StartIgnoredAlreadyInitialized => "StartIgnoredAlreadyInitialized"@,
        NotificationModel::InputIgnoredNotStarted => "InputIgnoredNotStarted"@,
        NotificationModel::InputIgnoredStillInitializing => "InputIgnoredStillInitializing"@,
        NotificationModel::AppKeysSet => "AppKeysSet"@,
        NotificationModel::AppKeysMergedFromEvent => "AppKeysMergedFromEvent"@,
        NotificationModel::AppKeysEventIgnoredNoStateChange => "AppKeysEventIgnoredNoStateChange"@,
        NotificationModel::PublishRequested => "PublishRequested"@,
        NotificationModel::DeviceAdded(device) => device_notice("DeviceAdded"@, device),
        NotificationModel::DeviceAddIgnoredAlreadyExists(device) => device_notice("DeviceAddIgnoredAlreadyExists"@, device),
        NotificationModel::DeviceRemoved(device) => device_notice("DeviceRemoved"@, device),
        NotificationModel::DeviceRemoveIgnoredMissing(device) => device_notice("DeviceRemoveIgnoredMissing"@, device),
        NotificationModel::StorageReadApplied(key) => key_notice("StorageReadApplied"@, key),
        NotificationModel::StorageReadIgnoredUnknownKey(key) => key_notice("StorageReadIgnoredUnknownKey"@, key),
        NotificationModel::StorageWriteAcknowledged(key) => key_notice("StorageWriteAcknowledged"@, key),
        NotificationModel::StorageDeleteAcknowledged(key) => key_notice("StorageDeleteAcknowledged"@, key),
        NotificationModel::StorageReadFailed(key, error) => "StorageReadFailed { key: "@ + quoted(key)
            + ", error: "@ + quoted(error) + " }"@,
    }
}

fn write_device_notice(name: &str, device: &DevicePubkey) -> (r: String)
    ensures
        r@ == device_notice(name@, *device),
{
    let start = concat3(name, " { identity_pubkey: PublicKey(", device.to_hex().as_str());
    concat(start.as_str(), ") }")
}

fn write_key_notice(name: &str, key: &str) -> (r: String)
    ensures
        r@ == key_notice(name@, key@),
{
    let start = concat3(name, " { key: ", quote(key).as_str());
    concat(start.as_str(), " }")
}

fn write_notification(notification: &AppKeysNotification) -> (r: String)
    ensures
        r@ == notification_text(notification@),
{
    match notification {
        AppKeysNotification::Started => "Started".to_string(),
        AppKeysNotification::Initialized => "Initialized".to_string(),
        AppKeysNotification::StartIgnoredAlreadyInitializing => "StartIgnoredAlreadyInitializing".to_string(),
        AppKeysNotification::StartIgnoredAlreadyInitialized => "StartIgnoredAlreadyInitialized".to_string(),
        AppKeysNotification::InputIgnoredNotStarted => "InputIgnoredNotStarted".to_string(),
        AppKeysNotification::InputIgnoredStillInitializing => "InputIgnoredStillInitializing".to_string(),
        AppKeysNotification::AppKeysSet => "AppKeysSet".to_string(),
        AppKeysNotification::AppKeysMergedFromEvent => "AppKeysMergedFromEvent".to_string(),
        AppKeysNotification::AppKeysEventIgnoredNoStateChange => "AppKeysEventIgnoredNoStateChange".to_string(),
        AppKeysNotification::PublishRequested => "PublishRequested".to_string(),
        AppKeysNotification::DeviceAdded { identity_pubkey } => write_device_notice(
            "DeviceAdded",
            identity_pubkey,
        ),
        AppKeysNotification::DeviceAddIgnoredAlreadyExists { identity_pubkey } => write_device_notice(
            "DeviceAddIgnoredAlreadyExists",
            identity_pubkey,
        ),
        AppKeysNotification::DeviceRemoved { identity_pubkey } => write_device_notice(
            "DeviceRemoved",
            identity_pubkey,
        ),
        AppKeysNotification::DeviceRemoveIgnoredMissing { identity_pubkey } => write_device_notice(
            "DeviceRemoveIgnoredMissing",
            identity_pubkey,
        ),
        AppKeysNotification::StorageReadApplied { key } => write_key_notice(
            "StorageReadApplied",
            key.as_str(),
        ),
        AppKeysNotification::StorageReadIgnoredUnknownKey { key } => write_key_notice(
            "StorageReadIgnoredUnknownKey",
            key.as_str(),
        ),
        AppKeysNotification::StorageWriteAcknowledged { key } => write_key_notice(
            "StorageWriteAcknowledged",
            key.as_str(),
        ),
        AppKeysNotification::StorageDeleteAcknowledged { key } => write_key_notice(
            "StorageDeleteAcknowledged",
            key.as_str(),
        ),
        AppKeysNotification::StorageReadFailed { key, error } => {
            let start = concat3("StorageReadFailed { key: ", quote(key.as_str()).as_str(), ", error: ");
            concat3(start.as_str(), quote(error.as_str()).as_str(), " }")
        },
    }
}

/// What is known when something is asked for the devices.
pub open spec fn asked(m: RuntimeModel, effect: AppKeysEffectModel) -> RuntimeModel {
    match effect {
        AppKeysEffectModel::Read(key) => RuntimeModel {
            effects: m.effects.push(
                EffectModel {
                    correlation_id: Some(correlation("app_keys/storage/read"@, m.next_id)),
                    key: Some(key),
                    ..bare("runtime.storage.read_request"@)
                },
            ),
            next_id: next_number(m.next_id),
            ..m
        },
        AppKeysEffectModel::Write(key, value) => RuntimeModel {
            effects: m.effects.push(
                EffectModel {
                    correlation_id: Some(correlation("app_keys/storage/write"@, m.next_id)),
                    key: Some(key),
                    value: Some(value),
                    ..bare("runtime.storage.write_request"@)
                },
            ),
            next_id: next_number(m.next_id),
            ..m
        },
        AppKeysEffectModel::Delete(key) => RuntimeModel {
            effects: m.effects.push(
                EffectModel {
                    correlation_id: Some(correlation("app_keys/storage/delete"@, m.next_id)),
                    key: Some(key),
                    ..bare("runtime.storage.delete_request"@)
                },
            ),
            next_id: next_number(m.next_id),
            ..m
        },
        AppKeysEffectModel::Publish(event) => with_effect(
            m,
            EffectModel {
                event_json: Some(unsigned_printed(event)),
                success: Some(true),
                ..bare("runtime.nostr.publish_unsigned"@)
            },
        ),
        AppKeysEffectModel::Notify(n) => with_effect(
            m,
            EffectModel {
                value: Some(notification_text(n)),
                success: Some(true),
                ..bare(notification_kind_text(n))
            },
        ),
    }
}

/// What is known when all of some effects are asked for.
pub open spec fn asked_all(m: RuntimeModel, effects: Seq<AppKeysEffectModel>) -> RuntimeModel
    decreases effects.len(),
{
    if effects.len() == 0 {
        m
    } else {
        asked(asked_all(m, effects.drop_last()), effects.last())
    }
}

/// Whether an event can be written down: each of its tags says something.
pub open spec fn writable(effect: AppKeysEffectModel) -> bool {
    match effect {
        AppKeysEffectModel::Publish(event) => tags_speak(event.tags),
        _ => true,
    }
}

/// What an input to the devices comes to.
pub open spec fn after_input(m: RuntimeModel, input: InputModel) -> Result<RuntimeModel, Fault> {
    match flow_step(m.flow, input) {
        Err(f) => Err(f),
        Ok((flow, effects)) => Ok(asked_all(RuntimeModel { flow, ..m }, effects)),
    }
}

/// Whether a result is that of an input to the devices, and of an effect that
/// tells of it, if there is one.
pub open spec fn inputs(
    before: RuntimeModel,
    after: RuntimeModel,
    input: InputModel,
    r: Result<(), NdrError>,
) -> bool {
    match after_input(before, input) {
        Err(f) => after == before && (r matches Err(e) && ndr_fault(e) == NdrFault::InvalidEvent),
        Ok(m) => r is Ok && after == m,
    }
}

proof fn lemma_flow_writable(m: FlowModel, input: InputModel, i: int)
    requires
        flow_step(m, input) is Ok,
        0 <= i < flow_step(m, input)->Ok_0.1.len(),
    ensures
        writable(flow_step(m, input)->Ok_0.1[i]),
{
}

impl RuntimeApi {
    pub fn new() -> (r: Self)
        ensures
            r@ == fresh_runtime(),
    {
        let r = RuntimeApi {
            started: false,
            effects: Vec::new(),
            request_to_sub: VecMap::new(),
            active_subscriptions: VecSet::new(),
            router: VecMap::new(),
            app_keys: AppKeysFlow::new(),
            next_correlation_id: 0,
        };
        assert(r@.effects =~= Seq::empty());
        assert(r@.requests =~= Map::empty());
        r
    }

    fn push(&mut self, effect: RuntimeEffect)
        ensures
            final(self)@ == with_effect(old(self)@, effect@),
    {
        let ghost before = self@;
        let ghost pushed = effect@;
        self.effects.push(effect);
        assert(self@.effects =~= before.effects.push(pushed));
    }

    fn ensure_started(&self) -> (r: Result<(), NdrError>)
        ensures
            r is Ok == self@.started,
            r matches Err(e) ==> not_started(e),
    {
        if self.started {
            Ok(())
        } else {
            Err(NdrError::StateMismatch("RuntimeApi.start() must be called first".to_string()))
        }
    }

    /// Starts the service, once.
    pub fn start(&mut self)
        ensures
            final(self)@ == (if old(self)@.started {
                old(self)@
            } else {
                with_effect(
                    RuntimeModel { started: true, ..old(self)@ },
                    EffectModel { success: Some(true), ..bare("runtime.started"@) },
                )
            }),
    {
        if self.started {
            return;
        }
        self.started = true;
        let mut effect = bare_effect("runtime.started");
        effect.success = Some(true);
        self.push(effect);
    }

    /// A subscription that a request asked for was opened.
    pub fn on_subscription_opened(&mut self, request_id: String, sub_id: String) -> (r: Result<
        (),
        NdrError,
    >)
        ensures
            r is Ok == old(self)@.started,
            r matches Err(e) ==> not_started(e) && *final(self) == *old(self),
            r is Ok ==> final(self)@ == with_effect(
                RuntimeModel {
                    requests: old(self)@.requests.insert(request_id@, sub_id@),
                    subscriptions: old(self)@.subscriptions.insert(sub_id@),
                    routes: match route_of(request_id@) {
                        Some(route) => old(self)@.routes.insert(sub_id@, route),
                        None => old(self)@.routes,
                    },
                    ..old(self)@
                },
                EffectModel {
                    request_id: Some(request_id@),
                    sub_id: Some(sub_id@),
                    success: Some(true),
                    ..bare("runtime.nostr.subscription_opened"@)
                },
            ),
    {
        match self.ensure_started() {
            Ok(()) => {},
            Err(e) => {
                return Err(e);
            },
        }
        let ghost before = self@;
        self.request_to_sub.insert(request_id.clone(), sub_id.clone());
        assert(self@.requests =~= before.requests.insert(request_id@, sub_id@));
        self.active_subscriptions.insert(sub_id.clone());
        if let Some(route) = Route::from_request_id(request_id.as_str()) {
            self.router.insert(sub_id.clone(), route);
        }
        let mut effect = bare_effect("runtime.nostr.subscription_opened");
        effect.request_id = Some(request_id);
        effect.sub_id = Some(sub_id);
        effect.success = Some(true);
        self.push(effect);
        Ok(())
    }

    /// A subscription was closed.
    pub fn on_subscription_closed(&mut self, sub_id: String) -> (r: Result<(), NdrError>)
        ensures
            r is Ok == old(self)@.started,
            r matches Err(e) ==> not_started(e) && *final(self) == *old(self),
            r is Ok ==> final(self)@ == with_effect(
                RuntimeModel {
                    requests: without_value(old(self)@.requests, sub_id@),
                    subscriptions: old(self)@.subscriptions.remove(sub_id@),
                    routes: old(self)@.routes.remove(sub_id@),
                    ..old(self)@
                },
                EffectModel {
                    sub_id: Some(sub_id@),
                    success: Some(true),
                    ..bare("runtime.nostr.subscription_closed"@)
                },
            ),
    {
        match self.ensure_started() {
            Ok(()) => {},
            Err(e) => {
                return Err(e);
            },
        }
        let ghost before = self@;
        self.active_subscriptions.remove(&sub_id);
        let keys = self.request_to_sub.keys();
        let ghost order = self.request_to_sub.order();
        let ghost mid = self@;
        assert(self@.requests.dom() =~= self.request_to_sub@.dom());
        let mut i: usize = 0;
        while i < keys.len()
            invariant
                i <= keys@.len(),
                keys@.len() == order.len(),
                forall|j: int| 0 <= j < keys@.len() ==> (#[trigger] keys@[j]).id() == order[j],
                lists::<String>(order, mid.requests.dom()),
                self@ == (RuntimeModel { requests: self@.requests, ..mid }),
                forall|k: Seq<char>| #[trigger]
                    self@.requests.contains_key(k) <==> mid.requests.contains_key(k) && (
                    mid.requests[k] != sub_id@ || !(exists|j: int|
                        0 <= j < i && #[trigger] order[j] == k)),
                forall|k: Seq<char>| #[trigger]
                    self@.requests.contains_key(k) ==> self@.requests[k] == mid.requests[k],
            decreases keys@.len() - i,
        {
            let ghost key = order[i as int];
            let ghost now = self@;
            proof {
                assert(keys@[i as int].id() == key);
                assert(order.contains(key));
                assert(mid.requests.dom().contains(key));
                assert forall|j: int| 0 <= j < i implies #[trigger] order[j] != key by {
                    crate::collections::lists_distinct::<String>(
                        order,
                        mid.requests.dom(),
                        j,
                        i as int,
                    );
                }
                assert(now.requests.contains_key(key));
            }
            let gone: bool = match self.request_to_sub.get(&keys[i]) {
                Some(mapped) => crate::order::same_str(mapped.as_str(), sub_id.as_str()),
                None => false,
            };
            assert(gone == (mid.requests[key] == sub_id@));
            if gone {
                self.request_to_sub.remove(&keys[i]);
                assert(self@.requests =~= now.requests.remove(key));
            }
            proof {
                assert forall|k: Seq<char>| #[trigger] self@.requests.contains_key(k)
                    <==> mid.requests.contains_key(k) && (mid.requests[k] != sub_id@ || !(exists|
                    j: int,
                | 0 <= j < i + 1 && #[trigger] order[j] == k)) by {
                    if k == key {
                        assert(order[i as int] == k);
                    } else {
                        assert(now.requests.contains_key(k) == self@.requests.contains_key(k));
                        assert((exists|j: int| 0 <= j < i && #[trigger] order[j] == k) == (exists|
                            j: int,
                        | 0 <= j < i + 1 && #[trigger] order[j] == k));
                    }
                }
            }
            i = i + 1;
        }
        proof {
            assert forall|k: Seq<char>| #[trigger] mid.requests.contains_key(k) implies exists|
                j: int,
            | 0 <= j < i && #[trigger] order[j] == k by {
                assert(mid.requests.dom().contains(k));
                assert(order.contains(k));
            }
            assert(self@.requests =~= without_value(before.requests, sub_id@));
        }
        self.router.remove(&sub_id);
        let mut effect = bare_effect("runtime.nostr.subscription_closed");
        effect.sub_id = Some(sub_id);
        effect.success = Some(true);
        self.push(effect);
        Ok(())
    }

    /// An event came on a subscription.
    pub fn on_nostr_event(&mut self, sub_id: String, event_json: String) -> (r: Result<
        (),
        NdrError,
    >)
        ensures
            r is Err ==> final(self)@ == old(self)@,
            !old(self)@.started ==> (r matches Err(e) && not_started(e)),
            old(self)@.started ==> match event_parsed(event_json@) {
                None => r matches Err(e) && ndr_fault(e) == NdrFault::InvalidEvent,
                Some(event) => match event_printed(event) {
                    None => r matches Err(e) && ndr_fault(e) == NdrFault::Serialization,
                    Some(text) => routes_event(
                        old(self)@,
                        final(self)@,
                        sub_id@,
                        event,
                        text,
                        r,
                    ),
                },
            },
    {
        match self.ensure_started() {
            Ok(()) => {},
            Err(e) => {
                return Err(e);
            },
        }
        let event = match parse_event(event_json.as_str()) {
            Ok(event) => event,
            Err(e) => {
                return Err(NdrError::InvalidEvent(e));
            },
        };
        let normalized = match print_event(&event) {
            Ok(text) => text,
            Err(e) => {
                return Err(NdrError::Serialization(e));
            },
        };
        self.route_event(sub_id, event, normalized)
    }

    /// Hands an event to where its subscription leads.
    pub fn route_event(&mut self, sub_id: String, event: Event, normalized: String) -> (r: Result<
        (),
        NdrError,
    >)
        ensures
            r is Err ==> final(self)@ == old(self)@,
            routes_event(old(self)@, final(self)@, sub_id@, event@, normalized@, r),
    {
        match self.router.get(&sub_id) {
            None => {
                let mut effect = bare_effect("runtime.nostr.unrouted_event");
                effect.sub_id = Some(sub_id);
                effect.event_json = Some(normalized);
                effect.success = Some(false);
                effect.error = Some("unknown subscription route".to_string());
                self.push(effect);
                return Ok(());
            },
            Some(Route::AppKeys) => {
                if is_app_keys_event(&event) {
                    match self.apply_app_keys_input(AppKeysInput::ApplyAppKeysEvent { event }) {
                        Ok(()) => {},
                        Err(e) => {
                            return Err(e);
                        },
                    }
                }
            },
            Some(Route::Sessions) => {},
        }
        let mut effect = bare_effect("runtime.nostr.event_routed");
        effect.sub_id = Some(sub_id);
        effect.event_json = Some(normalized);
        effect.success = Some(true);
        self.push(effect);
        Ok(())
    }

    pub fn on_publish_result(
        &mut self,
        correlation_id: String,
        success: bool,
        error: Option<String>,
    ) -> (r: Result<(), NdrError>)
        ensures
            r is Ok == old(self)@.started,
            r matches Err(e) ==> not_started(e) && *final(self) == *old(self),
            r is Ok ==> final(self)@ == with_effect(
                old(self)@,
                EffectModel {
                    correlation_id: Some(correlation_id@),
                    success: Some(success),
                    error: text_of(error),
                    ..bare("runtime.nostr.publish_result"@)
                },
            ),
    {
        match self.ensure_started() {
            Ok(()) => {},
            Err(e) => {
                return Err(e);
            },
        }
        let mut effect = bare_effect("runtime.nostr.publish_result");
        effect.correlation_id = Some(correlation_id);
        effect.success = Some(success);
        effect.error = error;
        self.push(effect);
        Ok(())
    }

    pub fn on_storage_read_result(
        &mut self,
        correlation_id: String,
        key: String,
        value: Option<String>,
        error: Option<String>,
    ) -> (r: Result<(), NdrError>)
        ensures
            r is Ok == old(self)@.started,
            r matches Err(e) ==> not_started(e) && *final(self) == *old(self),
            r is Ok ==> final(self)@ == with_effect(
                after_input(
                    old(self)@,
                    InputModel::ReadResult(key@, text_of(value), text_of(error)),
                )->Ok_0,
                EffectModel {
                    correlation_id: Some(correlation_id@),
                    key: Some(key@),
                    value: text_of(value),
                    success: Some(error is None),
                    error: text_of(error),
                    ..bare("runtime.storage.read_result"@)
                },
            ),
    {
        match self.ensure_started() {
            Ok(()) => {},
            Err(e) => {
                return Err(e);
            },
        }
        match self.apply_app_keys_input(
            AppKeysInput::StorageReadResult {
                key: key.clone(),
                value: value.clone(),
                error: error.clone(),
            },
        ) {
            Ok(()) => {},
            Err(e) => {
                return Err(e);
            },
        }
        let mut effect = bare_effect("runtime.storage.read_result");
        effect.correlation_id = Some(correlation_id);
        effect.key = Some(key);
        effect.value = value;
        effect.success = Some(error.is_none());
        effect.error = error;
        self.push(effect);
        Ok(())
    }

    pub fn on_storage_write_result(
        &mut self,
        correlation_id: String,
        key: String,
        success: bool,
        error: Option<String>,
    ) -> (r: Result<(), NdrError>)
        ensures
            r is Ok == old(self)@.started,
            r matches Err(e) ==> not_started(e) && *final(self) == *old(self),
            r is Ok ==> final(self)@ == with_effect(
                after_input(old(self)@, InputModel::WriteResult(key@))->Ok_0,
                EffectModel {
                    correlation_id: Some(correlation_id@),
                    key: Some(key@),
                    success: Some(success),
                    error: text_of(error),
                    ..bare("runtime.storage.write_result"@)
                },
            ),
    {
        match self.ensure_started() {
            Ok(()) => {},
            Err(e) => {
                return Err(e);
            },
        }
        match self.apply_app_keys_input(
            AppKeysInput::StorageWriteResult { key: key.clone(), success, error: error.clone() },
        ) {
            Ok(()) => {},
            Err(e) => {
                return Err(e);
            },
        }
        let mut effect = bare_effect("runtime.storage.write_result");
        effect.correlation_id = Some(correlation_id);
        effect.key = Some(key);
        effect.success = Some(success);
        effect.error = error;
        self.push(effect);
        Ok(())
    }

    pub fn on_storage_delete_result(
        &mut self,
        correlation_id: String,
        key: String,
        success: bool,
        error: Option<String>,
    ) -> (r: Result<(), NdrError>)
        ensures
            r is Ok == old(self)@.started,
            r matches Err(e) ==> not_started(e) && *final(self) == *old(self),
            r is Ok ==> final(self)@ == with_effect(
                after_input(old(self)@, InputModel::DeleteResult(key@))->Ok_0,
                EffectModel {
                    correlation_id: Some(correlation_id@),
                    key: Some(key@),
                    success: Some(success),
                    error: text_of(error),
                    ..bare("runtime.storage.delete_result"@)
                },
            ),
    {
        match self.ensure_started() {
            Ok(()) => {},
            Err(e) => {
                return Err(e);
            },
        }
        match self.apply_app_keys_input(
            AppKeysInput::StorageDeleteResult { key: key.clone(), success, error: error.clone() },
        ) {
            Ok(()) => {},
            Err(e) => {
                return Err(e);
            },
        }
        let mut effect = bare_effect("runtime.storage.delete_result");
        effect.correlation_id = Some(correlation_id);
        effect.key = Some(key);
        effect.success = Some(success);
        effect.error = error;
        self.push(effect);
        Ok(())
    }

    /// All that is to be asked and told, in the order in which it came up.
    /// Nothing of it is left then.
    pub fn drain_effects(&mut self) -> (r: Vec<RuntimeEffect>)
        ensures
            runtime_effects(r@) == old(self)@.effects,
            final(self)@ == (RuntimeModel { effects: Seq::empty(), ..old(self)@ }),
    {
        let mut r: Vec<RuntimeEffect> = Vec::new();
        std::mem::swap(&mut r, &mut self.effects);
        assert(self@.effects =~= Seq::empty());
        r
    }

    /// Gives an input to the devices.
    fn apply_app_keys_input(&mut self, input: AppKeysInput) -> (r: Result<(), NdrError>)
        ensures
            inputs(old(self)@, final(self)@, input@, r),
    {
        let ghost before = self@;
        let ghost said = input@;
        match self.app_keys.apply(input) {
            Err(e) => Err(NdrError::InvalidEvent("malformed list of devices".to_string())),
            Ok(effects) => {
                let ghost models = effect_models(effects@);
                proof {
                    assert forall|i: int| 0 <= i < models.len() implies writable(
                        #[trigger] models[i],
                    ) by {
                        lemma_flow_writable(before.flow, said, i);
                    }
                }
                self.apply_app_keys_effects(effects)
            },
        }
    }

    /// Asks for what the devices need.
    fn apply_app_keys_effects(&mut self, effects: Vec<AppKeysEffect>) -> (r: Result<(), NdrError>)
        requires
            forall|i: int|
                0 <= i < effects@.len() ==> writable(#[trigger] effect_models(effects@)[i]),
        ensures
            r is Ok,
            final(self)@ == asked_all(old(self)@, effect_models(effects@)),
    {
        let ghost models = effect_models(effects@);
        let mut i: usize = 0;
        assert(models.take(0) =~= Seq::empty());
        while i < effects.len()
            invariant
                i <= effects@.len(),
                models == effect_models(effects@),
                forall|j: int| 0 <= j < models.len() ==> writable(#[trigger] models[j]),
                self@ == asked_all(old(self)@, models.take(i as int)),
            decreases effects@.len() - i,
        {
            proof {
                assert(models.take(i + 1).drop_last() =~= models.take(i as int));
                assert(models.take(i + 1).last() == effects@[i as int]@);
                assert(writable(models[i as int]));
            }
            match &effects[i] {
                AppKeysEffect::RequestStorageRead { key } => {
                    let mut effect = bare_effect("runtime.storage.read_request");
                    effect.correlation_id = Some(self.next_correlation("app_keys/storage/read"));
                    effect.key = Some(key.clone());
                    self.push(effect);
                },
                AppKeysEffect::RequestStorageWrite { key, value } => {
                    let mut effect = bare_effect("runtime.storage.write_request");
                    effect.correlation_id = Some(self.next_correlation("app_keys/storage/write"));
                    effect.key = Some(key.clone());
                    effect.value = Some(value.clone());
                    self.push(effect);
                },
                AppKeysEffect::RequestStorageDelete { key } => {
                    let mut effect = bare_effect("runtime.storage.delete_request");
                    effect.correlation_id = Some(self.next_correlation("app_keys/storage/delete"));
                    effect.key = Some(key.clone());
                    self.push(effect);
                },
                AppKeysEffect::RequestPublishUnsigned { event } => {
                    assert(models[i as int] == AppKeysEffectModel::Publish(event@));
                    let text = match print_unsigned(event) {
                        Ok(text) => text,
                        Err(e) => {
                            assert(false);
                            return Err(NdrError::Serialization(e));
                        },
                    };
                    let mut effect = bare_effect("runtime.nostr.publish_unsigned");
                    effect.event_json = Some(text);
                    effect.success = Some(true);
                    self.push(effect);
                },
                AppKeysEffect::Notify(notification) => {
                    let mut effect = bare_effect(notification_kind(notification));
                    effect.value = Some(write_notification(notification));
                    effect.success = Some(true);
                    self.push(effect);
                },
            }
            i = i + 1;
        }
        assert(models.take(i as int) =~= models);
        Ok(())
    }

    fn next_correlation(&mut self, prefix: &str) -> (r: String)
        ensures
            r@ == correlation(prefix@, old(self)@.next_id),
            final(self)@ == (RuntimeModel { next_id: next_number(old(self)@.next_id), ..old(self)@ }),
    {
        let id: u64 = self.next_correlation_id;
        self.next_correlation_id = if id == u64::MAX {
            id
        } else {
            id + 1
        };
        concat3(prefix, ":", decimal_text(id as u128).as_str())
    }

    pub fn app_keys_start(&mut self) -> (r: Result<(), NdrError>)
        ensures
            guarded(old(self)@, final(self)@, InputModel::Start, r),
    {
        match self.ensure_started() {
            Ok(()) => self.apply_app_keys_input(AppKeysInput::Start),
            Err(e) => Err(e),
        }
    }

    pub fn app_keys_set_devices(&mut self, devices: Vec<FfiDeviceEntry>) -> (r: Result<
        (),
        NdrError,
    >)
        ensures
            match entries_of(devices@) {
                Some(list) => guarded(
                    old(self)@,
                    final(self)@,
                    InputModel::SetKeys(
                        AppKeysModel { devices: crate::app_keys::listed(list), labels: Map::empty() },
                    ),
                    r,
                ),
                None => *final(self) == *old(self) && (r matches Err(e) && (if old(self)@.started {
                    ndr_fault(e) == NdrFault::InvalidKey
                } else {
                    not_started(e)
                })),
            },
    {
        match self.ensure_started() {
            Ok(()) => {},
            Err(e) => {
                return Err(e);
            },
        }
        let mut mapped: Vec<DeviceEntry> = Vec::new();
        let mut i: usize = 0;
        while i < devices.len()
            invariant
                i <= devices@.len(),
                mapped@.len() == i,
                old(self)@.started,
                *self == *old(self),
                forall|j: int|
                    0 <= j < i ==> entry_of(#[trigger] devices@[j]) == Some(mapped@[j]),
            decreases devices@.len() - i,
        {
            match DevicePubkey::parse_hex(devices[i].identity_pubkey_hex.as_str()) {
                Ok(identity_pubkey) => {
                    mapped.push(
                        DeviceEntry {
                            identity_pubkey,
                            created_at: UnixSeconds(devices[i].created_at),
                        },
                    );
                    assert(entry_of(devices@[i as int]) == Some(mapped@[i as int]));
                },
                Err(e) => {
                    assert(entry_of(devices@[i as int]) is None);
                    return Err(NdrError::InvalidKey(e));
                },
            }
            i = i + 1;
        }
        assert(entries_of(devices@)->Some_0 =~= mapped@);
        self.apply_app_keys_input(AppKeysInput::SetAppKeys { app_keys: AppKeys::new(mapped) })
    }

    pub fn app_keys_add_device(&mut self, identity_pubkey_hex: String, created_at: u64) -> (r:
        Result<(), NdrError>)
        ensures
            match hex_key(identity_pubkey_hex@) {
                Some(key) => guarded(
                    old(self)@,
                    final(self)@,
                    InputModel::Add(
                        DeviceEntry {
                            identity_pubkey: DevicePubkey(key),
                            created_at: UnixSeconds(created_at),
                        },
                    ),
                    r,
                ),
                None => *final(self) == *old(self) && (r matches Err(e) && (if old(self)@.started {
                    ndr_fault(e) == NdrFault::InvalidKey
                } else {
                    not_started(e)
                })),
            },
    {
        match self.ensure_started() {
            Ok(()) => {},
            Err(e) => {
                return Err(e);
            },
        }
        match DevicePubkey::parse_hex(identity_pubkey_hex.as_str()) {
            Ok(identity_pubkey) => self.apply_app_keys_input(
                AppKeysInput::AddDeviceKey {
                    device: DeviceEntry { identity_pubkey, created_at: UnixSeconds(created_at) },
                },
            ),
            Err(e) => Err(NdrError::InvalidKey(e)),
        }
    }

    pub fn app_keys_remove_device(&mut self, identity_pubkey_hex: String) -> (r: Result<
        (),
        NdrError,
    >)
        ensures
            match hex_key(identity_pubkey_hex@) {
                Some(key) => guarded(
                    old(self)@,
                    final(self)@,
                    InputModel::Remove(DevicePubkey(key)),
                    r,
                ),
                None => *final(self) == *old(self) && (r matches Err(e) && (if old(self)@.started {
                    ndr_fault(e) == NdrFault::InvalidKey
                } else {
                    not_started(e)
                })),
            },
    {
        match self.ensure_started() {
            Ok(()) => {},
            Err(e) => {
                return Err(e);
            },
        }
        match DevicePubkey::parse_hex(identity_pubkey_hex.as_str()) {
            Ok(identity_pubkey) => self.apply_app_keys_input(
                AppKeysInput::RemoveDeviceKey { identity_pubkey },
            ),
            Err(e) => Err(NdrError::InvalidKey(e)),
        }
    }

    pub fn app_keys_merge_from_event_json(&mut self, event_json: String) -> (r: Result<
        (),
        NdrError,
    >)
        ensures
            match event_parsed(event_json@) {
                Some(event) => guarded(old(self)@, final(self)@, InputModel::Event(event), r),
                None => *final(self) == *old(self) && (r matches Err(e) && (if old(self)@.started {
                    ndr_fault(e) == NdrFault::InvalidEvent
                } else {
                    not_started(e)
                })),
            },
    {
        match self.ensure_started() {
            Ok(()) => {},
            Err(e) => {
                return Err(e);
            },
        }
        match parse_event(event_json.as_str()) {
            Ok(event) => self.apply_app_keys_input(AppKeysInput::ApplyAppKeysEvent { event }),
            Err(e) => Err(NdrError::InvalidEvent(e)),
        }
    }

    pub fn app_keys_publish_unsigned(&mut self, owner_pubkey_hex: String, now: UnixSeconds) -> (r:
        Result<(), NdrError>)
        ensures
            match hex_key(owner_pubkey_hex@) {
                Some(key) => guarded(
                    old(self)@,
                    final(self)@,
                    InputModel::Publish(OwnerPubkey(key), now),
                    r,
                ),
                None => *final(self) == *old(self) && (r matches Err(e) && (if old(self)@.started {
                    ndr_fault(e) == NdrFault::InvalidKey
                } else {
                    not_started(e)
                })),
            },
    {
        match self.ensure_started() {
            Ok(()) => {},
            Err(e) => {
                return Err(e);
            },
        }
        match OwnerPubkey::parse_hex(owner_pubkey_hex.as_str()) {
            Ok(owner_pubkey) => self.apply_app_keys_input(
                AppKeysInput::PublishAppKeys { owner_pubkey, now },
            ),
            Err(e) => Err(NdrError::InvalidKey(e)),
        }
    }

    pub fn app_keys_list_devices(&self) -> (r: Result<Vec<FfiDeviceEntry>, NdrError>)
        ensures
            r is Ok == self@.started,
            r matches Err(e) ==> not_started(e),
            r matches Ok(devices) ==> ffi_entries(devices@) == ordered_values::<
                DevicePubkey,
                DeviceEntry,
            >(self@.flow.keys.devices).map_values(|d: DeviceEntry| ffi_entry(d)),
    {
        match self.ensure_started() {
            Ok(()) => {},
            Err(e) => {
                return Err(e);
            },
        }
        let devices = self.app_keys.list_device_keys();
        let mut r: Vec<FfiDeviceEntry> = Vec::new();
        let mut i: usize = 0;
        while i < devices.len()
            invariant
                i <= devices@.len(),
                r@.len() == i,
                forall|j: int| 0 <= j < i ==> (#[trigger] r@[j])@ == ffi_entry(devices@[j]),
            decreases devices@.len() - i,
        {
            r.push(to_ffi(&devices[i]));
            i = i + 1;
        }
        assert(ffi_entries(r@) =~= devices@.map_values(|d: DeviceEntry| ffi_entry(d)));
        Ok(r)
    }

    pub fn app_keys_get_device(&self, identity_pubkey_hex: String) -> (r: Result<
        Option<FfiDeviceEntry>,
        NdrError,
    >)
        ensures
            match r {
                Ok(found) => {
                    &&& self@.started
                    &&& hex_key(identity_pubkey_hex@) is Some
                    &&& match found {
                        Some(device) => {
                            let k = DevicePubkey(hex_key(identity_pubkey_hex@)->Some_0);
                            self@.flow.keys.devices.contains_key(k) && device@ == ffi_entry(
                                self@.flow.keys.devices[k],
                            )
                        },
                        None => !self@.flow.keys.devices.contains_key(
                            DevicePubkey(hex_key(identity_pubkey_hex@)->Some_0),
                        ),
                    }
                },
                Err(e) => if self@.started {
                    hex_key(identity_pubkey_hex@) is None && ndr_fault(e) == NdrFault::InvalidKey
                } else {
                    not_started(e)
                },
            },
    {
        match self.ensure_started() {
            Ok(()) => {},
            Err(e) => {
                return Err(e);
            },
        }
        let key = match DevicePubkey::parse_hex(identity_pubkey_hex.as_str()) {
            Ok(key) => key,
            Err(e) => {
                return Err(NdrError::InvalidKey(e));
            },
        };
        match self.app_keys.get_device_key(&key) {
            Some(device) => Ok(Some(to_ffi(device))),
            None => Ok(None),
        }
    }
}

/// Requests without those that led to a subscription.
pub open spec fn without_value(requests: Map<Seq<char>, Seq<char>>, sub_id: Seq<char>) -> Map<
    Seq<char>,
    Seq<char>,
> {
    Map::new(
        |k: Seq<char>| requests.contains_key(k) && requests[k] != sub_id,
        |k: Seq<char>| requests[k],
    )
}

/// Whether a result is that of an event on a subscription.
pub open spec fn routes_event(
    before: RuntimeModel,
    after: RuntimeModel,
    sub_id: Seq<char>,
    event: SignedBody,
    text: Seq<char>,
    r: Result<(), NdrError>,
) -> bool {
    let routed = EffectModel {
        sub_id: Some(sub_id),
        event_json: Some(text),
        success: Some(true),
        ..bare("runtime.nostr.event_routed"@)
    };
    if !before.routes.contains_key(sub_id) {
        r is Ok && after == with_effect(
            before,
            EffectModel {
                sub_id: Some(sub_id),
                event_json: Some(text),
                success: Some(false),
                error: Some("unknown subscription route"@),
                ..bare("runtime.nostr.unrouted_event"@)
            },
        )
    } else if before.routes[sub_id] is AppKeys && lists_devices(event.body) {
        match after_input(before, InputModel::Event(event)) {
            Err(f) => after == before && (r matches Err(e) && ndr_fault(e)
                == NdrFault::InvalidEvent),
            Ok(m) => r is Ok && after == with_effect(m, routed),
        }
    } else {
        r is Ok && after == with_effect(before, routed)
    }
}

/// Whether a result is that of an input that needs the service to be started.
pub open spec fn guarded(
    before: RuntimeModel,
    after: RuntimeModel,
    input: InputModel,
    r: Result<(), NdrError>,
) -> bool {
    if before.started {
        inputs(before, after, input, r)
    } else {
        after == before && (r matches Err(e) && not_started(e))
    }
}

/// What a device says as the surroundings name it.
#[verifier::ext_equal]
pub struct FfiEntryModel {
    pub hex: Seq<char>,
    pub created_at: u64,
}

impl View for FfiDeviceEntry {
    type V = FfiEntryModel;

    open spec fn view(&self) -> FfiEntryModel {
        FfiEntryModel { hex: self.identity_pubkey_hex@, created_at: self.created_at }
    }
}

pub open spec fn ffi_entries(devices: Seq<FfiDeviceEntry>) -> Seq<FfiEntryModel> {
    Seq::new(devices.len(), |i: int| devices[i]@)
}

pub open spec fn ffi_entry(device: DeviceEntry) -> FfiEntryModel {
    FfiEntryModel { hex: hex_text(device.identity_pubkey.0@), created_at: device.created_at.0 }
}

fn to_ffi(device: &DeviceEntry) -> (r: FfiDeviceEntry)
    ensures
        r@ == ffi_entry(*device),
{
    FfiDeviceEntry {
        identity_pubkey_hex: device.identity_pubkey.to_hex(),
        created_at: device.created_at.0,
    }
}

/// The device that a name of it stands for.
pub open spec fn entry_of(device: FfiDeviceEntry) -> Option<DeviceEntry> {
    match hex_key(device.identity_pubkey_hex@) {
        Some(key) => Some(
            DeviceEntry {
                identity_pubkey: DevicePubkey(key),
                created_at: UnixSeconds(device.created_at),
            },
        ),
        None => None,
    }
}

/// The devices that names stand for: none where one stands for none.
pub open spec fn entries_of(devices: Seq<FfiDeviceEntry>) -> Option<Seq<DeviceEntry>> {
    if forall|i: int| 0 <= i < devices.len() ==> entry_of(#[trigger] devices[i]) is Some {
        Some(Seq::new(devices.len(), |i: int| entry_of(devices[i])->Some_0))
    } else {
        None
    }
}

/// Effects are only added at the end.
pub proof fn effects_keep_their_order(m: RuntimeModel, effects: Seq<AppKeysEffectModel>)
    ensures
        asked_all(m, effects).effects.len() == m.effects.len() + effects.len(),
        asked_all(m, effects).effects.take(m.effects.len() as int) == m.effects,
    decreases effects.len(),
{
    if effects.len() > 0 {
        effects_keep_their_order(m, effects.drop_last());
        let before = asked_all(m, effects.drop_last());
        assert(asked_all(m, effects).effects.take(m.effects.len() as int)
            =~= before.effects.take(m.effects.len() as int));
    } else {
        assert(m.effects.take(m.effects.len() as int) =~= m.effects);
    }
}

} // verus!
