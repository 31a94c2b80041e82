//! What the service does with the devices of the local owner, whatever it is
//! told.
use vstd::prelude::*;
use super::app_keys_flow::{
    flow_step, AppKeysEffectModel, FlowModel, InputModel, NotificationModel, APP_KEYS_STORAGE_KEY,
};
use super::app_keys_manager::{loaded, with_device_key, AppKeysManagerModel};
use super::runtime_api::{
    asked_all, effects_keep_their_order, guarded, ndr_fault, route_of, routes_event, without_value,
    NdrError, NdrFault, Route, RuntimeModel,
};
use crate::app_keys::{app_keys_json, app_keys_of, listed, merged, AppKeysModel, DeviceEntry};
use crate::codec::nostr::{device_list_of, lists_devices};
use crate::encoding::hex_key;
use crate::event::{texts_of_json, SignedBody};
use crate::ids::{DevicePubkey, OwnerPubkey, UnixSeconds};
use crate::json::{json_text, record_parsed};

verus! {

/// Whether devices are asked to be stored.
pub open spec fn asks_to_store(effects: Seq<AppKeysEffectModel>, keys: AppKeysModel) -> bool {
    exists|i: int|
        0 <= i < effects.len() && (#[trigger] effects[i] matches AppKeysEffectModel::Write(key, text)
            && key == APP_KEYS_STORAGE_KEY@ && text == json_text(app_keys_json(keys)))
}

/// Whether something is told.
pub open spec fn tells(effects: Seq<AppKeysEffectModel>, n: NotificationModel) -> bool {
    exists|i: int| 0 <= i < effects.len() && #[trigger] effects[i] == AppKeysEffectModel::Notify(n)
}

/// A device that is added is there then, as it was given, and so are all that
/// were there; one that was there stays as it was. The devices are stored if
/// one was added.
pub proof fn added_devices_are_there(m: FlowModel, device: DeviceEntry)
    requires
        m.phase is Ready,
    ensures
        ({
            let k = device.identity_pubkey;
            let known = m.keys.devices.contains_key(k);
            flow_step(m, InputModel::Add(device)) matches Ok((after, effects)) && {
                &&& after.phase == m.phase
                &&& after.keys.devices.contains_key(k)
                &&& known ==> after == m && tells(
                    effects,
                    NotificationModel::DeviceAddIgnoredAlreadyExists(k),
                )
                &&& !known ==> after.keys.devices[k] == device && asks_to_store(effects, after.keys)
                    && tells(effects, NotificationModel::DeviceAdded(k))
                &&& after.keys.labels == m.keys.labels
                &&& forall|other: DevicePubkey|
                    other != k ==> after.keys.devices.contains_key(other)
                        == m.keys.devices.contains_key(other)
                        && #[trigger] after.keys.devices[other] == m.keys.devices[other]
            }
        }),
{
    let (after, effects) = flow_step(m, InputModel::Add(device))->Ok_0;
    let first = effects[0];
    if effects.len() > 1 {
        let second = effects[1];
    }
}

/// A device that is removed is gone then, with its labels, and all others stay.
/// The devices are stored if one was removed.
pub proof fn removed_devices_are_gone(m: FlowModel, k: DevicePubkey)
    requires
        m.phase is Ready,
    ensures
        flow_step(m, InputModel::Remove(k)) matches Ok((after, effects)) && {
            &&& after.phase == m.phase
            &&& !after.keys.devices.contains_key(k)
            &&& m.keys.devices.contains_key(k) ==> !after.keys.labels.contains_key(k)
                && asks_to_store(effects, after.keys) && tells(
                effects,
                NotificationModel::DeviceRemoved(k),
            )
            &&& !m.keys.devices.contains_key(k) ==> after == m && tells(
                effects,
                NotificationModel::DeviceRemoveIgnoredMissing(k),
            )
            &&& forall|other: DevicePubkey|
                other != k ==> after.keys.devices.contains_key(other)
                    == m.keys.devices.contains_key(other) && #[trigger] after.keys.devices[other]
                    == m.keys.devices[other]
            &&& forall|other: DevicePubkey|
                other != k ==> after.keys.labels.contains_key(other) == m.keys.labels.contains_key(
                    other,
                ) && #[trigger] after.keys.labels[other] == m.keys.labels[other]
        },
{
    let (after, effects) = flow_step(m, InputModel::Remove(k))->Ok_0;
    let first = effects[0];
    if effects.len() > 1 {
        let second = effects[1];
    }
}

/// Devices that are set are those that were given, and are stored.
pub proof fn set_devices_are_those_given(m: FlowModel, keys: AppKeysModel)
    requires
        m.phase is Ready,
    ensures
        flow_step(m, InputModel::SetKeys(keys)) matches Ok((after, effects)) && after.keys == keys
            && after.phase == m.phase && asks_to_store(effects, keys) && tells(
            effects,
            NotificationModel::AppKeysSet,
        ),
{
    let effects = flow_step(m, InputModel::SetKeys(keys))->Ok_0.1;
    let first = effects[0];
    let second = effects[1];
}

/// Devices that an event lists are added to those that are there: none is lost,
/// each that is in both is there since the earlier of its times, and the labels
/// stay. They are stored if anything changed. An event that lists no devices is
/// refused and changes nothing.
pub proof fn listed_devices_are_added(m: FlowModel, event: SignedBody, k: DevicePubkey)
    requires
        m.phase is Ready,
        m.keys.devices.dom().finite(),
        m.keys.keyed(),
        m.keys.labels_known(),
    ensures
        device_list_of(event) is Err ==> flow_step(m, InputModel::Event(event)) is Err,
        device_list_of(event) matches Ok(list) ==> (flow_step(m, InputModel::Event(event))
            matches Ok((after, effects)) && {
            &&& after.phase == m.phase
            &&& after.keys.devices.contains_key(k) <==> m.keys.devices.contains_key(k) || exists|
                i: int,
            |
                0 <= i < list.len() && (#[trigger] list[i]).identity_pubkey == k
            &&& m.keys.devices.contains_key(k) ==> after.keys.devices[k].created_at.0
                <= m.keys.devices[k].created_at.0
            &&& after.keys.labels == m.keys.labels
            &&& after.keys != m.keys ==> asks_to_store(effects, after.keys)
        }),
{
    if let Ok(list) = device_list_of(event) {
        let incoming = AppKeysModel { devices: listed(list), labels: Map::empty() };
        lemma_listed(list);
        crate::device_properties::lists_have_what_they_name(list);
        crate::device_properties::merged_lists_have_both(m.keys, incoming, k);
        let (after, effects) = flow_step(m, InputModel::Event(event))->Ok_0;
        let keys = merged(m.keys, incoming);
        assert(keys.labels =~= m.keys.labels) by {
            assert forall|d: DevicePubkey| #[trigger] keys.labels.contains_key(d)
                <==> m.keys.labels.contains_key(d) by {
                crate::device_properties::merged_lists_have_both(m.keys, incoming, d);
                if m.keys.labels.contains_key(d) {
                    assert(m.keys.labels.dom().contains(d));
                    assert(m.keys.devices.dom().contains(d));
                }
            }
            assert forall|d: DevicePubkey| #[trigger] keys.labels.contains_key(d) implies keys.labels[d]
                == m.keys.labels[d] by {
                crate::device_properties::merged_lists_have_both(m.keys, incoming, d);
            }
        }
        let first = effects[0];
        assert(after.keys == keys);
    }
}

proof fn lemma_listed(list: Seq<DeviceEntry>)
    ensures
        listed(list).dom().finite(),
        forall|k: DevicePubkey| #[trigger]
            listed(list).contains_key(k) ==> listed(list)[k].identity_pubkey == k,
    decreases list.len(),
{
    if list.len() > 0 {
        lemma_listed(list.drop_last());
    }
}

/// What is published of the devices names each of them and changes nothing.
pub proof fn publishing_changes_nothing(m: FlowModel, owner: OwnerPubkey, now: UnixSeconds)
    requires
        m.phase is Ready,
    ensures
        flow_step(m, InputModel::Publish(owner, now)) matches Ok((after, effects)) && after == m
            && effects.len() > 0 && (effects[0] matches AppKeysEffectModel::Publish(event)
            && event.pubkey == owner.device() && event.created_at == now && event
            == crate::codec::nostr::device_list_event(
            owner.device(),
            now,
            m.keys.devices,
            Seq::empty(),
        )),
{
}

/// Devices are read from storage once, at the start: until they are, nothing
/// changes them. What was stored is what is there then; where nothing was, or
/// it cannot be read, the devices stay as they are.
pub proof fn devices_are_read_before_they_are_changed(m: FlowModel, input: InputModel)
    ensures
        m.phase is NotStarted && !(input is Start) ==> (flow_step(m, input) matches Ok((after, _))
            && after == m),
        m.phase is NotStarted && input is Start ==> (flow_step(m, input) matches Ok((after, effects))
            && after.phase is Initializing && after.keys == m.keys && effects.contains(
            AppKeysEffectModel::Read(APP_KEYS_STORAGE_KEY@),
        )),
        !(m.phase is NotStarted) && input is Start ==> (flow_step(m, input) matches Ok((after, _))
            && after == m),
        m.phase is Initializing && !(input is ReadResult) ==> (flow_step(m, input) matches Ok(
            (after, _),
        ) && after == m),
        !(m.phase is NotStarted) ==> (input matches InputModel::ReadResult(key, value, error)
            ==> (flow_step(m, input) matches Ok((after, effects)) && {
            &&& key != APP_KEYS_STORAGE_KEY@ ==> after == m
            &&& key == APP_KEYS_STORAGE_KEY@ ==> {
                &&& after.phase is Ready
                &&& error is None && value is Some && app_keys_of(value->Some_0) is Some
                    ==> Some(after.keys) == app_keys_of(value->Some_0)
                &&& error is Some || value is None || app_keys_of(value->Some_0) is None
                    ==> after.keys == m.keys
            }
        })),
{
    if m.phase is NotStarted && input is Start {
        let effects = flow_step(m, input)->Ok_0.1;
        assert(effects[1] == AppKeysEffectModel::Read(APP_KEYS_STORAGE_KEY@));
    }
}

/// An event goes where its subscription leads: one that lists devices to the
/// devices, if the subscription is theirs, and else nowhere. In every case the
/// last thing that is told is what became of the event, and no subscription
/// changes.
pub proof fn events_go_where_their_subscription_leads(
    before: RuntimeModel,
    after: RuntimeModel,
    sub_id: Seq<char>,
    event: SignedBody,
    text: Seq<char>,
    r: Result<(), NdrError>,
)
    requires
        routes_event(before, after, sub_id, event, text, r),
    ensures
        after.subscriptions == before.subscriptions,
        after.routes == before.routes,
        after.requests == before.requests,
        after.started == before.started,
        !(before.routes.contains_key(sub_id) && before.routes[sub_id] is AppKeys && lists_devices(
            event.body,
        )) ==> after.flow == before.flow && r is Ok,
        r is Err ==> after == before,
        r is Ok ==> {
            let last = after.effects.last();
            &&& after.effects.len() > before.effects.len()
            &&& last.sub_id == Some(sub_id)
            &&& last.event_json == Some(text)
            &&& last.success == Some(before.routes.contains_key(sub_id))
            &&& forall|i: int|
                0 <= i < before.effects.len() ==> #[trigger] after.effects[i] == before.effects[i]
        },
        r is Ok && before.routes.contains_key(sub_id) && before.routes[sub_id] is AppKeys
            && lists_devices(event.body) ==> (flow_step(before.flow, InputModel::Event(event))
            matches Ok((flow, _)) && after.flow == flow),
{
    if before.routes.contains_key(sub_id) && before.routes[sub_id] is AppKeys && lists_devices(
        event.body,
    ) {
        if let Ok((flow, effects)) = flow_step(before.flow, InputModel::Event(event)) {
            lemma_asked(RuntimeModel { flow, ..before }, effects);
        }
    }
}

proof fn lemma_asked(m: RuntimeModel, effects: Seq<AppKeysEffectModel>)
    ensures
        ({
            let after = asked_all(m, effects);
            &&& after.subscriptions == m.subscriptions
            &&& after.routes == m.routes
            &&& after.requests == m.requests
            &&& after.started == m.started
            &&& after.flow == m.flow
            &&& after.effects.len() == m.effects.len() + effects.len()
            &&& forall|i: int|
                0 <= i < m.effects.len() ==> #[trigger] after.effects[i] == m.effects[i]
        }),
    decreases effects.len(),
{
    if effects.len() > 0 {
        lemma_asked(m, effects.drop_last());
    }
}

/// Every request for the devices is told, one effect for each, in order: what
/// is to be read, written and published, with its key and its text.
pub proof fn requests_are_passed_on(m: RuntimeModel, effects: Seq<AppKeysEffectModel>, i: int)
    requires
        0 <= i < effects.len(),
    ensures
        ({
            let after = asked_all(m, effects);
            let e = after.effects[m.effects.len() + i];
            &&& after.effects.len() == m.effects.len() + effects.len()
            &&& match effects[i] {
                AppKeysEffectModel::Read(key) => e.kind == "runtime.storage.read_request"@ && e.key
                    == Some(key) && e.correlation_id is Some,
                AppKeysEffectModel::Write(key, text) => e.kind == "runtime.storage.write_request"@
                    && e.key == Some(key) && e.value == Some(text) && e.correlation_id is Some,
                AppKeysEffectModel::Delete(key) => e.kind == "runtime.storage.delete_request"@
                    && e.key == Some(key) && e.correlation_id is Some,
                AppKeysEffectModel::Publish(event) => e.kind == "runtime.nostr.publish_unsigned"@
                    && e.event_json == Some(crate::event::unsigned_printed(event)),
                AppKeysEffectModel::Notify(_) => e.success == Some(true) && e.value is Some,
            }
        }),
    decreases effects.len(),
{
    let fewer = effects.drop_last();
    lemma_asked(m, effects);
    lemma_asked(m, fewer);
    let mid = asked_all(m, fewer);
    lemma_asked(mid, seq![effects.last()]);
    if i < fewer.len() {
        requests_are_passed_on(m, fewer, i);
        assert(fewer[i] == effects[i]);
        assert(asked_all(m, effects).effects[m.effects.len() + i] == mid.effects[m.effects.len()
            + i]) by {
            reveal_with_fuel(asked_all, 2);
            assert(seq![effects.last()].drop_last() =~= Seq::empty());
        }
    }
}

/// A subscription that ended is not asked after any more: no request leads to
/// it, and those that lead elsewhere stay.
pub proof fn ended_subscriptions_are_forgotten(
    requests: Map<Seq<char>, Seq<char>>,
    sub_id: Seq<char>,
)
    ensures
        forall|k: Seq<char>| #[trigger]
            without_value(requests, sub_id).contains_key(k) <==> requests.contains_key(k)
                && requests[k] != sub_id,
        forall|k: Seq<char>| #[trigger]
            without_value(requests, sub_id).contains_key(k) ==> without_value(requests, sub_id)[k]
                == requests[k],
{
}

/// The name of a request that begins with the name of a part of the service and
/// a colon or a slash leads to that part.
pub proof fn requests_lead_to_their_part(rest: Seq<char>)
    ensures
        route_of("app_keys:"@ + rest) == Some(Route::AppKeys),
        route_of("app_keys/"@ + rest) == Some(Route::AppKeys),
        route_of("sessions:"@ + rest) == Some(Route::Sessions),
        route_of("sessions/"@ + rest) == Some(Route::Sessions),
{
    reveal_strlit("app_keys:");
    reveal_strlit("app_keys/");
    reveal_strlit("sessions:");
    reveal_strlit("sessions/");
    let a = "app_keys:"@ + rest;
    let b = "app_keys/"@ + rest;
    let c = "sessions:"@ + rest;
    let d = "sessions/"@ + rest;
    assert(a.take(9) =~= "app_keys:"@);
    assert(b.take(9) =~= "app_keys/"@);
    assert(c.take(9) =~= "sessions:"@);
    assert(d.take(9) =~= "sessions/"@);
    assert(c.take(9)[0] == 's' && d.take(9)[0] == 's');
    assert("app_keys:"@[0] == 'a' && "app_keys/"@[0] == 'a');
}

/// A manager of devices that reads what was stored has the devices and the
/// trusted devices that were stored; devices that cannot be read leave those
/// that it has. A device that it gets is there then, and one that it had stays
/// as it was.
pub proof fn managers_have_what_was_stored(
    m: AppKeysManagerModel,
    app_keys: Option<Seq<char>>,
    trusted: Option<Seq<char>>,
    device: DeviceEntry,
)
    ensures
        ({
            let after = loaded(m, app_keys, trusted);
            &&& after.initialized
            &&& app_keys is Some && app_keys_of(app_keys->Some_0) is Some ==> Some(after.keys)
                == app_keys_of(app_keys->Some_0)
            &&& app_keys is None || app_keys_of(app_keys->Some_0) is None ==> after.keys == m.keys
            &&& trusted is None ==> forall|k: DevicePubkey| !after.trusted.contains(k)
            &&& trusted matches Some(text) ==> (record_parsed(text) matches Some(value) && (
            texts_of_json(value) matches Some(names) && forall|k: DevicePubkey| #[trigger]
                after.trusted.contains(k) <==> exists|i: int|
                    0 <= i < names.len() && hex_key(#[trigger] names[i]) == Some(k.0))) || forall|
                k: DevicePubkey,
            |
                !after.trusted.contains(k)
        }),
        ({
            let k = device.identity_pubkey;
            let after = with_device_key(m.keys, device);
            &&& after.devices.contains_key(k)
            &&& m.keys.devices.contains_key(k) ==> after == m.keys
            &&& !m.keys.devices.contains_key(k) ==> after.devices[k] == device
            &&& forall|other: DevicePubkey|
                other != k ==> after.devices.contains_key(other) == m.keys.devices.contains_key(
                    other,
                ) && #[trigger] after.devices[other] == m.keys.devices[other]
            &&& after.labels == m.keys.labels
        }),
{
}

/// The service does nothing before it is started, and says so. Then what it is
/// told goes to the devices; what they refuse changes nothing.
pub proof fn the_service_must_be_started(
    before: RuntimeModel,
    after: RuntimeModel,
    input: InputModel,
    r: Result<(), NdrError>,
)
    requires
        guarded(before, after, input, r),
    ensures
        !before.started ==> after == before && (r matches Err(e) && e is StateMismatch),
        before.started && flow_step(before.flow, input) is Err ==> after == before && (r matches Err(
            e,
        ) && ndr_fault(e) == NdrFault::InvalidEvent),
        before.started ==> (flow_step(before.flow, input) matches Ok((flow, effects)) ==> {
            &&& r is Ok
            &&& after.flow == flow
            &&& after.started
            &&& after.effects.len() == before.effects.len() + effects.len()
            &&& after.effects.take(before.effects.len() as int) == before.effects
        }),
{
    if before.started {
        if let Ok((flow, effects)) = flow_step(before.flow, input) {
            let mid = RuntimeModel { flow, ..before };
            effects_keep_their_order(mid, effects);
            lemma_asking_keeps_the_devices(mid, effects);
        }
    }
}

proof fn lemma_asking_keeps_the_devices(m: RuntimeModel, effects: Seq<AppKeysEffectModel>)
    ensures
        asked_all(m, effects).flow == m.flow,
        asked_all(m, effects).started == m.started,
    decreases effects.len(),
{
    if effects.len() > 0 {
        lemma_asking_keeps_the_devices(m, effects.drop_last());
    }
}

} // verus!
