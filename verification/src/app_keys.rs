//! The devices that an owner has authorised, and how they are labelled.
use vstd::prelude::*;
use crate::collections::{lists, ordered, ordered_values, OrderedKey, VecMap};
use crate::encoding::{hex_key, hex_key_round_trip, hex_text};
use crate::error::{fault, Error, Fault};
use crate::ids::{DevicePubkey, UnixSeconds};
use crate::json::{
    as_record, field_absent, field_of, field_values, json_text, lemma_members, maybe_member,
    parse_record, plain, print_json, push_field, record_parsed, strs, text_field, uint_field, Json,
    JsonValue,
};
use crate::keyed_json::{
    keyed_fields, keyed_from_json, keyed_of_json, keyed_round_trip, keyed_to_json, models,
    JsonEntry,
};
use crate::rumor::text_of;

verus! {

#[derive(Debug, Clone, Copy)]
pub struct DeviceEntry {
    pub identity_pubkey: DevicePubkey,
    pub created_at: UnixSeconds,
}

impl DeviceEntry {
    pub fn new(identity_pubkey: DevicePubkey, created_at: u64) -> (r: Self)
        ensures
            r == (DeviceEntry { identity_pubkey, created_at: UnixSeconds(created_at) }),
    {
        DeviceEntry { identity_pubkey, created_at: UnixSeconds(created_at) }
    }
}

#[derive(Debug)]
pub struct DeviceLabels {
    pub device_label: Option<String>,
    pub client_label: Option<String>,
    pub updated_at: UnixSeconds,
}

/// What the labels of a device say.
#[verifier::ext_equal]
pub struct LabelsModel {
    pub device_label: Option<Seq<char>>,
    pub client_label: Option<Seq<char>>,
    pub updated_at: UnixSeconds,
}

impl View for DeviceLabels {
    type V = LabelsModel;

    open spec fn view(&self) -> LabelsModel {
        LabelsModel {
            device_label: text_of(self.device_label),
            client_label: text_of(self.client_label),
            updated_at: self.updated_at,
        }
    }
}

impl Clone for DeviceLabels {
    fn clone(&self) -> (r: Self)
        ensures
            r@ == self@,
    {
        DeviceLabels {
            device_label: self.device_label.clone(),
            client_label: self.client_label.clone(),
            updated_at: self.updated_at,
        }
    }
}

/// The devices of an owner.
#[derive(Debug)]
pub struct AppKeys {
    devices: VecMap<DevicePubkey, DeviceEntry>,
    device_labels: VecMap<DevicePubkey, DeviceLabels>,
}

/// What the devices of an owner say.
#[verifier::ext_equal]
pub struct AppKeysModel {
    pub devices: Map<DevicePubkey, DeviceEntry>,
    pub labels: Map<DevicePubkey, LabelsModel>,
}

impl View for AppKeys {
    type V = AppKeysModel;

    closed spec fn view(&self) -> AppKeysModel {
        AppKeysModel { devices: self.devices@, labels: models(self.device_labels@) }
    }
}

impl AppKeysModel {
    /// Whether every device stands under its own key.
    pub open spec fn keyed(self) -> bool {
        forall|k: DevicePubkey| #[trigger]
            self.devices.contains_key(k) ==> self.devices[k].identity_pubkey == k
    }

    /// Whether only devices are labelled.
    pub open spec fn labels_known(self) -> bool {
        self.labels.dom().subset_of(self.devices.dom())
    }
}

impl JsonEntry for DeviceEntry {
    type Model = DeviceEntry;

    open spec fn model(self) -> DeviceEntry {
        self
    }

    open spec fn as_json(model: DeviceEntry) -> JsonValue {
        JsonValue::Object(
            seq![
                ("identity_pubkey"@, JsonValue::Str(hex_text(model.identity_pubkey.0@))),
                ("created_at"@, JsonValue::Uint(model.created_at.0)),
            ],
        )
    }

    open spec fn of_json(value: JsonValue) -> Option<DeviceEntry> {
        let value = as_record(value, seq!["identity_pubkey"@, "created_at"@]);
        match (text_field(value, "identity_pubkey"@), uint_field(value, "created_at"@)) {
            (Some(text), Some(created_at)) => match hex_key(text) {
                Some(key) => Some(
                    DeviceEntry {
                        identity_pubkey: DevicePubkey(key),
                        created_at: UnixSeconds(created_at),
                    },
                ),
                None => None,
            },
            _ => None,
        }
    }

    proof fn read_back(model: DeviceEntry) {
        reveal_strlit("identity_pubkey");
        reveal_strlit("created_at");
        assert("identity_pubkey"@.len() != "created_at"@.len());
        hex_key_round_trip(model.identity_pubkey.0);
        let fields = Self::as_json(model)->Object_0;
        lemma_members(fields);
        assert(fields[0].0 == "identity_pubkey"@);
        assert(fields[1].0 == "created_at"@);
    }

    fn to_json(&self) -> (r: Json) {
        let mut fields: Vec<(String, Json)> = Vec::new();
        push_field(&mut fields, "identity_pubkey", Json::Str(self.identity_pubkey.to_hex()));
        push_field(&mut fields, "created_at", Json::Uint(self.created_at.0));
        let json = Json::Object(fields);
        assert(json@->Object_0 =~= Self::as_json(*self)->Object_0);
        json
    }

    fn from_json(json: Json) -> (r: Option<DeviceEntry>) {
        let names: [&str; 2] = ["identity_pubkey", "created_at"];
        assert(strs(names@) =~= seq!["identity_pubkey"@, "created_at"@]);
        let json = json.into_record(&names);
        let key_text = match json.text_field("identity_pubkey") {
            Some(text) => text,
            None => {
                return None;
            },
        };
        let created_at: u64 = match json.uint_field("created_at") {
            Some(n) => n,
            None => {
                return None;
            },
        };
        match DevicePubkey::parse_hex(key_text.as_str()) {
            Ok(identity_pubkey) => Some(
                DeviceEntry { identity_pubkey, created_at: UnixSeconds(created_at) },
            ),
            Err(_) => None,
        }
    }
}

/// Whether a field that may be left out is left out or a text.
pub open spec fn optional_text(value: JsonValue, name: Seq<char>) -> bool {
    field_absent(value, name) || text_field(value, name) is Some
}

/// The members of labels.
pub open spec fn label_members(model: LabelsModel) -> Seq<(Seq<char>, JsonValue)> {
    maybe_member("device_label"@, model.device_label) + maybe_member(
        "client_label"@,
        model.client_label,
    ) + seq![("updated_at"@, JsonValue::Uint(model.updated_at.0))]
}

/// The labels that an object holds.
pub open spec fn labels_in(value: JsonValue) -> Option<LabelsModel> {
    match uint_field(value, "updated_at"@) {
        Some(updated_at) => if optional_text(value, "device_label"@) && optional_text(
            value,
            "client_label"@,
        ) {
            Some(
                LabelsModel {
                    device_label: text_field(value, "device_label"@),
                    client_label: text_field(value, "client_label"@),
                    updated_at: UnixSeconds(updated_at),
                },
            )
        } else {
            None
        },
        None => None,
    }
}

/// Adds labels to the members of an object.
pub(crate) fn push_labels(fields: &mut Vec<(String, Json)>, labels: &DeviceLabels)
    ensures
        field_values(final(fields)@) == field_values(old(fields)@) + label_members(labels@),
{
    let ghost before = field_values(fields@);
    if let Some(text) = &labels.device_label {
        push_field(fields, "device_label", Json::Str(text.clone()));
    }
    if let Some(text) = &labels.client_label {
        push_field(fields, "client_label", Json::Str(text.clone()));
    }
    push_field(fields, "updated_at", Json::Uint(labels.updated_at.0));
    assert(field_values(fields@) =~= before + label_members(labels@));
}

pub(crate) fn read_labels(json: &Json) -> (r: Option<DeviceLabels>)
    ensures
        r is Some == labels_in(json@) is Some,
        r matches Some(labels) ==> labels_in(json@) == Some(labels@),
{
    let updated_at: u64 = match json.uint_field("updated_at") {
        Some(n) => n,
        None => {
            return None;
        },
    };
    let device_label = match json.text_field("device_label") {
        Some(text) => Some(text.clone()),
        None => {
            if !json.field_absent("device_label") {
                return None;
            }
            None
        },
    };
    let client_label = match json.text_field("client_label") {
        Some(text) => Some(text.clone()),
        None => {
            if !json.field_absent("client_label") {
                return None;
            }
            None
        },
    };
    Some(DeviceLabels { device_label, client_label, updated_at: UnixSeconds(updated_at) })
}

impl JsonEntry for DeviceLabels {
    type Model = LabelsModel;

    open spec fn model(self) -> LabelsModel {
        self@
    }

    open spec fn as_json(model: LabelsModel) -> JsonValue {
        JsonValue::Object(label_members(model))
    }

    open spec fn of_json(value: JsonValue) -> Option<LabelsModel> {
        labels_in(as_record(value, seq!["device_label"@, "client_label"@, "updated_at"@]))
    }

    proof fn read_back(model: LabelsModel) {
        lemma_label_names();
        let fields = label_members(model);
        lemma_members(fields);
        assert(fields.last().0 == "updated_at"@);
        if model.device_label is Some {
            assert(fields[0].0 == "device_label"@);
            if model.client_label is Some {
                assert(fields[1].0 == "client_label"@);
            }
        } else if model.client_label is Some {
            assert(fields[0].0 == "client_label"@);
        }
    }

    fn to_json(&self) -> (r: Json) {
        let mut fields: Vec<(String, Json)> = Vec::new();
        push_labels(&mut fields, self);
        let json = Json::Object(fields);
        assert(json@->Object_0 =~= Self::as_json(self@)->Object_0);
        json
    }

    fn from_json(json: Json) -> (r: Option<DeviceLabels>) {
        let names: [&str; 3] = ["device_label", "client_label", "updated_at"];
        assert(strs(names@) =~= seq!["device_label"@, "client_label"@, "updated_at"@]);
        read_labels(&json.into_record(&names))
    }
}

proof fn lemma_label_names()
    ensures
        "updated_at"@ != "device_label"@,
        "updated_at"@ != "client_label"@,
        "device_label"@ != "client_label"@,
{
    reveal_strlit("updated_at");
    reveal_strlit("device_label");
    reveal_strlit("client_label");
    assert("updated_at"@.len() == 10);
    assert("device_label"@.len() == 12 && "device_label"@[0] == 'd');
    assert("client_label"@.len() == 12 && "client_label"@[0] == 'c');
}

/// The devices of a list, each under its key. Of one that is there twice, the
/// last counts.
pub open spec fn listed(list: Seq<DeviceEntry>) -> Map<DevicePubkey, DeviceEntry>
    decreases list.len(),
{
    if list.len() == 0 {
        Map::empty()
    } else {
        listed(list.drop_last()).insert(list.last().identity_pubkey, list.last())
    }
}

/// Devices with one more: of two entries of a device, the older stays.
pub open spec fn with_earliest(
    devices: Map<DevicePubkey, DeviceEntry>,
    device: DeviceEntry,
) -> Map<DevicePubkey, DeviceEntry> {
    let k = device.identity_pubkey;
    if devices.contains_key(k) && device.created_at.0 >= devices[k].created_at.0 {
        devices
    } else {
        devices.insert(k, device)
    }
}

/// Devices with those of a list.
pub open spec fn with_all_earliest(
    devices: Map<DevicePubkey, DeviceEntry>,
    list: Seq<DeviceEntry>,
) -> Map<DevicePubkey, DeviceEntry>
    decreases list.len(),
{
    if list.len() == 0 {
        devices
    } else {
        with_earliest(with_all_earliest(devices, list.drop_last()), list.last())
    }
}

/// The devices of two lists of devices: of two entries of a device, the older.
pub open spec fn merged_devices(
    a: Map<DevicePubkey, DeviceEntry>,
    b: Map<DevicePubkey, DeviceEntry>,
) -> Map<DevicePubkey, DeviceEntry> {
    with_all_earliest(
        with_all_earliest(Map::empty(), ordered_values::<DevicePubkey, DeviceEntry>(a)),
        ordered_values::<DevicePubkey, DeviceEntry>(b),
    )
}

/// The labels of a device in one or the other: of two, the newer, and of two
/// of the same time the first.
pub open spec fn newer_labels(
    a: Map<DevicePubkey, LabelsModel>,
    b: Map<DevicePubkey, LabelsModel>,
    k: DevicePubkey,
) -> LabelsModel {
    if b.contains_key(k) && (!a.contains_key(k) || b[k].updated_at.0 > a[k].updated_at.0) {
        b[k]
    } else {
        a[k]
    }
}

/// The two together. Labels of what is no device are dropped.
pub open spec fn merged(a: AppKeysModel, b: AppKeysModel) -> AppKeysModel {
    let devices = merged_devices(a.devices, b.devices);
    AppKeysModel {
        devices,
        labels: Map::new(
            |k: DevicePubkey|
                (a.labels.contains_key(k) || b.labels.contains_key(k)) && devices.contains_key(k),
            |k: DevicePubkey| newer_labels(a.labels, b.labels, k),
        ),
    }
}

fn keep_earliest(devices: &mut VecMap<DevicePubkey, DeviceEntry>, device: DeviceEntry)
    ensures
        final(devices)@ == with_earliest(old(devices)@, device),
{
    let newer: bool = match devices.get(&device.identity_pubkey) {
        Some(known) => device.created_at.0 >= known.created_at.0,
        None => false,
    };
    if !newer {
        devices.insert(device.identity_pubkey, device);
    }
}

fn keep_all_earliest(
    devices: &mut VecMap<DevicePubkey, DeviceEntry>,
    others: &VecMap<DevicePubkey, DeviceEntry>,
)
    ensures
        final(devices)@ == with_all_earliest(
            old(devices)@,
            ordered_values::<DevicePubkey, DeviceEntry>(others@),
        ),
{
    let ghost list = ordered_values::<DevicePubkey, DeviceEntry>(others@);
    let n: usize = others.len();
    let mut i: usize = 0;
    assert(list.take(0) =~= Seq::empty());
    while i < n
        invariant
            i <= n,
            n == others.order().len(),
            others.order() == ordered::<DevicePubkey>(others@.dom()),
            list == ordered_values::<DevicePubkey, DeviceEntry>(others@),
            devices@ == with_all_earliest(old(devices)@, list.take(i as int)),
        decreases n - i,
    {
        let device: DeviceEntry = *others.value_at(i);
        proof {
            assert(list.take(i + 1).drop_last() =~= list.take(i as int));
            assert(list.take(i + 1).last() == device);
        }
        keep_earliest(devices, device);
        i = i + 1;
    }
    assert(list.take(i as int) =~= list);
}

impl Clone for AppKeys {
    fn clone(&self) -> (r: Self)
        ensures
            r@ == self@,
    {
        let devices = self.devices.clone();
        let device_labels = self.device_labels.clone();
        proof {
            assert(devices@ =~= self.devices@);
            assert(models(device_labels@) =~= models(self.device_labels@));
        }
        AppKeys { devices, device_labels }
    }
}

impl AppKeys {
    pub fn new(devices: Vec<DeviceEntry>) -> (r: Self)
        ensures
            r@.devices == listed(devices@),
            r@.labels == Map::<DevicePubkey, LabelsModel>::empty(),
            r@.keyed(),
    {
        let mut map: VecMap<DevicePubkey, DeviceEntry> = VecMap::new();
        let mut i: usize = 0;
        assert(devices@.take(0) =~= Seq::empty());
        while i < devices.len()
            invariant
                i <= devices@.len(),
                map@ == listed(devices@.take(i as int)),
                forall|k: DevicePubkey| #[trigger]
                    map@.contains_key(k) ==> map@[k].identity_pubkey == k,
            decreases devices@.len() - i,
        {
            proof {
                assert(devices@.take(i + 1).drop_last() =~= devices@.take(i as int));
            }
            map.insert(devices[i].identity_pubkey, devices[i]);
            i = i + 1;
        }
        assert(devices@.take(i as int) =~= devices@);
        let r = AppKeys { devices: map, device_labels: VecMap::new() };
        assert(r@.labels =~= Map::empty());
        r
    }

    /// Adds a device, unless it is there already.
    pub fn add_device(&mut self, device: DeviceEntry)
        ensures
            final(self)@ == (AppKeysModel {
                devices: if old(self)@.devices.contains_key(device.identity_pubkey) {
                    old(self)@.devices
                } else {
                    old(self)@.devices.insert(device.identity_pubkey, device)
                },
                ..old(self)@
            }),
            old(self)@.keyed() ==> final(self)@.keyed(),
    {
        let ghost before = self@;
        if !self.devices.contains_key(&device.identity_pubkey) {
            self.devices.insert(device.identity_pubkey, device);
            assert(self@.devices == before.devices.insert(device.identity_pubkey, device));
        }
        proof {
            if before.keyed() {
                assert forall|k: DevicePubkey| #[trigger] self@.devices.contains_key(k) implies
                    self@.devices[k].identity_pubkey == k by {
                    if k != device.identity_pubkey {
                        assert(before.devices.contains_key(k));
                    }
                }
            }
        }
    }

    /// Removes a device and its labels.
    pub fn remove_device(&mut self, identity_pubkey: &DevicePubkey)
        ensures
            final(self)@ == (AppKeysModel {
                devices: old(self)@.devices.remove(*identity_pubkey),
                labels: old(self)@.labels.remove(*identity_pubkey),
            }),
            old(self)@.keyed() ==> final(self)@.keyed(),
    {
        self.devices.remove(identity_pubkey);
        self.device_labels.remove(identity_pubkey);
        assert(self@.labels =~= old(self)@.labels.remove(*identity_pubkey));
    }

    pub fn get_device(&self, identity_pubkey: &DevicePubkey) -> (r: Option<&DeviceEntry>)
        ensures
            r is Some == self@.devices.contains_key(*identity_pubkey),
            r matches Some(device) ==> *device == self@.devices[*identity_pubkey],
    {
        self.devices.get(identity_pubkey)
    }

    /// The devices in the order of their keys.
    pub fn get_all_devices(&self) -> (r: Vec<DeviceEntry>)
        ensures
            r@ == ordered_values::<DevicePubkey, DeviceEntry>(self@.devices),
            lists::<DevicePubkey>(
                ordered::<DevicePubkey>(self@.devices.dom()),
                self@.devices.dom(),
            ),
    {
        let mut r: Vec<DeviceEntry> = Vec::new();
        let n: usize = self.devices.len();
        let mut i: usize = 0;
        while i < n
            invariant
                i <= n,
                n == self.devices.order().len(),
                r@.len() == i,
                forall|j: int|
                    0 <= j < i ==> #[trigger] r@[j] == self.devices@[self.devices.order()[j]],
            decreases n - i,
        {
            r.push(*self.devices.value_at(i));
            i = i + 1;
        }
        assert(r@ =~= ordered_values::<DevicePubkey, DeviceEntry>(self@.devices));
        r
    }

    pub fn set_device_labels(
        &mut self,
        identity_pubkey: DevicePubkey,
        device_label: Option<String>,
        client_label: Option<String>,
        updated_at: UnixSeconds,
    )
        ensures
            final(self)@ == (AppKeysModel {
                labels: old(self)@.labels.insert(
                    identity_pubkey,
                    LabelsModel {
                        device_label: text_of(device_label),
                        client_label: text_of(client_label),
                        updated_at,
                    },
                ),
                ..old(self)@
            }),
            old(self)@.keyed() ==> final(self)@.keyed(),
    {
        let labels = DeviceLabels { device_label, client_label, updated_at };
        let ghost said = labels@;
        self.device_labels.insert(identity_pubkey, labels);
        assert(self@.labels =~= old(self)@.labels.insert(identity_pubkey, said));
    }

    pub fn get_device_labels(&self, identity_pubkey: &DevicePubkey) -> (r: Option<&DeviceLabels>)
        ensures
            r is Some == self@.labels.contains_key(*identity_pubkey),
            r matches Some(labels) ==> labels@ == self@.labels[*identity_pubkey],
    {
        self.device_labels.get(identity_pubkey)
    }

    /// The labels, by device, in the order of the devices' keys.
    pub fn get_all_device_labels(&self) -> (r: Vec<(DevicePubkey, DeviceLabels)>)
        ensures
            lists::<DevicePubkey>(ordered::<DevicePubkey>(self@.labels.dom()), self@.labels.dom()),
            r@.len() == ordered::<DevicePubkey>(self@.labels.dom()).len(),
            forall|i: int|
                0 <= i < r@.len() ==> (#[trigger] r@[i]).0 == ordered::<DevicePubkey>(
                    self@.labels.dom(),
                )[i] && r@[i].1@ == self@.labels[r@[i].0],
    {
        let mut r: Vec<(DevicePubkey, DeviceLabels)> = Vec::new();
        let n: usize = self.device_labels.len();
        let mut i: usize = 0;
        assert(self@.labels.dom() =~= self.device_labels@.dom());
        while i < n
            invariant
                i <= n,
                n == self.device_labels.order().len(),
                r@.len() == i,
                forall|j: int|
                    0 <= j < i ==> (#[trigger] r@[j]).0 == self.device_labels.order()[j] && r@[j].1@
                        == self@.labels[r@[j].0],
            decreases n - i,
        {
            let key: DevicePubkey = *self.device_labels.key_at(i);
            let labels: DeviceLabels = self.device_labels.value_at(i).clone();
            r.push((key, labels));
            i = i + 1;
        }
        r
    }

    /// Puts the devices and labels of two together.
    pub fn merge(&self, other: &AppKeys) -> (r: AppKeys)
        ensures
            r@ == merged(self@, other@),
    {
        let mut devices: VecMap<DevicePubkey, DeviceEntry> = VecMap::new();
        keep_all_earliest(&mut devices, &self.devices);
        keep_all_earliest(&mut devices, &other.devices);
        let mut labels: VecMap<DevicePubkey, DeviceLabels> = VecMap::new();
        let n: usize = self.device_labels.len();
        let mut i: usize = 0;
        while i < n
            invariant
                i <= n,
                n == self.device_labels.order().len(),
                lists::<DevicePubkey>(self.device_labels.order(), self.device_labels@.dom()),
                forall|k: DevicePubkey| #[trigger]
                    labels@.contains_key(k) <==> (devices@.contains_key(k)
                        && self.device_labels.order().take(i as int).contains(k)),
                forall|k: DevicePubkey| #[trigger]
                    labels@.contains_key(k) ==> labels@[k]@ == self@.labels[k],
            decreases n - i,
        {
            let key: DevicePubkey = *self.device_labels.key_at(i);
            proof {
                lemma_take_next(self.device_labels.order(), i as int);
            }
            if devices.contains_key(&key) {
                labels.insert(key, self.device_labels.value_at(i).clone());
            }
            i = i + 1;
        }
        proof {
            assert(self.device_labels.order().take(n as int) =~= self.device_labels.order());
            assert forall|k: DevicePubkey| #[trigger] self.device_labels@.contains_key(k)
                <==> self.device_labels.order().contains(k) by {
                assert(self.device_labels@.dom().contains(k) <==> self.device_labels.order().contains(k));
            }
        }
        let m: usize = other.device_labels.len();
        let mut j: usize = 0;
        while j < m
            invariant
                j <= m,
                m == other.device_labels.order().len(),
                lists::<DevicePubkey>(other.device_labels.order(), other.device_labels@.dom()),
                forall|k: DevicePubkey| #[trigger]
                    labels@.contains_key(k) <==> (devices@.contains_key(k)
                        && (self@.labels.contains_key(k)
                        || other.device_labels.order().take(j as int).contains(k))),
                forall|k: DevicePubkey| #[trigger]
                    labels@.contains_key(k) ==> labels@[k]@ == (if
                    other.device_labels.order().take(j as int).contains(k) {
                        newer_labels(self@.labels, other@.labels, k)
                    } else {
                        self@.labels[k]
                    }),
            decreases m - j,
        {
            let key: DevicePubkey = *other.device_labels.key_at(j);
            let candidate = other.device_labels.value_at(j);
            proof {
                lemma_take_next(other.device_labels.order(), j as int);
                lemma_not_before(other.device_labels.order(), other.device_labels@.dom(), j as int);
            }
            if devices.contains_key(&key) {
                let replace: bool = match labels.get(&key) {
                    Some(known) => candidate.updated_at.0 > known.updated_at.0,
                    None => true,
                };
                if replace {
                    labels.insert(key, candidate.clone());
                }
            }
            j = j + 1;
        }
        let r = AppKeys { devices, device_labels: labels };
        proof {
            assert(other.device_labels.order().take(m as int) =~= other.device_labels.order());
            assert forall|k: DevicePubkey| #[trigger] other.device_labels@.contains_key(k)
                <==> other.device_labels.order().contains(k) by {
                assert(other.device_labels@.dom().contains(k) <==> other.device_labels.order().contains(k));
            }
            let target = merged(self@, other@);
            assert forall|k: DevicePubkey| #[trigger] r@.labels.contains_key(k)
                <==> target.labels.contains_key(k) by {
                assert(labels@.contains_key(k) == r@.labels.contains_key(k));
            }
            assert forall|k: DevicePubkey| #[trigger] r@.labels.contains_key(k) implies r@.labels[k]
                == target.labels[k] by {
                assert(labels@.contains_key(k));
                if !other.device_labels.order().contains(k) {
                    assert(!other@.labels.contains_key(k));
                }
            }
            assert(r@.labels =~= target.labels);
        }
        r
    }

    /// Whether two lists of devices say the same.
    pub fn same(&self, other: &AppKeys) -> (r: bool)
        ensures
            r == (self@ == other@),
    {
        let r: bool = self.within(other) && other.within(self);
        proof {
            if r {
                assert(forall|k: DevicePubkey| #[trigger]
                    self@.devices.dom().contains(k) == other@.devices.dom().contains(k));
                assert(forall|k: DevicePubkey| #[trigger]
                    self@.labels.dom().contains(k) == other@.labels.dom().contains(k));
                assert(self@.devices =~= other@.devices);
                assert(self@.labels =~= other@.labels);
            }
        }
        r
    }

    /// Whether all that a list of devices says is said by another.
    fn within(&self, other: &AppKeys) -> (r: bool)
        ensures
            r == (self@.devices.submap_of(other@.devices) && self@.labels.submap_of(other@.labels)),
    {
        let n: usize = self.devices.len();
        let ghost order = self.devices.order();
        let mut i: usize = 0;
        while i < n
            invariant
                i <= n,
                n == order.len(),
                order == self.devices.order(),
                lists::<DevicePubkey>(order, self@.devices.dom()),
                forall|j: int|
                    0 <= j < i ==> other@.devices.contains_key(#[trigger] order[j])
                        && other@.devices[order[j]] == self@.devices[order[j]],
            decreases n - i,
        {
            let device = self.devices.value_at(i);
            let ghost key = order[i as int];
            let found: bool = match other.devices.get(self.devices.key_at(i)) {
                Some(known) => {
                    assert(UnixSeconds(known.created_at.0) == known.created_at);
                    assert(UnixSeconds(device.created_at.0) == device.created_at);
                    known.identity_pubkey == device.identity_pubkey && known.created_at.0
                        == device.created_at.0
                },
                None => false,
            };
            if !found {
                assert(self@.devices.dom().contains(key));
                return false;
            }
            i = i + 1;
        }
        assert(self@.devices.submap_of(other@.devices)) by {
            assert forall|k: DevicePubkey| #[trigger] self@.devices.dom().contains(k) implies
                other@.devices.dom().contains(k) && self@.devices[k] == other@.devices[k] by {
                assert(order.contains(k));
                let j = choose|j: int| 0 <= j < order.len() && order[j] == k;
                assert(other@.devices.contains_key(order[j]));
            }
        }
        let m: usize = self.device_labels.len();
        let ghost names = self.device_labels.order();
        assert(self@.labels.dom() =~= self.device_labels@.dom());
        let mut i: usize = 0;
        while i < m
            invariant
                i <= m,
                m == names.len(),
                names == self.device_labels.order(),
                lists::<DevicePubkey>(names, self@.labels.dom()),
                forall|j: int|
                    0 <= j < i ==> other@.labels.contains_key(#[trigger] names[j])
                        && other@.labels[names[j]] == self@.labels[names[j]],
            decreases m - i,
        {
            let labels = self.device_labels.value_at(i);
            let ghost key = names[i as int];
            assert(labels@ == self@.labels[key]);
            let found: bool = match other.device_labels.get(self.device_labels.key_at(i)) {
                Some(known) => {
                    assert(known@ == other@.labels[key]);
                    assert(UnixSeconds(known.updated_at.0) == known.updated_at);
                    assert(UnixSeconds(labels.updated_at.0) == labels.updated_at);
                    let same: bool = same_text(&known.device_label, &labels.device_label)
                        && same_text(&known.client_label, &labels.client_label)
                        && known.updated_at.0 == labels.updated_at.0;
                    assert(same == (known@ == labels@));
                    same
                },
                None => false,
            };
            if !found {
                assert(self@.labels.dom().contains(key));
                assert(!(other@.labels.dom().contains(key) && other@.labels[key]
                    == self@.labels[key]));
                assert(!self@.labels.submap_of(other@.labels)) by {
                    if self@.labels.submap_of(other@.labels) {
                        assert(self@.labels.dom().contains(key));
                        assert(other@.labels.dom().contains(key));
                    }
                }
                return false;
            }
            i = i + 1;
        }
        assert(self@.labels.submap_of(other@.labels)) by {
            assert forall|k: DevicePubkey| #[trigger] self@.labels.dom().contains(k) implies
                other@.labels.dom().contains(k) && self@.labels[k] == other@.labels[k] by {
                assert(names.contains(k));
                let j = choose|j: int| 0 <= j < names.len() && names[j] == k;
                assert(other@.labels.contains_key(names[j]));
            }
        }
        true
    }

    /// Writes the devices and labels down.
    pub fn serialize(&self) -> (r: Result<String, Error>)
        ensures
            r matches Ok(text) && text@ == json_text(app_keys_json(self@)) && app_keys_of(text@)
                == Some(self@),
    {
        let mut fields: Vec<(String, Json)> = Vec::new();
        push_field(&mut fields, "devices", keyed_to_json(&self.devices));
        push_field(&mut fields, "device_labels", keyed_to_json(&self.device_labels));
        let json = Json::Object(fields);
        proof {
            assert(models(self.devices@) =~= self@.devices);
            assert(self@.devices.dom().finite() && self@.labels.dom().finite());
            assert(json@->Object_0 =~= app_keys_json(self@)->Object_0);
            lemma_app_keys_plain(self@);
            app_keys_round_trip(self@);
        }
        Ok(print_json(&json))
    }

    /// Reads devices and labels.
    pub fn deserialize(json: &str) -> (r: Result<Self, Error>)
        ensures
            r is Ok == app_keys_of(json@) is Some,
            r matches Ok(keys) ==> app_keys_of(json@) == Some(keys@),
            r matches Err(e) ==> fault(e) == Fault::Parse,
    {
        let names: [&str; 2] = ["devices", "device_labels"];
        proof {
            assert(strs(names@) =~= app_keys_names());
            lemma_app_keys_names();
        }
        let value = match parse_record(json) {
            Ok(value) => value.into_record(&names),
            Err(e) => {
                return Err(Error::Parse(e));
            },
        };
        let (devices, labels) = match value.into_fields("devices", "device_labels") {
            Some(both) => both,
            None => {
                return Err(Error::Parse("missing field `devices` or `device_labels`".to_string()));
            },
        };
        let devices: VecMap<DevicePubkey, DeviceEntry> = match keyed_from_json(devices) {
            Some(map) => map,
            None => {
                return Err(Error::Parse("devices are no map by device".to_string()));
            },
        };
        let device_labels: VecMap<DevicePubkey, DeviceLabels> = match keyed_from_json(labels) {
            Some(map) => map,
            None => {
                return Err(Error::Parse("device labels are no map by device".to_string()));
            },
        };
        assert(models(devices@) =~= devices@);
        Ok(AppKeys { devices, device_labels })
    }
}

fn same_text(a: &Option<String>, b: &Option<String>) -> (r: bool)
    ensures
        r == (text_of(*a) == text_of(*b)),
{
    match (a, b) {
        (Some(a), Some(b)) => crate::order::same_str(a.as_str(), b.as_str()),
        (None, None) => true,
        _ => false,
    }
}

pub proof fn lemma_take_next(order: Seq<DevicePubkey>, i: int)
    requires
        0 <= i < order.len(),
    ensures
        forall|k: DevicePubkey| #[trigger]
            order.take(i + 1).contains(k) <==> order.take(i).contains(k) || k == order[i],
{
    let more = order.take(i + 1);
    let less = order.take(i);
    assert forall|k: DevicePubkey| #[trigger] more.contains(k) <==> less.contains(k) || k
        == order[i] by {
        if more.contains(k) {
            let p = choose|p: int| 0 <= p < more.len() && more[p] == k;
            if p < i {
                assert(less[p] == k);
            }
        }
        if less.contains(k) {
            let p = choose|p: int| 0 <= p < less.len() && less[p] == k;
            assert(more[p] == k);
        }
        if k == order[i] {
            assert(more[i] == k);
        }
    }
}

proof fn lemma_not_before(order: Seq<DevicePubkey>, members: Set<DevicePubkey>, i: int)
    requires
        lists::<DevicePubkey>(order, members),
        0 <= i < order.len(),
    ensures
        !order.take(i).contains(order[i]),
{
    if order.take(i).contains(order[i]) {
        let less = order.take(i);
        let p = choose|p: int| 0 <= p < less.len() && less[p] == order[i];
        assert(<DevicePubkey as OrderedKey>::before(order[p], order[i]));
        DevicePubkey::before_irreflexive(order[i]);
    }
}

/// Devices and labels as a JSON object.
pub open spec fn app_keys_json(m: AppKeysModel) -> JsonValue {
    JsonValue::Object(
        seq![
            ("devices"@, JsonValue::Object(keyed_fields::<DeviceEntry>(m.devices))),
            ("device_labels"@, JsonValue::Object(keyed_fields::<DeviceLabels>(m.labels))),
        ],
    )
}

/// The members of devices and labels.
pub open spec fn app_keys_names() -> Seq<Seq<char>> {
    seq!["devices"@, "device_labels"@]
}

/// The devices and labels that a JSON value is: an object, or a list of both.
pub open spec fn app_keys_of_json(value: JsonValue) -> Option<AppKeysModel> {
    let value = as_record(value, app_keys_names());
    match (field_of(value, "devices"@), field_of(value, "device_labels"@)) {
        (Some(devices), Some(labels)) => match (
            keyed_of_json::<DeviceEntry>(devices),
            keyed_of_json::<DeviceLabels>(labels),
        ) {
            (Some(devices), Some(labels)) => Some(AppKeysModel { devices, labels }),
            _ => None,
        },
        _ => None,
    }
}

/// The devices and labels that a text is.
pub open spec fn app_keys_of(text: Seq<char>) -> Option<AppKeysModel> {
    match record_parsed(text) {
        Some(value) => app_keys_of_json(value),
        None => None,
    }
}

proof fn lemma_app_keys_names()
    ensures
        "devices"@ != "device_labels"@,
{
    reveal_strlit("devices");
    reveal_strlit("device_labels");
    assert("devices"@.len() != "device_labels"@.len());
}

/// Devices and labels that were written down are read back.
pub proof fn app_keys_round_trip(m: AppKeysModel)
    requires
        m.devices.dom().finite(),
        m.labels.dom().finite(),
    ensures
        app_keys_of_json(app_keys_json(m)) == Some(m),
{
    lemma_app_keys_names();
    let fields = app_keys_json(m)->Object_0;
    lemma_members(fields);
    assert(fields[0].0 == "devices"@);
    assert(fields[1].0 == "device_labels"@);
    keyed_round_trip::<DeviceEntry>(m.devices);
    keyed_round_trip::<DeviceLabels>(m.labels);
}

proof fn lemma_app_keys_plain(m: AppKeysModel)
    ensures
        plain(app_keys_json(m), 127),
{
    reveal_with_fuel(plain, 4);
    let devices = keyed_fields::<DeviceEntry>(m.devices);
    assert forall|i: int| 0 <= i < devices.len() implies plain(
        (#[trigger] devices[i]).1,
        125,
    ) by {
        reveal_with_fuel(plain, 2);
    }
    let labels = keyed_fields::<DeviceLabels>(m.labels);
    assert forall|i: int| 0 <= i < labels.len() implies plain((#[trigger] labels[i]).1, 125) by {
        reveal_with_fuel(plain, 2);
    }
    assert(plain(JsonValue::Object(devices), 126));
    assert(plain(JsonValue::Object(labels), 126));
}

// ---------------------------------------------------------------------------
// Merging
// ---------------------------------------------------------------------------

/// Of two entries of a device, the one that stays.
pub open spec fn earliest(
    a: Map<DevicePubkey, DeviceEntry>,
    b: Map<DevicePubkey, DeviceEntry>,
    k: DevicePubkey,
) -> DeviceEntry {
    if b.contains_key(k) && (!a.contains_key(k) || b[k].created_at.0 < a[k].created_at.0) {
        b[k]
    } else {
        a[k]
    }
}

proof fn lemma_with_all(
    a: Map<DevicePubkey, DeviceEntry>,
    b: Map<DevicePubkey, DeviceEntry>,
    order: Seq<DevicePubkey>,
    list: Seq<DeviceEntry>,
    n: int,
)
    requires
        lists::<DevicePubkey>(order, b.dom()),
        list == Seq::new(order.len(), |i: int| b[order[i]]),
        forall|k: DevicePubkey| #[trigger] b.contains_key(k) ==> b[k].identity_pubkey == k,
        0 <= n <= order.len(),
    ensures
        ({
            let r = with_all_earliest(a, list.take(n));
            &&& forall|k: DevicePubkey| #[trigger]
                r.contains_key(k) <==> a.contains_key(k) || order.take(n).contains(k)
            &&& forall|k: DevicePubkey| #[trigger]
                r.contains_key(k) ==> r[k] == (if order.take(n).contains(k) {
                    earliest(a, b, k)
                } else {
                    a[k]
                })
        }),
    decreases n,
{
    if n == 0 {
        assert(list.take(0) =~= Seq::empty());
        assert(order.take(0) =~= Seq::empty());
    } else {
        lemma_with_all(a, b, order, list, n - 1);
        lemma_take_next(order, n - 1);
        lemma_not_before(order, b.dom(), n - 1);
        assert(list.take(n).drop_last() =~= list.take(n - 1));
        assert(list.take(n).last() == b[order[n - 1]]);
        assert(order.contains(order[n - 1]));
        assert(b.dom().contains(order[n - 1]));
        let before = with_all_earliest(a, list.take(n - 1));
        let device = b[order[n - 1]];
        assert(device.identity_pubkey == order[n - 1]);
        assert(with_all_earliest(a, list.take(n)) == with_earliest(before, device));
        assert(n - 1 + 1 == n);
    }
}

/// The devices of two lists are those of the one or the other, each with the
/// older of its entries.
pub proof fn merged_devices_are_earliest(
    a: Map<DevicePubkey, DeviceEntry>,
    b: Map<DevicePubkey, DeviceEntry>,
)
    requires
        a.dom().finite(),
        b.dom().finite(),
        forall|k: DevicePubkey| #[trigger] a.contains_key(k) ==> a[k].identity_pubkey == k,
        forall|k: DevicePubkey| #[trigger] b.contains_key(k) ==> b[k].identity_pubkey == k,
    ensures
        forall|k: DevicePubkey| #[trigger]
            merged_devices(a, b).contains_key(k) <==> a.contains_key(k) || b.contains_key(k),
        forall|k: DevicePubkey| #[trigger]
            merged_devices(a, b).contains_key(k) ==> merged_devices(a, b)[k] == earliest(a, b, k),
{
    let oa = ordered::<DevicePubkey>(a.dom());
    let ob = ordered::<DevicePubkey>(b.dom());
    crate::collections::ordered_lists::<DevicePubkey>(a.dom());
    crate::collections::ordered_lists::<DevicePubkey>(b.dom());
    let la = ordered_values::<DevicePubkey, DeviceEntry>(a);
    let lb = ordered_values::<DevicePubkey, DeviceEntry>(b);
    let none = Map::<DevicePubkey, DeviceEntry>::empty();
    lemma_with_all(none, a, oa, la, oa.len() as int);
    assert(la.take(oa.len() as int) =~= la);
    assert(oa.take(oa.len() as int) =~= oa);
    let first = with_all_earliest(none, la);
    assert forall|k: DevicePubkey| #[trigger] first.contains_key(k) <==> a.contains_key(k) by {
        assert(a.dom().contains(k) <==> oa.contains(k));
    }
    assert(first =~= a);
    lemma_with_all(a, b, ob, lb, ob.len() as int);
    assert(lb.take(ob.len() as int) =~= lb);
    assert(ob.take(ob.len() as int) =~= ob);
    assert forall|k: DevicePubkey| #[trigger] b.contains_key(k) <==> ob.contains(k) by {
        assert(b.dom().contains(k) <==> ob.contains(k));
    }
}

/// Merging changes nothing where there is nothing to add, and keeps devices
/// under their keys. Only devices are labelled afterwards.
pub proof fn merging_is_idempotent(a: AppKeysModel)
    requires
        a.devices.dom().finite(),
        a.keyed(),
        a.labels_known(),
    ensures
        merged(a, a) == a,
{
    merged_devices_are_earliest(a.devices, a.devices);
    assert(merged(a, a).devices =~= a.devices);
    assert forall|k: DevicePubkey| #[trigger] a.labels.contains_key(k) implies a.devices.contains_key(
        k,
    ) by {
        assert(a.labels.dom().contains(k));
    }
    assert(merged(a, a).labels =~= a.labels);
}

/// It does not matter which of two comes first, unless they disagree at the
/// same time.
pub proof fn merging_is_symmetric(a: AppKeysModel, b: AppKeysModel)
    requires
        a.devices.dom().finite(),
        b.devices.dom().finite(),
        a.keyed(),
        b.keyed(),
        forall|k: DevicePubkey|
            #![trigger a.labels[k]]
            #![trigger b.labels[k]]
            a.labels.contains_key(k) && b.labels.contains_key(k) && a.labels[k].updated_at
                == b.labels[k].updated_at ==> a.labels[k] == b.labels[k],
    ensures
        merged(a, b) == merged(b, a),
{
    merged_devices_are_earliest(a.devices, b.devices);
    merged_devices_are_earliest(b.devices, a.devices);
    let ab = merged(a, b).devices;
    let ba = merged(b, a).devices;
    assert forall|k: DevicePubkey| #[trigger] ab.contains_key(k) implies ab[k] == ba[k] by {
        assert(ba.contains_key(k));
        if a.devices.contains_key(k) && b.devices.contains_key(k) {
            assert(a.devices[k].identity_pubkey == b.devices[k].identity_pubkey);
        }
    }
    assert(ab =~= ba);
    assert forall|k: DevicePubkey| merged(a, b).labels.contains_key(k) implies newer_labels(
        a.labels,
        b.labels,
        k,
    ) == #[trigger] newer_labels(b.labels, a.labels, k) by {
    }
    assert(merged(a, b).labels =~= merged(b, a).labels);
}

/// What comes of merging keeps devices under their keys and labels only them.
pub proof fn merging_keeps_form(a: AppKeysModel, b: AppKeysModel)
    requires
        a.devices.dom().finite(),
        b.devices.dom().finite(),
        a.keyed(),
        b.keyed(),
    ensures
        merged(a, b).keyed(),
        merged(a, b).labels_known(),
        forall|k: DevicePubkey| #[trigger]
            merged(a, b).devices.contains_key(k) <==> a.devices.contains_key(k)
                || b.devices.contains_key(k),
{
    merged_devices_are_earliest(a.devices, b.devices);
}

proof fn lemma_listed(
    devices: Map<DevicePubkey, DeviceEntry>,
    order: Seq<DevicePubkey>,
    list: Seq<DeviceEntry>,
    n: int,
)
    requires
        lists::<DevicePubkey>(order, devices.dom()),
        list == Seq::new(order.len(), |i: int| devices[order[i]]),
        forall|k: DevicePubkey| #[trigger]
            devices.contains_key(k) ==> devices[k].identity_pubkey == k,
        0 <= n <= order.len(),
    ensures
        ({
            let r = listed(list.take(n));
            &&& forall|k: DevicePubkey| #[trigger] r.contains_key(k) <==> order.take(n).contains(k)
            &&& forall|k: DevicePubkey| #[trigger] r.contains_key(k) ==> r[k] == devices[k]
        }),
    decreases n,
{
    if n == 0 {
        assert(list.take(0) =~= Seq::empty());
        assert(order.take(0) =~= Seq::empty());
    } else {
        lemma_listed(devices, order, list, n - 1);
        lemma_take_next(order, n - 1);
        assert(list.take(n).drop_last() =~= list.take(n - 1));
        assert(order.contains(order[n - 1]));
        assert(devices.dom().contains(order[n - 1]));
        assert(list.take(n).last() == devices[order[n - 1]]);
        assert(devices.contains_key(order[n - 1]));
        assert(listed(list.take(n)) == listed(list.take(n - 1)).insert(
            order[n - 1],
            devices[order[n - 1]],
        ));
        assert(n - 1 + 1 == n);
    }
}

/// Whether no device is listed twice.
pub open spec fn lists_each_once(list: Seq<DeviceEntry>) -> bool {
    forall|i: int, j: int|
        0 <= i < j < list.len() ==> (#[trigger] list[i]).identity_pubkey != (
        #[trigger] list[j]).identity_pubkey
}

proof fn lemma_listed_once(list: Seq<DeviceEntry>)
    requires
        lists_each_once(list),
    ensures
        forall|i: int|
            0 <= i < list.len() ==> listed(list).contains_key((#[trigger] list[i]).identity_pubkey)
                && listed(list)[list[i].identity_pubkey] == list[i],
        forall|k: DevicePubkey| #[trigger]
            listed(list).contains_key(k) ==> list.contains(listed(list)[k])
                && listed(list)[k].identity_pubkey == k,
    decreases list.len(),
{
    if list.len() > 0 {
        let fewer = list.drop_last();
        lemma_listed_once(fewer);
        assert forall|i: int| 0 <= i < list.len() implies listed(list).contains_key(
            (#[trigger] list[i]).identity_pubkey,
        ) && listed(list)[list[i].identity_pubkey] == list[i] by {
            if i < fewer.len() {
                assert(fewer[i] == list[i]);
            }
        }
        assert forall|k: DevicePubkey| #[trigger] listed(list).contains_key(k) implies list.contains(
            listed(list)[k],
        ) && listed(list)[k].identity_pubkey == k by {
            if k == list.last().identity_pubkey {
                assert(list[list.len() - 1] == listed(list)[k]);
            } else {
                assert(listed(fewer).contains_key(k));
                let j = choose|j: int| 0 <= j < fewer.len() && fewer[j] == listed(fewer)[k];
                assert(list[j] == listed(list)[k]);
            }
        }
    }
}

/// In which order devices are listed does not matter, where none is listed
/// twice.
pub proof fn order_of_devices_does_not_matter(a: Seq<DeviceEntry>, b: Seq<DeviceEntry>)
    requires
        lists_each_once(a),
        lists_each_once(b),
        a.to_set() == b.to_set(),
    ensures
        listed(a) == listed(b),
{
    lemma_listed_once(a);
    lemma_listed_once(b);
    assert forall|k: DevicePubkey| #[trigger] listed(a).contains_key(k) implies listed(
        b,
    ).contains_key(k) && listed(b)[k] == listed(a)[k] by {
        assert(a.to_set().contains(listed(a)[k]));
        assert(b.contains(listed(a)[k]));
        let j = choose|j: int| 0 <= j < b.len() && b[j] == listed(a)[k];
        assert(b[j].identity_pubkey == k);
    }
    assert forall|k: DevicePubkey| #[trigger] listed(b).contains_key(k) implies listed(
        a,
    ).contains_key(k) by {
        assert(b.to_set().contains(listed(b)[k]));
        assert(a.contains(listed(b)[k]));
        let j = choose|j: int| 0 <= j < a.len() && a[j] == listed(b)[k];
        assert(a[j].identity_pubkey == k);
    }
    assert(listed(a) =~= listed(b));
}

/// Devices that are listed in their order are the same devices again.
pub proof fn listing_round_trip(devices: Map<DevicePubkey, DeviceEntry>)
    requires
        devices.dom().finite(),
        forall|k: DevicePubkey| #[trigger]
            devices.contains_key(k) ==> devices[k].identity_pubkey == k,
    ensures
        listed(ordered_values::<DevicePubkey, DeviceEntry>(devices)) == devices,
{
    let order = ordered::<DevicePubkey>(devices.dom());
    crate::collections::ordered_lists::<DevicePubkey>(devices.dom());
    let list = ordered_values::<DevicePubkey, DeviceEntry>(devices);
    lemma_listed(devices, order, list, order.len() as int);
    assert(list.take(order.len() as int) =~= list);
    assert(order.take(order.len() as int) =~= order);
    assert forall|k: DevicePubkey| #[trigger] listed(list).contains_key(k)
        <==> devices.contains_key(k) by {
        assert(devices.dom().contains(k) <==> order.contains(k));
    }
    assert(listed(list) =~= devices);
}

} // verus!
