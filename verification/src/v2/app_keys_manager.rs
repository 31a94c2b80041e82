//! The devices of the local owner, and which of them are trusted.
use vstd::prelude::*;
use crate::app_keys::{app_keys_json, app_keys_of, AppKeys, AppKeysModel, DeviceEntry};
use crate::codec::nostr::{app_keys_unsigned_event, device_list_event};
use crate::collections::{lists, ordered, ordered_values, VecSet};
use crate::encoding::{hex_key, hex_key_round_trip, hex_text};
use crate::error::{detail, fault, CodecError, Error, Fault};
use crate::event::{texts, texts_from_json, texts_json, texts_of_json, texts_to_json, UnsignedEvent};
use crate::ids::{DevicePubkey, OwnerPubkey, UnixSeconds};
use crate::json::{json_text, parse_record, plain, print_json, record_parsed};

verus! {

/// Where the devices are stored.
pub const APP_KEYS_KEY: &'static str = "v2/app-keys-manager/app-keys";

/// Where the trusted devices are stored.
pub const TRUSTED_DEVICES_KEY: &'static str = "v2/app-keys-manager/trusted-devices";

/// A text to store under a key.
#[derive(Debug)]
pub struct StorageWrite {
    pub key: String,
    pub value: String,
}

pub struct AppKeysManager {
    app_keys: AppKeys,
    trusted_devices: VecSet<DevicePubkey>,
    initialized: bool,
}

/// What is known of the devices.
#[verifier::ext_equal]
pub struct AppKeysManagerModel {
    pub keys: AppKeysModel,
    pub trusted: Set<DevicePubkey>,
    pub initialized: bool,
}

impl View for AppKeysManager {
    type V = AppKeysManagerModel;

    closed spec fn view(&self) -> AppKeysManagerModel {
        AppKeysManagerModel {
            keys: self.app_keys@,
            trusted: self.trusted_devices@,
            initialized: self.initialized,
        }
    }
}

/// The trusted devices as a text: a list of their keys in order.
pub open spec fn trusted_text(trusted: Set<DevicePubkey>) -> Seq<char> {
    json_text(texts_json(trusted_hexes(trusted)))
}

pub open spec fn trusted_hexes(trusted: Set<DevicePubkey>) -> Seq<Seq<char>> {
    Seq::new(
        ordered::<DevicePubkey>(trusted).len(),
        |i: int| hex_text(ordered::<DevicePubkey>(trusted)[i].0@),
    )
}

/// The keys among texts. What is none is left out.
pub open spec fn keys_among(values: Seq<Seq<char>>) -> Set<DevicePubkey> {
    Set::new(
        |k: DevicePubkey| exists|i: int|
            0 <= i < values.len() && hex_key(#[trigger] values[i]) == Some(k.0),
    )
}

/// The trusted devices of a text. One that is no list of texts lists none.
pub open spec fn trusted_of(text: Seq<char>) -> Set<DevicePubkey> {
    match record_parsed(text) {
        Some(value) => match texts_of_json(value) {
            Some(values) => keys_among(values),
            None => Set::empty(),
        },
        None => Set::empty(),
    }
}

/// What is known once what was stored is read. Devices that cannot be read
/// are left out.
pub open spec fn loaded(
    m: AppKeysManagerModel,
    app_keys: Option<Seq<char>>,
    trusted: Option<Seq<char>>,
) -> AppKeysManagerModel {
    AppKeysManagerModel {
        keys: match app_keys {
            Some(text) => match app_keys_of(text) {
                Some(keys) => keys,
                None => m.keys,
            },
            None => m.keys,
        },
        trusted: match trusted {
            Some(text) => trusted_of(text),
            None => Set::empty(),
        },
        initialized: true,
    }
}

/// Whether a write stores the devices.
pub open spec fn stores_keys(write: StorageWrite, m: AppKeysManagerModel) -> bool {
    &&& write.key@ == APP_KEYS_KEY@
    &&& write.value@ == json_text(app_keys_json(m.keys))
    &&& app_keys_of(write.value@) == Some(m.keys)
}

/// Whether a write stores the trusted devices.
pub open spec fn stores_trusted(write: StorageWrite, m: AppKeysManagerModel) -> bool {
    &&& write.key@ == TRUSTED_DEVICES_KEY@
    &&& write.value@ == trusted_text(m.trusted)
    &&& trusted_of(write.value@) == m.trusted
}

/// Devices with one more. One that is known stays as it is.
pub open spec fn with_device_key(keys: AppKeysModel, device: DeviceEntry) -> AppKeysModel {
    let k = device.identity_pubkey;
    if keys.devices.contains_key(k) {
        keys
    } else {
        AppKeysModel { devices: keys.devices.insert(k, device), ..keys }
    }
}

proof fn lemma_trusted_round_trip(trusted: Set<DevicePubkey>)
    requires
        lists::<DevicePubkey>(ordered::<DevicePubkey>(trusted), trusted),
    ensures
        keys_among(trusted_hexes(trusted)) == trusted,
        plain(texts_json(trusted_hexes(trusted)), 127),
{
    let order = ordered::<DevicePubkey>(trusted);
    let hexes = trusted_hexes(trusted);
    assert forall|k: DevicePubkey| #[trigger] keys_among(hexes).contains(k) <==> trusted.contains(
        k,
    ) by {
        if keys_among(hexes).contains(k) {
            let i = choose|i: int| 0 <= i < hexes.len() && hex_key(#[trigger] hexes[i]) == Some(k.0);
            hex_key_round_trip(order[i].0);
            assert(DevicePubkey(k.0) == k && DevicePubkey(order[i].0) == order[i]);
            assert(order.contains(order[i]));
        }
        if trusted.contains(k) {
            assert(order.contains(k));
            let i = choose|i: int| 0 <= i < order.len() && order[i] == k;
            hex_key_round_trip(order[i].0);
            assert(hex_key(hexes[i]) == Some(k.0));
        }
    }
    assert(keys_among(hexes) =~= trusted);
    reveal_with_fuel(plain, 2);
}

impl AppKeysManager {
    pub fn new() -> (r: Self)
        ensures
            r@ == (AppKeysManagerModel {
                keys: AppKeysModel { devices: Map::empty(), labels: Map::empty() },
                trusted: Set::empty(),
                initialized: false,
            }),
    {
        AppKeysManager {
            app_keys: AppKeys::new(Vec::new()),
            trusted_devices: VecSet::new(),
            initialized: false,
        }
    }

    /// Begins with what was stored.
    pub fn start(&mut self, app_keys: Option<String>, trusted_devices: Option<String>)
        ensures
            final(self)@ == (if old(self)@.initialized {
                old(self)@
            } else {
                loaded(
                    old(self)@,
                    crate::rumor::text_of(app_keys),
                    crate::rumor::text_of(trusted_devices),
                )
            }),
    {
        self.init(app_keys, trusted_devices);
    }

    /// Reads what was stored, once.
    pub fn init(&mut self, app_keys: Option<String>, trusted_devices: Option<String>)
        ensures
            final(self)@ == (if old(self)@.initialized {
                old(self)@
            } else {
                loaded(
                    old(self)@,
                    crate::rumor::text_of(app_keys),
                    crate::rumor::text_of(trusted_devices),
                )
            }),
    {
        if self.initialized {
            return;
        }
        self.initialized = true;
        if let Some(data) = app_keys {
            if let Ok(keys) = AppKeys::deserialize(data.as_str()) {
                self.app_keys = keys;
            }
        }
        self.trusted_devices = match trusted_devices {
            Some(data) => load_trusted_devices(data.as_str()),
            None => VecSet::new(),
        };
    }

    pub fn get_app_keys(&self) -> (r: &AppKeys)
        ensures
            r@ == self@.keys,
    {
        &self.app_keys
    }

    pub fn list_device_keys(&self) -> (r: Vec<DeviceEntry>)
        ensures
            r@ == ordered_values::<DevicePubkey, DeviceEntry>(self@.keys.devices),
    {
        self.app_keys.get_all_devices()
    }

    pub fn get_device_key(&self, identity_pubkey: &DevicePubkey) -> (r: Option<&DeviceEntry>)
        ensures
            r is Some == self@.keys.devices.contains_key(*identity_pubkey),
            r matches Some(device) ==> *device == self@.keys.devices[*identity_pubkey],
    {
        self.app_keys.get_device(identity_pubkey)
    }

    /// Adds a device. One that is known stays as it is.
    pub fn add_device_key(&mut self, device: DeviceEntry) -> (r: Result<StorageWrite, Error>)
        ensures
            final(self)@ == (AppKeysManagerModel {
                keys: with_device_key(old(self)@.keys, device),
                ..old(self)@
            }),
            r matches Ok(write) && stores_keys(write, final(self)@),
    {
        self.app_keys.add_device(device);
        self.save_app_keys()
    }

    /// Puts a device in place of what was known of it.
    pub fn update_device_key(&mut self, device: DeviceEntry) -> (r: Result<StorageWrite, Error>)
        ensures
            final(self)@ == (AppKeysManagerModel {
                keys: AppKeysModel {
                    devices: old(self)@.keys.devices.insert(device.identity_pubkey, device),
                    labels: old(self)@.keys.labels.remove(device.identity_pubkey),
                },
                ..old(self)@
            }),
            r matches Ok(write) && stores_keys(write, final(self)@),
    {
        let ghost before = self@;
        self.app_keys.remove_device(&device.identity_pubkey);
        self.app_keys.add_device(device);
        assert(self@.keys.devices =~= before.keys.devices.insert(device.identity_pubkey, device));
        self.save_app_keys()
    }

    /// Removes a device. It is no longer trusted then.
    pub fn remove_device_key(&mut self, identity_pubkey: &DevicePubkey) -> (r: Result<
        (StorageWrite, StorageWrite),
        Error,
    >)
        ensures
            final(self)@ == (AppKeysManagerModel {
                keys: AppKeysModel {
                    devices: old(self)@.keys.devices.remove(*identity_pubkey),
                    labels: old(self)@.keys.labels.remove(*identity_pubkey),
                },
                trusted: old(self)@.trusted.remove(*identity_pubkey),
                ..old(self)@
            }),
            r matches Ok((keys, trusted)) && stores_keys(keys, final(self)@) && stores_trusted(
                trusted,
                final(self)@,
            ),
    {
        self.app_keys.remove_device(identity_pubkey);
        self.trusted_devices.remove(identity_pubkey);
        self.save_both()
    }

    /// Trusts a device, which must be known.
    pub fn trust_device_key(&mut self, identity_pubkey: &DevicePubkey) -> (r: Result<
        StorageWrite,
        Error,
    >)
        ensures
            match r {
                Ok(write) => {
                    &&& old(self)@.keys.devices.contains_key(*identity_pubkey)
                    &&& final(self)@ == (AppKeysManagerModel {
                        trusted: old(self)@.trusted.insert(*identity_pubkey),
                        ..old(self)@
                    })
                    &&& stores_trusted(write, final(self)@)
                },
                Err(e) => !old(self)@.keys.devices.contains_key(*identity_pubkey) && *final(self)
                    == *old(self) && fault(e) == Fault::InvalidEvent && detail(e) == Some(
                    "Unknown device key"@,
                ),
            },
    {
        if self.app_keys.get_device(identity_pubkey).is_none() {
            return Err(Error::Codec(CodecError::InvalidEvent("Unknown device key".to_string())));
        }
        self.trusted_devices.insert(*identity_pubkey);
        self.save_trusted_devices()
    }

    pub fn revoke_device_key(&mut self, identity_pubkey: &DevicePubkey) -> (r: Result<
        StorageWrite,
        Error,
    >)
        ensures
            final(self)@ == (AppKeysManagerModel {
                trusted: old(self)@.trusted.remove(*identity_pubkey),
                ..old(self)@
            }),
            r matches Ok(write) && stores_trusted(write, final(self)@),
    {
        self.trusted_devices.remove(identity_pubkey);
        self.save_trusted_devices()
    }

    pub fn is_device_key_trusted(&self, identity_pubkey: &DevicePubkey) -> (r: bool)
        ensures
            r == self@.trusted.contains(*identity_pubkey),
    {
        self.trusted_devices.contains(identity_pubkey)
    }

    /// Puts other devices in place of all. Of the trusted ones, those stay that
    /// are among them.
    pub fn set_app_keys(&mut self, app_keys: AppKeys) -> (r: Result<
        (StorageWrite, StorageWrite),
        Error,
    >)
        ensures
            final(self)@ == (AppKeysManagerModel {
                keys: app_keys@,
                trusted: old(self)@.trusted.intersect(app_keys@.devices.dom()),
                ..old(self)@
            }),
            r matches Ok((keys, trusted)) && stores_keys(keys, final(self)@) && stores_trusted(
                trusted,
                final(self)@,
            ),
    {
        let ghost before = self@;
        let n: usize = self.trusted_devices.len();
        let ghost order = ordered::<DevicePubkey>(before.trusted);
        let mut kept: VecSet<DevicePubkey> = VecSet::new();
        let mut i: usize = 0;
        while i < n
            invariant
                i <= n,
                n == order.len(),
                before.trusted == self.trusted_devices@,
                order == ordered::<DevicePubkey>(self.trusted_devices@),
                lists::<DevicePubkey>(order, before.trusted),
                forall|k: DevicePubkey| #[trigger]
                    kept@.contains(k) <==> app_keys@.devices.contains_key(k) && exists|j: int|
                        0 <= j < i && #[trigger] order[j] == k,
            decreases n - i,
        {
            let key = *self.trusted_devices.at(i);
            let ghost less = kept@;
            if app_keys.get_device(&key).is_some() {
                kept.insert(key);
            }
            proof {
                assert forall|k: DevicePubkey| #[trigger] kept@.contains(k)
                    <==> app_keys@.devices.contains_key(k) && exists|j: int|
                    0 <= j < i + 1 && #[trigger] order[j] == k by {
                    if less.contains(k) {
                        let j = choose|j: int| 0 <= j < i && #[trigger] order[j] == k;
                        assert(order[j] == k);
                    }
                    if k == order[i as int] {
                        assert(order[i as int] == k);
                    }
                    if exists|j: int| 0 <= j < i + 1 && #[trigger] order[j] == k {
                        let j = choose|j: int| 0 <= j < i + 1 && #[trigger] order[j] == k;
                        if j < i && app_keys@.devices.contains_key(k) {
                            assert(less.contains(k));
                        }
                    }
                }
            }
            i = i + 1;
        }
        proof {
            assert forall|k: DevicePubkey| #[trigger] kept@.contains(k)
                <==> before.trusted.intersect(app_keys@.devices.dom()).contains(k) by {
                if before.trusted.contains(k) {
                    assert(order.contains(k));
                    let j = choose|j: int| 0 <= j < order.len() && order[j] == k;
                    assert(order[j] == k);
                }
                if exists|j: int| 0 <= j < i && #[trigger] order[j] == k {
                    let j = choose|j: int| 0 <= j < i && #[trigger] order[j] == k;
                    assert(order.contains(order[j]));
                }
            }
            assert(kept@ =~= before.trusted.intersect(app_keys@.devices.dom()));
        }
        self.app_keys = app_keys;
        self.trusted_devices = kept;
        self.save_both()
    }

    /// The event in which an owner publishes the devices.
    pub fn publish(&self, owner_pubkey: OwnerPubkey, now: UnixSeconds) -> (r: Result<
        UnsignedEvent,
        Error,
    >)
        ensures
            r matches Ok(event) && event@ == device_list_event(
                owner_pubkey.device(),
                now,
                self@.keys.devices,
                Seq::empty(),
            ),
    {
        app_keys_unsigned_event(owner_pubkey, now, &self.app_keys)
    }

    /// There is nothing to close.
    pub fn close(&mut self)
        ensures
            *final(self) == *old(self),
    {
    }

    fn save_app_keys(&self) -> (r: Result<StorageWrite, Error>)
        ensures
            r matches Ok(write) && stores_keys(write, self@),
    {
        match self.app_keys.serialize() {
            Ok(value) => Ok(StorageWrite { key: APP_KEYS_KEY.to_string(), value }),
            Err(e) => Err(e),
        }
    }

    fn save_trusted_devices(&self) -> (r: Result<StorageWrite, Error>)
        ensures
            r matches Ok(write) && stores_trusted(write, self@),
    {
        let n: usize = self.trusted_devices.len();
        let ghost order = ordered::<DevicePubkey>(self@.trusted);
        let mut hexes: Vec<String> = Vec::new();
        let mut i: usize = 0;
        while i < n
            invariant
                i <= n,
                n == order.len(),
                order == ordered::<DevicePubkey>(self.trusted_devices@),
                hexes@.len() == i,
                forall|j: int| 0 <= j < i ==> (#[trigger] hexes@[j])@ == hex_text(order[j].0@),
            decreases n - i,
        {
            hexes.push(self.trusted_devices.at(i).to_hex());
            i = i + 1;
        }
        assert(texts(hexes@) =~= trusted_hexes(self@.trusted));
        let json = texts_to_json(&hexes);
        proof {
            lemma_trusted_round_trip(self@.trusted);
            crate::event::lemma_texts_round_trip(trusted_hexes(self@.trusted));
        }
        Ok(StorageWrite { key: TRUSTED_DEVICES_KEY.to_string(), value: print_json(&json) })
    }

    fn save_both(&self) -> (r: Result<(StorageWrite, StorageWrite), Error>)
        ensures
            r matches Ok((keys, trusted)) && stores_keys(keys, self@) && stores_trusted(
                trusted,
                self@,
            ),
    {
        match (self.save_app_keys(), self.save_trusted_devices()) {
            (Ok(keys), Ok(trusted)) => Ok((keys, trusted)),
            (Err(e), _) => Err(e),
            (_, Err(e)) => Err(e),
        }
    }
}

/// Reads the trusted devices of a text.
fn load_trusted_devices(data: &str) -> (r: VecSet<DevicePubkey>)
    ensures
        r@ == trusted_of(data@),
{
    let mut set: VecSet<DevicePubkey> = VecSet::new();
    let json = match parse_record(data) {
        Ok(json) => json,
        Err(_) => {
            return set;
        },
    };
    let values = match texts_from_json(&json) {
        Some(values) => values,
        None => {
            return set;
        },
    };
    let ghost all = texts(values@);
    let mut i: usize = 0;
    while i < values.len()
        invariant
            i <= values@.len(),
            all == texts(values@),
            forall|k: DevicePubkey| #[trigger]
                set@.contains(k) <==> exists|j: int|
                    0 <= j < i && hex_key(#[trigger] all[j]) == Some(k.0),
        decreases values@.len() - i,
    {
        let ghost before = set@;
        assert(all[i as int] == values@[i as int]@);
        if let Ok(key) = DevicePubkey::parse_hex(values[i].as_str()) {
            set.insert(key);
            assert(hex_key(all[i as int]) == Some(key.0));
        }
        proof {
            assert forall|k: DevicePubkey| #[trigger] set@.contains(k) <==> exists|j: int|
                0 <= j < i + 1 && hex_key(#[trigger] all[j]) == Some(k.0) by {
                if before.contains(k) {
                    let j = choose|j: int| 0 <= j < i && hex_key(#[trigger] all[j]) == Some(k.0);
                    assert(hex_key(all[j]) == Some(k.0));
                }
                if exists|j: int| 0 <= j < i + 1 && hex_key(#[trigger] all[j]) == Some(k.0) {
                    let j = choose|j: int|
                        0 <= j < i + 1 && hex_key(#[trigger] all[j]) == Some(k.0);
                    assert(DevicePubkey(k.0) == k);
                    if j < i {
                        assert(before.contains(k));
                    }
                }
            }
        }
        i = i + 1;
    }
    assert(set@ =~= keys_among(all));
    set
}

/// What was stored, read again, is what was known.
pub proof fn stored_state_is_read_back(
    m: AppKeysManagerModel,
    fresh: AppKeysManagerModel,
    keys: StorageWrite,
    trusted: StorageWrite,
)
    requires
        stores_keys(keys, m),
        stores_trusted(trusted, m),
    ensures
        loaded(fresh, Some(keys.value@), Some(trusted.value@)) == (AppKeysManagerModel {
            initialized: true,
            ..m
        }),
{
}

} // verus!
