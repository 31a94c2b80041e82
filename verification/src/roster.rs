//! The devices that act for an owner, as of a time.
use vstd::prelude::*;
use crate::collections::{lists, ordered, VecMap};
use crate::ids::{DevicePubkey, UnixSeconds};

verus! {

#[derive(Debug, Clone, Copy)]
pub struct AuthorizedDevice {
    pub device_pubkey: DevicePubkey,
    pub created_at: UnixSeconds,
}

impl AuthorizedDevice {
    pub fn new(device_pubkey: DevicePubkey, created_at: UnixSeconds) -> (r: Self)
        ensures
            r == (AuthorizedDevice { device_pubkey, created_at }),
    {
        AuthorizedDevice { device_pubkey, created_at }
    }
}

/// What became of a roster that was taken in.
#[derive(Debug, Clone, Copy, PartialEq, Eq, Structural)]
pub enum RosterSnapshotDecision {
    Advanced,
    Stale,
    MergedEqualTimestamp,
}

/// All devices of an owner, each with the time since when it is one.
#[derive(Debug)]
pub struct DeviceRoster {
    created_at: UnixSeconds,
    devices: VecMap<DevicePubkey, UnixSeconds>,
}

/// What a roster says.
#[verifier::ext_equal]
pub struct RosterModel {
    pub created_at: UnixSeconds,
    pub devices: Map<DevicePubkey, UnixSeconds>,
}

impl View for DeviceRoster {
    type V = RosterModel;

    closed spec fn view(&self) -> RosterModel {
        RosterModel { created_at: self.created_at, devices: self.devices@ }
    }
}

/// The earlier of two times.
pub open spec fn earlier(a: UnixSeconds, b: UnixSeconds) -> UnixSeconds {
    if b.0 < a.0 {
        b
    } else {
        a
    }
}

/// Devices with one more: of two times of a device, the earlier stays.
pub open spec fn with_device(
    devices: Map<DevicePubkey, UnixSeconds>,
    device: AuthorizedDevice,
) -> Map<DevicePubkey, UnixSeconds> {
    let k = device.device_pubkey;
    devices.insert(
        k,
        if devices.contains_key(k) {
            earlier(devices[k], device.created_at)
        } else {
            device.created_at
        },
    )
}

/// The devices of a list.
pub open spec fn device_times(list: Seq<AuthorizedDevice>) -> Map<DevicePubkey, UnixSeconds>
    decreases list.len(),
{
    if list.len() == 0 {
        Map::empty()
    } else {
        with_device(device_times(list.drop_last()), list.last())
    }
}

/// The devices of two rosters: of two times of a device, the earlier.
pub open spec fn joined(
    a: Map<DevicePubkey, UnixSeconds>,
    b: Map<DevicePubkey, UnixSeconds>,
) -> Map<DevicePubkey, UnixSeconds> {
    Map::new(
        |k: DevicePubkey| a.contains_key(k) || b.contains_key(k),
        |k: DevicePubkey|
            if !a.contains_key(k) {
                b[k]
            } else if !b.contains_key(k) {
                a[k]
            } else {
                earlier(a[k], b[k])
            },
    )
}

/// Two rosters put together, as of the later of their times.
pub open spec fn merged_rosters(a: RosterModel, b: RosterModel) -> RosterModel {
    RosterModel {
        created_at: if a.created_at.0 < b.created_at.0 {
            b.created_at
        } else {
            a.created_at
        },
        devices: joined(a.devices, b.devices),
    }
}

/// What becomes of a roster when another comes: the newer one stays, and two
/// of the same time are put together.
pub open spec fn next_roster(current: Option<RosterModel>, incoming: RosterModel) -> (
    RosterSnapshotDecision,
    RosterModel,
) {
    match current {
        None => (RosterSnapshotDecision::Advanced, incoming),
        Some(roster) => if incoming.created_at.0 > roster.created_at.0 {
            (RosterSnapshotDecision::Advanced, incoming)
        } else if incoming.created_at.0 < roster.created_at.0 {
            (RosterSnapshotDecision::Stale, roster)
        } else {
            (RosterSnapshotDecision::MergedEqualTimestamp, merged_rosters(roster, incoming))
        },
    }
}

/// The devices of a roster as a list, in the order of their keys.
pub open spec fn roster_list(m: RosterModel) -> Seq<AuthorizedDevice> {
    Seq::new(
        ordered::<DevicePubkey>(m.devices.dom()).len(),
        |i: int|
            AuthorizedDevice {
                device_pubkey: ordered::<DevicePubkey>(m.devices.dom())[i],
                created_at: m.devices[ordered::<DevicePubkey>(m.devices.dom())[i]],
            },
    )
}

pub(crate) fn add_device(devices: &mut VecMap<DevicePubkey, UnixSeconds>, device: AuthorizedDevice)
    ensures
        final(devices)@ == with_device(old(devices)@, device),
{
    let created_at = match devices.get(&device.device_pubkey) {
        Some(known) => if device.created_at.0 < known.0 {
            device.created_at
        } else {
            *known
        },
        None => device.created_at,
    };
    devices.insert(device.device_pubkey, created_at);
}

impl DeviceRoster {
    pub fn new(created_at: UnixSeconds, devices: Vec<AuthorizedDevice>) -> (r: Self)
        ensures
            r@ == (RosterModel { created_at, devices: device_times(devices@) }),
    {
        let mut map: VecMap<DevicePubkey, UnixSeconds> = VecMap::new();
        let mut i: usize = 0;
        assert(devices@.take(0) =~= Seq::empty());
        while i < devices.len()
            invariant
                i <= devices@.len(),
                map@ == device_times(devices@.take(i as int)),
            decreases devices@.len() - i,
        {
            add_device(&mut map, devices[i]);
            assert(devices@.take(i + 1).drop_last() =~= devices@.take(i as int));
            i = i + 1;
        }
        assert(devices@.take(i as int) =~= devices@);
        DeviceRoster { created_at, devices: map }
    }

    pub(crate) fn of_devices(
        created_at: UnixSeconds,
        devices: VecMap<DevicePubkey, UnixSeconds>,
    ) -> (r: Self)
        ensures
            r@ == (RosterModel { created_at, devices: devices@ }),
    {
        DeviceRoster { created_at, devices }
    }

    pub fn created_at(&self) -> (r: UnixSeconds)
        ensures
            r == self@.created_at,
    {
        self.created_at
    }

    /// The devices, in the order of their keys.
    pub fn devices(&self) -> (r: Vec<AuthorizedDevice>)
        ensures
            r@ == roster_list(self@),
            lists::<DevicePubkey>(ordered::<DevicePubkey>(self@.devices.dom()), self@.devices.dom()),
    {
        let n: usize = self.devices.len();
        let ghost order = self.devices.order();
        let mut r: Vec<AuthorizedDevice> = Vec::new();
        let mut i: usize = 0;
        while i < n
            invariant
                i <= n,
                n == order.len(),
                order == self.devices.order(),
                order == ordered::<DevicePubkey>(self@.devices.dom()),
                r@ == roster_list(self@).take(i as int),
            decreases n - i,
        {
            let device = AuthorizedDevice {
                device_pubkey: *self.devices.key_at(i),
                created_at: *self.devices.value_at(i),
            };
            r.push(device);
            assert(r@ =~= roster_list(self@).take(i + 1));
            i = i + 1;
        }
        assert(r@ =~= roster_list(self@));
        r
    }

    pub fn get_device(&self, device_pubkey: &DevicePubkey) -> (r: Option<AuthorizedDevice>)
        ensures
            match r {
                Some(device) => self@.devices.contains_key(*device_pubkey) && device == (
                AuthorizedDevice {
                    device_pubkey: *device_pubkey,
                    created_at: self@.devices[*device_pubkey],
                }),
                None => !self@.devices.contains_key(*device_pubkey),
            },
    {
        match self.devices.get(device_pubkey) {
            Some(created_at) => Some(
                AuthorizedDevice { device_pubkey: *device_pubkey, created_at: *created_at },
            ),
            None => None,
        }
    }

    pub fn merge(&self, other: &DeviceRoster) -> (r: DeviceRoster)
        ensures
            r@ == merged_rosters(self@, other@),
    {
        let mut devices = self.copied();
        let n: usize = other.devices.len();
        let ghost order = other.devices.order();
        let mut i: usize = 0;
        while i < n
            invariant
                i <= n,
                n == order.len(),
                order == other.devices.order(),
                lists::<DevicePubkey>(order, other@.devices.dom()),
                forall|k: DevicePubkey| #[trigger]
                    devices@.contains_key(k) <==> self@.devices.contains_key(k) || exists|j: int|
                        0 <= j < i && #[trigger] order[j] == k,
                forall|k: DevicePubkey| #[trigger]
                    devices@.contains_key(k) ==> devices@[k] == (if exists|j: int|
                        0 <= j < i && #[trigger] order[j] == k {
                        joined(self@.devices, other@.devices)[k]
                    } else {
                        self@.devices[k]
                    }),
            decreases n - i,
        {
            let ghost before = devices@;
            let device = AuthorizedDevice {
                device_pubkey: *other.devices.key_at(i),
                created_at: *other.devices.value_at(i),
            };
            let ghost key = order[i as int];
            proof {
                assert forall|j: int| 0 <= j < i implies #[trigger] order[j] != key by {
                    crate::collections::lists_distinct::<DevicePubkey>(
                        order,
                        other@.devices.dom(),
                        j,
                        i as int,
                    );
                }
                assert(before.contains_key(key) == self@.devices.contains_key(key));
            }
            add_device(&mut devices, device);
            proof {
                assert forall|k: DevicePubkey| #[trigger]
                    devices@.contains_key(k) <==> self@.devices.contains_key(k) || exists|j: int|
                    0 <= j < i + 1 && #[trigger] order[j] == k by {
                    if k == key {
                        assert(order[i as int] == k);
                    } else {
                        assert(before.contains_key(k) == devices@.contains_key(k));
                        assert((exists|j: int| 0 <= j < i && #[trigger] order[j] == k) == (exists|
                            j: int,
                        | 0 <= j < i + 1 && #[trigger] order[j] == k));
                    }
                }
                assert forall|k: DevicePubkey| #[trigger]
                    devices@.contains_key(k) implies devices@[k] == (if exists|j: int|
                    0 <= j < i + 1 && #[trigger] order[j] == k {
                    joined(self@.devices, other@.devices)[k]
                } else {
                    self@.devices[k]
                }) by {
                    if k == key {
                        assert(order[i as int] == k);
                        assert(other@.devices.contains_key(k));
                    } else {
                        assert(before.contains_key(k));
                        assert((exists|j: int| 0 <= j < i && #[trigger] order[j] == k) == (exists|
                            j: int,
                        | 0 <= j < i + 1 && #[trigger] order[j] == k));
                    }
                }
            }
            i = i + 1;
        }
        proof {
            assert forall|k: DevicePubkey| #[trigger] other@.devices.contains_key(k) implies exists|
                j: int,
            | 0 <= j < order.len() && #[trigger] order[j] == k by {
                assert(other@.devices.dom().contains(k));
                assert(order.contains(k));
            }
            assert forall|j: int| 0 <= j < order.len() implies other@.devices.contains_key(
                #[trigger] order[j],
            ) by {
                assert(order.contains(order[j]));
            }
            assert(devices@ =~= joined(self@.devices, other@.devices));
        }
        let created_at = if self.created_at.0 < other.created_at.0 {
            other.created_at
        } else {
            self.created_at
        };
        DeviceRoster { created_at, devices }
    }

    pub(crate) fn copied(&self) -> (r: VecMap<DevicePubkey, UnixSeconds>)
        ensures
            r@ == self@.devices,
    {
        let r = self.devices.clone();
        assert(r@ =~= self.devices@);
        r
    }
}

impl Clone for DeviceRoster {
    fn clone(&self) -> (r: Self)
        ensures
            r@ == self@,
    {
        DeviceRoster { created_at: self.created_at, devices: self.copied() }
    }
}

/// The roster to keep when another comes.
pub fn apply_roster_snapshot(
    current_roster: &Option<DeviceRoster>,
    incoming_roster: &DeviceRoster,
) -> (r: (RosterSnapshotDecision, DeviceRoster))
    ensures
        (r.0, r.1@) == next_roster(optional_roster(*current_roster), incoming_roster@),
{
    match current_roster {
        None => (RosterSnapshotDecision::Advanced, incoming_roster.clone()),
        Some(current) => if incoming_roster.created_at.0 > current.created_at.0 {
            (RosterSnapshotDecision::Advanced, incoming_roster.clone())
        } else if incoming_roster.created_at.0 < current.created_at.0 {
            (RosterSnapshotDecision::Stale, current.clone())
        } else {
            (RosterSnapshotDecision::MergedEqualTimestamp, current.merge(incoming_roster))
        },
    }
}

pub open spec fn optional_roster(roster: Option<DeviceRoster>) -> Option<RosterModel> {
    match roster {
        Some(roster) => Some(roster@),
        None => None,
    }
}

/// The time of the roster that is kept never goes back, and a roster that
/// comes a second time changes nothing.
pub proof fn rosters_never_go_back(current: Option<RosterModel>, incoming: RosterModel)
    ensures
        ({
            let (_, next) = next_roster(current, incoming);
            &&& current is Some ==> next.created_at.0 >= current->Some_0.created_at.0
            &&& next.created_at.0 >= incoming.created_at.0
            &&& next_roster(Some(next), incoming).1 == next
        }),
{
    let (_, next) = next_roster(current, incoming);
    assert(joined(next.devices, incoming.devices) =~= next.devices || next.created_at.0
        > incoming.created_at.0);
}

/// It does not matter in which order two rosters are put together.
pub proof fn merging_rosters_is_symmetric(a: RosterModel, b: RosterModel)
    ensures
        merged_rosters(a, b).devices == merged_rosters(b, a).devices,
        merged_rosters(a, b).created_at.0 == merged_rosters(b, a).created_at.0,
{
    assert forall|k: DevicePubkey| #[trigger] joined(a.devices, b.devices).contains_key(k) implies
        joined(a.devices, b.devices)[k] == joined(b.devices, a.devices)[k] by {
        if a.devices.contains_key(k) && b.devices.contains_key(k) {
            let x = a.devices[k];
            let y = b.devices[k];
            assert(UnixSeconds(x.0) == x && UnixSeconds(y.0) == y);
        }
    }
    assert(joined(a.devices, b.devices) =~= joined(b.devices, a.devices));
}

} // verus!
