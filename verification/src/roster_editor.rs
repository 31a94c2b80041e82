//! Editing the devices of an owner, and making a roster of them.
use vstd::prelude::*;
use crate::collections::VecMap;
use crate::ids::{DevicePubkey, UnixSeconds};
use crate::roster::{AuthorizedDevice, DeviceRoster, RosterModel};

verus! {

#[derive(Debug)]
pub struct RosterEditor {
    devices: VecMap<DevicePubkey, UnixSeconds>,
}

impl View for RosterEditor {
    type V = Map<DevicePubkey, UnixSeconds>;

    closed spec fn view(&self) -> Map<DevicePubkey, UnixSeconds> {
        self.devices@
    }
}

impl RosterEditor {
    pub fn new() -> (r: Self)
        ensures
            r@ == Map::<DevicePubkey, UnixSeconds>::empty(),
    {
        RosterEditor { devices: VecMap::new() }
    }

    pub fn from_roster(roster: &DeviceRoster) -> (r: Self)
        ensures
            r@ == roster@.devices,
    {
        RosterEditor { devices: roster.copied() }
    }

    pub fn authorize_device(&mut self, device_pubkey: DevicePubkey, created_at: UnixSeconds)
        ensures
            final(self)@ == crate::roster::with_device(
                old(self)@,
                AuthorizedDevice { device_pubkey, created_at },
            ),
    {
        crate::roster::add_device(
            &mut self.devices,
            AuthorizedDevice { device_pubkey, created_at },
        );
    }

    pub fn revoke_device(&mut self, device_pubkey: &DevicePubkey)
        ensures
            final(self)@ == old(self)@.remove(*device_pubkey),
    {
        self.devices.remove(device_pubkey);
    }

    pub fn build(&self, created_at: UnixSeconds) -> (r: DeviceRoster)
        ensures
            r@ == (RosterModel { created_at, devices: self@ }),
    {
        let devices = self.devices.clone();
        assert(devices@ =~= self.devices@);
        DeviceRoster::of_devices(created_at, devices)
    }
}

} // verus!
