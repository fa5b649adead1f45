//! A registry of named audio devices, as handed over by the host system.

use vstd::prelude::*;

verus! {

/// A playback or capture device, known by its name.
pub struct Device {
    pub name: String,
}

/// A device together with the identifier the host assigned to it.
pub struct DeviceEntry {
    pub id: String,
    pub device: Device,
}

/// The ordered collection of devices seen so far.
pub struct DeviceHandler {
    pub devices: Vec<DeviceEntry>,
}

impl DeviceHandler {
    /// Appends a device under the given identifier; all earlier entries are
    /// kept, in order.
    pub fn add_device(&mut self, id: String, device: Device)
        ensures
            final(self).devices@ == old(self).devices@.push((DeviceEntry { id, device })),
    {
        self.devices.push(DeviceEntry { id, device });
    }

    /// Hands the collected entries back, in the order they were added.
    pub fn get_devices(self) -> (r: Vec<DeviceEntry>)
        ensures
            r == self.devices,
    {
        self.devices
    }
}

} // verus!
