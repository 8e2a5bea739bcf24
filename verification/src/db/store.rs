//! The database of one device.

use vstd::prelude::*;

use super::device::Device;
use super::entry::Entry;

verus! {

/// The word-frequency database of a device: a format version, the device and
/// its entries.
#[derive(Debug)]
pub struct FreqDb {
    pub version: u32,
    pub device: Device,
    pub entries: Vec<Entry>,
}

impl FreqDb {
    /// An empty database of `device`, at version 1.
    pub fn new(device: Device) -> (db: FreqDb)
        ensures
            db.version == 1,
            db.device == device,
            db.entries@ == Seq::<Entry>::empty(),
    {
        FreqDb { version: 1, device, entries: Vec::new() }
    }
}

} // verus!
