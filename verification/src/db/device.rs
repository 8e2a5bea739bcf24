//! A device that contributes to the database, and the registry of known devices.

use vstd::prelude::*;

use crate::time::{now, Timestamp};

verus! {

/// A device: its identifier, its name and how many entries it holds.
#[derive(Debug)]
pub struct Device {
    pub id: String,
    pub name: String,
    pub total_entries: u32,
}

/// A device's share of a combined total, as the fraction `num / den`.
#[derive(Debug, Clone, Copy, PartialEq, Eq, Structural)]
pub struct Weight {
    pub num: u32,
    pub den: u32,
}

impl Device {
    /// The weight of a device among devices that hold `global_total` entries in
    /// all: its own count over the total, or one where the total is zero.
    pub open spec fn spec_weight(self, global_total: u32) -> Weight {
        if global_total == 0 {
            Weight { num: 1, den: 1 }
        } else {
            Weight { num: self.total_entries, den: global_total }
        }
    }

    /// The device's weight among devices that hold `global_total` entries: the
    /// fraction `total_entries / global_total`, or `1 / 1` for a total of zero.
    pub fn weight(&self, global_total: u32) -> (w: Weight)
        ensures
            w == self.spec_weight(global_total),
    {
        if global_total == 0 {
            Weight { num: 1, den: 1 }
        } else {
            Weight { num: self.total_entries, den: global_total }
        }
    }

    /// A copy of this device.
    pub fn duplicate(&self) -> (r: Device)
        ensures
            r == *self,
    {
        Device { id: self.id.clone(), name: self.name.clone(), total_entries: self.total_entries }
    }
}

/// A device seen in a sync: its identifier, its name, how many entries it held
/// then, and when that was.
#[derive(Debug)]
pub struct DeviceRecord {
    pub id: String,
    pub name: String,
    pub total_entries: u32,
    pub last_seen: Timestamp,
}

/// The devices known across syncs, in the order they were first seen.
#[derive(Debug)]
pub struct DeviceRegistry {
    pub devices: Vec<DeviceRecord>,
}

/// `r` records device `id` named `name` with `total` entries, seen at `seen`.
pub open spec fn record_is(r: DeviceRecord, id: Seq<char>, name: Seq<char>, total: u32, seen: Timestamp) -> bool {
    r.id@ == id && r.name@ == name && r.total_entries == total && r.last_seen == seen
}

/// `i` is the first position of `devices` that records device `id`.
pub open spec fn is_first_record(devices: Seq<DeviceRecord>, id: Seq<char>, i: int) -> bool {
    &&& 0 <= i < devices.len()
    &&& devices[i].id@ == id
    &&& forall|j: int| 0 <= j < i ==> (#[trigger] devices[j]).id@ != id
}

/// `after` is `before` with device `id` recorded as named `name`, holding
/// `total` entries and seen at `seen`: the first record of `id` overwritten, or
/// a new record appended where `before` has none.
pub open spec fn upserted(before: Seq<DeviceRecord>, after: Seq<DeviceRecord>, id: Seq<char>, name: Seq<char>, total: u32, seen: Timestamp) -> bool {
    if exists|i: int| is_first_record(before, id, i) {
        let i = choose|i: int| is_first_record(before, id, i);
        &&& after.len() == before.len()
        &&& record_is(after[i], id, name, total, seen)
        &&& forall|j: int| 0 <= j < before.len() && j != i ==> after[j] == before[j]
    } else {
        &&& forall|j: int| 0 <= j < before.len() ==> before[j].id@ != id
        &&& after.len() == before.len() + 1
        &&& record_is(after[before.len() as int], id, name, total, seen)
        &&& forall|j: int| 0 <= j < before.len() ==> after[j] == before[j]
    }
}

/// No two records of `devices` have the same identifier.
pub open spec fn unique_ids(devices: Seq<DeviceRecord>) -> bool {
    forall|i: int, j: int| 0 <= i < j < devices.len() ==> (#[trigger] devices[i]).id@ != (#[trigger] devices[j]).id@
}

/// A fresh device identifier: `uuid::Uuid::new_v4()` in its text form.
///
/// Trusted: `new_v4` draws 122 random bits and sets the version nibble to 4;
/// its `Display` form is the hyphenated lower-case hex of the 16 bytes
/// (`format_hyphenated`): 36 characters with hyphens at positions 8, 13, 18
/// and 23 and the version digit `4` at position 14. The other digits are
/// random and not stated.
#[verifier::external_body]
pub(crate) fn new_device_id() -> (id: String)
    ensures
        id@.len() == 36,
        id@[8] == '-' && id@[13] == '-' && id@[18] == '-' && id@[23] == '-',
        id@[14] == '4',
{
    uuid::Uuid::new_v4().to_string()
}

impl DeviceRegistry {
    /// A registry that knows no device.
    pub fn new() -> (r: DeviceRegistry)
        ensures
            r.devices@.len() == 0,
    {
        DeviceRegistry { devices: Vec::new() }
    }

    /// Records device `id`, named `name` and holding `total_entries` entries,
    /// as seen at `seen`: the first record of that identifier is overwritten,
    /// or a new record is appended where there is none.
    pub fn upsert_at(&mut self, id: &str, name: &str, total_entries: u32, seen: Timestamp)
        ensures
            upserted(old(self).devices@, final(self).devices@, id@, name@, total_entries, seen),
    {
        let record = DeviceRecord {
            id: id.to_owned(),
            name: name.to_owned(),
            total_entries,
            last_seen: seen,
        };
        let mut i: usize = 0;
        while i < self.devices.len()
            invariant
                i <= self.devices.len(),
                self.devices@ == old(self).devices@,
                forall|j: int| 0 <= j < i ==> (#[trigger] self.devices@[j]).id@ != id@,
                record_is(record, id@, name@, total_entries, seen),
            decreases self.devices.len() - i,
        {
            if self.devices[i].id == record.id {
                proof {
                    assert(is_first_record(old(self).devices@, id@, i as int));
                    let k = choose|k: int| is_first_record(old(self).devices@, id@, k);
                    if k < i {
                        assert(old(self).devices@[k].id@ != id@);
                    } else if k > i {
                        assert(old(self).devices@[i as int].id@ != id@);
                    }
                }
                self.devices.set(i, record);
                return;
            }
            i = i + 1;
        }
        self.devices.push(record);
    }

    /// Records device `id`, named `name` and holding `total_entries` entries,
    /// as seen now by the system clock.
    pub fn upsert(&mut self, id: &str, name: &str, total_entries: u32)
        ensures
            exists|seen: Timestamp|
                seen.secs >= 0 && seen.nanos < 1_000_000_000
                    && #[trigger] upserted(old(self).devices@, final(self).devices@, id@, name@, total_entries, seen),
    {
        let t = now();
        self.upsert_at(id, name, total_entries, t);
    }
}

/// A registry whose identifiers are distinct keeps them distinct through an
/// upsert, and afterwards records the device exactly once.
pub proof fn law_upsert_keeps_ids_unique(before: Seq<DeviceRecord>, after: Seq<DeviceRecord>, id: Seq<char>, name: Seq<char>, total: u32, seen: Timestamp)
    requires
        unique_ids(before),
        upserted(before, after, id, name, total, seen),
    ensures
        unique_ids(after),
        exists|i: int| 0 <= i < after.len() && #[trigger] record_is(after[i], id, name, total, seen),
        forall|i: int, j: int| 0 <= i < after.len() && 0 <= j < after.len() && after[i].id@ == id && after[j].id@ == id ==> i == j,
{
    if exists|i: int| is_first_record(before, id, i) {
        let i = choose|i: int| is_first_record(before, id, i);
        assert(record_is(after[i], id, name, total, seen));
        assert forall|a: int, b: int| 0 <= a < b < after.len() implies (#[trigger] after[a]).id@ != (#[trigger] after[b]).id@ by {
            if a == i {
                assert(after[b] == before[b]);
            } else if b == i {
                assert(after[a] == before[a]);
            } else {
                assert(after[a] == before[a]);
                assert(after[b] == before[b]);
            }
        }
    } else {
        let n = before.len() as int;
        assert(record_is(after[n], id, name, total, seen));
        assert forall|a: int, b: int| 0 <= a < b < after.len() implies (#[trigger] after[a]).id@ != (#[trigger] after[b]).id@ by {
            assert(after[a] == before[a]);
            if b < n {
                assert(after[b] == before[b]);
            } else if before[a].id@ == id {
                assert(is_first_record(before, id, a)) by {
                    assert forall|j: int| 0 <= j < a implies (#[trigger] before[j]).id@ != id by {
                        assert(before[j].id@ != before[a].id@);
                    }
                }
            }
        }
    }
}

} // verus!
