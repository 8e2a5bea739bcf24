//! `ci device add`: register a new device.

use vstd::prelude::*;

use crate::db::device::{new_device_id, upserted, DeviceRegistry};
use crate::time::Timestamp;

verus! {

/// Registers a new device named `name` under a fresh random identifier, with
/// no entries yet and seen now; returns the identifier.
pub fn run_add(registry: &mut DeviceRegistry, name: &str) -> (id: String)
    ensures
        id@.len() == 36,
        id@[8] == '-' && id@[13] == '-' && id@[18] == '-' && id@[23] == '-',
        id@[14] == '4',
        exists|seen: Timestamp|
            seen.secs >= 0 && seen.nanos < 1_000_000_000 && #[trigger] upserted(old(registry).devices@, final(registry).devices@, id@, name@, 0, seen),
{
    let id = new_device_id();
    registry.upsert(id.as_str(), name, 0);
    id
}

} // verus!
