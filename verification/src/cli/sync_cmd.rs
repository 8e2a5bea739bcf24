//! `ci sync`: merge the remote database and record this device.

use vstd::prelude::*;

use crate::db::device::{upserted, DeviceRegistry};
use crate::db::merge::{merge, merged_entries};
use crate::db::merge_laws::unique_keys;
use crate::db::store::FreqDb;
use crate::time::Timestamp;

verus! {

/// Merges the database fetched from the remote (where there is one) into the
/// local one, then records the local device, with its entry count, in the
/// registry of known devices. Returns the database to save and commit.
pub fn run(local: FreqDb, remote: Option<FreqDb>, registry: &mut DeviceRegistry) -> (r: FreqDb)
    requires
        remote matches Some(rm) ==> local.device.total_entries + rm.device.total_entries <= u32::MAX,
    ensures
        remote is None ==> r == local,
        remote matches Some(rm) ==> {
            &&& r.version == if local.version >= rm.version { local.version } else { rm.version }
            &&& r.device.id == local.device.id
            &&& r.device.name == local.device.name
            &&& r.entries@ == merged_entries(local, rm)
            &&& r.device.total_entries == r.entries@.len() as u32
        },
        unique_keys(local.entries@) ==> unique_keys(r.entries@),
        exists|seen: Timestamp|
            seen.secs >= 0 && seen.nanos < 1_000_000_000 && #[trigger] upserted(
                old(registry).devices@,
                final(registry).devices@,
                r.device.id@,
                r.device.name@,
                r.device.total_entries,
                seen,
            ),
{
    let merged = match remote {
        Some(rm) => merge(&local, &rm),
        None => local,
    };
    registry.upsert(merged.device.id.as_str(), merged.device.name.as_str(), merged.device.total_entries);
    merged
}

} // verus!
