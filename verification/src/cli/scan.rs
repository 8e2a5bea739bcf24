//! `ci scan`: fold the vocabulary found in repositories into the database.

use vstd::prelude::*;

use crate::db::merge::{merge, merged_entries};
use crate::db::merge_laws::unique_keys;
use crate::db::store::FreqDb;

verus! {

/// Folds the result of scanning one repository into the database: a scan that
/// found no entries leaves it as it is, any other is merged into it.
pub fn run(db: FreqDb, scan_result: &FreqDb) -> (r: FreqDb)
    requires
        scan_result.entries@.len() > 0 ==> db.device.total_entries + scan_result.device.total_entries
            <= u32::MAX,
    ensures
        scan_result.entries@.len() == 0 ==> r == db,
        scan_result.entries@.len() > 0 ==> {
            &&& r.version == if db.version >= scan_result.version { db.version } else { scan_result.version }
            &&& r.device.id == db.device.id
            &&& r.device.name == db.device.name
            &&& r.entries@ == merged_entries(db, *scan_result)
            &&& r.device.total_entries == r.entries@.len() as u32
        },
        unique_keys(db.entries@) ==> unique_keys(r.entries@),
{
    if scan_result.entries.len() == 0 {
        db
    } else {
        merge(&db, scan_result)
    }
}

} // verus!
