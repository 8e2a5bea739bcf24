//! `ci import`: read Rime's user dictionary into the database.

use vstd::prelude::*;

use crate::adapter::rime::{self, entries_of_records, import_entries, userdb_records};
use crate::config::Config;
use crate::db::entry::Entry;
use crate::db::store::FreqDb;
use crate::error::CiError;
use crate::time::Timestamp;

verus! {

/// Imports the text of Rime's exported user dictionaries, `userdb`, into the
/// database loaded from `entries.yaml`, which is `None` where that file does
/// not exist. Without a database the import fails with `EntriesNotFound`
/// naming the database directory; otherwise it returns the database after the
/// import (every word of the dictionary refreshed or added, learnt now), to
/// be saved.
pub fn run(db: Option<FreqDb>, cfg: &Config, userdb: &str) -> (r: Result<FreqDb, CiError>)
    ensures
        db is None ==> (r matches Err(CiError::EntriesNotFound { dir }) && dir@ == cfg.freq_db_dir@),
        db matches Some(d) ==> (r matches Ok(out) && {
            &&& exists|at: Timestamp, parsed: Seq<Entry>|
                at.secs >= 0 && at.nanos < 1_000_000_000 && #[trigger] entries_of_records(parsed, userdb_records(userdb@), at)
                    && import_entries(d.entries@, parsed) == out.entries@
            &&& out.version == d.version
            &&& out.device.id == d.device.id
            &&& out.device.name == d.device.name
            &&& out.device.total_entries == out.entries@.len() as u32
        }),
{
    match db {
        None => Err(CiError::EntriesNotFound { dir: cfg.freq_db_dir.clone() }),
        Some(d) => {
            let mut d = d;
            match rime::import(&mut d, userdb) {
                Ok(()) => Ok(d),
                Err(e) => Err(e),
            }
        },
    }
}

} // verus!
