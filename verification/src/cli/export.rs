//! `ci export`: the database as a Rime user dictionary.

use vstd::prelude::*;

use crate::adapter::rime::{self, userdb_text};
use crate::db::store::FreqDb;

verus! {

/// The Rime user dictionary text of the database, to be written out and
/// restored into Rime with `rime_dict_manager -r`.
pub fn run(db: &FreqDb) -> (text: String)
    ensures
        text@ == userdb_text(db.entries@),
{
    rime::export(db)
}

} // verus!
