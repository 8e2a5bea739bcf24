//! `ci status`: how many entries came from typing and how many from scanning.

use vstd::prelude::*;

use crate::db::entry::{Entry, EntrySource};
use crate::db::store::FreqDb;

verus! {

/// How many entries of `s` were learnt through the input method.
pub open spec fn count_ime(s: Seq<Entry>) -> nat
    decreases s.len(),
{
    if s.len() == 0 {
        0
    } else {
        count_ime(s.drop_last()) + if s.last().source is Ime { 1nat } else { 0nat }
    }
}

/// How many entries of `s` were learnt by scanning repositories.
pub open spec fn count_scan(s: Seq<Entry>) -> nat
    decreases s.len(),
{
    if s.len() == 0 {
        0
    } else {
        count_scan(s.drop_last()) + if s.last().source is Scan { 1nat } else { 0nat }
    }
}

/// The entries of a database counted by source.
#[derive(Debug, Clone, Copy, PartialEq, Eq, Structural)]
pub struct SourceCounts {
    pub ime: u32,
    pub scan: u32,
}

/// Counts the entries of `db` learnt through the input method and by scanning.
pub fn run(db: &FreqDb) -> (c: SourceCounts)
    requires
        db.entries@.len() <= u32::MAX,
    ensures
        c.ime == count_ime(db.entries@),
        c.scan == count_scan(db.entries@),
{
    let mut ime_count: u32 = 0;
    let mut scan_count: u32 = 0;
    for i in 0..db.entries.len()
        invariant
            db.entries@.len() <= u32::MAX,
            ime_count == count_ime(db.entries@.take(i as int)),
            scan_count == count_scan(db.entries@.take(i as int)),
    {
        proof {
            let s = db.entries@.take(i + 1);
            assert(s.drop_last() =~= db.entries@.take(i as int));
            law_counts_add_up(db.entries@.take(i as int));
        }
        match db.entries[i].source {
            EntrySource::Ime => ime_count = ime_count + 1,
            EntrySource::Scan { .. } => scan_count = scan_count + 1,
        }
    }
    proof {
        assert(db.entries@.take(db.entries@.len() as int) =~= db.entries@);
    }
    SourceCounts { ime: ime_count, scan: scan_count }
}

/// Every entry is counted once: the two counts add up to the number of entries.
pub proof fn law_counts_add_up(s: Seq<Entry>)
    ensures
        count_ime(s) + count_scan(s) == s.len(),
    decreases s.len(),
{
    if s.len() > 0 {
        law_counts_add_up(s.drop_last());
    }
}

/// The input-method count is the number of entries whose source is the input
/// method, and the scan count the number whose source is a scan.
pub proof fn law_counts_by_source(s: Seq<Entry>)
    ensures
        count_ime(s) == s.filter(|e: Entry| e.source is Ime).len(),
        count_scan(s) == s.filter(|e: Entry| e.source is Scan).len(),
    decreases s.len(),
{
    reveal_with_fuel(Seq::<Entry>::filter, 1);
    if s.len() > 0 {
        law_counts_by_source(s.drop_last());
    }
}

/// Adding an entry typed through the input method raises the input-method
/// count by one and leaves the scan count as it is; adding a scanned entry
/// does the opposite.
pub proof fn law_count_one_more(s: Seq<Entry>, e: Entry)
    ensures
        e.source is Ime ==> count_ime(s.push(e)) == count_ime(s) + 1 && count_scan(s.push(e)) == count_scan(s),
        e.source is Scan ==> count_scan(s.push(e)) == count_scan(s) + 1 && count_ime(s.push(e)) == count_ime(s),
{
    law_counts_by_source(s);
    law_counts_by_source(s.push(e));
    reveal_with_fuel(Seq::<Entry>::filter, 1);
    assert(s.push(e).drop_last() =~= s);
}

} // verus!
