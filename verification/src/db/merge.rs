//! Merging the database of another device into the local one, weighting each
//! side's frequency by how many entries its device holds.

use vstd::prelude::*;

use super::device::{Device, Weight};
use super::entry::{copy_opt_string, Entry};
use super::merge_laws::{law_merge_db_keeps_words_unique, unique_keys};
use super::store::FreqDb;

verus! {

/// `n / d` rounded to the nearest integer, halves rounded up (for `d > 0`
/// and `n >= 0`, the rounding of `f64::round`).
pub open spec fn round_div(n: int, d: int) -> int {
    (2 * n + d) / (2 * d)
}

/// The frequency of a word seen `lf` times locally and `rf` times remotely,
/// where the local side weighs `lw` and the remote side `rw`: the weighted
/// mean `(lf * lw + rf * rw) / (lw + rw)`, rounded to the nearest integer.
pub open spec fn weighted_freq(lf: u32, rf: u32, lw: u32, rw: u32) -> int {
    round_div(lf * lw + rf * rw, lw + rw)
}

/// `i` is the first position in `s` that holds the word of `r`.
pub open spec fn is_first_match(s: Seq<Entry>, r: Entry, i: int) -> bool {
    &&& 0 <= i < s.len()
    &&& s[i].same_key(r)
    &&& forall|j: int| 0 <= j < i ==> !(#[trigger] s[j]).same_key(r)
}

/// The first position in `s` that holds the word of `r`, or -1 where none does.
pub open spec fn first_match(s: Seq<Entry>, r: Entry) -> int {
    if exists|i: int| is_first_match(s, r, i) {
        choose|i: int| is_first_match(s, r, i)
    } else {
        -1
    }
}

/// The local entry `l` after merging the remote entry `r` of the same word:
/// the weighted frequency, the later update time, and the remote's previous
/// word only where the local entry has none.
pub open spec fn combine(l: Entry, r: Entry, lw: u32, rw: u32) -> Entry {
    Entry {
        code: l.code,
        word: l.word,
        freq: weighted_freq(l.freq, r.freq, lw, rw) as u32,
        updated: l.updated.spec_later(r.updated),
        prev: if r.prev is Some && l.prev is None { r.prev } else { l.prev },
        source: l.source,
    }
}

/// Merges one remote entry into the entries `m`: combined into the first entry
/// of the same word, or appended where there is none.
pub open spec fn merge_step(m: Seq<Entry>, r: Entry, lw: u32, rw: u32) -> Seq<Entry> {
    let p = first_match(m, r);
    if p >= 0 {
        m.update(p, combine(m[p], r, lw, rw))
    } else {
        m.push(r)
    }
}

/// Merges the remote entries `rs`, in order, into the entries `m`.
pub open spec fn merge_entries(m: Seq<Entry>, rs: Seq<Entry>, lw: u32, rw: u32) -> Seq<Entry>
    decreases rs.len(),
{
    if rs.len() == 0 {
        m
    } else {
        merge_step(merge_entries(m, rs.drop_last(), lw, rw), rs.last(), lw, rw)
    }
}

/// The weight of the local side when merging `local` and `remote`.
pub open spec fn local_weight(local: FreqDb, remote: FreqDb) -> u32 {
    local.device.spec_weight((local.device.total_entries + remote.device.total_entries) as u32).num
}

/// The weight of the remote side when merging `local` and `remote`.
pub open spec fn remote_weight(local: FreqDb, remote: FreqDb) -> u32 {
    remote.device.spec_weight((local.device.total_entries + remote.device.total_entries) as u32).num
}

/// The entries of `merge(local, remote)`.
pub open spec fn merged_entries(local: FreqDb, remote: FreqDb) -> Seq<Entry> {
    merge_entries(
        local.entries@,
        remote.entries@,
        local_weight(local, remote),
        remote_weight(local, remote),
    )
}

/// The two weights that a merge uses are never both zero.
proof fn lemma_weights_positive(local: FreqDb, remote: FreqDb)
    requires
        local.device.total_entries + remote.device.total_entries <= u32::MAX,
    ensures
        local_weight(local, remote) + remote_weight(local, remote) > 0,
{
}

/// Only one position is the first one that holds a word.
pub proof fn lemma_first_match_unique(s: Seq<Entry>, r: Entry, i: int)
    requires
        is_first_match(s, r, i),
    ensures
        first_match(s, r) == i,
{
    let k = choose|k: int| is_first_match(s, r, k);
    if k < i {
        assert(!s[k].same_key(r));
    } else if k > i {
        assert(!s[i].same_key(r));
    }
}

/// No position holds the word of `r`.
pub proof fn lemma_first_match_none(s: Seq<Entry>, r: Entry)
    requires
        forall|j: int| 0 <= j < s.len() ==> !(#[trigger] s[j]).same_key(r),
    ensures
        first_match(s, r) == -1,
{
}

/// The rounded weighted mean lies between its two frequencies.
pub proof fn law_weighted_bounds(lf: u32, rf: u32, lw: u32, rw: u32)
    requires
        lw + rw > 0,
    ensures
        weighted_freq(lf, rf, lw, rw) <= if lf >= rf { lf as int } else { rf as int },
        weighted_freq(lf, rf, lw, rw) >= if lf <= rf { lf as int } else { rf as int },
{
    let hi: int = if lf >= rf { lf as int } else { rf as int };
    let lo: int = if lf <= rf { lf as int } else { rf as int };
    let n: int = lf * lw + rf * rw;
    let d: int = lw + rw;
    assert(n <= hi * d) by (nonlinear_arith)
        requires
            n == lf * lw + rf * rw,
            d == lw + rw,
            lf <= hi,
            rf <= hi,
            lw >= 0,
            rw >= 0,
    ;
    assert(n >= lo * d) by (nonlinear_arith)
        requires
            n == lf * lw + rf * rw,
            d == lw + rw,
            lf >= lo,
            rf >= lo,
            lw >= 0,
            rw >= 0,
    ;
    assert((2 * n + d) / (2 * d) <= hi) by (nonlinear_arith)
        requires
            n <= hi * d,
            d > 0,
            n >= 0,
    {
        assert(2 * n + d < (hi + 1) * (2 * d));
    }
    assert((2 * n + d) / (2 * d) >= lo) by (nonlinear_arith)
        requires
            n >= lo * d,
            d > 0,
            lo >= 0,
    {
        assert(2 * n + d >= lo * (2 * d));
    }
}

/// The weighted frequency of a word seen `lf` times locally and `rf` times
/// remotely, with weights `lw` and `rw`.
pub fn merged_freq(lf: u32, rf: u32, lw: u32, rw: u32) -> (f: u32)
    requires
        lw + rw > 0,
    ensures
        f == weighted_freq(lf, rf, lw, rw),
{
    proof {
        law_weighted_bounds(lf, rf, lw, rw);
    }
    assert((lf as u128) * (lw as u128) <= 0xffff_ffff * 0xffff_ffff) by (nonlinear_arith)
        requires
            lf <= 0xffff_ffff,
            lw <= 0xffff_ffff,
    ;
    assert((rf as u128) * (rw as u128) <= 0xffff_ffff * 0xffff_ffff) by (nonlinear_arith)
        requires
            rf <= 0xffff_ffff,
            rw <= 0xffff_ffff,
    ;
    let a: u128 = (lf as u128) * (lw as u128);
    let b: u128 = (rf as u128) * (rw as u128);
    let n: u128 = a + b;
    let d: u128 = (lw as u128) + (rw as u128);
    let q: u128 = (2 * n + d) / (2 * d);
    q as u32
}

/// The local entry `l` after merging the remote entry `r` of the same word.
fn combine_entry(l: &Entry, r: &Entry, lw: u32, rw: u32) -> (e: Entry)
    requires
        lw + rw > 0,
    ensures
        e == combine(*l, *r, lw, rw),
{
    let freq = merged_freq(l.freq, r.freq, lw, rw);
    let updated = l.updated.later(r.updated);
    let prev = if r.prev.is_some() && l.prev.is_none() {
        copy_opt_string(&r.prev)
    } else {
        copy_opt_string(&l.prev)
    };
    Entry {
        code: l.code.clone(),
        word: l.word.clone(),
        freq,
        updated,
        prev,
        source: l.source.duplicate(),
    }
}

/// The first position in `entries` that holds the word of `r`.
pub fn find_entry(entries: &Vec<Entry>, r: &Entry) -> (p: Option<usize>)
    ensures
        match p {
            Some(i) => first_match(entries@, *r) == i as int,
            None => first_match(entries@, *r) == -1,
        },
{
    let mut i: usize = 0;
    while i < entries.len()
        invariant
            i <= entries.len(),
            forall|j: int| 0 <= j < i ==> !(#[trigger] entries@[j]).same_key(*r),
        decreases entries.len() - i,
    {
        if entries[i].has_key_of(r) {
            proof {
                lemma_first_match_unique(entries@, *r, i as int);
            }
            return Some(i);
        }
        i = i + 1;
    }
    proof {
        lemma_first_match_none(entries@, *r);
    }
    None
}

/// A copy of a list of entries.
pub fn copy_entries(entries: &Vec<Entry>) -> (r: Vec<Entry>)
    ensures
        r@ == entries@,
{
    let mut r: Vec<Entry> = Vec::new();
    for i in 0..entries.len()
        invariant
            r@ == entries@.take(i as int),
    {
        r.push(entries[i].duplicate());
        assert(r@ =~= entries@.take(i + 1));
    }
    assert(entries@.take(entries.len() as int) =~= entries@);
    r
}

/// Merges the database `remote` of another device into `local`.
///
/// Each remote entry is combined into the first merged entry of the same word
/// (same code and same word), or appended where there is none. A combined entry
/// takes the mean of the two frequencies weighted by each device's entry count
/// (rounded to the nearest integer), the later update time, and the remote's
/// previous word where the local entry has none. The result keeps the local
/// device's identity, counts its own entries, and has the higher version.
pub fn merge(local: &FreqDb, remote: &FreqDb) -> (merged: FreqDb)
    requires
        local.device.total_entries + remote.device.total_entries <= u32::MAX,
    ensures
        merged.version == if local.version >= remote.version { local.version } else { remote.version },
        merged.device.id == local.device.id,
        merged.device.name == local.device.name,
        merged.entries@ == merged_entries(*local, *remote),
        merged.device.total_entries == merged.entries@.len() as u32,
        unique_keys(local.entries@) ==> unique_keys(merged.entries@),
{
    proof {
        if unique_keys(local.entries@) {
            law_merge_db_keeps_words_unique(*local, *remote);
        }
    }
    let total: u32 = local.device.total_entries + remote.device.total_entries;
    let local_w: Weight = local.device.weight(total);
    let remote_w: Weight = remote.device.weight(total);
    let lw = local_w.num;
    let rw = remote_w.num;
    proof {
        lemma_weights_positive(*local, *remote);
    }
    let mut merged_entries_v: Vec<Entry> = copy_entries(&local.entries);
    let n = remote.entries.len();
    for k in 0..n
        invariant
            n == remote.entries@.len(),
            lw == local_weight(*local, *remote),
            rw == remote_weight(*local, *remote),
            lw + rw > 0,
            merged_entries_v@ == merge_entries(local.entries@, remote.entries@.take(k as int), lw, rw),
    {
        let remote_entry = &remote.entries[k];
        proof {
            let rs = remote.entries@.take(k + 1);
            assert(rs.drop_last() =~= remote.entries@.take(k as int));
            assert(rs.last() == remote.entries@[k as int]);
        }
        match find_entry(&merged_entries_v, remote_entry) {
            Some(i) => {
                let e = combine_entry(&merged_entries_v[i], remote_entry, lw, rw);
                merged_entries_v.set(i, e);
            },
            None => {
                merged_entries_v.push(remote_entry.duplicate());
            },
        }
    }
    proof {
        assert(remote.entries@.take(n as int) =~= remote.entries@);
    }
    let count = merged_entries_v.len() as u32;
    let merged_device = Device {
        id: local.device.id.clone(),
        name: local.device.name.clone(),
        total_entries: count,
    };
    let version = if local.version >= remote.version { local.version } else { remote.version };
    FreqDb { version, device: merged_device, entries: merged_entries_v }
}

} // verus!
