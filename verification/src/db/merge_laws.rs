//! What every merge keeps: the local entries' places and words, the union of
//! the two sets of words, uniqueness of words, untouched entries, and the
//! properties of the weighted frequency.

use vstd::prelude::*;

use super::entry::Entry;
use super::merge::{
    combine, law_weighted_bounds, weighted_freq, first_match, is_first_match, lemma_first_match_unique, local_weight, merge_entries,
    merge_step, merged_entries, remote_weight,
};
use super::store::FreqDb;

verus! {

/// No two entries of `s` hold the same word.
pub open spec fn unique_keys(s: Seq<Entry>) -> bool {
    forall|i: int, j: int| 0 <= i < j < s.len() ==> !(#[trigger] s[i]).same_key(#[trigger] s[j])
}

/// Some entry of `s` holds the word of `e`.
pub open spec fn has_key(s: Seq<Entry>, e: Entry) -> bool {
    exists|j: int| 0 <= j < s.len() && (#[trigger] s[j]).same_key(e)
}

/// `b` sits where `a` sat: same code, same word, same source.
pub open spec fn same_slot(a: Entry, b: Entry) -> bool {
    a.code == b.code && a.word == b.word && a.source == b.source
}

/// Where some entry holds the word of `r`, one of them is the first.
proof fn lemma_first_exists(s: Seq<Entry>, r: Entry, j: int)
    requires
        0 <= j < s.len(),
        s[j].same_key(r),
    ensures
        exists|i: int| is_first_match(s, r, i),
    decreases j,
{
    if exists|k: int| 0 <= k < j && (#[trigger] s[k]).same_key(r) {
        let k = choose|k: int| 0 <= k < j && (#[trigger] s[k]).same_key(r);
        lemma_first_exists(s, r, k);
    } else {
        assert(is_first_match(s, r, j));
    }
}

/// `first_match` is -1 exactly where no entry holds the word, and otherwise the
/// first position that does.
pub proof fn lemma_first_match(s: Seq<Entry>, r: Entry)
    ensures
        first_match(s, r) == -1 <==> !has_key(s, r),
        first_match(s, r) != -1 ==> is_first_match(s, r, first_match(s, r)),
{
    if has_key(s, r) {
        let j = choose|j: int| 0 <= j < s.len() && (#[trigger] s[j]).same_key(r);
        lemma_first_exists(s, r, j);
    }
}

/// One step of a merge keeps every earlier entry in its place, with its code,
/// word and source, and grows the list by at most one.
proof fn lemma_step_slots(m: Seq<Entry>, r: Entry, lw: u32, rw: u32)
    ensures
        ({
            let m2 = merge_step(m, r, lw, rw);
            &&& m.len() <= m2.len() <= m.len() + 1
            &&& forall|i: int| 0 <= i < m.len() ==> same_slot(#[trigger] m2[i], m[i])
            &&& has_key(m2, r)
            &&& forall|i: int| 0 <= i < m2.len() ==> has_key(m, #[trigger] m2[i]) || m2[i].same_key(r)
            &&& (m2.len() == m.len() <==> has_key(m, r))
        }),
{
    lemma_first_match(m, r);
    let m2 = merge_step(m, r, lw, rw);
    let p = first_match(m, r);
    if p >= 0 {
        assert(m2[p].same_key(r));
        assert forall|i: int| 0 <= i < m2.len() implies has_key(m, #[trigger] m2[i]) || m2[i].same_key(r) by {
            assert(m[i].same_key(m2[i]));
        }
    } else {
        assert(m2[m.len() as int] == r);
        assert forall|i: int| 0 <= i < m2.len() implies has_key(m, #[trigger] m2[i]) || m2[i].same_key(r) by {
            if i < m.len() {
                assert(m[i].same_key(m2[i]));
            }
        }
    }
}

/// A merge keeps every local entry in its place with its code, word and source,
/// appends at most one entry per remote entry, holds every word of both sides,
/// and holds no word that neither side held.
pub proof fn law_merge_keeps_words(l: Seq<Entry>, rs: Seq<Entry>, lw: u32, rw: u32)
    ensures
        ({
            let m = merge_entries(l, rs, lw, rw);
            &&& l.len() <= m.len() <= l.len() + rs.len()
            &&& forall|i: int| 0 <= i < l.len() ==> same_slot(#[trigger] m[i], l[i])
            &&& forall|j: int| 0 <= j < rs.len() ==> has_key(m, #[trigger] rs[j])
            &&& forall|i: int| 0 <= i < m.len() ==> has_key(l, #[trigger] m[i]) || has_key(rs, m[i])
        }),
    decreases rs.len(),
{
    if rs.len() > 0 {
        let rs0 = rs.drop_last();
        let r = rs.last();
        law_merge_keeps_words(l, rs0, lw, rw);
        let m0 = merge_entries(l, rs0, lw, rw);
        let m = merge_entries(l, rs, lw, rw);
        lemma_step_slots(m0, r, lw, rw);
        assert forall|j: int| 0 <= j < rs.len() implies has_key(m, #[trigger] rs[j]) by {
            if j < rs0.len() {
                assert(rs0[j] == rs[j]);
                let k = choose|k: int| 0 <= k < m0.len() && (#[trigger] m0[k]).same_key(rs0[j]);
                assert(m[k].same_key(m0[k]));
            }
        }
        assert forall|i: int| 0 <= i < m.len() implies has_key(l, #[trigger] m[i]) || has_key(rs, m[i]) by {
            if m[i].same_key(r) {
                assert(rs[rs.len() - 1] == r);
            } else {
                let k = choose|k: int| 0 <= k < m0.len() && (#[trigger] m0[k]).same_key(m[i]);
                if !has_key(l, m0[k]) {
                    let j = choose|j: int| 0 <= j < rs0.len() && (#[trigger] rs0[j]).same_key(m0[k]);
                    assert(rs[j] == rs0[j]);
                    assert(rs[j].same_key(m[i]));
                } else {
                    let j = choose|j: int| 0 <= j < l.len() && (#[trigger] l[j]).same_key(m0[k]);
                    assert(l[j].same_key(m[i]));
                }
            }
        }
    }
}

/// Where the local entries hold each word at most once, so do the merged ones.
pub proof fn law_merge_keeps_words_unique(l: Seq<Entry>, rs: Seq<Entry>, lw: u32, rw: u32)
    requires
        unique_keys(l),
    ensures
        unique_keys(merge_entries(l, rs, lw, rw)),
    decreases rs.len(),
{
    if rs.len() > 0 {
        let rs0 = rs.drop_last();
        let r = rs.last();
        law_merge_keeps_words_unique(l, rs0, lw, rw);
        let m0 = merge_entries(l, rs0, lw, rw);
        let m = merge_entries(l, rs, lw, rw);
        lemma_step_slots(m0, r, lw, rw);
        lemma_first_match(m0, r);
        assert forall|i: int, j: int| 0 <= i < j < m.len() implies !(#[trigger] m[i]).same_key(#[trigger] m[j]) by {
            if j < m0.len() {
                assert(m[i].same_key(m0[i]));
                assert(m[j].same_key(m0[j]));
            } else {
                assert(m[j] == r);
                assert(m[i].same_key(m0[i]));
                if m[i].same_key(m[j]) {
                    assert(m0[i].same_key(r));
                }
            }
        }
    }
}

/// A merge of a database that holds each word at most once holds each word
/// at most once, whatever the remote database holds.
pub proof fn law_merge_db_keeps_words_unique(local: FreqDb, remote: FreqDb)
    requires
        unique_keys(local.entries@),
    ensures
        unique_keys(merged_entries(local, remote)),
{
    law_merge_keeps_words_unique(
        local.entries@,
        remote.entries@,
        local_weight(local, remote),
        remote_weight(local, remote),
    );
}

/// A local entry whose word no remote entry holds comes out of the merge as it
/// went in.
pub proof fn law_merge_leaves_unmatched(l: Seq<Entry>, rs: Seq<Entry>, lw: u32, rw: u32, i: int)
    requires
        0 <= i < l.len(),
        !has_key(rs, l[i]),
    ensures
        merge_entries(l, rs, lw, rw)[i] == l[i],
    decreases rs.len(),
{
    if rs.len() > 0 {
        let rs0 = rs.drop_last();
        let r = rs.last();
        assert(!has_key(rs0, l[i])) by {
            if has_key(rs0, l[i]) {
                let j = choose|j: int| 0 <= j < rs0.len() && (#[trigger] rs0[j]).same_key(l[i]);
                assert(rs[j] == rs0[j]);
            }
        }
        law_merge_leaves_unmatched(l, rs0, lw, rw, i);
        let m0 = merge_entries(l, rs0, lw, rw);
        law_merge_keeps_words(l, rs0, lw, rw);
        lemma_first_match(m0, r);
        let p = first_match(m0, r);
        if p == i {
            assert(rs[rs.len() - 1] == r);
            assert(r.same_key(l[i]));
        }
    }
}

/// Merging no remote entries leaves the local entries as they are.
pub proof fn law_merge_nothing(local: FreqDb, remote: FreqDb)
    requires
        remote.entries@.len() == 0,
    ensures
        merged_entries(local, remote) == local.entries@,
{
}

/// Combining an entry with itself gives it back.
proof fn lemma_combine_self(e: Entry, w: u32)
    requires
        w > 0,
    ensures
        combine(e, e, w, w) == e,
{
    let f = e.freq;
    let n: int = f * w + f * w;
    let d: int = w + w;
    assert((2 * n + d) / (2 * d) == f) by (nonlinear_arith)
        requires
            n == f * w + f * w,
            d == w + w,
            w > 0,
            f >= 0,
    {
        assert(2 * n + d == f * (2 * d) + w + w);
        assert(0 <= w + w < 2 * d);
    }
}

/// Merging, with equal weights, a list of distinct words into itself leaves
/// every entry as it was.
pub proof fn law_merge_self(l: Seq<Entry>, w: u32, k: int)
    requires
        unique_keys(l),
        w > 0,
        0 <= k <= l.len(),
    ensures
        merge_entries(l, l.take(k), w, w) == l,
    decreases k,
{
    if k > 0 {
        let rs = l.take(k);
        assert(rs.drop_last() =~= l.take(k - 1));
        law_merge_self(l, w, k - 1);
        let r = rs.last();
        assert(r == l[k - 1]);
        assert(is_first_match(l, r, k - 1));
        lemma_first_match_unique(l, r, k - 1);
        lemma_combine_self(r, w);
        assert(merge_step(l, r, w, w) =~= l);
    }
}

/// Merging a database into itself changes none of its entries, where it holds
/// each word at most once.
pub proof fn law_merge_db_with_itself(db: FreqDb)
    requires
        unique_keys(db.entries@),
        db.device.total_entries + db.device.total_entries <= u32::MAX,
    ensures
        merged_entries(db, db) == db.entries@,
{
    let w = local_weight(db, db);
    assert(w == remote_weight(db, db));
    assert(w > 0);
    assert(db.entries@.take(db.entries@.len() as int) =~= db.entries@);
    law_merge_self(db.entries@, w, db.entries@.len() as int);
}

/// The distance between two integers.
pub open spec fn dist(a: int, b: int) -> int {
    if a >= b { a - b } else { b - a }
}

/// `q` is `x / y` for `y > 0`: `q * y <= x < (q + 1) * y`.
proof fn lemma_div_bounds(x: int, y: int)
    requires
        y > 0,
    ensures
        (x / y) * y <= x < (x / y + 1) * y,
{
    assert((x / y) * y <= x < (x / y + 1) * y) by (nonlinear_arith)
        requires
            y > 0,
    ;
}

/// The weighted frequency of two frequencies:
/// - lies between them;
/// - is their common value where they agree;
/// - is the local one where the remote side weighs nothing, and the remote one
///   where the local side weighs nothing;
/// - lies at least as near to the side that weighs more as to the other one
///   (where the two weigh the same, a half rounds up).
pub proof fn law_weighted_freq(lf: u32, rf: u32, lw: u32, rw: u32)
    requires
        lw + rw > 0,
    ensures
        ({
            let f = weighted_freq(lf, rf, lw, rw);
            &&& (if lf <= rf { lf as int } else { rf as int }) <= f
            &&& f <= (if lf >= rf { lf as int } else { rf as int })
            &&& lf == rf ==> f == lf
            &&& rw == 0 ==> f == lf
            &&& lw == 0 ==> f == rf
            &&& lw > rw ==> dist(f, lf as int) <= dist(f, rf as int)
            &&& rw > lw ==> dist(f, rf as int) <= dist(f, lf as int)
        }),
{
    let n: int = lf * lw + rf * rw;
    let d: int = lw + rw;
    let s: int = lf + rf;
    let f = weighted_freq(lf, rf, lw, rw);
    assert(f == (2 * n + d) / (2 * d));
    law_weighted_bounds(lf, rf, lw, rw);
    lemma_div_bounds(2 * n + d, 2 * d);
    assert(2 * n - s * d == (lf - rf) * (lw - rw)) by (nonlinear_arith)
        requires
            n == lf * lw + rf * rw,
            d == lw + rw,
            s == lf + rf,
    ;
    if rw == 0 {
        assert(n == lf * d) by (nonlinear_arith)
            requires
                n == lf * lw + rf * rw,
                d == lw + rw,
                rw == 0,
        ;
        assert(f == lf) by (nonlinear_arith)
            requires
                f * (2 * d) <= 2 * n + d,
                2 * n + d < (f + 1) * (2 * d),
                n == lf * d,
                d > 0,
        ;
    }
    if lw == 0 {
        assert(n == rf * d) by (nonlinear_arith)
            requires
                n == lf * lw + rf * rw,
                d == lw + rw,
                lw == 0,
        ;
        assert(f == rf) by (nonlinear_arith)
            requires
                f * (2 * d) <= 2 * n + d,
                2 * n + d < (f + 1) * (2 * d),
                n == rf * d,
                d > 0,
        ;
    }
    if lf < rf && lw > rw {
        assert((lf - rf) * (lw - rw) < 0) by (nonlinear_arith)
            requires
                lf < rf,
                lw > rw,
        ;
        assert(2 * f <= s) by (nonlinear_arith)
            requires
                f * (2 * d) <= 2 * n + d,
                2 * n < s * d,
                d > 0,
        ;
    }
    if lf > rf && lw > rw {
        assert((lf - rf) * (lw - rw) > 0) by (nonlinear_arith)
            requires
                lf > rf,
                lw > rw,
        ;
        assert(2 * f >= s) by (nonlinear_arith)
            requires
                2 * n + d < (f + 1) * (2 * d),
                2 * n > s * d,
                d > 0,
        ;
    }
    if lf < rf && rw > lw {
        assert((lf - rf) * (lw - rw) > 0) by (nonlinear_arith)
            requires
                lf < rf,
                lw < rw,
        ;
        assert(2 * f >= s) by (nonlinear_arith)
            requires
                2 * n + d < (f + 1) * (2 * d),
                2 * n > s * d,
                d > 0,
        ;
    }
    if lf > rf && rw > lw {
        assert((lf - rf) * (lw - rw) < 0) by (nonlinear_arith)
            requires
                lf > rf,
                lw < rw,
        ;
        assert(2 * f <= s) by (nonlinear_arith)
            requires
                f * (2 * d) <= 2 * n + d,
                2 * n < s * d,
                d > 0,
        ;
    }
}

/// A local word that exactly one remote entry holds comes out of the merge as
/// the combination of the two entries, where the local entries hold each word
/// at most once.
pub proof fn law_merge_combines_shared(l: Seq<Entry>, rs: Seq<Entry>, lw: u32, rw: u32, i: int, j: int)
    requires
        unique_keys(l),
        0 <= i < l.len(),
        0 <= j < rs.len(),
        rs[j].same_key(l[i]),
        forall|k: int| 0 <= k < rs.len() && k != j ==> !(#[trigger] rs[k]).same_key(l[i]),
    ensures
        merge_entries(l, rs, lw, rw)[i] == combine(l[i], rs[j], lw, rw),
    decreases rs.len(),
{
    let rs0 = rs.drop_last();
    let r = rs.last();
    let m0 = merge_entries(l, rs0, lw, rw);
    law_merge_keeps_words(l, rs0, lw, rw);
    law_merge_keeps_words_unique(l, rs0, lw, rw);
    lemma_first_match(m0, r);
    assert(m0[i].same_key(l[i]));
    if j == rs.len() - 1 {
        assert(!has_key(rs0, l[i])) by {
            if has_key(rs0, l[i]) {
                let k = choose|k: int| 0 <= k < rs0.len() && (#[trigger] rs0[k]).same_key(l[i]);
                assert(rs[k] == rs0[k]);
            }
        }
        law_merge_leaves_unmatched(l, rs0, lw, rw, i);
        assert(r == rs[j]);
        assert(is_first_match(m0, r, i)) by {
            assert forall|k: int| 0 <= k < i implies !(#[trigger] m0[k]).same_key(r) by {
                assert(!m0[k].same_key(m0[i]));
            }
        }
        lemma_first_match_unique(m0, r, i);
    } else {
        assert forall|k: int| 0 <= k < rs0.len() && k != j implies !(#[trigger] rs0[k]).same_key(l[i]) by {
            assert(rs[k] == rs0[k]);
        }
        assert(rs0[j] == rs[j]);
        law_merge_combines_shared(l, rs0, lw, rw, i, j);
        assert(!r.same_key(l[i])) by {
            assert(rs[rs.len() - 1] == r);
        }
        if first_match(m0, r) == i {
            assert(m0[i].same_key(r));
        }
    }
}

/// A local word that exactly one remote entry holds comes out of the merge in
/// its place with its code, word and source; with the nearest integer to the
/// weighted mean `(lf * lw + rf * rw) / (lw + rw)` as its frequency (a half
/// rounds up); with the later of the two update times; and with the local
/// previous word where there is one, the remote one only where there is not.
pub proof fn law_merge_shared_word(l: Seq<Entry>, rs: Seq<Entry>, lw: u32, rw: u32, i: int, j: int)
    requires
        unique_keys(l),
        lw + rw > 0,
        0 <= i < l.len(),
        0 <= j < rs.len(),
        rs[j].same_key(l[i]),
        forall|k: int| 0 <= k < rs.len() && k != j ==> !(#[trigger] rs[k]).same_key(l[i]),
    ensures
        ({
            let m = merge_entries(l, rs, lw, rw)[i];
            let lf = l[i].freq as int;
            let rf = rs[j].freq as int;
            let lu = l[i].updated;
            let ru = rs[j].updated;
            &&& m.code == l[i].code && m.word == l[i].word && m.source == l[i].source
            &&& l[i].prev is Some ==> m.prev == l[i].prev
            &&& l[i].prev is None ==> m.prev == rs[j].prev
            &&& (m.updated == lu || m.updated == ru)
            &&& m.updated.secs > lu.secs || (m.updated.secs == lu.secs && m.updated.nanos >= lu.nanos)
            &&& m.updated.secs > ru.secs || (m.updated.secs == ru.secs && m.updated.nanos >= ru.nanos)
            &&& 2 * (lw + rw) * m.freq <= 2 * (lf * lw + rf * rw) + (lw + rw)
            &&& 2 * (lf * lw + rf * rw) + (lw + rw) < 2 * (lw + rw) * (m.freq + 1)
        }),
{
    law_merge_combines_shared(l, rs, lw, rw, i, j);
    law_weighted_bounds(l[i].freq, rs[j].freq, lw, rw);
    let lf = l[i].freq as int;
    let rf = rs[j].freq as int;
    let n: int = lf * lw + rf * rw;
    let d: int = lw + rw;
    let f = weighted_freq(l[i].freq, rs[j].freq, lw, rw);
    assert(f == (2 * n + d) / (2 * d));
    lemma_div_bounds(2 * n + d, 2 * d);
    let m = merge_entries(l, rs, lw, rw)[i];
    assert(m.freq == f);
    assert(2 * d * m.freq <= 2 * n + d) by (nonlinear_arith)
        requires
            f * (2 * d) <= 2 * n + d,
            m.freq == f,
    ;
    assert(2 * n + d < 2 * d * (m.freq + 1)) by (nonlinear_arith)
        requires
            2 * n + d < (f + 1) * (2 * d),
            m.freq == f,
    ;
}

} // verus!
