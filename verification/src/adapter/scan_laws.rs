//! What every scan keeps and adds.

use vstd::prelude::*;

use super::scan::{bump, closing_delim, front_matter_len, is_fence, is_front_delim, prose_lines, scan_entries, scan_step};
use crate::db::entry::Entry;
use crate::db::merge::first_match;
use crate::db::merge_laws::{has_key, lemma_first_match, same_slot};

verus! {

/// One scan step keeps every entry's place, code, word and source, never
/// lowers a count, and holds the word it adds.
proof fn lemma_scan_step(m: Seq<Entry>, e: Entry)
    ensures
        ({
            let m2 = scan_step(m, e);
            &&& m.len() <= m2.len() <= m.len() + 1
            &&& forall|i: int| 0 <= i < m.len() ==> same_slot(#[trigger] m2[i], m[i]) && m2[i].freq >= m[i].freq
            &&& has_key(m2, e)
            &&& forall|i: int| 0 <= i < m2.len() ==> has_key(m, #[trigger] m2[i]) || m2[i].same_key(e)
            &&& forall|i: int| 0 <= i < m.len() && !m[i].same_key(e) ==> m2[i] == m[i]
        }),
{
    lemma_first_match(m, e);
    let m2 = scan_step(m, e);
    let p = first_match(m, e);
    if p >= 0 {
        assert(m2[p] == bump(m[p], e));
        assert(m2[p].same_key(e));
        assert forall|i: int| 0 <= i < m2.len() implies has_key(m, #[trigger] m2[i]) || m2[i].same_key(e) by {
            assert(m[i].same_key(m2[i]));
        }
    } else {
        assert(m2[m.len() as int] == e);
        assert forall|i: int| 0 <= i < m2.len() implies has_key(m, #[trigger] m2[i]) || m2[i].same_key(e) by {
            if i < m.len() {
                assert(m[i].same_key(m2[i]));
            }
        }
    }
}

/// A scan keeps every earlier entry in its place with its code, word and
/// source, never lowers a count, leaves untouched every entry whose word was
/// not found, holds every word found, and holds no other new word.
pub proof fn law_scan_keeps_and_adds(m: Seq<Entry>, es: Seq<Entry>)
    ensures
        ({
            let m2 = scan_entries(m, es);
            &&& m.len() <= m2.len() <= m.len() + es.len()
            &&& forall|i: int| 0 <= i < m.len() ==> same_slot(#[trigger] m2[i], m[i]) && m2[i].freq >= m[i].freq
            &&& forall|i: int| 0 <= i < m.len() && !has_key(es, m[i]) ==> #[trigger] m2[i] == m[i]
            &&& forall|j: int| 0 <= j < es.len() ==> has_key(m2, #[trigger] es[j])
            &&& forall|i: int| 0 <= i < m2.len() ==> has_key(m, #[trigger] m2[i]) || has_key(es, m2[i])
        }),
    decreases es.len(),
{
    if es.len() > 0 {
        let es0 = es.drop_last();
        let e = es.last();
        assert(e == es[es.len() - 1]);
        law_scan_keeps_and_adds(m, es0);
        let m0 = scan_entries(m, es0);
        let m2 = scan_entries(m, es);
        lemma_scan_step(m0, e);
        assert forall|i: int| 0 <= i < m.len() && !has_key(es, m[i]) implies #[trigger] m2[i] == m[i] by {
            assert(!has_key(es0, m[i])) by {
                if has_key(es0, m[i]) {
                    let j = choose|j: int| 0 <= j < es0.len() && (#[trigger] es0[j]).same_key(m[i]);
                    assert(es[j] == es0[j]);
                }
            }
            assert(m0[i] == m[i]);
            if m0[i].same_key(e) {
                assert(es[es.len() - 1].same_key(m[i]));
            }
        }
        assert forall|j: int| 0 <= j < es.len() implies has_key(m2, #[trigger] es[j]) by {
            if j < es0.len() {
                assert(es0[j] == es[j]);
                let k = choose|k: int| 0 <= k < m0.len() && (#[trigger] m0[k]).same_key(es0[j]);
                assert(m2[k].same_key(m0[k]));
            }
        }
        assert forall|i: int| 0 <= i < m2.len() implies has_key(m, #[trigger] m2[i]) || has_key(es, m2[i]) by {
            if m2[i].same_key(e) {
                assert(es[es.len() - 1] == e);
            } else {
                let k = choose|k: int| 0 <= k < m0.len() && (#[trigger] m0[k]).same_key(m2[i]);
                if has_key(m, m0[k]) {
                    let j = choose|j: int| 0 <= j < m.len() && (#[trigger] m[j]).same_key(m0[k]);
                    assert(m[j].same_key(m2[i]));
                } else {
                    let j = choose|j: int| 0 <= j < es0.len() && (#[trigger] es0[j]).same_key(m0[k]);
                    assert(es[j] == es0[j]);
                    assert(es[j].same_key(m2[i]));
                }
            }
        }
    }
}

/// The three backticks that open and close a fenced code block.
pub open spec fn backticks() -> Seq<char> {
    seq!['`', '`', '`']
}

/// The line `---` that opens and closes front matter.
pub open spec fn dashes() -> Seq<char> {
    seq!['-', '-', '-']
}

/// `l` does not start with a backtick.
pub open spec fn plain(l: Seq<char>) -> bool {
    l.len() == 0 || l[0] != '`'
}

/// Inside a block, plain lines are left out up to the closing backticks,
/// after which lines count again.
proof fn lemma_inside_block(code: Seq<Seq<char>>, rest: Seq<Seq<char>>)
    requires
        forall|k: int| 0 <= k < code.len() ==> plain(#[trigger] code[k]),
    ensures
        prose_lines(code + seq![backticks()] + rest, true) == prose_lines(rest, false),
    decreases code.len(),
{
    let ls = code + seq![backticks()] + rest;
    if code.len() == 0 {
        assert(ls[0] == backticks());
        assert(ls.drop_first() =~= rest);
    } else {
        assert(ls[0] == code[0]);
        assert(plain(code[0]));
        assert(!is_fence(ls[0]));
        assert(ls.drop_first() =~= code.drop_first() + seq![backticks()] + rest);
        assert forall|k: int| 0 <= k < code.drop_first().len() implies plain(#[trigger] code.drop_first()[k]) by {
            assert(code.drop_first()[k] == code[k + 1]);
        }
        lemma_inside_block(code.drop_first(), rest);
    }
}

/// A fenced code block, opened by a line that starts with three backticks
/// (whatever follows them, such as a language name) and closed by a line of
/// three backticks, is left out with its fence lines, and the lines after it
/// count as before.
pub proof fn law_fenced_block_left_out(info: Seq<char>, code: Seq<Seq<char>>, rest: Seq<Seq<char>>)
    requires
        forall|k: int| 0 <= k < code.len() ==> plain(#[trigger] code[k]),
    ensures
        prose_lines(seq![backticks() + info] + code + seq![backticks()] + rest, false) == prose_lines(rest, false),
{
    let ls = seq![backticks() + info] + code + seq![backticks()] + rest;
    assert(ls[0] == backticks() + info);
    assert(is_fence(ls[0]));
    assert(ls.drop_first() =~= code + seq![backticks()] + rest);
    lemma_inside_block(code, rest);
}

/// Outside code blocks, lines that do not start with a backtick are all kept,
/// in order.
pub proof fn law_plain_lines_kept(ls: Seq<Seq<char>>)
    requires
        forall|k: int| 0 <= k < ls.len() ==> plain(#[trigger] ls[k]),
    ensures
        prose_lines(ls, false) == ls,
    decreases ls.len(),
{
    if ls.len() > 0 {
        assert(plain(ls[0]));
        assert forall|k: int| 0 <= k < ls.drop_first().len() implies plain(#[trigger] ls.drop_first()[k]) by {
            assert(ls.drop_first()[k] == ls[k + 1]);
        }
        law_plain_lines_kept(ls.drop_first());
        assert(seq![ls[0]] + ls.drop_first() =~= ls);
    }
}

/// A line is a front matter delimiter exactly when it is `---`.
proof fn lemma_front_delim(l: Seq<char>)
    ensures
        is_front_delim(l) <==> l == dashes(),
{
    if is_front_delim(l) {
        assert(l =~= dashes());
    }
}

/// Searching from `k` finds the first `---` line at or after `k`.
proof fn lemma_closing_from(ls: Seq<Seq<char>>, k: int, i: int)
    requires
        1 <= k <= i < ls.len(),
        ls[i] == dashes(),
        forall|m: int| 1 <= m < i ==> #[trigger] ls[m] != dashes(),
    ensures
        closing_delim(ls, k) == i,
    decreases i - k,
{
    lemma_front_delim(ls[k]);
    if k < i {
        lemma_closing_from(ls, k + 1, i);
    }
}

/// With no `---` line at or after `k`, the search finds none.
proof fn lemma_closing_none(ls: Seq<Seq<char>>, k: int)
    requires
        1 <= k,
        forall|m: int| k <= m < ls.len() ==> #[trigger] ls[m] != dashes(),
    ensures
        closing_delim(ls, k) == -1,
    decreases ls.len() - k,
{
    if k < ls.len() {
        lemma_front_delim(ls[k]);
        lemma_closing_none(ls, k + 1);
    }
}

/// Front matter opens with a first line `---` and ends at the first `---`
/// line after it: the lines up to and including that one are left out, and
/// every later line counts, even another `---`. Without an opening `---`, or
/// without a closing one, there is no front matter.
pub proof fn law_front_matter(ls: Seq<Seq<char>>, i: int)
    ensures
        ls.len() > 0 && ls[0] == dashes() && 1 <= i < ls.len() && ls[i] == dashes()
            && (forall|m: int| 1 <= m < i ==> #[trigger] ls[m] != dashes()) ==> front_matter_len(ls) == i + 1,
        (ls.len() == 0 || ls[0] != dashes()) ==> front_matter_len(ls) == 0,
        (forall|m: int| 1 <= m < ls.len() ==> #[trigger] ls[m] != dashes()) ==> front_matter_len(ls) == 0,
{
    if ls.len() > 0 {
        lemma_front_delim(ls[0]);
    }
    if ls.len() > 0 && ls[0] == dashes() && 1 <= i < ls.len() && ls[i] == dashes()
        && (forall|m: int| 1 <= m < i ==> #[trigger] ls[m] != dashes()) {
        lemma_closing_from(ls, 1, i);
    }
    if forall|m: int| 1 <= m < ls.len() ==> #[trigger] ls[m] != dashes() {
        lemma_closing_none(ls, 1);
    }
}

} // verus!
